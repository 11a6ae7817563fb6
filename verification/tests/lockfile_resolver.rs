use std::path::Path;

use depsy_lsp::dependency::{Dependency, Span};
use depsy_lsp::file_types::FileType;
use depsy_lsp::lockfile_graph::{LockfileGraph, LockfilePackage};
use depsy_lsp::lockfile_resolver::{
    lookup_for, resolve_by_key, resolve_versions_from_lockfile, select_resolver, LockfileResolver,
    Lookup, ResolverKind,
};
use depsy_lsp::selection::select_locked_version;
use depsy_lsp::staleness::lockfile_is_stale;

type Found = (String, u8);

fn extension(path: &str) -> Option<&str> {
    Path::new(path).extension().and_then(|e| e.to_str())
}

fn select(
    file_type: FileType,
    path: &str,
    root: Option<String>,
) -> Option<ResolverKind<Found, Found>> {
    select_resolver(file_type, extension(path), root, None, None)
}

#[test]
fn select_resolver_returns_cargo_resolver_for_cargo_filetype() {
    let resolver = select(FileType::Cargo, "/tmp/Cargo.toml", Some("demo".to_string()));
    assert!(resolver.is_some(), "Cargo should yield a resolver");
    assert!(matches!(
        resolver,
        Some(ResolverKind::Cargo { root_package: Some(name) }) if name == "demo"
    ));
}

#[test]
fn select_resolver_returns_none_for_maven() {
    let result = select(FileType::Maven, "/tmp/pom.xml", None);
    assert!(result.is_none(), "Maven should not produce a resolver");
}

#[test]
fn select_resolver_restricts_csharp_lockfiles_to_csproj() {
    for (path, expected) in [
        ("/tmp/App.csproj", true),
        ("/tmp/Directory.Build.props", false),
        ("/tmp/Directory.Packages.props", false),
    ] {
        let resolver = select(FileType::Csharp, path, None);
        assert_eq!(resolver.is_some(), expected, "unexpected result for {path}");
    }
}

struct StubResolver {
    graph: LockfileGraph,
}

impl LockfileResolver for StubResolver {
    fn parse_graph(&self, _content: &str) -> LockfileGraph {
        LockfileGraph { packages: self.graph.packages.clone() }
    }
}

fn test_dep(name: &str, version: &str) -> Dependency {
    Dependency {
        name: name.to_string(),
        version: version.to_string(),
        name_span: Span { line: 0, line_start: 0, line_end: 0 },
        version_span: Span { line: 0, line_start: 0, line_end: 0 },
        dev: false,
        optional: false,
        registry: None,
        resolved_version: None,
        has_additional_version_constraints: false,
    }
}

fn test_pkg(name: &str, version: &str) -> LockfilePackage {
    LockfilePackage {
        name: name.to_string(),
        version: version.to_string(),
        dependencies: Vec::new(),
        is_root: false,
    }
}

#[test]
fn helper_returns_none_when_resolver_finds_no_lockfile() {
    let resolver: Box<dyn LockfileResolver> =
        Box::new(StubResolver { graph: LockfileGraph { packages: vec![] } });
    let mut deps = vec![test_dep("serde", "1.0.0")];
    let result = resolve_versions_from_lockfile(&mut deps, resolver.as_ref(), None);
    assert!(result.is_none());
    assert_eq!(deps[0].resolved_version, None);
}

/// The default `resolve_version` normalizes both sides, so that resolvers whose
/// `parse_graph` does not normalize names beforehand still match.
#[test]
fn default_resolve_version_normalizes_both_sides() {
    struct LowercaseResolver;
    impl LockfileResolver for LowercaseResolver {
        fn parse_graph(&self, _: &str) -> LockfileGraph {
            LockfileGraph { packages: vec![] }
        }
        fn normalize_name(&self, name: &str) -> String {
            name.to_lowercase()
        }
    }

    let resolver = LowercaseResolver;
    let graph = LockfileGraph {
        // The graph stores the name in mixed case.
        packages: vec![test_pkg("Newtonsoft.Json", "13.0.1")],
    };
    let dep = test_dep("newtonsoft.json", "13.0");
    assert_eq!(
        resolver.resolve_version(&dep, &graph),
        Some("13.0.1".to_string()),
        "normalization must apply to both dep.name AND package.name"
    );
}

#[test]
fn helper_resolves_versions_via_resolver() {
    let resolver: Box<dyn LockfileResolver> = Box::new(StubResolver {
        graph: LockfileGraph {
            packages: vec![test_pkg("serde", "1.0.230"), test_pkg("tokio", "1.50.0")],
        },
    });
    let mut deps =
        vec![test_dep("serde", "1.0"), test_dep("tokio", "1.0"), test_dep("absent", "0")];
    let arc = resolve_versions_from_lockfile(
        &mut deps,
        resolver.as_ref(),
        Some("# stub lockfile content"),
    )
    .expect("expected Some(graph)");
    assert_eq!(arc.packages.len(), 2);
    assert_eq!(deps[0].resolved_version, Some("1.0.230".to_string()));
    assert_eq!(deps[1].resolved_version, Some("1.50.0".to_string()));
    assert_eq!(deps[2].resolved_version, None);
}

#[test]
fn stale_lock_pin_is_detected() {
    // Manifest hand-edited, lockfile not regenerated
    assert!(lockfile_is_stale("1.0.220", "1.0.210"));
    assert!(lockfile_is_stale("^1.0.220", "1.0.210"));
    assert!(lockfile_is_stale("~=4.1", "4.0.3"));
    assert!(lockfile_is_stale(">=2.0", "1.9.9"));
    assert!(lockfile_is_stale("v1.22.0", "v1.21.5"));
    assert!(lockfile_is_stale(">1.2.0", "1.2.0"));
}

#[test]
fn fresh_lock_pin_is_kept() {
    // The normal case: the lock is more precise than the declared range
    assert!(!lockfile_is_stale("^1.0", "1.0.210"));
    assert!(!lockfile_is_stale("1.0.210", "1.0.210"));
    assert!(!lockfile_is_stale("~1.2", "1.2.9"));
    assert!(!lockfile_is_stale(">=1.2.0", "1.2.0"));
    assert!(!lockfile_is_stale(">1.2.0", "1.2.1"));
    // No lower bound declared, or nothing parseable: never reject
    assert!(!lockfile_is_stale("<2.0", "1.9.0"));
    assert!(!lockfile_is_stale("!=1.2.0", "1.1.0"));
    assert!(!lockfile_is_stale("*", "1.0.0"));
    assert!(!lockfile_is_stale("", "1.0.0"));
    assert!(!lockfile_is_stale("workspace:*", "1.0.0"));
    assert!(!lockfile_is_stale("file:../local", "1.0.0"));
    assert!(!lockfile_is_stale("^4.0.0a7", "4.0.0a6"));
}

#[test]
fn select_locked_version_never_returns_an_incompatible_entry() {
    // Requirement parses and candidates parse, but nothing satisfies it:
    // leaving it unresolved is better than pinning a forbidden version
    assert_eq!(select_locked_version("~1.1", &["1.2.0", "1.3.0"]), None);
    // Same rule with a single candidate: the sole-pin path must not be a
    // hole in the check
    assert_eq!(select_locked_version("~1.1", &["1.2.0"]), None);
    assert_eq!(select_locked_version("~1.1", &["1.1.9"]), Some("1.1.9"));
    // Tolerant fallbacks still apply with one candidate
    assert_eq!(select_locked_version("~=1.4", &["1.6.0"]), Some("1.6.0"));
    assert_eq!(select_locked_version(">=1.0", &["2024.1.1.5"]), Some("2024.1.1.5"));
}

#[test]
fn manual_bump_is_not_overridden_by_stale_lockfile() {
    let resolver: Box<dyn LockfileResolver> = Box::new(StubResolver {
        graph: LockfileGraph {
            packages: vec![test_pkg("serde", "1.0.210"), test_pkg("tokio", "1.44.0")],
        },
    });
    // serde was bumped by hand past the lock pin; tokio was not
    let mut deps = vec![test_dep("serde", "1.0.220"), test_dep("tokio", "1.44")];
    resolve_versions_from_lockfile(
        &mut deps,
        resolver.as_ref(),
        Some("# stub lockfile content"),
    )
    .expect("expected Some(graph)");
    assert_eq!(
        deps[0].resolved_version, None,
        "stale pin must not shadow the manifest version"
    );
    assert_eq!(deps[0].effective_version(), "1.0.220");
    assert_eq!(deps[1].resolved_version, Some("1.44.0".to_string()));
}

struct PlainResolver;

impl LockfileResolver for PlainResolver {
    fn parse_graph(&self, _: &str) -> LockfileGraph {
        LockfileGraph { packages: vec![] }
    }
}

#[test]
fn multi_version_lockfile_picks_the_matching_entry() {
    let graph = LockfileGraph {
        packages: vec![test_pkg("windows-sys", "0.52.0"), test_pkg("windows-sys", "0.59.0")],
    };
    assert_eq!(
        PlainResolver.resolve_version(&test_dep("windows-sys", "0.59"), &graph),
        Some("0.59.0".to_string()),
        "must not first-wins onto the 0.52 entry"
    );
    assert_eq!(
        PlainResolver.resolve_version(&test_dep("windows-sys", "0.52"), &graph),
        Some("0.52.0".to_string()),
        "must not jump to a version the manifest does not allow"
    );
}

#[test]
fn select_locked_version_falls_back_to_first_wins() {
    // Declared spec is not a semver requirement: keep the previous behaviour
    assert_eq!(select_locked_version("~=1.4", &["1.4.0", "1.6.0"]), Some("1.4.0"));
    assert_eq!(select_locked_version("^1.0", &[]), None);
    assert_eq!(
        select_locked_version(">=1.0", &["2024.1.1.5", "2024.2.0.0"]),
        Some("2024.1.1.5")
    );
    assert_eq!(select_locked_version("^1.0", &[]), None);
}

#[test]
fn each_file_type_selects_its_resolver() {
    assert!(matches!(select(FileType::Go, "go.mod", None), Some(ResolverKind::Go)));
    assert!(matches!(select(FileType::Php, "composer.json", None), Some(ResolverKind::Php)));
    assert!(matches!(select(FileType::Dart, "pubspec.yaml", None), Some(ResolverKind::Dart)));
    assert!(matches!(select(FileType::Ruby, "Gemfile", None), Some(ResolverKind::Ruby)));
    assert!(matches!(select(FileType::Csharp, "A.csproj", None), Some(ResolverKind::Csharp)));
    assert!(select(FileType::Csharp, "csproj", None).is_none());
    assert!(select(FileType::Csharp, "A.csproj2", None).is_none());
    assert!(select(FileType::Npm, "package.json", None).is_none());
    assert!(select(FileType::Python, "pyproject.toml", None).is_none());
}

#[test]
fn the_lockfile_found_is_handed_on() {
    let npm: Found = ("package-lock.json".to_string(), 1);
    let python: Found = ("uv.lock".to_string(), 2);
    let both = |t: FileType| {
        select_resolver(t, Some("json"), None, Some(npm.clone()), Some(python.clone()))
    };
    assert!(matches!(both(FileType::Npm), Some(ResolverKind::Npm(f)) if f == npm));
    assert!(matches!(both(FileType::Python), Some(ResolverKind::Python(f)) if f == python));
    assert!(matches!(both(FileType::Cargo), Some(ResolverKind::Cargo { root_package: None })));
    assert!(both(FileType::Maven).is_none());
}

#[test]
fn lookups_by_file_type() {
    assert_eq!(lookup_for(FileType::Cargo), Lookup::CargoRootPackage);
    assert_eq!(lookup_for(FileType::Npm), Lookup::NpmLockfile);
    assert_eq!(lookup_for(FileType::Python), Lookup::PythonLockfile);
    for t in [
        FileType::Go,
        FileType::Php,
        FileType::Dart,
        FileType::Csharp,
        FileType::Ruby,
        FileType::Maven,
    ] {
        assert_eq!(lookup_for(t), Lookup::Nothing);
    }
}

#[test]
fn default_names_are_compared_as_they_are() {
    assert_eq!(PlainResolver.normalize_name("Foo_Bar"), "Foo_Bar");
    let graph = LockfileGraph { packages: vec![test_pkg("Serde", "1.0.1")] };
    assert_eq!(PlainResolver.resolve_version(&test_dep("serde", "1.0"), &graph), None);
    assert_eq!(
        PlainResolver.resolve_version(&test_dep("Serde", "1.0"), &graph),
        Some("1.0.1".to_string())
    );
}

#[test]
fn only_packages_with_the_wanted_key_count() {
    let packages =
        vec![test_pkg("A", "1.9.0"), test_pkg("b", "1.8.0"), test_pkg("a", "1.7.0")];
    let keys = vec!["a".to_string(), "b".to_string(), "a".to_string()];
    let pick = |declared: &str, wanted: &str| {
        resolve_by_key(declared, &wanted.to_string(), &keys, &packages)
    };
    assert_eq!(pick("^1.0", "a"), Some("1.9.0".to_string()));
    assert_eq!(pick("~1.7", "a"), Some("1.7.0".to_string()));
    assert_eq!(pick("^1.0", "b"), Some("1.8.0".to_string()));
    assert_eq!(pick("^1.0", "c"), None);
}

#[test]
fn a_resolver_may_override_the_lookup() {
    struct FixedResolver;
    impl LockfileResolver for FixedResolver {
        fn parse_graph(&self, content: &str) -> LockfileGraph {
            LockfileGraph { packages: vec![test_pkg("text", content)] }
        }
        fn resolve_version(&self, dep: &Dependency, _: &LockfileGraph) -> Option<String> {
            if dep.dev {
                None
            } else {
                Some("2.0.0".to_string())
            }
        }
    }
    let mut deps = vec![test_dep("a", "1.0"), test_dep("b", "3.0"), test_dep("c", "1.0")];
    deps[1].resolved_version = Some("3.1.0".to_string());
    deps[2].dev = true;
    let graph = resolve_versions_from_lockfile(&mut deps, &FixedResolver, Some("hello"))
        .expect("a graph");
    assert_eq!(graph.packages[0].version, "hello");
    assert_eq!(deps[0].resolved_version, Some("2.0.0".to_string()));
    // A stale pin leaves what was resolved before.
    assert_eq!(deps[1].resolved_version, Some("3.1.0".to_string()));
    assert_eq!(deps[1].effective_version(), "3.1.0");
    assert_eq!(deps[2].resolved_version, None);
    assert_eq!(deps[2].effective_version(), "1.0");
    // Resolving again changes nothing.
    let once = deps.clone();
    resolve_versions_from_lockfile(&mut deps, &FixedResolver, Some("hello")).expect("a graph");
    assert_eq!(deps, once);
}
