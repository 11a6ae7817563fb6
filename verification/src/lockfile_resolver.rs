//! Lockfile resolution for every ecosystem through one code path.
//!
//! - [`select_resolver`] picks the kind of resolver for a manifest.
//! - [`LockfileResolver`] is what each ecosystem provides.
//! - [`resolve_versions_from_lockfile`] sets the resolved version of each
//!   dependency of a manifest.

use std::sync::Arc;

use vstd::prelude::*;

use crate::dependency::{apply_pin, with_pin, with_pins, Dependency};
use crate::file_types::FileType;
use crate::lockfile_graph::{LockfileGraph, LockfilePackage};
use crate::selection::{
    choice_is_a_candidate, locked_version, no_entry_no_choice, select_locked_version, texts,
};
use crate::text::same_text;

verus! {

/// The contents of a list of strings.
pub open spec fn contents(list: Seq<String>) -> Seq<Seq<char>> {
    list.map_values(|s: String| s@)
}

/// The contents of an optional string.
pub open spec fn content(s: Option<String>) -> Option<Seq<char>> {
    match s {
        Some(s) => Some(s@),
        None => None,
    }
}

/// The versions of a list of packages.
pub open spec fn versions_of(packages: Seq<LockfilePackage>) -> Seq<Seq<char>> {
    packages.map_values(|p: LockfilePackage| p.version@)
}

/// The names of a list of packages.
pub open spec fn names_of(packages: Seq<LockfilePackage>) -> Seq<Seq<char>> {
    packages.map_values(|p: LockfilePackage| p.name@)
}

/// The versions of the packages whose key is `wanted`, in their order.
pub open spec fn pins_of(
    wanted: Seq<char>,
    keys: Seq<Seq<char>>,
    versions: Seq<Seq<char>>,
) -> Seq<Seq<char>>
    decreases keys.len(),
{
    if keys.len() == 0 {
        Seq::empty()
    } else {
        let before = pins_of(wanted, keys.drop_last(), versions.drop_last());
        if keys.last() == wanted {
            before.push(versions.last())
        } else {
            before
        }
    }
}

/// The locked version of a dependency, given its key and the key of each package:
/// the entry chosen among the packages with the same key.
pub fn resolve_by_key(
    declared: &str,
    wanted: &String,
    keys: &Vec<String>,
    packages: &Vec<LockfilePackage>,
) -> (r: Option<String>)
    requires
        keys@.len() == packages@.len(),
    ensures
        content(r) == locked_version(
            declared@,
            pins_of(wanted@, contents(keys@), versions_of(packages@)),
        ),
{
    let ghost ks = contents(keys@);
    let ghost vs = versions_of(packages@);
    let mut candidates: Vec<&str> = Vec::new();
    let mut i: usize = 0;
    while i < packages.len()
        invariant
            i <= packages@.len(),
            keys@.len() == packages@.len(),
            ks == contents(keys@),
            vs == versions_of(packages@),
            texts(candidates@) =~= pins_of(wanted@, ks.take(i as int), vs.take(i as int)),
        decreases packages@.len() - i,
    {
        assert(ks.take(i + 1).drop_last() =~= ks.take(i as int));
        assert(vs.take(i + 1).drop_last() =~= vs.take(i as int));
        assert(ks.take(i + 1).last() == keys@[i as int]@);
        assert(vs.take(i + 1).last() == packages@[i as int].version@);
        if keys[i] == *wanted {
            candidates.push(packages[i].version.as_str());
        }
        i = i + 1;
    }
    assert(ks.take(i as int) =~= ks);
    assert(vs.take(i as int) =~= vs);
    match select_locked_version(declared, candidates.as_slice()) {
        Some(v) => Some(v.to_owned()),
        None => None,
    }
}

/// Per-ecosystem lockfile resolver.
///
/// [`parse_graph`](LockfileResolver::parse_graph) converts the text of a lockfile
/// into a [`LockfileGraph`], and
/// [`resolve_version`](LockfileResolver::resolve_version) maps a manifest
/// dependency to its exact locked version. Name normalization is exposed through
/// [`normalize_name`](LockfileResolver::normalize_name), so that both sides of the
/// comparison use the same canonical form.
pub trait LockfileResolver: Send + Sync {
    /// Parses lockfile contents into a [`LockfileGraph`]; an empty graph where
    /// they cannot be parsed.
    fn parse_graph(&self, lock_content: &str) -> LockfileGraph;

    /// Normalizes a package name for lookup. The default is the identity;
    /// ecosystems with case-insensitive or separator-normalized names override it.
    fn normalize_name(&self, name: &str) -> (r: String)
        default_ensures
            r@ == name@,
    {
        name.to_string()
    }

    /// Resolves the locked version of one dependency.
    ///
    /// The default looks the package up by normalized name, where both the name of
    /// the dependency and the name of each package are normalized, and chooses
    /// among the entries found. Ecosystems with other rules override it.
    fn resolve_version(&self, dep: &Dependency, graph: &LockfileGraph) -> (r: Option<String>)
        default_ensures
            exists|name: &str, wanted: String, names: Seq<&str>, keys: Seq<String>|
                {
                    &&& name@ == dep.name@
                    &&& #[trigger] call_ensures(Self::normalize_name, (self, name), wanted)
                    &&& #[trigger] texts(names) == names_of(graph.packages@)
                    &&& keys.len() == names.len()
                    &&& forall|i: int|
                        0 <= i < keys.len() ==> call_ensures(
                            Self::normalize_name,
                            (self, names[i]),
                            #[trigger] keys[i],
                        )
                    &&& content(r) == locked_version(
                        dep.version@,
                        pins_of(
                            wanted@,
                            #[trigger] contents(keys),
                            versions_of(graph.packages@),
                        ),
                    )
                },
    {
        let name = dep.name.as_str();
        let wanted = self.normalize_name(name);
        let ghost mut names: Seq<&str> = Seq::empty();
        let mut keys: Vec<String> = Vec::new();
        let mut i: usize = 0;
        while i < graph.packages.len()
            invariant
                i <= graph.packages@.len(),
                keys@.len() == i,
                names.len() == i,
                forall|j: int| 0 <= j < i ==> #[trigger] names[j]@ == graph.packages@[j].name@,
                forall|j: int|
                    0 <= j < i ==> call_ensures(
                        Self::normalize_name,
                        (self, names[j]),
                        #[trigger] keys@[j],
                    ),
            decreases graph.packages@.len() - i,
        {
            let package_name = graph.packages[i].name.as_str();
            keys.push(self.normalize_name(package_name));
            proof {
                names = names.push(package_name);
            }
            i = i + 1;
        }
        assert(texts(names) =~= names_of(graph.packages@));
        let r = resolve_by_key(dep.version.as_str(), &wanted, &keys, &graph.packages);
        assert(call_ensures(Self::normalize_name, (self, name), wanted));
        assert(content(r) == locked_version(
            dep.version@,
            pins_of(wanted@, contents(keys@), versions_of(graph.packages@)),
        ));
        r
    }
}

/// The resolver that matches a manifest. `N` and `P` are what the search for an
/// npm and for a Python lockfile finds: its path and its format.
pub enum ResolverKind<N, P> {
    Cargo { root_package: Option<String> },
    Npm(N),
    Python(P),
    Go,
    Php,
    Dart,
    Csharp,
    Ruby,
}

/// What has to be looked up before a resolver can be selected.
#[derive(Clone, Copy, Debug, PartialEq, Eq, Structural)]
pub enum Lookup {
    Nothing,
    /// The name of the root package in the manifest.
    CargoRootPackage,
    /// The npm lockfile beside the manifest.
    NpmLockfile,
    /// The Python lockfile beside the manifest.
    PythonLockfile,
}

/// The lookup that selecting a resolver for `file_type` depends on.
pub open spec fn lookup_needed(file_type: FileType) -> Lookup {
    match file_type {
        FileType::Cargo => Lookup::CargoRootPackage,
        FileType::Npm => Lookup::NpmLockfile,
        FileType::Python => Lookup::PythonLockfile,
        _ => Lookup::Nothing,
    }
}

/// The resolver for a manifest, given its extension and what was looked up.
pub open spec fn selected<N, P>(
    file_type: FileType,
    manifest_extension: Option<Seq<char>>,
    root_package: Option<String>,
    npm_lockfile: Option<N>,
    python_lockfile: Option<P>,
) -> Option<ResolverKind<N, P>> {
    match file_type {
        FileType::Cargo => Some(ResolverKind::Cargo { root_package }),
        FileType::Npm => match npm_lockfile {
            Some(found) => Some(ResolverKind::Npm(found)),
            None => None,
        },
        FileType::Python => match python_lockfile {
            Some(found) => Some(ResolverKind::Python(found)),
            None => None,
        },
        FileType::Go => Some(ResolverKind::Go),
        FileType::Php => Some(ResolverKind::Php),
        FileType::Dart => Some(ResolverKind::Dart),
        FileType::Csharp => if manifest_extension == Some("csproj"@) {
            Some(ResolverKind::Csharp)
        } else {
            None
        },
        FileType::Ruby => Some(ResolverKind::Ruby),
        FileType::Maven => None,
    }
}

/// The contents of an optional string slice.
pub open spec fn optional_text(s: Option<&str>) -> Option<Seq<char>> {
    match s {
        Some(s) => Some(s@),
        None => None,
    }
}

/// The lookup to make before [`select_resolver`] is called for `file_type`.
pub fn lookup_for(file_type: FileType) -> (r: Lookup)
    ensures
        r == lookup_needed(file_type),
{
    match file_type {
        FileType::Cargo => Lookup::CargoRootPackage,
        FileType::Npm => Lookup::NpmLockfile,
        FileType::Python => Lookup::PythonLockfile,
        _ => Lookup::Nothing,
    }
}

/// Returns the kind of [`LockfileResolver`] that matches `file_type`.
///
/// `None` for [`FileType::Maven`], for C# manifests that are not `.csproj` files,
/// and for npm and Python manifests without a lockfile. Of the three findings only
/// the one that [`lookup_for`] names plays a part.
pub fn select_resolver<N, P>(
    file_type: FileType,
    manifest_extension: Option<&str>,
    root_package: Option<String>,
    npm_lockfile: Option<N>,
    python_lockfile: Option<P>,
) -> (r: Option<ResolverKind<N, P>>)
    ensures
        r == selected(
            file_type,
            optional_text(manifest_extension),
            root_package,
            npm_lockfile,
            python_lockfile,
        ),
{
    match file_type {
        FileType::Cargo => Some(ResolverKind::Cargo { root_package }),
        FileType::Npm => match npm_lockfile {
            Some(found) => Some(ResolverKind::Npm(found)),
            None => None,
        },
        FileType::Python => match python_lockfile {
            Some(found) => Some(ResolverKind::Python(found)),
            None => None,
        },
        FileType::Go => Some(ResolverKind::Go),
        FileType::Php => Some(ResolverKind::Php),
        FileType::Dart => Some(ResolverKind::Dart),
        FileType::Csharp => match manifest_extension {
            Some(extension) if same_text(extension, "csproj") => Some(ResolverKind::Csharp),
            _ => None,
        },
        FileType::Ruby => Some(ResolverKind::Ruby),
        FileType::Maven => None,
    }
}

/// Resolves locked versions for all `dependencies` with the provided resolver.
///
/// `lock_content` is the text of the lockfile, `None` where no lockfile was found
/// or it could not be read. The text is parsed into a [`LockfileGraph`], and each
/// dependency gets the version that the resolver finds pinned for it as its
/// `resolved_version`. Dependencies that are absent from the lockfile are left
/// unchanged, and so are dependencies whose pin is older than the version
/// declared in the manifest.
///
/// Returns the parsed graph, `None` where there is no lockfile to parse.
pub fn resolve_versions_from_lockfile<R: LockfileResolver + ?Sized>(
    dependencies: &mut [Dependency],
    resolver: &R,
    lock_content: Option<&str>,
) -> (r: Option<Arc<LockfileGraph>>)
    ensures
        r is Some == lock_content is Some,
        lock_content is None ==> final(dependencies)@ == old(dependencies)@,
        lock_content matches Some(text) ==> call_ensures(
            R::parse_graph,
            (resolver, text),
            *r->0,
        ),
        lock_content is Some ==> exists|pins: Seq<Option<String>>|
            {
                &&& pins.len() == old(dependencies)@.len()
                &&& forall|i: int|
                    0 <= i < pins.len() ==> call_ensures(
                        R::resolve_version,
                        (resolver, &old(dependencies)@[i], &*r->0),
                        #[trigger] pins[i],
                    )
                &&& final(dependencies)@ == #[trigger] with_pins(old(dependencies)@, pins)
            },
{
    match lock_content {
        None => None,
        Some(text) => {
            let graph = resolver.parse_graph(text);
            let ghost before = dependencies@;
            let ghost mut pins: Seq<Option<String>> = Seq::empty();
            let mut i: usize = 0;
            while i < dependencies.len()
                invariant
                    i <= dependencies@.len(),
                    dependencies@.len() == before.len(),
                    pins.len() == i,
                    forall|j: int| i <= j < before.len() ==> dependencies@[j] == before[j],
                    forall|j: int|
                        0 <= j < i ==> #[trigger] dependencies@[j] == with_pin(before[j], pins[j]),
                    forall|j: int|
                        0 <= j < i ==> call_ensures(
                            R::resolve_version,
                            (resolver, &before[j], &graph),
                            #[trigger] pins[j],
                        ),
                decreases dependencies@.len() - i,
            {
                let pin = resolver.resolve_version(&dependencies[i], &graph);
                proof {
                    pins = pins.push(pin);
                }
                apply_pin(&mut dependencies[i], pin);
                i = i + 1;
            }
            assert(dependencies@ =~= with_pins(before, pins));
            Some(Arc::new(graph))
        },
    }
}

/// `r` is what the default lookup of `dep` in `graph` gives: the name of the
/// dependency and the name of each package went through `normalize_name`.
pub open spec fn looked_up_by_name<R: LockfileResolver + ?Sized>(
    resolver: &R,
    dep: Dependency,
    graph: LockfileGraph,
    r: Option<String>,
) -> bool {
    exists|name: &str, wanted: String, names: Seq<&str>, keys: Seq<String>|
        {
            &&& name@ == dep.name@
            &&& #[trigger] call_ensures(R::normalize_name, (resolver, name), wanted)
            &&& #[trigger] texts(names) == names_of(graph.packages@)
            &&& keys.len() == names.len()
            &&& forall|i: int|
                0 <= i < keys.len() ==> call_ensures(
                    R::normalize_name,
                    (resolver, names[i]),
                    #[trigger] keys[i],
                )
            &&& content(r) == locked_version(
                dep.version@,
                pins_of(wanted@, #[trigger] contents(keys), versions_of(graph.packages@)),
            )
        }
}

/// Where `normalize_name` computes `f`, the default lookup compares `f` of the
/// dependency's name with `f` of each package's name.
pub proof fn names_are_normalized_on_both_sides<R: LockfileResolver + ?Sized>(
    resolver: &R,
    f: spec_fn(Seq<char>) -> Seq<char>,
    dep: Dependency,
    graph: LockfileGraph,
    r: Option<String>,
)
    requires
        looked_up_by_name(resolver, dep, graph, r),
        forall|n: &str, k: String| #[trigger]
            call_ensures(R::normalize_name, (resolver, n), k) ==> k@ == f(n@),
    ensures
        content(r) == locked_version(
            dep.version@,
            pins_of(
                f(dep.name@),
                names_of(graph.packages@).map_values(f),
                versions_of(graph.packages@),
            ),
        ),
{
    let (name, wanted, names, keys): (&str, String, Seq<&str>, Seq<String>) = choose|
        name: &str,
        wanted: String,
        names: Seq<&str>,
        keys: Seq<String>,
    |
        {
            &&& name@ == dep.name@
            &&& #[trigger] call_ensures(R::normalize_name, (resolver, name), wanted)
            &&& #[trigger] texts(names) == names_of(graph.packages@)
            &&& keys.len() == names.len()
            &&& forall|i: int|
                0 <= i < keys.len() ==> call_ensures(
                    R::normalize_name,
                    (resolver, names[i]),
                    #[trigger] keys[i],
                )
            &&& content(r) == locked_version(
                dep.version@,
                pins_of(wanted@, #[trigger] contents(keys), versions_of(graph.packages@)),
            )
        };
    let normalized = names_of(graph.packages@).map_values(f);
    assert(texts(names).len() == names.len());
    assert forall|i: int| 0 <= i < keys.len() implies #[trigger] contents(keys)[i]
        == normalized[i] by {
        assert(call_ensures(R::normalize_name, (resolver, names[i]), keys[i]));
        assert(texts(names)[i] == names[i]@);
    }
    assert(contents(keys) =~= normalized);
}

/// The versions considered for a dependency are those of the packages with its
/// key, and no others.
pub proof fn pins_are_the_entries_with_that_key(
    wanted: Seq<char>,
    keys: Seq<Seq<char>>,
    versions: Seq<Seq<char>>,
    v: Seq<char>,
)
    requires
        keys.len() == versions.len(),
    ensures
        pins_of(wanted, keys, versions).contains(v) <==> exists|i: int|
            0 <= i < keys.len() && #[trigger] keys[i] == wanted && versions[i] == v,
    decreases keys.len(),
{
    if keys.len() > 0 {
        let ks = keys.drop_last();
        let vs = versions.drop_last();
        let before = pins_of(wanted, ks, vs);
        let all = pins_of(wanted, keys, versions);
        pins_are_the_entries_with_that_key(wanted, ks, vs, v);
        if all.contains(v) {
            let p = choose|p: int| 0 <= p < all.len() && all[p] == v;
            if p < before.len() {
                assert(before[p] == v);
                let i = choose|i: int| 0 <= i < ks.len() && #[trigger] ks[i] == wanted && vs[i] == v;
                assert(keys[i] == wanted && versions[i] == v);
            } else {
                assert(keys[keys.len() - 1] == wanted && versions[keys.len() - 1] == v);
            }
        }
        if exists|i: int| 0 <= i < keys.len() && #[trigger] keys[i] == wanted && versions[i] == v {
            let i = choose|i: int|
                0 <= i < keys.len() && #[trigger] keys[i] == wanted && versions[i] == v;
            if i < keys.len() - 1 {
                assert(ks[i] == wanted && vs[i] == v);
                let p = choose|p: int| 0 <= p < before.len() && before[p] == v;
                assert(all[p] == v);
            } else {
                assert(all[before.len() as int] == v);
            }
        }
    }
}

/// A dependency that no package of the lockfile matches has no locked version.
pub proof fn absent_package_has_no_locked_version(
    declared: Seq<char>,
    wanted: Seq<char>,
    keys: Seq<Seq<char>>,
    versions: Seq<Seq<char>>,
)
    requires
        keys.len() == versions.len(),
        forall|i: int| 0 <= i < keys.len() ==> #[trigger] keys[i] != wanted,
    ensures
        locked_version(declared, pins_of(wanted, keys, versions)) is None,
{
    let pins = pins_of(wanted, keys, versions);
    if pins.len() > 0 {
        pins_are_the_entries_with_that_key(wanted, keys, versions, pins[0]);
        assert(pins.contains(pins[0]));
    }
    assert(pins =~= Seq::empty());
    no_entry_no_choice(declared);
}

/// A locked version is the version of a package with the key of the dependency.
pub proof fn locked_version_belongs_to_the_package(
    declared: Seq<char>,
    wanted: Seq<char>,
    keys: Seq<Seq<char>>,
    versions: Seq<Seq<char>>,
)
    requires
        keys.len() == versions.len(),
    ensures
        locked_version(declared, pins_of(wanted, keys, versions)) matches Some(v) ==> exists|i: int|
            0 <= i < keys.len() && #[trigger] keys[i] == wanted && versions[i] == v,
{
    let pins = pins_of(wanted, keys, versions);
    choice_is_a_candidate(declared, pins);
    if let Some(v) = locked_version(declared, pins) {
        pins_are_the_entries_with_that_key(wanted, keys, versions, v);
    }
}

/// Selecting a resolver depends on no finding but the one that is looked up for
/// the file type.
pub proof fn only_the_finding_looked_up_matters<N, P>(
    file_type: FileType,
    extension: Option<Seq<char>>,
    root1: Option<String>,
    npm1: Option<N>,
    python1: Option<P>,
    root2: Option<String>,
    npm2: Option<N>,
    python2: Option<P>,
)
    requires
        lookup_needed(file_type) is CargoRootPackage ==> root1 == root2,
        lookup_needed(file_type) is NpmLockfile ==> npm1 == npm2,
        lookup_needed(file_type) is PythonLockfile ==> python1 == python2,
    ensures
        selected(file_type, extension, root1, npm1, python1) == selected(
            file_type,
            extension,
            root2,
            npm2,
            python2,
        ),
{
}

/// No resolver is selected exactly for Maven, for a C# manifest that is no
/// `.csproj` file, and for an npm or a Python manifest without a lockfile.
pub proof fn when_no_resolver_is_selected<N, P>(
    file_type: FileType,
    extension: Option<Seq<char>>,
    root_package: Option<String>,
    npm_lockfile: Option<N>,
    python_lockfile: Option<P>,
)
    ensures
        selected(file_type, extension, root_package, npm_lockfile, python_lockfile) is None <==> {
            ||| file_type is Maven
            ||| file_type is Csharp && extension != Some("csproj"@)
            ||| file_type is Npm && npm_lockfile is None
            ||| file_type is Python && python_lockfile is None
        },
{
}

} // verus!
