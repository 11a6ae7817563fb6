use depsy_lsp::dependency::{apply_pin, Dependency, Span};
use depsy_lsp::loose::{is_local_dependency, normalize_version, parse_loose, strip_v};
use depsy_lsp::selection::{choose_candidate, judge, pick_highest, select_locked_version};
use depsy_lsp::semver_api::{parse_requirement, parse_version};
use depsy_lsp::staleness::{below_floor, lockfile_is_stale};
use depsy_lsp::text::{first_is, same_text, starts_with, trim, whitespace};
use depsy_lsp::version::Version;

fn version(major: u64, minor: u64, patch: u64, pre: &str, build: &str) -> Version {
    Version { major, minor, patch, pre: pre.to_string(), build: build.to_string() }
}

fn release(major: u64, minor: u64, patch: u64) -> Version {
    version(major, minor, patch, "", "")
}

#[test]
fn trim_agrees_with_the_standard_library() {
    for s in [
        "",
        " ",
        "a",
        " a ",
        "\t\n a b \r\n",
        "\u{3000}x\u{2028}",
        "\u{200b}x",
        "\u{85}\u{a0}",
        "\u{1680}\u{2005}v1\u{202f}\u{205f}",
    ] {
        assert_eq!(trim(s), s.trim());
    }
}

#[test]
fn whitespace_agrees_with_the_standard_library() {
    for u in 0..0x11_0000u32 {
        if let Some(c) = char::from_u32(u) {
            assert_eq!(whitespace(c), c.is_whitespace(), "{u:x}");
        }
    }
}

#[test]
fn text_comparisons() {
    assert!(first_is("<1", '<'));
    assert!(!first_is("", '<'));
    assert!(starts_with("workspace:*", "workspace:"));
    assert!(!starts_with("work", "workspace:"));
    assert!(starts_with("é1", "é"));
    assert!(starts_with("x", ""));
    assert!(same_text("csproj", "csproj"));
    assert!(!same_text("csproj", "csproj2"));
    assert!(!same_text("csproj2", "csproj"));
}

#[test]
fn only_a_v_before_a_digit_is_stripped() {
    assert_eq!(strip_v("v1.2.3"), "1.2.3");
    assert_eq!(strip_v("version"), "version");
    assert_eq!(strip_v("v"), "v");
    assert_eq!(strip_v("vv1"), "vv1");
    assert_eq!(strip_v("1.0"), "1.0");
    assert_eq!(strip_v(""), "");
}

#[test]
fn versions_are_normalized_to_three_numbers() {
    assert_eq!(normalize_version("1"), "1.0.0");
    assert_eq!(normalize_version("1.2"), "1.2.0");
    assert_eq!(normalize_version("1.2.3"), "1.2.3");
    assert_eq!(normalize_version("1.2.3.4"), "1.2.3.4");
    assert_eq!(normalize_version("^1.2"), "1.2.0");
    assert_eq!(normalize_version("~= 1.4 "), "1.4.0");
    assert_eq!(normalize_version(">=1.0, <2.0"), "1.0.0");
    assert_eq!(normalize_version(""), ".0.0");
}

#[test]
fn local_packages_are_recognized() {
    for s in ["file:../local", "workspace:*", "workspace:^1.0.0"] {
        assert!(is_local_dependency(s), "{s}");
    }
    assert!(!is_local_dependency("1.0.0"));
    assert!(!is_local_dependency("file"));
    assert!(!is_local_dependency(" file:../local"));
}

#[test]
fn versions_are_read_field_by_field() {
    assert_eq!(parse_version("1.20.300"), Some(release(1, 20, 300)));
    assert_eq!(
        parse_version("1.2.3-alpha.1+build.007"),
        Some(version(1, 2, 3, "alpha.1", "build.007"))
    );
    assert_eq!(parse_version("0.0.0-0-a"), Some(version(0, 0, 0, "0-a", "")));
    assert_eq!(parse_version("1.0.0+a-b"), Some(version(1, 0, 0, "", "a-b")));
    assert_eq!(
        parse_version("18446744073709551615.0.0"),
        Some(release(u64::MAX, 0, 0))
    );
}

#[test]
fn what_is_no_version_is_not_read() {
    for s in [
        "",
        "1",
        "1.0",
        "01.0.0",
        "1.00.0",
        "1.0.0.0",
        "1.0.0-",
        "1.0.0+",
        "1.0.0-a..b",
        "1.0.0-.a",
        "1.0.0-a.",
        "1.0.0-01",
        "1.0.0-a_b",
        "1.0.0a7",
        " 1.0.0",
        "18446744073709551616.0.0",
    ] {
        assert_eq!(parse_version(s), None, "{s}");
    }
}

#[test]
fn requirements_are_kept_as_text() {
    assert_eq!(parse_requirement("^1.0").map(|r| r.text), Some("^1.0".to_string()));
    assert!(parse_requirement("~=1.4").is_none());
    assert!(parse_requirement("").is_none());
    assert!(parse_requirement(">=1.0 <2.0").is_none());
}

#[test]
fn loose_reading() {
    assert_eq!(parse_loose(" v1.2 "), Some(release(1, 2, 0)));
    assert_eq!(parse_loose("v1.2.3"), parse_loose("1.2.3"));
    assert_eq!(parse_loose(">=1.2, <2"), Some(release(1, 2, 0)));
    assert_eq!(parse_loose("^7"), Some(release(7, 0, 0)));
    assert_eq!(parse_loose(">=1.2.3-rc.1"), Some(version(1, 2, 3, "rc.1", "")));
    assert_eq!(parse_loose("2024.1.1.5"), None);
    assert_eq!(parse_loose("latest"), None);
    assert_eq!(parse_loose("*"), None);
}

#[test]
fn floors_are_compared_by_precedence() {
    let below = |floor: Version, locked: Version| below_floor(false, &Some(floor), &Some(locked));
    assert!(below(release(1, 0, 220), release(1, 0, 210)));
    assert!(below(release(2, 0, 0), release(1, 9, 9)));
    assert!(below(release(1, 10, 0), release(1, 9, 9)));
    assert!(!below(release(1, 0, 0), release(1, 0, 0)));
    assert!(!below(release(1, 9, 0), release(1, 10, 0)));
    // A release stands above its pre-releases, numeric identifiers by value.
    assert!(below(release(1, 0, 0), version(1, 0, 0, "rc.1", "")));
    assert!(!below(version(1, 0, 0, "rc.1", ""), release(1, 0, 0)));
    assert!(below(version(1, 0, 0, "rc.11", ""), version(1, 0, 0, "rc.2", "")));
    assert!(!below(version(1, 0, 0, "rc.2", ""), version(1, 0, 0, "rc.11", "")));
    // Build metadata comes last.
    assert!(below(version(1, 0, 0, "", "b"), release(1, 0, 0)));
    assert!(below(version(1, 0, 0, "", "2"), version(1, 0, 0, "", "1")));
}

#[test]
fn an_exclusive_floor_excludes_itself() {
    let one = || Some(release(1, 0, 0));
    assert!(below_floor(true, &one(), &one()));
    assert!(!below_floor(false, &one(), &one()));
    assert!(!below_floor(true, &one(), &Some(release(1, 0, 1))));
    assert!(!below_floor(true, &None, &one()));
    assert!(!below_floor(true, &one(), &None));
}

#[test]
fn staleness_of_written_versions() {
    assert!(lockfile_is_stale("  >=2.0.0  ", "v1.9.9"));
    assert!(lockfile_is_stale("=1.2.3", "1.2.2"));
    assert!(lockfile_is_stale(">= 1.2, < 2", "1.1.0"));
    assert!(lockfile_is_stale("1.0.0", "1.0.0-beta"));
    assert!(!lockfile_is_stale("1.0.0-beta", "1.0.0"));
    assert!(!lockfile_is_stale("<=2.0", "1.0.0"));
    assert!(!lockfile_is_stale("   ", "1.0.0"));
    assert!(!lockfile_is_stale("latest", "1.0.0"));
    assert!(!lockfile_is_stale("1.0.0", "unknown"));
    assert!(!lockfile_is_stale("link:../a", "0.0.1"));
}

#[test]
fn the_highest_admitted_version_is_picked() {
    let versions = vec![
        Some(release(1, 2, 0)),
        Some(release(1, 10, 0)),
        None,
        Some(release(2, 0, 0)),
        Some(release(1, 9, 0)),
    ];
    assert_eq!(pick_highest(&versions, &vec![true, true, true, false, true]), Some(1));
    assert_eq!(pick_highest(&versions, &vec![true; 5]), Some(3));
    assert_eq!(pick_highest(&versions, &vec![false, false, true, false, false]), None);
    assert_eq!(pick_highest(&vec![], &vec![]), None);
}

#[test]
fn the_last_of_equal_versions_is_picked() {
    let versions = vec![Some(release(1, 0, 0)), Some(release(1, 0, 0)), Some(release(0, 9, 0))];
    assert_eq!(pick_highest(&versions, &vec![true; 3]), Some(1));
    assert_eq!(select_locked_version("1", &["1.0", "v1.0.0"]), Some("v1.0.0"));
}

#[test]
fn choosing_falls_back_to_the_first() {
    let some = vec![Some(release(1, 0, 0)), Some(release(2, 0, 0))];
    assert_eq!(choose_candidate(&some, &None), Some(0));
    assert_eq!(choose_candidate(&some, &Some(vec![false, false])), None);
    assert_eq!(choose_candidate(&some, &Some(vec![true, false])), Some(0));
    assert_eq!(choose_candidate(&vec![None, None], &Some(vec![false, false])), Some(0));
    assert_eq!(choose_candidate(&vec![], &None), None);
    assert_eq!(choose_candidate(&vec![], &Some(vec![])), None);
}

#[test]
fn requirements_judge_versions() {
    let versions = vec![
        Some(release(1, 2, 3)),
        Some(release(2, 0, 0)),
        None,
        Some(version(1, 3, 0, "rc.1", "")),
        Some(version(1, 4, 0, "", "meta")),
    ];
    assert_eq!(judge("^1.2", &versions), Some(vec![true, false, false, false, true]));
    assert_eq!(judge(" v1.3.0 ", &versions), Some(vec![false, false, false, false, true]));
    assert_eq!(judge("=2.0.0", &versions), Some(vec![false, true, false, false, false]));
    assert_eq!(judge("^1.3.0-rc.1", &versions), Some(vec![false, false, false, true, true]));
    assert_eq!(judge("~=1.2", &versions), None);
}

#[test]
fn unreadable_entries_are_passed_over() {
    assert_eq!(select_locked_version("^1.0", &["x", "1.4.0", "1.2.0"]), Some("1.4.0"));
    assert_eq!(select_locked_version("v1.0", &["v1.4.0", "2.0.0"]), Some("v1.4.0"));
    assert_eq!(select_locked_version("latest", &["2.0.0", "3.0.0"]), Some("2.0.0"));
    assert_eq!(select_locked_version("*", &["2.0.0", "3.0.0", "1.0.0"]), Some("3.0.0"));
    assert_eq!(select_locked_version("", &["2.0.0", "3.0.0"]), Some("2.0.0"));
    assert_eq!(select_locked_version("^1.0", &["x", "2.0.0"]), None);
}

#[test]
fn pins_are_recorded_unless_stale() {
    let span = Span { line: 3, line_start: 1, line_end: 9 };
    let mut dep = Dependency {
        name: "serde".to_string(),
        version: "1.0.220".to_string(),
        name_span: span,
        version_span: span,
        dev: true,
        optional: false,
        registry: Some("local".to_string()),
        resolved_version: None,
        has_additional_version_constraints: true,
    };
    let before = dep.clone();
    apply_pin(&mut dep, None);
    assert_eq!(dep, before);
    apply_pin(&mut dep, Some("1.0.210".to_string()));
    assert_eq!(dep, before);
    assert_eq!(dep.effective_version(), "1.0.220");
    apply_pin(&mut dep, Some("1.0.230".to_string()));
    assert_eq!(dep.effective_version(), "1.0.230");
    let recorded = dep.clone();
    assert_eq!(
        Dependency { resolved_version: None, ..dep.clone() },
        before
    );
    apply_pin(&mut dep, Some("1.0.230".to_string()));
    assert_eq!(dep, recorded);
}

#[test]
fn versions_no_higher_than_a_stale_pin_are_stale() {
    for declared in ["1.5.0", "^1.5.0", ">=1.5.0", ">1.5.0", "1.5.0, <2"] {
        for locked in ["1.5.0-rc.2", "1.5.0-rc.1", "1.4.9+b", "1.4.9", "1.4.0", "0.99.99"] {
            assert!(lockfile_is_stale(declared, locked), "{declared} {locked}");
        }
        assert!(!lockfile_is_stale(declared, "1.5.1"));
        assert_eq!(lockfile_is_stale(declared, "1.5.0"), declared == ">1.5.0");
    }
}

/// Each version of an ascending list is below every later one, and no other pair is.
fn assert_ascending(versions: &[&str]) {
    for (i, a) in versions.iter().enumerate() {
        for (j, b) in versions.iter().enumerate() {
            let (low, high) = (parse_version(a), parse_version(b));
            assert!(low.is_some() && high.is_some());
            assert_eq!(below_floor(false, &high, &low), i < j, "{a} {b}");
            assert_eq!(below_floor(true, &high, &low), i <= j, "{a} {b}");
        }
    }
}

#[test]
fn pre_releases_are_ordered_by_their_identifiers() {
    assert_ascending(&[
        "1.0.0-0",
        "1.0.0-9",
        "1.0.0-10",
        "1.0.0-99999999999999999999999",
        "1.0.0--",
        "1.0.0-0a",
        "1.0.0-A",
        "1.0.0-alpha",
        "1.0.0-alpha.1",
        "1.0.0-alpha.2",
        "1.0.0-alpha.10",
        "1.0.0-alpha.10.0",
        "1.0.0-alpha.beta",
        "1.0.0-alpha-1",
        "1.0.0-alpha1",
        "1.0.0-beta",
        "1.0.0-beta.2",
        "1.0.0-beta.11",
        "1.0.0-rc.1",
        "1.0.0",
        "1.0.1-0",
    ]);
}

#[test]
fn build_metadata_is_ordered_with_leading_zeros_last() {
    assert_ascending(&[
        "1.0.0-rc.1",
        "1.0.0-rc.1+0",
        "1.0.0",
        "1.0.0+0",
        "1.0.0+0.0",
        "1.0.0+00",
        "1.0.0+1",
        "1.0.0+01",
        "1.0.0+001",
        "1.0.0+2",
        "1.0.0+02",
        "1.0.0+10",
        "1.0.0+demo",
        "1.0.0+demo.85",
        "1.0.0+demo.90",
        "1.0.0+demo.090",
        "1.0.0+demo.200",
        "1.0.0+demo.1a0",
        "1.0.0+demo.a",
        "1.0.0+memo",
        "1.0.1",
    ]);
}

#[test]
fn the_highest_pre_release_is_chosen() {
    assert_eq!(
        select_locked_version(
            "^1.0.0-alpha.1",
            &["1.0.0-alpha.2", "1.0.0-alpha.10", "1.0.0-alpha.9"]
        ),
        Some("1.0.0-alpha.10")
    );
    assert!(lockfile_is_stale("1.0.0-alpha.10", "1.0.0-alpha.2"));
    assert!(!lockfile_is_stale("1.0.0-alpha.2", "1.0.0-alpha.10"));
}
