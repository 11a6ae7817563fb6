//! Choosing among several lock entries for the same package.

use vstd::prelude::*;

use crate::loose::{loose_version, parse_loose, strip_v, without_v};
use crate::precedence::{
    exchanging_reverses, precedence_is_transitive, same_place_means_equal, version_order,
    Precedence,
};
use crate::semver_api::{
    admits, parse_requirement, requirement_reads, semver_compare, semver_matches,
};
use crate::text::{trim, trimmed};
use crate::version::{model_of, Version, VersionModel};

verus! {

/// The strings of a list, as sequences of characters.
pub open spec fn texts(list: Seq<&str>) -> Seq<Seq<char>> {
    list.map_values(|s: &str| s@)
}

/// The models of a list of versions.
pub open spec fn models(versions: Seq<Option<Version>>) -> Seq<Option<VersionModel>> {
    versions.map_values(|v: Option<Version>| model_of(v))
}

/// The versions that a list of lock entries writes.
pub open spec fn loose_versions(candidates: Seq<Seq<char>>) -> Seq<Option<VersionModel>> {
    candidates.map_values(|c: Seq<char>| loose_version(c))
}

/// The requirement that a declaration writes.
pub open spec fn requirement_text(declared: Seq<char>) -> Seq<char> {
    without_v(trimmed(declared))
}

/// Which of the versions are readable and admitted by the requirement.
pub open spec fn verdicts_of(
    requirement: Seq<char>,
    versions: Seq<Option<VersionModel>>,
) -> Seq<bool> {
    versions.map_values(|v: Option<VersionModel>| v is Some && admits(requirement, v->0))
}

/// Entry `i` is readable and admitted.
pub open spec fn eligible(
    versions: Seq<Option<VersionModel>>,
    admitted: Seq<bool>,
    i: int,
) -> bool {
    versions[i] is Some && admitted[i]
}

/// At least one entry is readable.
pub open spec fn some_readable(versions: Seq<Option<VersionModel>>) -> bool {
    exists|i: int| 0 <= i < versions.len() && #[trigger] versions[i] is Some
}

/// The index of the highest eligible entry among the first `n`, the last one
/// where several are equal.
pub open spec fn highest_admitted(
    versions: Seq<Option<VersionModel>>,
    admitted: Seq<bool>,
    n: nat,
) -> Option<int>
    decreases n,
{
    if n == 0 {
        None
    } else {
        let i = n - 1;
        let best = highest_admitted(versions, admitted, i as nat);
        if !eligible(versions, admitted, i) {
            best
        } else {
            match best {
                Some(k) if version_order(versions[k]->0, versions[i]->0) is Higher => best,
                _ => Some(i),
            }
        }
    }
}

/// Entry `k` is eligible, no eligible entry among the first `n` is higher, and
/// no later one is equal.
pub open spec fn last_highest(
    versions: Seq<Option<VersionModel>>,
    admitted: Seq<bool>,
    n: int,
    k: int,
) -> bool {
    &&& 0 <= k < n
    &&& eligible(versions, admitted, k)
    &&& forall|j: int|
        0 <= j < n && #[trigger] eligible(versions, admitted, j) ==> (j <= k && versions[j]
            == versions[k]) || version_order(versions[j]->0, versions[k]->0) is Lower
}

/// Which entry to use: the highest admitted one where the requirement is
/// readable (`verdicts` is given) and an entry is too, else the first.
pub open spec fn candidate_choice(
    versions: Seq<Option<VersionModel>>,
    verdicts: Option<Seq<bool>>,
) -> Option<int> {
    if verdicts is Some && some_readable(versions) {
        highest_admitted(versions, verdicts->0, versions.len())
    } else if versions.len() > 0 {
        Some(0)
    } else {
        None
    }
}

/// The verdicts on the entries, where the declaration is a readable requirement.
pub open spec fn declared_verdicts(
    declared: Seq<char>,
    candidates: Seq<Seq<char>>,
) -> Option<Seq<bool>> {
    if requirement_reads(requirement_text(declared)) {
        Some(verdicts_of(requirement_text(declared), loose_versions(candidates)))
    } else {
        None
    }
}

/// The index of the lock entry that answers a declaration.
pub open spec fn locked_choice(declared: Seq<char>, candidates: Seq<Seq<char>>) -> Option<int> {
    candidate_choice(loose_versions(candidates), declared_verdicts(declared, candidates))
}

/// The lock entry that answers a declaration.
pub open spec fn locked_version(
    declared: Seq<char>,
    candidates: Seq<Seq<char>>,
) -> Option<Seq<char>> {
    match locked_choice(declared, candidates) {
        Some(k) => Some(candidates[k]),
        None => None,
    }
}

/// An optional index as a mathematical integer.
pub open spec fn index_of(i: Option<usize>) -> Option<int> {
    match i {
        Some(i) => Some(i as int),
        None => None,
    }
}

/// The verdicts of a list, as a sequence.
pub open spec fn verdict_seq(verdicts: Option<Vec<bool>>) -> Option<Seq<bool>> {
    match verdicts {
        Some(v) => Some(v@),
        None => None,
    }
}

/// What is picked among the first `n` entries is the last of the highest eligible
/// ones, and nothing is picked only where none is eligible.
pub proof fn lemma_highest(versions: Seq<Option<VersionModel>>, admitted: Seq<bool>, n: nat)
    ensures
        highest_admitted(versions, admitted, n) matches Some(k) ==> last_highest(
            versions,
            admitted,
            n as int,
            k,
        ),
        highest_admitted(versions, admitted, n) is None ==> forall|j: int|
            0 <= j < n ==> !#[trigger] eligible(versions, admitted, j),
    decreases n,
{
    if n > 0 {
        let i = n - 1;
        lemma_highest(versions, admitted, i as nat);
        let before = highest_admitted(versions, admitted, i as nat);
        if before is Some && eligible(versions, admitted, i) {
            let k = before->0;
            let w = highest_admitted(versions, admitted, n)->0;
            let old_best = versions[k]->0;
            let new = versions[i]->0;
            exchanging_reverses(old_best, new);
            same_place_means_equal(old_best, new);
            assert forall|j: int| 0 <= j < n && #[trigger] eligible(versions, admitted, j) implies (
            j <= w && versions[j] == versions[w]) || version_order(
                versions[j]->0,
                versions[w]->0,
            ) is Lower by {
                if j < i && w == i {
                    same_place_means_equal(versions[j]->0, old_best);
                    precedence_is_transitive(versions[j]->0, old_best, new);
                    same_place_means_equal(versions[j]->0, new);
                }
            }
        }
    }
}

/// The index of the highest readable and admitted version, the last one where
/// several are equal.
pub fn pick_highest(versions: &Vec<Option<Version>>, admitted: &Vec<bool>) -> (r: Option<usize>)
    requires
        versions@.len() == admitted@.len(),
        forall|i: int|
            0 <= i < versions@.len() ==> (#[trigger] versions@[i] matches Some(v)
                ==> v@.well_formed()),
    ensures
        index_of(r) == highest_admitted(models(versions@), admitted@, versions@.len()),
        r matches Some(k) ==> last_highest(
            models(versions@),
            admitted@,
            versions@.len() as int,
            k as int,
        ),
        r is None ==> forall|j: int|
            0 <= j < versions@.len() ==> !#[trigger] eligible(models(versions@), admitted@, j),
{
    let ghost ms = models(versions@);
    let mut best: Option<usize> = None;
    let mut i: usize = 0;
    while i < versions.len()
        invariant
            i <= versions@.len(),
            ms == models(versions@),
            versions@.len() == admitted@.len(),
            forall|j: int|
                0 <= j < versions@.len() ==> (#[trigger] versions@[j] matches Some(v)
                    ==> v@.well_formed()),
            index_of(best) == highest_admitted(ms, admitted@, i as nat),
        decreases versions@.len() - i,
    {
        assert(ms[i as int] == model_of(versions@[i as int]));
        proof {
            lemma_highest(ms, admitted@, i as nat);
        }
        if admitted[i] {
            if let Some(v) = &versions[i] {
                match best {
                    None => {
                        best = Some(i);
                    },
                    Some(k) => {
                        assert(ms[k as int] == model_of(versions@[k as int]));
                        if let Some(b) = &versions[k] {
                            if semver_compare(b, v) != Precedence::Higher {
                                best = Some(i);
                            }
                        }
                    },
                }
            }
        }
        i = i + 1;
    }
    proof {
        lemma_highest(ms, admitted@, i as nat);
    }
    best
}

/// Which of several lock entries to use, given what each of them writes and, if
/// the requirement is readable, which of them it admits.
pub fn choose_candidate(
    versions: &Vec<Option<Version>>,
    verdicts: &Option<Vec<bool>>,
) -> (r: Option<usize>)
    requires
        verdicts matches Some(v) ==> v@.len() == versions@.len(),
        forall|i: int|
            0 <= i < versions@.len() ==> (#[trigger] versions@[i] matches Some(v)
                ==> v@.well_formed()),
    ensures
        index_of(r) == candidate_choice(models(versions@), verdict_seq(*verdicts)),
        verdicts is Some && some_readable(models(versions@)) ==> (r matches Some(k)
            ==> last_highest(
            models(versions@),
            verdicts->0@,
            versions@.len() as int,
            k as int,
        )),
{
    if let Some(admitted) = verdicts {
        if any_readable(versions) {
            return pick_highest(versions, admitted);
        }
    }
    if versions.len() > 0 {
        Some(0)
    } else {
        None
    }
}

fn any_readable(versions: &Vec<Option<Version>>) -> (r: bool)
    ensures
        r == some_readable(models(versions@)),
{
    let mut i: usize = 0;
    while i < versions.len()
        invariant
            i <= versions@.len(),
            forall|j: int| 0 <= j < i ==> #[trigger] models(versions@)[j] is None,
        decreases versions@.len() - i,
    {
        assert(models(versions@)[i as int] == model_of(versions@[i as int]));
        if versions[i].is_some() {
            return true;
        }
        i = i + 1;
    }
    false
}

/// Chooses which lock entry to use when a lockfile pins several versions of the
/// same package.
///
/// Where the declaration is a readable requirement and an entry is a readable
/// version, the highest entry that the requirement admits is used, and none if
/// it admits none. Otherwise the first entry is used.
pub fn select_locked_version<'a>(declared: &str, candidates: &[&'a str]) -> (r: Option<&'a str>)
    ensures
        match locked_choice(declared@, texts(candidates@)) {
            Some(k) => 0 <= k < candidates@.len() && r == Some(candidates@[k]),
            None => r is None,
        },
        requirement_reads(requirement_text(declared@)) && some_readable(
            loose_versions(texts(candidates@)),
        ) ==> (locked_choice(declared@, texts(candidates@)) matches Some(k) ==> last_highest(
            loose_versions(texts(candidates@)),
            verdicts_of(requirement_text(declared@), loose_versions(texts(candidates@))),
            candidates@.len() as int,
            k,
        )),
{
    let ghost cs = texts(candidates@);
    let mut versions: Vec<Option<Version>> = Vec::new();
    let mut i: usize = 0;
    while i < candidates.len()
        invariant
            i <= candidates@.len(),
            cs == texts(candidates@),
            versions@.len() == i,
            forall|j: int| 0 <= j < i ==> model_of(#[trigger] versions@[j]) == loose_version(cs[j]),
            forall|j: int|
                0 <= j < i ==> (#[trigger] versions@[j] matches Some(v) ==> v@.well_formed()),
        decreases candidates@.len() - i,
    {
        versions.push(parse_loose(candidates[i]));
        i = i + 1;
    }
    assert(models(versions@) =~= loose_versions(cs));
    let verdicts: Option<Vec<bool>> = judge(declared, &versions);
    proof {
        lemma_choice(models(versions@), verdict_seq(verdicts));
    }
    match choose_candidate(&versions, &verdicts) {
        Some(k) => Some(candidates[k]),
        None => None,
    }
}

/// Which of the versions the declaration admits, where it is a readable
/// requirement.
pub fn judge(declared: &str, versions: &Vec<Option<Version>>) -> (r: Option<Vec<bool>>)
    requires
        forall|i: int|
            0 <= i < versions@.len() ==> (#[trigger] versions@[i] matches Some(v)
                ==> v@.well_formed()),
    ensures
        r is Some == requirement_reads(requirement_text(declared@)),
        r matches Some(v) ==> v@ == verdicts_of(requirement_text(declared@), models(versions@)),
{
    match parse_requirement(strip_v(trim(declared))) {
        None => None,
        Some(requirement) => {
            let mut admitted: Vec<bool> = Vec::new();
            let mut i: usize = 0;
            while i < versions.len()
                invariant
                    i <= versions@.len(),
                    requirement_reads(requirement.text@),
                    forall|j: int|
                        0 <= j < versions@.len() ==> (#[trigger] versions@[j] matches Some(v)
                            ==> v@.well_formed()),
                    admitted@ =~= verdicts_of(requirement.text@, models(versions@)).take(i as int),
                decreases versions@.len() - i,
            {
                assert(models(versions@)[i as int] == model_of(versions@[i as int]));
                match &versions[i] {
                    Some(v) => admitted.push(semver_matches(&requirement, v)),
                    None => admitted.push(false),
                }
                i = i + 1;
            }
            Some(admitted)
        },
    }
}

proof fn lemma_choice(versions: Seq<Option<VersionModel>>, verdicts: Option<Seq<bool>>)
    ensures
        candidate_choice(versions, verdicts) matches Some(k) ==> 0 <= k < versions.len(),
{
    if verdicts is Some {
        lemma_highest(versions, verdicts->0, versions.len());
    }
}

/// What is chosen is one of the entries.
pub proof fn choice_is_a_candidate(declared: Seq<char>, candidates: Seq<Seq<char>>)
    ensures
        locked_choice(declared, candidates) matches Some(k) ==> 0 <= k < candidates.len(),
        locked_version(declared, candidates) matches Some(v) ==> candidates.contains(v),
{
    lemma_choice(loose_versions(candidates), declared_verdicts(declared, candidates));
    if let Some(k) = locked_choice(declared, candidates) {
        assert(candidates[k] == locked_version(declared, candidates)->0);
    }
}

/// Where the declaration is a readable requirement and at least one entry is a
/// readable version, an entry that the requirement does not admit is never
/// chosen, whether there is one entry or several.
pub proof fn choice_is_admitted(declared: Seq<char>, candidates: Seq<Seq<char>>)
    requires
        requirement_reads(requirement_text(declared)),
        some_readable(loose_versions(candidates)),
    ensures
        locked_version(declared, candidates) matches Some(v) ==> loose_version(v) is Some && admits(
            requirement_text(declared),
            loose_version(v)->0,
        ),
{
    let versions = loose_versions(candidates);
    let verdicts = verdicts_of(requirement_text(declared), versions);
    lemma_highest(versions, verdicts, versions.len());
}

/// Under the same conditions no admitted entry is higher than the one chosen, and
/// no later one is equal.
pub proof fn choice_is_the_last_highest(declared: Seq<char>, candidates: Seq<Seq<char>>)
    requires
        requirement_reads(requirement_text(declared)),
        some_readable(loose_versions(candidates)),
    ensures
        locked_choice(declared, candidates) matches Some(k) ==> last_highest(
            loose_versions(candidates),
            verdicts_of(requirement_text(declared), loose_versions(candidates)),
            candidates.len() as int,
            k,
        ),
{
    let versions = loose_versions(candidates);
    lemma_highest(versions, verdicts_of(requirement_text(declared), versions), versions.len());
}

/// Under the same conditions nothing is chosen only if no entry is admitted.
pub proof fn admitted_entry_is_found(declared: Seq<char>, candidates: Seq<Seq<char>>, i: int)
    requires
        requirement_reads(requirement_text(declared)),
        0 <= i < candidates.len(),
        loose_version(candidates[i]) is Some,
        admits(requirement_text(declared), loose_version(candidates[i])->0),
    ensures
        locked_version(declared, candidates) is Some,
{
    let versions = loose_versions(candidates);
    let verdicts = verdicts_of(requirement_text(declared), versions);
    lemma_highest(versions, verdicts, versions.len());
    assert(versions[i] is Some);
    assert(eligible(versions, verdicts, i));
}

/// Where the declaration is no readable requirement, or no entry is a readable
/// version, the first entry is used.
pub proof fn first_entry_wins_otherwise(declared: Seq<char>, candidates: Seq<Seq<char>>)
    requires
        !requirement_reads(requirement_text(declared)) || !some_readable(
            loose_versions(candidates),
        ),
        candidates.len() > 0,
    ensures
        locked_version(declared, candidates) == Some(candidates[0]),
{
}

/// Without entries nothing is chosen.
pub proof fn no_entry_no_choice(declared: Seq<char>)
    ensures
        locked_version(declared, Seq::empty()) is None,
{
    lemma_choice(
        loose_versions(Seq::empty()),
        declared_verdicts(declared, Seq::empty()),
    );
}

} // verus!
