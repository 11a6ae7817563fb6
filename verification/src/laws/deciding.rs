//! Laws on telling stale pins and on choosing among pins.

use vstd::prelude::*;

use crate::laws::reading::{
    lead, lemma_frame_comes_off, lemma_local, lemma_white, starts_local,
    the_core_decides_the_reading, the_core_is_kept, trimming_undoes_padding,
};
use crate::laws::{blank, framed, is_frame, numeral, operator, solid, v_and_digit, white};
use crate::loose::{
    lemma_version_text_dots, lemma_version_text_plain, lemma_version_text_starts, loose_version,
    normalized_version,
};
use crate::precedence::{same_place_means_equal, version_order};
use crate::selection::{
    choose_candidate, eligible, highest_admitted, judge, last_highest, lemma_highest,
    locked_choice, locked_version, loose_versions, models, pick_highest, requirement_text,
    select_locked_version, some_readable, texts, verdicts_of,
};
use crate::semver_api::{requirement_admits, requirement_reads};
use crate::staleness::{below_floor, floor_is_exclusive, lockfile_is_stale, stale, states_no_floor};
use crate::text::{is_whitespace, trim_end, trim_start, trimmed};
use crate::version::{version_text, Version, VersionModel};

verus! {

/// A pin misses the floor where it is lower, and where it is the floor itself and
/// that is excluded; without a floor or without a pin nothing is missed.
pub proof fn missing_the_floor(
    exclusive: bool,
    floor: &Option<Version>,
    locked: &Option<Version>,
    r: bool,
)
    requires
        call_ensures(below_floor, (exclusive, floor, locked), r),
    ensures
        r <==> floor is Some && locked is Some && (version_order(locked->0@, floor->0@) is Lower || (
        exclusive && locked->0@ == floor->0@)),
{
    if floor is Some && locked is Some {
        same_place_means_equal(locked->0@, floor->0@);
    }
}

/// The first character, and where it is `!` or `>` the second, and a local prefix
/// say whether a declaration states a floor.
pub open spec fn floored(t: Seq<char>) -> bool {
    &&& t.len() > 0
    &&& t[0] != '<'
    &&& t[0] != '*'
    &&& !(t[0] == '!' && t.len() > 1 && t[1] == '=')
    &&& !starts_local(t)
}

/// `t` starts with `>` and no `=` stands behind it.
pub open spec fn strictly_above(t: Seq<char>) -> bool {
    t.len() > 0 && t[0] == '>' && !(t.len() > 1 && t[1] == '=')
}

proof fn lemma_two_chars(lit: Seq<char>, a: char, b: char, t: Seq<char>)
    requires
        lit == seq![a, b],
    ensures
        lit.is_prefix_of(t) <==> t.len() > 1 && t[0] == a && t[1] == b,
{
    if t.len() > 1 {
        assert(t.subrange(0, 2)[0] == t[0]);
        assert(t.subrange(0, 2)[1] == t[1]);
        if t[0] == a && t[1] == b {
            assert(t.subrange(0, 2) =~= lit);
        }
    }
}

proof fn lemma_floor_words(t: Seq<char>)
    ensures
        states_no_floor(t) <==> !floored(t),
        floor_is_exclusive(t) <==> strictly_above(t),
{
    reveal_strlit("!=");
    reveal_strlit(">=");
    assert("!="@ =~= seq!['!', '=']);
    assert(">="@ =~= seq!['>', '=']);
    lemma_two_chars("!="@, '!', '=', t);
    lemma_two_chars(">="@, '>', '=', t);
    lemma_local(t);
}

/// When a pin is stale: white space around the declaration aside, the declaration
/// states a floor, both sides can be read, and the pin is lower than the floor, or
/// is the floor itself and the declaration says strictly above it.
pub proof fn when_a_pin_is_stale(a: Seq<char>, t: Seq<char>, b: Seq<char>, locked: Seq<char>)
    requires
        blank(a),
        blank(b),
        t.len() == 0 || solid(t),
    ensures
        stale(a + t + b, locked) <==> floored(t) && loose_version(t) is Some && loose_version(
            locked,
        ) is Some && {
            let floor = loose_version(t)->0;
            let pin = loose_version(locked)->0;
            version_order(pin, floor) is Lower || (strictly_above(t) && pin == floor)
        },
{
    trimming_undoes_padding(a, t, b);
    lemma_floor_words(t);
    if loose_version(t) is Some && loose_version(locked) is Some {
        same_place_means_equal(loose_version(locked)->0, loose_version(t)->0);
    }
}

/// The staleness reported is the one that the laws describe.
pub proof fn staleness_is_reported(declared: &str, locked: &str, r: bool)
    requires
        call_ensures(lockfile_is_stale, (declared, locked), r),
    ensures
        r <==> stale(declared@, locked@),
{
}

proof fn lemma_first_stays(a: Seq<char>, c: char, rest: Seq<char>)
    requires
        blank(a),
        !white(c),
    ensures
        trimmed(a + (seq![c] + rest)).len() > 0,
        trimmed(a + (seq![c] + rest))[0] == c,
        rest.len() > 0 && !white(rest[0]) ==> trimmed(a + (seq![c] + rest)).len() > 1 && trimmed(
            a + (seq![c] + rest),
        )[1] == rest[0],
    decreases a.len(),
{
    let x = seq![c] + rest;
    if a.len() == 0 {
        assert(a + x =~= x);
        assert(!is_whitespace(c));
        assert(trim_start(x) == x);
        lemma_first_kept(x);
        if rest.len() > 0 && !white(rest[0]) {
            assert(x[1] == rest[0]);
            lemma_white(rest[0]);
            lemma_second_kept(x);
        }
    } else {
        assert((a + x)[0] == a[0]);
        assert(is_whitespace(a[0]));
        assert((a + x).skip(1) =~= a.skip(1) + x);
        assert(blank(a.skip(1)));
        lemma_first_stays(a.skip(1), c, rest);
    }
}

proof fn lemma_first_kept(x: Seq<char>)
    requires
        x.len() > 0,
        !is_whitespace(x[0]),
    ensures
        trim_end(x).len() > 0,
        trim_end(x)[0] == x[0],
    decreases x.len(),
{
    if is_whitespace(x.last()) {
        lemma_first_kept(x.drop_last());
    }
}

proof fn lemma_second_kept(x: Seq<char>)
    requires
        x.len() > 1,
        !is_whitespace(x[1]),
    ensures
        trim_end(x).len() > 1,
        trim_end(x)[1] == x[1],
    decreases x.len(),
{
    if is_whitespace(x.last()) {
        lemma_second_kept(x.drop_last());
    }
}

/// A declaration that starts with `<` or with `*`, whatever follows, rejects no
/// pin; nor does one that starts with `!=`, nor a blank one.
pub proof fn bounds_from_above_and_exclusions_reject_nothing(
    a: Seq<char>,
    c: char,
    rest: Seq<char>,
    locked: Seq<char>,
)
    requires
        blank(a),
    ensures
        c == '<' || c == '*' ==> !stale(a + (seq![c] + rest), locked),
        !stale(a + (seq!['!'] + (seq!['='] + rest)), locked),
        !stale(a, locked),
{
    if c == '<' || c == '*' {
        lemma_first_stays(a, c, rest);
        lemma_floor_words(trimmed(a + (seq![c] + rest)));
    }
    lemma_first_stays(a, '!', seq!['='] + rest);
    lemma_floor_words(trimmed(a + (seq!['!'] + (seq!['='] + rest))));
    let e = Seq::<char>::empty();
    trimming_undoes_padding(a, e, e);
    assert(a + e + e =~= a);
    lemma_floor_words(e);
}

proof fn lemma_version_is_core(m: VersionModel)
    requires
        m.well_formed(),
    ensures
        solid(version_text(m)),
        !v_and_digit(version_text(m)),
        !operator(version_text(m)[0]),
        forall|i: int| 0 <= i < version_text(m).len() ==> #[trigger] version_text(m)[i] != ',',
{
    lemma_version_text_starts(m);
    lemma_version_text_plain(m);
}

/// Behind operators and white space a full version is read as that version.
proof fn lemma_full_behind_lead(ops: Seq<char>, m: VersionModel)
    requires
        lead(ops),
        ops.len() > 0 ==> !white(ops[0]),
        m.well_formed(),
    ensures
        solid(ops + version_text(m)),
        loose_version(ops + version_text(m)) == Some(m),
{
    let core = version_text(m);
    let t = ops + core;
    let e = Seq::<char>::empty();
    lemma_version_is_core(m);
    assert(t[t.len() - 1] == core[core.len() - 1]);
    if ops.len() > 0 {
        assert(t[0] == ops[0]);
    } else {
        assert(t[0] == core[0]);
    }
    assert(core + e + e =~= core);
    the_core_is_kept(ops, core, e, e);
    let full = normalized_version(t);
    lemma_version_text_dots(m);
    let (j, k) = choose|j: int, k: int|
        0 <= j < k < core.len() && #[trigger] core[j] == '.' && #[trigger] core[k] == '.';
    assert(core[j] == '.' && core[k] == '.');
    assert(full == core);
    assert(!v_and_digit(t));
    assert(e + t + e =~= t);
    assert(framed(e, false, t, e) == t);
    the_core_decides_the_reading(e, false, t, e, m);
}

proof fn lemma_lead_tells_the_floor(ops: Seq<char>, core: Seq<char>)
    requires
        lead(ops),
        ops.len() > 0 ==> ops[0] != '<' && !white(ops[0]),
        core.len() > 0,
        numeral(core[0]),
    ensures
        floored(ops + core),
        strictly_above(ops + core) <==> ops.len() > 0 && ops[0] == '>' && !(ops.len() > 1 && ops[1]
            == '='),
{
    let t = ops + core;
    if ops.len() > 0 {
        assert(t[0] == ops[0]);
        assert(operator(ops[0]));
    } else {
        assert(t[0] == core[0]);
    }
    if ops.len() > 1 {
        assert(t[1] == ops[1]);
    } else if ops.len() == 1 {
        assert(t.len() > 1);
        assert(t[1] == core[0]);
    }
    if t.len() >= 5 {
        assert(t.take(5)[0] == t[0]);
    }
    if t.len() >= 10 {
        assert(t.take(10)[0] == t[0]);
    }
}

/// Against a full version behind operators that do not start with `<`, a pin is
/// stale exactly if it is lower, or is that version and the operators are `>`
/// without a `=` next to it.
pub proof fn stale_against_a_full_version(
    ops: Seq<char>,
    declared: VersionModel,
    locked: VersionModel,
)
    requires
        lead(ops),
        ops.len() > 0 ==> ops[0] != '<' && !white(ops[0]),
        declared.well_formed(),
        locked.well_formed(),
    ensures
        stale(ops + version_text(declared), version_text(locked)) <==> version_order(
            locked,
            declared,
        ) is Lower || (locked == declared && ops.len() > 0 && ops[0] == '>' && !(ops.len() > 1
            && ops[1] == '=')),
{
    let e = Seq::<char>::empty();
    let core = version_text(declared);
    let pin = version_text(locked);
    let t = ops + core;
    lemma_full_behind_lead(ops, declared);
    lemma_full_behind_lead(e, locked);
    lemma_version_text_starts(declared);
    assert(e + pin =~= pin);
    assert(e + t + e =~= t);
    lemma_lead_tells_the_floor(ops, core);
    when_a_pin_is_stale(e, t, e, pin);
}

/// The version declared is itself a good pin: nothing in front of it, or operators
/// that start neither with `<` nor with `>`, or with `>=`, do not make it stale,
/// and `>` alone does.
pub proof fn the_declared_version_as_a_pin(ops: Seq<char>, m: VersionModel)
    requires
        lead(ops),
        m.well_formed(),
    ensures
        ops.len() == 0 ==> !stale(ops + version_text(m), version_text(m)),
        ops.len() > 0 && operator(ops[0]) && ops[0] != '<' && ops[0] != '>' ==> !stale(
            ops + version_text(m),
            version_text(m),
        ),
        ops.len() > 1 && ops[0] == '>' && ops[1] == '=' ==> !stale(
            ops + version_text(m),
            version_text(m),
        ),
        ops == seq!['>'] ==> stale(ops + version_text(m), version_text(m)),
{
    same_place_means_equal(m, m);
    if ops.len() == 0 || (operator(ops[0]) && ops[0] != '<') {
        stale_against_a_full_version(ops, m, m);
    }
}

/// `v` is a version, and one that the requirement admits.
pub open spec fn allowed(requirement: Seq<char>, v: Option<VersionModel>) -> bool {
    v is Some && requirement_admits(
        requirement,
        v->0.major,
        v->0.minor,
        v->0.patch,
        v->0.pre,
    )
}

/// What is judged is the whole declaration, without the white space around it and
/// without a `v` in front of a digit: every version that can be read is put to that
/// very requirement.
pub proof fn the_whole_requirement_is_judged(
    declared: &str,
    before: Seq<char>,
    marked: bool,
    core: Seq<char>,
    after: Seq<char>,
    versions: &Vec<Option<Version>>,
    r: Option<Vec<bool>>,
)
    requires
        is_frame(before, marked, core, after),
        declared@ == framed(before, marked, core, after),
        call_ensures(judge, (declared, versions), r),
    ensures
        r is Some <==> requirement_reads(core),
        r matches Some(v) ==> v@.len() == versions@.len() && forall|i: int|
            0 <= i < versions@.len() ==> (#[trigger] v@[i] <==> versions@[i] is Some
                && requirement_admits(
                core,
                versions@[i]->0.major,
                versions@[i]->0.minor,
                versions@[i]->0.patch,
                versions@[i]->0.pre@,
            )),
{
    lemma_frame_comes_off(before, marked, core, after);
    assert(requirement_text(declared@) == core);
}

/// Entry `k` is admitted, no admitted entry is higher, and none behind it is equal.
pub open spec fn is_best(versions: Seq<Option<VersionModel>>, admitted: Seq<bool>, k: int) -> bool {
    &&& 0 <= k < versions.len()
    &&& versions[k] is Some
    &&& admitted[k]
    &&& forall|j: int|
        0 <= j < versions.len() && #[trigger] versions[j] is Some && admitted[j] ==> if j <= k {
            versions[j] == versions[k] || version_order(versions[j]->0, versions[k]->0) is Lower
        } else {
            version_order(versions[j]->0, versions[k]->0) is Lower
        }
}

proof fn lemma_best(versions: Seq<Option<VersionModel>>, admitted: Seq<bool>)
    ensures
        highest_admitted(versions, admitted, versions.len()) matches Some(k) ==> is_best(
            versions,
            admitted,
            k,
        ),
        highest_admitted(versions, admitted, versions.len()) is None ==> forall|j: int|
            0 <= j < versions.len() && #[trigger] versions[j] is Some ==> !admitted[j],
{
    lemma_highest(versions, admitted, versions.len());
    if let Some(k) = highest_admitted(versions, admitted, versions.len()) {
        assert(last_highest(versions, admitted, versions.len() as int, k));
        assert forall|j: int|
            0 <= j < versions.len() && #[trigger] versions[j] is Some && admitted[j] implies if j
            <= k {
            versions[j] == versions[k] || version_order(versions[j]->0, versions[k]->0) is Lower
        } else {
            version_order(versions[j]->0, versions[k]->0) is Lower
        } by {
            assert(eligible(versions, admitted, j));
        }
    } else {
        assert forall|j: int| 0 <= j < versions.len() && #[trigger] versions[j] is Some implies
            !admitted[j] by {
            assert(!eligible(versions, admitted, j));
        }
    }
}

/// The pick among versions is the last of the highest that are admitted, and there
/// is none only where none is admitted.
pub proof fn the_pick_is_the_best(
    versions: &Vec<Option<Version>>,
    admitted: &Vec<bool>,
    r: Option<usize>,
)
    requires
        call_ensures(pick_highest, (versions, admitted), r),
        versions@.len() == admitted@.len(),
    ensures
        r matches Some(k) ==> is_best(seen(versions@), admitted@, k as int),
        r is None ==> forall|j: int|
            0 <= j < versions@.len() && #[trigger] versions@[j] is Some ==> !admitted@[j],
{
    assert(models(versions@) =~= seen(versions@));
    lemma_best(models(versions@), admitted@);
    if r is None {
        assert forall|j: int| 0 <= j < versions@.len() && #[trigger] versions@[j] is Some implies
            !admitted@[j] by {
            assert(models(versions@)[j] is Some);
        }
    }
}

/// What a list of versions holds.
pub open spec fn seen(versions: Seq<Option<Version>>) -> Seq<Option<VersionModel>> {
    Seq::new(
        versions.len(),
        |i: int|
            if versions[i] is Some {
                Some(versions[i]->0@)
            } else {
                None
            },
    )
}

/// The choice is the best admitted version where verdicts are given and a version
/// can be read, and the first entry otherwise.
pub proof fn the_choice_among_versions(
    versions: &Vec<Option<Version>>,
    verdicts: &Option<Vec<bool>>,
    r: Option<usize>,
)
    requires
        call_ensures(choose_candidate, (versions, verdicts), r),
        verdicts matches Some(v) ==> v@.len() == versions@.len(),
    ensures
        verdicts is Some && (exists|i: int|
            0 <= i < versions@.len() && #[trigger] versions@[i] is Some) ==> {
            &&& r matches Some(k) ==> is_best(seen(versions@), verdicts->0@, k as int)
            &&& r is None ==> forall|j: int|
                0 <= j < versions@.len() && #[trigger] versions@[j] is Some ==> !verdicts->0@[j]
        },
        verdicts is None || (forall|i: int|
            0 <= i < versions@.len() ==> #[trigger] versions@[i] is None) ==> r == (
        if versions@.len() > 0 {
            Some(0usize)
        } else {
            None
        }),
{
    let ms = models(versions@);
    assert(ms =~= seen(versions@));
    if exists|i: int| 0 <= i < versions@.len() && #[trigger] versions@[i] is Some {
        let i = choose|i: int| 0 <= i < versions@.len() && #[trigger] versions@[i] is Some;
        assert(ms[i] is Some);
        if verdicts is Some {
            lemma_best(ms, verdicts->0@);
            if r is None {
                assert forall|j: int|
                    0 <= j < versions@.len() && #[trigger] versions@[j] is Some implies
                    !verdicts->0@[j] by {
                    assert(ms[j] is Some);
                }
            }
        }
    }
    if forall|i: int| 0 <= i < versions@.len() ==> #[trigger] versions@[i] is None {
        assert forall|i: int| 0 <= i < ms.len() implies #[trigger] ms[i] is None by {
            assert(versions@[i] is None);
        }
    }
}

/// Some entry can be read as a version.
pub open spec fn some_reads(entries: Seq<Seq<char>>) -> bool {
    exists|i: int| 0 <= i < entries.len() && loose_version(#[trigger] entries[i]) is Some
}

/// Entry `k` reads as a version that the requirement admits, no entry that it
/// admits is higher, and none behind it is equal.
pub open spec fn is_best_entry(requirement: Seq<char>, entries: Seq<Seq<char>>, k: int) -> bool {
    &&& 0 <= k < entries.len()
    &&& allowed(requirement, loose_version(entries[k]))
    &&& forall|j: int|
        0 <= j < entries.len() && allowed(requirement, loose_version(#[trigger] entries[j])) ==> {
            let other = loose_version(entries[j])->0;
            let best = loose_version(entries[k])->0;
            version_order(other, best) is Lower || (j <= k && other == best)
        }
}

/// The entry chosen for a declaration. Where the declaration, whole, is a
/// requirement that can be read, and an entry can be read too, it is the last of
/// the highest that the requirement admits, and none only where it admits none.
/// Otherwise it is the first.
pub proof fn the_entry_chosen(
    before: Seq<char>,
    marked: bool,
    core: Seq<char>,
    after: Seq<char>,
    entries: Seq<Seq<char>>,
)
    requires
        is_frame(before, marked, core, after),
    ensures
        ({
            let declared = framed(before, marked, core, after);
            let choice = locked_choice(declared, entries);
            &&& requirement_reads(core) && some_reads(entries) ==> {
                &&& choice matches Some(k) ==> is_best_entry(core, entries, k)
                &&& choice is None ==> forall|j: int|
                    0 <= j < entries.len() ==> !allowed(core, loose_version(#[trigger] entries[j]))
            }
            &&& !(requirement_reads(core) && some_reads(entries)) ==> choice == (
            if entries.len() > 0 {
                Some(0int)
            } else {
                None
            })
            &&& choice is None ==> locked_version(declared, entries) is None
            &&& choice matches Some(k) ==> locked_version(declared, entries) == Some(entries[k])
        }),
{
    let declared = framed(before, marked, core, after);
    let versions = loose_versions(entries);
    let verdicts = verdicts_of(core, versions);
    lemma_frame_comes_off(before, marked, core, after);
    assert(requirement_text(declared) == core);
    assert(versions.len() == entries.len());
    assert forall|i: int| 0 <= i < entries.len() implies #[trigger] versions[i] == loose_version(
        entries[i],
    ) && verdicts[i] == allowed(core, loose_version(entries[i])) by {}
    if some_reads(entries) {
        let i = choose|i: int|
            0 <= i < entries.len() && loose_version(#[trigger] entries[i]) is Some;
        assert(versions[i] is Some);
    }
    if some_readable(versions) {
        let i = choose|i: int| 0 <= i < versions.len() && #[trigger] versions[i] is Some;
        assert(loose_version(entries[i]) is Some);
    }
    if requirement_reads(core) && some_reads(entries) {
        lemma_best(versions, verdicts);
        if let Some(k) = locked_choice(declared, entries) {
            assert(is_best(versions, verdicts, k));
            assert forall|j: int|
                0 <= j < entries.len() && allowed(
                    core,
                    loose_version(#[trigger] entries[j]),
                ) implies {
                let other = loose_version(entries[j])->0;
                let best = loose_version(entries[k])->0;
                version_order(other, best) is Lower || (j <= k && other == best)
            } by {
                assert(versions[j] is Some && verdicts[j]);
            }
        } else {
            assert forall|j: int| 0 <= j < entries.len() implies !allowed(
                core,
                loose_version(#[trigger] entries[j]),
            ) by {
                assert(versions[j] == loose_version(entries[j]));
            }
        }
    }
}

/// What a list of candidates holds.
pub open spec fn spelled(candidates: Seq<&str>) -> Seq<Seq<char>> {
    Seq::new(candidates.len(), |i: int| candidates[i]@)
}

/// The candidate returned is the entry that the law above describes.
pub proof fn the_candidate_returned(
    declared: &str,
    candidates: &[&str],
    r: Option<&str>,
)
    requires
        call_ensures(select_locked_version, (declared, candidates), r),
    ensures
        locked_choice(declared@, spelled(candidates@)) matches Some(k) ==> 0 <= k
            < candidates@.len() && r == Some(candidates@[k]),
        locked_choice(declared@, spelled(candidates@)) is None ==> r is None,
{
    assert(texts(candidates@) =~= spelled(candidates@));
}

/// A declaration that starts neither with white space nor with `v` and a digit,
/// and does not end in white space, is judged to the letter: the candidate returned
/// is the best that this very requirement admits, and none is returned only where
/// it admits none.
pub proof fn a_requirement_is_judged_to_the_letter(
    declared: &str,
    candidates: &[&str],
    r: Option<&str>,
)
    requires
        solid(declared@),
        !v_and_digit(declared@),
        requirement_reads(declared@),
        some_reads(spelled(candidates@)),
        call_ensures(select_locked_version, (declared, candidates), r),
    ensures
        r is Some ==> exists|k: int| #[trigger]
            is_best_entry(declared@, spelled(candidates@), k) && r == Some(candidates@[k]),
        r is None ==> forall|j: int|
            0 <= j < candidates@.len() ==> !allowed(
                declared@,
                loose_version(#[trigger] spelled(candidates@)[j]),
            ),
{
    let e = Seq::<char>::empty();
    assert(e + declared@ + e =~= declared@);
    the_entry_chosen(e, false, declared@, e, spelled(candidates@));
    the_candidate_returned(declared, candidates, r);
}

} // verus!
