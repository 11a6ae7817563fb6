//! Telling a lock pin that is older than what the manifest declares.

use vstd::prelude::*;

use crate::loose::{
    full_version_is_read, is_local_dependency, lemma_version_text_starts, loose_version,
    operators_only, parse_loose, refers_to_local_package, surrounding_whitespace_is_ignored,
};
use crate::precedence::{
    numbers_order, precedence_is_transitive, same_place_means_equal, version_order, Precedence,
};
use crate::semver_api::semver_compare;
use crate::text::{begins, first_is, starts_with, trim, trimmed};
use crate::version::{model_of, version_text, Version, VersionModel};

verus! {

/// A declaration, given without surrounding white space, states no lower bound:
/// it is empty, an upper bound, an exclusion, a wildcard or a reference to a
/// local package.
pub open spec fn states_no_floor(spec_text: Seq<char>) -> bool {
    ||| spec_text.len() == 0
    ||| begins(spec_text, '<')
    ||| "!="@.is_prefix_of(spec_text)
    ||| begins(spec_text, '*')
    ||| refers_to_local_package(spec_text)
}

/// The lower bound of the declaration is itself excluded: `>`, but not `>=`.
pub open spec fn floor_is_exclusive(spec_text: Seq<char>) -> bool {
    begins(spec_text, '>') && !">="@.is_prefix_of(spec_text)
}

/// The pin misses the floor: it is lower, or no higher where the floor is
/// exclusive. An unreadable version never misses.
pub open spec fn misses_floor(
    exclusive: bool,
    floor: Option<VersionModel>,
    locked: Option<VersionModel>,
) -> bool {
    floor is Some && locked is Some && {
        let order = version_order(locked->0, floor->0);
        order is Lower || (exclusive && order is Same)
    }
}

/// The locked version sits below the lower bound that the manifest declares.
pub open spec fn stale(declared: Seq<char>, locked: Seq<char>) -> bool {
    let spec_text = trimmed(declared);
    !states_no_floor(spec_text) && misses_floor(
        floor_is_exclusive(spec_text),
        loose_version(spec_text),
        loose_version(locked),
    )
}

/// Whether a pin misses the floor, given what the two sides write.
pub fn below_floor(exclusive: bool, floor: &Option<Version>, locked: &Option<Version>) -> (r: bool)
    requires
        floor matches Some(v) ==> v@.well_formed(),
        locked matches Some(v) ==> v@.well_formed(),
    ensures
        r == misses_floor(exclusive, model_of(*floor), model_of(*locked)),
{
    match (floor, locked) {
        (Some(floor), Some(locked)) => {
            let order = semver_compare(locked, floor);
            order == Precedence::Lower || (exclusive && order == Precedence::Same)
        },
        _ => false,
    }
}

/// True when the locked version sits *below* the lower bound that the manifest
/// declares. A declaration without a lower bound, and a version that cannot be
/// read, never make a pin stale.
pub fn lockfile_is_stale(declared: &str, locked: &str) -> (r: bool)
    ensures
        r == stale(declared@, locked@),
{
    let spec_text = trim(declared);
    if spec_text.is_empty() || first_is(spec_text, '<') || starts_with(spec_text, "!=") || first_is(
        spec_text,
        '*',
    ) || is_local_dependency(spec_text) {
        return false;
    }
    let exclusive = first_is(spec_text, '>') && !starts_with(spec_text, ">=");
    below_floor(exclusive, &parse_loose(spec_text), &parse_loose(locked))
}

/// A declaration without a lower bound never makes a pin stale.
pub proof fn no_floor_is_never_missed(declared: Seq<char>, locked: Seq<char>)
    requires
        states_no_floor(trimmed(declared)),
    ensures
        !stale(declared, locked),
{
}

/// Where either side cannot be read, the pin is not stale.
pub proof fn unreadable_is_never_stale(declared: Seq<char>, locked: Seq<char>)
    requires
        loose_version(declared) is None || loose_version(locked) is None,
    ensures
        !stale(declared, locked),
{
    surrounding_whitespace_is_ignored(declared);
}

/// A pin is stale against a full version behind operators other than `<` exactly
/// if it is lower than that version, or no higher where the operator is `>` alone.
pub proof fn stale_means_below_the_declared_version(
    operators: Seq<char>,
    declared: VersionModel,
    locked: VersionModel,
)
    requires
        operators_only(operators),
        !begins(operators, '<'),
        declared.well_formed(),
        locked.well_formed(),
    ensures
        stale(operators + version_text(declared), version_text(locked)) == misses_floor(
            floor_is_exclusive(operators),
            Some(declared),
            Some(locked),
        ),
{
    let s = operators + version_text(declared);
    let none = Seq::<char>::empty();
    full_version_is_read(operators, declared);
    full_version_is_read(none, locked);
    assert(none + version_text(locked) =~= version_text(locked));
    lemma_version_text_starts(declared);
    reveal_strlit("!=");
    reveal_strlit(">=");
    reveal_strlit("file:");
    reveal_strlit("workspace:");
    assert(operators.len() > 0 ==> s[0] == operators[0]);
    assert(operators.len() > 1 ==> s[1] == operators[1]);
    assert(operators.len() == 0 ==> s[0] == version_text(declared)[0]);
    assert(operators.len() == 1 ==> s[1] == version_text(declared)[0]);
    lemma_two_char_prefix('>', '=', s);
    lemma_two_char_prefix('>', '=', operators);
    assert(">="@ =~= seq!['>', '=']);
    lemma_first_char("!="@, s);
    lemma_first_char("file:"@, s);
    lemma_first_char("workspace:"@, s);
}

proof fn lemma_first_char(prefix: Seq<char>, s: Seq<char>)
    ensures
        prefix.len() > 0 && prefix.is_prefix_of(s) ==> s.len() > 0 && s[0] == prefix[0],
{
    if prefix.len() > 0 && prefix.is_prefix_of(s) {
        assert(s.subrange(0, prefix.len() as int)[0] == s[0]);
    }
}

proof fn lemma_two_char_prefix(a: char, b: char, s: Seq<char>)
    ensures
        seq![a, b].is_prefix_of(s) == (s.len() > 1 && s[0] == a && s[1] == b),
{
    if s.len() > 1 && s[0] == a && s[1] == b {
        assert(s.subrange(0, 2) =~= seq![a, b]);
    } else if s.len() > 1 {
        assert(s.subrange(0, 2)[0] == s[0]);
        assert(s.subrange(0, 2)[1] == s[1]);
    }
}

/// The pin that is the declared version itself is kept, unless the declaration
/// excludes it.
pub proof fn declared_version_is_kept(operators: Seq<char>, m: VersionModel)
    requires
        operators_only(operators),
        !begins(operators, '<'),
        !floor_is_exclusive(operators),
        m.well_formed(),
    ensures
        !stale(operators + version_text(m), version_text(m)),
{
    stale_means_below_the_declared_version(operators, m, m);
    same_place_means_equal(m, m);
}

/// Between versions with different numbers the numbers decide, from left to right.
pub proof fn numbers_decide(operators: Seq<char>, declared: VersionModel, locked: VersionModel)
    requires
        operators_only(operators),
        !begins(operators, '<'),
        declared.well_formed(),
        locked.well_formed(),
        numbers_order(locked, declared) !is Same,
    ensures
        stale(operators + version_text(declared), version_text(locked)) == (numbers_order(
            locked,
            declared,
        ) is Lower),
{
    stale_means_below_the_declared_version(operators, declared, locked);
}

/// What reads as a version no higher than a stale pin is stale too.
pub proof fn no_higher_pin_is_stale_too(declared: Seq<char>, locked: Seq<char>, other: Seq<char>)
    requires
        stale(declared, locked),
        loose_version(other) is Some,
        version_order(loose_version(other)->0, loose_version(locked)->0) !is Higher,
    ensures
        stale(declared, other),
{
    let floor = loose_version(trimmed(declared))->0;
    let old_pin = loose_version(locked)->0;
    let pin = loose_version(other)->0;
    precedence_is_transitive(pin, old_pin, floor);
    same_place_means_equal(pin, old_pin);
}

/// What reads as a version no lower than a readable pin that is not stale is not
/// stale either.
pub proof fn no_lower_pin_is_fresh_too(declared: Seq<char>, locked: Seq<char>, other: Seq<char>)
    requires
        !stale(declared, locked),
        loose_version(locked) is Some,
        loose_version(other) is Some,
        version_order(loose_version(locked)->0, loose_version(other)->0) !is Higher,
    ensures
        !stale(declared, other),
{
    if stale(declared, other) {
        no_higher_pin_is_stale_too(declared, other, locked);
    }
}

} // verus!
