//! Laws on the order of versions.

use vstd::prelude::*;

use crate::laws::{numeral, undotted};
use crate::precedence::{
    all_digits, build_order, dot_index, identifier_order, identifiers, identifiers_order,
    lemma_identifier_total, prerelease_order, same_place_means_equal, text_order, version_order,
};
use crate::text::is_digit;
use crate::version::{decimal, lemma_decimal_digits, lemma_decimal_value, VersionModel};

verus! {

/// Two versions have the same numbers.
pub open spec fn same_numbers(a: VersionModel, b: VersionModel) -> bool {
    a.major == b.major && a.minor == b.minor && a.patch == b.patch
}

/// The first number that differs, from left to right, decides.
pub proof fn the_first_number_that_differs_decides(a: VersionModel, b: VersionModel)
    ensures
        a.major < b.major ==> version_order(a, b) is Lower,
        a.major == b.major && a.minor < b.minor ==> version_order(a, b) is Lower,
        a.major == b.major && a.minor == b.minor && a.patch < b.patch ==> version_order(
            a,
            b,
        ) is Lower,
{
}

/// A release is above its pre-releases.
pub proof fn a_release_is_above_its_prereleases(a: VersionModel, b: VersionModel)
    requires
        same_numbers(a, b),
        a.pre.len() > 0,
        b.pre.len() == 0,
    ensures
        version_order(a, b) is Lower,
{
}

/// `x` is lower than `y` as one identifier of a pre-release or of build metadata.
/// Numbers compare by value and are lower than anything else; other identifiers
/// compare by the first character that differs, and one that the other goes on
/// from is lower.
pub open spec fn identifier_below(x: Seq<char>, y: Seq<char>) -> bool {
    ||| exists|m: nat, n: nat| #![trigger decimal(m), decimal(n)]
        m < n && x == decimal(m) && y == decimal(n)
    ||| numeric(x) && !numeric(y)
    ||| !numeric(x) && !numeric(y) && exists|i: int|
        0 <= i < x.len() && i < y.len() && #[trigger] x[i] < y[i] && x.take(i) == y.take(i)
    ||| !numeric(x) && !numeric(y) && x.len() < y.len() && x == y.take(x.len() as int)
}

/// Nothing but digits.
pub open spec fn numeric(x: Seq<char>) -> bool {
    forall|i: int| 0 <= i < x.len() ==> numeral(#[trigger] x[i])
}

proof fn lemma_numeric(x: Seq<char>)
    ensures
        numeric(x) <==> all_digits(x),
{
    if numeric(x) {
        assert forall|i: int| 0 <= i < x.len() implies is_digit(#[trigger] x[i]) by {
            assert(numeral(x[i]));
        }
    }
    if all_digits(x) {
        assert forall|i: int| 0 <= i < x.len() implies numeral(#[trigger] x[i]) by {
            assert(is_digit(x[i]));
        }
    }
}

proof fn lemma_text_below(x: Seq<char>, y: Seq<char>, i: int)
    requires
        0 <= i <= x.len(),
        i < y.len(),
        i < x.len() ==> x[i] < y[i],
        x.take(i) == y.take(i),
    ensures
        text_order(x, y) is Lower,
    decreases i,
{
    if i > 0 {
        assert(x.take(i)[0] == x[0]);
        assert(y.take(i)[0] == y[0]);
        assert(x.skip(1).take(i - 1) =~= x.take(i).skip(1));
        assert(y.skip(1).take(i - 1) =~= y.take(i).skip(1));
        lemma_text_below(x.skip(1), y.skip(1), i - 1);
    }
}

proof fn lemma_identifier_below(x: Seq<char>, y: Seq<char>)
    requires
        identifier_below(x, y),
    ensures
        identifier_order(x, y) is Lower,
{
    lemma_numeric(x);
    lemma_numeric(y);
    if exists|m: nat, n: nat| #![trigger decimal(m), decimal(n)]
        m < n && x == decimal(m) && y == decimal(n) {
        let (m, n): (nat, nat) = choose|m: nat, n: nat| #![trigger decimal(m), decimal(n)]
            m < n && x == decimal(m) && y == decimal(n);
        lemma_decimal_digits(m);
        lemma_decimal_digits(n);
        lemma_decimal_value(m);
        lemma_decimal_value(n);
    } else if !numeric(x) && !numeric(y) {
        if x.len() < y.len() && x == y.take(x.len() as int) {
            assert(x.take(x.len() as int) =~= x);
            lemma_text_below(x, y, x.len() as int);
        } else {
            let i = choose|i: int|
                0 <= i < x.len() && i < y.len() && #[trigger] x[i] < y[i] && x.take(i) == y.take(i);
            lemma_text_below(x, y, i);
        }
    }
}

proof fn lemma_dot_behind(x: Seq<char>, rest: Seq<char>)
    requires
        undotted(x),
        rest.len() > 0 ==> rest[0] == '.',
    ensures
        dot_index(x + rest) == x.len(),
    decreases x.len(),
{
    if x.len() == 0 {
        assert(x + rest =~= rest);
    } else {
        assert((x + rest)[0] == x[0]);
        assert((x + rest).skip(1) =~= x.skip(1) + rest);
        assert forall|i: int| 0 <= i < x.skip(1).len() implies #[trigger] x.skip(1)[i] != '.' by {
            assert(x.skip(1)[i] == x[i + 1]);
        }
        lemma_dot_behind(x.skip(1), rest);
    }
}

/// The list starts with the part before the first dot.
proof fn lemma_first_identifier(x: Seq<char>, rest: Seq<char>)
    requires
        undotted(x),
        rest.len() > 0 ==> rest[0] == '.',
    ensures
        identifiers(x + rest) == (if rest.len() == 0 {
            seq![x]
        } else {
            seq![x] + identifiers(rest.skip(1))
        }),
{
    let s = x + rest;
    lemma_dot_behind(x, rest);
    if rest.len() == 0 {
        assert(s =~= x);
    } else {
        assert(s.take(x.len() as int) =~= x);
        assert(s.skip(x.len() as int + 1) =~= rest.skip(1));
    }
}

proof fn lemma_common_identifiers(common: Seq<char>, a: Seq<char>, b: Seq<char>)
    requires
        common.len() > 0 ==> common[common.len() - 1] == '.',
    ensures
        identifiers_order(identifiers(common + a), identifiers(common + b)) == identifiers_order(
            identifiers(a),
            identifiers(b),
        ),
    decreases common.len(),
{
    if common.len() == 0 {
        assert(common + a =~= a);
        assert(common + b =~= b);
    } else {
        let k = lemma_first_dot(common);
        let x = common.take(k);
        let tail = common.skip(k + 1);
        lemma_cut(common, k, a);
        lemma_cut(common, k, b);
        let ra = common.skip(k) + a;
        let rb = common.skip(k) + b;
        assert(ra[0] == common[k]);
        assert(rb[0] == common[k]);
        assert(undotted(x)) by {
            assert forall|i: int| 0 <= i < x.len() implies #[trigger] x[i] != '.' by {
                assert(x[i] == common[i]);
            }
        }
        lemma_first_identifier(x, ra);
        lemma_first_identifier(x, rb);
        if tail.len() > 0 {
            assert(tail[tail.len() - 1] == common[common.len() - 1]);
        }
        lemma_common_identifiers(tail, a, b);
        let la = seq![x] + identifiers(tail + a);
        let lb = seq![x] + identifiers(tail + b);
        lemma_identifier_total(x, x);
        assert(la.skip(1) =~= identifiers(tail + a));
        assert(lb.skip(1) =~= identifiers(tail + b));
    }
}

proof fn lemma_first_dot(s: Seq<char>) -> (k: int)
    requires
        s.len() > 0,
        s[s.len() - 1] == '.',
    ensures
        0 <= k < s.len(),
        s[k] == '.',
        forall|i: int| 0 <= i < k ==> #[trigger] s[i] != '.',
    decreases s.len(),
{
    if s[0] == '.' {
        0
    } else {
        let t = s.skip(1);
        assert(t[t.len() - 1] == s[s.len() - 1]);
        let k = lemma_first_dot(t);
        assert forall|i: int| 0 <= i < k + 1 implies #[trigger] s[i] != '.' by {
            if i > 0 {
                assert(s[i] == t[i - 1]);
            }
        }
        k + 1
    }
}

proof fn lemma_cut(common: Seq<char>, k: int, a: Seq<char>)
    requires
        0 <= k < common.len(),
    ensures
        common + a == common.take(k) + (common.skip(k) + a),
        (common.skip(k) + a).skip(1) == common.skip(k + 1) + a,
{
    assert(common + a =~= common.take(k) + (common.skip(k) + a));
    assert((common.skip(k) + a).skip(1) =~= common.skip(k + 1) + a);
}

/// `s` is `common`, then the identifier `x`, then the end or a dot and more.
pub open spec fn goes_on_with(
    s: Seq<char>,
    common: Seq<char>,
    x: Seq<char>,
    rest: Seq<char>,
) -> bool {
    &&& s == common + (x + rest)
    &&& common.len() > 0 ==> common[common.len() - 1] == '.'
    &&& x.len() > 0
    &&& undotted(x)
    &&& rest.len() > 0 ==> rest[0] == '.'
}

proof fn lemma_differing(
    s: Seq<char>,
    t: Seq<char>,
    common: Seq<char>,
    x: Seq<char>,
    y: Seq<char>,
    r1: Seq<char>,
    r2: Seq<char>,
)
    requires
        goes_on_with(s, common, x, r1),
        goes_on_with(t, common, y, r2),
        identifier_below(x, y),
    ensures
        identifiers_order(identifiers(s), identifiers(t)) is Lower,
{
    lemma_common_identifiers(common, x + r1, y + r2);
    lemma_first_identifier(x, r1);
    lemma_first_identifier(y, r2);
    lemma_identifier_below(x, y);
    assert(identifiers(x + r1)[0] == x);
    assert(identifiers(y + r2)[0] == y);
}

/// Of two pre-releases of the same numbers, the first identifier that differs
/// decides.
pub proof fn the_first_prerelease_identifier_that_differs_decides(
    a: VersionModel,
    b: VersionModel,
    common: Seq<char>,
    x: Seq<char>,
    y: Seq<char>,
    r1: Seq<char>,
    r2: Seq<char>,
)
    requires
        same_numbers(a, b),
        goes_on_with(a.pre, common, x, r1),
        goes_on_with(b.pre, common, y, r2),
        identifier_below(x, y),
    ensures
        version_order(a, b) is Lower,
{
    lemma_differing(a.pre, b.pre, common, x, y, r1, r2);
    assert(prerelease_order(a.pre, b.pre) is Lower);
}

/// Of two versions that differ in build metadata alone, the first identifier that
/// differs decides.
pub proof fn the_first_build_identifier_that_differs_decides(
    a: VersionModel,
    b: VersionModel,
    common: Seq<char>,
    x: Seq<char>,
    y: Seq<char>,
    r1: Seq<char>,
    r2: Seq<char>,
)
    requires
        same_numbers(a, b),
        a.pre == b.pre,
        goes_on_with(a.build, common, x, r1),
        goes_on_with(b.build, common, y, r2),
        identifier_below(x, y),
    ensures
        version_order(a, b) is Lower,
{
    lemma_differing(a.build, b.build, common, x, y, r1, r2);
    same_place_means_equal(a, VersionModel { build: a.build, ..b });
    assert(build_order(a.build, b.build) is Lower);
}

/// A pre-release that another one goes on from, behind a dot, is lower.
pub proof fn more_identifiers_are_higher(a: VersionModel, b: VersionModel, rest: Seq<char>)
    requires
        same_numbers(a, b),
        a.pre.len() > 0,
        b.pre == a.pre + (seq!['.'] + rest),
    ensures
        version_order(a, b) is Lower,
{
    lemma_continued(a.pre, rest);
    assert(prerelease_order(a.pre, b.pre) is Lower);
}

proof fn lemma_continued(s: Seq<char>, rest: Seq<char>)
    ensures
        identifiers_order(identifiers(s), identifiers(s + (seq!['.'] + rest))) is Lower,
    decreases s.len(),
{
    let more = seq!['.'] + rest;
    assert(more.skip(1) =~= rest);
    if undotted(s) {
        let e = Seq::<char>::empty();
        lemma_first_identifier(s, e);
        assert(s + e =~= s);
        lemma_first_identifier(s, more);
        lemma_identifier_total(s, s);
        let long = seq![s] + identifiers(rest);
        assert(long.skip(1) =~= identifiers(rest));
        assert(identifiers(rest).len() > 0);
        assert(identifiers(s + more) == long);
        assert(identifiers_order(identifiers(s).skip(1), long.skip(1)) is Lower);
    } else {
        let d = choose|d: int| 0 <= d < s.len() && #[trigger] s[d] == '.';
        let k = lemma_first_dot(s.take(d + 1));
        assert(s.take(d + 1)[k] == s[k]);
        let x = s.take(k);
        let r = s.skip(k);
        assert(undotted(x)) by {
            assert forall|i: int| 0 <= i < x.len() implies #[trigger] x[i] != '.' by {
                assert(x[i] == s.take(d + 1)[i]);
            }
        }
        assert(s =~= x + r);
        assert(r.skip(1) =~= s.skip(k + 1));
        lemma_cut(s, k, more);
        assert((r + more)[0] == s[k]);
        lemma_first_identifier(x, r);
        lemma_first_identifier(x, r + more);
        lemma_continued(s.skip(k + 1), rest);
        lemma_identifier_total(x, x);
        let short = seq![x] + identifiers(s.skip(k + 1));
        let long = seq![x] + identifiers(s.skip(k + 1) + more);
        assert(short.skip(1) =~= identifiers(s.skip(k + 1)));
        assert(long.skip(1) =~= identifiers(s.skip(k + 1) + more));
    }
}

} // verus!
