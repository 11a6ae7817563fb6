//! Semantic versions as plain values: their fields, and how they are written.

use vstd::prelude::*;

use crate::text::is_digit;

verus! {

/// A semantic version.
#[derive(Debug, PartialEq, Eq)]
pub struct Version {
    pub major: u64,
    pub minor: u64,
    pub patch: u64,
    /// The pre-release after `-`, empty for an ordinary release.
    pub pre: String,
    /// The build metadata after `+`, empty where there is none.
    pub build: String,
}

/// What a [`Version`] holds, with its strings taken as sequences of characters.
#[verifier::ext_equal]
pub struct VersionModel {
    pub major: u64,
    pub minor: u64,
    pub patch: u64,
    pub pre: Seq<char>,
    pub build: Seq<char>,
}

impl View for Version {
    type V = VersionModel;

    open spec fn view(&self) -> VersionModel {
        VersionModel {
            major: self.major,
            minor: self.minor,
            patch: self.patch,
            pre: self.pre@,
            build: self.build@,
        }
    }
}

/// The model of an optional version.
pub open spec fn model_of(v: Option<Version>) -> Option<VersionModel> {
    match v {
        Some(v) => Some(v@),
        None => None,
    }
}

/// The characters an identifier in a pre-release or in build metadata is made of.
pub open spec fn is_identifier_char(c: char) -> bool {
    is_digit(c) || 'A' <= c <= 'Z' || 'a' <= c <= 'z' || c == '-'
}

/// `s` is empty, or a series of non-empty identifiers separated by dots.
pub open spec fn dotted_identifiers(s: Seq<char>) -> bool {
    s.len() > 0 ==> {
        &&& forall|i: int| 0 <= i < s.len() ==> is_identifier_char(#[trigger] s[i]) || s[i] == '.'
        &&& s[0] != '.'
        &&& s.last() != '.'
        &&& forall|i: int|
            0 < i < s.len() && #[trigger] s[i] == '.' ==> s[i - 1] != '.'
    }
}

/// `s[i..j]` is one whole identifier of the dotted series `s`.
pub open spec fn identifier_at(s: Seq<char>, i: int, j: int) -> bool {
    &&& 0 <= i < j <= s.len()
    &&& i == 0 || s[i - 1] == '.'
    &&& j == s.len() || s[j] == '.'
    &&& forall|k: int| i <= k < j ==> #[trigger] s[k] != '.'
}

/// No identifier of `s` made of digits alone has a leading zero.
pub open spec fn no_leading_zeros(s: Seq<char>) -> bool {
    forall|i: int, j: int| #[trigger]
        identifier_at(s, i, j) && j - i > 1 && (forall|k: int|
            i <= k < j ==> is_digit(#[trigger] s[k])) ==> s[i] != '0'
}

impl VersionModel {
    /// The pre-release and the build metadata have the syntax that semantic
    /// versioning gives them.
    pub open spec fn well_formed(self) -> bool {
        &&& dotted_identifiers(self.pre)
        &&& no_leading_zeros(self.pre)
        &&& dotted_identifiers(self.build)
    }
}

/// The digit for a number below ten.
pub open spec fn digit(d: nat) -> char {
    (d + 48) as char
}

/// `n` written in base ten, without leading zeros.
pub open spec fn decimal(n: nat) -> Seq<char>
    decreases n,
{
    if n < 10 {
        seq![digit(n)]
    } else {
        decimal(n / 10).push(digit(n % 10))
    }
}

/// A pre-release as it is written behind the numbers.
pub open spec fn pre_text(pre: Seq<char>) -> Seq<char> {
    if pre.len() == 0 {
        Seq::empty()
    } else {
        seq!['-'] + pre
    }
}

/// Build metadata as it is written at the end.
pub open spec fn build_text(build: Seq<char>) -> Seq<char> {
    if build.len() == 0 {
        Seq::empty()
    } else {
        seq!['+'] + build
    }
}

/// How a version is written: `major.minor.patch`, then `-pre` and `+build`
/// where they are present.
pub open spec fn version_text(m: VersionModel) -> Seq<char> {
    decimal(m.major as nat) + (seq!['.'] + (decimal(m.minor as nat) + (seq!['.'] + (decimal(
        m.patch as nat,
    ) + (pre_text(m.pre) + build_text(m.build))))))
}

/// The version that `text` writes, where it writes one.
pub open spec fn version_of(text: Seq<char>) -> Option<VersionModel> {
    if exists|m: VersionModel| m.well_formed() && #[trigger] version_text(m) == text {
        Some(choose|m: VersionModel| m.well_formed() && #[trigger] version_text(m) == text)
    } else {
        None
    }
}

/// The release `major.minor.patch`, without pre-release and build metadata.
pub open spec fn release(major: u64, minor: u64, patch: u64) -> VersionModel {
    VersionModel { major, minor, patch, pre: Seq::empty(), build: Seq::empty() }
}

/// The number that a run of digits writes, zero where there is none.
pub open spec fn value(s: Seq<char>) -> nat
    decreases s.len(),
{
    if s.len() == 0 {
        0
    } else {
        value(s.drop_last()) * 10 + ((s.last() as u32 - 48) as nat)
    }
}

/// A number is written with at least one character, all of them digits.
pub proof fn lemma_decimal_digits(n: nat)
    ensures
        decimal(n).len() > 0,
        forall|i: int| 0 <= i < decimal(n).len() ==> is_digit(#[trigger] decimal(n)[i]),
    decreases n,
{
    if n >= 10 {
        lemma_decimal_digits(n / 10);
    }
}

/// A number is read back from how it is written.
pub proof fn lemma_decimal_value(n: nat)
    ensures
        value(decimal(n)) == n,
    decreases n,
{
    let s = decimal(n);
    if n < 10 {
        assert(s.drop_last() =~= Seq::<char>::empty());
        assert(value(s.drop_last()) == 0);
    } else {
        lemma_decimal_value(n / 10);
        assert(s.drop_last() =~= decimal(n / 10));
    }
}

/// Cutting a sequence at the end of its leading run of characters that satisfy
/// `p` is unambiguous.
proof fn lemma_leading_run(
    p: spec_fn(char) -> bool,
    a1: Seq<char>,
    r1: Seq<char>,
    a2: Seq<char>,
    r2: Seq<char>,
)
    requires
        a1 + r1 == a2 + r2,
        forall|i: int| 0 <= i < a1.len() ==> p(#[trigger] a1[i]),
        forall|i: int| 0 <= i < a2.len() ==> p(#[trigger] a2[i]),
        r1.len() > 0 ==> !p(r1[0]),
        r2.len() > 0 ==> !p(r2[0]),
    ensures
        a1 == a2,
        r1 == r2,
{
    let s = a1 + r1;
    let t = a2 + r2;
    if a1.len() < a2.len() {
        assert(t[a1.len() as int] == a2[a1.len() as int]);
        assert(s[a1.len() as int] == r1[0]);
    } else if a2.len() < a1.len() {
        assert(s[a2.len() as int] == a1[a2.len() as int]);
        assert(t[a2.len() as int] == r2[0]);
    }
    assert(a1 =~= s.take(a1.len() as int));
    assert(a2 =~= t.take(a2.len() as int));
    assert(r1 =~= s.skip(a1.len() as int));
    assert(r2 =~= t.skip(a2.len() as int));
}

/// A number followed by something that is no digit is read back whole.
proof fn lemma_leading_number(n1: nat, r1: Seq<char>, n2: nat, r2: Seq<char>)
    requires
        decimal(n1) + r1 == decimal(n2) + r2,
        r1.len() > 0 ==> !is_digit(r1[0]),
        r2.len() > 0 ==> !is_digit(r2[0]),
    ensures
        n1 == n2,
        r1 == r2,
{
    lemma_decimal_digits(n1);
    lemma_decimal_digits(n2);
    lemma_decimal_value(n1);
    lemma_decimal_value(n2);
    lemma_leading_run(|c: char| is_digit(c), decimal(n1), r1, decimal(n2), r2);
}

proof fn lemma_tail_text(pre: Seq<char>, build: Seq<char>)
    requires
        dotted_identifiers(pre),
        dotted_identifiers(build),
    ensures
        forall|i: int| 0 <= i < pre_text(pre).len() ==> #[trigger] pre_text(pre)[i] != '+',
        build_text(build).len() > 0 ==> build_text(build)[0] == '+',
        (pre_text(pre) + build_text(build)).len() > 0 ==> !is_digit(
            (pre_text(pre) + build_text(build))[0],
        ),
{
    assert forall|i: int| 0 <= i < pre_text(pre).len() implies #[trigger] pre_text(pre)[i]
        != '+' by {
        if i > 0 {
            assert(pre_text(pre)[i] == pre[i - 1]);
        }
    }
}

/// Two versions written the same way are the same version.
pub proof fn version_text_is_unambiguous(m1: VersionModel, m2: VersionModel)
    requires
        m1.well_formed(),
        m2.well_formed(),
        version_text(m1) == version_text(m2),
    ensures
        m1 == m2,
{
    let t1 = pre_text(m1.pre) + build_text(m1.build);
    let t2 = pre_text(m2.pre) + build_text(m2.build);
    let p1 = seq!['.'] + (decimal(m1.patch as nat) + t1);
    let p2 = seq!['.'] + (decimal(m2.patch as nat) + t2);
    let n1 = seq!['.'] + (decimal(m1.minor as nat) + p1);
    let n2 = seq!['.'] + (decimal(m2.minor as nat) + p2);
    lemma_leading_number(m1.major as nat, n1, m2.major as nat, n2);
    assert(n1.skip(1) =~= decimal(m1.minor as nat) + p1);
    assert(n2.skip(1) =~= decimal(m2.minor as nat) + p2);
    lemma_leading_number(m1.minor as nat, p1, m2.minor as nat, p2);
    assert(p1.skip(1) =~= decimal(m1.patch as nat) + t1);
    assert(p2.skip(1) =~= decimal(m2.patch as nat) + t2);
    lemma_tail_text(m1.pre, m1.build);
    lemma_tail_text(m2.pre, m2.build);
    lemma_leading_number(m1.patch as nat, t1, m2.patch as nat, t2);
    lemma_leading_run(
        |c: char| c != '+',
        pre_text(m1.pre),
        build_text(m1.build),
        pre_text(m2.pre),
        build_text(m2.build),
    );
    lemma_signed_part('-', m1.pre, m2.pre);
    lemma_signed_part('+', m1.build, m2.build);
    assert(m1 =~= m2);
}

proof fn lemma_signed_part(sign: char, a: Seq<char>, b: Seq<char>)
    ensures
        a.len() > 0 ==> (seq![sign] + a).len() > 0 && (seq![sign] + a).skip(1) == a,
        b.len() > 0 ==> (seq![sign] + b).len() > 0 && (seq![sign] + b).skip(1) == b,
        a.len() == 0 && b.len() == 0 ==> a == b,
{
    assert((seq![sign] + a).skip(1) =~= a);
    assert((seq![sign] + b).skip(1) =~= b);
    if a.len() == 0 && b.len() == 0 {
        assert(a =~= b);
    }
}

/// Reading back what a version writes gives that version.
pub proof fn version_round_trip(m: VersionModel)
    requires
        m.well_formed(),
    ensures
        version_of(version_text(m)) == Some(m),
{
    let t = version_text(m);
    let n = choose|n: VersionModel| n.well_formed() && #[trigger] version_text(n) == t;
    assert(n.well_formed() && version_text(n) == t);
    version_text_is_unambiguous(n, m);
}

} // verus!
