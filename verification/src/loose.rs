//! Loose reading of versions: what ecosystems write in manifests and lockfiles,
//! brought into the form that a semantic version has.

use vstd::prelude::*;

use crate::semver_api::parse_version;
use crate::text::{
    begins, begins_with_digit, is_whitespace, lemma_trim_end, lemma_trim_end_behind,
    lemma_trimmed_twice, starts_with, trim, trim_end, trimmed, whitespace,
};
use crate::version::{
    build_text, decimal, is_identifier_char, lemma_decimal_digits, model_of, pre_text, release,
    version_of, version_round_trip, version_text, Version, VersionModel,
};

verus! {

/// `s` without a leading `v`, where a digit follows that `v`.
pub open spec fn without_v(s: Seq<char>) -> Seq<char> {
    if begins(s, 'v') && begins_with_digit(s.skip(1)) {
        s.skip(1)
    } else {
        s
    }
}

/// The characters that the operators in front of a version are made of.
pub open spec fn is_operator(c: char) -> bool {
    c == '^' || c == '~' || c == '=' || c == '>' || c == '<'
}

/// `s` without the operators, and the white space, in front of it.
pub open spec fn without_operators(s: Seq<char>) -> Seq<char>
    decreases s.len(),
{
    if s.len() > 0 && (is_operator(s[0]) || is_whitespace(s[0])) {
        without_operators(s.skip(1))
    } else {
        s
    }
}

/// How many characters stand before the first comma of `s`.
pub open spec fn comma_index(s: Seq<char>) -> nat
    decreases s.len(),
{
    if s.len() == 0 || s[0] == ',' {
        0
    } else {
        1 + comma_index(s.skip(1))
    }
}

/// The part of `s` before its first comma.
pub open spec fn first_part(s: Seq<char>) -> Seq<char> {
    s.take(comma_index(s) as int)
}

/// The number of dots in `s`.
pub open spec fn dots(s: Seq<char>) -> nat
    decreases s.len(),
{
    if s.len() == 0 {
        0
    } else {
        dots(s.drop_last()) + if s.last() == '.' {
            1nat
        } else {
            0nat
        }
    }
}

/// `s` with the minor and the patch number that it leaves out set to zero.
pub open spec fn padded(s: Seq<char>) -> Seq<char> {
    if dots(s) == 0 {
        s + seq!['.', '0', '.', '0']
    } else if dots(s) == 1 {
        s + seq!['.', '0']
    } else {
        s
    }
}

/// The lower bound that `s` writes, with three numbers: without operators, the
/// first part of a comma-separated requirement, padded.
pub open spec fn normalized_version(s: Seq<char>) -> Seq<char> {
    padded(trimmed(first_part(without_operators(s))))
}

/// The version, or the lower bound of a requirement, that `s` writes.
pub open spec fn loose_version(s: Seq<char>) -> Option<VersionModel> {
    version_of(normalized_version(without_v(trimmed(s))))
}

/// `s` refers to a package on disk or in the same workspace, not to a version.
pub open spec fn refers_to_local_package(s: Seq<char>) -> bool {
    ||| "file:"@.is_prefix_of(s)
    ||| "workspace:"@.is_prefix_of(s)
}

/// Strips a leading `v` (Go module versions, some Maven tags), so that the
/// remainder can be read as a semantic version.
pub fn strip_v<'a>(version: &'a str) -> (r: &'a str)
    ensures
        r@ == without_v(version@),
{
    let n: usize = version.unicode_len();
    if n > 1 && version.get_char(0) == 'v' {
        let c: char = version.get_char(1);
        if '0' <= c && c <= '9' {
            let rest = version.substring_char(1, n);
            assert(rest@ =~= version@.skip(1));
            return rest;
        }
    }
    version
}

/// Brings a version or a requirement into the form `major.minor.patch`, as far
/// as it can: operators are dropped, the first of several comma-separated
/// comparators is kept, and missing numbers become zero.
pub fn normalize_version(version: &str) -> (r: String)
    ensures
        r@ == normalized_version(version@),
{
    let n: usize = version.unicode_len();
    let mut i: usize = 0;
    assert(version@.skip(0) =~= version@);
    while i < n && (operator(version.get_char(i)) || whitespace(version.get_char(i)))
        invariant
            n == version@.len(),
            i <= n,
            without_operators(version@) == without_operators(version@.skip(i as int)),
        decreases n - i,
    {
        assert(version@.skip(i as int).skip(1) =~= version@.skip(i + 1));
        i = i + 1;
    }
    let ghost bare = version@.skip(i as int);
    let mut j: usize = i;
    while j < n && version.get_char(j) != ','
        invariant
            n == version@.len(),
            i <= j <= n,
            bare == version@.skip(i as int),
            comma_index(bare) == (j - i) + comma_index(version@.skip(j as int)),
        decreases n - j,
    {
        assert(version@.skip(j as int).skip(1) =~= version@.skip(j + 1));
        j = j + 1;
    }
    let part = version.substring_char(i, j);
    assert(part@ =~= first_part(bare));
    let core = trim(part);
    let count: usize = count_dots(core);
    let mut out: String = core.to_string();
    if count == 0 {
        proof {
            reveal_strlit(".0.0");
            assert(".0.0"@ =~= seq!['.', '0', '.', '0']);
        }
        out.append(".0.0");
    } else if count == 1 {
        proof {
            reveal_strlit(".0");
            assert(".0"@ =~= seq!['.', '0']);
        }
        out.append(".0");
    }
    out
}

fn operator(c: char) -> (r: bool)
    ensures
        r == is_operator(c),
{
    c == '^' || c == '~' || c == '=' || c == '>' || c == '<'
}

fn count_dots(s: &str) -> (r: usize)
    ensures
        r == dots(s@),
{
    let n: usize = s.unicode_len();
    let mut i: usize = 0;
    let mut count: usize = 0;
    while i < n
        invariant
            n == s@.len(),
            i <= n,
            count <= i,
            count == dots(s@.take(i as int)),
        decreases n - i,
    {
        assert(s@.take(i + 1).drop_last() =~= s@.take(i as int));
        if s.get_char(i) == '.' {
            count = count + 1;
        }
        i = i + 1;
    }
    assert(s@.take(n as int) =~= s@);
    count
}

/// Whether `version` refers to a local package, which no registry versions.
pub fn is_local_dependency(version: &str) -> (r: bool)
    ensures
        r == refers_to_local_package(version@),
{
    starts_with(version, "file:") || starts_with(version, "workspace:")
}

/// Best-effort reading of a version or of the lower bound of a requirement.
///
/// Returns `None` for what does not read as a semantic version.
pub fn parse_loose(version: &str) -> (r: Option<Version>)
    ensures
        model_of(r) == loose_version(version@),
        r matches Some(v) ==> v@.well_formed(),
{
    let normalized = normalize_version(strip_v(trim(version)));
    parse_version(normalized.as_str())
}

/// Every character of `s` belongs to a version that is written in full.
spec fn version_chars_only(s: Seq<char>) -> bool {
    forall|i: int|
        0 <= i < s.len() ==> is_identifier_char(#[trigger] s[i]) || s[i] == '.' || s[i] == '+'
}

/// Every character of `s` is one of the operator characters.
pub open spec fn operators_only(s: Seq<char>) -> bool {
    forall|i: int| 0 <= i < s.len() ==> is_operator(#[trigger] s[i])
}

proof fn lemma_chars_concat(a: Seq<char>, b: Seq<char>)
    requires
        version_chars_only(a),
        version_chars_only(b),
    ensures
        version_chars_only(a + b),
{
    assert forall|i: int| 0 <= i < (a + b).len() implies is_identifier_char(#[trigger] (a + b)[i])
        || (a + b)[i] == '.' || (a + b)[i] == '+' by {
        if i < a.len() {
            assert((a + b)[i] == a[i]);
        } else {
            assert((a + b)[i] == b[i - a.len()]);
        }
    }
}

proof fn lemma_dots_concat(a: Seq<char>, b: Seq<char>)
    ensures
        dots(a + b) == dots(a) + dots(b),
    decreases b.len(),
{
    if b.len() == 0 {
        assert(a + b =~= a);
    } else {
        assert((a + b).drop_last() =~= a + b.drop_last());
        lemma_dots_concat(a, b.drop_last());
    }
}

proof fn lemma_no_dots(s: Seq<char>)
    requires
        forall|i: int| 0 <= i < s.len() ==> #[trigger] s[i] != '.',
    ensures
        dots(s) == 0,
    decreases s.len(),
{
    if s.len() > 0 {
        assert forall|i: int| 0 <= i < s.drop_last().len() implies #[trigger] s.drop_last()[i]
            != '.' by {
            assert(s.drop_last()[i] == s[i]);
        }
        lemma_no_dots(s.drop_last());
    }
}

proof fn lemma_no_comma(s: Seq<char>)
    requires
        forall|i: int| 0 <= i < s.len() ==> #[trigger] s[i] != ',',
    ensures
        comma_index(s) == s.len(),
    decreases s.len(),
{
    if s.len() > 0 {
        assert forall|i: int| 0 <= i < s.skip(1).len() implies #[trigger] s.skip(1)[i] != ',' by {
            assert(s.skip(1)[i] == s[i + 1]);
        }
        lemma_no_comma(s.skip(1));
    }
}

proof fn lemma_operators_dropped(prefix: Seq<char>, core: Seq<char>)
    requires
        operators_only(prefix),
        begins_with_digit(core),
    ensures
        without_operators(prefix + core) == core,
    decreases prefix.len(),
{
    if prefix.len() == 0 {
        assert(prefix + core =~= core);
    } else {
        assert((prefix + core)[0] == prefix[0]);
        assert((prefix + core).skip(1) =~= prefix.skip(1) + core);
        assert(operators_only(prefix.skip(1))) by {
            assert forall|i: int| 0 <= i < prefix.skip(1).len() implies is_operator(
                #[trigger] prefix.skip(1)[i],
            ) by {
                assert(prefix.skip(1)[i] == prefix[i + 1]);
            }
        }
        lemma_operators_dropped(prefix.skip(1), core);
    }
}

/// A number, dots and identifiers behind operators read as that text, padded.
proof fn lemma_loose_core(prefix: Seq<char>, core: Seq<char>)
    requires
        operators_only(prefix),
        begins_with_digit(core),
        version_chars_only(core),
    ensures
        trimmed(prefix + core) == prefix + core,
        loose_version(prefix + core) == version_of(padded(core)),
{
    let s = prefix + core;
    assert(s.last() == core.last());
    assert(core.last() == core[core.len() - 1]);
    if prefix.len() > 0 {
        assert(s[0] == prefix[0]);
    } else {
        assert(s[0] == core[0]);
    }
    assert(trimmed(s) == s);
    lemma_operators_dropped(prefix, core);
    lemma_no_comma(core);
    assert(first_part(core) =~= core);
    assert(trimmed(core) == core);
}

proof fn lemma_number_chars(n: nat)
    ensures
        decimal(n).len() > 0,
        begins_with_digit(decimal(n)),
        version_chars_only(decimal(n)),
        dots(decimal(n)) == 0,
{
    lemma_decimal_digits(n);
    lemma_no_dots(decimal(n));
}

proof fn lemma_point()
    ensures
        version_chars_only(seq!['.']),
        dots(seq!['.']) == 1,
{
    assert(seq!['.'].drop_last() =~= Seq::<char>::empty());
    assert(dots(Seq::<char>::empty()) == 0);
}

proof fn lemma_version_text_shape(m: VersionModel)
    requires
        m.well_formed(),
    ensures
        begins_with_digit(version_text(m)),
        version_chars_only(version_text(m)),
        dots(version_text(m)) >= 2,
{
    lemma_number_chars(m.major as nat);
    lemma_number_chars(m.minor as nat);
    lemma_number_chars(m.patch as nat);
    lemma_point();
    let tail = pre_text(m.pre) + build_text(m.build);
    assert(version_chars_only(pre_text(m.pre))) by {
        if m.pre.len() > 0 {
            lemma_chars_concat(seq!['-'], m.pre);
        }
    }
    assert(version_chars_only(build_text(m.build))) by {
        if m.build.len() > 0 {
            lemma_chars_concat(seq!['+'], m.build);
        }
    }
    lemma_chars_concat(pre_text(m.pre), build_text(m.build));
    let a = decimal(m.patch as nat) + tail;
    lemma_chars_concat(decimal(m.patch as nat), tail);
    lemma_chars_concat(seq!['.'], a);
    lemma_dots_concat(seq!['.'], a);
    let b = seq!['.'] + a;
    lemma_chars_concat(decimal(m.minor as nat), b);
    lemma_dots_concat(decimal(m.minor as nat), b);
    let c = decimal(m.minor as nat) + b;
    lemma_chars_concat(seq!['.'], c);
    lemma_dots_concat(seq!['.'], c);
    let d = seq!['.'] + c;
    lemma_chars_concat(decimal(m.major as nat), d);
    lemma_dots_concat(decimal(m.major as nat), d);
    assert(version_text(m)[0] == decimal(m.major as nat)[0]);
}

/// A version that is written in full starts with a digit.
pub proof fn lemma_version_text_starts(m: VersionModel)
    requires
        m.well_formed(),
    ensures
        begins_with_digit(version_text(m)),
{
    lemma_version_text_shape(m);
}

/// A version that is written in full holds neither white space nor a comma.
pub proof fn lemma_version_text_plain(m: VersionModel)
    requires
        m.well_formed(),
    ensures
        forall|i: int|
            0 <= i < version_text(m).len() ==> #[trigger] version_text(m)[i] != ','
                && !is_whitespace(version_text(m)[i]),
{
    lemma_version_text_shape(m);
}

/// A version that is written in full has at least two dots.
pub proof fn lemma_version_text_dots(m: VersionModel)
    requires
        m.well_formed(),
    ensures
        exists|j: int, k: int|
            0 <= j < k < version_text(m).len() && #[trigger] version_text(m)[j] == '.'
                && #[trigger] version_text(m)[k] == '.',
{
    let s = version_text(m);
    let j = decimal(m.major as nat).len() as int;
    let k = j + 1 + decimal(m.minor as nat).len();
    assert(s[j] == '.');
    assert(s[k] == '.');
}

/// A version that is written in full, behind any operators, is read as that
/// version.
pub proof fn full_version_is_read(operators: Seq<char>, m: VersionModel)
    requires
        operators_only(operators),
        m.well_formed(),
    ensures
        trimmed(operators + version_text(m)) == operators + version_text(m),
        loose_version(operators + version_text(m)) == Some(m),
{
    lemma_version_text_shape(m);
    lemma_loose_core(operators, version_text(m));
    version_round_trip(m);
}

/// Of comma-separated comparators the first one is read.
pub proof fn first_comparator_is_read(operators: Seq<char>, m: VersionModel, rest: Seq<char>)
    requires
        operators_only(operators),
        m.well_formed(),
    ensures
        loose_version(operators + (version_text(m) + (seq![','] + rest))) == Some(m),
{
    let core = version_text(m);
    let more = seq![','] + rest;
    let s = operators + (core + more);
    let kept = trim_end(more);
    lemma_version_text_shape(m);
    lemma_trim_end(more);
    lemma_trim_end_behind(core, more);
    assert(core + kept =~= trim_end(core + more));
    assert((core + more)[0] == core[0]);
    lemma_trim_end_behind(operators, core + more);
    if operators.len() > 0 {
        assert(s[0] == operators[0]);
    } else {
        assert(s[0] == core[0]);
    }
    assert(trimmed(s) == operators + (core + kept));
    assert((operators + (core + kept))[0] == s[0]);
    assert(begins_with_digit(core + kept)) by {
        assert((core + kept)[0] == core[0]);
    }
    lemma_operators_dropped(operators, core + kept);
    lemma_comma_ends(core, kept);
    assert(first_part(core + kept) =~= core);
    lemma_loose_core(Seq::empty(), core);
    assert(Seq::<char>::empty() + core =~= core);
    version_round_trip(m);
}

proof fn lemma_comma_ends(a: Seq<char>, b: Seq<char>)
    requires
        forall|i: int| 0 <= i < a.len() ==> #[trigger] a[i] != ',',
        begins(b, ','),
    ensures
        comma_index(a + b) == a.len(),
    decreases a.len(),
{
    if a.len() == 0 {
        assert(a + b =~= b);
    } else {
        assert((a + b)[0] == a[0]);
        assert((a + b).skip(1) =~= a.skip(1) + b);
        assert forall|i: int| 0 <= i < a.skip(1).len() implies #[trigger] a.skip(1)[i] != ',' by {
            assert(a.skip(1)[i] == a[i + 1]);
        }
        lemma_comma_ends(a.skip(1), b);
    }
}

/// A version without patch number, behind any operators, is read with patch
/// number zero.
pub proof fn missing_patch_is_zero(operators: Seq<char>, major: u64, minor: u64)
    requires
        operators_only(operators),
    ensures
        loose_version(operators + (decimal(major as nat) + (seq!['.'] + decimal(minor as nat))))
            == Some(release(major, minor, 0)),
{
    let m = release(major, minor, 0);
    let tail = seq!['.'] + decimal(minor as nat);
    let core = decimal(major as nat) + tail;
    lemma_number_chars(major as nat);
    lemma_number_chars(minor as nat);
    lemma_point();
    lemma_chars_concat(seq!['.'], decimal(minor as nat));
    lemma_dots_concat(seq!['.'], decimal(minor as nat));
    lemma_chars_concat(decimal(major as nat), tail);
    lemma_dots_concat(decimal(major as nat), tail);
    assert(core[0] == decimal(major as nat)[0]);
    lemma_loose_core(operators, core);
    assert(decimal(0) =~= seq!['0']);
    assert(padded(core) =~= version_text(m));
    version_round_trip(m);
}

/// A version of a single number, behind any operators, is read with minor and
/// patch number zero.
pub proof fn missing_minor_and_patch_are_zero(operators: Seq<char>, major: u64)
    requires
        operators_only(operators),
    ensures
        loose_version(operators + decimal(major as nat)) == Some(release(major, 0, 0)),
{
    let m = release(major, 0, 0);
    lemma_number_chars(major as nat);
    lemma_loose_core(operators, decimal(major as nat));
    assert(decimal(0) =~= seq!['0']);
    assert(padded(decimal(major as nat)) =~= version_text(m));
    version_round_trip(m);
}

/// White space around a version makes no difference.
pub proof fn surrounding_whitespace_is_ignored(s: Seq<char>)
    ensures
        loose_version(trimmed(s)) == loose_version(s),
{
    lemma_trimmed_twice(s);
}

/// A `v` in front of a version makes no difference.
pub proof fn leading_v_is_ignored(s: Seq<char>)
    requires
        begins_with_digit(s),
    ensures
        loose_version(seq!['v'] + s) == loose_version(s),
{
    let t = seq!['v'] + s;
    lemma_trim_end_behind(seq!['v'], s);
    lemma_trim_end(s);
    assert(trimmed(t) == seq!['v'] + trim_end(s));
    assert((seq!['v'] + trim_end(s)).skip(1) =~= trim_end(s));
}

} // verus!
