//! Laws on reading texts.

use vstd::prelude::*;

use crate::laws::{
    blank, framed, is_frame, numeral, operator, solid, undotted, v_and_digit, white,
};
use crate::loose::{
    comma_index, dots, first_part, is_local_dependency, loose_version, normalize_version,
    normalized_version, parse_loose, refers_to_local_package, strip_v, without_operators, without_v,
};
use crate::semver_api::{parse_requirement, parse_version, requirement_reads, Requirement};
use crate::text::{
    first_is, is_whitespace, same_text, starts_with, trim, trim_end, trim_start, trimmed,
    whitespace,
};
use crate::version::{version_of, version_round_trip, version_text, Version, VersionModel};

verus! {

/// The white space recognized is that of Unicode.
pub proof fn whitespace_is_that_of_unicode(c: char, r: bool)
    requires
        call_ensures(whitespace, (c,), r),
    ensures
        r == white(c),
        is_whitespace(c) == white(c),
{
    lemma_white(c);
}

/// White space told by character is white space told by code point.
pub proof fn lemma_white(c: char)
    ensures
        is_whitespace(c) == white(c),
{
}

proof fn lemma_trim_start_blank(a: Seq<char>, x: Seq<char>)
    requires
        blank(a),
        x.len() > 0 ==> !white(x[0]),
    ensures
        trim_start(a + x) == x,
    decreases a.len(),
{
    if a.len() == 0 {
        assert(a + x =~= x);
        if x.len() > 0 {
            lemma_white(x[0]);
        }
    } else {
        assert((a + x)[0] == a[0]);
        lemma_white(a[0]);
        assert((a + x).skip(1) =~= a.skip(1) + x);
        assert(blank(a.skip(1)));
        lemma_trim_start_blank(a.skip(1), x);
    }
}

proof fn lemma_trim_end_blank(t: Seq<char>, b: Seq<char>)
    requires
        blank(b),
        t.len() > 0 ==> !white(t[t.len() - 1]),
    ensures
        trim_end(t + b) == t,
    decreases b.len(),
{
    if b.len() == 0 {
        assert(t + b =~= t);
        if t.len() > 0 {
            lemma_white(t.last());
        }
    } else {
        assert((t + b).last() == b[b.len() - 1]);
        lemma_white(b[b.len() - 1]);
        assert((t + b).drop_last() =~= t + b.drop_last());
        assert(blank(b.drop_last()));
        lemma_trim_end_blank(t, b.drop_last());
    }
}

/// Trimming undoes padding with white space.
pub proof fn trimming_undoes_padding(a: Seq<char>, t: Seq<char>, b: Seq<char>)
    requires
        blank(a),
        blank(b),
        t.len() == 0 || solid(t),
    ensures
        trimmed(a + t + b) == t,
{
    if t.len() == 0 {
        let e = Seq::<char>::empty();
        assert(t =~= e);
        assert(blank(a + b)) by {
            assert forall|i: int| 0 <= i < (a + b).len() implies white(#[trigger] (a + b)[i]) by {
                if i < a.len() {
                    assert((a + b)[i] == a[i]);
                } else {
                    assert((a + b)[i] == b[i - a.len()]);
                }
            }
        }
        assert(a + t + b =~= (a + b) + e);
        lemma_trim_start_blank(a + b, e);
    } else {
        assert(a + t + b =~= a + (t + b));
        assert((t + b)[0] == t[0]);
        lemma_trim_start_blank(a, t + b);
        lemma_trim_end_blank(t, b);
    }
}

proof fn lemma_leading_blank(s: Seq<char>) -> (a: Seq<char>)
    ensures
        blank(a),
        s == a + trim_start(s),
        trim_start(s).len() > 0 ==> !white(trim_start(s)[0]),
    decreases s.len(),
{
    if s.len() > 0 && is_whitespace(s[0]) {
        let rest = lemma_leading_blank(s.skip(1));
        lemma_white(s[0]);
        let a = seq![s[0]] + rest;
        assert(s =~= seq![s[0]] + s.skip(1));
        assert(s =~= a + trim_start(s));
        assert forall|i: int| 0 <= i < a.len() implies white(#[trigger] a[i]) by {
            if i > 0 {
                assert(a[i] == rest[i - 1]);
            }
        }
        a
    } else {
        if s.len() > 0 {
            lemma_white(s[0]);
        }
        assert(s =~= Seq::<char>::empty() + s);
        Seq::empty()
    }
}

proof fn lemma_trailing_blank(s: Seq<char>) -> (b: Seq<char>)
    ensures
        blank(b),
        s == trim_end(s) + b,
        trim_end(s).len() > 0 ==> !white(trim_end(s).last()) && trim_end(s)[0] == s[0],
    decreases s.len(),
{
    if s.len() > 0 && is_whitespace(s.last()) {
        let rest = lemma_trailing_blank(s.drop_last());
        lemma_white(s.last());
        let b = rest.push(s.last());
        assert(s =~= s.drop_last().push(s.last()));
        assert(s =~= trim_end(s) + b);
        assert forall|i: int| 0 <= i < b.len() implies white(#[trigger] b[i]) by {
            if i < rest.len() {
                assert(b[i] == rest[i]);
            }
        }
        b
    } else {
        if s.len() > 0 {
            lemma_white(s.last());
        }
        assert(s =~= s + Seq::<char>::empty());
        Seq::empty()
    }
}

/// Trimming takes off white space at the two ends, all of it and nothing else.
pub proof fn trimming_takes_white_space_off_the_ends(s: &str, r: &str)
    requires
        call_ensures(trim, (s,), r),
    ensures
        exists|a: Seq<char>, b: Seq<char>|
            #![trigger blank(a), blank(b)]
            blank(a) && blank(b) && s@ == a + r@ + b,
        r@.len() == 0 || solid(r@),
{
    let a = lemma_leading_blank(s@);
    let b = lemma_trailing_blank(trim_start(s@));
    assert(s@ =~= a + r@ + b);
    assert(blank(a) && blank(b));
}

/// A text starts with a prefix exactly if it is the prefix and something more.
pub proof fn starting_with_a_prefix(s: &str, prefix: &str, c: char, r: bool, first: bool)
    requires
        call_ensures(starts_with, (s, prefix), r),
        call_ensures(first_is, (s, c), first),
    ensures
        r <==> exists|rest: Seq<char>| s@ == #[trigger] (prefix@ + rest),
        first <==> exists|rest: Seq<char>| s@ == #[trigger] (seq![c] + rest),
{
    if r {
        assert(s@ =~= prefix@ + s@.skip(prefix@.len() as int));
    }
    if exists|rest: Seq<char>| s@ == #[trigger] (prefix@ + rest) {
        let rest = choose|rest: Seq<char>| s@ == #[trigger] (prefix@ + rest);
        assert(s@.subrange(0, prefix@.len() as int) =~= prefix@);
    }
    if first {
        assert(s@ =~= seq![c] + s@.skip(1));
    }
}

/// Two texts are the same exactly if their characters are.
pub proof fn sameness_is_equality(a: &str, b: &str, r: bool)
    requires
        call_ensures(same_text, (a, b), r),
    ensures
        r <==> a@.len() == b@.len() && forall|i: int|
            0 <= i < a@.len() ==> #[trigger] a@[i] == b@[i],
{
    if a@.len() == b@.len() && (forall|i: int| 0 <= i < a@.len() ==> #[trigger] a@[i] == b@[i]) {
        assert(a@ =~= b@);
    }
}

/// A `v` is taken off where a digit follows it, and nothing else ever is.
pub proof fn only_a_v_before_a_digit_goes(s: &str, r: &str)
    requires
        call_ensures(strip_v, (s,), r),
    ensures
        v_and_digit(s@) ==> s@ == seq!['v'] + r@,
        !v_and_digit(s@) ==> r@ == s@,
{
    if v_and_digit(s@) {
        assert(s@.skip(1)[0] == s@[1]);
        assert(s@ =~= seq!['v'] + s@.skip(1));
    } else if s@.len() > 1 {
        assert(s@.skip(1)[0] == s@[1]);
    }
}

proof fn lemma_without_v(core: Seq<char>, marked: bool)
    requires
        marked ==> core.len() > 0 && numeral(core[0]),
        !marked ==> !v_and_digit(core),
    ensures
        without_v(
            if marked {
                seq!['v'] + core
            } else {
                core
            },
        ) == core,
{
    if marked {
        let s = seq!['v'] + core;
        assert(s.skip(1) =~= core);
    } else if core.len() > 1 {
        assert(core.skip(1)[0] == core[1]);
    }
}

/// Taking off white space and the mark leaves the core.
pub proof fn lemma_frame_comes_off(
    before: Seq<char>,
    marked: bool,
    core: Seq<char>,
    after: Seq<char>,
)
    requires
        is_frame(before, marked, core, after),
    ensures
        without_v(trimmed(framed(before, marked, core, after))) == core,
{
    lemma_without_v(core, marked);
    if marked {
        let t = seq!['v'] + core;
        assert(t[t.len() - 1] == core[core.len() - 1]);
        trimming_undoes_padding(before, t, after);
    } else {
        trimming_undoes_padding(before, core, after);
    }
}

/// Every text has a frame and a core.
pub proof fn every_text_has_a_core(s: Seq<char>) -> (r: (Seq<char>, bool, Seq<char>, Seq<char>))
    ensures
        is_frame(r.0, r.1, r.2, r.3),
        s == framed(r.0, r.1, r.2, r.3),
{
    let a = lemma_leading_blank(s);
    let b = lemma_trailing_blank(trim_start(s));
    let t = trimmed(s);
    assert(s =~= a + t + b);
    if v_and_digit(t) {
        let core = t.skip(1);
        assert(core[0] == t[1]);
        assert(core[core.len() - 1] == t.last());
        assert(t =~= seq!['v'] + core);
        (a, true, core, b)
    } else {
        (a, false, t, b)
    }
}

/// No text has two cores.
pub proof fn no_text_has_two_cores(
    before1: Seq<char>,
    marked1: bool,
    core1: Seq<char>,
    after1: Seq<char>,
    before2: Seq<char>,
    marked2: bool,
    core2: Seq<char>,
    after2: Seq<char>,
)
    requires
        is_frame(before1, marked1, core1, after1),
        is_frame(before2, marked2, core2, after2),
        framed(before1, marked1, core1, after1) == framed(before2, marked2, core2, after2),
    ensures
        core1 == core2,
{
    lemma_frame_comes_off(before1, marked1, core1, after1);
    lemma_frame_comes_off(before2, marked2, core2, after2);
}

/// Operators and white space, in any order.
pub open spec fn lead(s: Seq<char>) -> bool {
    forall|i: int| 0 <= i < s.len() ==> operator(#[trigger] s[i]) || white(s[i])
}

proof fn lemma_lead_dropped(ops: Seq<char>, x: Seq<char>)
    requires
        lead(ops),
        x.len() > 0 ==> !operator(x[0]) && !white(x[0]),
    ensures
        without_operators(ops + x) == x,
    decreases ops.len(),
{
    if ops.len() == 0 {
        assert(ops + x =~= x);
        if x.len() > 0 {
            lemma_white(x[0]);
        }
    } else {
        assert((ops + x)[0] == ops[0]);
        lemma_white(ops[0]);
        assert((ops + x).skip(1) =~= ops.skip(1) + x);
        assert(lead(ops.skip(1)));
        lemma_lead_dropped(ops.skip(1), x);
    }
}

proof fn lemma_cut_at_comma(a: Seq<char>, rest: Seq<char>)
    requires
        forall|i: int| 0 <= i < a.len() ==> #[trigger] a[i] != ',',
        rest.len() > 0 ==> rest[0] == ',',
    ensures
        first_part(a + rest) == a,
{
    lemma_comma_position(a, rest);
    assert(first_part(a + rest) =~= a);
}

proof fn lemma_comma_position(a: Seq<char>, rest: Seq<char>)
    requires
        forall|i: int| 0 <= i < a.len() ==> #[trigger] a[i] != ',',
        rest.len() > 0 ==> rest[0] == ',',
    ensures
        comma_index(a + rest) == a.len(),
    decreases a.len(),
{
    if a.len() == 0 {
        assert(a + rest =~= rest);
    } else {
        assert((a + rest)[0] == a[0]);
        assert((a + rest).skip(1) =~= a.skip(1) + rest);
        lemma_comma_position(a.skip(1), rest);
    }
}

proof fn lemma_dots_split(a: Seq<char>, b: Seq<char>)
    ensures
        dots(a + b) == dots(a) + dots(b),
    decreases b.len(),
{
    if b.len() == 0 {
        assert(a + b =~= a);
    } else {
        assert((a + b).drop_last() =~= a + b.drop_last());
        lemma_dots_split(a, b.drop_last());
    }
}

proof fn lemma_undotted(s: Seq<char>)
    requires
        undotted(s),
    ensures
        dots(s) == 0,
    decreases s.len(),
{
    if s.len() > 0 {
        assert(undotted(s.drop_last()));
        lemma_undotted(s.drop_last());
    }
}

proof fn lemma_dot_at(s: Seq<char>, k: int)
    requires
        0 <= k < s.len(),
        s[k] == '.',
    ensures
        dots(s) == dots(s.take(k)) + 1 + dots(s.skip(k + 1)),
{
    let d = seq!['.'];
    assert(d.drop_last() =~= Seq::<char>::empty());
    assert(dots(d.drop_last()) == 0);
    assert(dots(d) == 1);
    assert(s =~= s.take(k) + (d + s.skip(k + 1)));
    lemma_dots_split(s.take(k), d + s.skip(k + 1));
    lemma_dots_split(d, s.skip(k + 1));
}

/// `core` with the numbers that it leaves out: two where it has no dot, one where
/// it has one dot, none otherwise.
pub open spec fn completes(core: Seq<char>, full: Seq<char>) -> bool {
    &&& undotted(core) ==> full == core + seq!['.', '0', '.', '0']
    &&& forall|k: int|
        0 <= k < core.len() && #[trigger] core[k] == '.' && undotted(core.take(k)) && undotted(
            core.skip(k + 1),
        ) ==> full == core + seq!['.', '0']
    &&& forall|j: int, k: int|
        0 <= j < k < core.len() && #[trigger] core[j] == '.' && #[trigger] core[k] == '.' ==> full
            == core
}

/// Where a text is operators, a core, white space and, from a comma on, anything,
/// its normal form is the core, completed to three numbers.
pub proof fn the_core_is_kept(
    ops: Seq<char>,
    core: Seq<char>,
    gap: Seq<char>,
    rest: Seq<char>,
)
    requires
        lead(ops),
        solid(core),
        !operator(core[0]),
        forall|i: int| 0 <= i < core.len() ==> #[trigger] core[i] != ',',
        blank(gap),
        rest.len() > 0 ==> rest[0] == ',',
    ensures
        completes(core, normalized_version(ops + (core + gap + rest))),
{
    let part = core + gap;
    assert((part + rest)[0] == core[0]);
    lemma_lead_dropped(ops, part + rest);
    assert forall|i: int| 0 <= i < part.len() implies #[trigger] part[i] != ',' by {
        if i < core.len() {
            assert(part[i] == core[i]);
        } else {
            assert(part[i] == gap[i - core.len()]);
        }
    }
    lemma_cut_at_comma(part, rest);
    assert(part =~= Seq::<char>::empty() + core + gap);
    trimming_undoes_padding(Seq::empty(), core, gap);
    let full = normalized_version(ops + (core + gap + rest));
    if undotted(core) {
        lemma_undotted(core);
    }
    assert forall|k: int|
        0 <= k < core.len() && #[trigger] core[k] == '.' && undotted(core.take(k)) && undotted(
            core.skip(k + 1),
        ) implies full == core + seq!['.', '0'] by {
        lemma_undotted(core.take(k));
        lemma_undotted(core.skip(k + 1));
        lemma_dot_at(core, k);
    }
    assert forall|j: int, k: int|
        0 <= j < k < core.len() && #[trigger] core[j] == '.' && #[trigger] core[k]
            == '.' implies full == core by {
        lemma_dot_at(core, k);
        lemma_dot_at(core.take(k), j);
    }
}

/// A text of operators alone, or with nothing but operators before its first
/// comma, has no core.
pub proof fn nothing_but_operators(ops: Seq<char>, rest: Seq<char>)
    requires
        lead(ops),
        rest.len() > 0 ==> rest[0] == ',',
    ensures
        normalized_version(ops + rest) == seq!['.', '0', '.', '0'],
{
    let e = Seq::<char>::empty();
    lemma_lead_dropped(ops, rest);
    assert(e + rest =~= rest);
    lemma_cut_at_comma(e, rest);
    assert(e + e + e =~= e);
    trimming_undoes_padding(e, e, e);
    lemma_undotted(e);
    assert(e + seq!['.', '0', '.', '0'] =~= seq!['.', '0', '.', '0']);
}

proof fn lemma_lead_found(s: Seq<char>) -> (ops: Seq<char>)
    ensures
        lead(ops),
        s == ops + without_operators(s),
        without_operators(s).len() > 0 ==> !operator(without_operators(s)[0]) && !white(
            without_operators(s)[0],
        ),
    decreases s.len(),
{
    if s.len() > 0 {
        lemma_white(s[0]);
    }
    if s.len() > 0 && (operator(s[0]) || white(s[0])) {
        let rest = lemma_lead_found(s.skip(1));
        let ops = seq![s[0]] + rest;
        assert(s =~= seq![s[0]] + s.skip(1));
        assert(s =~= ops + without_operators(s));
        assert forall|i: int| 0 <= i < ops.len() implies operator(#[trigger] ops[i]) || white(
            ops[i],
        ) by {
            if i > 0 {
                assert(ops[i] == rest[i - 1]);
            }
        }
        ops
    } else {
        assert(s =~= Seq::<char>::empty() + s);
        Seq::empty()
    }
}

proof fn lemma_comma_found(s: Seq<char>)
    ensures
        comma_index(s) <= s.len(),
        comma_index(s) < s.len() ==> s[comma_index(s) as int] == ',',
        forall|i: int| 0 <= i < comma_index(s) ==> #[trigger] s[i] != ',',
    decreases s.len(),
{
    if s.len() > 0 && s[0] != ',' {
        let t = s.skip(1);
        lemma_comma_found(t);
        assert forall|i: int| 0 <= i < comma_index(s) implies #[trigger] s[i] != ',' by {
            if i > 0 {
                assert(s[i] == t[i - 1]);
            }
        }
    }
}

/// One of the two laws above speaks of every text: it is operators, then a core
/// with white space behind it or nothing, then, from a comma on, anything.
pub proof fn every_text_is_one_of_the_two(s: Seq<char>) -> (r: (
    Seq<char>,
    Seq<char>,
    Seq<char>,
    Seq<char>,
))
    ensures
        s == r.0 + (r.1 + r.2 + r.3),
        lead(r.0),
        r.1.len() == 0 || (solid(r.1) && !operator(r.1[0]) && forall|i: int|
            0 <= i < r.1.len() ==> #[trigger] r.1[i] != ','),
        blank(r.2),
        r.1.len() == 0 ==> r.2.len() == 0,
        r.3.len() > 0 ==> r.3[0] == ',',
{
    let ops = lemma_lead_found(s);
    let x = without_operators(s);
    lemma_comma_found(x);
    let k = comma_index(x) as int;
    let part = x.take(k);
    let rest = x.skip(k);
    let gap = lemma_trailing_blank(part);
    let core = trim_end(part);
    assert(x =~= part + rest);
    assert(s =~= ops + (core + gap + rest));
    if core.len() > 0 {
        assert(core[0] == x[0]);
        assert forall|i: int| 0 <= i < core.len() implies #[trigger] core[i] != ',' by {
            assert(core[i] == part[i]);
            assert(part[i] == x[i]);
        }
    } else if gap.len() > 0 {
        assert(part[0] == gap[0]);
        assert(part[0] == x[0]);
    }
    (ops, core, gap, rest)
}

/// The normal form computed is the one that the two laws above describe.
pub proof fn normalizing_computes_the_normal_form(version: &str, r: String)
    requires
        call_ensures(normalize_version, (version,), r),
    ensures
        r@ == normalized_version(version@),
{
}

/// A text writes a version exactly if it is how that version is written.
pub proof fn writing_decides_reading(text: Seq<char>, m: VersionModel)
    ensures
        version_of(text) == Some(m) <==> m.well_formed() && version_text(m) == text,
{
    if m.well_formed() && version_text(m) == text {
        version_round_trip(m);
    }
}

/// Reading a full version gives what is written so, and nothing where nothing is.
pub proof fn full_reading_is_exact(text: &str, r: Option<Version>)
    requires
        call_ensures(parse_version, (text,), r),
    ensures
        r matches Some(v) ==> v@.well_formed() && version_text(v@) == text@,
        r is None ==> forall|m: VersionModel|
            m.well_formed() ==> #[trigger] version_text(m) != text@,
{
    if r is None {
        assert forall|m: VersionModel| m.well_formed() implies #[trigger] version_text(m)
            != text@ by {
            writing_decides_reading(text@, m);
        }
    }
}

/// Reading a requirement keeps its text whole.
pub proof fn requirements_are_kept_whole(text: &str, r: Option<Requirement>)
    requires
        call_ensures(parse_requirement, (text,), r),
    ensures
        r is Some <==> requirement_reads(text@),
        r matches Some(q) ==> q.text@ == text@,
{
}

/// A text reads loosely as what its core, in normal form, writes.
pub proof fn the_core_decides_the_reading(
    before: Seq<char>,
    marked: bool,
    core: Seq<char>,
    after: Seq<char>,
    m: VersionModel,
)
    requires
        is_frame(before, marked, core, after),
    ensures
        loose_version(framed(before, marked, core, after)) == Some(m) <==> m.well_formed()
            && version_text(m) == normalized_version(core),
{
    lemma_frame_comes_off(before, marked, core, after);
    writing_decides_reading(normalized_version(core), m);
}

/// Loose reading gives the version that the normal form of the core writes, and
/// nothing where it writes none.
pub proof fn loose_reading_goes_through_the_normal_form(
    version: &str,
    before: Seq<char>,
    marked: bool,
    core: &str,
    after: Seq<char>,
    normal: String,
    r: Option<Version>,
)
    requires
        is_frame(before, marked, core@, after),
        version@ == framed(before, marked, core@, after),
        call_ensures(normalize_version, (core,), normal),
        call_ensures(parse_loose, (version,), r),
    ensures
        r matches Some(v) ==> v@.well_formed() && version_text(v@) == normal@,
        r is None ==> forall|m: VersionModel|
            m.well_formed() ==> #[trigger] version_text(m) != normal@,
{
    lemma_frame_comes_off(before, marked, core@, after);
    if let Some(v) = r {
        writing_decides_reading(normal@, v@);
    } else {
        assert forall|m: VersionModel| m.well_formed() implies #[trigger] version_text(m)
            != normal@ by {
            writing_decides_reading(normal@, m);
        }
    }
}

/// Loose reading is the reading that decisions rest on.
pub proof fn decisions_rest_on_loose_reading(version: &str, r: Option<Version>)
    requires
        call_ensures(parse_loose, (version,), r),
    ensures
        r is Some <==> loose_version(version@) is Some,
        r matches Some(v) ==> loose_version(version@) == Some(v@),
{
}

/// What refers to a local package starts with `file:` or with `workspace:`.
pub proof fn local_packages_have_two_prefixes(version: &str, r: bool)
    requires
        call_ensures(is_local_dependency, (version,), r),
    ensures
        r <==> starts_local(version@),
{
    lemma_local(version@);
}

/// `s` starts with `file:` or with `workspace:`.
pub open spec fn starts_local(s: Seq<char>) -> bool {
    ||| s.len() >= 5 && s.take(5) == seq!['f', 'i', 'l', 'e', ':']
    ||| s.len() >= 10 && s.take(10) == seq!['w', 'o', 'r', 'k', 's', 'p', 'a', 'c', 'e', ':']
}

/// The two prefixes, character by character.
pub proof fn lemma_local(s: Seq<char>)
    ensures
        refers_to_local_package(s) <==> starts_local(s),
{
    reveal_strlit("file:");
    reveal_strlit("workspace:");
    assert("file:"@ =~= seq!['f', 'i', 'l', 'e', ':']);
    assert("workspace:"@ =~= seq!['w', 'o', 'r', 'k', 's', 'p', 'a', 'c', 'e', ':']);
    if s.len() >= 5 {
        assert(s.subrange(0, 5) =~= s.take(5));
    }
    if s.len() >= 10 {
        assert(s.subrange(0, 10) =~= s.take(10));
    }
}

} // verus!
