//! The total order of semantic versions.

use vstd::prelude::*;

use crate::text::is_digit;
use crate::version::{value, VersionModel};

verus! {

/// Where one value stands relative to another.
#[derive(Clone, Copy, Debug, PartialEq, Eq, Structural)]
pub enum Precedence {
    Lower,
    Same,
    Higher,
}

impl Precedence {
    /// The same relation seen from the other side.
    pub open spec fn reversed(self) -> Precedence {
        match self {
            Precedence::Lower => Precedence::Higher,
            Precedence::Same => Precedence::Same,
            Precedence::Higher => Precedence::Lower,
        }
    }

    /// This relation, or `next` where this one makes no difference.
    pub open spec fn refined_by(self, next: Precedence) -> Precedence {
        if self is Same {
            next
        } else {
            self
        }
    }
}

/// The relation between two numbers.
pub open spec fn number_order(a: nat, b: nat) -> Precedence {
    if a < b {
        Precedence::Lower
    } else if a == b {
        Precedence::Same
    } else {
        Precedence::Higher
    }
}

/// The relation between two characters.
pub open spec fn char_order(a: char, b: char) -> Precedence {
    if a < b {
        Precedence::Lower
    } else if a == b {
        Precedence::Same
    } else {
        Precedence::Higher
    }
}

/// The relation between two texts, character by character; of two texts that
/// agree as far as the shorter one goes, the shorter is lower.
pub open spec fn text_order(a: Seq<char>, b: Seq<char>) -> Precedence
    decreases a.len(),
{
    if a.len() == 0 || b.len() == 0 {
        number_order(a.len(), b.len())
    } else {
        char_order(a[0], b[0]).refined_by(text_order(a.skip(1), b.skip(1)))
    }
}

/// `s` consists of digits only.
pub open spec fn all_digits(s: Seq<char>) -> bool {
    forall|i: int| 0 <= i < s.len() ==> is_digit(#[trigger] s[i])
}

/// The relation between two identifiers. Identifiers of digits compare by value,
/// and where leading zeros alone make the difference, the shorter one is lower.
/// An identifier of digits is lower than any other. Other identifiers compare as
/// texts.
pub open spec fn identifier_order(a: Seq<char>, b: Seq<char>) -> Precedence {
    if all_digits(a) && all_digits(b) {
        number_order(value(a), value(b)).refined_by(number_order(a.len(), b.len()))
    } else if all_digits(a) {
        Precedence::Lower
    } else if all_digits(b) {
        Precedence::Higher
    } else {
        text_order(a, b)
    }
}

/// How many characters stand before the first dot of `s`.
pub open spec fn dot_index(s: Seq<char>) -> nat
    decreases s.len(),
{
    if s.len() == 0 || s[0] == '.' {
        0
    } else {
        1 + dot_index(s.skip(1))
    }
}

/// The parts of `s` between its dots.
pub open spec fn identifiers(s: Seq<char>) -> Seq<Seq<char>>
    decreases s.len(),
{
    let k = dot_index(s) as int;
    if k >= s.len() {
        seq![s]
    } else {
        seq![s.take(k)] + identifiers(s.skip(k + 1))
    }
}

/// The relation between two lists of identifiers, one after the other; of two
/// lists that agree as far as the shorter one goes, the shorter is lower.
pub open spec fn identifiers_order(a: Seq<Seq<char>>, b: Seq<Seq<char>>) -> Precedence
    decreases a.len(),
{
    if a.len() == 0 || b.len() == 0 {
        number_order(a.len(), b.len())
    } else {
        identifier_order(a[0], b[0]).refined_by(identifiers_order(a.skip(1), b.skip(1)))
    }
}

/// The relation between two pre-releases, where no pre-release, an ordinary
/// release, is higher than any.
pub open spec fn prerelease_order(a: Seq<char>, b: Seq<char>) -> Precedence {
    if a.len() == 0 || b.len() == 0 {
        number_order(a.len(), b.len()).reversed()
    } else {
        identifiers_order(identifiers(a), identifiers(b))
    }
}

/// The relation between two build metadata.
pub open spec fn build_order(a: Seq<char>, b: Seq<char>) -> Precedence {
    identifiers_order(identifiers(a), identifiers(b))
}

/// The relation between the numbers of two versions, from left to right.
pub open spec fn numbers_order(a: VersionModel, b: VersionModel) -> Precedence {
    number_order(a.major as nat, b.major as nat).refined_by(
        number_order(a.minor as nat, b.minor as nat),
    ).refined_by(number_order(a.patch as nat, b.patch as nat))
}

/// How version `a` stands to version `b`: by the numbers, then by the
/// pre-releases, then by the build metadata.
pub open spec fn version_order(a: VersionModel, b: VersionModel) -> Precedence {
    numbers_order(a, b).refined_by(prerelease_order(a.pre, b.pre)).refined_by(
        build_order(a.build, b.build),
    )
}

proof fn lemma_text_total(a: Seq<char>, b: Seq<char>)
    ensures
        text_order(a, b) is Same <==> a == b,
        text_order(b, a) == text_order(a, b).reversed(),
    decreases a.len(),
{
    if a.len() == 0 || b.len() == 0 {
        if a.len() == b.len() {
            assert(a =~= b);
        }
    } else {
        lemma_text_total(a.skip(1), b.skip(1));
        if text_order(a, b) is Same {
            lemma_head_and_tail(a, b);
        }
    }
}

proof fn lemma_head_and_tail<T>(a: Seq<T>, b: Seq<T>)
    requires
        a.len() > 0,
        b.len() > 0,
        a[0] == b[0],
        a.skip(1) == b.skip(1),
    ensures
        a == b,
{
    assert(a =~= seq![a[0]] + a.skip(1));
    assert(b =~= seq![b[0]] + b.skip(1));
}

proof fn lemma_text_transitive(a: Seq<char>, b: Seq<char>, c: Seq<char>)
    requires
        text_order(a, b) is Lower,
        text_order(b, c) is Lower,
    ensures
        text_order(a, c) is Lower,
    decreases a.len(),
{
    if a.len() > 0 && b.len() > 0 && c.len() > 0 && a[0] == b[0] && b[0] == c[0] {
        lemma_text_transitive(a.skip(1), b.skip(1), c.skip(1));
    }
}

proof fn lemma_same_digits(a: Seq<char>, b: Seq<char>)
    requires
        all_digits(a),
        all_digits(b),
        a.len() == b.len(),
        value(a) == value(b),
    ensures
        a == b,
    decreases a.len(),
{
    if a.len() == 0 {
        assert(a =~= b);
    } else {
        let p = a.drop_last();
        let q = b.drop_last();
        assert(is_digit(a[a.len() - 1]) && is_digit(b[b.len() - 1]));
        assert(all_digits(p)) by {
            assert forall|i: int| 0 <= i < p.len() implies is_digit(#[trigger] p[i]) by {
                assert(p[i] == a[i]);
            }
        }
        assert(all_digits(q)) by {
            assert forall|i: int| 0 <= i < q.len() implies is_digit(#[trigger] q[i]) by {
                assert(q[i] == b[i]);
            }
        }
        lemma_same_digits(p, q);
        assert(a =~= p.push(a.last()));
        assert(b =~= q.push(b.last()));
    }
}

/// Two identifiers stand in the same place only where they are equal, and
/// exchanging them reverses how they stand.
pub proof fn lemma_identifier_total(a: Seq<char>, b: Seq<char>)
    ensures
        identifier_order(a, b) is Same <==> a == b,
        identifier_order(b, a) == identifier_order(a, b).reversed(),
{
    lemma_text_total(a, b);
    if all_digits(a) && all_digits(b) && identifier_order(a, b) is Same {
        lemma_same_digits(a, b);
    }
}

proof fn lemma_identifier_transitive(a: Seq<char>, b: Seq<char>, c: Seq<char>)
    requires
        identifier_order(a, b) is Lower,
        identifier_order(b, c) is Lower,
    ensures
        identifier_order(a, c) is Lower,
{
    if !all_digits(a) && !all_digits(b) && !all_digits(c) {
        lemma_text_transitive(a, b, c);
    }
}

proof fn lemma_identifiers_total(a: Seq<Seq<char>>, b: Seq<Seq<char>>)
    ensures
        identifiers_order(a, b) is Same <==> a == b,
        identifiers_order(b, a) == identifiers_order(a, b).reversed(),
    decreases a.len(),
{
    if a.len() == 0 || b.len() == 0 {
        if a.len() == b.len() {
            assert(a =~= b);
        }
    } else {
        lemma_identifier_total(a[0], b[0]);
        lemma_identifiers_total(a.skip(1), b.skip(1));
        if identifiers_order(a, b) is Same {
            lemma_head_and_tail(a, b);
        }
    }
}

proof fn lemma_identifiers_transitive(a: Seq<Seq<char>>, b: Seq<Seq<char>>, c: Seq<Seq<char>>)
    requires
        identifiers_order(a, b) is Lower,
        identifiers_order(b, c) is Lower,
    ensures
        identifiers_order(a, c) is Lower,
    decreases a.len(),
{
    if a.len() > 0 && b.len() > 0 && c.len() > 0 {
        lemma_identifier_total(a[0], b[0]);
        lemma_identifier_total(b[0], c[0]);
        if identifier_order(a[0], b[0]) is Lower && identifier_order(b[0], c[0]) is Lower {
            lemma_identifier_transitive(a[0], b[0], c[0]);
        } else if a[0] == b[0] && b[0] == c[0] {
            lemma_identifiers_transitive(a.skip(1), b.skip(1), c.skip(1));
        }
    }
}

proof fn lemma_dot_index(s: Seq<char>)
    ensures
        dot_index(s) <= s.len(),
        dot_index(s) < s.len() ==> s[dot_index(s) as int] == '.',
    decreases s.len(),
{
    if s.len() > 0 && s[0] != '.' {
        lemma_dot_index(s.skip(1));
    }
}

proof fn lemma_identifiers_unambiguous(a: Seq<char>, b: Seq<char>)
    requires
        identifiers(a) == identifiers(b),
    ensures
        a == b,
    decreases a.len(),
{
    let j = dot_index(a) as int;
    let k = dot_index(b) as int;
    lemma_dot_index(a);
    lemma_dot_index(b);
    lemma_identifiers_not_empty(a.skip(j + 1));
    lemma_identifiers_not_empty(b.skip(k + 1));
    assert(identifiers(a)[0] == identifiers(b)[0]);
    if j < a.len() && k < b.len() {
        assert(identifiers(a).skip(1) =~= identifiers(a.skip(j + 1)));
        assert(identifiers(b).skip(1) =~= identifiers(b.skip(k + 1)));
        lemma_identifiers_unambiguous(a.skip(j + 1), b.skip(k + 1));
        assert(a.take(j) == b.take(k));
        assert(a =~= a.take(j) + seq!['.'] + a.skip(j + 1));
        assert(b =~= b.take(k) + seq!['.'] + b.skip(k + 1));
    } else {
        assert(identifiers(a).len() == identifiers(b).len());
    }
}

proof fn lemma_identifiers_not_empty(s: Seq<char>)
    ensures
        identifiers(s).len() > 0,
{
}

proof fn lemma_dotted_total(a: Seq<char>, b: Seq<char>)
    ensures
        build_order(a, b) is Same <==> a == b,
        build_order(b, a) == build_order(a, b).reversed(),
        prerelease_order(a, b) is Same <==> a == b,
        prerelease_order(b, a) == prerelease_order(a, b).reversed(),
{
    lemma_identifiers_total(identifiers(a), identifiers(b));
    if identifiers(a) == identifiers(b) {
        lemma_identifiers_unambiguous(a, b);
    }
    if a.len() == 0 && b.len() == 0 {
        assert(a =~= b);
    }
}

/// Only equal versions stand at the same place.
pub proof fn same_place_means_equal(a: VersionModel, b: VersionModel)
    ensures
        version_order(a, b) is Same <==> a == b,
{
    lemma_dotted_total(a.pre, b.pre);
    lemma_dotted_total(a.build, b.build);
    if version_order(a, b) is Same {
        assert(a =~= b);
    }
}

/// Exchanging two versions reverses how they stand to each other.
pub proof fn exchanging_reverses(a: VersionModel, b: VersionModel)
    ensures
        version_order(b, a) == version_order(a, b).reversed(),
{
    lemma_dotted_total(a.pre, b.pre);
    lemma_dotted_total(a.build, b.build);
}

/// What is no higher than a version that is no higher than a third is no higher
/// than the third, and lower where one of the two steps is.
pub proof fn precedence_is_transitive(a: VersionModel, b: VersionModel, c: VersionModel)
    requires
        version_order(a, b) !is Higher,
        version_order(b, c) !is Higher,
    ensures
        version_order(a, c) !is Higher,
        version_order(a, b) is Lower || version_order(b, c) is Lower ==> version_order(
            a,
            c,
        ) is Lower,
{
    lemma_dotted_total(a.pre, b.pre);
    lemma_dotted_total(b.pre, c.pre);
    lemma_dotted_total(a.build, b.build);
    lemma_dotted_total(b.build, c.build);
    if a.pre != b.pre && b.pre != c.pre && prerelease_order(a.pre, b.pre) is Lower
        && prerelease_order(b.pre, c.pre) is Lower {
        if a.pre.len() > 0 && b.pre.len() > 0 && c.pre.len() > 0 {
            lemma_identifiers_transitive(
                identifiers(a.pre),
                identifiers(b.pre),
                identifiers(c.pre),
            );
        }
    }
    if build_order(a.build, b.build) is Lower && build_order(b.build, c.build) is Lower {
        lemma_identifiers_transitive(
            identifiers(a.build),
            identifiers(b.build),
            identifiers(c.build),
        );
    }
}

} // verus!
