//! What the operations of the library promise, stated on their inputs and
//! results alone. The vocabulary here is that of characters and positions.

use vstd::prelude::*;

pub mod deciding;
pub mod ordering;
pub mod reading;
pub mod resolving;

verus! {

/// The characters of the Unicode property `White_Space`.
pub open spec fn white(c: char) -> bool {
    ||| '\t' <= c <= '\r'
    ||| c == ' '
    ||| c == '\u{85}'
    ||| c == '\u{a0}'
    ||| c == '\u{1680}'
    ||| '\u{2000}' <= c <= '\u{200a}'
    ||| '\u{2028}' <= c <= '\u{2029}'
    ||| c == '\u{202f}'
    ||| c == '\u{205f}'
    ||| c == '\u{3000}'
}

/// Nothing but white space.
pub open spec fn blank(s: Seq<char>) -> bool {
    forall|i: int| 0 <= i < s.len() ==> white(#[trigger] s[i])
}

/// Not empty, and without white space at either end.
pub open spec fn solid(s: Seq<char>) -> bool {
    s.len() > 0 && !white(s[0]) && !white(s[s.len() - 1])
}

/// A decimal digit.
pub open spec fn numeral(c: char) -> bool {
    '0' <= c && c <= '9'
}

/// `s` starts with `v` and a digit behind it.
pub open spec fn v_and_digit(s: Seq<char>) -> bool {
    s.len() > 1 && s[0] == 'v' && numeral(s[1])
}

/// One of `^`, `~`, `=`, `>` and `<`.
pub open spec fn operator(c: char) -> bool {
    c == '^' || c == '~' || c == '=' || c == '>' || c == '<'
}

/// `core` with white space around it and, if `marked`, a `v` in front of it.
pub open spec fn framed(
    before: Seq<char>,
    marked: bool,
    core: Seq<char>,
    after: Seq<char>,
) -> Seq<char> {
    if marked {
        before + (seq!['v'] + core) + after
    } else {
        before + core + after
    }
}

/// The frame is white space and a `v` that a digit follows, and `core` is what
/// remains when it is taken off.
pub open spec fn is_frame(
    before: Seq<char>,
    marked: bool,
    core: Seq<char>,
    after: Seq<char>,
) -> bool {
    &&& blank(before)
    &&& blank(after)
    &&& if marked {
        core.len() > 0 && numeral(core[0]) && !white(core[core.len() - 1])
    } else {
        core.len() == 0 || (solid(core) && !v_and_digit(core))
    }
}

/// No dot in `s`.
pub open spec fn undotted(s: Seq<char>) -> bool {
    forall|i: int| 0 <= i < s.len() ==> #[trigger] s[i] != '.'
}

} // verus!
