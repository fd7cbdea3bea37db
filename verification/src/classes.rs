//! The three character classes of the lexer: digits, letters and white space.
//!
//! Each class is written as a regular expression and matched by the `regex`
//! crate; what a class holds is stated here as a predicate on code points.

use regex::Regex;
use vstd::prelude::*;

verus! {

/// The decimal digits `0` to `9`.
pub open spec fn char_is_digit(c: char) -> bool {
    '0' <= c <= '9'
}

/// The letters `a` to `z` and `A` to `Z`.
pub open spec fn char_is_letter(c: char) -> bool {
    ('a' <= c <= 'z') || ('A' <= c <= 'Z')
}

/// The code points with the Unicode property `White_Space`.
pub open spec fn char_is_space(c: char) -> bool {
    ||| '\u{9}' <= c <= '\u{d}'
    ||| c == ' '
    ||| c == '\u{85}'
    ||| c == '\u{a0}'
    ||| c == '\u{1680}'
    ||| '\u{2000}' <= c <= '\u{200a}'
    ||| c == '\u{2028}'
    ||| c == '\u{2029}'
    ||| c == '\u{202f}'
    ||| c == '\u{205f}'
    ||| c == '\u{3000}'
}

/// The pattern of the digit class.
pub open spec fn digit_pattern() -> Seq<char> {
    "[0-9]"@
}

/// The pattern of the letter class.
pub open spec fn letter_pattern() -> Seq<char> {
    "[a-zA-Z]"@
}

/// The pattern of the white-space class.
pub open spec fn space_pattern() -> Seq<char> {
    "\\s"@
}

/// The patterns this library hands to the regular-expression engine.
pub open spec fn is_class_pattern(pattern: Seq<char>) -> bool {
    pattern == digit_pattern() || pattern == letter_pattern() || pattern == space_pattern()
}

/// Whether `c` belongs to the class that `pattern` denotes.
pub open spec fn class_holds(pattern: Seq<char>, c: char) -> bool {
    if pattern == digit_pattern() {
        char_is_digit(c)
    } else if pattern == letter_pattern() {
        char_is_letter(c)
    } else {
        char_is_space(c)
    }
}

/// Compiles `pattern` with `regex::Regex::new` and searches the one-character
/// text made of `c` with `regex::Regex::is_match`.
///
/// Trusted: for the three class patterns of this library the search succeeds
/// exactly when `c` lies in the class. `[0-9]` and `[a-zA-Z]` are literal
/// ranges, matched case-sensitively; `\s` is the engine's Unicode-aware
/// white-space class, the code points with the property `White_Space`. The
/// three patterns compile, so the `unwrap` cannot fail.
#[verifier::external_body]
fn class_contains(pattern: &str, c: char) -> (hit: bool)
    requires
        is_class_pattern(pattern@),
    ensures
        hit == class_holds(pattern@, c),
{
    Regex::new(pattern).unwrap().is_match(c.to_string().as_str())
}

/// The three patterns are pairwise different.
proof fn lemma_patterns_differ()
    ensures
        digit_pattern() != letter_pattern(),
        digit_pattern() != space_pattern(),
        letter_pattern() != space_pattern(),
{
    reveal_strlit("[0-9]");
    reveal_strlit("[a-zA-Z]");
    reveal_strlit("\\s");
    assert(letter_pattern().len() == 8);
    assert(space_pattern().len() == 2);
}

/// Whether `c` is a decimal digit.
pub fn is_number(c: char) -> (digit: bool)
    ensures
        digit == char_is_digit(c),
{
    class_contains("[0-9]", c)
}

/// Whether `c` is a letter of the basic Latin alphabet.
pub fn is_letter(c: char) -> (letter: bool)
    ensures
        letter == char_is_letter(c),
{
    proof {
        lemma_patterns_differ();
    }
    class_contains("[a-zA-Z]", c)
}

/// Whether `c` is white space.
pub fn is_whitespace(c: char) -> (space: bool)
    ensures
        space == char_is_space(c),
{
    proof {
        lemma_patterns_differ();
    }
    class_contains("\\s", c)
}

/// No code point lies in two of the three classes.
pub proof fn lemma_classes_disjoint(c: char)
    ensures
        !(char_is_digit(c) && char_is_letter(c)),
        !(char_is_digit(c) && char_is_space(c)),
        !(char_is_letter(c) && char_is_space(c)),
{
}

} // verus!
