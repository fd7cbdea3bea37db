//! Text as sequences of code points: reading a string, building one, and
//! decimal numbers written as text.

use crate::classes::{char_is_digit, is_number};
use vstd::prelude::*;

verus! {

/// `String::push` appends one code point to the text.
pub assume_specification[ std::string::String::push ](text: &mut std::string::String, c: char)
    ensures
        final(text)@ == old(text)@.push(c),
;

/// The code points of `text`, in order.
pub fn chars_of(text: &str) -> (chars: Vec<char>)
    ensures
        chars@ == text@,
{
    let mut chars: Vec<char> = Vec::new();
    for c in it: text.chars()
        invariant
            chars@ == it.seq().take(it.index() as int),
    {
        chars.push(c);
    }
    chars
}

/// The text made of the code points `chars[from..to]`.
pub fn text_of(chars: &Vec<char>, from: usize, to: usize) -> (text: String)
    requires
        from <= to <= chars.len(),
    ensures
        text@ == chars@.subrange(from as int, to as int),
{
    let mut text = String::new();
    let mut i: usize = from;
    while i < to
        invariant
            from <= i <= to <= chars.len(),
            text@ == chars@.subrange(from as int, i as int),
        decreases to - i,
    {
        text.push(chars[i]);
        i = i + 1;
    }
    text
}

/// Whether `text` and `word` hold the same code points.
pub fn text_is(text: &String, word: &str) -> (same: bool)
    ensures
        same == (text@ == word@),
{
    let other = word.to_owned();
    *text == other
}

/// Every code point of `text` is a decimal digit.
pub open spec fn all_digits(text: Seq<char>) -> bool {
    forall|i: int| 0 <= i < text.len() ==> char_is_digit(#[trigger] text[i])
}

/// The number that the digit `c` stands for.
pub open spec fn digit_value(c: char) -> nat {
    (c as int - '0' as int) as nat
}

/// The digit that stands for `d`, a number below ten.
pub open spec fn digit_char(d: nat) -> char {
    (d + '0' as nat) as char
}

/// The number that the digits of `text` denote in base ten.
pub open spec fn decimal_value(text: Seq<char>) -> nat
    decreases text.len(),
{
    if text.len() == 0 {
        0
    } else {
        10 * decimal_value(text.drop_last()) + digit_value(text.last())
    }
}

/// `n` written in base ten, without leading zeros.
pub open spec fn decimal_text(n: nat) -> Seq<char>
    decreases n,
{
    if n < 10 {
        seq![digit_char(n)]
    } else {
        decimal_text(n / 10).push(digit_char(n % 10))
    }
}

/// The number one below the one that `text` denotes, written in base ten.
/// There is none unless `text` is a run of digits that denotes a number from
/// one to the largest `usize`.
pub open spec fn lowered(text: Seq<char>) -> Option<Seq<char>> {
    if text.len() > 0 && all_digits(text) && 1 <= decimal_value(text) <= usize::MAX {
        Some(decimal_text((decimal_value(text) - 1) as nat))
    } else {
        None
    }
}

/// A number is at least the number that any of its leading digits denote.
pub proof fn lemma_decimal_value_grows(text: Seq<char>, k: int)
    requires
        0 <= k <= text.len(),
    ensures
        decimal_value(text.take(k)) <= decimal_value(text),
    decreases text.len(),
{
    if k < text.len() {
        lemma_decimal_value_grows(text.drop_last(), k);
        assert(text.drop_last().take(k) == text.take(k));
    } else {
        assert(text.take(k) == text);
    }
}

/// The number that the digit `c` stands for.
fn value_of_digit(c: char) -> (d: usize)
    requires
        char_is_digit(c),
    ensures
        d == digit_value(c),
        d < 10,
{
    if c == '0' {
        0
    } else if c == '1' {
        1
    } else if c == '2' {
        2
    } else if c == '3' {
        3
    } else if c == '4' {
        4
    } else if c == '5' {
        5
    } else if c == '6' {
        6
    } else if c == '7' {
        7
    } else if c == '8' {
        8
    } else {
        9
    }
}

/// The digit that stands for `d`.
fn digit_of_value(d: usize) -> (c: char)
    requires
        d < 10,
    ensures
        c == digit_char(d as nat),
{
    if d == 0 {
        '0'
    } else if d == 1 {
        '1'
    } else if d == 2 {
        '2'
    } else if d == 3 {
        '3'
    } else if d == 4 {
        '4'
    } else if d == 5 {
        '5'
    } else if d == 6 {
        '6'
    } else if d == 7 {
        '7'
    } else if d == 8 {
        '8'
    } else {
        '9'
    }
}

/// The number that `text` denotes, where `text` is a run of digits and the
/// number fits.
pub fn parse_decimal(text: &str) -> (number: Option<usize>)
    ensures
        match number {
            Some(n) => text@.len() > 0 && all_digits(text@) && n == decimal_value(text@),
            None => !(text@.len() > 0 && all_digits(text@) && decimal_value(text@) <= usize::MAX),
        },
{
    let chars = chars_of(text);
    if chars.len() == 0 {
        return None;
    }
    let mut value: usize = 0;
    let mut i: usize = 0;
    while i < chars.len()
        invariant
            i <= chars.len(),
            chars@ == text@,
            all_digits(chars@.take(i as int)),
            value == decimal_value(chars@.take(i as int)),
        decreases chars.len() - i,
    {
        let c = chars[i];
        if !is_number(c) {
            return None;
        }
        let d = value_of_digit(c);
        proof {
            assert(chars@.take(i + 1).drop_last() == chars@.take(i as int));
            lemma_decimal_value_grows(chars@, i + 1);
        }
        if value > (usize::MAX - d) / 10 {
            return None;
        }
        value = value * 10 + d;
        i = i + 1;
    }
    assert(chars@.take(i as int) == chars@);
    Some(value)
}

/// `n` written in base ten.
pub fn format_decimal(n: usize) -> (text: String)
    ensures
        text@ == decimal_text(n as nat),
    decreases n,
{
    if n < 10 {
        let mut text = String::new();
        text.push(digit_of_value(n));
        text
    } else {
        let mut text = format_decimal(n / 10);
        text.push(digit_of_value(n % 10));
        text
    }
}

/// `text` lowered by one: see [`lowered`].
pub fn lower_by_one(text: &String) -> (lower: Option<String>)
    ensures
        match lower {
            Some(t) => lowered(text@) == Some(t@),
            None => lowered(text@) is None,
        },
{
    match parse_decimal(text.as_str()) {
        Some(n) => {
            if n == 0 {
                None
            } else {
                Some(format_decimal(n - 1))
            }
        },
        None => None,
    }
}

} // verus!
