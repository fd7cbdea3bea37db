//! The tokenizer: one left-to-right scan over the code points of the source.

use crate::classes::{
    char_is_digit, char_is_letter, char_is_space, is_letter, is_number, is_whitespace,
    lemma_classes_disjoint,
};
use crate::text::{chars_of, text_of};
use crate::token::{Bracket, Symbol, Token, TokenView};
use vstd::prelude::*;

verus! {

/// Why a source text has no tokens.
#[derive(Debug, Clone, Copy, PartialEq, Eq, Structural)]
pub enum TokenizerError {
    /// A code point that starts no token.
    InvalidCharacter(char),
    /// A string literal that the end of the input cuts short.
    UnterminatedString,
}

/// The token that the single code point `c` stands for, if any.
pub open spec fn single_token(c: char) -> Option<TokenView> {
    if c == '=' {
        Some(TokenView::Symbol(Symbol::Equals))
    } else if c == '-' {
        Some(TokenView::Symbol(Symbol::Minus))
    } else if c == '+' {
        Some(TokenView::Symbol(Symbol::Plus))
    } else if c == '*' {
        Some(TokenView::Symbol(Symbol::Multiply))
    } else if c == '/' {
        Some(TokenView::Symbol(Symbol::Divide))
    } else if c == '%' {
        Some(TokenView::Symbol(Symbol::Modulo))
    } else if c == '>' {
        Some(TokenView::Symbol(Symbol::Greater))
    } else if c == '<' {
        Some(TokenView::Symbol(Symbol::Less))
    } else if c == '.' {
        Some(TokenView::Symbol(Symbol::Dot))
    } else if c == ',' {
        Some(TokenView::Symbol(Symbol::Colon))
    } else if c == ';' {
        Some(TokenView::Symbol(Symbol::SemiColon))
    } else if c == ':' {
        Some(TokenView::Symbol(Symbol::DoubleColon))
    } else if c == '!' {
        Some(TokenView::Symbol(Symbol::Exclamation))
    } else if c == '{' {
        Some(TokenView::BracketOpen(Bracket::Curly))
    } else if c == '}' {
        Some(TokenView::BracketClose(Bracket::Curly))
    } else if c == '(' {
        Some(TokenView::BracketOpen(Bracket::Paren))
    } else if c == ')' {
        Some(TokenView::BracketClose(Bracket::Paren))
    } else if c == '[' {
        Some(TokenView::BracketOpen(Bracket::Square))
    } else if c == ']' {
        Some(TokenView::BracketClose(Bracket::Square))
    } else {
        None
    }
}

/// How many letters and digits stand in a row from index `from` on.
pub open spec fn word_run(source: Seq<char>, from: int) -> nat
    decreases source.len() - from,
{
    if 0 <= from < source.len() && (char_is_letter(source[from]) || char_is_digit(source[from])) {
        1 + word_run(source, from + 1)
    } else {
        0
    }
}

/// How many digits stand in a row from index `from` on.
pub open spec fn digit_run(source: Seq<char>, from: int) -> nat
    decreases source.len() - from,
{
    if 0 <= from < source.len() && char_is_digit(source[from]) {
        1 + digit_run(source, from + 1)
    } else {
        0
    }
}

/// The rest of a string literal, read from index `from`, just behind the
/// opening quote or somewhere inside the literal: its text, and the number of
/// code points up to and including the closing quote. A backslash is dropped
/// and the code point behind it is taken as it stands. `None` where the input
/// ends before the literal does.
pub open spec fn string_rest(source: Seq<char>, from: int) -> Option<(Seq<char>, nat)>
    decreases source.len() - from,
{
    if from < 0 || from >= source.len() {
        None
    } else if source[from] == '"' {
        Some((Seq::empty(), 1nat))
    } else if source[from] == '\\' {
        if from + 1 >= source.len() {
            None
        } else {
            match string_rest(source, from + 2) {
                Some((text, length)) => Some((seq![source[from + 1]] + text, 2 + length)),
                None => None,
            }
        }
    } else {
        match string_rest(source, from + 1) {
            Some((text, length)) => Some((seq![source[from]] + text, 1 + length)),
            None => None,
        }
    }
}

/// `tokens`, then what `rest` holds; the failure of `rest` if it failed.
pub open spec fn tokens_then(
    tokens: Seq<TokenView>,
    rest: Result<Seq<TokenView>, TokenizerError>,
) -> Result<Seq<TokenView>, TokenizerError> {
    match rest {
        Ok(more) => Ok(tokens + more),
        Err(e) => Err(e),
    }
}

/// The tokens of `source` from index `from` on.
///
/// White space separates tokens and yields none. A letter starts an
/// identifier, a digit a number, a double quote a string literal; every other
/// code point is one symbol or bracket, or a failure.
pub open spec fn lex_from(source: Seq<char>, from: int) -> Result<Seq<TokenView>, TokenizerError>
    decreases source.len() - from,
    via lex_from_terminates
{
    if from < 0 || from >= source.len() {
        Ok(Seq::empty())
    } else {
        let c = source[from];
        if char_is_space(c) {
            lex_from(source, from + 1)
        } else if char_is_letter(c) {
            let end = from + 1 + word_run(source, from + 1);
            tokens_then(seq![TokenView::Char(source.subrange(from, end))], lex_from(source, end))
        } else if char_is_digit(c) {
            let end = from + 1 + digit_run(source, from + 1);
            tokens_then(
                seq![TokenView::Number(source.subrange(from, end))],
                lex_from(source, end),
            )
        } else if c == '"' {
            match string_rest(source, from + 1) {
                Some((text, length)) => tokens_then(
                    seq![TokenView::String(text)],
                    lex_from(source, from + 1 + length),
                ),
                None => Err(TokenizerError::UnterminatedString),
            }
        } else {
            match single_token(c) {
                Some(token) => tokens_then(seq![token], lex_from(source, from + 1)),
                None => Err(TokenizerError::InvalidCharacter(c)),
            }
        }
    }
}

#[via_fn]
proof fn lex_from_terminates(source: Seq<char>, from: int) {
    if 0 <= from < source.len() {
        lemma_word_run_bound(source, from + 1);
        lemma_digit_run_bound(source, from + 1);
        lemma_string_rest_bound(source, from + 1);
    }
}

/// A run of letters and digits ends inside the source.
pub proof fn lemma_word_run_bound(source: Seq<char>, from: int)
    requires
        0 <= from <= source.len(),
    ensures
        from + word_run(source, from) <= source.len(),
    decreases source.len() - from,
{
    if from < source.len() {
        lemma_word_run_bound(source, from + 1);
    }
}

/// A run of digits ends inside the source.
pub proof fn lemma_digit_run_bound(source: Seq<char>, from: int)
    requires
        0 <= from <= source.len(),
    ensures
        from + digit_run(source, from) <= source.len(),
    decreases source.len() - from,
{
    if from < source.len() {
        lemma_digit_run_bound(source, from + 1);
    }
}

/// A string literal that closes does so inside the source.
pub proof fn lemma_string_rest_bound(source: Seq<char>, from: int)
    requires
        0 <= from <= source.len(),
    ensures
        match string_rest(source, from) {
            Some((_, length)) => 1 <= length && from + length <= source.len(),
            None => true,
        },
    decreases source.len() - from,
{
    if from < source.len() {
        if source[from] == '\\' {
            if from + 1 < source.len() {
                lemma_string_rest_bound(source, from + 2);
            }
        } else if source[from] != '"' {
            lemma_string_rest_bound(source, from + 1);
        }
    }
}

/// The tokens of `source`.
pub open spec fn lex(source: Seq<char>) -> Result<Seq<TokenView>, TokenizerError> {
    lex_from(source, 0)
}

/// `text` and `length` code points, then what `rest` holds.
pub open spec fn literal_then(
    text: Seq<char>,
    rest: Option<(Seq<char>, nat)>,
    length: nat,
) -> Option<(Seq<char>, nat)> {
    match rest {
        Some((more, n)) => Some((text + more, length + n)),
        None => None,
    }
}

/// The symbol or bracket that `c` stands for.
fn single(c: char) -> (token: Option<Token>)
    ensures
        match token {
            Some(t) => single_token(c) == Some(t@),
            None => single_token(c) is None,
        },
{
    if c == '=' {
        Some(Token::Symbol(Symbol::Equals))
    } else if c == '-' {
        Some(Token::Symbol(Symbol::Minus))
    } else if c == '+' {
        Some(Token::Symbol(Symbol::Plus))
    } else if c == '*' {
        Some(Token::Symbol(Symbol::Multiply))
    } else if c == '/' {
        Some(Token::Symbol(Symbol::Divide))
    } else if c == '%' {
        Some(Token::Symbol(Symbol::Modulo))
    } else if c == '>' {
        Some(Token::Symbol(Symbol::Greater))
    } else if c == '<' {
        Some(Token::Symbol(Symbol::Less))
    } else if c == '.' {
        Some(Token::Symbol(Symbol::Dot))
    } else if c == ',' {
        Some(Token::Symbol(Symbol::Colon))
    } else if c == ';' {
        Some(Token::Symbol(Symbol::SemiColon))
    } else if c == ':' {
        Some(Token::Symbol(Symbol::DoubleColon))
    } else if c == '!' {
        Some(Token::Symbol(Symbol::Exclamation))
    } else if c == '{' {
        Some(Token::BracketOpen(Bracket::Curly))
    } else if c == '}' {
        Some(Token::BracketClose(Bracket::Curly))
    } else if c == '(' {
        Some(Token::BracketOpen(Bracket::Paren))
    } else if c == ')' {
        Some(Token::BracketClose(Bracket::Paren))
    } else if c == '[' {
        Some(Token::BracketOpen(Bracket::Square))
    } else if c == ']' {
        Some(Token::BracketClose(Bracket::Square))
    } else {
        None
    }
}

/// The index behind the run of letters and digits that starts at `from`.
fn scan_word(chars: &Vec<char>, from: usize) -> (end: usize)
    requires
        from <= chars.len(),
    ensures
        end == from + word_run(chars@, from as int),
        end <= chars.len(),
{
    let mut i: usize = from;
    while i < chars.len() && (is_letter(chars[i]) || is_number(chars[i]))
        invariant
            from <= i <= chars.len(),
            word_run(chars@, from as int) == (i - from) + word_run(chars@, i as int),
        decreases chars.len() - i,
    {
        i = i + 1;
    }
    i
}

/// The index behind the run of digits that starts at `from`.
fn scan_digits(chars: &Vec<char>, from: usize) -> (end: usize)
    requires
        from <= chars.len(),
    ensures
        end == from + digit_run(chars@, from as int),
        end <= chars.len(),
{
    let mut i: usize = from;
    while i < chars.len() && is_number(chars[i])
        invariant
            from <= i <= chars.len(),
            digit_run(chars@, from as int) == (i - from) + digit_run(chars@, i as int),
        decreases chars.len() - i,
    {
        i = i + 1;
    }
    i
}

/// Reads the rest of a string literal from index `from`, just behind its
/// opening quote: the text and the index behind the closing quote.
fn scan_string(chars: &Vec<char>, from: usize) -> (found: Option<(String, usize)>)
    requires
        from <= chars.len(),
    ensures
        match found {
            Some((text, end)) => {
                &&& from < end <= chars.len()
                &&& string_rest(chars@, from as int) == Some((text@, (end - from) as nat))
            },
            None => string_rest(chars@, from as int) is None,
        },
{
    let mut text = String::new();
    let mut i: usize = from;
    while i < chars.len() && chars[i] != '"'
        invariant
            from <= i <= chars.len(),
            string_rest(chars@, from as int) == literal_then(
                text@,
                string_rest(chars@, i as int),
                (i - from) as nat,
            ),
        decreases chars.len() - i,
    {
        if chars[i] == '\\' {
            if i + 1 >= chars.len() {
                return None;
            }
            text.push(chars[i + 1]);
            i = i + 2;
        } else {
            text.push(chars[i]);
            i = i + 1;
        }
    }
    if i < chars.len() {
        Some((text, i + 1))
    } else {
        None
    }
}

/// The view of what [`tokenise`] returns.
pub open spec fn lexed(result: Result<Vec<Token>, TokenizerError>) -> Result<
    Seq<TokenView>,
    TokenizerError,
> {
    match result {
        Ok(tokens) => Ok(tokens.deep_view()),
        Err(e) => Err(e),
    }
}

/// Splits `input` into its tokens.
///
/// The result is exactly [`lex`] of the input: the tokens in source order, or
/// the first failure met from the left.
pub fn tokenise(input: String) -> (result: Result<Vec<Token>, TokenizerError>)
    ensures
        lexed(result) == lex(input@),
{
    let chars = chars_of(input.as_str());
    let mut tokens: Vec<Token> = Vec::new();
    let mut i: usize = 0;
    while i < chars.len()
        invariant
            i <= chars.len(),
            chars@ == input@,
            lex(input@) == tokens_then(tokens.deep_view(), lex_from(input@, i as int)),
        decreases chars.len() - i,
    {
        let c = chars[i];
        let ghost found = tokens.deep_view();
        proof {
            lemma_classes_disjoint(c);
        }
        if is_whitespace(c) {
            i = i + 1;
        } else {
            let token: Token;
            let end: usize;
            if is_letter(c) {
                end = scan_word(&chars, i + 1);
                token = Token::Char(text_of(&chars, i, end));
            } else if is_number(c) {
                end = scan_digits(&chars, i + 1);
                token = Token::Number(text_of(&chars, i, end));
            } else if c == '"' {
                match scan_string(&chars, i + 1) {
                    Some((text, behind)) => {
                        end = behind;
                        token = Token::String(text);
                    },
                    None => {
                        return Err(TokenizerError::UnterminatedString);
                    },
                }
            } else {
                match single(c) {
                    Some(t) => {
                        end = i + 1;
                        token = t;
                    },
                    None => {
                        return Err(TokenizerError::InvalidCharacter(c));
                    },
                }
            }
            proof {
                let rest = lex_from(input@, end as int);
                if rest is Ok {
                    assert(found + (seq![token@] + rest->Ok_0) == found.push(token@) + rest->Ok_0);
                }
            }
            tokens.push(token);
            assert(tokens.deep_view() =~= found.push(token@));
            i = end;
        }
    }
    Ok(tokens)
}

/// Where only letters and digits follow, the run reaches the end of the
/// source.
pub proof fn lemma_word_run_to_end(source: Seq<char>, from: int)
    requires
        0 <= from <= source.len(),
        forall|i: int|
            from <= i < source.len() ==> char_is_letter(#[trigger] source[i]) || char_is_digit(
                source[i],
            ),
    ensures
        from + word_run(source, from) == source.len(),
    decreases source.len() - from,
{
    if from < source.len() {
        lemma_word_run_to_end(source, from + 1);
    }
}

/// Where only digits follow, the run reaches the end of the source.
pub proof fn lemma_digit_run_to_end(source: Seq<char>, from: int)
    requires
        0 <= from <= source.len(),
        forall|i: int| from <= i < source.len() ==> char_is_digit(#[trigger] source[i]),
    ensures
        from + digit_run(source, from) == source.len(),
    decreases source.len() - from,
{
    if from < source.len() {
        lemma_digit_run_to_end(source, from + 1);
    }
}

/// Where only white space follows, no token follows.
pub proof fn lemma_space_has_no_tokens(source: Seq<char>, from: int)
    requires
        0 <= from,
        forall|i: int| from <= i < source.len() ==> char_is_space(#[trigger] source[i]),
    ensures
        lex_from(source, from) == Ok::<Seq<TokenView>, TokenizerError>(Seq::empty()),
    decreases source.len() - from,
{
    if from < source.len() {
        lemma_space_has_no_tokens(source, from + 1);
    }
}

/// A source that holds nothing but white space has no tokens.
pub proof fn theorem_white_space_lexes_to_nothing(source: Seq<char>)
    requires
        forall|i: int| 0 <= i < source.len() ==> char_is_space(#[trigger] source[i]),
    ensures
        lex(source) == Ok::<Seq<TokenView>, TokenizerError>(Seq::empty()),
{
    lemma_space_has_no_tokens(source, 0);
}

/// A letter followed by letters and digits, and nothing else, is exactly
/// one identifier token that holds the whole source.
pub proof fn theorem_identifier_lexes_to_itself(source: Seq<char>)
    requires
        source.len() > 0,
        char_is_letter(source[0]),
        forall|i: int|
            1 <= i < source.len() ==> char_is_letter(#[trigger] source[i]) || char_is_digit(
                source[i],
            ),
    ensures
        lex(source) == Ok::<Seq<TokenView>, TokenizerError>(seq![TokenView::Char(source)]),
{
    lemma_classes_disjoint(source[0]);
    lemma_word_run_to_end(source, 1);
    let end = source.len() as int;
    let token = TokenView::Char(source);
    assert(source.subrange(0, end) =~= source);
    assert(lex_from(source, 0) == tokens_then(seq![token], lex_from(source, end)));
}

/// A run of digits, and nothing else, is exactly one number token that
/// holds the whole source.
pub proof fn theorem_digits_lex_to_one_number(source: Seq<char>)
    requires
        source.len() > 0,
        forall|i: int| 0 <= i < source.len() ==> char_is_digit(#[trigger] source[i]),
    ensures
        lex(source) == Ok::<Seq<TokenView>, TokenizerError>(seq![TokenView::Number(source)]),
{
    lemma_classes_disjoint(source[0]);
    lemma_digit_run_to_end(source, 1);
    let end = source.len() as int;
    let token = TokenView::Number(source);
    assert(source.subrange(0, end) =~= source);
    assert(lex_from(source, 0) == tokens_then(seq![token], lex_from(source, end)));
}

/// A letter followed by letters and digits.
pub open spec fn is_identifier(text: Seq<char>) -> bool {
    &&& text.len() > 0
    &&& char_is_letter(text[0])
    &&& forall|i: int|
        1 <= i < text.len() ==> char_is_letter(#[trigger] text[i]) || char_is_digit(text[i])
}

/// One digit or more, and nothing else.
pub open spec fn is_digit_run(text: Seq<char>) -> bool {
    &&& text.len() > 0
    &&& forall|i: int| 0 <= i < text.len() ==> char_is_digit(#[trigger] text[i])
}

/// What the tokenizer's tokens hold: an identifier token an identifier, a
/// number token a run of digits.
pub open spec fn well_formed(token: TokenView) -> bool {
    match token {
        TokenView::Char(text) => is_identifier(text),
        TokenView::Number(text) => is_digit_run(text),
        _ => true,
    }
}

/// Every code point of a run of letters and digits is a letter or a digit.
pub proof fn lemma_word_run_holds(source: Seq<char>, from: int, i: int)
    requires
        0 <= from <= i < from + word_run(source, from),
    ensures
        i < source.len(),
        char_is_letter(source[i]) || char_is_digit(source[i]),
    decreases source.len() - from,
{
    if from < i {
        lemma_word_run_holds(source, from + 1, i);
    }
}

/// Every code point of a run of digits is a digit.
pub proof fn lemma_digit_run_holds(source: Seq<char>, from: int, i: int)
    requires
        0 <= from <= i < from + digit_run(source, from),
    ensures
        i < source.len(),
        char_is_digit(source[i]),
    decreases source.len() - from,
{
    if from < i {
        lemma_digit_run_holds(source, from + 1, i);
    }
}

/// The tokens from index `from` on are well formed.
pub proof fn lemma_tokens_are_well_formed(source: Seq<char>, from: int)
    requires
        0 <= from,
    ensures
        lex_from(source, from) matches Ok(tokens) ==> forall|i: int|
            0 <= i < tokens.len() ==> well_formed(#[trigger] tokens[i]),
    decreases source.len() - from,
{
    if from < source.len() {
        let c = source[from];
        if char_is_space(c) {
            lemma_tokens_are_well_formed(source, from + 1);
        } else if char_is_letter(c) {
            let end = from + 1 + word_run(source, from + 1);
            let text = source.subrange(from, end);
            lemma_word_run_bound(source, from + 1);
            lemma_tokens_are_well_formed(source, end);
            assert forall|i: int| 1 <= i < text.len() implies char_is_letter(#[trigger] text[i])
                || char_is_digit(text[i]) by {
                lemma_word_run_holds(source, from + 1, from + i);
            }
            assert(is_identifier(text));
        } else if char_is_digit(c) {
            let end = from + 1 + digit_run(source, from + 1);
            let text = source.subrange(from, end);
            lemma_digit_run_bound(source, from + 1);
            lemma_tokens_are_well_formed(source, end);
            assert forall|i: int| 0 <= i < text.len() implies char_is_digit(#[trigger] text[i]) by {
                if i > 0 {
                    lemma_digit_run_holds(source, from + 1, from + i);
                }
            }
            assert(is_digit_run(text));
        } else if c == '"' {
            lemma_string_rest_bound(source, from + 1);
            match string_rest(source, from + 1) {
                Some((_, length)) => {
                    lemma_tokens_are_well_formed(source, from + 1 + length);
                },
                None => {},
            }
        } else {
            lemma_tokens_are_well_formed(source, from + 1);
        }
    }
}

/// Every identifier token of a source is a letter followed by letters and
/// digits, and every number token is a run of digits.
pub proof fn theorem_tokens_are_well_formed(source: Seq<char>)
    ensures
        lex(source) matches Ok(tokens) ==> forall|i: int|
            0 <= i < tokens.len() ==> well_formed(#[trigger] tokens[i]),
{
    lemma_tokens_are_well_formed(source, 0);
}

} // verus!
