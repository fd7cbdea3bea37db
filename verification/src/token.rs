//! Tokens: the lexical units of the source language, and their views.

use vstd::prelude::*;

verus! {

/// The three kinds of bracket.
#[derive(Debug, Clone, Copy, PartialEq, Eq, Structural)]
pub enum Bracket {
    Curly,
    Square,
    Paren,
}

/// The single-character operators and separators.
#[derive(Debug, Clone, Copy, PartialEq, Eq, Structural)]
pub enum Symbol {
    /// `=`
    Equals,
    /// `+`
    Plus,
    /// `-`
    Minus,
    /// `*`
    Multiply,
    /// `/`
    Divide,
    /// `%`
    Modulo,
    /// `>`
    Greater,
    /// `<`
    Less,
    /// `.`
    Dot,
    /// `;`
    SemiColon,
    /// `!`
    Exclamation,
    /// `,`
    Colon,
    /// `:`
    DoubleColon,
}

/// A classified lexical unit. Tokens carry no source position.
#[derive(Debug, Clone, PartialEq, Eq)]
pub enum Token {
    BracketClose(Bracket),
    BracketOpen(Bracket),
    /// A run of decimal digits, kept as text.
    Number(String),
    /// The content of a quoted string, escapes already resolved.
    String(String),
    /// A letter followed by letters and digits: an identifier or a keyword.
    Char(String),
    Symbol(Symbol),
}

/// The mathematical value of a [`Token`]: the same shape, with text as a
/// sequence of code points.
pub enum TokenView {
    BracketClose(Bracket),
    BracketOpen(Bracket),
    Number(Seq<char>),
    String(Seq<char>),
    Char(Seq<char>),
    Symbol(Symbol),
}

impl View for Token {
    type V = TokenView;

    open spec fn view(&self) -> TokenView {
        match *self {
            Token::BracketClose(b) => TokenView::BracketClose(b),
            Token::BracketOpen(b) => TokenView::BracketOpen(b),
            Token::Number(s) => TokenView::Number(s@),
            Token::String(s) => TokenView::String(s@),
            Token::Char(s) => TokenView::Char(s@),
            Token::Symbol(s) => TokenView::Symbol(s),
        }
    }
}

impl DeepView for Token {
    type V = TokenView;

    open spec fn deep_view(&self) -> TokenView {
        self@
    }
}

impl Token {
    /// A copy of this token with the same view.
    pub fn duplicate(&self) -> (copy: Token)
        ensures
            copy@ == self@,
    {
        match self {
            Token::BracketClose(b) => Token::BracketClose(*b),
            Token::BracketOpen(b) => Token::BracketOpen(*b),
            Token::Number(s) => Token::Number(s.clone()),
            Token::String(s) => Token::String(s.clone()),
            Token::Char(s) => Token::Char(s.clone()),
            Token::Symbol(s) => Token::Symbol(*s),
        }
    }
}

} // verus!
