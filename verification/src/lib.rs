//! A small source-to-source compiler: text is split into tokens, the tokens
//! are parsed into a tree of nodes, and the tree is rendered as text in a
//! JavaScript-like syntax.
//!
//! Every stage has a mathematical model (a `spec` function over sequences of
//! code points, token views and node views) and an executable function that
//! is proved to compute exactly that model:
//!
//! | stage | executable | model |
//! |---|---|---|
//! | tokenizer | [`tokenise`] | [`lexer::lex`] |
//! | parser | [`parser()`] | [`grammar::parse_block`] |
//! | code generator | [`code_generator`] | [`codegen::render`] |
//! | all three | [`compile`] | [`pipeline::output_of`] |
//!
//! What holds of these models for every input is proved in [`theorems`] and,
//! for the tokenizer, next to [`lexer::lex`].

pub mod ast;
pub mod classes;
pub mod codegen;
pub mod grammar;
pub mod lexer;
pub mod parser;
pub mod pipeline;
pub mod text;
pub mod theorems;
pub mod token;

pub use ast::{Node, NodeView, Output};
pub use codegen::{code_generator, CodeGenError};
pub use grammar::Expected;
pub use lexer::{tokenise, TokenizerError};
pub use parser::{parser, ParserError};
pub use pipeline::{compile, CompileError};
pub use token::{Bracket, Symbol, Token, TokenView};
