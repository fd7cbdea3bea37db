//! The three stages in a row: text to tokens, tokens to tree, tree to text.

use crate::codegen::{code_generator, render, CodeGenError, CodeGenErrorView};
use crate::grammar::{parse_block, ParserErrorView};
use crate::lexer::{lex, tokenise, TokenizerError};
use crate::parser::{parser, ParserError};
use vstd::prelude::*;

verus! {

/// The failure of one of the three stages.
#[derive(Debug, PartialEq, Eq)]
pub enum CompileError {
    Tokenizer(TokenizerError),
    Parser(ParserError),
    CodeGen(CodeGenError),
}

/// The mathematical value of a [`CompileError`].
pub enum CompileErrorView {
    Tokenizer(TokenizerError),
    Parser(ParserErrorView),
    CodeGen(CodeGenErrorView),
}

impl View for CompileError {
    type V = CompileErrorView;

    open spec fn view(&self) -> CompileErrorView {
        match *self {
            CompileError::Tokenizer(e) => CompileErrorView::Tokenizer(e),
            CompileError::Parser(e) => CompileErrorView::Parser(e@),
            CompileError::CodeGen(e) => CompileErrorView::CodeGen(e@),
        }
    }
}

/// The output text of the source text `source`: the text of the tree of its
/// tokens, or the failure of the first stage that fails. A `}` that closes no
/// block ends the program: what follows it is not read.
pub open spec fn output_of(source: Seq<char>) -> Result<Seq<char>, CompileErrorView> {
    match lex(source) {
        Err(e) => Err(CompileErrorView::Tokenizer(e)),
        Ok(tokens) => match parse_block(tokens, 0) {
            Err(e) => Err(CompileErrorView::Parser(e)),
            Ok((nodes, _)) => match render(nodes) {
                Err(e) => Err(CompileErrorView::CodeGen(e)),
                Ok(text) => Ok(text),
            },
        },
    }
}

/// The view of what [`compile`] returns.
pub open spec fn compiled(result: Result<String, CompileError>) -> Result<
    Seq<char>,
    CompileErrorView,
> {
    match result {
        Ok(text) => Ok(text@),
        Err(e) => Err(e@),
    }
}

/// Compiles a source text: tokenizer, parser and code generator in a row.
/// No stage recovers from a failure, its own or an earlier one.
pub fn compile(source: String) -> (result: Result<String, CompileError>)
    ensures
        compiled(result) == output_of(source@),
{
    match tokenise(source) {
        Err(e) => Err(CompileError::Tokenizer(e)),
        Ok(tokens) => match parser(0, tokens) {
            Err(e) => Err(CompileError::Parser(e)),
            Ok(output) => match code_generator(output.body) {
                Err(e) => Err(CompileError::CodeGen(e)),
                Ok(text) => Ok(text),
            },
        },
    }
}

} // verus!
