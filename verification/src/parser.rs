//! The parser: recursive descent over the tokens, one call for each block.

use crate::ast::{
    lemma_nodes_view_concat, lemma_nodes_view_push, nodes_view, Node, NodeView, Output,
};
use crate::grammar::{
    argument_node, argument_nodes, argument_run, arguments_until_paren, block_node, block_open,
    bound_at, call_statement, comma, condition_node, condition_nodes, condition_run,
    condition_until_block, else_statement, fn_statement, for_statement, if_statement, keyword_of,
    lemma_statement_advances, let_statement, loop_end, name_at, name_statement, nodes_then,
    parameter_node, parameter_nodes, parameter_run, parameters_until_paren, paren_close,
    paren_open, parse_block, parse_nested, semicolon, statement, token_is, unexpected,
    value_node, value_nodes, value_run, value_until_semicolon, while_statement, BlockHead,
    Expected, Keyword, Parsed, ParserErrorView, Statement, StatementRead, MAX_DEPTH,
};
use crate::text::{lower_by_one, text_is};
use crate::token::{Bracket, Symbol, Token, TokenView};
use vstd::prelude::*;

verus! {

/// Why a sequence of tokens is no program.
#[derive(Debug, Clone, PartialEq, Eq)]
pub enum ParserError {
    /// The token at `index` is not what the grammar asks for. At the end of
    /// the input there is no token: `found` is `None` and `index` is the
    /// number of tokens.
    UnexpectedToken { expected: Expected, found: Option<Token>, index: usize },
}

impl View for ParserError {
    type V = ParserErrorView;

    open spec fn view(&self) -> ParserErrorView {
        match *self {
            ParserError::UnexpectedToken { expected, found, index } => {
                ParserErrorView::UnexpectedToken {
                    expected,
                    found: match found {
                        Some(token) => Some(token@),
                        None => None,
                    },
                    index: index as int,
                }
            },
        }
    }
}

/// The view of nodes read together with an index.
spec fn read(result: Result<(Vec<Node>, usize), ParserError>) -> Parsed {
    match result {
        Ok((nodes, end)) => Ok((nodes_view(nodes@), end as int)),
        Err(e) => Err(e@),
    }
}

/// The token `offset` places behind index `at`, if the input reaches that far.
fn peek(tokens: &Vec<Token>, at: usize, offset: usize) -> (token: Option<&Token>)
    requires
        at <= tokens.len(),
    ensures
        match token {
            Some(t) => at + offset < tokens.len() && *t == tokens@[at + offset],
            None => at + offset >= tokens.len(),
        },
{
    if offset < tokens.len() - at {
        Some(&tokens[at + offset])
    } else {
        None
    }
}

/// The failure to find `expected` `offset` places behind index `at`.
fn unexpected_at(tokens: &Vec<Token>, expected: Expected, at: usize, offset: usize) -> (e:
    ParserError)
    requires
        at <= tokens.len(),
    ensures
        e@ == unexpected(tokens.deep_view(), expected, at + offset),
{
    match peek(tokens, at, offset) {
        Some(token) => ParserError::UnexpectedToken {
            expected,
            found: Some(token.duplicate()),
            index: at + offset,
        },
        None => ParserError::UnexpectedToken { expected, found: None, index: tokens.len() },
    }
}

/// Whether `token` is `;`.
fn is_semicolon(token: &Token) -> (yes: bool)
    ensures
        yes == (token@ == semicolon()),
{
    match token {
        Token::Symbol(Symbol::SemiColon) => true,
        _ => false,
    }
}

/// Whether `token` is `,`.
fn is_comma(token: &Token) -> (yes: bool)
    ensures
        yes == (token@ == comma()),
{
    match token {
        Token::Symbol(Symbol::Colon) => true,
        _ => false,
    }
}

/// Whether `token` is `=`.
fn is_equals(token: &Token) -> (yes: bool)
    ensures
        yes == (token@ == TokenView::Symbol(Symbol::Equals)),
{
    match token {
        Token::Symbol(Symbol::Equals) => true,
        _ => false,
    }
}

/// Whether `token` is `{`.
fn is_block_open(token: &Token) -> (yes: bool)
    ensures
        yes == (token@ == block_open()),
{
    match token {
        Token::BracketOpen(Bracket::Curly) => true,
        _ => false,
    }
}

/// Whether `token` is `(`.
fn is_paren_open(token: &Token) -> (yes: bool)
    ensures
        yes == (token@ == paren_open()),
{
    match token {
        Token::BracketOpen(Bracket::Paren) => true,
        _ => false,
    }
}

/// Whether `token` is `)`.
fn is_paren_close(token: &Token) -> (yes: bool)
    ensures
        yes == (token@ == paren_close()),
{
    match token {
        Token::BracketClose(Bracket::Paren) => true,
        _ => false,
    }
}

/// The node of `token` in a value.
fn to_value_node(token: &Token) -> (node: Node)
    ensures
        node@ == value_node(token@),
{
    match token {
        Token::Char(text) => Node::VariableCall(text.clone()),
        Token::Number(text) => Node::NumberLiteral(text.clone()),
        Token::String(text) => Node::NumberLiteral(text.clone()),
        Token::Symbol(symbol) => Node::Symbol(*symbol),
        Token::BracketOpen(bracket) => Node::BracketOpen(*bracket),
        Token::BracketClose(bracket) => Node::BracketClose(*bracket),
    }
}

/// The node of `token` in a condition.
fn to_condition_node(token: &Token) -> (node: Option<Node>)
    ensures
        match node {
            Some(n) => condition_node(token@) == Some(n@),
            None => condition_node(token@) is None,
        },
{
    match token {
        Token::Number(text) => Some(Node::NumberLiteral(text.clone())),
        Token::String(text) => Some(Node::StringLiteral(text.clone())),
        Token::Char(text) => Some(Node::VariableCall(text.clone())),
        Token::Symbol(symbol) => Some(Node::Symbol(*symbol)),
        _ => None,
    }
}

/// The node of `token` as an argument.
fn to_argument_node(token: &Token) -> (node: Option<Node>)
    ensures
        match node {
            Some(n) => argument_node(token@) == Some(n@),
            None => argument_node(token@) is None,
        },
{
    match token {
        Token::Char(text) => Some(Node::VariableCall(text.clone())),
        Token::Number(text) => Some(Node::NumberLiteral(text.clone())),
        Token::String(text) => Some(Node::StringLiteral(text.clone())),
        _ => None,
    }
}

/// The node of `token` as a parameter.
fn to_parameter_node(token: &Token) -> (node: Option<Node>)
    ensures
        match node {
            Some(n) => parameter_node(token@) == Some(n@),
            None => parameter_node(token@) is None,
        },
{
    match token {
        Token::Char(text) => Some(Node::VariableCall(text.clone())),
        _ => None,
    }
}

/// Reads a value from index `from` up to the next `;`.
fn read_value(tokens: &Vec<Token>, from: usize) -> (result: Result<(Vec<Node>, usize), ParserError>)
    requires
        from <= tokens.len(),
    ensures
        read(result) == value_until_semicolon(tokens.deep_view(), from as int),
{
    let ghost input = tokens.deep_view();
    let mut nodes: Vec<Node> = Vec::new();
    let mut i: usize = from;
    while i < tokens.len() && !is_semicolon(&tokens[i])
        invariant
            from <= i <= tokens.len(),
            input == tokens.deep_view(),
            value_run(input, from as int) == (i - from) + value_run(input, i as int),
            nodes_view(nodes@) == value_nodes(input.subrange(from as int, i as int)),
        decreases tokens.len() - i,
    {
        let node = to_value_node(&tokens[i]);
        proof {
            lemma_nodes_view_push(nodes@, node);
        }
        nodes.push(node);
        i = i + 1;
    }
    if i < tokens.len() {
        Ok((nodes, i))
    } else {
        Err(unexpected_at(tokens, Expected::Terminator, i, 0))
    }
}

/// Reads a condition from index `from` up to the next `{`.
fn read_condition(tokens: &Vec<Token>, from: usize) -> (result: Result<
    (Vec<Node>, usize),
    ParserError,
>)
    requires
        from <= tokens.len(),
    ensures
        read(result) == condition_until_block(tokens.deep_view(), from as int),
{
    let ghost input = tokens.deep_view();
    let mut nodes: Vec<Node> = Vec::new();
    let mut i: usize = from;
    while i < tokens.len()
        invariant
            from <= i <= tokens.len(),
            input == tokens.deep_view(),
            condition_run(input, from as int) == (i - from) + condition_run(input, i as int),
            nodes_view(nodes@) == condition_nodes(input.subrange(from as int, i as int)),
        decreases tokens.len() - i,
    {
        match to_condition_node(&tokens[i]) {
            Some(node) => {
                proof {
                    lemma_nodes_view_push(nodes@, node);
                }
                nodes.push(node);
                i = i + 1;
            },
            None => {
                if is_block_open(&tokens[i]) {
                    return Ok((nodes, i));
                } else {
                    return Err(unexpected_at(tokens, Expected::Condition, i, 0));
                }
            },
        }
    }
    Err(unexpected_at(tokens, Expected::Condition, i, 0))
}

/// Reads the arguments of a call from index `from` up to the next `)`.
fn read_arguments(tokens: &Vec<Token>, from: usize) -> (result: Result<
    (Vec<Node>, usize),
    ParserError,
>)
    requires
        from <= tokens.len(),
    ensures
        read(result) == arguments_until_paren(tokens.deep_view(), from as int),
{
    let ghost input = tokens.deep_view();
    let mut nodes: Vec<Node> = Vec::new();
    let mut i: usize = from;
    while i < tokens.len()
        invariant
            from <= i <= tokens.len(),
            input == tokens.deep_view(),
            argument_run(input, from as int) == (i - from) + argument_run(input, i as int),
            nodes_view(nodes@) == argument_nodes(input.subrange(from as int, i as int)),
        decreases tokens.len() - i,
    {
        proof {
            assert(input.subrange(from as int, i + 1).drop_last() =~= input.subrange(
                from as int,
                i as int,
            ));
        }
        match to_argument_node(&tokens[i]) {
            Some(node) => {
                proof {
                    lemma_nodes_view_push(nodes@, node);
                }
                nodes.push(node);
                i = i + 1;
            },
            None => {
                if is_comma(&tokens[i]) {
                    i = i + 1;
                } else if is_paren_close(&tokens[i]) {
                    return Ok((nodes, i + 1));
                } else {
                    return Err(unexpected_at(tokens, Expected::Argument, i, 0));
                }
            },
        }
    }
    Err(unexpected_at(tokens, Expected::Argument, i, 0))
}

/// Reads the parameters of a function from index `from` up to the next `)`.
fn read_parameters(tokens: &Vec<Token>, from: usize) -> (result: Result<
    (Vec<Node>, usize),
    ParserError,
>)
    requires
        from <= tokens.len(),
    ensures
        read(result) == parameters_until_paren(tokens.deep_view(), from as int),
{
    let ghost input = tokens.deep_view();
    let mut nodes: Vec<Node> = Vec::new();
    let mut i: usize = from;
    while i < tokens.len()
        invariant
            from <= i <= tokens.len(),
            input == tokens.deep_view(),
            parameter_run(input, from as int) == (i - from) + parameter_run(input, i as int),
            nodes_view(nodes@) == parameter_nodes(input.subrange(from as int, i as int)),
        decreases tokens.len() - i,
    {
        proof {
            assert(input.subrange(from as int, i + 1).drop_last() =~= input.subrange(
                from as int,
                i as int,
            ));
        }
        match to_parameter_node(&tokens[i]) {
            Some(node) => {
                proof {
                    lemma_nodes_view_push(nodes@, node);
                }
                nodes.push(node);
                i = i + 1;
            },
            None => {
                if is_comma(&tokens[i]) {
                    i = i + 1;
                } else if is_paren_close(&tokens[i]) {
                    return Ok((nodes, i + 1));
                } else {
                    return Err(unexpected_at(tokens, Expected::Parameter, i, 0));
                }
            },
        }
    }
    Err(unexpected_at(tokens, Expected::Parameter, i, 0))
}

/// The keyword that `word` spells.
fn keyword(word: &String) -> (found: Option<Keyword>)
    ensures
        found == keyword_of(word@),
{
    if text_is(word, "let") {
        Some(Keyword::Let)
    } else if text_is(word, "if") {
        Some(Keyword::If)
    } else if text_is(word, "else") {
        Some(Keyword::Else)
    } else if text_is(word, "while") {
        Some(Keyword::While)
    } else if text_is(word, "for") {
        Some(Keyword::For)
    } else if text_is(word, "fn") {
        Some(Keyword::Fn)
    } else {
        None
    }
}

/// A statement that holds a block, without the block.
enum Head {
    If { condition: Vec<Node> },
    Else,
    While { condition: Vec<Node> },
    For { var_name: String, start: String, end: String },
    Function { name: String, params: Vec<Node> },
}

impl View for Head {
    type V = BlockHead;

    closed spec fn view(&self) -> BlockHead {
        match *self {
            Head::If { condition } => BlockHead::If { condition: nodes_view(condition@) },
            Head::Else => BlockHead::Else,
            Head::While { condition } => BlockHead::While { condition: nodes_view(condition@) },
            Head::For { var_name, start, end } => BlockHead::For {
                var_name: var_name@,
                start: start@,
                end: end@,
            },
            Head::Function { name, params } => BlockHead::Function {
                name: name@,
                params: nodes_view(params@),
            },
        }
    }
}

/// What stands at the start of a statement.
enum Step {
    Plain { nodes: Vec<Node>, next: usize },
    Block { head: Head, body_start: usize },
}

/// The view of a statement read.
spec fn stepped(result: Result<Step, ParserError>) -> StatementRead {
    match result {
        Ok(Step::Plain { nodes, next }) => Ok(
            Statement::Plain { nodes: nodes_view(nodes@), next: next as int },
        ),
        Ok(Step::Block { head, body_start }) => Ok(
            Statement::Block { head: head@, body_start: body_start as int },
        ),
        Err(e) => Err(e@),
    }
}

/// The node of the statement `head` with the block `body`.
fn make_block(head: Head, body: Vec<Node>) -> (node: Node)
    ensures
        node@ == block_node(head@, nodes_view(body@)),
{
    match head {
        Head::If { condition } => Node::IfStatement { condition, body },
        Head::Else => Node::ElseStatement { body },
        Head::While { condition } => Node::WhileLoop { condition, body },
        Head::For { var_name, start, end } => Node::ForLoop { var_name, start, end, body },
        Head::Function { name, params } => Node::Function { name, params, body },
    }
}

/// The text of the identifier `offset` places behind index `at`.
fn read_name(tokens: &Vec<Token>, at: usize, offset: usize) -> (name: Option<String>)
    requires
        at <= tokens.len(),
    ensures
        match name {
            Some(text) => name_at(tokens.deep_view(), at + offset) == Some(text@),
            None => name_at(tokens.deep_view(), at + offset) is None,
        },
{
    match peek(tokens, at, offset) {
        Some(Token::Char(text)) => Some(text.clone()),
        _ => None,
    }
}

/// The text of the number or identifier `offset` places behind index `at`.
fn read_bound(tokens: &Vec<Token>, at: usize, offset: usize) -> (bound: Option<String>)
    requires
        at <= tokens.len(),
    ensures
        match bound {
            Some(text) => bound_at(tokens.deep_view(), at + offset) == Some(text@),
            None => bound_at(tokens.deep_view(), at + offset) is None,
        },
{
    match peek(tokens, at, offset) {
        Some(Token::Number(text)) => Some(text.clone()),
        Some(Token::Char(text)) => Some(text.clone()),
        _ => None,
    }
}

/// The single tokens that the grammar asks for by name.
#[derive(Clone, Copy)]
enum Wanted {
    BlockOpen,
    ParenOpen,
    Equals,
}

impl View for Wanted {
    type V = TokenView;

    closed spec fn view(&self) -> TokenView {
        match *self {
            Wanted::BlockOpen => block_open(),
            Wanted::ParenOpen => paren_open(),
            Wanted::Equals => TokenView::Symbol(Symbol::Equals),
        }
    }
}

/// Whether the token `offset` places behind index `at` is the one that
/// `wanted` accepts.
fn follows(tokens: &Vec<Token>, at: usize, offset: usize, wanted: Wanted) -> (yes: bool)
    requires
        at <= tokens.len(),
    ensures
        yes == token_is(tokens.deep_view(), at + offset, wanted@),
{
    match peek(tokens, at, offset) {
        Some(token) => match wanted {
            Wanted::BlockOpen => is_block_open(token),
            Wanted::ParenOpen => is_paren_open(token),
            Wanted::Equals => is_equals(token),
        },
        None => false,
    }
}

/// Reads a declaration, `let` at index `at`.
fn read_let(tokens: &Vec<Token>, at: usize) -> (result: Result<Step, ParserError>)
    requires
        at < tokens.len(),
    ensures
        stepped(result) == let_statement(tokens.deep_view(), at as int),
{
    match read_name(tokens, at, 1) {
        None => Err(unexpected_at(tokens, Expected::Name, at, 1)),
        Some(name) => match read_value(tokens, at + 2) {
            Err(e) => Err(e),
            Ok((value, end)) => {
                let mut nodes: Vec<Node> = Vec::new();
                let node = Node::Variable { name, value };
                proof {
                    lemma_nodes_view_push(nodes@, node);
                }
                nodes.push(node);
                Ok(Step::Plain { nodes, next: end })
            },
        },
    }
}

/// Reads the head of `if`, at index `at`.
fn read_if(tokens: &Vec<Token>, at: usize) -> (result: Result<Step, ParserError>)
    requires
        at < tokens.len(),
    ensures
        stepped(result) == if_statement(tokens.deep_view(), at as int),
{
    match read_condition(tokens, at + 1) {
        Err(e) => Err(e),
        Ok((condition, brace)) => Ok(
            Step::Block { head: Head::If { condition }, body_start: brace + 1 },
        ),
    }
}

/// Reads the head of `while`, at index `at`.
fn read_while(tokens: &Vec<Token>, at: usize) -> (result: Result<Step, ParserError>)
    requires
        at < tokens.len(),
    ensures
        stepped(result) == while_statement(tokens.deep_view(), at as int),
{
    match read_condition(tokens, at + 1) {
        Err(e) => Err(e),
        Ok((condition, brace)) => Ok(
            Step::Block { head: Head::While { condition }, body_start: brace + 1 },
        ),
    }
}

/// Reads the head of `else`, at index `at`.
fn read_else(tokens: &Vec<Token>, at: usize) -> (result: Result<Step, ParserError>)
    requires
        at < tokens.len(),
    ensures
        stepped(result) == else_statement(tokens.deep_view(), at as int),
{
    if follows(tokens, at, 1, Wanted::BlockOpen) {
        Ok(Step::Block { head: Head::Else, body_start: at + 2 })
    } else {
        Err(unexpected_at(tokens, Expected::BlockOpen, at, 1))
    }
}

/// Reads the upper bound of a counting loop, looked for `offset` places
/// behind index `at`: its text, and how far behind `at` it stands.
fn read_loop_end(tokens: &Vec<Token>, at: usize, offset: usize) -> (result: Result<
    (String, usize),
    ParserError,
>)
    requires
        at <= tokens.len(),
        offset < usize::MAX,
    ensures
        match result {
            Ok((text, found)) => loop_end(tokens.deep_view(), at + offset) == Ok::<
                (Seq<char>, int),
                ParserErrorView,
            >((text@, at + found)) && found <= offset + 1 && at + found < tokens.len(),
            Err(e) => loop_end(tokens.deep_view(), at + offset) == Err::<
                (Seq<char>, int),
                ParserErrorView,
            >(e@),
        },
{
    let symbol = match peek(tokens, at, offset) {
        Some(Token::Symbol(_)) => true,
        _ => false,
    };
    if symbol {
        match read_bound(tokens, at, offset + 1) {
            None => Err(unexpected_at(tokens, Expected::Bound, at, offset + 1)),
            Some(text) => match lower_by_one(&text) {
                None => Err(unexpected_at(tokens, Expected::LowerableBound, at, offset + 1)),
                Some(lower) => Ok((lower, offset + 1)),
            },
        }
    } else {
        match read_bound(tokens, at, offset) {
            None => Err(unexpected_at(tokens, Expected::Bound, at, offset)),
            Some(text) => Ok((text, offset)),
        }
    }
}

/// Reads the head of `for`, at index `at`.
fn read_for(tokens: &Vec<Token>, at: usize) -> (result: Result<Step, ParserError>)
    requires
        at < tokens.len(),
    ensures
        stepped(result) == for_statement(tokens.deep_view(), at as int),
{
    match read_name(tokens, at, 1) {
        None => Err(unexpected_at(tokens, Expected::Name, at, 1)),
        Some(var_name) => match read_bound(tokens, at, 3) {
            None => Err(unexpected_at(tokens, Expected::Bound, at, 3)),
            Some(start) => match read_loop_end(tokens, at, 6) {
                Err(e) => Err(e),
                Ok((end, found)) => {
                    if follows(tokens, at, found + 1, Wanted::BlockOpen) {
                        Ok(
                            Step::Block {
                                head: Head::For { var_name, start, end },
                                body_start: at + found + 2,
                            },
                        )
                    } else {
                        Err(unexpected_at(tokens, Expected::BlockOpen, at, found + 1))
                    }
                },
            },
        },
    }
}

/// Reads the head of `fn`, at index `at`.
fn read_fn(tokens: &Vec<Token>, at: usize) -> (result: Result<Step, ParserError>)
    requires
        at < tokens.len(),
    ensures
        stepped(result) == fn_statement(tokens.deep_view(), at as int),
{
    match read_name(tokens, at, 1) {
        None => Err(unexpected_at(tokens, Expected::Name, at, 1)),
        Some(name) => {
            if !follows(tokens, at, 2, Wanted::ParenOpen) {
                Err(unexpected_at(tokens, Expected::ParenOpen, at, 2))
            } else {
                match read_parameters(tokens, at + 3) {
                    Err(e) => Err(e),
                    Ok((params, behind)) => {
                        if follows(tokens, behind, 0, Wanted::BlockOpen) {
                            Ok(
                                Step::Block {
                                    head: Head::Function { name, params },
                                    body_start: behind + 1,
                                },
                            )
                        } else {
                            Err(unexpected_at(tokens, Expected::BlockOpen, behind, 0))
                        }
                    },
                }
            }
        },
    }
}

/// Reads a call of `name`, which stands at index `at` with `(` behind it.
fn read_call(tokens: &Vec<Token>, at: usize, name: &String) -> (result: Result<Step, ParserError>)
    requires
        at + 1 < tokens.len(),
    ensures
        stepped(result) == call_statement(tokens.deep_view(), at as int, name@),
{
    match read_arguments(tokens, at + 2) {
        Err(e) => Err(e),
        Ok((args, behind)) => {
            let mut nodes: Vec<Node> = Vec::new();
            let node = Node::FunctionCall { name: name.clone(), args };
            proof {
                lemma_nodes_view_push(nodes@, node);
            }
            nodes.push(node);
            Ok(Step::Plain { nodes, next: behind })
        },
    }
}

/// Reads a use of `name`, which stands at index `at`, and the assignment
/// behind it if there is one.
fn read_use(tokens: &Vec<Token>, at: usize, name: &String) -> (result: Result<Step, ParserError>)
    requires
        at < tokens.len(),
    ensures
        stepped(result) == name_statement(tokens.deep_view(), at as int, name@),
{
    let mut nodes: Vec<Node> = Vec::new();
    let node = Node::VariableCall(name.clone());
    proof {
        lemma_nodes_view_push(nodes@, node);
    }
    nodes.push(node);
    if follows(tokens, at, 1, Wanted::Equals) {
        match read_value(tokens, at + 2) {
            Err(e) => Err(e),
            Ok((value, end)) => {
                let equals = Node::Symbol(Symbol::Equals);
                let mut value = value;
                proof {
                    lemma_nodes_view_push(nodes@, equals);
                    lemma_nodes_view_concat(nodes@.push(equals), value@);
                    assert(seq![node@].push(equals@) =~= seq![node@, equals@]);
                }
                nodes.push(equals);
                nodes.append(&mut value);
                Ok(Step::Plain { nodes, next: end })
            },
        }
    } else {
        Ok(Step::Plain { nodes, next: at + 1 })
    }
}

/// Reads the statement that the identifier `word` at index `at` starts.
fn read_statement(tokens: &Vec<Token>, at: usize, word: &String) -> (result: Result<
    Step,
    ParserError,
>)
    requires
        at < tokens.len(),
    ensures
        stepped(result) == statement(tokens.deep_view(), at as int, word@),
{
    match keyword(word) {
        Some(Keyword::Let) => read_let(tokens, at),
        Some(Keyword::If) => read_if(tokens, at),
        Some(Keyword::Else) => read_else(tokens, at),
        Some(Keyword::While) => read_while(tokens, at),
        Some(Keyword::For) => read_for(tokens, at),
        Some(Keyword::Fn) => read_fn(tokens, at),
        None => {
            if follows(tokens, at, 1, Wanted::ParenOpen) {
                read_call(tokens, at, word)
            } else {
                read_use(tokens, at, word)
            }
        },
    }
}

/// Nodes in front of nodes in front of a rest are the joined nodes in front
/// of the rest.
proof fn lemma_nodes_then_joins(front: Seq<NodeView>, nodes: Seq<NodeView>, rest: Parsed)
    ensures
        nodes_then(front, nodes_then(nodes, rest)) == nodes_then(front + nodes, rest),
{
    match rest {
        Ok((more, _)) => {
            assert(front + (nodes + more) =~= (front + nodes) + more);
        },
        Err(_) => {},
    }
}

/// Nodes in front of a block that holds nothing are the nodes.
proof fn lemma_nodes_then_nothing(front: Seq<NodeView>, end: int)
    ensures
        nodes_then(front, Ok((Seq::empty(), end))) == Ok::<(Seq<NodeView>, int), ParserErrorView>(
            (front, end),
        ),
{
}

/// A block that starts with `;` is the statement boundary, then the block
/// behind it.
proof fn lemma_block_boundary(input: Seq<TokenView>, at: int, depth: nat)
    requires
        0 <= at < input.len(),
        input[at] == semicolon(),
    ensures
        parse_nested(input, at, depth) == nodes_then(
            seq![NodeView::NewLine],
            parse_nested(input, at + 1, depth),
        ),
{
}

/// A block that starts with a statement without a block is the statement's
/// nodes, then the block behind the statement.
proof fn lemma_block_plain(
    input: Seq<TokenView>,
    at: int,
    depth: nat,
    word: Seq<char>,
    nodes: Seq<NodeView>,
    next: int,
)
    requires
        0 <= at < input.len(),
        input[at] == TokenView::Char(word),
        statement(input, at, word) == Ok::<Statement, ParserErrorView>(
            Statement::Plain { nodes, next },
        ),
    ensures
        parse_nested(input, at, depth) == nodes_then(nodes, parse_nested(input, next, depth)),
{
}

/// A block that starts with a statement that fails, fails.
proof fn lemma_block_fails(
    input: Seq<TokenView>,
    at: int,
    depth: nat,
    word: Seq<char>,
    e: ParserErrorView,
)
    requires
        0 <= at < input.len(),
        input[at] == TokenView::Char(word),
        statement(input, at, word) == Err::<Statement, ParserErrorView>(e),
    ensures
        parse_nested(input, at, depth) == Err::<(Seq<NodeView>, int), ParserErrorView>(e),
{
}

/// A block that starts with a statement that holds a block is that
/// statement's node, then the block behind the inner block's `}`; it fails
/// where no deeper block is allowed, and where the inner block fails or
/// does not end at a `}`.
proof fn lemma_block_nested(
    input: Seq<TokenView>,
    at: int,
    depth: nat,
    word: Seq<char>,
    head: BlockHead,
    body_start: int,
)
    requires
        0 <= at < input.len(),
        input[at] == TokenView::Char(word),
        statement(input, at, word) == Ok::<Statement, ParserErrorView>(
            Statement::Block { head, body_start },
        ),
    ensures
        parse_nested(input, at, depth) == if depth == 0 {
            Err(unexpected(input, Expected::ShallowerNesting, body_start - 1))
        } else {
            match parse_nested(input, body_start, (depth - 1) as nat) {
                Err(e) => Err(e),
                Ok((body, end)) => if body_start <= end < input.len() {
                    nodes_then(seq![block_node(head, body)], parse_nested(input, end + 1, depth))
                } else {
                    Err(unexpected(input, Expected::BlockClose, end))
                },
            }
        },
{
}

/// The view of what a parse returns.
pub open spec fn parsed(result: Result<Output, ParserError>) -> Parsed {
    match result {
        Ok(output) => Ok(output@),
        Err(e) => Err(e@),
    }
}

/// Parses the block that starts at index `start`, in which blocks may nest
/// `depth` deep, on borrowed tokens. The result is exactly [`parse_nested`].
pub fn parse_tokens(tokens: &Vec<Token>, start: usize, depth: usize) -> (result: Result<
    Output,
    ParserError,
>)
    ensures
        parsed(result) == parse_nested(tokens.deep_view(), start as int, depth as nat),
        result matches Ok(output) ==> start <= output.end_index,
    decreases tokens.len() - start,
{
    let ghost input = tokens.deep_view();
    let ghost levels = depth as nat;
    let mut body: Vec<Node> = Vec::new();
    let mut i: usize = start;
    proof {
        lemma_nodes_then_joins(
            nodes_view(body@),
            Seq::empty(),
            parse_nested(input, start as int, levels),
        );
        lemma_nodes_then_joins(
            Seq::empty(),
            Seq::empty(),
            parse_nested(input, start as int, levels),
        );
    }
    while i < tokens.len()
        invariant
            start <= i,
            input == tokens.deep_view(),
            levels == depth as nat,
            parse_nested(input, start as int, levels) == nodes_then(
                nodes_view(body@),
                parse_nested(input, i as int, levels),
            ),
        decreases tokens.len() - i,
    {
        let ghost before = nodes_view(body@);
        match &tokens[i] {
            Token::BracketClose(Bracket::Curly) => {
                proof {
                    lemma_nodes_then_nothing(before, i as int);
                }
                return Ok(Output { body, end_index: i });
            },
            Token::Symbol(Symbol::SemiColon) => {
                let node = Node::NewLine;
                proof {
                    lemma_nodes_view_push(body@, node);
                    lemma_block_boundary(input, i as int, levels);
                    lemma_nodes_then_joins(
                        before,
                        seq![node@],
                        parse_nested(input, i + 1, levels),
                    );
                }
                body.push(node);
                i = i + 1;
            },
            Token::Char(word) => {
                proof {
                    lemma_statement_advances(input, i as int, word@);
                }
                match read_statement(tokens, i, word) {
                    Err(e) => {
                        proof {
                            lemma_block_fails(input, i as int, levels, word@, e@);
                        }
                        return Err(e);
                    },
                    Ok(Step::Plain { nodes, next }) => {
                        let mut nodes = nodes;
                        proof {
                            lemma_nodes_view_concat(body@, nodes@);
                            lemma_block_plain(
                                input,
                                i as int,
                                levels,
                                word@,
                                nodes_view(nodes@),
                                next as int,
                            );
                            lemma_nodes_then_joins(
                                before,
                                nodes_view(nodes@),
                                parse_nested(input, next as int, levels),
                            );
                        }
                        body.append(&mut nodes);
                        i = next;
                    },
                    Ok(Step::Block { head, body_start }) => {
                        proof {
                            lemma_block_nested(
                                input,
                                i as int,
                                levels,
                                word@,
                                head@,
                                body_start as int,
                            );
                        }
                        if depth == 0 {
                            return Err(
                                unexpected_at(
                                    tokens,
                                    Expected::ShallowerNesting,
                                    body_start - 1,
                                    0,
                                ),
                            );
                        }
                        match parse_tokens(tokens, body_start, depth - 1) {
                            Err(e) => {
                                return Err(e);
                            },
                            Ok(inner) => {
                                if inner.end_index < tokens.len() {
                                    let end = inner.end_index;
                                    let node = make_block(head, inner.body);
                                    proof {
                                        lemma_nodes_view_push(body@, node);
                                        lemma_nodes_then_joins(
                                            before,
                                            seq![node@],
                                            parse_nested(input, end + 1, levels),
                                        );
                                    }
                                    body.push(node);
                                    i = end + 1;
                                } else {
                                    let end = tokens.len();
                                    return Err(
                                        unexpected_at(tokens, Expected::BlockClose, end, 0),
                                    );
                                }
                            },
                        }
                    },
                }
            },
            _ => {
                return Err(unexpected_at(tokens, Expected::Statement, i, 0));
            },
        }
    }
    proof {
        lemma_nodes_then_nothing(nodes_view(body@), i as int);
    }
    Ok(Output { body, end_index: i })
}

/// Parses the block that starts at index `start`.
///
/// The result is exactly [`parse_block`] of the tokens: the nodes of the
/// block with the index of the `}` that closes it, or with the index at
/// which the input ends; or the first failure met from the left.
pub fn parser(start: usize, tokens: Vec<Token>) -> (result: Result<Output, ParserError>)
    ensures
        parsed(result) == parse_block(tokens.deep_view(), start as int),
{
    parse_tokens(&tokens, start, MAX_DEPTH)
}

} // verus!
