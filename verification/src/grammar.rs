//! The grammar: what a sequence of tokens means, as functions on token views.
//!
//! A block is a sequence of statements. A statement starts with an identifier
//! or is a bare `;`; a `}` ends the block. Statements with a body (`if`, `else`,
//! `while`, `for`, `fn`) hold a nested block between `{` and `}`.

use crate::ast::NodeView;
use crate::text::lowered;
use crate::token::{Bracket, Symbol, TokenView};
use vstd::prelude::*;

verus! {

/// What the parser was looking for where it failed.
#[derive(Debug, Clone, Copy, PartialEq, Eq, Structural)]
pub enum Expected {
    /// The start of a statement: an identifier, `;` or `}`.
    Statement,
    /// The name that follows `let`, `for` or `fn`.
    Name,
    /// The `;` that ends a declaration or an assignment.
    Terminator,
    /// A term of a condition (number, string, identifier, symbol) or the `{`
    /// behind the condition.
    Condition,
    /// The `{` that opens a block.
    BlockOpen,
    /// The `}` that closes a block.
    BlockClose,
    /// The `(` that opens a parameter list.
    ParenOpen,
    /// A loop bound: a number or an identifier.
    Bound,
    /// A loop bound that can be lowered by one: a number from one to the
    /// largest `usize`.
    LowerableBound,
    /// A parameter name, `,` or `)`.
    Parameter,
    /// An argument (identifier, number, string), `,` or `)`.
    Argument,
    /// A block that lies no deeper than [`MAX_DEPTH`] blocks inside the block
    /// that is parsed; the token found is the `{` of the block that does.
    ShallowerNesting,
}

/// How deep blocks may nest inside the block that is parsed. The limit keeps
/// the depth of the parser's recursion, one call for each open block, bounded
/// whatever the input.
pub const MAX_DEPTH: usize = 128;

/// The mathematical value of a parse failure.
pub enum ParserErrorView {
    /// The token at `index` is not what the grammar asks for. At the end of
    /// the input there is no token: `found` is `None` and `index` is the
    /// number of tokens.
    UnexpectedToken { expected: Expected, found: Option<TokenView>, index: int },
}

/// The outcome of parsing: nodes and an index, or a failure.
pub type Parsed = Result<(Seq<NodeView>, int), ParserErrorView>;

/// The failure to find `expected` at index `at`.
pub open spec fn unexpected(
    tokens: Seq<TokenView>,
    expected: Expected,
    at: int,
) -> ParserErrorView {
    if 0 <= at < tokens.len() {
        ParserErrorView::UnexpectedToken { expected, found: Some(tokens[at]), index: at }
    } else {
        ParserErrorView::UnexpectedToken { expected, found: None, index: tokens.len() as int }
    }
}

/// Whether the token at index `at` exists and is `token`.
pub open spec fn token_is(tokens: Seq<TokenView>, at: int, token: TokenView) -> bool {
    0 <= at < tokens.len() && tokens[at] == token
}

/// The words that start a statement of their own.
#[derive(Debug, Clone, Copy, PartialEq, Eq, Structural)]
pub enum Keyword {
    Let,
    If,
    Else,
    While,
    For,
    Fn,
}

/// The keyword that `word` spells, if any.
pub open spec fn keyword_of(word: Seq<char>) -> Option<Keyword> {
    if word == "let"@ {
        Some(Keyword::Let)
    } else if word == "if"@ {
        Some(Keyword::If)
    } else if word == "else"@ {
        Some(Keyword::Else)
    } else if word == "while"@ {
        Some(Keyword::While)
    } else if word == "for"@ {
        Some(Keyword::For)
    } else if word == "fn"@ {
        Some(Keyword::Fn)
    } else {
        None
    }
}

/// The node that a token becomes in the value of a declaration or of an
/// assignment. A string becomes a number literal there.
pub open spec fn value_node(token: TokenView) -> NodeView {
    match token {
        TokenView::Char(text) => NodeView::VariableCall(text),
        TokenView::Number(text) => NodeView::NumberLiteral(text),
        TokenView::String(text) => NodeView::NumberLiteral(text),
        TokenView::Symbol(symbol) => NodeView::Symbol(symbol),
        TokenView::BracketOpen(bracket) => NodeView::BracketOpen(bracket),
        TokenView::BracketClose(bracket) => NodeView::BracketClose(bracket),
    }
}

/// The node that a token becomes in a condition; brackets have none.
pub open spec fn condition_node(token: TokenView) -> Option<NodeView> {
    match token {
        TokenView::Number(text) => Some(NodeView::NumberLiteral(text)),
        TokenView::String(text) => Some(NodeView::StringLiteral(text)),
        TokenView::Char(text) => Some(NodeView::VariableCall(text)),
        TokenView::Symbol(symbol) => Some(NodeView::Symbol(symbol)),
        _ => None,
    }
}

/// The node that a token becomes as an argument of a call.
pub open spec fn argument_node(token: TokenView) -> Option<NodeView> {
    match token {
        TokenView::Char(text) => Some(NodeView::VariableCall(text)),
        TokenView::Number(text) => Some(NodeView::NumberLiteral(text)),
        TokenView::String(text) => Some(NodeView::StringLiteral(text)),
        _ => None,
    }
}

/// The node that a token becomes as a parameter of a function.
pub open spec fn parameter_node(token: TokenView) -> Option<NodeView> {
    match token {
        TokenView::Char(text) => Some(NodeView::VariableCall(text)),
        _ => None,
    }
}

/// The `,` that separates the items of a list.
pub open spec fn comma() -> TokenView {
    TokenView::Symbol(Symbol::Colon)
}

/// The `;` that ends a statement.
pub open spec fn semicolon() -> TokenView {
    TokenView::Symbol(Symbol::SemiColon)
}

/// The `{` that opens a block.
pub open spec fn block_open() -> TokenView {
    TokenView::BracketOpen(Bracket::Curly)
}

/// The `}` that closes a block.
pub open spec fn block_close() -> TokenView {
    TokenView::BracketClose(Bracket::Curly)
}

/// The `(` that opens a list.
pub open spec fn paren_open() -> TokenView {
    TokenView::BracketOpen(Bracket::Paren)
}

/// The `)` that closes a list.
pub open spec fn paren_close() -> TokenView {
    TokenView::BracketClose(Bracket::Paren)
}

/// How many tokens other than `;` stand in a row from index `from` on.
pub open spec fn value_run(tokens: Seq<TokenView>, from: int) -> nat
    decreases tokens.len() - from,
{
    if 0 <= from < tokens.len() && tokens[from] != semicolon() {
        1 + value_run(tokens, from + 1)
    } else {
        0
    }
}

/// How many condition terms stand in a row from index `from` on.
pub open spec fn condition_run(tokens: Seq<TokenView>, from: int) -> nat
    decreases tokens.len() - from,
{
    if 0 <= from < tokens.len() && condition_node(tokens[from]) is Some {
        1 + condition_run(tokens, from + 1)
    } else {
        0
    }
}

/// How many arguments and commas stand in a row from index `from` on.
pub open spec fn argument_run(tokens: Seq<TokenView>, from: int) -> nat
    decreases tokens.len() - from,
{
    if 0 <= from < tokens.len() && (argument_node(tokens[from]) is Some || tokens[from]
        == comma()) {
        1 + argument_run(tokens, from + 1)
    } else {
        0
    }
}

/// How many parameter names and commas stand in a row from index `from` on.
pub open spec fn parameter_run(tokens: Seq<TokenView>, from: int) -> nat
    decreases tokens.len() - from,
{
    if 0 <= from < tokens.len() && (parameter_node(tokens[from]) is Some || tokens[from]
        == comma()) {
        1 + parameter_run(tokens, from + 1)
    } else {
        0
    }
}

/// The value nodes of `tokens`, one for each token.
pub open spec fn value_nodes(tokens: Seq<TokenView>) -> Seq<NodeView> {
    Seq::new(tokens.len(), |k: int| value_node(tokens[k]))
}

/// The condition nodes of `tokens`, one for each token.
pub open spec fn condition_nodes(tokens: Seq<TokenView>) -> Seq<NodeView> {
    Seq::new(tokens.len(), |k: int| condition_node(tokens[k]).unwrap())
}

/// The argument nodes of `tokens`: one for each token that is an argument,
/// none for the commas.
pub open spec fn argument_nodes(tokens: Seq<TokenView>) -> Seq<NodeView>
    decreases tokens.len(),
{
    if tokens.len() == 0 {
        Seq::empty()
    } else {
        match argument_node(tokens.last()) {
            Some(node) => argument_nodes(tokens.drop_last()).push(node),
            None => argument_nodes(tokens.drop_last()),
        }
    }
}

/// The parameter nodes of `tokens`: one for each token that is a name, none
/// for the commas.
pub open spec fn parameter_nodes(tokens: Seq<TokenView>) -> Seq<NodeView>
    decreases tokens.len(),
{
    if tokens.len() == 0 {
        Seq::empty()
    } else {
        match parameter_node(tokens.last()) {
            Some(node) => parameter_nodes(tokens.drop_last()).push(node),
            None => parameter_nodes(tokens.drop_last()),
        }
    }
}

/// The value that starts at index `from` and runs up to the next `;`: its
/// nodes and the index of that `;`, which stays unread.
pub open spec fn value_until_semicolon(tokens: Seq<TokenView>, from: int) -> Parsed {
    let end = from + value_run(tokens, from);
    if 0 <= from <= end < tokens.len() {
        Ok((value_nodes(tokens.subrange(from, end)), end))
    } else {
        Err(unexpected(tokens, Expected::Terminator, end))
    }
}

/// The condition that starts at index `from` and runs up to the next `{`:
/// its nodes and the index of that `{`.
pub open spec fn condition_until_block(tokens: Seq<TokenView>, from: int) -> Parsed {
    let end = from + condition_run(tokens, from);
    if 0 <= from <= end && token_is(tokens, end, block_open()) {
        Ok((condition_nodes(tokens.subrange(from, end)), end))
    } else {
        Err(unexpected(tokens, Expected::Condition, end))
    }
}

/// The arguments that start at index `from` and run up to the next `)`:
/// their nodes and the index behind that `)`.
pub open spec fn arguments_until_paren(tokens: Seq<TokenView>, from: int) -> Parsed {
    let end = from + argument_run(tokens, from);
    if 0 <= from <= end && token_is(tokens, end, paren_close()) {
        Ok((argument_nodes(tokens.subrange(from, end)), end + 1))
    } else {
        Err(unexpected(tokens, Expected::Argument, end))
    }
}

/// The parameters that start at index `from` and run up to the next `)`:
/// their nodes and the index behind that `)`.
pub open spec fn parameters_until_paren(tokens: Seq<TokenView>, from: int) -> Parsed {
    let end = from + parameter_run(tokens, from);
    if 0 <= from <= end && token_is(tokens, end, paren_close()) {
        Ok((parameter_nodes(tokens.subrange(from, end)), end + 1))
    } else {
        Err(unexpected(tokens, Expected::Parameter, end))
    }
}

/// A statement that holds a block, without the block.
pub enum BlockHead {
    If { condition: Seq<NodeView> },
    Else,
    While { condition: Seq<NodeView> },
    For { var_name: Seq<char>, start: Seq<char>, end: Seq<char> },
    Function { name: Seq<char>, params: Seq<NodeView> },
}

/// The node of the statement `head` with the block `body`.
pub open spec fn block_node(head: BlockHead, body: Seq<NodeView>) -> NodeView {
    match head {
        BlockHead::If { condition } => NodeView::IfStatement { condition, body },
        BlockHead::Else => NodeView::ElseStatement { body },
        BlockHead::While { condition } => NodeView::WhileLoop { condition, body },
        BlockHead::For { var_name, start, end } => NodeView::ForLoop { var_name, start, end, body },
        BlockHead::Function { name, params } => NodeView::Function { name, params, body },
    }
}

/// What stands at the start of a statement.
pub enum Statement {
    /// A statement without a block: its nodes, and the index behind it.
    Plain { nodes: Seq<NodeView>, next: int },
    /// A statement with a block: its head, and the index at which the block's
    /// first statement starts, just behind the `{`.
    Block { head: BlockHead, body_start: int },
}

/// The outcome of reading the start of a statement.
pub type StatementRead = Result<Statement, ParserErrorView>;

/// The text of the token at index `at`, where it is an identifier.
pub open spec fn name_at(tokens: Seq<TokenView>, at: int) -> Option<Seq<char>> {
    if 0 <= at < tokens.len() {
        match tokens[at] {
            TokenView::Char(text) => Some(text),
            _ => None,
        }
    } else {
        None
    }
}

/// The text of the token at index `at`, where it is a number or an
/// identifier.
pub open spec fn bound_at(tokens: Seq<TokenView>, at: int) -> Option<Seq<char>> {
    if 0 <= at < tokens.len() {
        match tokens[at] {
            TokenView::Number(text) => Some(text),
            TokenView::Char(text) => Some(text),
            _ => None,
        }
    } else {
        None
    }
}

/// Whether the token at index `at` exists and is a symbol.
pub open spec fn symbol_at(tokens: Seq<TokenView>, at: int) -> bool {
    0 <= at < tokens.len() && tokens[at] is Symbol
}

/// A declaration, `let` at index `at`: a name, then the value up to the `;`.
pub open spec fn let_statement(tokens: Seq<TokenView>, at: int) -> StatementRead {
    match name_at(tokens, at + 1) {
        None => Err(unexpected(tokens, Expected::Name, at + 1)),
        Some(name) => match value_until_semicolon(tokens, at + 2) {
            Err(e) => Err(e),
            Ok((value, end)) => Ok(
                Statement::Plain { nodes: seq![NodeView::Variable { name, value }], next: end },
            ),
        },
    }
}

/// The head of `if`, at index `at`: the condition up to the `{`.
pub open spec fn if_statement(tokens: Seq<TokenView>, at: int) -> StatementRead {
    match condition_until_block(tokens, at + 1) {
        Err(e) => Err(e),
        Ok((condition, brace)) => Ok(
            Statement::Block { head: BlockHead::If { condition }, body_start: brace + 1 },
        ),
    }
}

/// The head of `while`, at index `at`: the condition up to the `{`.
pub open spec fn while_statement(tokens: Seq<TokenView>, at: int) -> StatementRead {
    match condition_until_block(tokens, at + 1) {
        Err(e) => Err(e),
        Ok((condition, brace)) => Ok(
            Statement::Block { head: BlockHead::While { condition }, body_start: brace + 1 },
        ),
    }
}

/// The head of `else`, at index `at`: the `{` follows at once.
pub open spec fn else_statement(tokens: Seq<TokenView>, at: int) -> StatementRead {
    if token_is(tokens, at + 1, block_open()) {
        Ok(Statement::Block { head: BlockHead::Else, body_start: at + 2 })
    } else {
        Err(unexpected(tokens, Expected::BlockOpen, at + 1))
    }
}

/// The upper bound of a counting loop, looked for at index `at`: its text
/// and the index at which it stands. Behind a symbol the bound is the next
/// token, lowered by one; a bound that stands at `at` itself is taken as it is.
pub open spec fn loop_end(tokens: Seq<TokenView>, at: int) -> Result<
    (Seq<char>, int),
    ParserErrorView,
> {
    if symbol_at(tokens, at) {
        match bound_at(tokens, at + 1) {
            None => Err(unexpected(tokens, Expected::Bound, at + 1)),
            Some(text) => match lowered(text) {
                None => Err(unexpected(tokens, Expected::LowerableBound, at + 1)),
                Some(lower) => Ok((lower, at + 1)),
            },
        }
    } else {
        match bound_at(tokens, at) {
            None => Err(unexpected(tokens, Expected::Bound, at)),
            Some(text) => Ok((text, at)),
        }
    }
}

/// The head of `for`, at index `at`: the loop variable, one token that is
/// passed over, the lower bound, two tokens that are passed over, the upper
/// bound, and the `{`.
pub open spec fn for_statement(tokens: Seq<TokenView>, at: int) -> StatementRead {
    match name_at(tokens, at + 1) {
        None => Err(unexpected(tokens, Expected::Name, at + 1)),
        Some(var_name) => match bound_at(tokens, at + 3) {
            None => Err(unexpected(tokens, Expected::Bound, at + 3)),
            Some(start) => match loop_end(tokens, at + 6) {
                Err(e) => Err(e),
                Ok((end, end_at)) => if token_is(tokens, end_at + 1, block_open()) {
                    Ok(
                        Statement::Block {
                            head: BlockHead::For { var_name, start, end },
                            body_start: end_at + 2,
                        },
                    )
                } else {
                    Err(unexpected(tokens, Expected::BlockOpen, end_at + 1))
                },
            },
        },
    }
}

/// The head of `fn`, at index `at`: the name, the parameters between `(` and
/// `)`, and the `{`.
pub open spec fn fn_statement(tokens: Seq<TokenView>, at: int) -> StatementRead {
    match name_at(tokens, at + 1) {
        None => Err(unexpected(tokens, Expected::Name, at + 1)),
        Some(name) => if !token_is(tokens, at + 2, paren_open()) {
            Err(unexpected(tokens, Expected::ParenOpen, at + 2))
        } else {
            match parameters_until_paren(tokens, at + 3) {
                Err(e) => Err(e),
                Ok((params, behind)) => if token_is(tokens, behind, block_open()) {
                    Ok(
                        Statement::Block {
                            head: BlockHead::Function { name, params },
                            body_start: behind + 1,
                        },
                    )
                } else {
                    Err(unexpected(tokens, Expected::BlockOpen, behind))
                },
            }
        },
    }
}

/// A call, the name `name` at index `at` and `(` behind it: the arguments
/// up to the `)`.
pub open spec fn call_statement(tokens: Seq<TokenView>, at: int, name: Seq<char>) -> StatementRead {
    match arguments_until_paren(tokens, at + 2) {
        Err(e) => Err(e),
        Ok((args, behind)) => Ok(
            Statement::Plain { nodes: seq![NodeView::FunctionCall { name, args }], next: behind },
        ),
    }
}

/// A use of the name `name` at index `at`. Where `=` follows, the
/// assignment's value up to the `;` follows the name, node by node.
pub open spec fn name_statement(tokens: Seq<TokenView>, at: int, name: Seq<char>) -> StatementRead {
    if token_is(tokens, at + 1, TokenView::Symbol(Symbol::Equals)) {
        match value_until_semicolon(tokens, at + 2) {
            Err(e) => Err(e),
            Ok((value, end)) => Ok(
                Statement::Plain {
                    nodes: seq![NodeView::VariableCall(name), NodeView::Symbol(Symbol::Equals)]
                        + value,
                    next: end,
                },
            ),
        }
    } else {
        Ok(Statement::Plain { nodes: seq![NodeView::VariableCall(name)], next: at + 1 })
    }
}

/// The statement that the identifier `word` at index `at` starts.
pub open spec fn statement(tokens: Seq<TokenView>, at: int, word: Seq<char>) -> StatementRead {
    match keyword_of(word) {
        Some(Keyword::Let) => let_statement(tokens, at),
        Some(Keyword::If) => if_statement(tokens, at),
        Some(Keyword::Else) => else_statement(tokens, at),
        Some(Keyword::While) => while_statement(tokens, at),
        Some(Keyword::For) => for_statement(tokens, at),
        Some(Keyword::Fn) => fn_statement(tokens, at),
        None => if token_is(tokens, at + 1, paren_open()) {
            call_statement(tokens, at, word)
        } else {
            name_statement(tokens, at, word)
        },
    }
}

/// `nodes`, then what `rest` holds; the failure of `rest` if it failed.
pub open spec fn nodes_then(nodes: Seq<NodeView>, rest: Parsed) -> Parsed {
    match rest {
        Ok((more, end)) => Ok((nodes + more, end)),
        Err(e) => Err(e),
    }
}

/// The block that starts at index `start`, in which blocks may nest `depth`
/// deep: its nodes, and the index at which it ends. A block ends at its
/// closing `}`, which stays unread, or where the input ends. A nested block
/// must end at a `}`.
pub open spec fn parse_nested(tokens: Seq<TokenView>, start: int, depth: nat) -> Parsed
    decreases tokens.len() - start,
    via parse_nested_terminates
{
    if start < 0 || start >= tokens.len() {
        Ok((Seq::empty(), start))
    } else {
        match tokens[start] {
            TokenView::BracketClose(Bracket::Curly) => Ok((Seq::empty(), start)),
            TokenView::Symbol(Symbol::SemiColon) => nodes_then(
                seq![NodeView::NewLine],
                parse_nested(tokens, start + 1, depth),
            ),
            TokenView::Char(word) => match statement(tokens, start, word) {
                Err(e) => Err(e),
                Ok(Statement::Plain { nodes, next }) => nodes_then(
                    nodes,
                    parse_nested(tokens, next, depth),
                ),
                Ok(Statement::Block { head, body_start }) => if depth == 0 {
                    Err(unexpected(tokens, Expected::ShallowerNesting, body_start - 1))
                } else {
                    match parse_nested(tokens, body_start, (depth - 1) as nat) {
                        Err(e) => Err(e),
                        Ok((body, end)) => if body_start <= end < tokens.len() {
                            nodes_then(
                                seq![block_node(head, body)],
                                parse_nested(tokens, end + 1, depth),
                            )
                        } else {
                            Err(unexpected(tokens, Expected::BlockClose, end))
                        },
                    }
                },
            },
            _ => Err(unexpected(tokens, Expected::Statement, start)),
        }
    }
}

#[via_fn]
proof fn parse_nested_terminates(tokens: Seq<TokenView>, start: int, depth: nat) {
    if 0 <= start < tokens.len() {
        match tokens[start] {
            TokenView::Char(word) => {
                lemma_statement_advances(tokens, start, word);
            },
            _ => {},
        }
    }
}

/// The block that starts at index `start`: its nodes, and the index at which
/// it ends. Blocks may nest [`MAX_DEPTH`] deep inside it.
pub open spec fn parse_block(tokens: Seq<TokenView>, start: int) -> Parsed {
    parse_nested(tokens, start, MAX_DEPTH as nat)
}

/// A run of value tokens ends inside the input.
pub proof fn lemma_value_run_bound(tokens: Seq<TokenView>, from: int)
    requires
        0 <= from <= tokens.len(),
    ensures
        from + value_run(tokens, from) <= tokens.len(),
    decreases tokens.len() - from,
{
    if from < tokens.len() {
        lemma_value_run_bound(tokens, from + 1);
    }
}

/// A run of condition terms ends inside the input.
pub proof fn lemma_condition_run_bound(tokens: Seq<TokenView>, from: int)
    requires
        0 <= from <= tokens.len(),
    ensures
        from + condition_run(tokens, from) <= tokens.len(),
    decreases tokens.len() - from,
{
    if from < tokens.len() {
        lemma_condition_run_bound(tokens, from + 1);
    }
}

/// A run of arguments ends inside the input.
pub proof fn lemma_argument_run_bound(tokens: Seq<TokenView>, from: int)
    requires
        0 <= from <= tokens.len(),
    ensures
        from + argument_run(tokens, from) <= tokens.len(),
    decreases tokens.len() - from,
{
    if from < tokens.len() {
        lemma_argument_run_bound(tokens, from + 1);
    }
}

/// A run of parameters ends inside the input.
pub proof fn lemma_parameter_run_bound(tokens: Seq<TokenView>, from: int)
    requires
        0 <= from <= tokens.len(),
    ensures
        from + parameter_run(tokens, from) <= tokens.len(),
    decreases tokens.len() - from,
{
    if from < tokens.len() {
        lemma_parameter_run_bound(tokens, from + 1);
    }
}

/// A statement that is read ends behind its first token and inside the
/// input; a block starts there too.
pub proof fn lemma_statement_advances(tokens: Seq<TokenView>, at: int, word: Seq<char>)
    requires
        0 <= at < tokens.len(),
    ensures
        match statement(tokens, at, word) {
            Ok(Statement::Plain { nodes, next }) => at < next <= tokens.len(),
            Ok(Statement::Block { head, body_start }) => at < body_start <= tokens.len(),
            Err(_) => true,
        },
{
    if at + 2 <= tokens.len() {
        lemma_value_run_bound(tokens, at + 2);
        lemma_argument_run_bound(tokens, at + 2);
    }
    if at + 1 <= tokens.len() {
        lemma_condition_run_bound(tokens, at + 1);
    }
    if at + 3 <= tokens.len() {
        lemma_parameter_run_bound(tokens, at + 3);
    }
}

} // verus!
