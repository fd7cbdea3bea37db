//! What holds of the grammar and of the output text, whatever the input.

use crate::ast::NodeView;
use crate::codegen::{
    misplaced, render, render_names, render_node, CodeGenErrorView, NameList, Rendered,
};
use crate::grammar::{
    argument_node, argument_nodes, argument_run, block_close, comma, condition_node,
    condition_run, keyword_of, lemma_statement_advances, nodes_then, parameter_node,
    parameter_run, paren_close, paren_open, parse_block, parse_nested, semicolon, statement,
    token_is, value_nodes, value_run, Keyword, ParserErrorView, Statement, MAX_DEPTH,
};
use crate::token::{Symbol, TokenView};
use vstd::prelude::*;

verus! {

/// A block that parses ends inside the input: at a `}` or where the input
/// ends, and not in front of its start.
pub proof fn lemma_nested_ends_at_brace_or_end(tokens: Seq<TokenView>, start: int, depth: nat)
    requires
        0 <= start <= tokens.len(),
    ensures
        match parse_nested(tokens, start, depth) {
            Ok((_, end)) => start <= end <= tokens.len() && (end < tokens.len() ==> tokens[end]
                == block_close()),
            Err(_) => true,
        },
    decreases tokens.len() - start,
{
    if start < tokens.len() {
        match tokens[start] {
            TokenView::Symbol(Symbol::SemiColon) => {
                lemma_nested_ends_at_brace_or_end(tokens, start + 1, depth);
            },
            TokenView::Char(word) => {
                lemma_statement_advances(tokens, start, word);
                match statement(tokens, start, word) {
                    Err(_) => {},
                    Ok(Statement::Plain { nodes, next }) => {
                        lemma_nested_ends_at_brace_or_end(tokens, next, depth);
                    },
                    Ok(Statement::Block { head, body_start }) => {
                        if depth > 0 {
                            let inner = (depth - 1) as nat;
                            lemma_nested_ends_at_brace_or_end(tokens, body_start, inner);
                            match parse_nested(tokens, body_start, inner) {
                                Err(_) => {},
                                Ok((_, end)) => {
                                    if body_start <= end < tokens.len() {
                                        lemma_nested_ends_at_brace_or_end(tokens, end + 1, depth);
                                    }
                                },
                            }
                        }
                    },
                }
            },
            _ => {},
        }
    }
}

/// Every block that parses, its nested blocks included, ends at its closing
/// `}` or, at the top, where the input ends: the index that a parse returns
/// lies between its start and the end of the input, and the token there, if
/// there is one, is a `}`.
pub proof fn theorem_block_ends_at_brace_or_end(tokens: Seq<TokenView>, start: int)
    requires
        0 <= start <= tokens.len(),
    ensures
        match parse_block(tokens, start) {
            Ok((_, end)) => start <= end <= tokens.len() && (end < tokens.len() ==> tokens[end]
                == block_close()),
            Err(_) => true,
        },
{
    lemma_nested_ends_at_brace_or_end(tokens, start, MAX_DEPTH as nat);
}

/// A failure of a parse points into the input or at its end, and names the
/// token that stands there.
pub proof fn lemma_nested_failure_names_its_token(tokens: Seq<TokenView>, start: int, depth: nat)
    requires
        0 <= start <= tokens.len(),
    ensures
        match parse_nested(tokens, start, depth) {
            Err(ParserErrorView::UnexpectedToken { expected, found, index }) => {
                &&& 0 <= index <= tokens.len()
                &&& found == if index < tokens.len() {
                    Some(tokens[index])
                } else {
                    None
                }
            },
            Ok(_) => true,
        },
    decreases tokens.len() - start,
{
    if start < tokens.len() {
        match tokens[start] {
            TokenView::Symbol(Symbol::SemiColon) => {
                lemma_nested_failure_names_its_token(tokens, start + 1, depth);
            },
            TokenView::Char(word) => {
                lemma_statement_advances(tokens, start, word);
                match statement(tokens, start, word) {
                    Err(_) => {},
                    Ok(Statement::Plain { nodes, next }) => {
                        lemma_nested_failure_names_its_token(tokens, next, depth);
                    },
                    Ok(Statement::Block { head, body_start }) => {
                        if depth > 0 {
                            let inner = (depth - 1) as nat;
                            lemma_nested_failure_names_its_token(tokens, body_start, inner);
                            match parse_nested(tokens, body_start, inner) {
                                Err(_) => {},
                                Ok((_, end)) => {
                                    if body_start <= end < tokens.len() {
                                        lemma_nested_failure_names_its_token(
                                            tokens,
                                            end + 1,
                                            depth,
                                        );
                                    }
                                },
                            }
                        }
                    },
                }
            },
            _ => {},
        }
    }
}

/// A failure of the parser carries the index of a token and that token, or
/// the number of tokens and no token.
pub proof fn theorem_failure_names_its_token(tokens: Seq<TokenView>, start: int)
    requires
        0 <= start <= tokens.len(),
    ensures
        match parse_block(tokens, start) {
            Err(ParserErrorView::UnexpectedToken { expected, found, index }) => {
                &&& 0 <= index <= tokens.len()
                &&& found == if index < tokens.len() {
                    Some(tokens[index])
                } else {
                    None
                }
            },
            Ok(_) => true,
        },
{
    lemma_nested_failure_names_its_token(tokens, start, MAX_DEPTH as nat);
}

/// The texts of two sequences of nodes, one behind the other.
pub open spec fn text_then(front: Rendered, back: Rendered) -> Rendered {
    match front {
        Err(e) => Err(e),
        Ok(front_text) => match back {
            Err(e) => Err(e),
            Ok(back_text) => Ok(front_text + back_text),
        },
    }
}

/// The code generator is a fold: the text of two sequences joined is the two
/// texts joined, and the first failure wins.
pub proof fn theorem_render_is_a_fold(front: Seq<NodeView>, back: Seq<NodeView>)
    ensures
        render(front + back) == text_then(render(front), render(back)),
    decreases back.len(),
{
    if back.len() == 0 {
        assert(front + back =~= front);
    } else {
        assert((front + back).drop_last() =~= front + back.drop_last());
        theorem_render_is_a_fold(front, back.drop_last());
        match (render(front), render(back.drop_last()), render_node(back.last())) {
            (Ok(a), Ok(b), Ok(c)) => {
                assert((a + b) + c =~= a + (b + c));
            },
            _ => {},
        }
    }
}

/// A call with an argument that is no use of a name has no output text: the
/// first such argument is the failure.
pub proof fn theorem_call_arguments_must_be_names(name: Seq<char>, args: Seq<NodeView>, k: int)
    requires
        0 <= k < args.len(),
        !(args[k] is VariableCall),
        forall|j: int| 0 <= j < k ==> args[j] is VariableCall,
    ensures
        render_node(NodeView::FunctionCall { name, args }) == Err::<Seq<char>, CodeGenErrorView>(
            CodeGenErrorView::UnexpectedArgument(args[k]),
        ),
        render(seq![NodeView::FunctionCall { name, args }]) == Err::<Seq<char>, CodeGenErrorView>(
            CodeGenErrorView::UnexpectedArgument(args[k]),
        ),
{
    lemma_names_fail_at(args, NameList::Arguments, k);
    lemma_render_one(NodeView::FunctionCall { name, args });
}

/// The text of one node alone is the text of the node.
pub proof fn lemma_render_one(node: NodeView)
    ensures
        render(seq![node]) == render_node(node),
{
    let nothing = Seq::<NodeView>::empty();
    assert(seq![node].drop_last() =~= nothing);
    assert(render(nothing) == Ok::<Seq<char>, CodeGenErrorView>(Seq::empty()));
    assert(render(seq![node].drop_last()) == render(nothing));
    match render_node(node) {
        Ok(text) => {
            assert(Seq::<char>::empty() + text =~= text);
        },
        Err(_) => {},
    }
}

/// A list of names fails at the first node that is no name.
pub proof fn lemma_names_fail_at(nodes: Seq<NodeView>, list: NameList, k: int)
    requires
        0 <= k < nodes.len(),
        !(nodes[k] is VariableCall),
        forall|j: int| 0 <= j < k ==> nodes[j] is VariableCall,
    ensures
        render_names(nodes, list) == Err::<Seq<char>, CodeGenErrorView>(misplaced(list, nodes[k])),
    decreases nodes.len(),
{
    if k < nodes.len() - 1 {
        lemma_names_fail_at(nodes.drop_last(), list, k);
    } else {
        lemma_names_render(nodes.drop_last(), list);
    }
}

/// A list that holds nothing but names has a text.
pub proof fn lemma_names_render(nodes: Seq<NodeView>, list: NameList)
    requires
        forall|j: int| 0 <= j < nodes.len() ==> nodes[j] is VariableCall,
    ensures
        render_names(nodes, list) is Ok,
    decreases nodes.len(),
{
    if nodes.len() > 0 {
        lemma_names_render(nodes.drop_last(), list);
    }
}

/// A list of names fails where any node is no name.
pub proof fn lemma_names_fail(nodes: Seq<NodeView>, list: NameList, k: int)
    requires
        0 <= k < nodes.len(),
        !(nodes[k] is VariableCall),
    ensures
        render_names(nodes, list) is Err,
    decreases nodes.len(),
{
    if k < nodes.len() - 1 {
        lemma_names_fail(nodes.drop_last(), list, k);
    }
}

/// Whether `token` may stand between the brackets of a call.
pub open spec fn in_argument_list(token: TokenView) -> bool {
    argument_node(token) is Some || token == comma()
}

/// Where arguments and commas stand up to index `to` and no further, the run
/// of arguments ends at `to`.
pub proof fn lemma_argument_run_ends(tokens: Seq<TokenView>, from: int, to: int)
    requires
        0 <= from <= to <= tokens.len(),
        forall|i: int| from <= i < to ==> in_argument_list(#[trigger] tokens[i]),
        to < tokens.len() ==> !in_argument_list(tokens[to]),
    ensures
        from + argument_run(tokens, from) == to,
    decreases to - from,
{
    if from < to {
        lemma_argument_run_ends(tokens, from + 1, to);
    }
}

/// The argument nodes of two lists of tokens joined are the two lists of
/// nodes joined.
pub proof fn lemma_argument_nodes_join(front: Seq<TokenView>, back: Seq<TokenView>)
    ensures
        argument_nodes(front + back) == argument_nodes(front) + argument_nodes(back),
    decreases back.len(),
{
    if back.len() == 0 {
        assert(front + back =~= front);
    } else {
        assert((front + back).drop_last() =~= front + back.drop_last());
        lemma_argument_nodes_join(front, back.drop_last());
    }
}

/// A name that is no keyword, `(`, arguments and commas, `)`: that is a
/// call, and it parses to one node that holds the arguments in order.
pub proof fn theorem_call_parses(name: Seq<char>, list: Seq<TokenView>)
    requires
        keyword_of(name) is None,
        forall|i: int| 0 <= i < list.len() ==> in_argument_list(#[trigger] list[i]),
    ensures
        ({
            let tokens = seq![TokenView::Char(name), paren_open()] + list + seq![paren_close()];
            let call = NodeView::FunctionCall { name, args: argument_nodes(list) };
            parse_block(tokens, 0) == Ok::<(Seq<NodeView>, int), ParserErrorView>(
                (seq![call], tokens.len() as int),
            )
        }),
{
    let tokens = seq![TokenView::Char(name), paren_open()] + list + seq![paren_close()];
    let call = NodeView::FunctionCall { name, args: argument_nodes(list) };
    let close = list.len() as int + 2;
    let end = tokens.len() as int;
    let depth = MAX_DEPTH as nat;
    assert forall|i: int| 2 <= i < close implies in_argument_list(#[trigger] tokens[i]) by {
        assert(tokens[i] == list[i - 2]);
    }
    lemma_argument_run_ends(tokens, 2, close);
    assert(tokens.subrange(2, close) =~= list);
    assert(statement(tokens, 0, name) == Ok::<Statement, ParserErrorView>(
        Statement::Plain { nodes: seq![call], next: end },
    ));
    assert(parse_nested(tokens, 0, depth) == nodes_then(
        seq![call],
        parse_nested(tokens, end, depth),
    ));
}

/// A call with a string literal among its arguments parses, and the tree it
/// parses to has no output text.
pub proof fn theorem_string_argument_parses_but_has_no_text(
    name: Seq<char>,
    front: Seq<TokenView>,
    text: Seq<char>,
    back: Seq<TokenView>,
)
    requires
        keyword_of(name) is None,
        forall|i: int| 0 <= i < front.len() ==> in_argument_list(#[trigger] front[i]),
        forall|i: int| 0 <= i < back.len() ==> in_argument_list(#[trigger] back[i]),
    ensures
        ({
            let list = front + seq![TokenView::String(text)] + back;
            let tokens = seq![TokenView::Char(name), paren_open()] + list + seq![paren_close()];
            let call = NodeView::FunctionCall { name, args: argument_nodes(list) };
            &&& parse_block(tokens, 0) == Ok::<(Seq<NodeView>, int), ParserErrorView>(
                (seq![call], tokens.len() as int),
            )
            &&& render(seq![call]) is Err
        }),
{
    let literal = seq![TokenView::String(text)];
    let list = front + literal + back;
    let call = NodeView::FunctionCall { name, args: argument_nodes(list) };
    assert forall|i: int| 0 <= i < list.len() implies in_argument_list(#[trigger] list[i]) by {
        if i < front.len() {
            assert(list[i] == front[i]);
        } else if i == front.len() {
            assert(list[i] == TokenView::String(text));
        } else {
            assert(list[i] == back[i - front.len() - 1]);
        }
    }
    theorem_call_parses(name, list);
    lemma_argument_nodes_join(front + literal, back);
    lemma_argument_nodes_join(front, literal);
    assert(literal.drop_last() =~= Seq::<TokenView>::empty());
    assert(argument_nodes(literal.drop_last()) =~= Seq::<NodeView>::empty());
    assert(argument_nodes(literal) =~= seq![NodeView::StringLiteral(text)]);
    let at = argument_nodes(front).len() as int;
    assert(argument_nodes(list)[at] == NodeView::StringLiteral(text));
    lemma_names_fail(argument_nodes(list), NameList::Arguments, at);
    lemma_render_one(call);
}

/// Where no `;` stands up to index `to` and one stands there, the value
/// ends at `to`.
pub proof fn lemma_value_run_ends(tokens: Seq<TokenView>, from: int, to: int)
    requires
        0 <= from <= to < tokens.len(),
        forall|i: int| from <= i < to ==> #[trigger] tokens[i] != semicolon(),
        tokens[to] == semicolon(),
    ensures
        from + value_run(tokens, from) == to,
    decreases to - from,
{
    if from < to {
        lemma_value_run_ends(tokens, from + 1, to);
    }
}

/// `let`, a name, tokens other than `;`, and `;`: that is a declaration. It
/// parses to the declaration, whose value holds one node for each token, and
/// the statement boundary that its `;` leaves.
pub proof fn theorem_declaration_parses(name: Seq<char>, value: Seq<TokenView>)
    requires
        forall|i: int| 0 <= i < value.len() ==> #[trigger] value[i] != semicolon(),
    ensures
        ({
            let tokens = seq![TokenView::Char("let"@), TokenView::Char(name)] + value + seq![
                semicolon(),
            ];
            let declaration = NodeView::Variable { name, value: value_nodes(value) };
            parse_block(tokens, 0) == Ok::<(Seq<NodeView>, int), ParserErrorView>(
                (seq![declaration, NodeView::NewLine], tokens.len() as int),
            )
        }),
{
    let tokens = seq![TokenView::Char("let"@), TokenView::Char(name)] + value + seq![semicolon()];
    let declaration = NodeView::Variable { name, value: value_nodes(value) };
    let last = value.len() as int + 2;
    let end = tokens.len() as int;
    let depth = MAX_DEPTH as nat;
    assert forall|i: int| 2 <= i < last implies #[trigger] tokens[i] != semicolon() by {
        assert(tokens[i] == value[i - 2]);
    }
    lemma_value_run_ends(tokens, 2, last);
    assert(tokens.subrange(2, last) =~= value);
    assert(statement(tokens, 0, "let"@) == Ok::<Statement, ParserErrorView>(
        Statement::Plain { nodes: seq![declaration], next: last },
    ));
    assert(parse_nested(tokens, end, depth) == Ok::<(Seq<NodeView>, int), ParserErrorView>(
        (Seq::empty(), end),
    ));
    assert(parse_nested(tokens, last, depth) == nodes_then(
        seq![NodeView::NewLine],
        parse_nested(tokens, end, depth),
    ));
    assert(parse_nested(tokens, 0, depth) == nodes_then(
        seq![declaration],
        parse_nested(tokens, last, depth),
    ));
    assert(seq![declaration] + (seq![NodeView::NewLine] + Seq::<NodeView>::empty()) =~= seq![
        declaration,
        NodeView::NewLine,
    ]);
}

/// A declaration and the statement boundary behind it have the text `let`,
/// the name, the text of the value and `;`.
pub proof fn theorem_declaration_renders(name: Seq<char>, value: Seq<NodeView>)
    ensures
        render(seq![NodeView::Variable { name, value }, NodeView::NewLine]) == match render(value) {
            Ok(text) => Ok("let "@ + name + text + ";"@),
            Err(e) => Err(e),
        },
{
    let declaration = NodeView::Variable { name, value };
    lemma_render_one(declaration);
    lemma_render_one(NodeView::NewLine);
    theorem_render_is_a_fold(seq![declaration], seq![NodeView::NewLine]);
    assert(seq![declaration] + seq![NodeView::NewLine] =~= seq![declaration, NodeView::NewLine]);
}

/// `left` and `right` hold the same tokens from index `from` through index
/// `to`, which lies inside both.
pub open spec fn agree(left: Seq<TokenView>, right: Seq<TokenView>, from: int, to: int) -> bool {
    &&& to < left.len()
    &&& to < right.len()
    &&& forall|i: int| from <= i <= to ==> #[trigger] left[i] == right[i]
}

/// A value that ends inside the tokens on which two inputs agree is as long
/// in one as in the other.
pub proof fn lemma_value_run_agrees(
    left: Seq<TokenView>,
    right: Seq<TokenView>,
    from: int,
    to: int,
)
    requires
        0 <= from,
        agree(left, right, from, to),
        from + value_run(left, from) <= to,
    ensures
        value_run(right, from) == value_run(left, from),
    decreases to - from,
{
    assert(left[from] == right[from]);
    if left[from] != semicolon() {
        lemma_value_run_agrees(left, right, from + 1, to);
    }
}

/// A condition that ends inside the tokens on which two inputs agree is as
/// long in one as in the other.
pub proof fn lemma_condition_run_agrees(
    left: Seq<TokenView>,
    right: Seq<TokenView>,
    from: int,
    to: int,
)
    requires
        0 <= from,
        agree(left, right, from, to),
        from + condition_run(left, from) <= to,
    ensures
        condition_run(right, from) == condition_run(left, from),
    decreases to - from,
{
    assert(left[from] == right[from]);
    if condition_node(left[from]) is Some {
        lemma_condition_run_agrees(left, right, from + 1, to);
    }
}

/// A list of arguments that ends inside the tokens on which two inputs agree
/// is as long in one as in the other.
pub proof fn lemma_argument_run_agrees(
    left: Seq<TokenView>,
    right: Seq<TokenView>,
    from: int,
    to: int,
)
    requires
        0 <= from,
        agree(left, right, from, to),
        from + argument_run(left, from) <= to,
    ensures
        argument_run(right, from) == argument_run(left, from),
    decreases to - from,
{
    assert(left[from] == right[from]);
    if in_argument_list(left[from]) {
        lemma_argument_run_agrees(left, right, from + 1, to);
    }
}

/// A list of parameters that ends inside the tokens on which two inputs
/// agree is as long in one as in the other.
pub proof fn lemma_parameter_run_agrees(
    left: Seq<TokenView>,
    right: Seq<TokenView>,
    from: int,
    to: int,
)
    requires
        0 <= from,
        agree(left, right, from, to),
        from + parameter_run(left, from) <= to,
    ensures
        parameter_run(right, from) == parameter_run(left, from),
    decreases to - from,
{
    assert(left[from] == right[from]);
    if parameter_node(left[from]) is Some || left[from] == comma() {
        lemma_parameter_run_agrees(left, right, from + 1, to);
    }
}

/// The last index that reading a statement looks at: the index behind a
/// statement without a block, the `{` of a statement with one.
pub open spec fn reach(read: Statement) -> int {
    match read {
        Statement::Plain { nodes, next } => next,
        Statement::Block { head, body_start } => body_start - 1,
    }
}

/// A statement that is read inside the tokens on which two inputs agree is
/// read alike in both.
pub proof fn lemma_statement_agrees(
    left: Seq<TokenView>,
    right: Seq<TokenView>,
    at: int,
    to: int,
    word: Seq<char>,
)
    requires
        0 <= at,
        agree(left, right, at, to),
        statement(left, at, word) matches Ok(read) && reach(read) <= to,
    ensures
        statement(right, at, word) == statement(left, at, word),
{
    lemma_statement_advances(left, at, word);
    match keyword_of(word) {
        Some(Keyword::Let) => {
            lemma_value_run_agrees(left, right, at + 2, to);
            let end = at + 2 + value_run(left, at + 2);
            assert(left.subrange(at + 2, end) =~= right.subrange(at + 2, end));
        },
        Some(Keyword::If) => {
            lemma_condition_run_agrees(left, right, at + 1, to);
            let end = at + 1 + condition_run(left, at + 1);
            assert(left.subrange(at + 1, end) =~= right.subrange(at + 1, end));
        },
        Some(Keyword::While) => {
            lemma_condition_run_agrees(left, right, at + 1, to);
            let end = at + 1 + condition_run(left, at + 1);
            assert(left.subrange(at + 1, end) =~= right.subrange(at + 1, end));
        },
        Some(Keyword::Else) => {},
        Some(Keyword::For) => {},
        Some(Keyword::Fn) => {
            lemma_parameter_run_agrees(left, right, at + 3, to);
            let end = at + 3 + parameter_run(left, at + 3);
            assert(left.subrange(at + 3, end) =~= right.subrange(at + 3, end));
        },
        None => {
            if token_is(left, at + 1, paren_open()) {
                lemma_argument_run_agrees(left, right, at + 2, to);
                let end = at + 2 + argument_run(left, at + 2);
                assert(left.subrange(at + 2, end) =~= right.subrange(at + 2, end));
            } else if token_is(left, at + 1, TokenView::Symbol(Symbol::Equals)) {
                lemma_value_run_agrees(left, right, at + 2, to);
                let end = at + 2 + value_run(left, at + 2);
                assert(left.subrange(at + 2, end) =~= right.subrange(at + 2, end));
            }
        },
    }
}

/// The parse of a block that closes depends on nothing but the tokens from
/// its start through its closing `}`: an input that holds the same tokens
/// there has the same block there, whatever stands in front of it and behind
/// it.
pub proof fn lemma_nested_is_local(
    left: Seq<TokenView>,
    right: Seq<TokenView>,
    start: int,
    depth: nat,
)
    requires
        0 <= start <= left.len(),
        parse_nested(left, start, depth) matches Ok((_, end)) && end < left.len() && agree(
            left,
            right,
            start,
            end,
        ),
    ensures
        parse_nested(right, start, depth) == parse_nested(left, start, depth),
    decreases left.len() - start,
{
    let end = parse_nested(left, start, depth)->Ok_0.1;
    lemma_nested_ends_at_brace_or_end(left, start, depth);
    assert(left[start] == right[start]);
    match left[start] {
        TokenView::Symbol(Symbol::SemiColon) => {
            lemma_nested_is_local(left, right, start + 1, depth);
        },
        TokenView::Char(word) => {
            lemma_statement_advances(left, start, word);
            match statement(left, start, word) {
                Err(_) => {},
                Ok(Statement::Plain { nodes, next }) => {
                    lemma_nested_ends_at_brace_or_end(left, next, depth);
                    lemma_statement_agrees(left, right, start, end, word);
                    lemma_nested_is_local(left, right, next, depth);
                },
                Ok(Statement::Block { head, body_start }) => {
                    if depth > 0 {
                        let inner = (depth - 1) as nat;
                        lemma_nested_ends_at_brace_or_end(left, body_start, inner);
                        match parse_nested(left, body_start, inner) {
                            Err(_) => {},
                            Ok((_, close)) => {
                                if body_start <= close < left.len() {
                                    lemma_nested_ends_at_brace_or_end(left, close + 1, depth);
                                    lemma_statement_agrees(left, right, start, end, word);
                                    lemma_nested_is_local(left, right, body_start, inner);
                                    lemma_nested_is_local(left, right, close + 1, depth);
                                }
                            },
                        }
                    }
                },
            }
        },
        _ => {},
    }
}

/// The parse of a block that closes depends on nothing but the tokens from
/// its start through its closing `}`.
pub proof fn theorem_block_is_local(left: Seq<TokenView>, right: Seq<TokenView>, start: int)
    requires
        0 <= start <= left.len(),
        parse_block(left, start) matches Ok((_, end)) && end < left.len() && agree(
            left,
            right,
            start,
            end,
        ),
    ensures
        parse_block(right, start) == parse_block(left, start),
{
    lemma_nested_is_local(left, right, start, MAX_DEPTH as nat);
}

} // verus!
