//! The code generator: a fold over the tree that yields the output text.

use crate::ast::{lemma_nodes_view, nodes_view, Node, NodeView};
use crate::token::{Bracket, Symbol};
use vstd::prelude::*;

verus! {

/// Why a tree has no output text.
#[derive(Debug, PartialEq, Eq)]
pub enum CodeGenError {
    /// An argument of a call that is no use of a name.
    UnexpectedArgument(Node),
    /// A parameter of a function that is no name.
    UnexpectedParameter(Node),
}

/// The mathematical value of a [`CodeGenError`].
pub enum CodeGenErrorView {
    UnexpectedArgument(NodeView),
    UnexpectedParameter(NodeView),
}

impl View for CodeGenError {
    type V = CodeGenErrorView;

    open spec fn view(&self) -> CodeGenErrorView {
        match *self {
            CodeGenError::UnexpectedArgument(node) => CodeGenErrorView::UnexpectedArgument(node@),
            CodeGenError::UnexpectedParameter(node) => CodeGenErrorView::UnexpectedParameter(
                node@,
            ),
        }
    }
}

/// The outcome of rendering: the text, or a failure.
pub type Rendered = Result<Seq<char>, CodeGenErrorView>;

/// The two places in which only names may stand.
#[derive(Debug, Clone, Copy, PartialEq, Eq, Structural)]
pub enum NameList {
    /// The arguments of a call.
    Arguments,
    /// The parameters of a function.
    Parameters,
}

/// The failure that `node` is in a list of names of the kind `list`.
pub open spec fn misplaced(list: NameList, node: NodeView) -> CodeGenErrorView {
    match list {
        NameList::Arguments => CodeGenErrorView::UnexpectedArgument(node),
        NameList::Parameters => CodeGenErrorView::UnexpectedParameter(node),
    }
}

/// The text of a symbol: its one character.
pub open spec fn symbol_text(symbol: Symbol) -> Seq<char> {
    match symbol {
        Symbol::Equals => "="@,
        Symbol::Plus => "+"@,
        Symbol::Minus => "-"@,
        Symbol::Multiply => "*"@,
        Symbol::Divide => "/"@,
        Symbol::Modulo => "%"@,
        Symbol::Greater => ">"@,
        Symbol::Less => "<"@,
        Symbol::Dot => "."@,
        Symbol::SemiColon => ";"@,
        Symbol::Exclamation => "!"@,
        Symbol::DoubleColon => ":"@,
        Symbol::Colon => ","@,
    }
}

/// The text of an opening bracket.
pub open spec fn open_text(bracket: Bracket) -> Seq<char> {
    match bracket {
        Bracket::Curly => "{"@,
        Bracket::Square => "["@,
        Bracket::Paren => "("@,
    }
}

/// The text of a closing bracket.
pub open spec fn close_text(bracket: Bracket) -> Seq<char> {
    match bracket {
        Bracket::Curly => "}"@,
        Bracket::Square => "]"@,
        Bracket::Paren => ")"@,
    }
}

/// The names of `nodes`, joined by commas. Every node must be a use of a
/// name; the first from the left that is none is the failure.
pub open spec fn render_names(nodes: Seq<NodeView>, list: NameList) -> Rendered
    decreases nodes.len(),
{
    if nodes.len() == 0 {
        Ok(Seq::empty())
    } else {
        match render_names(nodes.drop_last(), list) {
            Err(e) => Err(e),
            Ok(front) => match nodes.last() {
                NodeView::VariableCall(name) => if nodes.len() == 1 {
                    Ok(front + name)
                } else {
                    Ok(front + ","@ + name)
                },
                other => Err(misplaced(list, other)),
            },
        }
    }
}

/// The text of one node.
pub open spec fn render_node(node: NodeView) -> Rendered
    decreases node, 0nat,
{
    match node {
        NodeView::StringLiteral(text) => Ok("\""@ + text + "\""@),
        NodeView::NumberLiteral(text) => Ok(text),
        NodeView::Symbol(symbol) => Ok(symbol_text(symbol)),
        NodeView::BracketOpen(bracket) => Ok(open_text(bracket)),
        NodeView::BracketClose(bracket) => Ok(close_text(bracket)),
        NodeView::NewLine => Ok(";"@),
        NodeView::VariableCall(name) => Ok(name),
        NodeView::Variable { name, value } => match render(value) {
            Err(e) => Err(e),
            Ok(value_text) => Ok("let "@ + name + value_text),
        },
        NodeView::IfStatement { condition, body } => match render(condition) {
            Err(e) => Err(e),
            Ok(condition_text) => match render(body) {
                Err(e) => Err(e),
                Ok(body_text) => Ok("if ("@ + condition_text + "){\n"@ + body_text + "}\n"@),
            },
        },
        NodeView::ElseStatement { body } => match render(body) {
            Err(e) => Err(e),
            Ok(body_text) => Ok("else{\n"@ + body_text + "}\n"@),
        },
        NodeView::WhileLoop { condition, body } => match render(condition) {
            Err(e) => Err(e),
            Ok(condition_text) => match render(body) {
                Err(e) => Err(e),
                Ok(body_text) => Ok("while ("@ + condition_text + "){\n"@ + body_text + "}\n"@),
            },
        },
        NodeView::ForLoop { var_name, start, end, body } => match render(body) {
            Err(e) => Err(e),
            Ok(body_text) => Ok(
                "for (let "@ + var_name + "="@ + start + "; "@ + var_name + "==="@ + end + "; "@
                    + var_name + "++){\n"@ + body_text + "}\n"@,
            ),
        },
        NodeView::Function { name, params, body } => match render_names(
            params,
            NameList::Parameters,
        ) {
            Err(e) => Err(e),
            Ok(params_text) => match render(body) {
                Err(e) => Err(e),
                Ok(body_text) => Ok(
                    "function "@ + name + "("@ + params_text + "){\n"@ + body_text + "}\n"@,
                ),
            },
        },
        NodeView::FunctionCall { name, args } => match render_names(args, NameList::Arguments) {
            Err(e) => Err(e),
            Ok(args_text) => Ok(name + "("@ + args_text + ")"@),
        },
    }
}

/// The text of a sequence of nodes: the texts of the nodes in order, or the
/// first failure from the left.
pub open spec fn render(nodes: Seq<NodeView>) -> Rendered
    decreases nodes, 1nat,
{
    if nodes.len() == 0 {
        Ok(Seq::empty())
    } else {
        match render(nodes.drop_last()) {
            Err(e) => Err(e),
            Ok(front) => match render_node(nodes.last()) {
                Err(e) => Err(e),
                Ok(text) => Ok(front + text),
            },
        }
    }
}

/// The view of what [`code_generator`] returns.
pub open spec fn rendered(result: Result<String, CodeGenError>) -> Rendered {
    match result {
        Ok(text) => Ok(text@),
        Err(e) => Err(e@),
    }
}

/// A failure among the first nodes is the failure of the whole.
pub proof fn lemma_render_fails_early(nodes: Seq<NodeView>, k: int)
    requires
        0 <= k <= nodes.len(),
        render(nodes.take(k)) is Err,
    ensures
        render(nodes) == render(nodes.take(k)),
    decreases nodes.len(),
{
    if k < nodes.len() {
        assert(nodes.drop_last().take(k) == nodes.take(k));
        lemma_render_fails_early(nodes.drop_last(), k);
    } else {
        assert(nodes.take(k) == nodes);
    }
}

/// A failure among the first names is the failure of the whole list.
pub proof fn lemma_render_names_fails_early(nodes: Seq<NodeView>, list: NameList, k: int)
    requires
        0 <= k <= nodes.len(),
        render_names(nodes.take(k), list) is Err,
    ensures
        render_names(nodes, list) == render_names(nodes.take(k), list),
    decreases nodes.len(),
{
    if k < nodes.len() {
        assert(nodes.drop_last().take(k) == nodes.take(k));
        lemma_render_names_fails_early(nodes.drop_last(), list, k);
    } else {
        assert(nodes.take(k) == nodes);
    }
}

/// The text of `symbol`.
fn symbol_str(symbol: Symbol) -> (text: &'static str)
    ensures
        text@ == symbol_text(symbol),
{
    match symbol {
        Symbol::Equals => "=",
        Symbol::Plus => "+",
        Symbol::Minus => "-",
        Symbol::Multiply => "*",
        Symbol::Divide => "/",
        Symbol::Modulo => "%",
        Symbol::Greater => ">",
        Symbol::Less => "<",
        Symbol::Dot => ".",
        Symbol::SemiColon => ";",
        Symbol::Exclamation => "!",
        Symbol::DoubleColon => ":",
        Symbol::Colon => ",",
    }
}

/// The text of the opening bracket `bracket`.
fn open_str(bracket: Bracket) -> (text: &'static str)
    ensures
        text@ == open_text(bracket),
{
    match bracket {
        Bracket::Curly => "{",
        Bracket::Square => "[",
        Bracket::Paren => "(",
    }
}

/// The text of the closing bracket `bracket`.
fn close_str(bracket: Bracket) -> (text: &'static str)
    ensures
        text@ == close_text(bracket),
{
    match bracket {
        Bracket::Curly => "}",
        Bracket::Square => "]",
        Bracket::Paren => ")",
    }
}

/// The failure that `node` is in a list of names of the kind `list`.
fn misplaced_node(list: NameList, node: &Node) -> (e: CodeGenError)
    ensures
        e@ == misplaced(list, node@),
{
    match list {
        NameList::Arguments => CodeGenError::UnexpectedArgument(node.duplicate()),
        NameList::Parameters => CodeGenError::UnexpectedParameter(node.duplicate()),
    }
}

/// Renders a list of names, joined by commas.
fn generate_names(nodes: &Vec<Node>, list: NameList) -> (result: Result<String, CodeGenError>)
    ensures
        rendered(result) == render_names(nodes_view(nodes@), list),
{
    let ghost views = nodes_view(nodes@);
    let mut out = String::new();
    let mut i: usize = 0;
    proof {
        lemma_nodes_view(nodes@);
    }
    while i < nodes.len()
        invariant
            i <= nodes.len(),
            views == nodes_view(nodes@),
            views.len() == nodes.len(),
            forall|k: int| 0 <= k < nodes.len() ==> #[trigger] views[k] == nodes@[k]@,
            render_names(views.take(i as int), list) == Ok::<Seq<char>, CodeGenErrorView>(out@),
        decreases nodes.len() - i,
    {
        proof {
            assert(views.take(i + 1).drop_last() =~= views.take(i as int));
        }
        match &nodes[i] {
            Node::VariableCall(name) => {
                if i > 0 {
                    out.append(",");
                }
                out.append(name.as_str());
            },
            other => {
                let e = misplaced_node(list, other);
                proof {
                    lemma_render_names_fails_early(views, list, i + 1);
                }
                return Err(e);
            },
        }
        i = i + 1;
    }
    proof {
        assert(views.take(i as int) =~= views);
    }
    Ok(out)
}

/// Renders one node.
fn generate_node(node: &Node) -> (result: Result<String, CodeGenError>)
    ensures
        rendered(result) == render_node(node@),
    decreases node, 0nat,
{
    match node {
        Node::StringLiteral(text) => {
            let mut out = "\"".to_owned();
            out.append(text.as_str());
            out.append("\"");
            Ok(out)
        },
        Node::NumberLiteral(text) => Ok(text.clone()),
        Node::Symbol(symbol) => Ok(symbol_str(*symbol).to_owned()),
        Node::BracketOpen(bracket) => Ok(open_str(*bracket).to_owned()),
        Node::BracketClose(bracket) => Ok(close_str(*bracket).to_owned()),
        Node::NewLine => Ok(";".to_owned()),
        Node::VariableCall(name) => Ok(name.clone()),
        Node::Variable { name, value } => {
            match generate(value) {
                Err(e) => Err(e),
                Ok(value_text) => {
                    let mut out = "let ".to_owned();
                    out.append(name.as_str());
                    out.append(value_text.as_str());
                    Ok(out)
                },
            }
        },
        Node::IfStatement { condition, body } => {
            match generate(condition) {
                Err(e) => Err(e),
                Ok(condition_text) => match generate(body) {
                    Err(e) => Err(e),
                    Ok(body_text) => {
                        let mut out = "if (".to_owned();
                        out.append(condition_text.as_str());
                        out.append("){\n");
                        out.append(body_text.as_str());
                        out.append("}\n");
                        Ok(out)
                    },
                },
            }
        },
        Node::ElseStatement { body } => {
            match generate(body) {
                Err(e) => Err(e),
                Ok(body_text) => {
                    let mut out = "else{\n".to_owned();
                    out.append(body_text.as_str());
                    out.append("}\n");
                    Ok(out)
                },
            }
        },
        Node::WhileLoop { condition, body } => {
            match generate(condition) {
                Err(e) => Err(e),
                Ok(condition_text) => match generate(body) {
                    Err(e) => Err(e),
                    Ok(body_text) => {
                        let mut out = "while (".to_owned();
                        out.append(condition_text.as_str());
                        out.append("){\n");
                        out.append(body_text.as_str());
                        out.append("}\n");
                        Ok(out)
                    },
                },
            }
        },
        Node::ForLoop { var_name, start, end, body } => {
            match generate(body) {
                Err(e) => Err(e),
                Ok(body_text) => {
                    let mut out = "for (let ".to_owned();
                    out.append(var_name.as_str());
                    out.append("=");
                    out.append(start.as_str());
                    out.append("; ");
                    out.append(var_name.as_str());
                    out.append("===");
                    out.append(end.as_str());
                    out.append("; ");
                    out.append(var_name.as_str());
                    out.append("++){\n");
                    out.append(body_text.as_str());
                    out.append("}\n");
                    Ok(out)
                },
            }
        },
        Node::Function { name, params, body } => {
            match generate_names(params, NameList::Parameters) {
                Err(e) => Err(e),
                Ok(params_text) => match generate(body) {
                    Err(e) => Err(e),
                    Ok(body_text) => {
                        let mut out = "function ".to_owned();
                        out.append(name.as_str());
                        out.append("(");
                        out.append(params_text.as_str());
                        out.append("){\n");
                        out.append(body_text.as_str());
                        out.append("}\n");
                        Ok(out)
                    },
                },
            }
        },
        Node::FunctionCall { name, args } => {
            match generate_names(args, NameList::Arguments) {
                Err(e) => Err(e),
                Ok(args_text) => {
                    let mut out = name.clone();
                    out.append("(");
                    out.append(args_text.as_str());
                    out.append(")");
                    Ok(out)
                },
            }
        },
    }
}

/// Renders a sequence of nodes, on borrowed nodes.
pub fn generate(nodes: &Vec<Node>) -> (result: Result<String, CodeGenError>)
    ensures
        rendered(result) == render(nodes_view(nodes@)),
    decreases nodes, 1nat,
{
    let ghost views = nodes_view(nodes@);
    let mut out = String::new();
    let mut i: usize = 0;
    proof {
        lemma_nodes_view(nodes@);
    }
    while i < nodes.len()
        invariant
            i <= nodes.len(),
            views == nodes_view(nodes@),
            views.len() == nodes.len(),
            forall|k: int| 0 <= k < nodes.len() ==> #[trigger] views[k] == nodes@[k]@,
            render(views.take(i as int)) == Ok::<Seq<char>, CodeGenErrorView>(out@),
        decreases nodes.len() - i,
    {
        proof {
            assert(views.take(i + 1).drop_last() =~= views.take(i as int));
        }
        match generate_node(&nodes[i]) {
            Err(e) => {
                proof {
                    lemma_render_fails_early(views, i + 1);
                }
                return Err(e);
            },
            Ok(text) => {
                out.append(text.as_str());
            },
        }
        i = i + 1;
    }
    proof {
        assert(views.take(i as int) =~= views);
    }
    Ok(out)
}

/// Renders the tree as text.
///
/// The result is exactly [`render`] of the nodes: the output text, or the
/// first failure met in a walk from the left, with the node that caused it.
pub fn code_generator(ast: Vec<Node>) -> (result: Result<String, CodeGenError>)
    ensures
        rendered(result) == render(nodes_view(ast@)),
{
    generate(&ast)
}

} // verus!
