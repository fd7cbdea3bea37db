//! The syntax tree: nodes, their views, and the result of a parse.

use crate::token::{Bracket, Symbol};
use vstd::prelude::*;

verus! {

/// One element of the syntax tree.
#[derive(Debug, PartialEq, Eq)]
pub enum Node {
    StringLiteral(String),
    NumberLiteral(String),
    Symbol(Symbol),
    BracketOpen(Bracket),
    BracketClose(Bracket),
    /// The mark that a bare `;` leaves: a statement boundary.
    NewLine,
    /// A use of a name.
    VariableCall(String),
    /// A declaration: `let name value...`.
    Variable { name: String, value: Vec<Node> },
    IfStatement { condition: Vec<Node>, body: Vec<Node> },
    ElseStatement { body: Vec<Node> },
    /// A counting loop from `start` to `end`, both kept as text.
    ForLoop { var_name: String, start: String, end: String, body: Vec<Node> },
    WhileLoop { condition: Vec<Node>, body: Vec<Node> },
    Function { name: String, params: Vec<Node>, body: Vec<Node> },
    FunctionCall { name: String, args: Vec<Node> },
}

/// The mathematical value of a [`Node`]: the same shape, with text as a
/// sequence of code points and children as a sequence of views.
pub enum NodeView {
    StringLiteral(Seq<char>),
    NumberLiteral(Seq<char>),
    Symbol(Symbol),
    BracketOpen(Bracket),
    BracketClose(Bracket),
    NewLine,
    VariableCall(Seq<char>),
    Variable { name: Seq<char>, value: Seq<NodeView> },
    IfStatement { condition: Seq<NodeView>, body: Seq<NodeView> },
    ElseStatement { body: Seq<NodeView> },
    ForLoop { var_name: Seq<char>, start: Seq<char>, end: Seq<char>, body: Seq<NodeView> },
    WhileLoop { condition: Seq<NodeView>, body: Seq<NodeView> },
    Function { name: Seq<char>, params: Seq<NodeView>, body: Seq<NodeView> },
    FunctionCall { name: Seq<char>, args: Seq<NodeView> },
}

/// The view of one node.
pub open spec fn node_view(node: Node) -> NodeView
    decreases node, 0nat,
{
    match node {
        Node::StringLiteral(s) => NodeView::StringLiteral(s@),
        Node::NumberLiteral(s) => NodeView::NumberLiteral(s@),
        Node::Symbol(s) => NodeView::Symbol(s),
        Node::BracketOpen(b) => NodeView::BracketOpen(b),
        Node::BracketClose(b) => NodeView::BracketClose(b),
        Node::NewLine => NodeView::NewLine,
        Node::VariableCall(s) => NodeView::VariableCall(s@),
        Node::Variable { name, value } => NodeView::Variable {
            name: name@,
            value: nodes_view(value@),
        },
        Node::IfStatement { condition, body } => NodeView::IfStatement {
            condition: nodes_view(condition@),
            body: nodes_view(body@),
        },
        Node::ElseStatement { body } => NodeView::ElseStatement { body: nodes_view(body@) },
        Node::ForLoop { var_name, start, end, body } => NodeView::ForLoop {
            var_name: var_name@,
            start: start@,
            end: end@,
            body: nodes_view(body@),
        },
        Node::WhileLoop { condition, body } => NodeView::WhileLoop {
            condition: nodes_view(condition@),
            body: nodes_view(body@),
        },
        Node::Function { name, params, body } => NodeView::Function {
            name: name@,
            params: nodes_view(params@),
            body: nodes_view(body@),
        },
        Node::FunctionCall { name, args } => NodeView::FunctionCall {
            name: name@,
            args: nodes_view(args@),
        },
    }
}

/// The views of a sequence of nodes, in the same order.
pub open spec fn nodes_view(nodes: Seq<Node>) -> Seq<NodeView>
    decreases nodes, 1nat,
{
    if nodes.len() == 0 {
        Seq::empty()
    } else {
        nodes_view(nodes.drop_last()).push(node_view(nodes.last()))
    }
}

impl View for Node {
    type V = NodeView;

    open spec fn view(&self) -> NodeView {
        node_view(*self)
    }
}

/// `nodes_view` keeps the length and maps each node to its view.
pub proof fn lemma_nodes_view(nodes: Seq<Node>)
    ensures
        nodes_view(nodes).len() == nodes.len(),
        forall|i: int|
            0 <= i < nodes.len() ==> #[trigger] nodes_view(nodes)[i] == node_view(nodes[i]),
    decreases nodes.len(),
{
    if nodes.len() > 0 {
        lemma_nodes_view(nodes.drop_last());
    }
}

/// The view of a sequence with one more node at its end.
pub proof fn lemma_nodes_view_push(nodes: Seq<Node>, node: Node)
    ensures
        nodes_view(nodes.push(node)) == nodes_view(nodes).push(node_view(node)),
{
    assert(nodes.push(node).drop_last() == nodes);
}

/// The view of two sequences joined is the two views joined.
pub proof fn lemma_nodes_view_concat(front: Seq<Node>, back: Seq<Node>)
    ensures
        nodes_view(front + back) == nodes_view(front) + nodes_view(back),
{
    lemma_nodes_view(front);
    lemma_nodes_view(back);
    lemma_nodes_view(front + back);
}

impl Node {
    /// A copy of this node, children included, with the same view.
    pub fn duplicate(&self) -> (copy: Node)
        ensures
            copy@ == self@,
        decreases self,
    {
        match self {
            Node::StringLiteral(text) => Node::StringLiteral(text.clone()),
            Node::NumberLiteral(text) => Node::NumberLiteral(text.clone()),
            Node::Symbol(symbol) => Node::Symbol(*symbol),
            Node::BracketOpen(bracket) => Node::BracketOpen(*bracket),
            Node::BracketClose(bracket) => Node::BracketClose(*bracket),
            Node::NewLine => Node::NewLine,
            Node::VariableCall(name) => Node::VariableCall(name.clone()),
            Node::Variable { name, value } => Node::Variable {
                name: name.clone(),
                value: duplicate_nodes(value),
            },
            Node::IfStatement { condition, body } => Node::IfStatement {
                condition: duplicate_nodes(condition),
                body: duplicate_nodes(body),
            },
            Node::ElseStatement { body } => Node::ElseStatement { body: duplicate_nodes(body) },
            Node::ForLoop { var_name, start, end, body } => Node::ForLoop {
                var_name: var_name.clone(),
                start: start.clone(),
                end: end.clone(),
                body: duplicate_nodes(body),
            },
            Node::WhileLoop { condition, body } => Node::WhileLoop {
                condition: duplicate_nodes(condition),
                body: duplicate_nodes(body),
            },
            Node::Function { name, params, body } => Node::Function {
                name: name.clone(),
                params: duplicate_nodes(params),
                body: duplicate_nodes(body),
            },
            Node::FunctionCall { name, args } => Node::FunctionCall {
                name: name.clone(),
                args: duplicate_nodes(args),
            },
        }
    }
}

/// A copy of `nodes`, children included, with the same views.
pub fn duplicate_nodes(nodes: &Vec<Node>) -> (copy: Vec<Node>)
    ensures
        nodes_view(copy@) == nodes_view(nodes@),
    decreases nodes,
{
    let mut copy: Vec<Node> = Vec::new();
    let mut i: usize = 0;
    while i < nodes.len()
        invariant
            i <= nodes.len(),
            nodes_view(copy@) == nodes_view(nodes@.take(i as int)),
        decreases nodes.len() - i,
    {
        let node = nodes[i].duplicate();
        proof {
            lemma_nodes_view_push(copy@, node);
            lemma_nodes_view_push(nodes@.take(i as int), nodes@[i as int]);
            assert(nodes@.take(i as int).push(nodes@[i as int]) =~= nodes@.take(i + 1));
        }
        copy.push(node);
        i = i + 1;
    }
    assert(nodes@.take(i as int) =~= nodes@);
    copy
}

/// What a parse returns: the nodes of a block, and where the block ended.
#[derive(Debug, PartialEq, Eq)]
pub struct Output {
    /// The nodes of the block, in source order.
    pub body: Vec<Node>,
    /// The index of the closing brace that ended the block, or the index at
    /// which the input ended.
    pub end_index: usize,
}

impl View for Output {
    type V = (Seq<NodeView>, int);

    open spec fn view(&self) -> (Seq<NodeView>, int) {
        (nodes_view(self.body@), self.end_index as int)
    }
}

} // verus!
