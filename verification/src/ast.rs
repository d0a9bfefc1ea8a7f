//! The abstract syntax tree produced by a parse, together with its
//! mathematical view.

use vstd::prelude::*;

verus! {

/// A node of the abstract syntax tree.
#[derive(Debug, PartialEq, Eq)]
pub enum Node {
    /// A binary operation: the operator token and its two operands.
    Operator(String, Box<Node>, Box<Node>),
    /// An explicitly parenthesized sub-expression.
    Parentheses(Box<Node>),
    /// An operand token that is not an operator, `(`, or `)`.
    Primitive(String),
    /// A synthesized leaf standing in for an elided operand.
    Placeholder(),
}

/// The mathematical shape of a [`Node`]: the same tree with every token
/// abstracted to its character sequence.
pub ghost enum NodeView {
    Operator(Seq<char>, Box<NodeView>, Box<NodeView>),
    Parentheses(Box<NodeView>),
    Primitive(Seq<char>),
    Placeholder,
}

pub open spec fn node_view(n: Node) -> NodeView
    decreases n,
{
    match n {
        Node::Operator(label, left, right) => NodeView::Operator(
            label@,
            Box::new(node_view(*left)),
            Box::new(node_view(*right)),
        ),
        Node::Parentheses(inner) => NodeView::Parentheses(Box::new(node_view(*inner))),
        Node::Primitive(label) => NodeView::Primitive(label@),
        Node::Placeholder() => NodeView::Placeholder,
    }
}

impl View for Node {
    type V = NodeView;

    open spec fn view(&self) -> NodeView {
        node_view(*self)
    }
}

/// The view of a parse outcome: the view of the tree on success,
/// `None` on failure.
pub open spec fn result_view(r: Option<Node>) -> Option<NodeView> {
    match r {
        Some(node) => Some(node_view(node)),
        None => None,
    }
}

} // verus!
