//! The syntax tree that the parser hands to the evaluator.

use vstd::prelude::*;
use crate::number::Real;
use crate::pos::Pos;

verus! {

/// An expression; one without a node is the empty expression, which the
/// grammar allows in some places.
#[derive(Debug, PartialEq)]
pub struct Expression(pub Option<PosNode>);

/// A node of the tree with the range of source text that it was read from.
#[derive(Debug, PartialEq)]
pub struct PosNode {
    pub pos: Pos,
    pub node: Node,
}

#[derive(Debug, PartialEq)]
pub enum Node {
    /// A name, and whether it was written with a leading dollar sign.
    Identifier(String, bool),
    Number(Real),
    /// A string literal, after its escapes were resolved.
    String(String),
    Member(Box<Expression>, String),
    Unary(UnaryOperator, Box<Expression>),
    Binary(BinaryOperator, Box<Expression>, Box<Expression>),
    Invocation(Box<Expression>, Vec<Expression>),
    Group(Box<Expression>),
}

#[derive(Clone, Copy, Debug, PartialEq, Eq, Structural, Hash)]
pub enum UnaryOperator {
    Nop,
    Minus,
    Reciprocal,
    Not,
}

#[derive(Clone, Copy, Debug, PartialEq, Eq, Structural, Hash)]
pub enum BinaryOperator {
    Add,
    Sub,
    Mul,
    Div,
    Pow,
    Less,
    Greater,
    LeftShift,
    RightShift,
    Equal,
    NotEqual,
    And,
    Or,
}

/// What an [`Expression`] holds, with sequences in place of strings and
/// vectors.
pub struct ExpressionView(pub Option<PosNodeView>);

pub struct PosNodeView {
    pub pos: Pos,
    pub node: NodeView,
}

pub enum NodeView {
    Identifier(Seq<char>, bool),
    Number(Real),
    String(Seq<char>),
    Member(Box<ExpressionView>, Seq<char>),
    Unary(UnaryOperator, Box<ExpressionView>),
    Binary(BinaryOperator, Box<ExpressionView>, Box<ExpressionView>),
    Invocation(Box<ExpressionView>, Seq<ExpressionView>),
    Group(Box<ExpressionView>),
}

impl Expression {
    pub open spec fn view(&self) -> ExpressionView
        decreases self,
    {
        match self.0 {
            Some(inner) => ExpressionView(Some(inner.view())),
            None => ExpressionView(None),
        }
    }

    pub fn new(pos: Pos, node: Node) -> (result: Expression)
        ensures
            result.0 == Some(PosNode { pos, node }),
            result@ == ExpressionView(Some(PosNodeView { pos, node: node@ })),
    {
        Expression(Some(PosNode { pos, node }))
    }

    pub fn empty() -> (result: Expression)
        ensures
            result.0 is None,
            result@ == ExpressionView(None),
    {
        Expression(None)
    }

    pub fn is_empty(&self) -> (result: bool)
        ensures
            result == self.0 is None,
            result == self@.0 is None,
    {
        self.0.is_none()
    }

    /// The range of the expression in the source; the empty expression has
    /// none.
    pub fn pos(&self) -> (result: Option<Pos>)
        ensures
            result == match self.0 {
                Some(inner) => Some(inner.pos),
                None => None,
            },
            result == match self@.0 {
                Some(inner) => Some(inner.pos),
                None => None,
            },
    {
        match &self.0 {
            Some(inner) => Some(inner.pos),
            None => None,
        }
    }

    /// The name and the dollar flag, if the expression is a lone identifier.
    pub fn try_into_identifier(self) -> (result: Option<(String, bool)>)
        ensures
            result == match self.0 {
                Some(PosNode { node: Node::Identifier(identifier, dollar), .. }) => Some((identifier, dollar)),
                _ => None,
            },
    {
        match self.0 {
            Some(PosNode { node: Node::Identifier(identifier, dollar), .. }) => Some((identifier, dollar)),
            _ => None,
        }
    }
}

impl PosNode {
    pub open spec fn view(&self) -> PosNodeView
        decreases self,
    {
        PosNodeView { pos: self.pos, node: self.node.view() }
    }
}

impl Node {
    pub open spec fn view(&self) -> NodeView
        decreases self,
    {
        match self {
            Node::Identifier(name, dollar) => NodeView::Identifier(name@, *dollar),
            Node::Number(value) => NodeView::Number(*value),
            Node::String(s) => NodeView::String(s@),
            Node::Member(object, name) => NodeView::Member(Box::new(object.view()), name@),
            Node::Unary(operator, operand) => NodeView::Unary(*operator, Box::new(operand.view())),
            Node::Binary(operator, left, right) => NodeView::Binary(
                *operator,
                Box::new(left.view()),
                Box::new(right.view()),
            ),
            Node::Invocation(callee, arguments) => NodeView::Invocation(
                Box::new(callee.view()),
                Seq::new(
                    arguments.len() as nat,
                    |i: int|
                        if 0 <= i < arguments.len() {
                            arguments[i].view()
                        } else {
                            ExpressionView(None)
                        },
                ),
            ),
            Node::Group(inner) => NodeView::Group(Box::new(inner.view())),
        }
    }
}

} // verus!
