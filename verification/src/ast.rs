//! The syntax tree that the parser builds and the evaluator walks.

use crate::decimal::DecimalArith;
use crate::error::{Error, ParseErrorKind};
use vstd::prelude::*;
use vstd::string::*;

verus! {

/// An arithmetic operator.
#[derive(PartialEq, Eq, Structural, Clone, Copy, Debug)]
pub enum Operator {
    Add,
    Sub,
    Mul,
    Div,
    Exp,
}

/// The operator that a text of one character denotes, if any.
pub open spec fn operator_of(text: Seq<u8>) -> Option<Operator> {
    if text == seq![0x2bu8] {
        Some(Operator::Add)
    } else if text == seq![0x2du8] {
        Some(Operator::Sub)
    } else if text == seq![0x2au8] {
        Some(Operator::Mul)
    } else if text == seq![0x2fu8] {
        Some(Operator::Div)
    } else if text == seq![0x5eu8] {
        Some(Operator::Exp)
    } else {
        None
    }
}

/// The character that an operator is written with.
pub open spec fn operator_symbol(op: Operator) -> Seq<char> {
    match op {
        Operator::Add => "+"@,
        Operator::Sub => "-"@,
        Operator::Mul => "*"@,
        Operator::Div => "/"@,
        Operator::Exp => "^"@,
    }
}

impl Operator {
    /// The operator that `item` denotes: one of `+ - * / ^`.
    pub fn from_symbol(item: &str) -> (res: Result<Operator, Error>)
        ensures
            match operator_of(item.spec_bytes()) {
                Some(op) => res == Ok::<Operator, Error>(op),
                None => res == Err::<Operator, Error>(
                    Error::ParserError(ParseErrorKind::UnknownOperator),
                ),
            },
    {
        let bytes = item.as_bytes();
        if bytes.len() != 1 {
            return Err(Error::ParserError(ParseErrorKind::UnknownOperator));
        }
        let c = bytes[0];
        assert(bytes@ =~= seq![c]);
        if c == 0x2b {
            Ok(Operator::Add)
        } else if c == 0x2d {
            Ok(Operator::Sub)
        } else if c == 0x2a {
            Ok(Operator::Mul)
        } else if c == 0x2f {
            Ok(Operator::Div)
        } else if c == 0x5e {
            Ok(Operator::Exp)
        } else {
            Err(Error::ParserError(ParseErrorKind::UnknownOperator))
        }
    }

    /// The character that the operator is written with.
    pub fn symbol(&self) -> (text: &'static str)
        ensures
            text@ == operator_symbol(*self),
    {
        match self {
            Operator::Add => "+",
            Operator::Sub => "-",
            Operator::Mul => "*",
            Operator::Div => "/",
            Operator::Exp => "^",
        }
    }
}

/// A node of the syntax tree. A node owns its children.
///
/// A decimal literal holds the bits of its IEEE 754 encoding. Names are
/// slices of the source text.
#[derive(Debug)]
pub enum Node<'a> {
    Number(i64),
    Decimal(u64),
    Array(Vec<Node<'a>>),
    Variable(&'a str),
    Call { function: &'a str, arguments: Vec<Node<'a>> },
    Assign { lhs: Box<Node<'a>>, rhs: Box<Node<'a>> },
    UnaryOp { op: Operator, rhs: Box<Node<'a>> },
    BinaryOp { op: Operator, lhs: Box<Node<'a>>, rhs: Box<Node<'a>> },
}

/// A syntax tree as the grammar describes it: the tree with its names as
/// byte sequences, and with each decimal literal as the text that it is
/// written with.
pub enum NodeView {
    Number(int),
    Decimal(Seq<u8>),
    Array(Seq<NodeView>),
    Variable(Seq<u8>),
    Call { function: Seq<u8>, arguments: Seq<NodeView> },
    Assign { lhs: Box<NodeView>, rhs: Box<NodeView> },
    UnaryOp { op: Operator, rhs: Box<NodeView> },
    BinaryOp { op: Operator, lhs: Box<NodeView>, rhs: Box<NodeView> },
}

/// Whether `bits` is the decimal that the arithmetic unit answered when it
/// was asked what the literal with the text `text` denotes.
pub open spec fn denotes<A: DecimalArith>(arith: &A, text: Seq<u8>, bits: u64) -> bool {
    exists|literal: &str|
        #![trigger call_ensures(A::parse, (arith, literal), bits)]
        literal.spec_bytes() == text && call_ensures(A::parse, (arith, literal), bits)
}

/// Whether `node` is the tree that `view` describes, with the arithmetic
/// unit `arith`: the two are the same, and each decimal literal of `node`
/// holds what the unit answered for its text.
pub open spec fn reads_as<A: DecimalArith>(arith: &A, node: Node, view: NodeView) -> bool
    decreases node, 1nat,
{
    match (node, view) {
        (Node::Number(n), NodeView::Number(m)) => n == m,
        (Node::Decimal(bits), NodeView::Decimal(text)) => denotes(arith, text, bits),
        (Node::Array(items), NodeView::Array(views)) => all_read_as(arith, items@, views),
        (Node::Variable(name), NodeView::Variable(text)) => name.spec_bytes() == text,
        (
            Node::Call { function, arguments },
            NodeView::Call { function: name, arguments: views },
        ) => function.spec_bytes() == name && all_read_as(arith, arguments@, views),
        (Node::Assign { lhs, rhs }, NodeView::Assign { lhs: target, rhs: value }) => reads_as(
            arith,
            *lhs,
            *target,
        ) && reads_as(arith, *rhs, *value),
        (Node::UnaryOp { op, rhs }, NodeView::UnaryOp { op: sign, rhs: operand }) => op == sign
            && reads_as(arith, *rhs, *operand),
        (
            Node::BinaryOp { op, lhs, rhs },
            NodeView::BinaryOp { op: sign, lhs: left, rhs: right },
        ) => op == sign && reads_as(arith, *lhs, *left) && reads_as(arith, *rhs, *right),
        _ => false,
    }
}

/// Whether `nodes` are the trees that `views` describe, one by one.
pub open spec fn all_read_as<A: DecimalArith>(
    arith: &A,
    nodes: Seq<Node>,
    views: Seq<NodeView>,
) -> bool
    decreases nodes, 0nat,
{
    &&& nodes.len() == views.len()
    &&& forall|i: int|
        0 <= i < nodes.len() && i < views.len() ==> reads_as(arith, #[trigger] nodes[i], views[i])
}

/// Whether a node that may be absent is the tree that `view` describes.
pub open spec fn may_read_as<A: DecimalArith>(
    arith: &A,
    node: Option<Node>,
    view: Option<NodeView>,
) -> bool {
    match (node, view) {
        (Some(node), Some(view)) => reads_as(arith, node, view),
        (None, None) => true,
        _ => false,
    }
}

} // verus!
