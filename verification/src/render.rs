//! Values and syntax trees as text.
//!
//! An integer is written with its decimal digits. How a decimal is written
//! is asked of the arithmetic unit.

use crate::ast::{operator_symbol, Node};
use crate::decimal::DecimalArith;
use crate::value::{datums, Datum, Value};
use vstd::prelude::*;
use vstd::string::*;

verus! {

/// The character of a digit.
pub open spec fn digit(d: int) -> char {
    if d == 0 {
        '0'
    } else if d == 1 {
        '1'
    } else if d == 2 {
        '2'
    } else if d == 3 {
        '3'
    } else if d == 4 {
        '4'
    } else if d == 5 {
        '5'
    } else if d == 6 {
        '6'
    } else if d == 7 {
        '7'
    } else if d == 8 {
        '8'
    } else {
        '9'
    }
}

/// The decimal digits of a natural number, without leading zeros.
pub open spec fn natural_text(n: nat) -> Seq<char>
    decreases n,
{
    if n < 10 {
        seq![digit(n as int)]
    } else {
        natural_text(n / 10).push(digit((n % 10) as int))
    }
}

/// An integer as text: its digits, behind a minus sign if it is negative.
pub open spec fn integer_text(n: int) -> Seq<char> {
    if n < 0 {
        seq!['-'] + natural_text((-n) as nat)
    } else {
        natural_text(n as nat)
    }
}

/// Whether `text` is how the arithmetic unit writes a decimal for a reader.
pub open spec fn displays<A: DecimalArith>(arith: &A, bits: u64, text: Seq<char>) -> bool {
    exists|written: String|
        #![trigger call_ensures(A::display, (arith, bits), written)]
        written@ == text && call_ensures(A::display, (arith, bits), written)
}

/// Whether `text` is how the arithmetic unit writes a decimal in full.
pub open spec fn debugs<A: DecimalArith>(arith: &A, bits: u64, text: Seq<char>) -> bool {
    exists|written: String|
        #![trigger call_ensures(A::debug, (arith, bits), written)]
        written@ == text && call_ensures(A::debug, (arith, bits), written)
}

/// The texts of a list, with a comma and a blank between two.
pub open spec fn joined(parts: Seq<Seq<char>>) -> Seq<char>
    decreases parts.len(),
{
    if parts.len() == 0 {
        Seq::empty()
    } else if parts.len() == 1 {
        parts[0]
    } else {
        joined(parts.drop_last()) + ", "@ + parts.last()
    }
}

/// A text between two others.
pub open spec fn framed(before: Seq<char>, text: Seq<char>, after: Seq<char>) -> Seq<char> {
    before + text + after
}

/// Two texts with a comma and a blank between them.
pub open spec fn paired(left: Seq<char>, right: Seq<char>) -> Seq<char> {
    left + ", "@ + right
}

/// Whether `text` is a value in full: the name of its variant and, in
/// parentheses, an integer's digits, a decimal as the unit writes it in
/// full, or the list of the elements of an array.
pub open spec fn debugged<A: DecimalArith>(arith: &A, value: Datum, text: Seq<char>) -> bool
    decreases value, 1nat,
{
    match value {
        Datum::Number(n) => text == framed("Number("@, integer_text(n), ")"@),
        Datum::Decimal(bits) => exists|inner: Seq<char>|
            #![trigger framed("Decimal("@, inner, ")"@)]
            debugs(arith, bits, inner) && text == framed("Decimal("@, inner, ")"@),
        Datum::Array(items) => exists|inner: Seq<char>|
            #![trigger framed("Array("@, inner, ")"@)]
            listed(arith, items, inner) && text == framed("Array("@, inner, ")"@),
    }
}

/// Whether `text` is the list of the values: each of them in full, with
/// commas between them, in brackets.
pub open spec fn listed<A: DecimalArith>(arith: &A, items: Seq<Datum>, text: Seq<char>) -> bool
    decreases items, 0nat,
{
    exists|parts: Seq<Seq<char>>|
        #![trigger joined(parts)]
        parts.len() == items.len() && (forall|i: int|
            0 <= i < items.len() && i < parts.len() ==> debugged(
                arith,
                #[trigger] items[i],
                parts[i],
            )) && text == "["@ + joined(parts) + "]"@
}

/// Whether `text` is a value as it is shown to a reader: an integer by its
/// digits, a decimal as the unit writes it, an array as the list of its
/// elements in full.
pub open spec fn displayed<A: DecimalArith>(arith: &A, value: Datum, text: Seq<char>) -> bool {
    match value {
        Datum::Number(n) => text == integer_text(n),
        Datum::Decimal(bits) => displays(arith, bits, text),
        Datum::Array(items) => listed(arith, items, text),
    }
}

/// The digit `d` as text.
fn digit_str(d: u64) -> (text: &'static str)
    requires
        d < 10,
    ensures
        text@ == seq![digit(d as int)],
{
    proof {
        reveal_strlit("0");
        reveal_strlit("1");
        reveal_strlit("2");
        reveal_strlit("3");
        reveal_strlit("4");
        reveal_strlit("5");
        reveal_strlit("6");
        reveal_strlit("7");
        reveal_strlit("8");
        reveal_strlit("9");
    }
    let text = if d == 0 {
        "0"
    } else if d == 1 {
        "1"
    } else if d == 2 {
        "2"
    } else if d == 3 {
        "3"
    } else if d == 4 {
        "4"
    } else if d == 5 {
        "5"
    } else if d == 6 {
        "6"
    } else if d == 7 {
        "7"
    } else if d == 8 {
        "8"
    } else {
        "9"
    };
    assert(text@ =~= seq![digit(d as int)]);
    text
}

/// A natural number as text.
pub fn natural_string(n: u64) -> (text: String)
    ensures
        text@ == natural_text(n as nat),
    decreases n,
{
    if n < 10 {
        String::from_str(digit_str(n))
    } else {
        let front = natural_string(n / 10);
        let text = front.concat(digit_str(n % 10));
        assert(text@ =~= natural_text((n / 10) as nat).push(digit((n % 10) as int)));
        text
    }
}

/// An integer as text.
pub fn integer_string(n: i64) -> (text: String)
    ensures
        text@ == integer_text(n as int),
{
    if n >= 0 {
        natural_string(n as u64)
    } else {
        let size: u64 = if n == i64::MIN {
            0x8000_0000_0000_0000
        } else {
            (-n) as u64
        };
        proof {
            reveal_strlit("-");
        }
        let text = String::from_str("-").concat(natural_string(size).as_str());
        assert(text@ =~= seq!['-'] + natural_text((-n) as nat));
        text
    }
}

impl Value {
    /// The list of the values: each of them in full, with commas between
    /// them, in brackets.
    fn list<A: DecimalArith>(items: &Vec<Value>, arith: &A) -> (text: String)
        ensures
            listed(arith, datums(items@), text@),
        decreases items, 0nat,
    {
        let mut text = String::from_str("[");
        let ghost mut parts: Seq<Seq<char>> = Seq::empty();
        let mut i: usize = 0;
        while i < items.len()
            invariant
                i <= items.len(),
                parts.len() == i,
                forall|k: int| 0 <= k < i ==> debugged(arith, (#[trigger] items[k]).datum(), parts[k]),
                text@ == "["@ + joined(parts),
            decreases items.len() - i,
        {
            if i > 0 {
                text = text.concat(", ");
            }
            let part = items[i].debug(arith);
            let ghost before = parts;
            proof {
                parts = parts.push(part@);
                assert(parts.drop_last() =~= before);
            }
            text = text.concat(part.as_str());
            assert(text@ =~= "["@ + joined(parts));
            i += 1;
        }
        text = text.concat("]");
        proof {
            let data = datums(items@);
            assert forall|k: int| 0 <= k < data.len() && k < parts.len() implies debugged(
                arith,
                #[trigger] data[k],
                parts[k],
            ) by {
                assert(data[k] == items[k].datum());
            }
        }
        text
    }

    /// The value in full: with the name of its variant.
    pub fn debug<A: DecimalArith>(&self, arith: &A) -> (text: String)
        ensures
            debugged(arith, self.datum(), text@),
        decreases self, 1nat,
    {
        match self {
            Value::Number(n) => {
                let text = String::from_str("Number(").concat(integer_string(*n).as_str()).concat(
                    ")",
                );
                assert(text@ =~= framed("Number("@, integer_text(*n as int), ")"@));
                text
            },
            Value::Decimal(bits) => {
                let inner = arith.debug(*bits);
                let text = String::from_str("Decimal(").concat(inner.as_str()).concat(")");
                assert(text@ =~= framed("Decimal("@, inner@, ")"@));
                text
            },
            Value::Array(items) => {
                let inner = Value::list(items, arith);
                let text = String::from_str("Array(").concat(inner.as_str()).concat(")");
                assert(text@ =~= framed("Array("@, inner@, ")"@));
                text
            },
        }
    }

    /// The value as it is shown to a reader.
    pub fn display<A: DecimalArith>(&self, arith: &A) -> (text: String)
        ensures
            displayed(arith, self.datum(), text@),
    {
        match self {
            Value::Number(n) => integer_string(*n),
            Value::Decimal(bits) => arith.display(*bits),
            Value::Array(items) => Value::list(items, arith),
        }
    }
}

/// Whether `text` is a syntax tree as text: the name of the kind of the
/// node and, in parentheses, what the node holds, its children as text.
pub open spec fn node_text<A: DecimalArith>(arith: &A, node: Node, text: Seq<char>) -> bool
    decreases node, 1nat,
{
    match node {
        Node::Number(n) => text == framed("NumberNode("@, integer_text(n as int), ")"@),
        Node::Decimal(bits) => exists|inner: Seq<char>|
            #![trigger framed("DecimalNode("@, inner, ")"@)]
            displays(arith, bits, inner) && text == framed("DecimalNode("@, inner, ")"@),
        Node::Array(items) => exists|inner: Seq<char>|
            #![trigger framed("ArrayNode("@, inner, ")"@)]
            node_list(arith, items@, inner) && text == framed("ArrayNode("@, inner, ")"@),
        Node::Variable(name) => text == framed("VariableNode("@, name@, ")"@),
        Node::Call { function, arguments } => exists|inner: Seq<char>|
            #![trigger paired(function@, inner)]
            node_list(arith, arguments@, inner) && text == framed(
                "CallNode("@,
                paired(function@, inner),
                ")"@,
            ),
        Node::Assign { lhs, rhs } => exists|left: Seq<char>, right: Seq<char>|
            #![trigger paired(left, right)]
            node_text(arith, *lhs, left) && node_text(arith, *rhs, right) && text == framed(
                "AssignNode("@,
                paired(left, right),
                ")"@,
            ),
        Node::UnaryOp { op, rhs } => exists|right: Seq<char>|
            #![trigger paired(operator_symbol(op), right)]
            node_text(arith, *rhs, right) && text == framed(
                "UnaryOpNode("@,
                paired(operator_symbol(op), right),
                ")"@,
            ),
        Node::BinaryOp { op, lhs, rhs } => exists|left: Seq<char>, right: Seq<char>|
            #![trigger paired(left, paired(operator_symbol(op), right))]
            node_text(arith, *lhs, left) && node_text(arith, *rhs, right) && text == framed(
                "BinaryOpNode("@,
                paired(left, paired(operator_symbol(op), right)),
                ")"@,
            ),
    }
}

/// Whether `text` is the list of the trees: each of them as text, with
/// commas between them, in brackets.
pub open spec fn node_list<A: DecimalArith>(arith: &A, nodes: Seq<Node>, text: Seq<char>) -> bool
    decreases nodes, 0nat,
{
    exists|parts: Seq<Seq<char>>|
        #![trigger joined(parts)]
        parts.len() == nodes.len() && (forall|i: int|
            0 <= i < nodes.len() && i < parts.len() ==> node_text(
                arith,
                #[trigger] nodes[i],
                parts[i],
            )) && text == "["@ + joined(parts) + "]"@
}

impl<'a> Node<'a> {
    /// The list of the trees: each of them as text, with commas between
    /// them, in brackets.
    fn list<A: DecimalArith>(nodes: &Vec<Node<'a>>, arith: &A) -> (text: String)
        ensures
            node_list(arith, nodes@, text@),
        decreases nodes, 0nat,
    {
        let mut text = String::from_str("[");
        let ghost mut parts: Seq<Seq<char>> = Seq::empty();
        let mut i: usize = 0;
        while i < nodes.len()
            invariant
                i <= nodes.len(),
                parts.len() == i,
                forall|k: int| 0 <= k < i ==> node_text(arith, #[trigger] nodes[k], parts[k]),
                text@ == "["@ + joined(parts),
            decreases nodes.len() - i,
        {
            if i > 0 {
                text = text.concat(", ");
            }
            let part = nodes[i].describe(arith);
            let ghost before = parts;
            proof {
                parts = parts.push(part@);
                assert(parts.drop_last() =~= before);
            }
            text = text.concat(part.as_str());
            assert(text@ =~= "["@ + joined(parts));
            i += 1;
        }
        text.concat("]")
    }

    /// The tree as text.
    pub fn describe<A: DecimalArith>(&self, arith: &A) -> (text: String)
        ensures
            node_text(arith, *self, text@),
        decreases self, 1nat,
    {
        match self {
            Node::Number(n) => {
                let text = String::from_str("NumberNode(").concat(
                    integer_string(*n).as_str(),
                ).concat(")");
                assert(text@ =~= framed("NumberNode("@, integer_text(*n as int), ")"@));
                text
            },
            Node::Decimal(bits) => {
                let inner = arith.display(*bits);
                let text = String::from_str("DecimalNode(").concat(inner.as_str()).concat(")");
                assert(text@ =~= framed("DecimalNode("@, inner@, ")"@));
                text
            },
            Node::Array(items) => {
                let inner = Node::list(items, arith);
                let text = String::from_str("ArrayNode(").concat(inner.as_str()).concat(")");
                assert(text@ =~= framed("ArrayNode("@, inner@, ")"@));
                text
            },
            Node::Variable(name) => {
                let text = String::from_str("VariableNode(").concat(name).concat(")");
                assert(text@ =~= framed("VariableNode("@, name@, ")"@));
                text
            },
            Node::Call { function, arguments } => {
                let inner = Node::list(arguments, arith);
                let text = String::from_str("CallNode(").concat(function).concat(", ").concat(
                    inner.as_str(),
                ).concat(")");
                assert(text@ =~= framed("CallNode("@, paired(function@, inner@), ")"@));
                text
            },
            Node::Assign { lhs, rhs } => {
                let left = lhs.describe(arith);
                let right = rhs.describe(arith);
                let text = String::from_str("AssignNode(").concat(left.as_str()).concat(
                    ", ",
                ).concat(right.as_str()).concat(")");
                assert(text@ =~= framed("AssignNode("@, paired(left@, right@), ")"@));
                text
            },
            Node::UnaryOp { op, rhs } => {
                let right = rhs.describe(arith);
                let text = String::from_str("UnaryOpNode(").concat(op.symbol()).concat(
                    ", ",
                ).concat(right.as_str()).concat(")");
                assert(text@ =~= framed(
                    "UnaryOpNode("@,
                    paired(operator_symbol(*op), right@),
                    ")"@,
                ));
                text
            },
            Node::BinaryOp { op, lhs, rhs } => {
                let left = lhs.describe(arith);
                let right = rhs.describe(arith);
                let text = String::from_str("BinaryOpNode(").concat(left.as_str()).concat(
                    ", ",
                ).concat(op.symbol()).concat(", ").concat(right.as_str()).concat(")");
                assert(text@ =~= framed(
                    "BinaryOpNode("@,
                    paired(left@, paired(operator_symbol(*op), right@)),
                    ")"@,
                ));
                text
            },
        }
    }
}

} // verus!
