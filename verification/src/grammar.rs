//! The grammar.
//!
//! The grammar is stated over the sequence of tokens that is yet to be read:
//! [`statements`] is what a token sequence parses to. A primary expression
//! is found by recursive descent, a chain of binary operators by precedence
//! climbing.
//!
//! Where a function goes on with the tokens that another has left, it asks
//! first that they are no more than there were. They never are (see
//! [`advances`]); the question shows that the recursion ends.

use crate::ast::{NodeView, Operator};
use crate::error::ParseErrorKind;
use crate::lexer::{binding_power, is_digit, TokenKind, TokenView};
use vstd::prelude::*;

verus! {

/// What was parsed, and the tokens that are left after it.
pub struct Parsed<T> {
    pub value: T,
    pub rest: Seq<TokenView>,
}

/// The outcome of parsing something that may be absent.
pub type Parse = Result<Parsed<Option<NodeView>>, ParseErrorKind>;

/// The outcome of parsing a list.
pub type ParseList = Result<Parsed<Seq<NodeView>>, ParseErrorKind>;

/// The number that a text of digits denotes.
pub open spec fn digits_value(text: Seq<u8>) -> int
    decreases text.len(),
{
    if text.len() == 0 {
        0
    } else {
        digits_value(text.drop_last()) * 10 + (text.last() - 0x30)
    }
}

/// The text is made of digits only.
pub open spec fn all_digits(text: Seq<u8>) -> bool {
    forall|i: int| 0 <= i < text.len() ==> is_digit(#[trigger] text[i])
}

/// The integer that a literal denotes: its text must be one digit at
/// least, digits only, and denote a number that fits in 64 bits.
pub open spec fn integer_literal(text: Seq<u8>) -> Option<int> {
    if text.len() > 0 && all_digits(text) && digits_value(text) <= i64::MAX {
        Some(digits_value(text))
    } else {
        None
    }
}

/// The binding power of the first token, or 0 where none is left.
pub open spec fn next_power(ts: Seq<TokenView>) -> nat {
    if ts.len() == 0 {
        0
    } else {
        binding_power(ts[0].kind)
    }
}

/// Whether the first token is of the given kind.
pub open spec fn starts_with(ts: Seq<TokenView>, kind: TokenKind) -> bool {
    ts.len() > 0 && ts[0].kind == kind
}

/// The operator that a token of the given kind stands for.
pub open spec fn operator_for(kind: TokenKind) -> Option<Operator> {
    match kind {
        TokenKind::Add => Some(Operator::Add),
        TokenKind::Sub => Some(Operator::Sub),
        TokenKind::Mul => Some(Operator::Mul),
        TokenKind::Div => Some(Operator::Div),
        TokenKind::Exp => Some(Operator::Exp),
        _ => None,
    }
}

/// A primary expression, if one starts the tokens: a literal, a variable,
/// an assignment, a call, a parenthesized expression, an array, or one of
/// these behind a unary `+` or `-`. Where none starts, no token is taken.
pub open spec fn primary(ts: Seq<TokenView>) -> Parse
    decreases ts.len(), 0nat,
{
    if ts.len() == 0 {
        Ok(Parsed { value: None, rest: ts })
    } else {
        match ts[0].kind {
            TokenKind::Add | TokenKind::Sub => match primary(ts.skip(1)) {
                Err(kind) => Err(kind),
                Ok(operand) => match operand.value {
                    None => Err(ParseErrorKind::MissingOperand),
                    Some(rhs) => Ok(
                        Parsed {
                            value: Some(
                                NodeView::UnaryOp {
                                    op: operator_for(ts[0].kind)->Some_0,
                                    rhs: Box::new(rhs),
                                },
                            ),
                            rest: operand.rest,
                        },
                    ),
                },
            },
            TokenKind::Number => match integer_literal(ts[0].text) {
                Some(n) => Ok(Parsed { value: Some(NodeView::Number(n)), rest: ts.skip(1) }),
                None => Err(ParseErrorKind::NumberOutOfRange),
            },
            TokenKind::Decimal => Ok(
                Parsed { value: Some(NodeView::Decimal(ts[0].text)), rest: ts.skip(1) },
            ),
            TokenKind::Identifier => if starts_with(ts.skip(1), TokenKind::Assign) {
                assignment(ts[0].text, ts.skip(1))
            } else if starts_with(ts.skip(1), TokenKind::LeftParen) {
                call(ts[0].text, ts.skip(1))
            } else {
                Ok(Parsed { value: Some(NodeView::Variable(ts[0].text)), rest: ts.skip(1) })
            },
            TokenKind::LeftParen => match expr(ts.skip(1)) {
                Err(kind) => Err(kind),
                Ok(inner) => match inner.value {
                    None => Err(ParseErrorKind::MissingParenthesized),
                    Some(node) => if starts_with(inner.rest, TokenKind::RightParen) {
                        Ok(Parsed { value: Some(node), rest: inner.rest.skip(1) })
                    } else {
                        Err(ParseErrorKind::Expected(TokenKind::RightParen))
                    },
                },
            },
            TokenKind::ArrayStart => match elements(ts.skip(1), Seq::empty()) {
                Err(kind) => Err(kind),
                Ok(items) => if starts_with(items.rest, TokenKind::ArrayEnd) {
                    Ok(
                        Parsed {
                            value: Some(NodeView::Array(items.value)),
                            rest: items.rest.skip(1),
                        },
                    )
                } else {
                    Err(ParseErrorKind::Expected(TokenKind::ArrayEnd))
                },
            },
            _ => Ok(Parsed { value: None, rest: ts }),
        }
    }
}

/// The assignment to the variable `name`; `ts` starts with its `=`.
pub open spec fn assignment(name: Seq<u8>, ts: Seq<TokenView>) -> Parse
    decreases ts.len(), 0nat,
{
    if ts.len() == 0 {
        Err(ParseErrorKind::MissingAssignmentValue)
    } else {
        match expr(ts.skip(1)) {
            Err(kind) => Err(kind),
            Ok(value) => match value.value {
                None => Err(ParseErrorKind::MissingAssignmentValue),
                Some(rhs) => Ok(
                    Parsed {
                        value: Some(
                            NodeView::Assign {
                                lhs: Box::new(NodeView::Variable(name)),
                                rhs: Box::new(rhs),
                            },
                        ),
                        rest: value.rest,
                    },
                ),
            },
        }
    }
}

/// The call of `name`; `ts` starts with its `(`.
pub open spec fn call(name: Seq<u8>, ts: Seq<TokenView>) -> Parse
    decreases ts.len(), 0nat,
{
    if ts.len() == 0 {
        Err(ParseErrorKind::Expected(TokenKind::RightParen))
    } else {
        match arguments(ts.skip(1), Seq::empty()) {
            Err(kind) => Err(kind),
            Ok(args) => Ok(
                Parsed {
                    value: Some(NodeView::Call { function: name, arguments: args.value }),
                    rest: args.rest,
                },
            ),
        }
    }
}

/// The arguments of a call after those in `front`, up to and with the
/// closing parenthesis: expressions that follow one another.
pub open spec fn arguments(ts: Seq<TokenView>, front: Seq<NodeView>) -> ParseList
    decreases ts.len(), 2nat,
{
    match expr(ts) {
        Err(kind) => Err(kind),
        Ok(argument) => match argument.value {
            Some(node) => if argument.rest.len() < ts.len() {
                arguments(argument.rest, front.push(node))
            } else {
                Err(ParseErrorKind::Expected(TokenKind::RightParen))
            },
            None => if starts_with(argument.rest, TokenKind::RightParen) {
                Ok(Parsed { value: front, rest: argument.rest.skip(1) })
            } else {
                Err(ParseErrorKind::Expected(TokenKind::RightParen))
            },
        },
    }
}

/// The elements of an array after those in `front`: expressions with a
/// separator between them. The list ends before the first token that
/// neither starts an element nor separates two.
pub open spec fn elements(ts: Seq<TokenView>, front: Seq<NodeView>) -> ParseList
    decreases ts.len(), 2nat,
{
    match expr(ts) {
        Err(kind) => Err(kind),
        Ok(element) => match element.value {
            None => Ok(Parsed { value: front, rest: element.rest }),
            Some(node) => if starts_with(element.rest, TokenKind::Separator) && element.rest.len()
                <= ts.len() {
                elements(element.rest.skip(1), front.push(node))
            } else {
                Ok(Parsed { value: front.push(node), rest: element.rest })
            },
        },
    }
}

/// An expression, if one starts the tokens: a primary and the chain of
/// binary operators behind it.
pub open spec fn expr(ts: Seq<TokenView>) -> Parse
    decreases ts.len(), 1nat,
{
    match primary(ts) {
        Err(kind) => Err(kind),
        Ok(first) => match first.value {
            None => Ok(first),
            Some(left) => if first.rest.len() <= ts.len() {
                match chain(1, left, first.rest) {
                    Err(kind) => Err(kind),
                    Ok(whole) => Ok(Parsed { value: Some(whole.value), rest: whole.rest }),
                }
            } else {
                Ok(first)
            },
        },
    }
}

/// The chain of binary operators behind the operand `left`, as far as
/// they bind with the power `min` at least.
///
/// An operator takes the primary behind it as its right operand. Where the
/// operator after that binds more tightly, the right operand is the chain
/// that starts with that primary instead. The result is the left operand
/// of what follows, so operators of one power associate to the left.
pub open spec fn chain(min: nat, left: NodeView, ts: Seq<TokenView>) -> Result<
    Parsed<NodeView>,
    ParseErrorKind,
>
    decreases ts.len(), 0nat,
{
    let power = next_power(ts);
    if power < min || ts.len() == 0 || operator_for(ts[0].kind) is None {
        Ok(Parsed { value: left, rest: ts })
    } else {
        let op = operator_for(ts[0].kind)->Some_0;
        match primary(ts.skip(1)) {
            Err(kind) => Err(kind),
            Ok(operand) => match operand.value {
                None => Err(ParseErrorKind::MissingRightOperand),
                Some(right) => if operand.rest.len() >= ts.len() {
                    Err(ParseErrorKind::MissingRightOperand)
                } else if power < next_power(operand.rest) {
                    match chain(power + 1, right, operand.rest) {
                        Err(kind) => Err(kind),
                        Ok(tighter) => if tighter.rest.len() >= ts.len() {
                            Err(ParseErrorKind::MissingRightOperand)
                        } else {
                            chain(
                                min,
                                NodeView::BinaryOp {
                                    op,
                                    lhs: Box::new(left),
                                    rhs: Box::new(tighter.value),
                                },
                                tighter.rest,
                            )
                        },
                    }
                } else {
                    chain(
                        min,
                        NodeView::BinaryOp { op, lhs: Box::new(left), rhs: Box::new(right) },
                        operand.rest,
                    )
                },
            },
        }
    }
}

/// The statements after those in `front`: expressions with a semicolon
/// between them. An empty statement adds nothing. What follows the last
/// statement is left unread.
pub open spec fn statements(ts: Seq<TokenView>, front: Seq<NodeView>) -> ParseList
    decreases ts.len(), 2nat,
{
    match expr(ts) {
        Err(kind) => Err(kind),
        Ok(statement) => {
            let nodes = match statement.value {
                Some(node) => front.push(node),
                None => front,
            };
            if starts_with(statement.rest, TokenKind::Semicolon) && statement.rest.len()
                <= ts.len() {
                statements(statement.rest.skip(1), nodes)
            } else {
                Ok(Parsed { value: nodes, rest: statement.rest })
            }
        },
    }
}

/// Whether a parse took tokens and gave none back: what is left is no
/// longer than what there was, and shorter where a node was parsed.
pub open spec fn advances(outcome: Parse, ts: Seq<TokenView>) -> bool {
    outcome is Ok ==> outcome->Ok_0.rest.len() <= ts.len() && (outcome->Ok_0.value is Some
        ==> outcome->Ok_0.rest.len() < ts.len())
}

/// A primary expression takes tokens and gives none back.
pub proof fn lemma_primary_advances(ts: Seq<TokenView>)
    ensures
        advances(primary(ts), ts),
    decreases ts.len(), 0nat,
{
    if ts.len() > 0 {
        match ts[0].kind {
            TokenKind::Add | TokenKind::Sub => {
                lemma_primary_advances(ts.skip(1));
            },
            TokenKind::Identifier => {
                if starts_with(ts.skip(1), TokenKind::Assign) {
                    lemma_expr_advances(ts.skip(1).skip(1));
                    assert(advances(assignment(ts[0].text, ts.skip(1)), ts));
                } else if starts_with(ts.skip(1), TokenKind::LeftParen) {
                    lemma_arguments_advance(ts.skip(1).skip(1), Seq::empty());
                    assert(advances(call(ts[0].text, ts.skip(1)), ts));
                }
            },
            TokenKind::LeftParen => {
                lemma_expr_advances(ts.skip(1));
            },
            TokenKind::ArrayStart => {
                lemma_elements_advance(ts.skip(1), Seq::empty());
            },
            _ => {},
        }
    }
}

/// An expression takes tokens and gives none back.
pub proof fn lemma_expr_advances(ts: Seq<TokenView>)
    ensures
        advances(expr(ts), ts),
    decreases ts.len(), 1nat,
{
    lemma_primary_advances(ts);
    match primary(ts) {
        Ok(first) => {
            if first.value is Some {
                lemma_chain_advances(1, first.value->Some_0, first.rest);
            }
        },
        Err(_) => {},
    }
}

/// A chain of binary operators takes tokens and gives none back.
pub proof fn lemma_chain_advances(min: nat, left: NodeView, ts: Seq<TokenView>)
    ensures
        chain(min, left, ts) is Ok ==> chain(min, left, ts)->Ok_0.rest.len() <= ts.len(),
    decreases ts.len(), 0nat,
{
    let power = next_power(ts);
    if !(power < min || ts.len() == 0 || operator_for(ts[0].kind) is None) {
        let op = operator_for(ts[0].kind)->Some_0;
        lemma_primary_advances(ts.skip(1));
        match primary(ts.skip(1)) {
            Ok(operand) => {
                if operand.value is Some && operand.rest.len() < ts.len() {
                    let right = operand.value->Some_0;
                    if power < next_power(operand.rest) {
                        lemma_chain_advances(power + 1, right, operand.rest);
                        match chain(power + 1, right, operand.rest) {
                            Ok(tighter) => {
                                if tighter.rest.len() < ts.len() {
                                    lemma_chain_advances(
                                        min,
                                        NodeView::BinaryOp {
                                            op,
                                            lhs: Box::new(left),
                                            rhs: Box::new(tighter.value),
                                        },
                                        tighter.rest,
                                    );
                                }
                            },
                            Err(_) => {},
                        }
                    } else {
                        lemma_chain_advances(
                            min,
                            NodeView::BinaryOp { op, lhs: Box::new(left), rhs: Box::new(right) },
                            operand.rest,
                        );
                    }
                }
            },
            Err(_) => {},
        }
    }
}

/// The elements of an array take tokens and give none back.
pub proof fn lemma_elements_advance(ts: Seq<TokenView>, front: Seq<NodeView>)
    ensures
        elements(ts, front) is Ok ==> elements(ts, front)->Ok_0.rest.len() <= ts.len(),
    decreases ts.len(), 2nat,
{
    lemma_expr_advances(ts);
    match expr(ts) {
        Ok(element) => {
            if element.value is Some && starts_with(element.rest, TokenKind::Separator) {
                lemma_elements_advance(element.rest.skip(1), front.push(element.value->Some_0));
            }
        },
        Err(_) => {},
    }
}

/// The arguments of a call take tokens and give none back.
pub proof fn lemma_arguments_advance(ts: Seq<TokenView>, front: Seq<NodeView>)
    ensures
        arguments(ts, front) is Ok ==> arguments(ts, front)->Ok_0.rest.len() < ts.len(),
    decreases ts.len(), 2nat,
{
    lemma_expr_advances(ts);
    match expr(ts) {
        Ok(argument) => {
            if argument.value is Some {
                lemma_arguments_advance(argument.rest, front.push(argument.value->Some_0));
            }
        },
        Err(_) => {},
    }
}

/// The node that a token makes by itself, if it makes one: an integer or
/// decimal literal, or a variable.
pub open spec fn atom(token: TokenView) -> Option<NodeView> {
    match token.kind {
        TokenKind::Number => match integer_literal(token.text) {
            Some(n) => Some(NodeView::Number(n)),
            None => None,
        },
        TokenKind::Decimal => Some(NodeView::Decimal(token.text)),
        TokenKind::Identifier => Some(NodeView::Variable(token.text)),
        _ => None,
    }
}

/// A literal or a variable in front of a binary operator, or at the end
/// of the tokens, is a primary expression.
pub proof fn lemma_atom_is_primary(ts: Seq<TokenView>)
    requires
        ts.len() > 0,
        atom(ts[0]) is Some,
        ts.len() == 1 || binding_power(ts[1].kind) >= 1,
    ensures
        primary(ts) == Ok::<Parsed<Option<NodeView>>, ParseErrorKind>(
            (Parsed { value: atom(ts[0]), rest: ts.skip(1) }),
        ),
{
    if ts.len() > 1 {
        assert(ts.skip(1)[0] == ts[1]);
    }
}

/// Precedence and associativity: in `a op1 b op2 c`, where `a`, `b` and
/// `c` are literals or variables and `op1` and `op2` are binary
/// operators, `op1` takes `a` and `b` first where it binds at least as
/// tightly as `op2`, so that operators of one power associate to the left;
/// where `op2` binds more tightly, it takes `b` and `c` first.
pub proof fn lemma_precedence(
    a: TokenView,
    op1: TokenView,
    b: TokenView,
    op2: TokenView,
    c: TokenView,
)
    requires
        atom(a) is Some,
        atom(b) is Some,
        atom(c) is Some,
        binding_power(op1.kind) >= 1,
        binding_power(op2.kind) >= 1,
    ensures
        binding_power(op1.kind) >= binding_power(op2.kind) ==> expr(seq![a, op1, b, op2, c])
            == Ok::<Parsed<Option<NodeView>>, ParseErrorKind>(
            (Parsed {
                value: Some(
                    (NodeView::BinaryOp {
                        op: operator_for(op2.kind)->Some_0,
                        lhs: Box::new(
                            (NodeView::BinaryOp {
                                op: operator_for(op1.kind)->Some_0,
                                lhs: Box::new(atom(a)->Some_0),
                                rhs: Box::new(atom(b)->Some_0),
                            }),
                        ),
                        rhs: Box::new(atom(c)->Some_0),
                    }),
                ),
                rest: Seq::empty(),
            }),
        ),
        binding_power(op1.kind) < binding_power(op2.kind) ==> expr(seq![a, op1, b, op2, c])
            == Ok::<Parsed<Option<NodeView>>, ParseErrorKind>(
            (Parsed {
                value: Some(
                    (NodeView::BinaryOp {
                        op: operator_for(op1.kind)->Some_0,
                        lhs: Box::new(atom(a)->Some_0),
                        rhs: Box::new(
                            (NodeView::BinaryOp {
                                op: operator_for(op2.kind)->Some_0,
                                lhs: Box::new(atom(b)->Some_0),
                                rhs: Box::new(atom(c)->Some_0),
                            }),
                        ),
                    }),
                ),
                rest: Seq::empty(),
            }),
        ),
{
    let t0 = seq![a, op1, b, op2, c];
    let t1 = seq![op1, b, op2, c];
    let t2 = seq![b, op2, c];
    let t3 = seq![op2, c];
    let t4 = seq![c];
    let t5 = Seq::<TokenView>::empty();
    assert(t0.skip(1) =~= t1);
    assert(t1.skip(1) =~= t2);
    assert(t2.skip(1) =~= t3);
    assert(t3.skip(1) =~= t4);
    assert(t4.skip(1) =~= t5);
    lemma_atom_is_primary(t0);
    lemma_atom_is_primary(t2);
    lemma_atom_is_primary(t4);
    let na = atom(a)->Some_0;
    let nb = atom(b)->Some_0;
    let nc = atom(c)->Some_0;
    let o1 = operator_for(op1.kind)->Some_0;
    let o2 = operator_for(op2.kind)->Some_0;
    let p1 = binding_power(op1.kind);
    let p2 = binding_power(op2.kind);
    assert(next_power(t1) == p1);
    assert(next_power(t3) == p2);
    assert(next_power(t5) == 0);
    if p1 >= p2 {
        let ab = NodeView::BinaryOp { op: o1, lhs: Box::new(na), rhs: Box::new(nb) };
        let abc = NodeView::BinaryOp { op: o2, lhs: Box::new(ab), rhs: Box::new(nc) };
        assert(chain(1, abc, t5) == Ok::<Parsed<NodeView>, ParseErrorKind>(
            Parsed { value: abc, rest: t5 },
        ));
        assert(chain(1, ab, t3) == chain(1, abc, t5));
        assert(chain(1, na, t1) == chain(1, ab, t3));
    } else {
        let bc = NodeView::BinaryOp { op: o2, lhs: Box::new(nb), rhs: Box::new(nc) };
        let abc = NodeView::BinaryOp { op: o1, lhs: Box::new(na), rhs: Box::new(bc) };
        assert(chain(p1 + 1, bc, t5) == Ok::<Parsed<NodeView>, ParseErrorKind>(
            Parsed { value: bc, rest: t5 },
        ));
        assert(chain(p1 + 1, nb, t3) == chain(p1 + 1, bc, t5));
        assert(chain(1, abc, t5) == Ok::<Parsed<NodeView>, ParseErrorKind>(
            Parsed { value: abc, rest: t5 },
        ));
        assert(chain(1, na, t1) == chain(1, abc, t5));
    }
}

/// The tokens of a chain: each operator with the operand behind it.
pub open spec fn woven(ops: Seq<TokenView>, operands: Seq<TokenView>) -> Seq<TokenView>
    decreases ops.len(),
{
    if ops.len() == 0 || operands.len() == 0 {
        Seq::empty()
    } else {
        seq![ops[0], operands[0]] + woven(ops.skip(1), operands.skip(1))
    }
}

/// The tree of a chain that associates to the left: each operator takes
/// all that stands before it as its left operand.
pub open spec fn left_nested(left: NodeView, ops: Seq<TokenView>, operands: Seq<TokenView>) -> NodeView
    decreases ops.len(),
{
    if ops.len() == 0 || operands.len() == 0 {
        left
    } else {
        left_nested(
            NodeView::BinaryOp {
                op: operator_for(ops[0].kind)->Some_0,
                lhs: Box::new(left),
                rhs: Box::new(atom(operands[0])->Some_0),
            },
            ops.skip(1),
            operands.skip(1),
        )
    }
}

/// Operators of one binding power associate to the left, however long the
/// chain is: behind the operand `left`, a chain of binary operators of
/// one power, each with a literal or a variable behind it, parses to the
/// tree in which each operator takes all that stands before it as its
/// left operand.
pub proof fn lemma_left_associative(
    min: nat,
    left: NodeView,
    ops: Seq<TokenView>,
    operands: Seq<TokenView>,
)
    requires
        ops.len() == operands.len(),
        1 <= min,
        forall|i: int| 0 <= i < ops.len() ==> min <= binding_power(#[trigger] ops[i].kind),
        forall|i: int, j: int|
            0 <= i < ops.len() && 0 <= j < ops.len() ==> binding_power(ops[i].kind)
                == binding_power(ops[j].kind),
        forall|i: int| 0 <= i < operands.len() ==> atom(#[trigger] operands[i]) is Some,
    ensures
        chain(min, left, woven(ops, operands)) == Ok::<Parsed<NodeView>, ParseErrorKind>(
            (Parsed { value: left_nested(left, ops, operands), rest: Seq::empty() }),
        ),
    decreases ops.len(),
{
    let ts = woven(ops, operands);
    if ops.len() == 0 {
        assert(ts.len() == 0);
    } else {
        let rest = woven(ops.skip(1), operands.skip(1));
        let after = seq![operands[0]] + rest;
        assert(ts =~= seq![ops[0], operands[0]] + rest);
        assert(ts.skip(1) =~= after);
        assert(after.skip(1) =~= rest);
        assert(ts[0] == ops[0]);
        assert(after[0] == operands[0]);
        if ops.len() > 1 {
            let further = woven(ops.skip(2), operands.skip(2));
            assert(ops.skip(1).skip(1) =~= ops.skip(2));
            assert(operands.skip(1).skip(1) =~= operands.skip(2));
            assert(rest =~= seq![ops[1], operands[1]] + further);
            assert(after[1] == ops[1]);
            assert(binding_power(ops[1].kind) >= 1);
            assert(next_power(rest) == binding_power(ops[0].kind));
        } else {
            assert(rest.len() == 0);
            assert(after.len() == 1);
        }
        lemma_atom_is_primary(after);
        let joined = NodeView::BinaryOp {
            op: operator_for(ops[0].kind)->Some_0,
            lhs: Box::new(left),
            rhs: Box::new(atom(operands[0])->Some_0),
        };
        assert(chain(min, left, ts) == chain(min, joined, rest));
        lemma_left_associative(min, joined, ops.skip(1), operands.skip(1));
    }
}

/// A parenthesized expression without its closing parenthesis, and an
/// array without its closing bracket, are parse errors that name the
/// missing token.
pub proof fn lemma_missing_closer(ts: Seq<TokenView>)
    requires
        ts.len() > 0,
    ensures
        ts[0].kind == TokenKind::LeftParen && expr(ts.skip(1)) is Ok && expr(
            ts.skip(1),
        )->Ok_0.value is Some && !starts_with(expr(ts.skip(1))->Ok_0.rest, TokenKind::RightParen)
            ==> primary(ts) == Err::<Parsed<Option<NodeView>>, ParseErrorKind>(
            ParseErrorKind::Expected(TokenKind::RightParen),
        ),
        ts[0].kind == TokenKind::ArrayStart && elements(ts.skip(1), Seq::empty()) is Ok
            && !starts_with(elements(ts.skip(1), Seq::empty())->Ok_0.rest, TokenKind::ArrayEnd)
            ==> primary(ts) == Err::<Parsed<Option<NodeView>>, ParseErrorKind>(
            ParseErrorKind::Expected(TokenKind::ArrayEnd),
        ),
{
}

} // verus!
