//! What an evaluation gives.
//!
//! [`evaluates`] says what a tree may evaluate to and what the scopes hold
//! afterwards. An evaluation is determined but for what the arithmetic
//! unit answers when it is asked.

use crate::arithmetic::{applies, negated_datum, rectangular, width};
use crate::ast::{Node, Operator};
use crate::decimal::DecimalArith;
use crate::error::{Error, RuntimeErrorKind};
use crate::memory::{Binding, BindingView, Bindings, Native};
use crate::value::{datums, outlines, Datum, Outline, Produced, Value};
use vstd::prelude::*;
use vstd::string::*;

verus! {

/// The bindings of one scope as the evaluator's contracts see them.
pub type Frame = Map<Seq<u8>, BindingView>;

/// What the evaluation of a sequence produces: the data of the values, or
/// the kind of the first error.
pub type ProducedAll = Result<Seq<Datum>, RuntimeErrorKind>;

/// The frame of the bindings of a scope.
pub open spec fn frame_of(bindings: Bindings) -> Frame {
    bindings.map_values(|binding: Binding| binding@)
}

/// The frames of the scopes of a stack.
pub open spec fn frames_of(stack: Seq<Bindings>) -> Seq<Frame> {
    Seq::new(stack.len(), |i: int| frame_of(stack[i]))
}

/// What `res` holds, as the contracts say it: the data of the values, or
/// the kind of a runtime error.
pub open spec fn outcomes_of(res: Result<Vec<Value>, Error>) -> ProducedAll {
    match res {
        Ok(values) => Ok(datums(values@)),
        Err(Error::RuntimeError(kind)) => Err(kind),
        Err(Error::ParserError(_)) => Err(RuntimeErrorKind::NoScope),
    }
}

/// The value of a variable: what the innermost scope binds its name to.
pub open spec fn read(frames: Seq<Frame>, name: Seq<u8>) -> Produced {
    if frames.len() == 0 {
        Err(RuntimeErrorKind::NoScope)
    } else {
        match frames.last().get(name) {
            Some(BindingView::Value(value)) => Ok(value),
            _ => Err(RuntimeErrorKind::UndefinedVariable),
        }
    }
}

/// The scopes after `name` was bound to `value` in the innermost.
pub open spec fn written(frames: Seq<Frame>, name: Seq<u8>, value: Datum) -> Seq<Frame> {
    frames.drop_last().push(frames.last().insert(name, BindingView::Value(value)))
}

/// Whether a matrix can be transposed, by the views of the arguments: the
/// first of them must be a matrix that is rectangular and has a row and a
/// column.
pub open spec fn transposable(args: Seq<Outline>) -> Result<(), RuntimeErrorKind> {
    if args.len() == 0 || !(args[0] is Array) {
        Err(RuntimeErrorKind::ExpectedMatrix)
    } else {
        let rows = args[0]->Array_0;
        if rows.len() == 0 {
            Err(RuntimeErrorKind::EmptyMatrix)
        } else if !rectangular(rows) {
            Err(RuntimeErrorKind::NotRectangular)
        } else if width(rows) == 0 {
            Err(RuntimeErrorKind::EmptyMatrix)
        } else {
            Ok(())
        }
    }
}

/// The matrix with the rows `rows`, rows and columns exchanged: its cell in
/// row `j` and column `i` is the cell in row `i` and column `j` of `rows`.
pub open spec fn swapped(rows: Seq<Datum>) -> Datum {
    Datum::Array(
        Seq::new(
            rows[0]->Array_0.len(),
            |j: int| Datum::Array(Seq::new(rows.len(), |i: int| rows[i]->Array_0[j])),
        ),
    )
}

/// The transpose of the matrix that is the first of `args`.
pub open spec fn transposed(args: Seq<Datum>) -> Produced {
    match transposable(outlines(args)) {
        Ok(_) => Ok(swapped(args[0]->Array_0)),
        Err(kind) => Err(kind),
    }
}

/// What a native operation gives of its arguments.
pub open spec fn native_result(native: Native, args: Seq<Datum>) -> Produced {
    match native {
        Native::Transpose => transposed(args),
    }
}

/// What a call gives: the result of the native operation that the
/// innermost scope binds the name to.
pub open spec fn called(frames: Seq<Frame>, function: Seq<u8>, args: Seq<Datum>) -> Produced {
    if frames.len() == 0 {
        Err(RuntimeErrorKind::NoScope)
    } else {
        match frames.last().get(function) {
            Some(BindingView::Native(native)) => native_result(native, args),
            _ => Err(RuntimeErrorKind::FunctionNotFoundOrInvalid),
        }
    }
}

/// What a unary operator gives of a value: `+` the value itself, `-` its
/// negation.
pub open spec fn unary(op: Operator, value: Datum) -> Produced {
    match op {
        Operator::Add => Ok(value),
        Operator::Sub => negated_datum(value),
        _ => Err(RuntimeErrorKind::InvalidUnaryOperation),
    }
}

/// Holds of any result and any frames. The quantifiers over what lies
/// between two steps of an evaluation are instantiated by it.
pub open spec fn between<T>(result: T, frames: Seq<Frame>) -> bool {
    true
}

/// Whether evaluating `node` in the scopes `before`, with the arithmetic
/// unit `arith`, may give `outcome` and leave the scopes `after`.
///
/// A literal evaluates to itself. Operands are evaluated from left to
/// right, and each sees what the ones before it assigned. The first error
/// ends the evaluation; what was assigned until then stays. What a binary
/// operator gives is what [`applies`] says: a decimal that it computes is
/// what the unit answered.
pub open spec fn evaluates<A: DecimalArith>(
    arith: &A,
    node: Node,
    before: Seq<Frame>,
    outcome: Produced,
    after: Seq<Frame>,
) -> bool
    decreases node, 1nat,
{
    match node {
        Node::Number(n) => outcome == Ok::<Datum, RuntimeErrorKind>(Datum::Number(n as int))
            && after == before,
        Node::Decimal(bits) => outcome == Ok::<Datum, RuntimeErrorKind>(Datum::Decimal(bits))
            && after == before,
        Node::Array(items) => match outcome {
            Ok(Datum::Array(values)) => evaluate_each(arith, items@, before, Ok(values), after),
            Ok(_) => false,
            Err(kind) => evaluate_each(arith, items@, before, Err(kind), after),
        },
        Node::Variable(name) => outcome == read(before, name.spec_bytes()) && after == before,
        Node::Call { function, arguments } => exists|args: ProducedAll|
            #![trigger between(args, after)]
            between(args, after) && evaluate_each(arith, arguments@, before, args, after)
                && outcome == match args {
                Ok(values) => called(after, function.spec_bytes(), values),
                Err(kind) => Err(kind),
            },
        Node::Assign { lhs, rhs } => exists|value: Produced, middle: Seq<Frame>|
            #![trigger between(value, middle)]
            between(value, middle) && evaluates(arith, *rhs, before, value, middle) && match value {
                Err(kind) => outcome == Err::<Datum, RuntimeErrorKind>(kind) && after == middle,
                Ok(assigned) => match *lhs {
                    Node::Variable(name) => if middle.len() == 0 {
                        outcome == Err::<Datum, RuntimeErrorKind>(RuntimeErrorKind::NoScope)
                            && after == middle
                    } else {
                        outcome == Ok::<Datum, RuntimeErrorKind>(assigned) && after == written(
                            middle,
                            name.spec_bytes(),
                            assigned,
                        )
                    },
                    _ => outcome == Err::<Datum, RuntimeErrorKind>(
                        RuntimeErrorKind::InvalidAssignTarget,
                    ) && after == middle,
                },
            },
        Node::UnaryOp { op, rhs } => exists|value: Produced|
            #![trigger between(value, after)]
            between(value, after) && evaluates(arith, *rhs, before, value, after) && outcome
                == match value {
                Ok(operand) => unary(op, operand),
                Err(kind) => Err(kind),
            },
        Node::BinaryOp { op, lhs, rhs } => exists|left: Produced, middle: Seq<Frame>, right: Produced|
            #![trigger between(left, middle), between(right, after)]
            between(left, middle) && between(right, after) && evaluates(
                arith,
                *lhs,
                before,
                left,
                middle,
            ) && match left {
                Err(kind) => outcome == Err::<Datum, RuntimeErrorKind>(kind) && after == middle,
                Ok(l) => evaluates(arith, *rhs, middle, right, after) && match right {
                    Err(kind) => outcome == Err::<Datum, RuntimeErrorKind>(kind),
                    Ok(r) => applies(arith, op, l, r, outcome),
                },
            },
    }
}

/// Whether evaluating `nodes` one after the other in the scopes `before`,
/// with the arithmetic unit `arith`, may give `outcomes` and leave the
/// scopes `after`.
pub open spec fn evaluate_each<A: DecimalArith>(
    arith: &A,
    nodes: Seq<Node>,
    before: Seq<Frame>,
    outcomes: ProducedAll,
    after: Seq<Frame>,
) -> bool
    decreases nodes, 0nat,
{
    if nodes.len() == 0 {
        outcomes == Ok::<Seq<Datum>, RuntimeErrorKind>(Seq::empty()) && after == before
    } else {
        exists|front: ProducedAll, middle: Seq<Frame>|
            #![trigger between(front, middle)]
            between(front, middle) && evaluate_each(arith, nodes.drop_last(), before, front, middle)
                && match front {
                Err(kind) => outcomes == Err::<Seq<Datum>, RuntimeErrorKind>(kind) && after
                    == middle,
                Ok(values) => match outcomes {
                    Ok(all) => all.len() == values.len() + 1 && all.drop_last() == values
                        && evaluates(arith, nodes.last(), middle, Ok(all.last()), after),
                    Err(kind) => evaluates(arith, nodes.last(), middle, Err(kind), after),
                },
            }
    }
}

/// Whether running the statements `nodes` in the scopes `before`, with
/// the arithmetic unit `arith`, may give `res` and leave the scopes
/// `after`: the statements are evaluated one after the other, and `res` is
/// the value of the last of them, nothing where there is none, or the
/// first error.
pub open spec fn runs<A: DecimalArith>(
    arith: &A,
    nodes: Seq<Node>,
    before: Seq<Frame>,
    res: Result<Option<Value>, Error>,
    after: Seq<Frame>,
) -> bool {
    match res {
        Ok(last) => exists|values: Seq<Datum>|
            #![trigger between(values, after)]
            between(values, after) && evaluate_each(arith, nodes, before, Ok(values), after)
                && match last {
                Some(value) => values.len() > 0 && values.last() == value.datum(),
                None => values.len() == 0,
            },
        Err(error) => error is RuntimeError && evaluate_each(
            arith,
            nodes,
            before,
            Err(error->RuntimeError_0),
            after,
        ),
    }
}

/// An error among the first of a sequence of trees is the error of the
/// whole, and nothing after it is evaluated.
pub(crate) proof fn lemma_evaluate_each_err<A: DecimalArith>(
    arith: &A,
    nodes: Seq<Node>,
    before: Seq<Frame>,
    k: int,
    kind: RuntimeErrorKind,
    after: Seq<Frame>,
)
    requires
        0 <= k <= nodes.len(),
        evaluate_each(arith, nodes.take(k), before, Err(kind), after),
    ensures
        evaluate_each(arith, nodes, before, Err(kind), after),
    decreases nodes.len(),
{
    if k == nodes.len() {
        assert(nodes.take(k) =~= nodes);
    } else {
        assert(nodes.drop_last().take(k) =~= nodes.take(k));
        lemma_evaluate_each_err(arith, nodes.drop_last(), before, k, kind, after);
        assert(between(Err::<Seq<Datum>, RuntimeErrorKind>(kind), after));
    }
}

/// Binding a name in a scope binds it in the scope's frame.
pub(crate) proof fn lemma_frame_insert(bindings: Bindings, name: Seq<u8>, binding: Binding)
    ensures
        frame_of(bindings.insert(name, binding)) == frame_of(bindings).insert(name, binding@),
{
    assert(frame_of(bindings.insert(name, binding)) =~= frame_of(bindings).insert(name, binding@));
}

/// An evaluation enters and leaves no scope.
pub proof fn lemma_evaluation_keeps_depth<A: DecimalArith>(
    arith: &A,
    node: Node,
    before: Seq<Frame>,
    outcome: Produced,
    after: Seq<Frame>,
)
    requires
        evaluates(arith, node, before, outcome, after),
    ensures
        after.len() == before.len(),
    decreases node, 1nat,
{
    match node {
        Node::Number(n) => {},
        Node::Decimal(bits) => {},
        Node::Array(items) => {
            match outcome {
                Ok(Datum::Array(values)) => {
                    lemma_evaluations_keep_depth(arith, items@, before, Ok(values), after);
                },
                Ok(_) => {},
                Err(kind) => {
                    lemma_evaluations_keep_depth(arith, items@, before, Err(kind), after);
                },
            }
        },
        Node::Variable(name) => {},
        Node::Call { function, arguments } => {
            let args = choose|args: ProducedAll|
                #![trigger between(args, after)]
                between(args, after) && evaluate_each(arith, arguments@, before, args, after);
            lemma_evaluations_keep_depth(arith, arguments@, before, args, after);
        },
        Node::Assign { lhs, rhs } => {
            let (value, middle) = choose|value: Produced, middle: Seq<Frame>|
                #![trigger between(value, middle)]
                between(value, middle) && evaluates(arith, *rhs, before, value, middle) && (after
                    == middle || (value is Ok && middle.len() > 0 && *lhs is Variable && after
                    == written(
                    middle,
                    (*lhs)->Variable_0.spec_bytes(),
                    value->Ok_0,
                )));
            lemma_evaluation_keeps_depth(arith, *rhs, before, value, middle);
        },
        Node::UnaryOp { op, rhs } => {
            let value = choose|value: Produced|
                #![trigger between(value, after)]
                between(value, after) && evaluates(arith, *rhs, before, value, after);
            lemma_evaluation_keeps_depth(arith, *rhs, before, value, after);
        },
        Node::BinaryOp { op, lhs, rhs } => {
            let (left, middle, right) = choose|left: Produced, middle: Seq<Frame>, right: Produced|
                #![trigger between(left, middle), between(right, after)]
                between(left, middle) && between(right, after) && evaluates(
                    arith,
                    *lhs,
                    before,
                    left,
                    middle,
                ) && (after == middle || evaluates(arith, *rhs, middle, right, after));
            lemma_evaluation_keeps_depth(arith, *lhs, before, left, middle);
            if after != middle {
                lemma_evaluation_keeps_depth(arith, *rhs, middle, right, after);
            }
        },
    }
}

/// Evaluations enter and leave no scope.
pub proof fn lemma_evaluations_keep_depth<A: DecimalArith>(
    arith: &A,
    nodes: Seq<Node>,
    before: Seq<Frame>,
    outcomes: ProducedAll,
    after: Seq<Frame>,
)
    requires
        evaluate_each(arith, nodes, before, outcomes, after),
    ensures
        after.len() == before.len(),
    decreases nodes, 0nat,
{
    if nodes.len() > 0 {
        let last: Produced = match outcomes {
            Ok(all) => Ok(all.last()),
            Err(kind) => Err(kind),
        };
        let (front, middle) = choose|front: ProducedAll, middle: Seq<Frame>|
            #![trigger between(front, middle)]
            between(front, middle) && evaluate_each(arith, nodes.drop_last(), before, front, middle)
                && (after == middle || evaluates(arith, nodes.last(), middle, last, after));
        lemma_evaluations_keep_depth(arith, nodes.drop_last(), before, front, middle);
        if after != middle {
            lemma_evaluation_keeps_depth(arith, nodes.last(), middle, last, after);
        }
    }
}

/// A literal evaluates to itself, and changes nothing.
pub proof fn lemma_literal_round_trip<A: DecimalArith>(
    arith: &A,
    n: i64,
    bits: u64,
    before: Seq<Frame>,
    outcome: Produced,
    after: Seq<Frame>,
)
    ensures
        evaluates(arith, Node::Number(n), before, outcome, after) <==> outcome == Ok::<
            Datum,
            RuntimeErrorKind,
        >(Datum::Number(n as int)) && after == before,
        evaluates(arith, Node::Decimal(bits), before, outcome, after) <==> outcome == Ok::<
            Datum,
            RuntimeErrorKind,
        >(Datum::Decimal(bits)) && after == before,
{
}

/// A variable that the innermost scope does not bind cannot be read.
pub proof fn lemma_undefined_variable<A: DecimalArith>(
    arith: &A,
    name: &str,
    before: Seq<Frame>,
    outcome: Produced,
    after: Seq<Frame>,
)
    requires
        before.len() > 0,
        !before.last().dom().contains(name.spec_bytes()),
    ensures
        evaluates(arith, Node::Variable(name), before, outcome, after) <==> outcome == Err::<
            Datum,
            RuntimeErrorKind,
        >(RuntimeErrorKind::UndefinedVariable) && after == before,
{
}

/// An assignment is an expression: where it has a value, the innermost
/// scope binds the name to that value afterwards, and the variable then
/// reads as it.
pub proof fn lemma_assignment_is_an_expression<A: DecimalArith>(
    arith: &A,
    name: &str,
    rhs: Node,
    before: Seq<Frame>,
    value: Datum,
    after: Seq<Frame>,
)
    requires
        evaluates(
            arith,
            (Node::Assign { lhs: Box::new(Node::Variable(name)), rhs: Box::new(rhs) }),
            before,
            Ok(value),
            after,
        ),
    ensures
        after.len() == before.len(),
        after.len() > 0,
        after.last().dom().contains(name.spec_bytes()),
        after.last()[name.spec_bytes()] == BindingView::Value(value),
        evaluates(arith, Node::Variable(name), after, Ok(value), after),
        exists|middle: Seq<Frame>|
            #![trigger between(value, middle)]
            between(value, middle) && evaluates(arith, rhs, before, Ok(value), middle) && after
                == written(middle, name.spec_bytes(), value),
{
    let node = Node::Assign { lhs: Box::new(Node::Variable(name)), rhs: Box::new(rhs) };
    lemma_evaluation_keeps_depth(arith, node, before, Ok(value), after);
    let (given, middle) = choose|given: Produced, middle: Seq<Frame>|
        #![trigger between(given, middle)]
        between(given, middle) && evaluates(arith, rhs, before, given, middle) && given is Ok
            && middle.len() > 0 && given == Ok::<Datum, RuntimeErrorKind>(value) && after
            == written(middle, name.spec_bytes(), value);
    assert(between(value, middle));
}

} // verus!
