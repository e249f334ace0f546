//! The evaluator: a walk over the syntax tree against the call stack. It
//! computes what [`evaluates`] describes.

use crate::arithmetic::{outcome_of, rectangular, width};
use crate::ast::{all_read_as, Node, Operator};
use crate::decimal::DecimalArith;
use crate::error::{Error, RuntimeErrorKind};
use crate::grammar::statements;
use crate::lexer::{tokens_from, Lexer};
use crate::memory::{ActivationRecord, Binding, Bindings, CallStack, Native};
use crate::parser::Parser;
use crate::semantics::{
    between, called, evaluate_each, evaluates, frames_of, lemma_evaluate_each_err,
    lemma_frame_insert, outcomes_of, read, runs, swapped, transposed, written, Frame,
};
use crate::value::{datums, lemma_view_is_outline, outlines, value_views, Datum, Value};
use vstd::prelude::*;
use vstd::string::*;

verus! {

/// The transpose of a matrix that is given as the first of `args`; its
/// cells are those of the matrix, digit for digit.
pub fn matrix_transpose(args: &Vec<Value>) -> (res: Result<Value, Error>)
    ensures
        match transposed(datums(args@)) {
            Ok(matrix) => res is Ok && res->Ok_0.datum() == matrix,
            Err(kind) => res == Err::<Value, Error>(Error::RuntimeError(kind)),
        },
{
    proof {
        assert forall|i: int| 0 <= i < args.len() implies value_views(args@)[i] == outlines(
            datums(args@),
        )[i] by {
            lemma_view_is_outline(args[i]);
        }
        assert(value_views(args@) =~= outlines(datums(args@)));
    }
    if args.len() == 0 {
        return Err(Error::RuntimeError(RuntimeErrorKind::ExpectedMatrix));
    }
    let ghost views = value_views(args@);
    assert(views[0] == args[0]@);
    let rows = match &args[0] {
        Value::Array(rows) => rows,
        _ => {
            return Err(Error::RuntimeError(RuntimeErrorKind::ExpectedMatrix));
        },
    };
    let ghost matrix = value_views(rows@);
    let ghost data = datums(rows@);
    assert(views[0]->Array_0 == matrix);
    assert(datums(args@)[0] == args[0].datum());
    assert(datums(args@)[0]->Array_0 == data);
    if rows.len() == 0 {
        return Err(Error::RuntimeError(RuntimeErrorKind::EmptyMatrix));
    }
    let columns = match Value::columns(rows) {
        Some(columns) => columns,
        None => {
            return Err(Error::RuntimeError(RuntimeErrorKind::NotRectangular));
        },
    };
    if columns == 0 {
        return Err(Error::RuntimeError(RuntimeErrorKind::EmptyMatrix));
    }
    assert(matrix[0] == rows[0]@);
    assert(data[0] == rows[0].datum());
    let mut out: Vec<Value> = Vec::new();
    let mut j: usize = 0;
    while j < columns
        invariant
            j <= columns,
            matrix == value_views(rows@),
            data == datums(rows@),
            rectangular(matrix),
            columns == width(matrix),
            columns == data[0]->Array_0.len(),
            out.len() == j,
            forall|c: int|
                0 <= c < j ==> (#[trigger] out[c]).datum() == Datum::Array(
                    Seq::new(data.len(), |i: int| data[i]->Array_0[c]),
                ),
        decreases columns - j,
    {
        let mut column: Vec<Value> = Vec::new();
        let mut i: usize = 0;
        while i < rows.len()
            invariant
                i <= rows.len(),
                j < columns,
                matrix == value_views(rows@),
                data == datums(rows@),
                rectangular(matrix),
                columns == width(matrix),
                column.len() == i,
                forall|r: int|
                    0 <= r < i ==> (#[trigger] column[r]).datum() == data[r]->Array_0[j as int],
            decreases rows.len() - i,
        {
            assert(matrix[i as int] is Array);
            assert(matrix[i as int] == rows[i as int]@);
            assert(data[i as int] == rows[i as int].datum());
            let row = rows[i].as_array();
            assert(value_views(row@) == matrix[i as int]->Array_0);
            assert(datums(row@) == data[i as int]->Array_0);
            assert(datums(row@)[j as int] == row[j as int].datum());
            column.push(row[j].duplicate());
            i += 1;
        }
        let cells = Value::Array(column);
        assert(cells.datum()->Array_0 =~= Seq::new(data.len(), |i: int| data[i]->Array_0[j as int]));
        out.push(cells);
        j += 1;
    }
    let result = Value::Array(out);
    assert(result.datum()->Array_0 =~= swapped(data)->Array_0);
    Ok(result)
}

/// The name under which the transpose is bound.
pub open spec fn transpose_name() -> Seq<u8> {
    "trn".spec_bytes()
}

/// Binds the native operations in a record: the transpose, as `trn`.
pub fn add_natives(ar: ActivationRecord) -> (record: ActivationRecord)
    requires
        ar.wf(),
    ensures
        record.wf(),
        record@ == ar@.insert(transpose_name(), Binding::Native(Native::Transpose)),
{
    let mut ar = ar;
    ar.bind(String::from_str("trn"), Binding::Native(Native::Transpose));
    ar
}

/// What can be made with the native operations bound.
pub trait WithNatives: Sized {
    fn with_natives() -> Self;
}

impl WithNatives for ActivationRecord {
    fn with_natives() -> (record: Self)
        ensures
            record.wf(),
            record@ == Bindings::empty().insert(
                transpose_name(),
                Binding::Native(Native::Transpose),
            ),
    {
        add_natives(ActivationRecord::new())
    }
}

/// An evaluator: a call stack and the arithmetic unit for decimals.
pub struct Interpreter<A: DecimalArith> {
    stack: CallStack,
    arith: A,
}

impl<A: DecimalArith> Interpreter<A> {
    /// The scopes of the evaluator, the innermost last.
    pub closed spec fn scopes(&self) -> Seq<Bindings> {
        self.stack@
    }

    /// The frames of the scopes.
    pub open spec fn frames(&self) -> Seq<Frame> {
        frames_of(self.scopes())
    }

    /// The stack is well formed.
    pub closed spec fn wf(&self) -> bool {
        self.stack.wf()
    }

    /// The arithmetic unit of the evaluator.
    pub closed spec fn unit(&self) -> &A {
        &self.arith
    }

    /// An evaluator with one scope, in which the native operations are bound.
    pub fn new(arith: A) -> (interpreter: Interpreter<A>)
        ensures
            interpreter.wf(),
            interpreter.unit() == arith,
            interpreter.scopes() == seq![
                Bindings::empty().insert(transpose_name(), Binding::Native(Native::Transpose)),
            ],
    {
        Interpreter { stack: CallStack::from_record(ActivationRecord::with_natives()), arith }
    }

    /// An evaluator with the one scope `record`.
    pub fn from_record(record: ActivationRecord, arith: A) -> (interpreter: Interpreter<A>)
        requires
            record.wf(),
        ensures
            interpreter.wf(),
            interpreter.unit() == arith,
            interpreter.scopes() == seq![record@],
    {
        Interpreter { stack: CallStack::from_record(record), arith }
    }

    /// An evaluator with the scopes of `stack`.
    pub fn from_stack(stack: CallStack, arith: A) -> (interpreter: Interpreter<A>)
        requires
            stack.wf(),
        ensures
            interpreter.wf(),
            interpreter.unit() == arith,
            interpreter.scopes() == stack@,
    {
        Interpreter { stack, arith }
    }

    /// A runtime error of the given kind.
    pub fn error(kind: RuntimeErrorKind) -> (error: Error)
        ensures
            error == Error::RuntimeError(kind),
    {
        Error::RuntimeError(kind)
    }

    /// The innermost scope.
    pub fn scope(&self) -> (top: Option<&ActivationRecord>)
        requires
            self.wf(),
        ensures
            match top {
                Some(record) => self.scopes().len() > 0 && record@ == self.scopes().last()
                    && record.wf(),
                None => self.scopes().len() == 0,
            },
    {
        self.stack.peek()
    }

    /// The value that the innermost scope binds `name` to.
    fn read(&self, name: &str) -> (res: Result<Value, Error>)
        requires
            self.wf(),
        ensures
            match read(self.frames(), name.spec_bytes()) {
                Ok(value) => res is Ok && res->Ok_0.datum() == value,
                Err(kind) => res == Err::<Value, Error>(Error::RuntimeError(kind)),
            },
    {
        match self.stack.peek() {
            None => Err(Error::RuntimeError(RuntimeErrorKind::NoScope)),
            Some(record) => match record.lookup(name) {
                Some(Binding::Value(value)) => Ok(value.duplicate()),
                _ => Err(Error::RuntimeError(RuntimeErrorKind::UndefinedVariable)),
            },
        }
    }

    /// Binds `name` to `value` in the innermost scope.
    fn write(&mut self, name: &str, value: Value) -> (res: Result<(), Error>)
        requires
            old(self).wf(),
        ensures
            final(self).wf(),
            final(self).unit() == old(self).unit(),
            old(self).frames().len() == 0 ==> res == Err::<(), Error>(
                Error::RuntimeError(RuntimeErrorKind::NoScope),
            ) && final(self).frames() == old(self).frames(),
            old(self).frames().len() > 0 ==> res is Ok && final(self).frames() == written(
                old(self).frames(),
                name.spec_bytes(),
                value.datum(),
            ),
    {
        match self.stack.peek_mut() {
            None => Err(Error::RuntimeError(RuntimeErrorKind::NoScope)),
            Some(record) => {
                let ghost before = record@;
                record.insert(String::from_str(name), value);
                proof {
                    lemma_frame_insert(before, name.spec_bytes(), Binding::Value(value));
                    assert(self.frames() =~= written(
                        old(self).frames(),
                        name.spec_bytes(),
                        value.datum(),
                    ));
                }
                Ok(())
            },
        }
    }

    /// Calls the native operation that the innermost scope binds `function`
    /// to.
    fn call(&self, function: &str, args: &Vec<Value>) -> (res: Result<Value, Error>)
        requires
            self.wf(),
        ensures
            match called(self.frames(), function.spec_bytes(), datums(args@)) {
                Ok(value) => res is Ok && res->Ok_0.datum() == value,
                Err(kind) => res == Err::<Value, Error>(Error::RuntimeError(kind)),
            },
    {
        match self.stack.peek() {
            None => Err(Error::RuntimeError(RuntimeErrorKind::NoScope)),
            Some(record) => match record.lookup(function) {
                Some(Binding::Native(native)) => match native {
                    Native::Transpose => matrix_transpose(args),
                },
                _ => Err(Error::RuntimeError(RuntimeErrorKind::FunctionNotFoundOrInvalid)),
            },
        }
    }

    /// Evaluates `nodes` one after the other.
    pub fn visit_all(&mut self, nodes: &Vec<Node>) -> (res: Result<Vec<Value>, Error>)
        requires
            old(self).wf(),
        ensures
            final(self).wf(),
            final(self).unit() == old(self).unit(),
            res is Err ==> res->Err_0 is RuntimeError,
            evaluate_each(
                old(self).unit(),
                nodes@,
                old(self).frames(),
                outcomes_of(res),
                final(self).frames(),
            ),
        decreases nodes, 0nat,
    {
        let ghost start = self.frames();
        let mut out: Vec<Value> = Vec::new();
        let mut i: usize = 0;
        proof {
            assert(nodes@.take(0) =~= Seq::empty());
            assert(datums(out@) =~= Seq::empty());
        }
        while i < nodes.len()
            invariant
                i <= nodes.len(),
                self.wf(),
                self.unit() == old(self).unit(),
                start == old(self).frames(),
                out.len() == i,
                evaluate_each(
                    self.unit(),
                    nodes@.take(i as int),
                    start,
                    Ok(datums(out@)),
                    self.frames(),
                ),
            decreases nodes.len() - i,
        {
            let ghost middle = self.frames();
            let ghost front = datums(out@);
            assert(nodes@.take(i + 1).drop_last() =~= nodes@.take(i as int));
            assert(nodes@.take(i + 1).last() == nodes[i as int]);
            let result = self.visit(&nodes[i]);
            assert(between(Ok::<Seq<Datum>, RuntimeErrorKind>(front), middle));
            match result {
                Err(error) => {
                    proof {
                        let kind = error->RuntimeError_0;
                        assert(evaluate_each(
                            self.unit(),
                            nodes@.take(i + 1),
                            start,
                            Err(kind),
                            self.frames(),
                        ));
                        lemma_evaluate_each_err(
                            self.unit(),
                            nodes@,
                            start,
                            i + 1,
                            kind,
                            self.frames(),
                        );
                    }
                    return Err(error);
                },
                Ok(value) => {
                    out.push(value);
                    proof {
                        let all = datums(out@);
                        assert(all.drop_last() =~= front);
                        assert(all.last() == value.datum());
                        assert(evaluate_each(
                            self.unit(),
                            nodes@.take(i + 1),
                            start,
                            Ok(all),
                            self.frames(),
                        ));
                    }
                },
            }
            i += 1;
        }
        assert(nodes@.take(i as int) =~= nodes@);
        Ok(out)
    }

    /// Evaluates `node` in the scopes of the evaluator.
    ///
    /// A literal evaluates to itself, digit for digit.
    pub fn visit(&mut self, node: &Node) -> (res: Result<Value, Error>)
        requires
            old(self).wf(),
        ensures
            final(self).wf(),
            final(self).unit() == old(self).unit(),
            res is Err ==> res->Err_0 is RuntimeError,
            evaluates(
                old(self).unit(),
                *node,
                old(self).frames(),
                outcome_of(res),
                final(self).frames(),
            ),
            node matches Node::Number(n) ==> res == Ok::<Value, Error>(Value::Number(*n)),
            node matches Node::Decimal(bits) ==> res == Ok::<Value, Error>(Value::Decimal(*bits)),
        decreases node, 1nat,
    {
        let ghost start = self.frames();
        match node {
            Node::Number(value) => Ok(Value::Number(*value)),
            Node::Decimal(value) => Ok(Value::Decimal(*value)),
            Node::Array(items) => {
                match self.visit_all(items) {
                    Ok(values) => Ok(Value::Array(values)),
                    Err(error) => Err(error),
                }
            },
            Node::Variable(name) => self.read(name),
            Node::Call { function, arguments } => {
                let given = self.visit_all(arguments);
                assert(between(outcomes_of(given), self.frames()));
                match given {
                    Ok(args) => self.call(function, &args),
                    Err(error) => Err(error),
                }
            },
            Node::Assign { lhs, rhs } => {
                let given = self.visit(rhs);
                assert(between(outcome_of(given), self.frames()));
                let value = match given {
                    Ok(value) => value,
                    Err(error) => {
                        return Err(error);
                    },
                };
                match &**lhs {
                    Node::Variable(name) => {
                        let copy = value.duplicate();
                        match self.write(name, value) {
                            Ok(()) => Ok(copy),
                            Err(error) => Err(error),
                        }
                    },
                    _ => Err(Error::RuntimeError(RuntimeErrorKind::InvalidAssignTarget)),
                }
            },
            Node::UnaryOp { op, rhs } => {
                let given = self.visit(rhs);
                assert(between(outcome_of(given), self.frames()));
                let right = match given {
                    Ok(value) => value,
                    Err(error) => {
                        return Err(error);
                    },
                };
                proof {
                    lemma_view_is_outline(right);
                }
                match op {
                    Operator::Add => Ok(right),
                    Operator::Sub => right.negation(),
                    _ => Err(Error::RuntimeError(RuntimeErrorKind::InvalidUnaryOperation)),
                }
            },
            Node::BinaryOp { op, lhs, rhs } => {
                let first = self.visit(lhs);
                let ghost middle = self.frames();
                assert(between(outcome_of(first), middle));
                let left = match first {
                    Ok(value) => value,
                    Err(error) => {
                        assert(between(outcome_of(first), self.frames()));
                        return Err(error);
                    },
                };
                let second = self.visit(rhs);
                assert(between(outcome_of(second), self.frames()));
                let right = match second {
                    Ok(value) => value,
                    Err(error) => {
                        return Err(error);
                    },
                };
                Value::apply(*op, &left, &right, &self.arith)
            },
        }
    }

    /// Evaluates statements one after the other and returns the value of
    /// the last, if there is one.
    pub fn run(&mut self, nodes: &Vec<Node>) -> (res: Result<Option<Value>, Error>)
        requires
            old(self).wf(),
        ensures
            final(self).wf(),
            final(self).unit() == old(self).unit(),
            runs(old(self).unit(), nodes@, old(self).frames(), res, final(self).frames()),
    {
        match self.visit_all(nodes) {
            Err(error) => Err(error),
            Ok(values) => {
                let mut values = values;
                let ghost all = datums(values@);
                let last = values.pop();
                proof {
                    assert(between(all, self.frames()));
                    if last is Some {
                        assert(last->Some_0.datum() == all.last());
                    }
                }
                Ok(last)
            },
        }
    }

    /// Reads the statements that `source` holds and runs them: the text is
    /// cut into tokens, the tokens are parsed, and the statements are
    /// evaluated one after the other. Where the text does not parse, nothing
    /// is evaluated.
    pub fn interpret<'a>(&mut self, source: &'a str) -> (res: Result<Option<Value>, Error>)
        requires
            old(self).wf(),
        ensures
            final(self).wf(),
            final(self).unit() == old(self).unit(),
            match statements(tokens_from(source.spec_bytes(), 0), Seq::empty()) {
                Err(kind) => res == Err::<Option<Value>, Error>(Error::ParserError(kind))
                    && final(self).frames() == old(self).frames(),
                Ok(parsed) => exists|nodes: Seq<Node<'a>>|
                    #![trigger all_read_as(old(self).unit(), nodes, parsed.value)]
                    all_read_as(old(self).unit(), nodes, parsed.value) && runs(
                        old(self).unit(),
                        nodes,
                        old(self).frames(),
                        res,
                        final(self).frames(),
                    ),
            },
    {
        let mut parser = Parser::new(Lexer::new(source));
        match parser.run(&self.arith) {
            Err(error) => Err(error),
            Ok(nodes) => self.run(&nodes),
        }
    }
}

} // verus!
