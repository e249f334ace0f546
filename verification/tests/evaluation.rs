use matlang::ast::{Node, Operator};
use matlang::decimal::{negate, DecimalArith, SIGN_BIT};
use matlang::error::{Error, ParseErrorKind, RuntimeErrorKind};
use matlang::interpreter::{add_natives, matrix_transpose, Interpreter, WithNatives};
use matlang::lexer::{Lexer, TokenKind};
use matlang::memory::{ActivationRecord, CallStack};
use matlang::parser::Parser;
use matlang::render::{integer_string, natural_string};
use matlang::value::Value;

struct Unit;

impl DecimalArith for Unit {
    fn from_int(&self, n: i64) -> u64 {
        (n as f64).to_bits()
    }

    fn parse(&self, literal: &str) -> u64 {
        literal.parse::<f64>().unwrap_or(f64::NAN).to_bits()
    }

    fn sum(&self, a: u64, b: u64) -> u64 {
        (f64::from_bits(a) + f64::from_bits(b)).to_bits()
    }

    fn difference(&self, a: u64, b: u64) -> u64 {
        (f64::from_bits(a) - f64::from_bits(b)).to_bits()
    }

    fn product(&self, a: u64, b: u64) -> u64 {
        (f64::from_bits(a) * f64::from_bits(b)).to_bits()
    }

    fn quotient(&self, a: u64, b: u64) -> u64 {
        (f64::from_bits(a) / f64::from_bits(b)).to_bits()
    }

    fn power(&self, base: u64, exponent: u64) -> u64 {
        f64::from_bits(base).powf(f64::from_bits(exponent)).to_bits()
    }

    fn power_int(&self, base: u64, exponent: i32) -> u64 {
        f64::from_bits(base).powi(exponent).to_bits()
    }

    fn display(&self, bits: u64) -> String {
        format!("{}", f64::from_bits(bits))
    }

    fn debug(&self, bits: u64) -> String {
        format!("{:?}", f64::from_bits(bits))
    }
}

fn dec(x: f64) -> Value {
    Value::Decimal(x.to_bits())
}

fn num(n: i64) -> Value {
    Value::Number(n)
}

fn arr(items: Vec<Value>) -> Value {
    Value::Array(items)
}

fn nums(items: &[i64]) -> Value {
    Value::Array(items.iter().map(|n| Value::Number(*n)).collect())
}

fn show(value: &Value) -> String {
    match value {
        Value::Number(n) => format!("{}", n),
        Value::Decimal(bits) => format!("{:?}", f64::from_bits(*bits)),
        Value::Array(items) => {
            let parts: Vec<String> = items.iter().map(show).collect();
            format!("[{}]", parts.join(","))
        }
    }
}

fn shown(res: Result<Value, Error>) -> Result<String, Error> {
    res.map(|value| show(&value))
}

fn runtime(kind: RuntimeErrorKind) -> Result<String, Error> {
    Err(Error::RuntimeError(kind))
}

/// Parses the text and evaluates its statements in a fresh evaluator; gives
/// the value of each statement.
fn eval_all(text: &str) -> Result<Vec<String>, Error> {
    let mut interpreter = Interpreter::new(Unit);
    eval_in(&mut interpreter, text)
}

fn eval_in(interpreter: &mut Interpreter<Unit>, text: &str) -> Result<Vec<String>, Error> {
    let mut parser = Parser::new(Lexer::new(text));
    let nodes = parser.run(&Unit)?;
    let mut out = Vec::new();
    for node in nodes.iter() {
        out.push(show(&interpreter.visit(node)?));
    }
    Ok(out)
}

fn eval(text: &str) -> Result<String, Error> {
    eval_all(text).map(|mut values| values.pop().unwrap_or_default())
}

#[test]
fn number_literal_round_trips() {
    let mut interpreter = Interpreter::new(Unit);
    for n in [0, 1, -1, 42, i64::MAX, i64::MIN] {
        match interpreter.visit(&Node::Number(n)) {
            Ok(Value::Number(m)) => assert_eq!(m, n),
            other => panic!("unexpected {:?}", other),
        }
    }
}

#[test]
fn decimal_literal_round_trips() {
    let mut interpreter = Interpreter::new(Unit);
    for d in [0.0, -0.0, 1.5, -2.25, 1e300, f64::INFINITY, f64::NAN, f64::MIN_POSITIVE] {
        match interpreter.visit(&Node::Decimal(d.to_bits())) {
            Ok(Value::Decimal(bits)) => assert_eq!(bits, d.to_bits()),
            other => panic!("unexpected {:?}", other),
        }
    }
}

#[test]
fn assignment_is_an_expression() {
    let mut interpreter = Interpreter::new(Unit);
    assert_eq!(
        eval_in(&mut interpreter, "a=5; a"),
        Ok(vec!["5".to_string(), "5".to_string()])
    );
    let record = interpreter.scope().unwrap();
    match record.get(&"a".to_string()) {
        Some(Value::Number(5)) => {}
        other => panic!("unexpected {:?}", other),
    }
}

#[test]
fn assignment_rebinds_and_chains() {
    assert_eq!(
        eval_all("a=1; a=a+1; a; b=c=a*10; b; c"),
        Ok(vec![
            "1".to_string(),
            "2".to_string(),
            "2".to_string(),
            "20".to_string(),
            "20".to_string(),
            "20".to_string()
        ])
    );
    assert_eq!(eval("(a=2)+a"), Ok("4".to_string()));
    assert_eq!(eval("x=[1.5,2.5]; x"), Ok("[1.5,2.5]".to_string()));
}

#[test]
fn undefined_variable_access_fails() {
    let mut interpreter = Interpreter::new(Unit);
    assert_eq!(
        shown(interpreter.visit(&Node::Variable("z"))),
        runtime(RuntimeErrorKind::UndefinedVariable)
    );
    assert_eq!(eval("z"), runtime(RuntimeErrorKind::UndefinedVariable));
    assert_eq!(eval("a=1; b+a"), runtime(RuntimeErrorKind::UndefinedVariable));
    assert_eq!(eval("trn"), runtime(RuntimeErrorKind::UndefinedVariable));
}

#[test]
fn array_broadcast_with_scalar() {
    assert_eq!(eval("[1,2,3]+10"), Ok("[11,12,13]".to_string()));
    assert_eq!(eval("10+[1,2,3]"), Ok("[11,12,13]".to_string()));
    assert_eq!(eval("[1,2,3]-1"), Ok("[0,1,2]".to_string()));
    assert_eq!(eval("10-[1,2,3]"), Ok("[9,8,7]".to_string()));
    assert_eq!(eval("[1,2,3]*2"), Ok("[2,4,6]".to_string()));
    assert_eq!(eval("2*[1,2,3]"), Ok("[2,4,6]".to_string()));
    assert_eq!(eval("[[1,2],[3,4]]+1"), Ok("[[2,3],[4,5]]".to_string()));
    assert_eq!(eval("[1,[2,3]]*2"), Ok("[2,[4,6]]".to_string()));
    assert_eq!(eval("[]+1"), Ok("[]".to_string()));
}

#[test]
fn array_elementwise_addition() {
    assert_eq!(eval("[1,2]+[3,4]"), Ok("[4,6]".to_string()));
    assert_eq!(eval("[5,5]-[1,2]"), Ok("[4,3]".to_string()));
    assert_eq!(eval("[[1,2],[3,4]]+[[10,20],[30,40]]"), Ok("[[11,22],[33,44]]".to_string()));
    assert_eq!(eval("[[1,2],3]+[10,[20,30]]"), Ok("[[11,12],[23,33]]".to_string()));
    assert_eq!(eval("[]+[]"), Ok("[]".to_string()));
}

#[test]
fn array_length_mismatch_fails() {
    assert_eq!(eval("[1,2,3]+[1,2]"), runtime(RuntimeErrorKind::ShapeMismatch));
    assert_eq!(eval("[1,2]-[1,2,3]"), runtime(RuntimeErrorKind::ShapeMismatch));
    assert_eq!(eval("[[1,2],[3]]+[[1,2],[3,4]]"), runtime(RuntimeErrorKind::ShapeMismatch));
}

#[test]
fn matrix_multiplication_is_row_times_column() {
    assert_eq!(
        eval("[[1,2,3],[4,5,6]]*[[7,8],[9,10],[11,12]]"),
        Ok("[[58,64],[139,154]]".to_string())
    );
    assert_eq!(eval("[[1,2],[3,4]]*[[0,1],[1,0]]"), Ok("[[2,1],[4,3]]".to_string()));
    assert_eq!(eval("[[2]]*[[3]]"), Ok("[[6]]".to_string()));
    assert_eq!(eval("[[1,2,3]]*[[1],[2],[3]]"), Ok("[[14]]".to_string()));
    assert_eq!(eval("[[1],[2]]*[[3,4]]"), Ok("[[3,4],[6,8]]".to_string()));
}

#[test]
fn matrix_multiplication_promotes_to_decimal() {
    assert_eq!(eval("[[1,2]]*[[0.5],[2]]"), Ok("[[4.5]]".to_string()));
    assert_eq!(eval("[[1.5]]*[[2]]"), Ok("[[3.0]]".to_string()));
}

#[test]
fn matrix_multiplication_of_unfit_shapes_fails() {
    assert_eq!(
        eval("[[1,2,3],[4,5,6]]*[[1,2,3],[4,5,6]]"),
        runtime(RuntimeErrorKind::ShapeMismatch)
    );
    assert_eq!(eval("[[1,2]]*[[1,2]]"), runtime(RuntimeErrorKind::ShapeMismatch));
}

#[test]
fn matrix_multiplication_needs_matrices() {
    assert_eq!(eval("[]*[[1]]"), runtime(RuntimeErrorKind::EmptyMatrix));
    assert_eq!(eval("[[1]]*[]"), runtime(RuntimeErrorKind::EmptyMatrix));
    assert_eq!(eval("[[]]*[[]]"), runtime(RuntimeErrorKind::EmptyMatrix));
    assert_eq!(eval("[[1]]*[[]]"), runtime(RuntimeErrorKind::EmptyMatrix));
    assert_eq!(eval("[1,2]*[3,4]"), runtime(RuntimeErrorKind::NotRectangular));
    assert_eq!(eval("[[1,2],[3]]*[[1],[2]]"), runtime(RuntimeErrorKind::NotRectangular));
    assert_eq!(eval("[[1,2]]*[[1],2]"), runtime(RuntimeErrorKind::NotRectangular));
    assert_eq!(eval("[[1,2],[3,4,5]]*[[1],[2]]"), runtime(RuntimeErrorKind::NotRectangular));
}

#[test]
fn matrix_cells_may_be_matrices() {
    assert_eq!(eval("[[[1,2]]]*[[3]]"), Ok("[[[3,6]]]".to_string()));
}

#[test]
fn unary_negation_distributes() {
    assert_eq!(eval("-[1,2,3]"), Ok("[-1,-2,-3]".to_string()));
    assert_eq!(eval("-[[1,-2],[3.5]]"), Ok("[[-1,2],[-3.5]]".to_string()));
    assert_eq!(eval("-5"), Ok("-5".to_string()));
    assert_eq!(eval("--5"), Ok("5".to_string()));
    assert_eq!(eval("-0.0"), Ok("-0.0".to_string()));
    assert_eq!(eval("+[1,2]"), Ok("[1,2]".to_string()));
    assert_eq!(eval("+7"), Ok("7".to_string()));
}

#[test]
fn division_by_an_array_fails() {
    assert_eq!(eval("1/[1,2]"), runtime(RuntimeErrorKind::MatrixDivision));
    assert_eq!(eval("1.5/[1,2]"), runtime(RuntimeErrorKind::MatrixDivision));
    assert_eq!(eval("[1,2]/[1,2]"), runtime(RuntimeErrorKind::MatrixDivision));
    assert_eq!(eval("[[1]]/[[1]]"), runtime(RuntimeErrorKind::MatrixDivision));
    assert_eq!(eval("[]/[]"), runtime(RuntimeErrorKind::MatrixDivision));
}

#[test]
fn division_gives_decimals() {
    assert_eq!(eval("4/2"), Ok("2.0".to_string()));
    assert_eq!(eval("1/4"), Ok("0.25".to_string()));
    assert_eq!(eval("1/0"), Ok("inf".to_string()));
    assert_eq!(eval("[1,2,3]/2"), Ok("[0.5,1.0,1.5]".to_string()));
    assert_eq!(eval("[[1],[3]]/2.0"), Ok("[[0.5],[1.5]]".to_string()));
    assert_eq!(eval("7.5/2.5"), Ok("3.0".to_string()));
}

#[test]
fn scalar_arithmetic() {
    assert_eq!(eval("1+2"), Ok("3".to_string()));
    assert_eq!(eval("1-2-3"), Ok("-4".to_string()));
    assert_eq!(eval("1+2*3"), Ok("7".to_string()));
    assert_eq!(eval("(1+2)*3"), Ok("9".to_string()));
    assert_eq!(eval("1.5+2"), Ok("3.5".to_string()));
    assert_eq!(eval("2+1.5"), Ok("3.5".to_string()));
    assert_eq!(eval("2*1.5"), Ok("3.0".to_string()));
    assert_eq!(eval("1.5-2"), Ok("-0.5".to_string()));
    assert_eq!(eval("2-1.5"), Ok("0.5".to_string()));
    assert_eq!(eval("0.5+0.25"), Ok("0.75".to_string()));
    assert_eq!(eval("3.0*0.5"), Ok("1.5".to_string()));
}

#[test]
fn integer_overflow_is_an_error() {
    assert_eq!(eval("9223372036854775807+1"), runtime(RuntimeErrorKind::Overflow));
    assert_eq!(eval("-9223372036854775807-2"), runtime(RuntimeErrorKind::Overflow));
    assert_eq!(eval("4611686018427387904*2"), runtime(RuntimeErrorKind::Overflow));
    assert_eq!(eval("[1,9223372036854775807]+1"), runtime(RuntimeErrorKind::Overflow));
    assert_eq!(
        shown(Value::Number(i64::MIN).neg()),
        runtime(RuntimeErrorKind::Overflow)
    );
    assert_eq!(eval("-9223372036854775807-1"), Ok("-9223372036854775808".to_string()));
}

#[test]
fn exponentiation_gives_decimals() {
    let unit = Unit;
    assert_eq!(shown(num(2).pow(num(10), &unit)), Ok("1024.0".to_string()));
    assert_eq!(shown(dec(2.0).pow(dec(0.5), &unit)), Ok(format!("{:?}", 2.0f64.powf(0.5))));
    assert_eq!(shown(nums(&[1, 2, 3]).pow(num(2), &unit)), Ok("[1.0,4.0,9.0]".to_string()));
    assert_eq!(
        shown(num(2).pow(nums(&[1, 2]), &unit)),
        runtime(RuntimeErrorKind::InvalidExponent)
    );
    assert_eq!(
        shown(nums(&[1, 2]).pow(nums(&[1, 2]), &unit)),
        runtime(RuntimeErrorKind::InvalidExponent)
    );
    assert_eq!(shown(num(3).powf(2.0f64.to_bits(), &unit)), Ok("9.0".to_string()));
    let mut interpreter = Interpreter::new(Unit);
    let node = Node::BinaryOp {
        op: Operator::Exp,
        lhs: Box::new(Node::Number(2)),
        rhs: Box::new(Node::Number(3)),
    };
    assert_eq!(shown(interpreter.visit(&node)), Ok("8.0".to_string()));
}

#[test]
fn values_are_shown_as_text() {
    let unit = Unit;
    assert_eq!(num(0).display(&unit), "0");
    assert_eq!(num(42).display(&unit), "42");
    assert_eq!(num(-7).display(&unit), "-7");
    assert_eq!(num(i64::MAX).display(&unit), "9223372036854775807");
    assert_eq!(num(i64::MIN).display(&unit), "-9223372036854775808");
    assert_eq!(dec(2.5).display(&unit), "2.5");
    assert_eq!(dec(2.0).display(&unit), "2");
    assert_eq!(nums(&[]).display(&unit), "[]");
    assert_eq!(nums(&[1]).display(&unit), "[Number(1)]");
    assert_eq!(
        arr(vec![num(1), dec(2.0), nums(&[-3, 40])]).display(&unit),
        "[Number(1), Decimal(2.0), Array([Number(-3), Number(40)])]"
    );
    assert_eq!(num(10).debug(&unit), "Number(10)");
    assert_eq!(dec(0.5).debug(&unit), "Decimal(0.5)");
    assert_eq!(arr(vec![nums(&[])]).debug(&unit), "Array([Array([])])");
}

#[test]
fn integers_are_written_in_digits() {
    assert_eq!(integer_string(0), "0");
    assert_eq!(integer_string(9), "9");
    assert_eq!(integer_string(10), "10");
    assert_eq!(integer_string(-10), "-10");
    assert_eq!(integer_string(1234567890), "1234567890");
    assert_eq!(natural_string(u64::MAX), "18446744073709551615");
    for n in [-1000, -1, 1, 99, 100, 101, 65535] {
        assert_eq!(integer_string(n), format!("{}", n));
    }
}

#[test]
fn integer_powers() {
    let unit = Unit;
    assert_eq!(show(&num(2).powi(10, &unit)), "1024.0");
    assert_eq!(show(&dec(1.5).powi(2, &unit)), "2.25");
    assert_eq!(show(&num(2).powi(-1, &unit)), "0.5");
    assert_eq!(
        show(&arr(vec![num(1), dec(0.5), nums(&[2, 3])]).powi(2, &unit)),
        "[1.0,0.25,[4.0,9.0]]"
    );
    assert_eq!(show(&nums(&[]).powi(3, &unit)), "[]");
}

#[test]
fn value_operators() {
    let unit = Unit;
    assert_eq!(shown(num(1).add(num(2), &unit)), Ok("3".to_string()));
    assert_eq!(shown(num(1).sub(num(2), &unit)), Ok("-1".to_string()));
    assert_eq!(shown(num(3).mul(num(4), &unit)), Ok("12".to_string()));
    assert_eq!(shown(num(3).div(num(4), &unit)), Ok("0.75".to_string()));
    assert_eq!(shown(num(3).neg()), Ok("-3".to_string()));
    assert_eq!(shown(dec(1.5).neg()), Ok("-1.5".to_string()));
    assert_eq!(shown(num(1).sub(nums(&[1, 2]), &unit)), Ok("[0,-1]".to_string()));
    assert_eq!(shown(nums(&[1, 2]).mul(dec(0.5), &unit)), Ok("[0.5,1.0]".to_string()));
    assert_eq!(
        shown(Value::apply(Operator::Mul, &nums(&[1, 2]), &num(3), &unit)),
        Ok("[3,6]".to_string())
    );
    assert_eq!(
        shown(Value::pointwise(Operator::Mul, &nums(&[1, 2]), &nums(&[3, 4]), &unit)),
        runtime(RuntimeErrorKind::ShapeMismatch)
    );
    assert_eq!(
        shown(Value::product(&arr(vec![nums(&[1, 2])]), &arr(vec![nums(&[3]), nums(&[4])]), &unit)),
        Ok("[[11]]".to_string())
    );
}

#[test]
fn duplicate_copies_a_value() {
    let value = arr(vec![num(1), dec(2.5), nums(&[3, 4])]);
    assert_eq!(show(&value.duplicate()), "[1,2.5,[3,4]]");
    assert_eq!(show(&value), "[1,2.5,[3,4]]");
}

#[test]
fn columns_of_a_matrix() {
    assert_eq!(Value::columns(&vec![nums(&[1, 2]), nums(&[3, 4])]), Some(2));
    assert_eq!(Value::columns(&vec![nums(&[])]), Some(0));
    assert_eq!(Value::columns(&vec![]), None);
    assert_eq!(Value::columns(&vec![nums(&[1, 2]), nums(&[3])]), None);
    assert_eq!(Value::columns(&vec![num(1)]), None);
    assert_eq!(Value::columns(&vec![nums(&[1]), num(1)]), None);
}

#[test]
fn negate_flips_the_sign_only() {
    for d in [0.0, 1.5, -2.25, f64::INFINITY, 1e-310] {
        assert_eq!(negate(d.to_bits()), (-d).to_bits());
    }
    assert_eq!(negate(f64::NAN.to_bits()), f64::NAN.to_bits() ^ SIGN_BIT);
    assert_eq!(negate(negate(7)), 7);
}

#[test]
fn transpose_exchanges_rows_and_columns() {
    assert_eq!(eval("trn([[1,2,3],[4,5,6]])"), Ok("[[1,4],[2,5],[3,6]]".to_string()));
    assert_eq!(eval("trn([[1.5,2],[3,[4]]])"), Ok("[[1.5,3],[2,[4]]]".to_string()));
    assert_eq!(eval("trn([[7]])"), Ok("[[7]]".to_string()));
    assert_eq!(eval("m=[[1,2]]; trn(trn(m))"), Ok("[[1,2]]".to_string()));
    assert_eq!(
        shown(matrix_transpose(&vec![arr(vec![nums(&[1, 2])]), num(9)])),
        Ok("[[1],[2]]".to_string())
    );
}

#[test]
fn transpose_needs_a_rectangular_matrix() {
    assert_eq!(eval("trn()"), runtime(RuntimeErrorKind::ExpectedMatrix));
    assert_eq!(eval("trn(1)"), runtime(RuntimeErrorKind::ExpectedMatrix));
    assert_eq!(eval("trn([])"), runtime(RuntimeErrorKind::EmptyMatrix));
    assert_eq!(eval("trn([[]])"), runtime(RuntimeErrorKind::EmptyMatrix));
    assert_eq!(eval("trn([1,2])"), runtime(RuntimeErrorKind::NotRectangular));
    assert_eq!(eval("trn([[1,2],[3]])"), runtime(RuntimeErrorKind::NotRectangular));
    assert_eq!(eval("trn([[1],2])"), runtime(RuntimeErrorKind::NotRectangular));
}

#[test]
fn calls_need_a_native_operation() {
    assert_eq!(eval("f(1)"), runtime(RuntimeErrorKind::FunctionNotFoundOrInvalid));
    assert_eq!(eval("a=1; a(2)"), runtime(RuntimeErrorKind::FunctionNotFoundOrInvalid));
    assert_eq!(
        eval("trn=5; trn([[1]])"),
        runtime(RuntimeErrorKind::FunctionNotFoundOrInvalid)
    );
    assert_eq!(eval("trn(z)"), runtime(RuntimeErrorKind::UndefinedVariable));
    let mut bare = Interpreter::from_record(ActivationRecord::new(), Unit);
    assert_eq!(
        eval_in(&mut bare, "trn([[1]])"),
        Err(Error::RuntimeError(RuntimeErrorKind::FunctionNotFoundOrInvalid))
    );
}

#[test]
fn assignment_needs_a_variable() {
    let mut interpreter = Interpreter::new(Unit);
    let node = Node::Assign { lhs: Box::new(Node::Number(1)), rhs: Box::new(Node::Number(2)) };
    assert_eq!(
        shown(interpreter.visit(&node)),
        runtime(RuntimeErrorKind::InvalidAssignTarget)
    );
    let failing = Node::Assign {
        lhs: Box::new(Node::Number(1)),
        rhs: Box::new(Node::Variable("missing")),
    };
    assert_eq!(
        shown(interpreter.visit(&failing)),
        runtime(RuntimeErrorKind::UndefinedVariable)
    );
}

#[test]
fn unary_operators_are_plus_and_minus() {
    let mut interpreter = Interpreter::new(Unit);
    for op in [Operator::Mul, Operator::Div, Operator::Exp] {
        let node = Node::UnaryOp { op, rhs: Box::new(Node::Number(1)) };
        assert_eq!(
            shown(interpreter.visit(&node)),
            runtime(RuntimeErrorKind::InvalidUnaryOperation)
        );
    }
}

#[test]
fn evaluation_without_a_scope() {
    let mut interpreter = Interpreter::from_stack(CallStack::new(), Unit);
    assert_eq!(shown(interpreter.visit(&Node::Number(3))), Ok("3".to_string()));
    assert_eq!(
        shown(interpreter.visit(&Node::Variable("a"))),
        runtime(RuntimeErrorKind::NoScope)
    );
    assert_eq!(eval_in(&mut interpreter, "a=1"), Err(Error::RuntimeError(RuntimeErrorKind::NoScope)));
    assert_eq!(eval_in(&mut interpreter, "f()"), Err(Error::RuntimeError(RuntimeErrorKind::NoScope)));
}

#[test]
fn the_first_error_ends_the_evaluation() {
    let mut interpreter = Interpreter::new(Unit);
    assert_eq!(
        eval_in(&mut interpreter, "[a=1, z, b=2]"),
        Err(Error::RuntimeError(RuntimeErrorKind::UndefinedVariable))
    );
    assert_eq!(eval_in(&mut interpreter, "a"), Ok(vec!["1".to_string()]));
    assert_eq!(
        eval_in(&mut interpreter, "b"),
        Err(Error::RuntimeError(RuntimeErrorKind::UndefinedVariable))
    );
    assert_eq!(
        eval_in(&mut interpreter, "z + (c=3)"),
        Err(Error::RuntimeError(RuntimeErrorKind::UndefinedVariable))
    );
    assert_eq!(
        eval_in(&mut interpreter, "c"),
        Err(Error::RuntimeError(RuntimeErrorKind::UndefinedVariable))
    );
    assert_eq!(
        eval_in(&mut interpreter, "(d=3) + z"),
        Err(Error::RuntimeError(RuntimeErrorKind::UndefinedVariable))
    );
    assert_eq!(eval_in(&mut interpreter, "d"), Ok(vec!["3".to_string()]));
}

#[test]
fn arrays_keep_length_and_order() {
    assert_eq!(eval("[3,1,2]"), Ok("[3,1,2]".to_string()));
    assert_eq!(eval("[2.5,1.5,[0.5,7]]"), Ok("[2.5,1.5,[0.5,7]]".to_string()));
    assert_eq!(eval("a=1; [a, a=2, a]"), Ok("[1,2,2]".to_string()));
}

#[test]
fn run_gives_the_last_value() {
    let mut interpreter = Interpreter::new(Unit);
    let mut parser = Parser::new(Lexer::new("a=2; b=a*3; b+1"));
    let nodes = parser.run(&Unit).unwrap();
    assert_eq!(interpreter.run(&nodes).map(|v| v.map(|v| show(&v))), Ok(Some("7".to_string())));
    assert_eq!(interpreter.run(&Vec::new()).map(|v| v.map(|v| show(&v))), Ok(None));
    let mut failing = Parser::new(Lexer::new("c=1; z; c=2"));
    let nodes = failing.run(&Unit).unwrap();
    assert_eq!(
        interpreter.run(&nodes).map(|v| v.map(|v| show(&v))),
        Err(Error::RuntimeError(RuntimeErrorKind::UndefinedVariable))
    );
    assert_eq!(eval_in(&mut interpreter, "c"), Ok(vec!["1".to_string()]));
}

#[test]
fn interpret_reads_and_runs_a_line() {
    let mut interpreter = Interpreter::new(Unit);
    let shown = |res: Result<Option<Value>, Error>| res.map(|v| v.map(|v| show(&v)));
    assert_eq!(shown(interpreter.interpret("a=5; a")), Ok(Some("5".to_string())));
    assert_eq!(shown(interpreter.interpret("a*[1,2.5]")), Ok(Some("[5,12.5]".to_string())));
    assert_eq!(shown(interpreter.interpret("")), Ok(None));
    assert_eq!(shown(interpreter.interpret(" ; ;")), Ok(None));
    assert_eq!(
        shown(interpreter.interpret("b=1; (b")),
        Err(Error::ParserError(ParseErrorKind::Expected(TokenKind::RightParen)))
    );
    assert_eq!(
        shown(interpreter.interpret("b")),
        Err(Error::RuntimeError(RuntimeErrorKind::UndefinedVariable))
    );
    assert_eq!(
        shown(interpreter.interpret("c=2; z; c=3")),
        Err(Error::RuntimeError(RuntimeErrorKind::UndefinedVariable))
    );
    assert_eq!(shown(interpreter.interpret("c")), Ok(Some("2".to_string())));
}

#[test]
fn visit_all_gives_every_value() {
    let mut interpreter = Interpreter::new(Unit);
    let nodes = vec![Node::Number(1), Node::Decimal(2.5f64.to_bits())];
    let values = interpreter.visit_all(&nodes).unwrap();
    assert_eq!(values.iter().map(show).collect::<Vec<_>>(), vec!["1", "2.5"]);
}

#[test]
fn natives_are_bound_as_trn() {
    let record = ActivationRecord::with_natives();
    assert!(record.lookup("trn").is_some());
    assert!(record.get(&"trn".to_string()).is_none());
    let mut own = ActivationRecord::new();
    own.insert("x".to_string(), num(1));
    let own = add_natives(own);
    assert!(own.lookup("trn").is_some());
    assert!(own.get(&"x".to_string()).is_some());
}

#[test]
fn runtime_error_messages() {
    assert_eq!(
        Error::RuntimeError(RuntimeErrorKind::UndefinedVariable).message(),
        "RuntimeError: Undefined variable"
    );
    assert_eq!(
        Error::RuntimeError(RuntimeErrorKind::MatrixDivision).message(),
        "RuntimeError: Matrix division is impossible"
    );
    assert_eq!(
        Error::RuntimeError(RuntimeErrorKind::InvalidUnaryOperation).message(),
        "RuntimeError: Invalid unary operation"
    );
    assert_eq!(
        Interpreter::<Unit>::error(RuntimeErrorKind::ExpectedMatrix).message(),
        "RuntimeError: Expected a matrix"
    );
    assert_eq!(RuntimeErrorKind::EmptyMatrix.message(), "Cannot multiply an empty matrix");
    assert_eq!(RuntimeErrorKind::ShapeMismatch.message(), "Shape mismatch");
    assert_eq!(RuntimeErrorKind::InvalidAssignTarget.message(), "Invalid assignment target");
    assert_eq!(
        RuntimeErrorKind::FunctionNotFoundOrInvalid.message(),
        "Function not found or invalid"
    );
    assert_eq!(RuntimeErrorKind::InvalidExponent.message(), "Invalid exponent");
    assert_eq!(RuntimeErrorKind::NotRectangular.message(), "Expected a rectangular matrix");
    assert_eq!(RuntimeErrorKind::Overflow.message(), "Integer overflow");
    assert_eq!(RuntimeErrorKind::NoScope.message(), "No scope");
}
