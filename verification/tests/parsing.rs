use matlang::ast::{Node, Operator};
use matlang::decimal::DecimalArith;
use matlang::error::{Error, ParseErrorKind};
use matlang::lexer::{Lexer, TokenKind};
use matlang::parser::{parse_integer, Parser};

struct Ieee;

impl DecimalArith for Ieee {
    fn from_int(&self, n: i64) -> u64 {
        (n as f64).to_bits()
    }

    fn parse(&self, literal: &str) -> u64 {
        literal.parse::<f64>().unwrap_or(f64::NAN).to_bits()
    }

    fn sum(&self, a: u64, b: u64) -> u64 {
        (f64::from_bits(a) + f64::from_bits(b)).to_bits()
    }

    fn difference(&self, a: u64, b: u64) -> u64 {
        (f64::from_bits(a) - f64::from_bits(b)).to_bits()
    }

    fn product(&self, a: u64, b: u64) -> u64 {
        (f64::from_bits(a) * f64::from_bits(b)).to_bits()
    }

    fn quotient(&self, a: u64, b: u64) -> u64 {
        (f64::from_bits(a) / f64::from_bits(b)).to_bits()
    }

    fn power(&self, base: u64, exponent: u64) -> u64 {
        f64::from_bits(base).powf(f64::from_bits(exponent)).to_bits()
    }

    fn power_int(&self, base: u64, exponent: i32) -> u64 {
        f64::from_bits(base).powi(exponent).to_bits()
    }

    fn display(&self, bits: u64) -> String {
        format!("{}", f64::from_bits(bits))
    }

    fn debug(&self, bits: u64) -> String {
        format!("{:?}", f64::from_bits(bits))
    }
}

fn tokens(text: &str) -> Vec<(TokenKind, String)> {
    let mut lexer = Lexer::new(text);
    let mut out = Vec::new();
    while let Some(token) = lexer.read() {
        out.push((*token.kind(), token.value().to_string()));
    }
    out
}

fn kinds(text: &str) -> Vec<TokenKind> {
    tokens(text).into_iter().map(|(kind, _)| kind).collect()
}

fn symbol(op: &Operator) -> &'static str {
    op.symbol()
}

fn show(node: &Node) -> String {
    match node {
        Node::Number(n) => format!("{}", n),
        Node::Decimal(bits) => format!("{:?}", f64::from_bits(*bits)),
        Node::Array(items) => {
            let parts: Vec<String> = items.iter().map(show).collect();
            format!("[{}]", parts.join(","))
        }
        Node::Variable(name) => name.to_string(),
        Node::Call { function, arguments } => {
            let parts: Vec<String> = arguments.iter().map(show).collect();
            format!("{}({})", function, parts.join(" "))
        }
        Node::Assign { lhs, rhs } => format!("({}={})", show(lhs), show(rhs)),
        Node::UnaryOp { op, rhs } => format!("({}{})", symbol(op), show(rhs)),
        Node::BinaryOp { op, lhs, rhs } => format!("({}{}{})", show(lhs), symbol(op), show(rhs)),
    }
}

fn parse(text: &str) -> Result<Vec<String>, Error> {
    let mut parser = Parser::new(Lexer::new(text));
    let nodes = parser.run(&Ieee)?;
    Ok(nodes.iter().map(show).collect())
}

fn parse_error(text: &str) -> ParseErrorKind {
    match parse(text) {
        Err(Error::ParserError(kind)) => kind,
        other => panic!("expected a parse error, got {:?}", other),
    }
}

#[test]
fn lexer_reads_operators_and_numbers() {
    assert_eq!(
        tokens("1 + 2.5*x"),
        vec![
            (TokenKind::Number, "1".to_string()),
            (TokenKind::Add, "+".to_string()),
            (TokenKind::Decimal, "2.5".to_string()),
            (TokenKind::Mul, "*".to_string()),
            (TokenKind::Identifier, "x".to_string()),
        ]
    );
}

#[test]
fn lexer_reads_every_atom() {
    assert_eq!(
        kinds("+-*/^=()[],;"),
        vec![
            TokenKind::Add,
            TokenKind::Sub,
            TokenKind::Mul,
            TokenKind::Div,
            TokenKind::Exp,
            TokenKind::Assign,
            TokenKind::LeftParen,
            TokenKind::RightParen,
            TokenKind::ArrayStart,
            TokenKind::ArrayEnd,
            TokenKind::Separator,
            TokenKind::Semicolon,
        ]
    );
}

#[test]
fn lexer_skips_blanks() {
    assert_eq!(kinds(" \t1\r\n2 "), vec![TokenKind::Number, TokenKind::Number]);
    assert_eq!(kinds(""), vec![]);
    assert_eq!(kinds("   "), vec![]);
}

#[test]
fn lexer_marks_illegal_numbers() {
    assert_eq!(tokens("1."), vec![(TokenKind::Illegal, "1.".to_string())]);
    assert_eq!(
        tokens("1.2.3"),
        vec![
            (TokenKind::Illegal, "1.2".to_string()),
            (TokenKind::Unknown, ".".to_string()),
            (TokenKind::Number, "3".to_string()),
        ]
    );
    assert_eq!(
        tokens("1.."),
        vec![(TokenKind::Illegal, "1.".to_string()), (TokenKind::Unknown, ".".to_string())]
    );
    assert_eq!(tokens("12.50"), vec![(TokenKind::Decimal, "12.50".to_string())]);
}

#[test]
fn lexer_reads_identifiers() {
    assert_eq!(
        tokens("abc1 x2y z"),
        vec![
            (TokenKind::Identifier, "abc1".to_string()),
            (TokenKind::Identifier, "x2y".to_string()),
            (TokenKind::Identifier, "z".to_string()),
        ]
    );
    assert_eq!(
        tokens("1abc"),
        vec![(TokenKind::Number, "1".to_string()), (TokenKind::Identifier, "abc".to_string())]
    );
}

#[test]
fn lexer_marks_unknown_characters() {
    assert_eq!(
        tokens("a ! b"),
        vec![
            (TokenKind::Identifier, "a".to_string()),
            (TokenKind::Unknown, "!".to_string()),
            (TokenKind::Identifier, "b".to_string()),
        ]
    );
}

#[test]
fn lexer_stops_at_a_character_of_several_bytes() {
    assert_eq!(kinds("1 + é 2"), vec![TokenKind::Number, TokenKind::Add]);
    assert_eq!(kinds("1\0 2"), vec![TokenKind::Number]);
}

#[test]
fn lexer_reads_all_tokens_at_once() {
    let mut lexer = Lexer::new("a = [1, 2.5]; b");
    let first = lexer.read().unwrap();
    assert_eq!(first.value(), "a");
    let rest: Vec<(TokenKind, String)> =
        lexer.tokens().iter().map(|t| (*t.kind(), t.value().to_string())).collect();
    assert_eq!(
        rest,
        vec![
            (TokenKind::Assign, "=".to_string()),
            (TokenKind::ArrayStart, "[".to_string()),
            (TokenKind::Number, "1".to_string()),
            (TokenKind::Separator, ",".to_string()),
            (TokenKind::Decimal, "2.5".to_string()),
            (TokenKind::ArrayEnd, "]".to_string()),
            (TokenKind::Semicolon, ";".to_string()),
            (TokenKind::Identifier, "b".to_string()),
        ]
    );
    assert!(lexer.tokens().is_empty());
    assert!(lexer.read().is_none());
}

#[test]
fn lexer_stays_exhausted() {
    let mut lexer = Lexer::new("7");
    assert!(lexer.read().is_some());
    assert!(lexer.read().is_none());
    assert!(lexer.read().is_none());
}

#[test]
fn token_precedence_follows_the_kind() {
    let mut lexer = Lexer::new("+ - * / ^ = 1 x (");
    let mut powers = Vec::new();
    while let Some(token) = lexer.read() {
        powers.push(token.precedence());
    }
    assert_eq!(powers, vec![10, 10, 20, 20, 0, 0, 0, 0, 0]);
}

#[test]
fn trees_describe_themselves() {
    let text = |source: &str| -> Vec<String> {
        let mut parser = Parser::new(Lexer::new(source));
        parser.run(&Ieee).unwrap().iter().map(|node| node.describe(&Ieee)).collect()
    };
    assert_eq!(text("1"), vec!["NumberNode(1)"]);
    assert_eq!(text("2.5"), vec!["DecimalNode(2.5)"]);
    assert_eq!(text("x"), vec!["VariableNode(x)"]);
    assert_eq!(text("-x"), vec!["UnaryOpNode(-, VariableNode(x))"]);
    assert_eq!(
        text("1+2*3"),
        vec!["BinaryOpNode(NumberNode(1), +, BinaryOpNode(NumberNode(2), *, NumberNode(3)))"]
    );
    assert_eq!(text("a=7"), vec!["AssignNode(VariableNode(a), NumberNode(7))"]);
    assert_eq!(text("[]"), vec!["ArrayNode([])"]);
    assert_eq!(
        text("[1,[2.0,y]]"),
        vec!["ArrayNode([NumberNode(1), ArrayNode([DecimalNode(2), VariableNode(y)])])"]
    );
    assert_eq!(text("f(1 z)"), vec!["CallNode(f, [NumberNode(1), VariableNode(z)])"]);
}

#[test]
fn tokens_describe_themselves() {
    let mut lexer = Lexer::new("+ abc 1.5");
    let mut shown = Vec::new();
    while let Some(token) = lexer.read() {
        shown.push(token.describe());
    }
    assert_eq!(shown, vec!["Token(Add, +)", "Token(Identifier, abc)", "Token(Decimal, 1.5)"]);
}

#[test]
fn token_kind_names() {
    assert_eq!(TokenKind::Add.name(), "Add");
    assert_eq!(TokenKind::RightParen.name(), "RightParen");
    assert_eq!(TokenKind::ArrayEnd.name(), "ArrayEnd");
    assert_eq!(TokenKind::Semicolon.name(), "Semicolon");
    assert_eq!(TokenKind::Unknown.name(), "Unknown");
}

#[test]
fn operator_from_symbol() {
    assert_eq!(Operator::from_symbol("+"), Ok(Operator::Add));
    assert_eq!(Operator::from_symbol("-"), Ok(Operator::Sub));
    assert_eq!(Operator::from_symbol("*"), Ok(Operator::Mul));
    assert_eq!(Operator::from_symbol("/"), Ok(Operator::Div));
    assert_eq!(Operator::from_symbol("^"), Ok(Operator::Exp));
    assert_eq!(
        Operator::from_symbol("%"),
        Err(Error::ParserError(ParseErrorKind::UnknownOperator))
    );
    assert_eq!(
        Operator::from_symbol("++"),
        Err(Error::ParserError(ParseErrorKind::UnknownOperator))
    );
    assert_eq!(Operator::from_symbol(""), Err(Error::ParserError(ParseErrorKind::UnknownOperator)));
}

#[test]
fn operator_symbols() {
    assert_eq!(Operator::Add.symbol(), "+");
    assert_eq!(Operator::Sub.symbol(), "-");
    assert_eq!(Operator::Mul.symbol(), "*");
    assert_eq!(Operator::Div.symbol(), "/");
    assert_eq!(Operator::Exp.symbol(), "^");
}

#[test]
fn parse_integer_reads_digits() {
    assert_eq!(parse_integer("0"), Some(0));
    assert_eq!(parse_integer("007"), Some(7));
    assert_eq!(parse_integer("9223372036854775807"), Some(i64::MAX));
    assert_eq!(parse_integer("9223372036854775808"), None);
    assert_eq!(parse_integer("99999999999999999999999"), None);
    assert_eq!(parse_integer(""), None);
    assert_eq!(parse_integer("12a"), None);
    assert_eq!(parse_integer("-1"), None);
}

#[test]
fn equal_precedence_associates_left() {
    assert_eq!(parse("1-2-3"), Ok(vec!["((1-2)-3)".to_string()]));
    assert_eq!(parse("8/4/2"), Ok(vec!["((8/4)/2)".to_string()]));
    assert_eq!(parse("1+2-3+4"), Ok(vec!["(((1+2)-3)+4)".to_string()]));
}

#[test]
fn higher_precedence_binds_tighter() {
    assert_eq!(parse("1+2*3"), Ok(vec!["(1+(2*3))".to_string()]));
    assert_eq!(parse("1*2+3"), Ok(vec!["((1*2)+3)".to_string()]));
    assert_eq!(parse("1+2*3-4/5"), Ok(vec!["((1+(2*3))-(4/5))".to_string()]));
    assert_eq!(parse("a-b*c*d"), Ok(vec!["(a-((b*c)*d))".to_string()]));
}

#[test]
fn parentheses_group() {
    assert_eq!(parse("(1+2)*3"), Ok(vec!["((1+2)*3)".to_string()]));
    assert_eq!(parse("((7))"), Ok(vec!["7".to_string()]));
}

#[test]
fn unary_operators_take_a_primary() {
    assert_eq!(parse("-1"), Ok(vec!["(-1)".to_string()]));
    assert_eq!(parse("+x"), Ok(vec!["(+x)".to_string()]));
    assert_eq!(parse("--1"), Ok(vec!["(-(-1))".to_string()]));
    assert_eq!(parse("-1+2"), Ok(vec!["((-1)+2)".to_string()]));
    assert_eq!(parse("1--2"), Ok(vec!["(1-(-2))".to_string()]));
    assert_eq!(parse("-[1,2,3]"), Ok(vec!["(-[1,2,3])".to_string()]));
}

#[test]
fn literals_and_variables_parse() {
    assert_eq!(parse("42"), Ok(vec!["42".to_string()]));
    assert_eq!(parse("2.5"), Ok(vec!["2.5".to_string()]));
    assert_eq!(parse("speed"), Ok(vec!["speed".to_string()]));
}

#[test]
fn assignment_parses() {
    assert_eq!(parse("a=5"), Ok(vec!["(a=5)".to_string()]));
    assert_eq!(parse("a=b=1+2"), Ok(vec!["(a=(b=(1+2)))".to_string()]));
    assert_eq!(parse("1+a=2*3"), Ok(vec!["(1+(a=(2*3)))".to_string()]));
}

#[test]
fn arrays_parse() {
    assert_eq!(parse("[1,2,3]"), Ok(vec!["[1,2,3]".to_string()]));
    assert_eq!(parse("[]"), Ok(vec!["[]".to_string()]));
    assert_eq!(parse("[1,]"), Ok(vec!["[1]".to_string()]));
    assert_eq!(parse("[[1,2],[3,4]]"), Ok(vec!["[[1,2],[3,4]]".to_string()]));
    assert_eq!(parse("[1+2,x*3]"), Ok(vec!["[(1+2),(x*3)]".to_string()]));
}

#[test]
fn calls_parse() {
    assert_eq!(parse("trn(m)"), Ok(vec!["trn(m)".to_string()]));
    assert_eq!(parse("f()"), Ok(vec!["f()".to_string()]));
    assert_eq!(parse("f(1 x)"), Ok(vec!["f(1 x)".to_string()]));
    assert_eq!(parse("trn([[1,2]])+1"), Ok(vec!["(trn([[1,2]])+1)".to_string()]));
}

#[test]
fn statements_are_separated_by_semicolons() {
    assert_eq!(parse("a=5; a"), Ok(vec!["(a=5)".to_string(), "a".to_string()]));
    assert_eq!(parse("1;2;3"), Ok(vec!["1".to_string(), "2".to_string(), "3".to_string()]));
    assert_eq!(parse("1;;2;"), Ok(vec!["1".to_string(), "2".to_string()]));
    assert_eq!(parse(";"), Ok(vec![]));
    assert_eq!(parse(""), Ok(vec![]));
}

#[test]
fn tokens_behind_the_last_statement_are_left() {
    assert_eq!(parse("1 2"), Ok(vec!["1".to_string()]));
    assert_eq!(parse("1 )"), Ok(vec!["1".to_string()]));
    assert_eq!(parse("2^3"), Ok(vec!["2".to_string()]));
}

#[test]
fn missing_close_paren_is_a_parse_error() {
    assert_eq!(parse_error("(1+2"), ParseErrorKind::Expected(TokenKind::RightParen));
    assert_eq!(parse_error("(1+2]"), ParseErrorKind::Expected(TokenKind::RightParen));
    assert_eq!(parse_error("f(1"), ParseErrorKind::Expected(TokenKind::RightParen));
    assert_eq!(parse_error("f(1,2)"), ParseErrorKind::Expected(TokenKind::RightParen));
}

#[test]
fn missing_close_bracket_is_a_parse_error() {
    assert_eq!(parse_error("[1,2"), ParseErrorKind::Expected(TokenKind::ArrayEnd));
    assert_eq!(parse_error("[1 2]"), ParseErrorKind::Expected(TokenKind::ArrayEnd));
    assert_eq!(parse_error("[,]"), ParseErrorKind::Expected(TokenKind::ArrayEnd));
    assert_eq!(parse_error("[[1,2],[3"), ParseErrorKind::Expected(TokenKind::ArrayEnd));
}

#[test]
fn missing_operands_are_parse_errors() {
    assert_eq!(parse_error("1+"), ParseErrorKind::MissingRightOperand);
    assert_eq!(parse_error("1*)"), ParseErrorKind::MissingRightOperand);
    assert_eq!(parse_error("-"), ParseErrorKind::MissingOperand);
    assert_eq!(parse_error("+;"), ParseErrorKind::MissingOperand);
    assert_eq!(parse_error("a="), ParseErrorKind::MissingAssignmentValue);
    assert_eq!(parse_error("a=;"), ParseErrorKind::MissingAssignmentValue);
    assert_eq!(parse_error("()"), ParseErrorKind::MissingParenthesized);
    assert_eq!(parse_error("("), ParseErrorKind::MissingParenthesized);
}

#[test]
fn an_integer_literal_must_fit() {
    assert_eq!(parse("9223372036854775807"), Ok(vec!["9223372036854775807".to_string()]));
    assert_eq!(parse_error("9223372036854775808"), ParseErrorKind::NumberOutOfRange);
    assert_eq!(parse_error("1+99999999999999999999"), ParseErrorKind::NumberOutOfRange);
}

#[test]
fn an_error_in_a_later_statement_fails_the_whole() {
    assert_eq!(parse_error("1; (2"), ParseErrorKind::Expected(TokenKind::RightParen));
}

#[test]
fn parse_error_messages() {
    assert_eq!(
        Error::ParserError(ParseErrorKind::Expected(TokenKind::RightParen)).message(),
        "ParserError: Expected RightParen"
    );
    assert_eq!(
        Error::ParserError(ParseErrorKind::MissingAssignmentValue).message(),
        "ParserError: Expected right-hand-side of assignment operation"
    );
    assert_eq!(
        Error::ParserError(ParseErrorKind::MissingParenthesized).message(),
        "ParserError: Expected expression inside parenthesis"
    );
    assert_eq!(
        Error::ParserError(ParseErrorKind::MissingOperand).message(),
        "ParserError: Expected a right-hand-side node"
    );
    assert_eq!(
        Error::ParserError(ParseErrorKind::MissingRightOperand).message(),
        "ParserError: Expected right-hand-side expression"
    );
    assert_eq!(ParseErrorKind::UnknownOperator.message(), "Unknown operator");
    assert_eq!(ParseErrorKind::NumberOutOfRange.message(), "Number out of range");
}
