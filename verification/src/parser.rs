//! The parser: it computes what the grammar describes, one token of
//! lookahead at a time.

use crate::ast::{all_read_as, may_read_as, reads_as, Node, NodeView, Operator};
use crate::decimal::DecimalArith;
use crate::error::{Error, ParseErrorKind};
use crate::grammar::{
    all_digits, arguments, assignment, call, chain, digits_value, elements, expr, integer_literal,
    next_power, primary, starts_with, statements, Parse, ParseList, Parsed,
};
use crate::lexer::{is_digit, Lexer, Token, TokenKind, TokenView};
use vstd::prelude::*;
use vstd::string::*;

verus! {

/// The integer that a literal of digits denotes, if it fits in 64 bits.
pub fn parse_integer(text: &str) -> (value: Option<i64>)
    ensures
        match integer_literal(text.spec_bytes()) {
            Some(n) => value == Some(n as i64) && n == n as i64,
            None => value is None,
        },
{
    let bytes = text.as_bytes();
    if bytes.len() == 0 {
        return None;
    }
    let mut value: i64 = 0;
    let mut i: usize = 0;
    assert(bytes@.take(0) =~= Seq::empty());
    while i < bytes.len()
        invariant
            i <= bytes.len(),
            bytes@ == text.spec_bytes(),
            all_digits(bytes@.take(i as int)),
            value == digits_value(bytes@.take(i as int)),
        decreases bytes.len() - i,
    {
        let c = bytes[i];
        assert(bytes@.take(i + 1).drop_last() =~= bytes@.take(i as int));
        if !(0x30 <= c && c <= 0x39) {
            assert(!is_digit(bytes@[i as int]));
            return None;
        }
        let digit = (c - 0x30) as i64;
        let next = match value.checked_mul(10) {
            Some(tens) => tens.checked_add(digit),
            None => None,
        };
        match next {
            Some(n) => {
                value = n;
            },
            None => {
                proof {
                    assert(digits_value(bytes@.take(i + 1)) == value * 10 + digit);
                    if all_digits(bytes@) {
                        lemma_digits_value_grows(bytes@, i + 1);
                    }
                }
                return None;
            },
        }
        assert forall|k: int| 0 <= k < i + 1 implies is_digit(#[trigger] bytes@.take(i + 1)[k]) by {
            if k < i {
                assert(bytes@.take(i + 1)[k] == bytes@.take(i as int)[k]);
            }
        }
        i += 1;
    }
    assert(bytes@.take(i as int) =~= bytes@);
    Some(value)
}

/// The number that a text of digits denotes is at least the number that
/// any of its beginnings denotes.
proof fn lemma_digits_value_grows(text: Seq<u8>, k: int)
    requires
        0 <= k <= text.len(),
        all_digits(text),
    ensures
        0 <= digits_value(text.take(k)) <= digits_value(text),
    decreases text.len(),
{
    if text.len() == 0 {
        assert(text.take(k) =~= text);
    } else if k == text.len() {
        assert(text.take(k) =~= text);
        assert(all_digits(text.drop_last())) by {
            assert forall|i: int| 0 <= i < text.drop_last().len() implies is_digit(
                #[trigger] text.drop_last()[i],
            ) by {
                assert(text.drop_last()[i] == text[i]);
            }
        }
        lemma_digits_value_grows(text.drop_last(), k - 1);
        assert(text.drop_last().take(k - 1) =~= text.drop_last());
        assert(is_digit(text[text.len() - 1]));
    } else {
        assert(all_digits(text.drop_last())) by {
            assert forall|i: int| 0 <= i < text.drop_last().len() implies is_digit(
                #[trigger] text.drop_last()[i],
            ) by {
                assert(text.drop_last()[i] == text[i]);
            }
        }
        lemma_digits_value_grows(text.drop_last(), k);
        lemma_digits_value_grows(text.drop_last(), text.len() - 1);
        assert(text.drop_last().take(k) =~= text.take(k));
        assert(text.drop_last().take(text.len() - 1) =~= text.drop_last());
        assert(is_digit(text[text.len() - 1]));
    }
}

/// A parser over the tokens of a lexer, with one token of lookahead.
pub struct Parser<'a> {
    source: Lexer<'a>,
    token: Option<Token<'a>>,
}

impl<'a> Parser<'a> {
    /// The tokens that are yet to be parsed.
    pub closed spec fn upcoming(&self) -> Seq<TokenView> {
        match self.token {
            Some(token) => seq![token@] + self.source.upcoming(),
            None => Seq::empty(),
        }
    }

    /// The lexer is well formed, and the lookahead is its last token.
    pub closed spec fn wf(&self) -> bool {
        &&& self.source.wf()
        &&& self.token is None ==> self.source.upcoming() == Seq::<TokenView>::empty()
    }

    /// A parser over the tokens that `source` has yet to produce.
    pub fn new(source: Lexer<'a>) -> (parser: Parser<'a>)
        requires
            source.wf(),
        ensures
            parser.wf(),
            parser.upcoming() == source.upcoming(),
    {
        let mut source = source;
        let token = source.read();
        Parser { source, token }
    }

    /// A parse error of the given kind.
    fn error(kind: ParseErrorKind) -> (error: Error)
        ensures
            error == Error::ParserError(kind),
    {
        Error::ParserError(kind)
    }

    /// Takes the next token.
    fn eat(&mut self) -> (token: Option<Token<'a>>)
        requires
            old(self).wf(),
        ensures
            final(self).wf(),
            match token {
                Some(t) => old(self).upcoming().len() > 0 && t@ == old(self).upcoming()[0]
                    && final(self).upcoming() == old(self).upcoming().skip(1),
                None => old(self).upcoming().len() == 0 && final(self).upcoming() == old(self).upcoming(),
            },
    {
        let token = self.token;
        if token.is_some() {
            self.token = self.source.read();
            assert(self.upcoming() =~= old(self).upcoming().skip(1));
        }
        token
    }

    /// Takes the next token, which must be of the given kind.
    fn expect(&mut self, kind: TokenKind) -> (res: Result<Token<'a>, Error>)
        requires
            old(self).wf(),
        ensures
            final(self).wf(),
            starts_with(old(self).upcoming(), kind) ==> (res matches Ok(t) && t@ == old(
                self).upcoming()[0] && final(self).upcoming() == old(self).upcoming().skip(1)),
            !starts_with(old(self).upcoming(), kind) ==> (res matches Err(e) && e
                == Error::ParserError(ParseErrorKind::Expected(kind))),
    {
        match self.eat() {
            Some(token) => {
                if *token.kind() != kind {
                    return Err(Error::ParserError(ParseErrorKind::Expected(kind)));
                }
                Ok(token)
            },
            None => Err(Error::ParserError(ParseErrorKind::Expected(kind))),
        }
    }

    /// The next token, which stays.
    fn peek(&self) -> (token: Option<&Token<'a>>)
        requires
            self.wf(),
        ensures
            match token {
                Some(t) => self.upcoming().len() > 0 && t@ == self.upcoming()[0],
                None => self.upcoming().len() == 0,
            },
    {
        self.token.as_ref()
    }

    /// The kind of the next token.
    fn peek_kind(&self) -> (kind: Option<TokenKind>)
        requires
            self.wf(),
        ensures
            match kind {
                Some(k) => self.upcoming().len() > 0 && k == self.upcoming()[0].kind,
                None => self.upcoming().len() == 0,
            },
    {
        match self.peek() {
            Some(token) => Some(*token.kind()),
            None => None,
        }
    }

    /// The binding power of the next token.
    fn peek_power(&self) -> (power: usize)
        requires
            self.wf(),
        ensures
            power == next_power(self.upcoming()),
    {
        match self.peek() {
            Some(token) => token.precedence(),
            None => 0,
        }
    }

    fn parse_number<A: DecimalArith>(&mut self, arith: &A) -> (res: Result<
        Option<Node<'a>>,
        Error,
    >)
        requires
            old(self).wf(),
            starts_with(old(self).upcoming(), TokenKind::Number),
        ensures
            final(self).wf(),
            parsed(arith, res, old(self).upcoming(), final(self).upcoming(), primary(old(self).upcoming())),
    {
        let token = self.eat().unwrap();
        match parse_integer(token.value()) {
            Some(value) => Ok(Some(Node::Number(value))),
            None => Err(Parser::error(ParseErrorKind::NumberOutOfRange)),
        }
    }

    fn parse_decimal<A: DecimalArith>(&mut self, arith: &A) -> (res: Result<
        Option<Node<'a>>,
        Error,
    >)
        requires
            old(self).wf(),
            starts_with(old(self).upcoming(), TokenKind::Decimal),
        ensures
            final(self).wf(),
            parsed(arith, res, old(self).upcoming(), final(self).upcoming(), primary(old(self).upcoming())),
    {
        let token = self.eat().unwrap();
        Ok(Some(Node::Decimal(arith.parse(token.value()))))
    }

    fn parse_assignment<A: DecimalArith>(&mut self, name: &'a str, arith: &A) -> (res: Result<
        Option<Node<'a>>,
        Error,
    >)
        requires
            old(self).wf(),
            starts_with(old(self).upcoming(), TokenKind::Assign),
        ensures
            final(self).wf(),
            parsed(
                arith,
                res,
                old(self).upcoming(),
                final(self).upcoming(),
                assignment(name.spec_bytes(), old(self).upcoming()),
            ),
        decreases old(self).upcoming().len(), 0nat,
    {
        self.eat();
        assert(reads_as(arith, Node::Variable(name), NodeView::Variable(name.spec_bytes())));
        match self.parse_expr(arith) {
            Err(error) => Err(error),
            Ok(Some(rhs)) => Ok(
                Some(Node::Assign { lhs: Box::new(Node::Variable(name)), rhs: Box::new(rhs) }),
            ),
            Ok(None) => Err(Parser::error(ParseErrorKind::MissingAssignmentValue)),
        }
    }

    fn parse_call<A: DecimalArith>(&mut self, name: &'a str, arith: &A) -> (res: Result<
        Option<Node<'a>>,
        Error,
    >)
        requires
            old(self).wf(),
            starts_with(old(self).upcoming(), TokenKind::LeftParen),
        ensures
            final(self).wf(),
            parsed(arith, res, old(self).upcoming(), final(self).upcoming(), call(name.spec_bytes(), old(self).upcoming())),
        decreases old(self).upcoming().len(), 0nat,
    {
        self.eat();
        let ghost start = self.upcoming();
        let mut args: Vec<Node<'a>> = Vec::new();
        let ghost mut front: Seq<NodeView> = Seq::empty();
        loop
            invariant
                self.wf(),
                self.upcoming().len() <= start.len(),
                start.len() < old(self).upcoming().len(),
                start == old(self).upcoming().skip(1),
                all_read_as(arith, args@, front),
                arguments(start, Seq::empty()) == arguments(self.upcoming(), front),
            decreases self.upcoming().len(),
        {
            let ghost before = self.upcoming();
            match self.parse_expr(arith) {
                Err(error) => {
                    return Err(error);
                },
                Ok(Some(node)) => {
                    proof {
                        front = front.push(expr(before)->Ok_0.value->Some_0);
                    }
                    args.push(node);
                },
                Ok(None) => {
                    match self.expect(TokenKind::RightParen) {
                        Err(error) => {
                            return Err(error);
                        },
                        Ok(_) => {
                            return Ok(Some(Node::Call { function: name, arguments: args }));
                        },
                    }
                },
            }
        }
    }

    fn parse_identifier<A: DecimalArith>(&mut self, arith: &A) -> (res: Result<
        Option<Node<'a>>,
        Error,
    >)
        requires
            old(self).wf(),
            starts_with(old(self).upcoming(), TokenKind::Identifier),
        ensures
            final(self).wf(),
            parsed(arith, res, old(self).upcoming(), final(self).upcoming(), primary(old(self).upcoming())),
        decreases old(self).upcoming().len(), 1nat,
    {
        let name = self.eat().unwrap().value();
        match self.peek_kind() {
            Some(TokenKind::Assign) => self.parse_assignment(name, arith),
            Some(TokenKind::LeftParen) => self.parse_call(name, arith),
            _ => Ok(Some(Node::Variable(name))),
        }
    }

    fn parse_paren_expr<A: DecimalArith>(&mut self, arith: &A) -> (res: Result<
        Option<Node<'a>>,
        Error,
    >)
        requires
            old(self).wf(),
            starts_with(old(self).upcoming(), TokenKind::LeftParen),
        ensures
            final(self).wf(),
            parsed(arith, res, old(self).upcoming(), final(self).upcoming(), primary(old(self).upcoming())),
        decreases old(self).upcoming().len(), 1nat,
    {
        self.eat();
        match self.parse_expr(arith) {
            Err(error) => Err(error),
            Ok(Some(node)) => {
                match self.expect(TokenKind::RightParen) {
                    Err(error) => Err(error),
                    Ok(_) => Ok(Some(node)),
                }
            },
            Ok(None) => Err(Parser::error(ParseErrorKind::MissingParenthesized)),
        }
    }

    fn parse_array_expr<A: DecimalArith>(&mut self, arith: &A) -> (res: Result<
        Option<Node<'a>>,
        Error,
    >)
        requires
            old(self).wf(),
            starts_with(old(self).upcoming(), TokenKind::ArrayStart),
        ensures
            final(self).wf(),
            parsed(arith, res, old(self).upcoming(), final(self).upcoming(), primary(old(self).upcoming())),
        decreases old(self).upcoming().len(), 1nat,
    {
        self.eat();
        let ghost start = self.upcoming();
        let mut nodes: Vec<Node<'a>> = Vec::new();
        let ghost mut front: Seq<NodeView> = Seq::empty();
        loop
            invariant_except_break
                self.wf(),
                self.upcoming().len() <= start.len(),
                start.len() < old(self).upcoming().len(),
                elements(start, Seq::empty()) == elements(self.upcoming(), front),
            invariant
                all_read_as(arith, nodes@, front),
                start == old(self).upcoming().skip(1),
                starts_with(old(self).upcoming(), TokenKind::ArrayStart),
            ensures
                self.wf(),
                self.upcoming().len() <= start.len(),
                elements(start, Seq::empty()) == Ok::<Parsed<Seq<NodeView>>, ParseErrorKind>(
                    Parsed { value: front, rest: self.upcoming() },
                ),
            decreases self.upcoming().len(),
        {
            let ghost before = self.upcoming();
            match self.parse_expr(arith) {
                Err(error) => {
                    return Err(error);
                },
                Ok(None) => {
                    break;
                },
                Ok(Some(node)) => {
                    proof {
                        front = front.push(expr(before)->Ok_0.value->Some_0);
                    }
                    nodes.push(node);
                },
            }
            match self.peek_kind() {
                Some(TokenKind::Separator) => {
                    self.eat();
                },
                _ => {
                    break;
                },
            }
        }
        match self.expect(TokenKind::ArrayEnd) {
            Err(error) => Err(error),
            Ok(_) => Ok(Some(Node::Array(nodes))),
        }
    }

    fn parse_unary_op<A: DecimalArith>(&mut self, arith: &A) -> (res: Result<
        Option<Node<'a>>,
        Error,
    >)
        requires
            old(self).wf(),
            starts_with(old(self).upcoming(), TokenKind::Add) || starts_with(
                old(self).upcoming(),
                TokenKind::Sub,
            ),
        ensures
            final(self).wf(),
            parsed(arith, res, old(self).upcoming(), final(self).upcoming(), primary(old(self).upcoming())),
        decreases old(self).upcoming().len(), 1nat,
    {
        let token = self.eat().unwrap();
        let op = match token.kind() {
            TokenKind::Add => Operator::Add,
            _ => Operator::Sub,
        };
        match self.parse_primary_expr(arith) {
            Err(error) => Err(error),
            Ok(Some(node)) => Ok(Some(Node::UnaryOp { op, rhs: Box::new(node) })),
            Ok(None) => Err(Parser::error(ParseErrorKind::MissingOperand)),
        }
    }

    fn parse_primary_expr<A: DecimalArith>(&mut self, arith: &A) -> (res: Result<
        Option<Node<'a>>,
        Error,
    >)
        requires
            old(self).wf(),
        ensures
            final(self).wf(),
            parsed(arith, res, old(self).upcoming(), final(self).upcoming(), primary(old(self).upcoming())),
        decreases old(self).upcoming().len(), 2nat,
    {
        match self.peek_kind() {
            Some(TokenKind::Add) | Some(TokenKind::Sub) => self.parse_unary_op(arith),
            Some(TokenKind::Number) => self.parse_number(arith),
            Some(TokenKind::Decimal) => self.parse_decimal(arith),
            Some(TokenKind::Identifier) => self.parse_identifier(arith),
            Some(TokenKind::LeftParen) => self.parse_paren_expr(arith),
            Some(TokenKind::ArrayStart) => self.parse_array_expr(arith),
            _ => Ok(None),
        }
    }

    fn parse_expr_right<A: DecimalArith>(
        &mut self,
        precedence: usize,
        left: Node<'a>,
        first: Ghost<NodeView>,
        arith: &A,
    ) -> (res: Result<Node<'a>, Error>)
        requires
            old(self).wf(),
            1 <= precedence <= 21,
            reads_as(arith, left, first@),
        ensures
            final(self).wf(),
            match chain(precedence as nat, first@, old(self).upcoming()) {
                Err(kind) => res == Err::<Node<'a>, Error>(Error::ParserError(kind)),
                Ok(whole) => res matches Ok(node) && reads_as(arith, node, whole.value) && final(
                    self).upcoming() == whole.rest && whole.rest.len() <= old(
                    self).upcoming().len(),
            },
        decreases old(self).upcoming().len(), 3nat,
    {
        let mut whole = left;
        let ghost mut view = first@;
        loop
            invariant
                self.wf(),
                1 <= precedence <= 21,
                self.upcoming().len() <= old(self).upcoming().len(),
                reads_as(arith, whole, view),
                chain(precedence as nat, first@, old(self).upcoming()) == chain(
                    precedence as nat,
                    view,
                    self.upcoming(),
                ),
            decreases self.upcoming().len(),
        {
            let ghost before = self.upcoming();
            let token_prec = self.peek_power();
            if token_prec < precedence {
                return Ok(whole);
            }
            let op = match self.eat().unwrap().kind() {
                TokenKind::Add => Operator::Add,
                TokenKind::Sub => Operator::Sub,
                TokenKind::Mul => Operator::Mul,
                _ => Operator::Div,
            };
            let ghost operand = primary(before.skip(1));
            let mut right = match self.parse_primary_expr(arith) {
                Err(error) => {
                    return Err(error);
                },
                Ok(None) => {
                    return Err(Parser::error(ParseErrorKind::MissingRightOperand));
                },
                Ok(Some(node)) => node,
            };
            let ghost mut right_view = operand->Ok_0.value->Some_0;
            if token_prec < self.peek_power() {
                let ghost tighter = chain((token_prec + 1) as nat, right_view, self.upcoming());
                right = match self.parse_expr_right(token_prec + 1, right, Ghost(right_view), arith) {
                    Err(error) => {
                        return Err(error);
                    },
                    Ok(node) => node,
                };
                proof {
                    right_view = tighter->Ok_0.value;
                }
            }
            proof {
                view = NodeView::BinaryOp { op, lhs: Box::new(view), rhs: Box::new(right_view) };
            }
            whole = Node::BinaryOp { op, lhs: Box::new(whole), rhs: Box::new(right) };
        }
    }

    fn parse_expr<A: DecimalArith>(&mut self, arith: &A) -> (res: Result<Option<Node<'a>>, Error>)
        requires
            old(self).wf(),
        ensures
            final(self).wf(),
            parsed(arith, res, old(self).upcoming(), final(self).upcoming(), expr(old(self).upcoming())),
        decreases old(self).upcoming().len(), 4nat,
    {
        let ghost first = primary(self.upcoming());
        let left = match self.parse_primary_expr(arith) {
            Err(error) => {
                return Err(error);
            },
            Ok(None) => {
                return Ok(None);
            },
            Ok(Some(node)) => node,
        };
        match self.parse_expr_right(1, left, Ghost(first->Ok_0.value->Some_0), arith) {
            Err(error) => Err(error),
            Ok(node) => Ok(Some(node)),
        }
    }

    fn parse<A: DecimalArith>(&mut self, arith: &A) -> (res: Result<Vec<Node<'a>>, Error>)
        requires
            old(self).wf(),
        ensures
            final(self).wf(),
            parsed_all(
                arith,
                res,
                final(self).upcoming(),
                statements(old(self).upcoming(), Seq::empty()),
            ),
    {
        let ghost start = self.upcoming();
        let mut list: Vec<Node<'a>> = Vec::new();
        let ghost mut front: Seq<NodeView> = Seq::empty();
        loop
            invariant_except_break
                self.wf(),
                statements(start, Seq::empty()) == statements(self.upcoming(), front),
            invariant
                all_read_as(arith, list@, front),
                start == old(self).upcoming(),
            ensures
                self.wf(),
                statements(start, Seq::empty()) == Ok::<Parsed<Seq<NodeView>>, ParseErrorKind>(
                    Parsed { value: front, rest: self.upcoming() },
                ),
            decreases self.upcoming().len(),
        {
            let ghost before = self.upcoming();
            match self.parse_expr(arith) {
                Err(error) => {
                    return Err(error);
                },
                Ok(Some(node)) => {
                    proof {
                        front = front.push(expr(before)->Ok_0.value->Some_0);
                    }
                    list.push(node);
                },
                Ok(None) => {},
            }
            match self.peek_kind() {
                Some(TokenKind::Semicolon) => {
                    self.eat();
                },
                _ => {
                    break;
                },
            }
        }
        Ok(list)
    }

    /// Parses the statements that the tokens hold.
    pub fn run<A: DecimalArith>(&mut self, arith: &A) -> (res: Result<Vec<Node<'a>>, Error>)
        requires
            old(self).wf(),
        ensures
            final(self).wf(),
            parsed_all(
                arith,
                res,
                final(self).upcoming(),
                statements(old(self).upcoming(), Seq::empty()),
            ),
    {
        self.parse(arith)
    }
}

/// Whether `res` and the tokens left are what `expected` describes: a node
/// that is the tree described, or none, and those tokens left of the
/// tokens `before`, fewer if a node was parsed; or a parse error of that
/// kind.
pub open spec fn parsed<A: DecimalArith>(
    arith: &A,
    res: Result<Option<Node>, Error>,
    before: Seq<TokenView>,
    left: Seq<TokenView>,
    expected: Parse,
) -> bool {
    match expected {
        Err(kind) => res == Err::<Option<Node>, Error>(Error::ParserError(kind)),
        Ok(outcome) => {
            &&& res matches Ok(node)
            &&& may_read_as(arith, node, outcome.value)
            &&& left == outcome.rest
            &&& left.len() <= before.len()
            &&& node is Some ==> left.len() < before.len()
        },
    }
}

/// Whether `res` and the tokens left are what `expected` describes: the
/// trees described and those tokens left, or a parse error of that kind.
pub open spec fn parsed_all<A: DecimalArith>(
    arith: &A,
    res: Result<Vec<Node>, Error>,
    left: Seq<TokenView>,
    expected: ParseList,
) -> bool {
    match expected {
        Err(kind) => res == Err::<Vec<Node>, Error>(Error::ParserError(kind)),
        Ok(outcome) => res matches Ok(list) && all_read_as(arith, list@, outcome.value) && left
            == outcome.rest,
    }
}

} // verus!
