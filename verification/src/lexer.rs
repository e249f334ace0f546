//! Tokens and the lexer that cuts a source text into them.
//!
//! The lexer reads the text one single-byte character at a time. Its
//! behaviour is stated over the UTF-8 bytes of the text: [`tokens_from`] is
//! the sequence of tokens that remains to be read from a given offset.

use vstd::prelude::*;
use vstd::string::*;
use vstd::utf8::*;

verus! {

/// What a token is.
#[derive(PartialEq, Eq, Structural, Clone, Copy, Debug)]
pub enum TokenKind {
    Add,
    Sub,
    Mul,
    Div,
    Exp,
    Assign,
    LeftParen,
    RightParen,
    ArrayStart,
    ArrayEnd,
    Separator,
    Semicolon,
    Identifier,
    Number,
    Decimal,
    Illegal,
    Unknown,
}

/// The precedence with which a token of this kind binds as a binary
/// operator; 0 for a token that is no binary operator.
pub open spec fn binding_power(kind: TokenKind) -> nat {
    match kind {
        TokenKind::Add | TokenKind::Sub => 10,
        TokenKind::Mul | TokenKind::Div => 20,
        _ => 0,
    }
}

impl TokenKind {
    /// The name of the kind, as it is shown in messages.
    pub fn name(&self) -> (name: &'static str)
        ensures
            name@ == kind_name(*self),
    {
        match self {
            TokenKind::Add => "Add",
            TokenKind::Sub => "Sub",
            TokenKind::Mul => "Mul",
            TokenKind::Div => "Div",
            TokenKind::Exp => "Exp",
            TokenKind::Assign => "Assign",
            TokenKind::LeftParen => "LeftParen",
            TokenKind::RightParen => "RightParen",
            TokenKind::ArrayStart => "ArrayStart",
            TokenKind::ArrayEnd => "ArrayEnd",
            TokenKind::Separator => "Separator",
            TokenKind::Semicolon => "Semicolon",
            TokenKind::Identifier => "Identifier",
            TokenKind::Number => "Number",
            TokenKind::Decimal => "Decimal",
            TokenKind::Illegal => "Illegal",
            TokenKind::Unknown => "Unknown",
        }
    }
}

/// The name of a token kind, as a sequence of characters.
pub open spec fn kind_name(kind: TokenKind) -> Seq<char> {
    match kind {
        TokenKind::Add => "Add"@,
        TokenKind::Sub => "Sub"@,
        TokenKind::Mul => "Mul"@,
        TokenKind::Div => "Div"@,
        TokenKind::Exp => "Exp"@,
        TokenKind::Assign => "Assign"@,
        TokenKind::LeftParen => "LeftParen"@,
        TokenKind::RightParen => "RightParen"@,
        TokenKind::ArrayStart => "ArrayStart"@,
        TokenKind::ArrayEnd => "ArrayEnd"@,
        TokenKind::Separator => "Separator"@,
        TokenKind::Semicolon => "Semicolon"@,
        TokenKind::Identifier => "Identifier"@,
        TokenKind::Number => "Number"@,
        TokenKind::Decimal => "Decimal"@,
        TokenKind::Illegal => "Illegal"@,
        TokenKind::Unknown => "Unknown"@,
    }
}

/// A token as the contracts see it: its kind and the bytes of its text.
pub struct TokenView {
    pub kind: TokenKind,
    pub text: Seq<u8>,
}

/// A token: a kind and the slice of the source text that it was read from.
#[derive(Clone, Copy, Debug)]
pub struct Token<'a> {
    kind: TokenKind,
    value: &'a str,
}

impl<'a> View for Token<'a> {
    type V = TokenView;

    closed spec fn view(&self) -> TokenView {
        TokenView { kind: self.kind, text: self.value.spec_bytes() }
    }
}

impl<'a> Token<'a> {
    pub fn kind(&self) -> (kind: &TokenKind)
        ensures
            *kind == self@.kind,
    {
        &self.kind
    }

    pub fn value(&self) -> (value: &'a str)
        ensures
            value.spec_bytes() == self@.text,
    {
        self.value
    }

    pub fn precedence(&self) -> (power: usize)
        ensures
            power == binding_power(self@.kind),
    {
        match self.kind {
            TokenKind::Add | TokenKind::Sub => 10,
            TokenKind::Mul | TokenKind::Div => 20,
            _ => 0,
        }
    }

    /// The token as it is shown in messages: the name of its kind and, where
    /// it has one, its text.
    pub fn describe(&self) -> (shown: String)
        ensures
            shown@ == token_text(self@.kind, self.chars()),
    {
        let shown = String::from_str("Token(").concat(self.kind.name());
        if self.value.is_empty() {
            shown.concat(")")
        } else {
            shown.concat(", ").concat(self.value).concat(")")
        }
    }

    /// The characters of the text of the token.
    pub closed spec fn chars(&self) -> Seq<char> {
        self.value@
    }
}

/// A token as it is shown in messages.
pub open spec fn token_text(kind: TokenKind, text: Seq<char>) -> Seq<char> {
    if text.len() == 0 {
        "Token("@ + kind_name(kind) + ")"@
    } else {
        "Token("@ + kind_name(kind) + ", "@ + text + ")"@
    }
}

/// The views of a sequence of tokens.
pub open spec fn token_views(tokens: Seq<Token>) -> Seq<TokenView> {
    Seq::new(tokens.len(), |i: int| tokens[i]@)
}

/// The single-byte character that starts at `pos`, or 0 where there is none:
/// at the end of the text, and where a character of several bytes starts.
pub open spec fn unit_at(bytes: Seq<u8>, pos: int) -> u8 {
    if 0 <= pos < bytes.len() && is_char_boundary(bytes, pos) && is_char_boundary(bytes, pos + 1) {
        bytes[pos]
    } else {
        0
    }
}

pub open spec fn is_blank(c: u8) -> bool {
    c == 0x20 || c == 0x09 || c == 0x0d || c == 0x0a
}

pub open spec fn is_digit(c: u8) -> bool {
    0x30 <= c <= 0x39
}

pub open spec fn is_letter(c: u8) -> bool {
    (0x41 <= c <= 0x5a) || (0x61 <= c <= 0x7a)
}

/// The first offset from `pos` on at which no blank character stands.
pub open spec fn blanks_end(bytes: Seq<u8>, pos: int) -> int
    decreases bytes.len() - pos,
{
    if 0 <= pos < bytes.len() && is_blank(unit_at(bytes, pos)) {
        blanks_end(bytes, pos + 1)
    } else {
        pos
    }
}

/// The first offset from `pos` on at which no digit stands.
pub open spec fn digits_end(bytes: Seq<u8>, pos: int) -> int
    decreases bytes.len() - pos,
{
    if 0 <= pos < bytes.len() && is_digit(unit_at(bytes, pos)) {
        digits_end(bytes, pos + 1)
    } else {
        pos
    }
}

/// The first offset from `pos` on at which neither a letter nor a digit stands.
pub open spec fn word_end(bytes: Seq<u8>, pos: int) -> int
    decreases bytes.len() - pos,
{
    if 0 <= pos < bytes.len() && (is_letter(unit_at(bytes, pos)) || is_digit(unit_at(bytes, pos))) {
        word_end(bytes, pos + 1)
    } else {
        pos
    }
}

/// The kind and the end of the numeric token whose first digit is at `pos`.
///
/// Digits alone make a `Number`; digits, one dot and digits make a
/// `Decimal`. A token that ends in its dot, or that is followed by a second
/// dot, is `Illegal`.
pub open spec fn number_token(bytes: Seq<u8>, pos: int) -> (TokenKind, int) {
    let dot = digits_end(bytes, pos + 1);
    if unit_at(bytes, dot) != 0x2e {
        (TokenKind::Number, dot)
    } else {
        let end = digits_end(bytes, dot + 1);
        if end == dot + 1 || unit_at(bytes, end) == 0x2e {
            (TokenKind::Illegal, end)
        } else {
            (TokenKind::Decimal, end)
        }
    }
}

/// The kind of the token that a character other than a digit or a letter
/// makes by itself.
pub open spec fn atom_kind(c: u8) -> TokenKind {
    if c == 0x2b {
        TokenKind::Add
    } else if c == 0x2d {
        TokenKind::Sub
    } else if c == 0x2a {
        TokenKind::Mul
    } else if c == 0x2f {
        TokenKind::Div
    } else if c == 0x5e {
        TokenKind::Exp
    } else if c == 0x3d {
        TokenKind::Assign
    } else if c == 0x28 {
        TokenKind::LeftParen
    } else if c == 0x29 {
        TokenKind::RightParen
    } else if c == 0x5b {
        TokenKind::ArrayStart
    } else if c == 0x5d {
        TokenKind::ArrayEnd
    } else if c == 0x2c {
        TokenKind::Separator
    } else if c == 0x3b {
        TokenKind::Semicolon
    } else {
        TokenKind::Unknown
    }
}

/// The kind and the end of the token that starts at `start`, where a
/// character stands.
pub open spec fn token_at(bytes: Seq<u8>, start: int) -> (TokenKind, int) {
    let c = unit_at(bytes, start);
    if is_digit(c) {
        number_token(bytes, start)
    } else if is_letter(c) {
        (TokenKind::Identifier, word_end(bytes, start + 1))
    } else {
        (atom_kind(c), start + 1)
    }
}

/// The tokens that remain to be read from offset `pos`.
///
/// Blank characters between tokens are skipped. The sequence ends at the end
/// of the text, at a NUL character, and at a character of more than one byte.
pub open spec fn tokens_from(bytes: Seq<u8>, pos: int) -> Seq<TokenView>
    decreases bytes.len() - pos,
{
    let start = blanks_end(bytes, pos);
    if unit_at(bytes, start) == 0 {
        seq![]
    } else {
        let (kind, end) = token_at(bytes, start);
        if pos <= start < end <= bytes.len() {
            seq![TokenView { kind, text: bytes.subrange(start, end) }] + tokens_from(bytes, end)
        } else {
            seq![]
        }
    }
}

/// Blank characters end inside the text, where a character starts that is
/// not blank.
proof fn lemma_blanks_end(bytes: Seq<u8>, pos: int)
    requires
        0 <= pos <= bytes.len(),
        is_char_boundary(bytes, pos),
    ensures
        pos <= blanks_end(bytes, pos) <= bytes.len(),
        is_char_boundary(bytes, blanks_end(bytes, pos)),
        !is_blank(unit_at(bytes, blanks_end(bytes, pos))),
    decreases bytes.len() - pos,
{
    if pos < bytes.len() && is_blank(unit_at(bytes, pos)) {
        lemma_blanks_end(bytes, pos + 1);
    }
}

/// Digits end inside the text, where a character starts or the text ends.
proof fn lemma_digits_end(bytes: Seq<u8>, pos: int)
    requires
        0 <= pos <= bytes.len(),
        is_char_boundary(bytes, pos),
    ensures
        pos <= digits_end(bytes, pos) <= bytes.len(),
        is_char_boundary(bytes, digits_end(bytes, pos)),
    decreases bytes.len() - pos,
{
    if pos < bytes.len() && is_digit(unit_at(bytes, pos)) {
        lemma_digits_end(bytes, pos + 1);
    }
}

/// Letters and digits end inside the text, where a character starts or the
/// text ends.
proof fn lemma_word_end(bytes: Seq<u8>, pos: int)
    requires
        0 <= pos <= bytes.len(),
        is_char_boundary(bytes, pos),
    ensures
        pos <= word_end(bytes, pos) <= bytes.len(),
        is_char_boundary(bytes, word_end(bytes, pos)),
    decreases bytes.len() - pos,
{
    if pos < bytes.len() && (is_letter(unit_at(bytes, pos)) || is_digit(unit_at(bytes, pos))) {
        lemma_word_end(bytes, pos + 1);
    }
}

/// A token is never empty, and it ends inside the text, where a character
/// ends.
proof fn lemma_token_at(bytes: Seq<u8>, start: int)
    requires
        unit_at(bytes, start) != 0,
    ensures
        start < token_at(bytes, start).1 <= bytes.len(),
        is_char_boundary(bytes, token_at(bytes, start).1),
{
    let c = unit_at(bytes, start);
    if is_digit(c) {
        lemma_digits_end(bytes, start + 1);
        let dot = digits_end(bytes, start + 1);
        if unit_at(bytes, dot) == 0x2e {
            lemma_digits_end(bytes, dot + 1);
        }
    } else if is_letter(c) {
        lemma_word_end(bytes, start + 1);
    }
}

/// Within a prefix that ends where a character ends, characters start where
/// they start in the whole text.
proof fn lemma_boundary_in_prefix(bytes: Seq<u8>, start: int, end: int)
    requires
        valid_utf8(bytes),
        0 <= start <= end <= bytes.len(),
        is_char_boundary(bytes, start),
        is_char_boundary(bytes, end),
    ensures
        valid_utf8(bytes.subrange(0, end)),
        is_char_boundary(bytes.subrange(0, end), start),
{
    let prefix = bytes.subrange(0, end);
    valid_utf8_split(bytes, end);
    if start == end {
        is_char_boundary_start_end_of_seq(prefix);
    } else {
        is_char_boundary_iff_not_is_continuation_byte(bytes, start);
        is_char_boundary_iff_not_is_continuation_byte(prefix, start);
    }
}

/// A lexer over a source text: the text and the offset that it has read to.
pub struct Lexer<'a> {
    source: &'a str,
    position: usize,
}

impl<'a> Lexer<'a> {
    /// The UTF-8 bytes of the source text.
    pub closed spec fn bytes(&self) -> Seq<u8> {
        self.source.spec_bytes()
    }

    /// The offset that the lexer has read to.
    pub closed spec fn offset(&self) -> int {
        self.position as int
    }

    /// The offset lies inside the text, where a character starts.
    pub closed spec fn wf(&self) -> bool {
        &&& self.position <= self.source.spec_bytes().len()
        &&& is_char_boundary(self.source.spec_bytes(), self.position as int)
    }

    /// The tokens that the lexer has yet to produce.
    pub open spec fn upcoming(&self) -> Seq<TokenView> {
        tokens_from(self.bytes(), self.offset())
    }

    pub fn new(source: &'a str) -> (lexer: Lexer<'a>)
        ensures
            lexer.wf(),
            lexer.bytes() == source.spec_bytes(),
            lexer.offset() == 0,
    {
        proof {
            encode_utf8_valid_utf8(source@);
            is_char_boundary_start_end_of_seq(source.spec_bytes());
        }
        Lexer { source, position: 0 }
    }

    /// The character at the offset, or 0 where no single-byte character
    /// stands.
    fn peek(&self) -> (c: u8)
        requires
            self.wf(),
        ensures
            c == unit_at(self.bytes(), self.offset()),
    {
        let pos = self.position;
        let bytes = self.source.as_bytes();
        if pos < bytes.len() && self.source.is_char_boundary(pos + 1) {
            bytes[pos]
        } else {
            0
        }
    }

    /// Steps over the character at the offset and returns it.
    fn get(&mut self) -> (c: u8)
        requires
            old(self).wf(),
            unit_at(old(self).bytes(), old(self).offset()) != 0,
        ensures
            final(self).wf(),
            final(self).bytes() == old(self).bytes(),
            final(self).offset() == old(self).offset() + 1,
            c == unit_at(old(self).bytes(), old(self).offset()),
    {
        let c = self.peek();
        let len = self.source.as_bytes().len();
        assert(self.position < len);
        self.position += 1;
        c
    }

    fn is_space(&self) -> (blank: bool)
        requires
            self.wf(),
        ensures
            blank == is_blank(unit_at(self.bytes(), self.offset())),
    {
        let c = self.peek();
        c == 0x20 || c == 0x09 || c == 0x0d || c == 0x0a
    }

    /// The slice of the source text between two offsets at which characters
    /// start or end.
    fn slice(&self, start: usize, end: usize) -> (text: &'a str)
        requires
            start <= end <= self.bytes().len(),
            is_char_boundary(self.bytes(), start as int),
            is_char_boundary(self.bytes(), end as int),
        ensures
            text.spec_bytes() == self.bytes().subrange(start as int, end as int),
    {
        proof {
            encode_utf8_valid_utf8(self.source@);
            lemma_boundary_in_prefix(self.bytes(), start as int, end as int);
        }
        let (head, _) = self.source.split_at(end);
        let (_, text) = head.split_at(start);
        assert(text.spec_bytes() =~= self.bytes().subrange(start as int, end as int));
        text
    }

    /// The token that the one character at the offset makes.
    fn atom(&mut self, kind: TokenKind) -> (token: Token<'a>)
        requires
            old(self).wf(),
            unit_at(old(self).bytes(), old(self).offset()) != 0,
        ensures
            final(self).wf(),
            final(self).bytes() == old(self).bytes(),
            final(self).offset() == old(self).offset() + 1,
            token@ == (TokenView {
                kind,
                text: old(self).bytes().subrange(old(self).offset(), old(self).offset() + 1),
            }),
    {
        let start = self.position;
        self.get();
        Token { kind, value: self.slice(start, start + 1) }
    }

    /// Steps over the digits at the offset.
    fn skip_digits(&mut self)
        requires
            old(self).wf(),
        ensures
            final(self).wf(),
            final(self).bytes() == old(self).bytes(),
            final(self).offset() == digits_end(old(self).bytes(), old(self).offset()),
    {
        loop
            invariant
                self.wf(),
                self.bytes() == old(self).bytes(),
                digits_end(self.bytes(), self.offset()) == digits_end(
                    old(self).bytes(),
                    old(self).offset(),
                ),
            ensures
                self.offset() == digits_end(old(self).bytes(), old(self).offset()),
            decreases self.bytes().len() - self.offset(),
        {
            let c = self.peek();
            if !(0x30 <= c && c <= 0x39) {
                break;
            }
            self.get();
        }
    }

    /// Reads the numeric token whose first digit is at the offset.
    fn read_number(&mut self) -> (token: Token<'a>)
        requires
            old(self).wf(),
            is_digit(unit_at(old(self).bytes(), old(self).offset())),
        ensures
            final(self).wf(),
            final(self).bytes() == old(self).bytes(),
            final(self).offset() == number_token(old(self).bytes(), old(self).offset()).1,
            token@ == (TokenView {
                kind: number_token(old(self).bytes(), old(self).offset()).0,
                text: old(self).bytes().subrange(old(self).offset(), final(self).offset()),
            }),
    {
        let start = self.position;
        let mut kind = TokenKind::Number;
        self.get();
        proof {
            lemma_digits_end(self.bytes(), self.offset());
        }
        self.skip_digits();
        if self.peek() == 0x2e {
            self.get();
            let fraction = self.position;
            proof {
                lemma_digits_end(self.bytes(), self.offset());
            }
            self.skip_digits();
            if self.position == fraction || self.peek() == 0x2e {
                kind = TokenKind::Illegal;
            } else {
                kind = TokenKind::Decimal;
            }
        }
        let end = self.position;
        Token { kind, value: self.slice(start, end) }
    }

    /// Reads the identifier whose first letter is at the offset.
    fn read_identifier(&mut self) -> (token: Token<'a>)
        requires
            old(self).wf(),
            is_letter(unit_at(old(self).bytes(), old(self).offset())),
        ensures
            final(self).wf(),
            final(self).bytes() == old(self).bytes(),
            final(self).offset() == word_end(old(self).bytes(), old(self).offset() + 1),
            token@ == (TokenView {
                kind: TokenKind::Identifier,
                text: old(self).bytes().subrange(old(self).offset(), final(self).offset()),
            }),
    {
        let start = self.position;
        self.get();
        loop
            invariant
                self.wf(),
                self.bytes() == old(self).bytes(),
                start == old(self).offset(),
                start < self.offset(),
                is_char_boundary(self.bytes(), start as int),
                word_end(self.bytes(), self.offset()) == word_end(
                    old(self).bytes(),
                    old(self).offset() + 1,
                ),
            ensures
                self.offset() == word_end(old(self).bytes(), old(self).offset() + 1),
            decreases self.bytes().len() - self.offset(),
        {
            let c = self.peek();
            let letter = (0x41 <= c && c <= 0x5a) || (0x61 <= c && c <= 0x7a);
            let digit = 0x30 <= c && c <= 0x39;
            if !(letter || digit) {
                break;
            }
            self.get();
        }
        let end = self.position;
        Token { kind: TokenKind::Identifier, value: self.slice(start, end) }
    }

    /// Reads the next token, or nothing where none is left.
    pub fn read(&mut self) -> (token: Option<Token<'a>>)
        requires
            old(self).wf(),
        ensures
            final(self).wf(),
            final(self).bytes() == old(self).bytes(),
            old(self).offset() <= final(self).offset(),
            match token {
                Some(t) => old(self).upcoming() == seq![t@] + final(self).upcoming()
                    && old(self).offset() < final(self).offset(),
                None => old(self).upcoming() == Seq::<TokenView>::empty()
                    && final(self).upcoming() == Seq::<TokenView>::empty(),
            },
    {
        while self.is_space()
            invariant
                self.wf(),
                self.bytes() == old(self).bytes(),
                old(self).offset() <= self.offset(),
                blanks_end(self.bytes(), self.offset()) == blanks_end(
                    old(self).bytes(),
                    old(self).offset(),
                ),
            decreases self.bytes().len() - self.offset(),
        {
            self.get();
        }
        let ghost start = self.offset();
        let c = self.peek();
        proof {
            lemma_blanks_end(old(self).bytes(), old(self).offset());
            if c != 0 {
                lemma_token_at(self.bytes(), start);
            }
        }
        if c == 0 {
            None
        } else if c == 0x2b {
            Some(self.atom(TokenKind::Add))
        } else if c == 0x2d {
            Some(self.atom(TokenKind::Sub))
        } else if c == 0x2a {
            Some(self.atom(TokenKind::Mul))
        } else if c == 0x2f {
            Some(self.atom(TokenKind::Div))
        } else if c == 0x5e {
            Some(self.atom(TokenKind::Exp))
        } else if c == 0x3d {
            Some(self.atom(TokenKind::Assign))
        } else if c == 0x28 {
            Some(self.atom(TokenKind::LeftParen))
        } else if c == 0x29 {
            Some(self.atom(TokenKind::RightParen))
        } else if c == 0x5b {
            Some(self.atom(TokenKind::ArrayStart))
        } else if c == 0x5d {
            Some(self.atom(TokenKind::ArrayEnd))
        } else if c == 0x2c {
            Some(self.atom(TokenKind::Separator))
        } else if c == 0x3b {
            Some(self.atom(TokenKind::Semicolon))
        } else if 0x30 <= c && c <= 0x39 {
            Some(self.read_number())
        } else if (0x41 <= c && c <= 0x5a) || (0x61 <= c && c <= 0x7a) {
            Some(self.read_identifier())
        } else {
            Some(self.atom(TokenKind::Unknown))
        }
    }

    /// Reads all the tokens that are left.
    pub fn tokens(&mut self) -> (all: Vec<Token<'a>>)
        requires
            old(self).wf(),
        ensures
            final(self).wf(),
            final(self).bytes() == old(self).bytes(),
            final(self).upcoming() == Seq::<TokenView>::empty(),
            token_views(all@) == old(self).upcoming(),
    {
        let mut all: Vec<Token<'a>> = Vec::new();
        assert(token_views(all@) =~= Seq::<TokenView>::empty());
        loop
            invariant_except_break
                self.wf(),
                self.bytes() == old(self).bytes(),
                old(self).upcoming() == token_views(all@) + self.upcoming(),
            ensures
                self.wf(),
                self.bytes() == old(self).bytes(),
                self.upcoming() == Seq::<TokenView>::empty(),
                old(self).upcoming() == token_views(all@),
            decreases self.bytes().len() - self.offset(),
        {
            match self.read() {
                Some(token) => {
                    assert(token_views(all@.push(token)) =~= token_views(all@).push(token@));
                    all.push(token);
                },
                None => {
                    assert(token_views(all@) + Seq::<TokenView>::empty() =~= token_views(all@));
                    break;
                },
            }
        }
        all
    }
}

} // verus!
