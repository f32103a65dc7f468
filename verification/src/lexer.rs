//! The scanner: lexemes, their mathematical view, and the `Lexer` that
//! produces them from source text.

#![allow(non_camel_case_types)]

use vstd::prelude::*;
use vstd::string::*;
use vstd::utf8::*;

use crate::grammar;
use crate::symbol_table::Identifier;
use crate::text::{ascii_edge, lemma_ascii_edge_is_boundary, lemma_cut_is_valid, str_eq};

verus! {

/// A classified, indivisible unit of source text.
#[derive(Debug, PartialEq)]
pub enum Lexeme {
    /// End of input: the cursor is past the last byte, or on a zero byte.
    EOF,
    /// A byte that starts no lexeme, or a literal that cannot be represented.
    INVALID,
    LET,
    MUT,
    FN,
    RETURN,
    TRUE,
    FALSE,
    BRACE_OPEN,
    BRACE_CLOSE,
    PARENTHESES_OPEN,
    PARENTHESES_CLOSE,
    BRACKET_OPEN,
    BRACKET_CLOSE,
    SEMI_COLON,
    COLON,
    COMMA,
    I8,
    I16,
    I32,
    I64,
    U8,
    U16,
    U32,
    U64,
    CHAR,
    STRING,
    /// A run of decimal digits, with its value.
    INT_LITERAL(i64),
    CHAR_LITERAL,
    /// A double-quoted literal, with the raw text between its quotes.
    STRING_LITERAL(String),
    ASSIGN_OP,
    PLUS_OP,
    PLUS_OP_ASSIGN,
    MINUS_OP,
    MINUS_OP_ASSIGN,
    TIMES_OP,
    TIMES_OP_ASSIGN,
    DIVIDE_OP,
    DIVIDE_OP_ASSIGN,
    MODULO_OP,
    MODULO_OP_ASSIGN,
    RETURN_TYPE_OP,
    LOGICAL_AND_OP,
    LOGICAL_OR_OP,
    LOGICAL_NOT_OP,
    BINARY_AND_OP,
    BINARY_AND_OP_ASSIGN,
    BINARY_OR_OP,
    BINARY_OR_OP_ASSIGN,
    BINARY_XOR_OP,
    BINARY_XOR_OP_ASSIGN,
    BINARY_NOT_OP,
    BINARY_NOT_OP_ASSIGN,
    LEFT_SHIFT_OP,
    LEFT_SHIFT_OP_ASSIGN,
    RIGHT_SHIFT_OP,
    RIGHT_SHIFT_OP_ASSIGN,
    LEFT_ROT_OP,
    LEFT_ROT_OP_ASSIGN,
    RIGHT_ROT_OP,
    RIGHT_ROT_OP_ASSIGN,
    EQ_OP,
    NE_OP,
    LT_OP,
    LE_OP,
    GT_OP,
    GE_OP,
    /// A word that is no keyword.
    IDENTIFIER(Identifier),
}

/// What a lexeme denotes.
///
/// A lexeme that owns text is described by the characters of that text, an
/// integer literal by its value, and every other lexeme by itself.
pub enum Token {
    /// An integer literal with the given value.
    Integer(int),
    /// A string literal with the given raw payload.
    Text(Seq<char>),
    /// An identifier with the given name.
    Name(Seq<char>),
    /// A lexeme without payload.
    Plain(Lexeme),
}

impl View for Lexeme {
    type V = Token;

    open spec fn view(&self) -> Token {
        match *self {
            Lexeme::INT_LITERAL(value) => Token::Integer(value as int),
            Lexeme::STRING_LITERAL(text) => Token::Text(text@),
            Lexeme::IDENTIFIER(name) => Token::Name(name@),
            _ => Token::Plain(*self),
        }
    }
}

impl DeepView for Lexeme {
    type V = Token;

    open spec fn deep_view(&self) -> Token {
        self@
    }
}

/// Why a literal could not be turned into a lexeme.
#[derive(Clone, Copy, Debug, PartialEq, Eq)]
pub enum LexErrorKind {
    /// The digits denote a value above `i64::MAX`.
    IntegerOverflow,
    /// The input ends before the closing quote of a string literal.
    UnterminatedString,
}

/// A literal that could not be turned into a lexeme, with the bytes it spans.
#[derive(Clone, Copy, Debug, PartialEq, Eq)]
pub struct LexError {
    pub kind: LexErrorKind,
    /// Offset of the first byte of the literal.
    pub start: usize,
    /// Offset just past the last byte of the literal.
    pub end: usize,
}

/// What a scan step returned, with the lexeme replaced by what it denotes.
pub open spec fn outcome(result: Result<Lexeme, LexError>) -> Result<Token, LexError> {
    match result {
        Ok(lexeme) => Ok(lexeme@),
        Err(error) => Err(error),
    }
}

/// A scanner over one source text.
///
/// The lexer owns the text and a cursor into its bytes. The cursor only
/// moves forward, one byte at a time, and never leaves the text: once it is
/// past the last byte it stays there, and the current byte reads as zero.
pub struct Lexer {
    input: String,
    pos: usize,
}

/// Whether `b` is ASCII whitespace.
fn is_whitespace(b: u8) -> (r: bool)
    ensures
        r == grammar::is_whitespace(b),
{
    b == 0x20 || b == 0x09 || b == 0x0a || b == 0x0c || b == 0x0d
}

/// Whether `b` can start a word.
fn is_letter(b: u8) -> (r: bool)
    ensures
        r == grammar::is_letter(b),
{
    ('a' as u8 <= b && b <= 'z' as u8) || ('A' as u8 <= b && b <= 'Z' as u8) || b == '_' as u8
}

/// Whether `b` is a decimal digit.
fn is_digit(b: u8) -> (r: bool)
    ensures
        r == grammar::is_digit(b),
{
    '0' as u8 <= b && b <= '9' as u8
}

/// Whether `b` can continue a word.
fn is_word_byte(b: u8) -> (r: bool)
    ensures
        r == grammar::is_word_byte(b),
{
    is_letter(b) || is_digit(b)
}

/// The punctuation lexeme that the single byte `b` spells, if any.
fn punctuation(b: u8) -> (r: Option<Lexeme>)
    ensures
        r == grammar::punctuation(b),
{
    if b == '{' as u8 {
        Some(Lexeme::BRACE_OPEN)
    } else if b == '}' as u8 {
        Some(Lexeme::BRACE_CLOSE)
    } else if b == '(' as u8 {
        Some(Lexeme::PARENTHESES_OPEN)
    } else if b == ')' as u8 {
        Some(Lexeme::PARENTHESES_CLOSE)
    } else if b == '[' as u8 {
        Some(Lexeme::BRACKET_OPEN)
    } else if b == ']' as u8 {
        Some(Lexeme::BRACKET_CLOSE)
    } else if b == ';' as u8 {
        Some(Lexeme::SEMI_COLON)
    } else if b == ':' as u8 {
        Some(Lexeme::COLON)
    } else if b == ',' as u8 {
        Some(Lexeme::COMMA)
    } else {
        None
    }
}

/// The keyword or primitive type name that `word` spells, if any.
fn keyword(word: &str) -> (r: Option<Lexeme>)
    ensures
        r == grammar::keyword(word@),
{
    if str_eq(word, "let") {
        Some(Lexeme::LET)
    } else if str_eq(word, "mut") {
        Some(Lexeme::MUT)
    } else if str_eq(word, "fn") {
        Some(Lexeme::FN)
    } else if str_eq(word, "return") {
        Some(Lexeme::RETURN)
    } else if str_eq(word, "true") {
        Some(Lexeme::TRUE)
    } else if str_eq(word, "false") {
        Some(Lexeme::FALSE)
    } else if str_eq(word, "i8") {
        Some(Lexeme::I8)
    } else if str_eq(word, "u8") {
        Some(Lexeme::U8)
    } else if str_eq(word, "i16") {
        Some(Lexeme::I16)
    } else if str_eq(word, "u16") {
        Some(Lexeme::U16)
    } else if str_eq(word, "i32") {
        Some(Lexeme::I32)
    } else if str_eq(word, "u32") {
        Some(Lexeme::U32)
    } else if str_eq(word, "i64") {
        Some(Lexeme::I64)
    } else if str_eq(word, "u64") {
        Some(Lexeme::U64)
    } else if str_eq(word, "char") {
        Some(Lexeme::CHAR)
    } else if str_eq(word, "string") {
        Some(Lexeme::STRING)
    } else {
        None
    }
}

impl Lexer {
    #[verifier::type_invariant]
    spec fn in_bounds(self) -> bool {
        self.pos <= encode_utf8(self.input@).len()
    }

    /// The bytes of the source text.
    pub closed spec fn source(&self) -> Seq<u8> {
        encode_utf8(self.input@)
    }

    /// The offset of the current byte.
    pub closed spec fn position(&self) -> int {
        self.pos as int
    }

    /// A lexer at the start of `input`.
    ///
    /// Over an empty text the lexer starts at the end of input.
    pub fn new(input: String) -> (lexer: Lexer)
        ensures
            lexer.source() == encode_utf8(input@),
            lexer.position() == 0,
    {
        Lexer { input, pos: 0 }
    }

    /// The offset of the current byte, for a caller that reports where a
    /// lexeme stood.
    pub fn offset(&self) -> (at: usize)
        ensures
            at == self.position(),
            at <= self.source().len(),
    {
        proof {
            use_type_invariant(self);
        }
        self.pos
    }

    /// The current byte, or zero past the end.
    fn curr_char(&self) -> (b: u8)
        ensures
            b == grammar::byte_at(self.source(), self.position()),
    {
        let bytes = self.input.as_str().as_bytes();
        if self.pos < bytes.len() {
            bytes[self.pos]
        } else {
            0
        }
    }

    /// The byte after the current one, or zero past the end.
    fn peek_char(&self) -> (b: u8)
        ensures
            b == grammar::byte_at(self.source(), self.position() + 1),
    {
        let bytes = self.input.as_str().as_bytes();
        if self.pos < bytes.len() && self.pos + 1 < bytes.len() {
            bytes[self.pos + 1]
        } else {
            0
        }
    }

    /// Moves the cursor one byte forward, unless it is past the last byte.
    fn read_char(&mut self)
        ensures
            final(self).source() == old(self).source(),
            final(self).position() == grammar::advance(old(self).source(), old(self).position()),
    {
        if self.pos < self.input.as_str().as_bytes().len() {
            self.pos = self.pos + 1;
        }
    }

    /// Whether the cursor is past the last byte.
    fn at_end(&self) -> (r: bool)
        ensures
            r == (self.position() >= self.source().len()),
    {
        self.pos >= self.input.as_str().as_bytes().len()
    }

    /// Moves the cursor to the first byte that is no whitespace.
    fn skip_whitespace(&mut self)
        ensures
            final(self).source() == old(self).source(),
            final(self).position() == grammar::skip_whitespace(
                old(self).source(),
                old(self).position(),
            ),
    {
        while is_whitespace(self.curr_char())
            invariant
                self.source() == old(self).source(),
                grammar::skip_whitespace(self.source(), self.position())
                    == grammar::skip_whitespace(old(self).source(), old(self).position()),
            decreases self.source().len() - self.position(),
        {
            self.read_char();
        }
    }

    /// A copy of the text between two offsets that stand next to ASCII bytes.
    fn slice(&self, from: usize, to: usize) -> (text: String)
        requires
            from <= to,
            ascii_edge(self.source(), from as int),
            ascii_edge(self.source(), to as int),
        ensures
            text@ == decode_utf8(self.source().subrange(from as int, to as int)),
    {
        let whole = self.input.as_str();
        proof {
            encode_utf8_valid_utf8(self.input@);
            lemma_ascii_edge_is_boundary(self.source(), from as int);
            lemma_ascii_edge_is_boundary(self.source(), to as int);
            lemma_cut_is_valid(self.source(), from as int, to as int);
        }
        let (head, _) = whole.split_at(to);
        let (_, part) = head.split_at(from);
        let text = String::from_str(part);
        proof {
            assert(part.spec_bytes() =~= self.source().subrange(from as int, to as int));
            encode_utf8_decode_utf8(text@);
        }
        text
    }

    /// Reads the word that starts at the cursor and moves the cursor past it.
    fn read_word(&mut self) -> (word: String)
        requires
            grammar::is_letter(grammar::byte_at(old(self).source(), old(self).position())),
        ensures
            final(self).source() == old(self).source(),
            final(self).position() == grammar::word_end(old(self).source(), old(self).position()),
            word@ == decode_utf8(
                old(self).source().subrange(
                    old(self).position(),
                    grammar::word_end(old(self).source(), old(self).position()),
                ),
            ),
    {
        let start = self.pos;
        while is_word_byte(self.curr_char())
            invariant
                self.source() == old(self).source(),
                start == old(self).position(),
                start <= self.position() <= self.source().len(),
                start < self.source().len(),
                self.source()[start as int] < 0x80,
                start < self.position() ==> self.source()[self.position() - 1] < 0x80,
                grammar::word_end(self.source(), self.position()) == grammar::word_end(
                    self.source(),
                    start as int,
                ),
            decreases self.source().len() - self.position(),
        {
            self.read_char();
        }
        self.slice(start, self.pos)
    }

    /// Reads the integer literal that starts at the cursor and moves the
    /// cursor past its digits.
    fn read_int_literal(&mut self) -> (r: Result<i64, LexError>)
        requires
            grammar::is_digit(grammar::byte_at(old(self).source(), old(self).position())),
        ensures
            final(self).source() == old(self).source(),
            final(self).position() == grammar::digits_end(
                old(self).source(),
                old(self).position(),
            ),
            r matches Ok(value) ==> grammar::integer_at(old(self).source(), old(self).position())
                == Ok::<int, LexError>(value as int),
            r matches Err(error) ==> grammar::integer_at(old(self).source(), old(self).position())
                == Err::<int, LexError>(error),
    {
        let start = self.pos;
        let mut value: Option<i64> = Some(0);
        while is_digit(self.curr_char())
            invariant
                self.source() == old(self).source(),
                start == old(self).position(),
                start <= self.position() <= self.source().len(),
                grammar::digits_end(self.source(), self.position()) == grammar::digits_end(
                    self.source(),
                    start as int,
                ),
                value matches Some(v) ==> v == grammar::decimal_value(
                    self.source().subrange(start as int, self.position()),
                ),
                value is None ==> grammar::decimal_value(
                    self.source().subrange(start as int, self.position()),
                ) > i64::MAX,
            decreases self.source().len() - self.position(),
        {
            let digit = (self.curr_char() - '0' as u8) as i64;
            proof {
                let s = self.source();
                let next = s.subrange(start as int, self.position() + 1);
                assert(next.drop_last() =~= s.subrange(start as int, self.position()));
                assert(next.last() == s[self.position()]);
            }
            value = match value {
                Some(v) => match v.checked_mul(10) {
                    Some(tens) => tens.checked_add(digit),
                    None => None,
                },
                None => None,
            };
            self.read_char();
        }
        match value {
            Some(v) => Ok(v),
            None => Err(LexError { kind: LexErrorKind::IntegerOverflow, start, end: self.pos }),
        }
    }

    /// Reads the string literal whose opening quote stands at the cursor and
    /// moves the cursor past its closing quote, or to the end of the input
    /// when there is none.
    fn read_str_literal(&mut self) -> (r: Result<String, LexError>)
        requires
            grammar::byte_at(old(self).source(), old(self).position()) == '"' as u8,
        ensures
            final(self).source() == old(self).source(),
            final(self).position() == grammar::string_end(old(self).source(), old(self).position()),
            r matches Ok(text) ==> grammar::string_at(old(self).source(), old(self).position())
                == Ok::<Seq<char>, LexError>(text@),
            r matches Err(error) ==> grammar::string_at(old(self).source(), old(self).position())
                == Err::<Seq<char>, LexError>(error),
    {
        let start = self.pos;
        self.read_char();
        let first = self.pos;
        while !self.at_end() && self.curr_char() != '"' as u8
            invariant
                self.source() == old(self).source(),
                start == old(self).position(),
                first == start + 1,
                first <= self.position() <= self.source().len(),
                grammar::string_close(self.source(), self.position()) == grammar::string_close(
                    self.source(),
                    first as int,
                ),
            decreases self.source().len() - self.position(),
        {
            if self.curr_char() == '\\' as u8 {
                self.read_char();
            }
            self.read_char();
        }
        if self.at_end() {
            Err(LexError { kind: LexErrorKind::UnterminatedString, start, end: self.pos })
        } else {
            let text = self.slice(first, self.pos);
            self.read_char();
            Ok(text)
        }
    }

    /// Reads an operator that may end in an equals sign, with the cursor on
    /// the last byte of its plain form, and moves the cursor past it.
    fn assign_form(&mut self, compound: Lexeme, plain: Lexeme) -> (r: Lexeme)
        requires
            old(self).position() < old(self).source().len(),
        ensures
            final(self).source() == old(self).source(),
            (r, final(self).position() - old(self).position()) == grammar::assign_form(
                old(self).source(),
                old(self).position() + 1,
                1,
                compound,
                plain,
            ),
    {
        if self.peek_char() == '=' as u8 {
            self.read_char();
            self.read_char();
            compound
        } else {
            self.read_char();
            plain
        }
    }

    /// Reads the longest operator that starts at the cursor, if one does,
    /// and moves the cursor past it.
    fn read_operator(&mut self) -> (r: Option<Lexeme>)
        ensures
            final(self).source() == old(self).source(),
            grammar::operator_at(old(self).source(), old(self).position()) matches Some(
                (lexeme, len),
            ) ==> r == Some(lexeme) && final(self).position() == old(self).position() + len,
            grammar::operator_at(old(self).source(), old(self).position()) is None ==> r is None
                && final(self).position() == old(self).position(),
    {
        let c = self.curr_char();
        if c == '=' as u8 {
            Some(self.assign_form(Lexeme::EQ_OP, Lexeme::ASSIGN_OP))
        } else if c == '+' as u8 {
            Some(self.assign_form(Lexeme::PLUS_OP_ASSIGN, Lexeme::PLUS_OP))
        } else if c == '-' as u8 {
            if self.peek_char() == '>' as u8 {
                self.read_char();
                self.read_char();
                Some(Lexeme::RETURN_TYPE_OP)
            } else {
                Some(self.assign_form(Lexeme::MINUS_OP_ASSIGN, Lexeme::MINUS_OP))
            }
        } else if c == '*' as u8 {
            Some(self.assign_form(Lexeme::TIMES_OP_ASSIGN, Lexeme::TIMES_OP))
        } else if c == '/' as u8 {
            Some(self.assign_form(Lexeme::DIVIDE_OP_ASSIGN, Lexeme::DIVIDE_OP))
        } else if c == '%' as u8 {
            Some(self.assign_form(Lexeme::MODULO_OP_ASSIGN, Lexeme::MODULO_OP))
        } else if c == '!' as u8 {
            Some(self.assign_form(Lexeme::NE_OP, Lexeme::LOGICAL_NOT_OP))
        } else if c == '&' as u8 {
            if self.peek_char() == '&' as u8 {
                self.read_char();
                self.read_char();
                Some(Lexeme::LOGICAL_AND_OP)
            } else {
                Some(self.assign_form(Lexeme::BINARY_AND_OP_ASSIGN, Lexeme::BINARY_AND_OP))
            }
        } else if c == '|' as u8 {
            if self.peek_char() == '|' as u8 {
                self.read_char();
                self.read_char();
                Some(Lexeme::LOGICAL_OR_OP)
            } else {
                Some(self.assign_form(Lexeme::BINARY_OR_OP_ASSIGN, Lexeme::BINARY_OR_OP))
            }
        } else if c == '^' as u8 {
            Some(self.assign_form(Lexeme::BINARY_XOR_OP_ASSIGN, Lexeme::BINARY_XOR_OP))
        } else if c == '~' as u8 {
            Some(self.assign_form(Lexeme::BINARY_NOT_OP_ASSIGN, Lexeme::BINARY_NOT_OP))
        } else if c == '<' as u8 {
            if self.peek_char() == '<' as u8 {
                self.read_char();
                if self.peek_char() == '<' as u8 {
                    self.read_char();
                    Some(self.assign_form(Lexeme::LEFT_ROT_OP_ASSIGN, Lexeme::LEFT_ROT_OP))
                } else {
                    Some(self.assign_form(Lexeme::LEFT_SHIFT_OP_ASSIGN, Lexeme::LEFT_SHIFT_OP))
                }
            } else {
                Some(self.assign_form(Lexeme::LE_OP, Lexeme::LT_OP))
            }
        } else if c == '>' as u8 {
            if self.peek_char() == '>' as u8 {
                self.read_char();
                if self.peek_char() == '>' as u8 {
                    self.read_char();
                    Some(self.assign_form(Lexeme::RIGHT_ROT_OP_ASSIGN, Lexeme::RIGHT_ROT_OP))
                } else {
                    Some(self.assign_form(Lexeme::RIGHT_SHIFT_OP_ASSIGN, Lexeme::RIGHT_SHIFT_OP))
                }
            } else {
                Some(self.assign_form(Lexeme::GE_OP, Lexeme::GT_OP))
            }
        } else {
            None
        }
    }

    /// Skips whitespace, then reads the lexeme that starts at the cursor and
    /// moves the cursor past it.
    ///
    /// A literal that has no lexeme is reported with the bytes it spans, and
    /// the cursor is moved past it: an integer literal above `i64::MAX`, or a
    /// string literal without closing quote. At the end of the input the
    /// result is `EOF` and the cursor stays.
    pub fn try_next_lexeme(&mut self) -> (result: Result<Lexeme, LexError>)
        ensures
            final(self).source() == old(self).source(),
            final(self).position() == grammar::lexeme_end(
                old(self).source(),
                grammar::skip_whitespace(old(self).source(), old(self).position()),
            ),
            outcome(result) == grammar::classify(
                old(self).source(),
                grammar::skip_whitespace(old(self).source(), old(self).position()),
            ),
            old(self).position() <= final(self).position() <= final(self).source().len(),
    {
        proof {
            use_type_invariant(&*self);
            grammar::lemma_skip_whitespace_bounds(self.source(), self.position());
            grammar::lemma_lexeme_end_bounds(
                self.source(),
                grammar::skip_whitespace(self.source(), self.position()),
            );
        }
        self.skip_whitespace();
        let c = self.curr_char();
        if is_letter(c) {
            let word = self.read_word();
            match keyword(word.as_str()) {
                Some(lexeme) => Ok(lexeme),
                None => Ok(Lexeme::IDENTIFIER(Identifier::new(word.as_str()))),
            }
        } else if is_digit(c) {
            match self.read_int_literal() {
                Ok(value) => Ok(Lexeme::INT_LITERAL(value)),
                Err(error) => Err(error),
            }
        } else if c == '"' as u8 {
            match self.read_str_literal() {
                Ok(text) => Ok(Lexeme::STRING_LITERAL(text)),
                Err(error) => Err(error),
            }
        } else {
            match punctuation(c) {
                Some(lexeme) => {
                    self.read_char();
                    Ok(lexeme)
                },
                None => match self.read_operator() {
                    Some(lexeme) => Ok(lexeme),
                    None => {
                        self.read_char();
                        if c == 0 {
                            Ok(Lexeme::EOF)
                        } else {
                            Ok(Lexeme::INVALID)
                        }
                    },
                },
            }
        }
    }

    /// Skips whitespace, then reads the lexeme that starts at the cursor and
    /// moves the cursor past it.
    ///
    /// A literal that has no lexeme yields `INVALID`. At the end of the input
    /// the result is `EOF` and the cursor stays, so that every further call
    /// returns `EOF` again.
    pub fn next_lexeme(&mut self) -> (lexeme: Lexeme)
        ensures
            final(self).source() == old(self).source(),
            final(self).position() == grammar::lexeme_end(
                old(self).source(),
                grammar::skip_whitespace(old(self).source(), old(self).position()),
            ),
            lexeme@ == grammar::token_at(
                old(self).source(),
                grammar::skip_whitespace(old(self).source(), old(self).position()),
            ),
            old(self).position() <= final(self).position() <= final(self).source().len(),
    {
        match self.try_next_lexeme() {
            Ok(lexeme) => lexeme,
            Err(_) => Lexeme::INVALID,
        }
    }

    /// Reads lexemes up to the first `EOF`, which is consumed and left out.
    ///
    /// The lexemes stand in the order in which they were read. A literal
    /// that has no lexeme stands as `INVALID`.
    pub fn lex(&mut self) -> (output: Vec<Lexeme>)
        ensures
            final(self).source() == old(self).source(),
            final(self).position() == grammar::drain_end(old(self).source(), old(self).position()),
            output.deep_view() == grammar::tokens_from(old(self).source(), old(self).position()),
            old(self).position() <= final(self).position() <= final(self).source().len(),
    {
        let mut output: Vec<Lexeme> = Vec::new();
        proof {
            use_type_invariant(&*self);
        }
        loop
            invariant_except_break
                grammar::drain_end(self.source(), self.position()) == grammar::drain_end(
                    old(self).source(),
                    old(self).position(),
                ),
                output.deep_view() + grammar::tokens_from(self.source(), self.position())
                    == grammar::tokens_from(old(self).source(), old(self).position()),
            invariant
                self.source() == old(self).source(),
                old(self).position() <= self.position() <= self.source().len(),
            ensures
                self.position() == grammar::drain_end(old(self).source(), old(self).position()),
                output.deep_view() == grammar::tokens_from(
                    old(self).source(),
                    old(self).position(),
                ),
            decreases self.source().len() - self.position(),
        {
            let ghost before = output.deep_view();
            let ghost start = grammar::skip_whitespace(self.source(), self.position());
            proof {
                grammar::lemma_skip_whitespace_bounds(self.source(), self.position());
                grammar::lemma_lexeme_end_bounds(self.source(), start);
            }
            let lexeme = self.next_lexeme();
            if matches!(lexeme, Lexeme::EOF) {
                break;
            }
            output.push(lexeme);
            proof {
                assert(output.deep_view() =~= before + seq![lexeme@]);
            }
        }
        output
    }
}

} // verus!
