//! What the scanner computes, stated over the bytes of the source.
//!
//! Every function here is a specification. A position is an index into the
//! byte sequence; the byte past the end reads as zero.

use vstd::prelude::*;
use vstd::utf8::*;

use crate::lexer::{LexError, LexErrorKind, Lexeme, Token};

verus! {

/// The byte at `i`, or zero when `i` is outside the sequence.
pub open spec fn byte_at(s: Seq<u8>, i: int) -> u8 {
    if 0 <= i < s.len() {
        s[i]
    } else {
        0
    }
}

/// The position one byte after `i`, or `i` itself when no byte stands at `i`.
pub open spec fn advance(s: Seq<u8>, i: int) -> int {
    if 0 <= i < s.len() {
        i + 1
    } else {
        i
    }
}

/// Space, tab, line feed, form feed or carriage return.
pub open spec fn is_whitespace(b: u8) -> bool {
    b == 0x20 || b == 0x09 || b == 0x0a || b == 0x0c || b == 0x0d
}

/// An ASCII letter or the underscore: a byte that can start a word.
pub open spec fn is_letter(b: u8) -> bool {
    ('a' as u8 <= b && b <= 'z' as u8) || ('A' as u8 <= b && b <= 'Z' as u8) || b == '_' as u8
}

/// An ASCII decimal digit.
pub open spec fn is_digit(b: u8) -> bool {
    '0' as u8 <= b && b <= '9' as u8
}

/// A byte that can continue a word.
pub open spec fn is_word_byte(b: u8) -> bool {
    is_letter(b) || is_digit(b)
}

/// The first position at or after `i` that holds no whitespace.
pub open spec fn skip_whitespace(s: Seq<u8>, i: int) -> int
    decreases s.len() - i,
{
    if 0 <= i < s.len() && is_whitespace(s[i]) {
        skip_whitespace(s, i + 1)
    } else {
        i
    }
}

/// The first position at or after `i` that holds no word byte.
pub open spec fn word_end(s: Seq<u8>, i: int) -> int
    decreases s.len() - i,
{
    if 0 <= i < s.len() && is_word_byte(s[i]) {
        word_end(s, i + 1)
    } else {
        i
    }
}

/// The first position at or after `i` that holds no digit.
pub open spec fn digits_end(s: Seq<u8>, i: int) -> int
    decreases s.len() - i,
{
    if 0 <= i < s.len() && is_digit(s[i]) {
        digits_end(s, i + 1)
    } else {
        i
    }
}

/// The number that a sequence of digits denotes in base ten.
pub open spec fn decimal_value(digits: Seq<u8>) -> nat
    decreases digits.len(),
{
    if digits.len() == 0 {
        0
    } else {
        (10 * decimal_value(digits.drop_last()) + (digits.last() - '0' as u8)) as nat
    }
}

/// The position of the quote that closes a string literal whose payload
/// starts at `i`, if there is one.
///
/// A backslash protects the byte that follows it, whatever that byte is.
pub open spec fn string_close(s: Seq<u8>, i: int) -> Option<int>
    decreases s.len() - i,
{
    if i < 0 || i >= s.len() {
        None
    } else if s[i] == '"' as u8 {
        Some(i)
    } else if s[i] == '\\' as u8 {
        if i + 1 < s.len() {
            string_close(s, i + 2)
        } else {
            None
        }
    } else {
        string_close(s, i + 1)
    }
}

/// The keyword or primitive type name that `word` spells, if any.
pub open spec fn keyword(word: Seq<char>) -> Option<Lexeme> {
    if word == "let"@ {
        Some(Lexeme::LET)
    } else if word == "mut"@ {
        Some(Lexeme::MUT)
    } else if word == "fn"@ {
        Some(Lexeme::FN)
    } else if word == "return"@ {
        Some(Lexeme::RETURN)
    } else if word == "true"@ {
        Some(Lexeme::TRUE)
    } else if word == "false"@ {
        Some(Lexeme::FALSE)
    } else if word == "i8"@ {
        Some(Lexeme::I8)
    } else if word == "u8"@ {
        Some(Lexeme::U8)
    } else if word == "i16"@ {
        Some(Lexeme::I16)
    } else if word == "u16"@ {
        Some(Lexeme::U16)
    } else if word == "i32"@ {
        Some(Lexeme::I32)
    } else if word == "u32"@ {
        Some(Lexeme::U32)
    } else if word == "i64"@ {
        Some(Lexeme::I64)
    } else if word == "u64"@ {
        Some(Lexeme::U64)
    } else if word == "char"@ {
        Some(Lexeme::CHAR)
    } else if word == "string"@ {
        Some(Lexeme::STRING)
    } else {
        None
    }
}

/// The punctuation lexeme that the single byte `b` spells, if any.
pub open spec fn punctuation(b: u8) -> Option<Lexeme> {
    if b == '{' as u8 {
        Some(Lexeme::BRACE_OPEN)
    } else if b == '}' as u8 {
        Some(Lexeme::BRACE_CLOSE)
    } else if b == '(' as u8 {
        Some(Lexeme::PARENTHESES_OPEN)
    } else if b == ')' as u8 {
        Some(Lexeme::PARENTHESES_CLOSE)
    } else if b == '[' as u8 {
        Some(Lexeme::BRACKET_OPEN)
    } else if b == ']' as u8 {
        Some(Lexeme::BRACKET_CLOSE)
    } else if b == ';' as u8 {
        Some(Lexeme::SEMI_COLON)
    } else if b == ':' as u8 {
        Some(Lexeme::COLON)
    } else if b == ',' as u8 {
        Some(Lexeme::COMMA)
    } else {
        None
    }
}

/// `compound` with one more byte when an equals sign stands at `i`, else
/// `plain`, for an operator whose first `len` bytes end just before `i`.
pub open spec fn assign_form(s: Seq<u8>, i: int, len: int, compound: Lexeme, plain: Lexeme) -> (
    Lexeme,
    int,
) {
    if byte_at(s, i) == '=' as u8 {
        (compound, len + 1)
    } else {
        (plain, len)
    }
}

/// The longest operator that starts at `i`, with the number of bytes it
/// spans, if the byte at `i` starts an operator.
pub open spec fn operator_at(s: Seq<u8>, i: int) -> Option<(Lexeme, int)> {
    let a = byte_at(s, i);
    let b = byte_at(s, i + 1);
    let c = byte_at(s, i + 2);
    if a == '=' as u8 {
        Some(assign_form(s, i + 1, 1, Lexeme::EQ_OP, Lexeme::ASSIGN_OP))
    } else if a == '+' as u8 {
        Some(assign_form(s, i + 1, 1, Lexeme::PLUS_OP_ASSIGN, Lexeme::PLUS_OP))
    } else if a == '-' as u8 {
        if b == '>' as u8 {
            Some((Lexeme::RETURN_TYPE_OP, 2))
        } else {
            Some(assign_form(s, i + 1, 1, Lexeme::MINUS_OP_ASSIGN, Lexeme::MINUS_OP))
        }
    } else if a == '*' as u8 {
        Some(assign_form(s, i + 1, 1, Lexeme::TIMES_OP_ASSIGN, Lexeme::TIMES_OP))
    } else if a == '/' as u8 {
        Some(assign_form(s, i + 1, 1, Lexeme::DIVIDE_OP_ASSIGN, Lexeme::DIVIDE_OP))
    } else if a == '%' as u8 {
        Some(assign_form(s, i + 1, 1, Lexeme::MODULO_OP_ASSIGN, Lexeme::MODULO_OP))
    } else if a == '!' as u8 {
        Some(assign_form(s, i + 1, 1, Lexeme::NE_OP, Lexeme::LOGICAL_NOT_OP))
    } else if a == '&' as u8 {
        if b == '&' as u8 {
            Some((Lexeme::LOGICAL_AND_OP, 2))
        } else {
            Some(assign_form(s, i + 1, 1, Lexeme::BINARY_AND_OP_ASSIGN, Lexeme::BINARY_AND_OP))
        }
    } else if a == '|' as u8 {
        if b == '|' as u8 {
            Some((Lexeme::LOGICAL_OR_OP, 2))
        } else {
            Some(assign_form(s, i + 1, 1, Lexeme::BINARY_OR_OP_ASSIGN, Lexeme::BINARY_OR_OP))
        }
    } else if a == '^' as u8 {
        Some(assign_form(s, i + 1, 1, Lexeme::BINARY_XOR_OP_ASSIGN, Lexeme::BINARY_XOR_OP))
    } else if a == '~' as u8 {
        Some(assign_form(s, i + 1, 1, Lexeme::BINARY_NOT_OP_ASSIGN, Lexeme::BINARY_NOT_OP))
    } else if a == '<' as u8 {
        if b == '<' as u8 {
            if c == '<' as u8 {
                Some(assign_form(s, i + 3, 3, Lexeme::LEFT_ROT_OP_ASSIGN, Lexeme::LEFT_ROT_OP))
            } else {
                Some(assign_form(s, i + 2, 2, Lexeme::LEFT_SHIFT_OP_ASSIGN, Lexeme::LEFT_SHIFT_OP))
            }
        } else {
            Some(assign_form(s, i + 1, 1, Lexeme::LE_OP, Lexeme::LT_OP))
        }
    } else if a == '>' as u8 {
        if b == '>' as u8 {
            if c == '>' as u8 {
                Some(assign_form(s, i + 3, 3, Lexeme::RIGHT_ROT_OP_ASSIGN, Lexeme::RIGHT_ROT_OP))
            } else {
                Some(
                    assign_form(s, i + 2, 2, Lexeme::RIGHT_SHIFT_OP_ASSIGN, Lexeme::RIGHT_SHIFT_OP),
                )
            }
        } else {
            Some(assign_form(s, i + 1, 1, Lexeme::GE_OP, Lexeme::GT_OP))
        }
    } else {
        None
    }
}

/// The bytes that spell an operator; nothing for a lexeme that is no
/// operator.
pub open spec fn operator_spelling(lexeme: Lexeme) -> Option<Seq<u8>> {
    match lexeme {
        Lexeme::ASSIGN_OP => Some(seq!['=' as u8]),
        Lexeme::EQ_OP => Some(seq!['=' as u8, '=' as u8]),
        Lexeme::PLUS_OP => Some(seq!['+' as u8]),
        Lexeme::PLUS_OP_ASSIGN => Some(seq!['+' as u8, '=' as u8]),
        Lexeme::MINUS_OP => Some(seq!['-' as u8]),
        Lexeme::MINUS_OP_ASSIGN => Some(seq!['-' as u8, '=' as u8]),
        Lexeme::RETURN_TYPE_OP => Some(seq!['-' as u8, '>' as u8]),
        Lexeme::TIMES_OP => Some(seq!['*' as u8]),
        Lexeme::TIMES_OP_ASSIGN => Some(seq!['*' as u8, '=' as u8]),
        Lexeme::DIVIDE_OP => Some(seq!['/' as u8]),
        Lexeme::DIVIDE_OP_ASSIGN => Some(seq!['/' as u8, '=' as u8]),
        Lexeme::MODULO_OP => Some(seq!['%' as u8]),
        Lexeme::MODULO_OP_ASSIGN => Some(seq!['%' as u8, '=' as u8]),
        Lexeme::LOGICAL_NOT_OP => Some(seq!['!' as u8]),
        Lexeme::NE_OP => Some(seq!['!' as u8, '=' as u8]),
        Lexeme::BINARY_AND_OP => Some(seq!['&' as u8]),
        Lexeme::BINARY_AND_OP_ASSIGN => Some(seq!['&' as u8, '=' as u8]),
        Lexeme::LOGICAL_AND_OP => Some(seq!['&' as u8, '&' as u8]),
        Lexeme::BINARY_OR_OP => Some(seq!['|' as u8]),
        Lexeme::BINARY_OR_OP_ASSIGN => Some(seq!['|' as u8, '=' as u8]),
        Lexeme::LOGICAL_OR_OP => Some(seq!['|' as u8, '|' as u8]),
        Lexeme::BINARY_XOR_OP => Some(seq!['^' as u8]),
        Lexeme::BINARY_XOR_OP_ASSIGN => Some(seq!['^' as u8, '=' as u8]),
        Lexeme::BINARY_NOT_OP => Some(seq!['~' as u8]),
        Lexeme::BINARY_NOT_OP_ASSIGN => Some(seq!['~' as u8, '=' as u8]),
        Lexeme::LT_OP => Some(seq!['<' as u8]),
        Lexeme::LE_OP => Some(seq!['<' as u8, '=' as u8]),
        Lexeme::LEFT_SHIFT_OP => Some(seq!['<' as u8, '<' as u8]),
        Lexeme::LEFT_SHIFT_OP_ASSIGN => Some(seq!['<' as u8, '<' as u8, '=' as u8]),
        Lexeme::LEFT_ROT_OP => Some(seq!['<' as u8, '<' as u8, '<' as u8]),
        Lexeme::LEFT_ROT_OP_ASSIGN => Some(seq!['<' as u8, '<' as u8, '<' as u8, '=' as u8]),
        Lexeme::GT_OP => Some(seq!['>' as u8]),
        Lexeme::GE_OP => Some(seq!['>' as u8, '=' as u8]),
        Lexeme::RIGHT_SHIFT_OP => Some(seq!['>' as u8, '>' as u8]),
        Lexeme::RIGHT_SHIFT_OP_ASSIGN => Some(seq!['>' as u8, '>' as u8, '=' as u8]),
        Lexeme::RIGHT_ROT_OP => Some(seq!['>' as u8, '>' as u8, '>' as u8]),
        Lexeme::RIGHT_ROT_OP_ASSIGN => Some(seq!['>' as u8, '>' as u8, '>' as u8, '=' as u8]),
        _ => None,
    }
}

/// The bytes `w` stand in `s` from position `i` on.
pub open spec fn spelled_at(s: Seq<u8>, i: int, w: Seq<u8>) -> bool {
    0 <= i && i + w.len() <= s.len() && s.subrange(i, i + w.len()) == w
}

/// The word that starts at `i`: the maximal run of word bytes, as text.
pub open spec fn word_at(s: Seq<u8>, i: int) -> Seq<char> {
    decode_utf8(s.subrange(i, word_end(s, i)))
}

/// The value of the integer literal that starts at `i`: the maximal run of
/// digits read in base ten, or an error when it exceeds `i64::MAX`.
pub open spec fn integer_at(s: Seq<u8>, i: int) -> Result<int, LexError> {
    let end = digits_end(s, i);
    let value = decimal_value(s.subrange(i, end));
    if value <= i64::MAX {
        Ok(value as int)
    } else {
        Err(LexError { kind: LexErrorKind::IntegerOverflow, start: i as usize, end: end as usize })
    }
}

/// The payload of the string literal whose opening quote stands at `i`: the
/// raw text between the quotes, backslashes included, or an error when the
/// input ends before the closing quote.
pub open spec fn string_at(s: Seq<u8>, i: int) -> Result<Seq<char>, LexError> {
    match string_close(s, i + 1) {
        Some(close) => Ok(decode_utf8(s.subrange(i + 1, close))),
        None => Err(
            LexError {
                kind: LexErrorKind::UnterminatedString,
                start: i as usize,
                end: s.len() as usize,
            },
        ),
    }
}

/// The position just past the string literal whose opening quote stands at
/// `i`: past its closing quote, or the end of the input when it has none.
pub open spec fn string_end(s: Seq<u8>, i: int) -> int {
    match string_close(s, i + 1) {
        Some(close) => close + 1,
        None => s.len() as int,
    }
}

/// The lexeme that starts at `i`, or the reason why the literal that starts
/// there has none.
///
/// The decision rests on the byte at `i`:
/// a letter or underscore starts a word, which is a keyword or an identifier;
/// a digit starts an integer literal; a double quote starts a string literal;
/// then come punctuation and operators; a zero byte is the end of input; any
/// other byte is invalid.
pub open spec fn classify(s: Seq<u8>, i: int) -> Result<Token, LexError> {
    let b = byte_at(s, i);
    if is_letter(b) {
        match keyword(word_at(s, i)) {
            Some(lexeme) => Ok(Token::Plain(lexeme)),
            None => Ok(Token::Name(word_at(s, i))),
        }
    } else if is_digit(b) {
        match integer_at(s, i) {
            Ok(value) => Ok(Token::Integer(value)),
            Err(error) => Err(error),
        }
    } else if b == '"' as u8 {
        match string_at(s, i) {
            Ok(text) => Ok(Token::Text(text)),
            Err(error) => Err(error),
        }
    } else if punctuation(b) is Some {
        Ok(Token::Plain(punctuation(b)->0))
    } else {
        match operator_at(s, i) {
            Some((lexeme, _)) => Ok(Token::Plain(lexeme)),
            None => if b == 0 {
                Ok(Token::Plain(Lexeme::EOF))
            } else {
                Ok(Token::Plain(Lexeme::INVALID))
            },
        }
    }
}

/// The position just past the lexeme that starts at `i`.
///
/// Past the last byte there is nothing to consume and the position stays. A
/// string literal without closing quote runs to the end of the input.
pub open spec fn lexeme_end(s: Seq<u8>, i: int) -> int {
    let b = byte_at(s, i);
    if is_letter(b) {
        word_end(s, i)
    } else if is_digit(b) {
        digits_end(s, i)
    } else if b == '"' as u8 {
        string_end(s, i)
    } else if punctuation(b) is Some {
        i + 1
    } else {
        match operator_at(s, i) {
            Some((_, len)) => i + len,
            None => advance(s, i),
        }
    }
}

/// The token that starts at `i`, where a literal without lexeme counts as
/// invalid.
pub open spec fn token_at(s: Seq<u8>, i: int) -> Token {
    match classify(s, i) {
        Ok(token) => token,
        Err(_) => Token::Plain(Lexeme::INVALID),
    }
}

/// The tokens from position `p` up to, and without, the first end of input.
pub open spec fn tokens_from(s: Seq<u8>, p: int) -> Seq<Token>
    decreases s.len() - p,
    via tokens_from_decreases
{
    let start = skip_whitespace(s, p);
    let token = token_at(s, start);
    if token == Token::Plain(Lexeme::EOF) {
        Seq::empty()
    } else {
        seq![token] + tokens_from(s, lexeme_end(s, start))
    }
}

/// The position just past the first end of input at or after `p`.
pub open spec fn drain_end(s: Seq<u8>, p: int) -> int
    decreases s.len() - p,
    via drain_end_decreases
{
    let start = skip_whitespace(s, p);
    if token_at(s, start) == Token::Plain(Lexeme::EOF) {
        lexeme_end(s, start)
    } else {
        drain_end(s, lexeme_end(s, start))
    }
}

#[via_fn]
proof fn tokens_from_decreases(s: Seq<u8>, p: int) {
    lemma_skip_whitespace_bounds(s, p);
    lemma_lexeme_end_bounds(s, skip_whitespace(s, p));
}

#[via_fn]
proof fn drain_end_decreases(s: Seq<u8>, p: int) {
    lemma_skip_whitespace_bounds(s, p);
    lemma_lexeme_end_bounds(s, skip_whitespace(s, p));
}

/// Skipping whitespace moves forward, stays inside the input, and stops on a
/// byte that is no whitespace.
pub proof fn lemma_skip_whitespace_bounds(s: Seq<u8>, i: int)
    ensures
        i <= skip_whitespace(s, i),
        0 <= i <= s.len() ==> skip_whitespace(s, i) <= s.len(),
        !is_whitespace(byte_at(s, skip_whitespace(s, i))),
    decreases s.len() - i,
{
    if 0 <= i < s.len() && is_whitespace(s[i]) {
        lemma_skip_whitespace_bounds(s, i + 1);
    }
}

/// A word ends at or after its start, inside the input, before a byte that
/// is no word byte.
pub proof fn lemma_word_end_bounds(s: Seq<u8>, i: int)
    ensures
        i <= word_end(s, i),
        0 <= i <= s.len() ==> word_end(s, i) <= s.len(),
        !is_word_byte(byte_at(s, word_end(s, i))),
    decreases s.len() - i,
{
    if 0 <= i < s.len() && is_word_byte(s[i]) {
        lemma_word_end_bounds(s, i + 1);
    }
}

/// Every byte of a word is a word byte.
pub proof fn lemma_word_bytes(s: Seq<u8>, i: int, j: int)
    requires
        i <= j < word_end(s, i),
    ensures
        0 <= j < s.len(),
        is_word_byte(s[j]),
    decreases s.len() - i,
{
    if 0 <= i < s.len() && is_word_byte(s[i]) && i != j {
        lemma_word_bytes(s, i + 1, j);
    }
}

/// A run of digits ends at or after its start, inside the input, before a
/// byte that is no digit.
pub proof fn lemma_digits_end_bounds(s: Seq<u8>, i: int)
    ensures
        i <= digits_end(s, i),
        0 <= i <= s.len() ==> digits_end(s, i) <= s.len(),
        !is_digit(byte_at(s, digits_end(s, i))),
    decreases s.len() - i,
{
    if 0 <= i < s.len() && is_digit(s[i]) {
        lemma_digits_end_bounds(s, i + 1);
    }
}

/// The closing quote of a string literal stands at or after the start of the
/// payload, inside the input, and is a double quote.
pub proof fn lemma_string_close_bounds(s: Seq<u8>, i: int)
    ensures
        string_close(s, i) matches Some(close) ==> i <= close < s.len() && s[close] == '"' as u8,
    decreases s.len() - i,
{
    if 0 <= i < s.len() && s[i] != '"' as u8 {
        if s[i] == '\\' as u8 {
            if i + 1 < s.len() {
                lemma_string_close_bounds(s, i + 2);
            }
        } else {
            lemma_string_close_bounds(s, i + 1);
        }
    }
}

/// Every lexeme that starts inside the input spans at least one byte and
/// ends inside the input.
pub proof fn lemma_lexeme_end_bounds(s: Seq<u8>, i: int)
    ensures
        0 <= i < s.len() ==> i < lexeme_end(s, i) <= s.len(),
        !(0 <= i < s.len()) ==> lexeme_end(s, i) == i && token_at(s, i) == Token::Plain(Lexeme::EOF),
{
    if 0 <= i < s.len() {
        lemma_word_end_bounds(s, i + 1);
        lemma_digits_end_bounds(s, i + 1);
        lemma_string_close_bounds(s, i + 1);
    }
}

} // verus!
