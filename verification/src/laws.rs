//! What holds of the scanner on every input.

use vstd::prelude::*;

use crate::grammar::{
    byte_at, decimal_value, is_whitespace, lemma_lexeme_end_bounds, lemma_skip_whitespace_bounds,
    lemma_string_close_bounds, lemma_word_bytes, lemma_word_end_bounds, lexeme_end, operator_at,
    operator_spelling, punctuation, skip_whitespace, spelled_at, string_close, token_at,
    tokens_from, word_at, word_end,
};
use crate::text::lemma_decode_ascii;
use crate::lexer::{Lexeme, Lexer, Token};

verus! {

/// A text that holds nothing but whitespace has no tokens.
pub proof fn law_whitespace_only(s: Seq<u8>)
    requires
        forall|i: int| 0 <= i < s.len() ==> is_whitespace(#[trigger] s[i]),
    ensures
        tokens_from(s, 0) == Seq::<Token>::empty(),
{
    lemma_whitespace_run(s, 0);
}

/// From any position on, a run of whitespace up to the end of the text is
/// skipped whole.
proof fn lemma_whitespace_run(s: Seq<u8>, i: int)
    requires
        0 <= i <= s.len(),
        forall|j: int| i <= j < s.len() ==> is_whitespace(#[trigger] s[j]),
    ensures
        skip_whitespace(s, i) == s.len(),
    decreases s.len() - i,
{
    if i < s.len() {
        lemma_whitespace_run(s, i + 1);
    }
}

/// The token that a punctuation byte stands for.
pub open spec fn punctuation_token(b: u8) -> Token {
    Token::Plain(punctuation(b)->0)
}

/// A text made of punctuation bytes alone has one token per byte, in the
/// order of the bytes, each the lexeme that its byte spells.
pub proof fn law_punctuation_only(s: Seq<u8>)
    requires
        forall|i: int| 0 <= i < s.len() ==> punctuation(#[trigger] s[i]) is Some,
    ensures
        tokens_from(s, 0) == s.map_values(|b: u8| punctuation_token(b)),
{
    lemma_punctuation_run(s, 0);
    assert(s.subrange(0, s.len() as int) =~= s);
}

/// From any position on, a run of punctuation bytes up to the end of the
/// text has one token per byte.
proof fn lemma_punctuation_run(s: Seq<u8>, i: int)
    requires
        0 <= i <= s.len(),
        forall|j: int| i <= j < s.len() ==> punctuation(#[trigger] s[j]) is Some,
    ensures
        tokens_from(s, i) == s.subrange(i, s.len() as int).map_values(
            |b: u8| punctuation_token(b),
        ),
    decreases s.len() - i,
{
    let rest = s.subrange(i, s.len() as int).map_values(|b: u8| punctuation_token(b));
    if i < s.len() {
        lemma_punctuation_run(s, i + 1);
        let tail = s.subrange(i + 1, s.len() as int).map_values(|b: u8| punctuation_token(b));
        assert(rest =~= seq![punctuation_token(s[i])] + tail);
    } else {
        assert(rest =~= Seq::<Token>::empty());
    }
}

/// At the end of the text the scanner reports the end of input and stays
/// where it is, however often it is asked.
pub proof fn law_end_of_input_repeats(s: Seq<u8>, p: int)
    requires
        p >= s.len(),
    ensures
        skip_whitespace(s, p) == p,
        token_at(s, p) == Token::Plain(Lexeme::EOF),
        lexeme_end(s, p) == p,
{
}

/// A scan step never moves the cursor backward nor out of the text, and it
/// consumes at least one byte unless the cursor is at the end of the text.
pub proof fn law_cursor_moves_forward(s: Seq<u8>, p: int)
    requires
        0 <= p <= s.len(),
    ensures
        p <= lexeme_end(s, skip_whitespace(s, p)) <= s.len(),
        p < s.len() ==> p < lexeme_end(s, skip_whitespace(s, p)),
{
    lemma_skip_whitespace_bounds(s, p);
    lemma_lexeme_end_bounds(s, skip_whitespace(s, p));
}

/// Two scanners that stand at the same position of the same text yield the
/// same tokens when each is drained.
pub proof fn law_same_text_same_tokens(
    first: Lexer,
    second: Lexer,
    first_output: Vec<Lexeme>,
    second_output: Vec<Lexeme>,
)
    requires
        first.source() == second.source(),
        first.position() == second.position(),
        first_output.deep_view() == tokens_from(first.source(), first.position()),
        second_output.deep_view() == tokens_from(second.source(), second.position()),
    ensures
        first_output.deep_view() == second_output.deep_view(),
{
}

/// Zeros in front of a sequence of digits do not change the number that it
/// denotes.
pub proof fn law_leading_zero(digits: Seq<u8>)
    ensures
        decimal_value(seq!['0' as u8] + digits) == decimal_value(digits),
    decreases digits.len(),
{
    let zero = seq!['0' as u8];
    if digits.len() == 0 {
        assert(zero + digits =~= zero);
        assert(zero.drop_last() =~= Seq::<u8>::empty());
        assert(decimal_value(zero.drop_last()) == 0);
        assert(decimal_value(zero) == 0);
    } else {
        law_leading_zero(digits.drop_last());
        assert((zero + digits).drop_last() =~= zero + digits.drop_last());
        assert((zero + digits).last() == digits.last());
    }
}

/// The operator found at a position is spelled there, byte for byte.
pub proof fn law_operator_is_spelled(s: Seq<u8>, i: int)
    ensures
        operator_at(s, i) matches Some((lexeme, len)) ==> operator_spelling(lexeme) matches Some(w)
            && w.len() == len && spelled_at(s, i, w),
{
    if let Some((lexeme, len)) = operator_at(s, i) {
        assert(byte_at(s, i) != 0);
        let w = operator_spelling(lexeme)->0;
        assert(s.subrange(i, i + len) =~= w);
    }
}

/// Maximal munch: where any operator is spelled, the operator found there is
/// at least as long, and it is that operator if it is as long.
pub proof fn law_longest_operator(s: Seq<u8>, i: int, other: Lexeme)
    requires
        operator_spelling(other) matches Some(w) && spelled_at(s, i, w),
    ensures
        operator_at(s, i) matches Some((lexeme, len)) && operator_spelling(other)->0.len() <= len
            && (operator_spelling(other)->0.len() == len ==> lexeme == other),
{
    let w = operator_spelling(other)->0;
    let part = s.subrange(i, i + w.len());
    assert(part[0] == s[i]);
    if w.len() > 1 {
        assert(part[1] == s[i + 1]);
    }
    if w.len() > 2 {
        assert(part[2] == s[i + 2]);
    }
    if w.len() > 3 {
        assert(part[3] == s[i + 3]);
    }
}

/// A minus sign followed by a greater-than sign is the return type arrow,
/// never a subtraction followed by a comparison.
pub proof fn law_return_arrow(s: Seq<u8>, i: int)
    requires
        byte_at(s, i) == '-' as u8,
        byte_at(s, i + 1) == '>' as u8,
    ensures
        token_at(s, i) == Token::Plain(Lexeme::RETURN_TYPE_OP),
        lexeme_end(s, i) == i + 2,
{
}

/// How a run of less-than signs is read: one is a comparison, two are a
/// shift, three are a rotation, and an equals sign right after makes the
/// comparison inclusive and the shift and the rotation an assignment.
pub proof fn law_left_angles(s: Seq<u8>, i: int)
    requires
        byte_at(s, i) == '<' as u8,
    ensures
        ({
            let b = byte_at(s, i + 1);
            let c = byte_at(s, i + 2);
            let d = byte_at(s, i + 3);
            let lt = '<' as u8;
            let eq = '=' as u8;
            let token = token_at(s, i);
            let end = lexeme_end(s, i);
            &&& b != lt && b != eq ==> token == Token::Plain(Lexeme::LT_OP) && end == i + 1
            &&& b == eq ==> token == Token::Plain(Lexeme::LE_OP) && end == i + 2
            &&& b == lt && c != lt && c != eq ==> token == Token::Plain(Lexeme::LEFT_SHIFT_OP) && end
                == i + 2
            &&& b == lt && c == eq ==> token == Token::Plain(Lexeme::LEFT_SHIFT_OP_ASSIGN) && end
                == i + 3
            &&& b == lt && c == lt && d != eq ==> token == Token::Plain(Lexeme::LEFT_ROT_OP) && end
                == i + 3
            &&& b == lt && c == lt && d == eq ==> token == Token::Plain(Lexeme::LEFT_ROT_OP_ASSIGN)
                && end == i + 4
        }),
{
}

/// How a run of greater-than signs is read: the mirror image of the
/// less-than signs.
pub proof fn law_right_angles(s: Seq<u8>, i: int)
    requires
        byte_at(s, i) == '>' as u8,
    ensures
        ({
            let b = byte_at(s, i + 1);
            let c = byte_at(s, i + 2);
            let d = byte_at(s, i + 3);
            let gt = '>' as u8;
            let eq = '=' as u8;
            let token = token_at(s, i);
            let end = lexeme_end(s, i);
            &&& b != gt && b != eq ==> token == Token::Plain(Lexeme::GT_OP) && end == i + 1
            &&& b == eq ==> token == Token::Plain(Lexeme::GE_OP) && end == i + 2
            &&& b == gt && c != gt && c != eq ==> token == Token::Plain(Lexeme::RIGHT_SHIFT_OP)
                && end == i + 2
            &&& b == gt && c == eq ==> token == Token::Plain(Lexeme::RIGHT_SHIFT_OP_ASSIGN) && end
                == i + 3
            &&& b == gt && c == gt && d != eq ==> token == Token::Plain(Lexeme::RIGHT_ROT_OP) && end
                == i + 3
            &&& b == gt && c == gt && d == eq ==> token == Token::Plain(Lexeme::RIGHT_ROT_OP_ASSIGN)
                && end == i + 4
        }),
{
}

/// A backslash inside a string literal protects the byte after it: that
/// byte never closes the literal, even where it is a double quote.
pub proof fn law_backslash_protects(s: Seq<u8>, i: int)
    requires
        0 <= i,
        i + 1 < s.len(),
        s[i] == '\\' as u8,
    ensures
        string_close(s, i) == string_close(s, i + 2),
        string_close(s, i) != Some(i + 1),
{
    lemma_string_close_bounds(s, i + 2);
}

/// The text of a word is its bytes, each read as the ASCII character with
/// that number.
pub proof fn law_word_text(s: Seq<u8>, i: int)
    requires
        0 <= i <= s.len(),
    ensures
        word_at(s, i) == s.subrange(i, word_end(s, i)).map_values(|b: u8| b as char),
{
    lemma_word_end_bounds(s, i);
    let word = s.subrange(i, word_end(s, i));
    assert forall|k: int| 0 <= k < word.len() implies #[trigger] word[k] < 0x80 by {
        lemma_word_bytes(s, i, i + k);
    }
    lemma_decode_ascii(word);
}

} // verus!
