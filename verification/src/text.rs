//! Cutting UTF-8 text at ASCII bytes, and comparing string slices.

use vstd::prelude::*;
use vstd::string::*;
use vstd::utf8::*;

verus! {

/// Position `i` of `s` is an end of `s`, or it holds or follows an ASCII byte.
pub open spec fn ascii_edge(s: Seq<u8>, i: int) -> bool {
    0 <= i <= s.len() && (i == 0 || i == s.len() || s[i] < 0x80 || s[i - 1] < 0x80)
}

/// In well-formed UTF-8 no character straddles a position next to an ASCII
/// byte.
pub proof fn lemma_ascii_edge_is_boundary(s: Seq<u8>, i: int)
    requires
        valid_utf8(s),
        ascii_edge(s, i),
    ensures
        is_char_boundary(s, i),
{
    if i == 0 || i == s.len() {
        is_char_boundary_start_end_of_seq(s);
    } else if s[i] < 0x80 {
        is_char_boundary_iff_not_is_continuation_byte(s, i);
    } else {
        is_char_boundary_iff_not_is_continuation_byte(s, i - 1);
        valid_utf8_split(s, i - 1);
        let tail = s.subrange(i - 1, s.len() as int);
        assert(tail[0] == s[i - 1]);
        assert(pop_first_scalar(tail) =~= s.subrange(i, s.len() as int));
        let rest = s.subrange(i, s.len() as int);
        assert(valid_utf8(rest));
        assert(rest[0] == s[i]);
        assert(valid_first_scalar(rest));
        is_char_boundary_iff_not_is_continuation_byte(s, i);
    }
}

/// The bytes between two character boundaries of well-formed UTF-8 are
/// well-formed UTF-8, and the first boundary is one of the prefix that ends
/// at the second.
pub proof fn lemma_cut_is_valid(s: Seq<u8>, from: int, to: int)
    requires
        valid_utf8(s),
        0 <= from <= to <= s.len(),
        is_char_boundary(s, from),
        is_char_boundary(s, to),
    ensures
        valid_utf8(s.subrange(0, to)),
        is_char_boundary(s.subrange(0, to), from),
        valid_utf8(s.subrange(from, to)),
{
    let head = s.subrange(0, to);
    valid_utf8_split(s, to);
    if from == to {
        is_char_boundary_start_end_of_seq(head);
    } else {
        is_char_boundary_iff_not_is_continuation_byte(s, from);
        assert(head[from] == s[from]);
        is_char_boundary_iff_not_is_continuation_byte(head, from);
    }
    valid_utf8_split(head, from);
    assert(head.subrange(from, head.len() as int) =~= s.subrange(from, to));
}

/// Bytes below `0x80` are well-formed UTF-8 and stand for one character
/// each: the character with the number of the byte.
pub proof fn lemma_decode_ascii(bytes: Seq<u8>)
    requires
        forall|i: int| 0 <= i < bytes.len() ==> #[trigger] bytes[i] < 0x80,
    ensures
        valid_utf8(bytes),
        decode_utf8(bytes) == bytes.map_values(|b: u8| b as char),
    decreases bytes.len(),
{
    let text = bytes.map_values(|b: u8| b as char);
    if bytes.len() == 0 {
        assert(decode_utf8(bytes) =~= text);
    } else {
        let first = bytes[0];
        let rest = bytes.subrange(1, bytes.len() as int);
        assert(first & 0x7F == first) by (bit_vector)
            requires
                first < 0x80,
        ;
        assert(pop_first_scalar(bytes) == rest);
        assert forall|i: int| 0 <= i < rest.len() implies #[trigger] rest[i] < 0x80 by {
            assert(rest[i] == bytes[i + 1]);
        }
        lemma_decode_ascii(rest);
        assert(valid_utf8(bytes));
        assert(decode_utf8(bytes) =~= text);
    }
}

/// Whether two string slices hold the same characters.
pub fn str_eq(a: &str, b: &str) -> (r: bool)
    ensures
        r == (a@ == b@),
{
    let x = a.as_bytes();
    let y = b.as_bytes();
    proof {
        encode_utf8_decode_utf8(a@);
        encode_utf8_decode_utf8(b@);
    }
    if x.len() != y.len() {
        return false;
    }
    let mut i: usize = 0;
    while i < x.len()
        invariant
            i <= x.len(),
            x.len() == y.len(),
            x@ == encode_utf8(a@),
            y@ == encode_utf8(b@),
            forall|j: int| 0 <= j < i ==> x@[j] == y@[j],
        decreases x.len() - i,
    {
        if x[i] != y[i] {
            return false;
        }
        i = i + 1;
    }
    assert(x@ =~= y@);
    true
}

} // verus!
