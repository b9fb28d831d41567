//! Parts of a text, cut at bytes that are known to be ASCII.

use vstd::prelude::*;
use vstd::string::StringSliceAdditionalSpecFns;
use vstd::utf8::{
    decode_utf8, encode_utf8_decode_utf8, encode_utf8_valid_utf8, is_char_boundary,
    is_char_boundary_iff_not_is_continuation_byte, is_char_boundary_start_end_of_seq,
    is_continuation_byte, length_of_first_scalar, pop_first_scalar, valid_utf8, valid_utf8_split,
};

verus! {

/// Whether every byte of `bytes` is an ASCII byte.
pub open spec fn is_ascii_bytes(bytes: Seq<u8>) -> bool {
    forall|i: int| 0 <= i < bytes.len() ==> #[trigger] bytes[i] < 0x80
}

/// The characters that ASCII bytes stand for, one for each byte.
pub open spec fn ascii_text(bytes: Seq<u8>) -> Seq<char> {
    Seq::new(bytes.len(), |i: int| bytes[i] as char)
}

/// ASCII bytes are a text, and the text has one character for each byte.
pub proof fn lemma_ascii_decodes(bytes: Seq<u8>)
    requires
        is_ascii_bytes(bytes),
    ensures
        valid_utf8(bytes),
        decode_utf8(bytes) == ascii_text(bytes),
    decreases bytes.len(),
{
    if bytes.len() > 0 {
        let first = bytes[0];
        let rest = bytes.subrange(1, bytes.len() as int);
        assert(first < 0x80);
        assert((first & 0x7f) as u32 == first as u32) by (bit_vector)
            requires
                first < 0x80,
        ;
        assert(pop_first_scalar(bytes) == rest);
        assert forall|i: int| 0 <= i < rest.len() implies #[trigger] rest[i] < 0x80 by {
            assert(rest[i] == bytes[i + 1]);
        }
        lemma_ascii_decodes(rest);
        assert(decode_utf8(bytes) =~= ascii_text(bytes)) by {
            assert forall|i: int| 0 <= i < bytes.len() implies decode_utf8(bytes)[i] == ascii_text(
                bytes,
            )[i] by {
                if i > 0 {
                    assert(ascii_text(rest)[i - 1] == rest[i - 1] as char);
                }
            }
        }
    } else {
        assert(decode_utf8(bytes) =~= ascii_text(bytes));
    }
}

/// In a text, an ASCII byte starts a character, and the next character starts
/// right after it.
pub proof fn lemma_ascii_boundaries(bytes: Seq<u8>, i: int)
    requires
        valid_utf8(bytes),
        0 <= i < bytes.len(),
        bytes[i] < 0x80,
    ensures
        is_char_boundary(bytes, i),
        is_char_boundary(bytes, i + 1),
    decreases bytes.len(),
{
    is_char_boundary_iff_not_is_continuation_byte(bytes, i);
    assert(!is_continuation_byte(bytes[i]));
    reveal_with_fuel(is_char_boundary, 2);
    if i == 0 {
        assert(length_of_first_scalar(bytes) == 1);
    } else {
        let first = length_of_first_scalar(bytes);
        let rest = pop_first_scalar(bytes);
        assert(is_char_boundary(rest, i - first));
        assert(first <= i);
        assert(rest[i - first] == bytes[i]);
        lemma_ascii_boundaries(rest, i - first);
    }
}

/// The part of `text` that lies at the bytes `[lo, hi)`.
pub fn slice<'a>(text: &'a str, lo: usize, hi: usize) -> (part: &'a str)
    requires
        lo <= hi <= text.spec_bytes().len(),
        is_char_boundary(text.spec_bytes(), lo as int),
        is_char_boundary(text.spec_bytes(), hi as int),
    ensures
        part.spec_bytes() == text.spec_bytes().subrange(lo as int, hi as int),
{
    let ghost bytes = text.spec_bytes();
    proof {
        encode_utf8_valid_utf8(text@);
    }
    let (head, _) = text.split_at(hi);
    proof {
        valid_utf8_split(bytes, hi as int);
        let front = bytes.subrange(0, hi as int);
        assert(head.spec_bytes() == front);
        if lo < hi {
            is_char_boundary_iff_not_is_continuation_byte(bytes, lo as int);
            is_char_boundary_iff_not_is_continuation_byte(front, lo as int);
        } else {
            is_char_boundary_start_end_of_seq(front);
        }
    }
    let (_, part) = head.split_at(lo);
    assert(part.spec_bytes() =~= bytes.subrange(lo as int, hi as int));
    part
}

/// The part of `text` that lies at the bytes `[lo, hi)`, where those bytes
/// are ASCII: it has one character for each of them. An empty range gives the
/// empty text, wherever it lies.
pub fn slice_ascii<'a>(text: &'a str, lo: usize, hi: usize) -> (part: &'a str)
    requires
        lo <= hi <= text.spec_bytes().len(),
        is_ascii_bytes(text.spec_bytes().subrange(lo as int, hi as int)),
    ensures
        part.spec_bytes() == text.spec_bytes().subrange(lo as int, hi as int),
        part@ == ascii_text(text.spec_bytes().subrange(lo as int, hi as int)),
{
    let ghost bytes = text.spec_bytes();
    let ghost cut = bytes.subrange(lo as int, hi as int);
    proof {
        encode_utf8_valid_utf8(text@);
        lemma_ascii_decodes(cut);
        if lo < hi {
            assert(cut[0] == bytes[lo as int]);
            assert(cut[hi - lo - 1] == bytes[hi - 1]);
            lemma_ascii_boundaries(bytes, lo as int);
            lemma_ascii_boundaries(bytes, hi - 1);
        } else {
            is_char_boundary_start_end_of_seq(bytes);
        }
    }
    // An empty range may lie inside a character, where no text can be cut:
    // the empty text at the start is the same text.
    let part = if lo < hi {
        slice(text, lo, hi)
    } else {
        slice(text, 0, 0)
    };
    proof {
        assert(part.spec_bytes() =~= cut);
        encode_utf8_decode_utf8(part@);
    }
    part
}

} // verus!
