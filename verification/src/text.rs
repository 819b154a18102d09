//! Null-terminated text fields: the bytes up to the first zero byte, read as
//! UTF-8. The whole field, padding included, has to be valid UTF-8.

use vstd::prelude::*;
use vstd::string::StringSliceAdditionalSpecFns;
use vstd::utf8::*;
use crate::error::DecodeError;

verus! {

/// The index of the first zero byte of `b`, or its length if it has none.
pub open spec fn text_end(b: Seq<u8>) -> int
    decreases b.len(),
{
    if b.len() == 0 || b[0] == 0 {
        0
    } else {
        1 + text_end(b.skip(1))
    }
}

/// `k` is where the text in `b` ends: no zero byte before it, and a zero
/// byte or the end of `b` at it.
pub open spec fn ends_text_at(b: Seq<u8>, k: int) -> bool {
    &&& 0 <= k <= b.len()
    &&& forall|i: int| 0 <= i < k ==> b[i] != 0
    &&& k < b.len() ==> b[k] == 0
}

/// The text that a field holds: its bytes before the first zero byte, decoded.
pub open spec fn text_of(b: Seq<u8>) -> Seq<char> {
    decode_utf8(b.take(text_end(b)))
}

/// `text_end` is the one index that ends the text.
pub proof fn lemma_text_end(b: Seq<u8>)
    ensures
        ends_text_at(b, text_end(b)),
        forall|k: int| ends_text_at(b, k) ==> k == text_end(b),
    decreases b.len(),
{
    if b.len() == 0 || b[0] == 0 {
        assert forall|k: int| ends_text_at(b, k) implies k == 0 by {
            if k > 0 {
                assert(b[0] != 0);
            }
        }
    } else {
        let rest = b.skip(1);
        lemma_text_end(rest);
        let e = text_end(rest);
        assert forall|i: int| 0 <= i < 1 + e implies b[i] != 0 by {
            if i > 0 {
                assert(rest[i - 1] == b[i]);
            }
        }
        assert(1 + e < b.len() ==> b[1 + e] == rest[e]);
        assert forall|k: int| ends_text_at(b, k) implies k == 1 + e by {
            assert(k > 0);
            assert forall|i: int| 0 <= i < k - 1 implies rest[i] != 0 by {
                assert(rest[i] == b[i + 1]);
            }
            assert(k - 1 < rest.len() ==> rest[k - 1] == b[k]);
            assert(ends_text_at(rest, k - 1));
        }
    }
}

/// A valid field stays valid when it is cut at its first zero byte.
pub proof fn lemma_text_prefix_valid(b: Seq<u8>)
    requires
        valid_utf8(b),
    ensures
        is_char_boundary(b, text_end(b)),
        valid_utf8(b.take(text_end(b))),
{
    lemma_text_end(b);
    let k = text_end(b);
    if k < b.len() {
        assert(!is_continuation_byte(0u8)) by (bit_vector);
        is_char_boundary_iff_not_is_continuation_byte(b, k);
    } else {
        is_char_boundary_start_end_of_seq(b);
    }
    valid_utf8_split(b, k);
}

/// A run of zero bytes is valid UTF-8.
pub proof fn lemma_zeros_valid(padding: Seq<u8>)
    requires
        forall|i: int| 0 <= i < padding.len() ==> padding[i] == 0,
    ensures
        valid_utf8(padding),
    decreases padding.len(),
{
    if padding.len() > 0 {
        assert(padding[0] == 0u8);
        assert(is_leading_byte_width_1(0u8)) by (bit_vector);
        assert(length_of_first_scalar(padding) == 1);
        let rest = pop_first_scalar(padding);
        assert(rest =~= padding.skip(1));
        assert forall|i: int| 0 <= i < rest.len() implies rest[i] == 0 by {
            assert(rest[i] == padding[i + 1]);
        }
        lemma_zeros_valid(rest);
        assert(valid_first_scalar(padding));
    }
}

/// Padding is discarded: text without a zero byte, followed by padding that
/// starts with a zero byte, decodes to that text; and where the text is
/// valid UTF-8 and the padding is all zero, the padded field is valid too.
pub proof fn lemma_padding_discarded(text: Seq<u8>, padding: Seq<u8>)
    requires
        forall|i: int| 0 <= i < text.len() ==> text[i] != 0,
        padding.len() > 0,
        padding[0] == 0,
    ensures
        text_end(text + padding) == text.len(),
        text_of(text + padding) == decode_utf8(text),
        valid_utf8(text) && (forall|i: int| 0 <= i < padding.len() ==> padding[i] == 0)
            ==> valid_utf8(text + padding),
{
    let field = text + padding;
    lemma_text_end(field);
    assert(ends_text_at(field, text.len() as int)) by {
        assert forall|i: int| 0 <= i < text.len() implies field[i] != 0 by {
            assert(field[i] == text[i]);
        }
        assert(field[text.len() as int] == padding[0]);
    }
    assert(field.take(text.len() as int) =~= text);
    if valid_utf8(text) && (forall|i: int| 0 <= i < padding.len() ==> padding[i] == 0) {
        lemma_zeros_valid(padding);
        valid_utf8_concat(text, padding);
    }
}

/// Text without a zero byte and without padding decodes to itself.
pub proof fn lemma_unpadded_text(text: Seq<u8>)
    requires
        forall|i: int| 0 <= i < text.len() ==> text[i] != 0,
    ensures
        text_of(text) == decode_utf8(text),
{
    lemma_text_end(text);
    assert(ends_text_at(text, text.len() as int));
    assert(text.take(text.len() as int) =~= text);
}

/// `core::str::from_utf8`: the slice as a string, with the same bytes, when
/// it is valid UTF-8, and nothing otherwise.
#[verifier::external_body]
fn utf8_str(bytes: &[u8]) -> (r: Option<&str>)
    ensures
        r is Some <==> valid_utf8(bytes@),
        r is Some ==> r->Some_0.spec_bytes() == bytes@,
{
    match core::str::from_utf8(bytes) {
        Ok(s) => Some(s),
        Err(_) => None,
    }
}

/// Finds where the text in `bytes` ends.
pub fn find_text_end(bytes: &[u8]) -> (k: usize)
    ensures
        k == text_end(bytes@),
{
    let mut i: usize = 0;
    while i < bytes.len() && bytes[i] != 0
        invariant
            i <= bytes@.len(),
            forall|j: int| 0 <= j < i ==> bytes@[j] != 0,
        decreases bytes@.len() - i,
    {
        i += 1;
    }
    proof {
        lemma_text_end(bytes@);
        assert(ends_text_at(bytes@, i as int));
    }
    i
}

/// Decodes a text field: fails when the field is not valid UTF-8, and
/// otherwise gives the text before its first zero byte.
pub fn decode_text(bytes: &[u8]) -> (r: Result<String, DecodeError>)
    ensures
        valid_utf8(bytes@) ==> r is Ok && r->Ok_0@ == text_of(bytes@),
        !valid_utf8(bytes@) ==> r is Err && r->Err_0 == DecodeError::InvalidText,
{
    match utf8_str(bytes) {
        None => Err(DecodeError::InvalidText),
        Some(whole) => {
            let k = find_text_end(bytes);
            proof {
                lemma_text_prefix_valid(bytes@);
            }
            let (head, _) = whole.split_at(k);
            proof {
                encode_utf8_decode_utf8(head@);
            }
            Ok(head.to_owned())
        },
    }
}

} // verus!
