//! Byte-wise comparison of text.
//!
//! Keys are compared by their UTF-8 bytes. Encoding is one-to-one, so two
//! texts with the same bytes are the same text.

use vstd::prelude::*;
use vstd::utf8::{
    char_u32_cast, decode_first_scalar, encode_utf8, encode_utf8_decode_utf8,
    encode_utf8_first_scalar, length_of_first_scalar,
};

verus! {

/// Whether the UTF-8 bytes of `text` begin with those of `prefix`.
pub open spec fn starts_with(text: Seq<char>, prefix: Seq<char>) -> bool {
    encode_utf8(prefix).is_prefix_of(encode_utf8(text))
}

/// Texts with equal encodings are equal.
pub proof fn lemma_encoding_is_injective(a: Seq<char>, b: Seq<char>)
    requires
        encode_utf8(a) == encode_utf8(b),
    ensures
        a == b,
{
    encode_utf8_decode_utf8(a);
    encode_utf8_decode_utf8(b);
}

/// Every text begins with the empty text.
pub proof fn lemma_empty_prefix(text: Seq<char>)
    ensures
        starts_with(text, Seq::<char>::empty()),
{
}

/// To begin with a prefix byte for byte is to begin with it character for
/// character: no character's encoding is the start of another's.
pub proof fn lemma_starts_with_by_characters(text: Seq<char>, prefix: Seq<char>)
    ensures
        starts_with(text, prefix) == prefix.is_prefix_of(text),
    decreases prefix.len(),
{
    let outer = encode_utf8(text);
    let inner = encode_utf8(prefix);
    if prefix.len() > 0 {
        // The encoding of a text is that of its first character, then that
        // of the rest; the first byte tells how long the former is.
        encode_utf8_first_scalar(prefix);
        assert(encode_utf8(prefix.drop_first()) =~= inner.subrange(
            length_of_first_scalar(inner),
            inner.len() as int,
        ));
        if text.len() > 0 {
            encode_utf8_first_scalar(text);
            lemma_starts_with_by_characters(text.drop_first(), prefix.drop_first());
            if starts_with(text, prefix) {
                char_u32_cast(prefix[0], decode_first_scalar(inner));
                char_u32_cast(text[0], decode_first_scalar(outer));
                assert forall|i: int| 0 <= i < prefix.len() implies prefix[i] == text[i] by {
                    if i > 0 {
                        assert(prefix.drop_first()[i - 1] == text.drop_first().subrange(
                            0,
                            prefix.len() - 1,
                        )[i - 1]);
                    }
                }
            }
        }
    }
}

/// Whether `bytes` begins with `prefix`.
pub fn bytes_start_with(bytes: &[u8], prefix: &[u8]) -> (found: bool)
    ensures
        found == prefix@.is_prefix_of(bytes@),
{
    if prefix.len() > bytes.len() {
        return false;
    }
    let mut i: usize = 0;
    while i < prefix.len()
        invariant
            i <= prefix.len() <= bytes.len(),
            forall|j: int| 0 <= j < i ==> prefix@[j] == bytes@[j],
        decreases prefix.len() - i,
    {
        if prefix[i] != bytes[i] {
            return false;
        }
        i += 1;
    }
    true
}

/// Whether `text` begins with `prefix`, byte for byte.
pub fn text_starts_with(text: &str, prefix: &str) -> (found: bool)
    ensures
        found == starts_with(text@, prefix@),
{
    bytes_start_with(text.as_bytes(), prefix.as_bytes())
}

/// Whether two texts are the same.
pub fn same_text(a: &str, b: &str) -> (same: bool)
    ensures
        same == (a@ == b@),
{
    let x = a.as_bytes();
    let y = b.as_bytes();
    if x.len() != y.len() {
        return false;
    }
    let same = bytes_start_with(x, y);
    proof {
        if same {
            assert(y@ =~= x@);
            lemma_encoding_is_injective(a@, b@);
        }
    }
    same
}

} // verus!
