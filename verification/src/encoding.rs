//! Facts about the UTF-8 encoding of text, as far as splitting a frame needs them.
//!
//! A `&str` is seen by its characters, while the machine holds its bytes. The
//! lemmas here carry a statement about the bytes of a text over to its characters.

use vstd::prelude::*;
use vstd::utf8::*;

verus! {

/// The encoding of two texts written one after the other is the encoding of
/// the first followed by the encoding of the second.
pub proof fn lemma_encode_concat(a: Seq<char>, b: Seq<char>)
    ensures
        encode_utf8(a + b) == encode_utf8(a) + encode_utf8(b),
    decreases a.len(),
{
    if a.len() > 0 {
        lemma_encode_concat(a.drop_first(), b);
        assert((a + b).drop_first() =~= a.drop_first() + b);
    }
}

/// Two texts with the same encoding are the same text.
pub proof fn lemma_encode_injective(a: Seq<char>, b: Seq<char>)
    requires
        encode_utf8(a) == encode_utf8(b),
    ensures
        a == b,
{
    encode_utf8_decode_utf8(a);
    encode_utf8_decode_utf8(b);
}

/// A character's code is the same number whether it is taken as a `u32` or
/// as an integer.
proof fn lemma_char_code(c: char)
    ensures
        c as u32 as int == c as int,
        is_scalar(c as u32),
{
}

/// A text begins with an ASCII byte exactly when it begins with an ASCII
/// character, and then the byte is that character's code.
pub proof fn lemma_first_byte(text: Seq<char>)
    requires
        text.len() > 0,
    ensures
        encode_utf8(text).len() > 0,
        encode_utf8(text)[0] <= 0x7f <==> text[0] as int <= 0x7f,
        text[0] as int <= 0x7f ==> encode_utf8(text)[0] as int == text[0] as int,
{
    let c = text[0] as u32;
    lemma_char_code(text[0]);
    if has_width_1_encoding(c) {
        assert(leading_byte_width_1(c) as u32 == c) by (bit_vector)
            requires
                has_width_1_encoding(c),
        ;
    } else if has_width_2_encoding(c) {
        assert(leading_byte_width_2(c) >= 0xc0) by (bit_vector);
    } else if has_width_3_encoding(c) {
        assert(leading_byte_width_3(c) >= 0xe0) by (bit_vector);
    } else {
        assert(leading_byte_width_4(c) >= 0xf0) by (bit_vector);
    }
}

/// The byte offsets at which the prefixes of a text end grow with the prefixes.
pub proof fn lemma_prefix_offsets_grow(text: Seq<char>, shorter: int, longer: int)
    requires
        0 <= shorter < longer <= text.len(),
    ensures
        encode_utf8(text.take(shorter)).len() < encode_utf8(text.take(longer)).len(),
{
    let between = text.subrange(shorter, longer);
    assert(text.take(longer) =~= text.take(shorter) + between);
    lemma_encode_concat(text.take(shorter), between);
}

/// A text whose bytes are cut in two at `mid`, each part being the bytes of
/// a text, is those two texts one after the other.
pub proof fn lemma_cut_bytes(whole: Seq<char>, left: Seq<char>, right: Seq<char>, mid: int)
    requires
        0 <= mid <= encode_utf8(whole).len(),
        encode_utf8(left) == encode_utf8(whole).subrange(0, mid),
        encode_utf8(right) == encode_utf8(whole).subrange(mid, encode_utf8(whole).len() as int),
    ensures
        whole == left + right,
{
    lemma_encode_concat(left, right);
    assert(encode_utf8(left) + encode_utf8(right) =~= encode_utf8(whole));
    lemma_encode_injective(left + right, whole);
}

/// In well-formed UTF-8 that begins with `count` ASCII bytes, a character
/// ends after each of them.
pub proof fn lemma_boundary_after_ascii(bytes: Seq<u8>, count: int)
    requires
        valid_utf8(bytes),
        0 <= count <= bytes.len(),
        forall|i: int| 0 <= i < count ==> bytes[i] <= 0x7f,
    ensures
        is_char_boundary(bytes, count),
    decreases count,
{
    if count > 0 {
        let rest = pop_first_scalar(bytes);
        assert forall|i: int| 0 <= i < count - 1 implies rest[i] <= 0x7f by {
            assert(rest[i] == bytes[i + 1]);
        }
        lemma_boundary_after_ascii(rest, count - 1);
    }
}

} // verus!
