//! Text and its UTF-8 bytes.

use vstd::prelude::*;
#[allow(unused_imports)]
use vstd::utf8::{
    codepoint_width_2, codepoint_width_3, codepoint_width_4, decode_utf8, encode_utf8,
    length_of_first_scalar, pop_first_scalar, valid_first_scalar, valid_utf8,
};

verus! {

/// `String::from_utf8` gives back the text whose UTF-8 bytes it was handed, and
/// fails exactly on bytes that are no valid UTF-8.
#[verifier::external_body]
pub(crate) fn string_from_utf8(bytes: Vec<u8>) -> (r: Option<String>)
    ensures
        r is Some <==> valid_utf8(bytes@),
        r matches Some(text) ==> text@ == decode_utf8(bytes@),
{
    String::from_utf8(bytes).ok()
}

/// The bytes of two texts in a row are the bytes of each in a row.
pub proof fn encode_utf8_concat(a: Seq<char>, b: Seq<char>)
    ensures
        encode_utf8(a + b) == encode_utf8(a) + encode_utf8(b),
    decreases a.len(),
{
    if a.len() == 0 {
        assert(a + b =~= b);
        assert(encode_utf8(a) + encode_utf8(b) =~= encode_utf8(b));
    } else {
        encode_utf8_concat(a.drop_first(), b);
        assert((a + b).drop_first() =~= a.drop_first() + b);
        assert(encode_utf8(a + b) =~= encode_utf8(a) + encode_utf8(b));
    }
}

/// `bytes` with the last one raised by one.
pub open spec fn raised(bytes: Seq<u8>) -> Seq<u8> {
    bytes.drop_last().push((bytes.last() + 1) as u8)
}

/// The last byte of a text is below 0xc0, and the bytes with the last one
/// raised are a text again unless it is the last ASCII character, 0x7f, or the
/// last continuation byte, 0xbf.
pub proof fn raised_text_is_text(bytes: Seq<u8>)
    requires
        valid_utf8(bytes),
        bytes.len() > 0,
    ensures
        bytes.last() < 0xc0,
        valid_utf8(raised(bytes)) <==> bytes.last() != 0x7f && bytes.last() != 0xbf,
    decreases bytes.len(),
{
    let up = raised(bytes);
    let len = length_of_first_scalar(bytes);
    if len < bytes.len() {
        let rest = pop_first_scalar(bytes);
        raised_text_is_text(rest);
        assert(rest.last() == bytes.last());
        assert(forall|i: int| 0 <= i < len ==> up[i] == bytes[i]);
        assert(up.subrange(len, up.len() as int) =~= raised(rest));
        assert(valid_first_scalar(up) && pop_first_scalar(up) == raised(rest));
    } else {
        lemma_raised_scalar(bytes);
    }
}

/// The case of a text of one character.
proof fn lemma_raised_scalar(bytes: Seq<u8>)
    requires
        valid_first_scalar(bytes),
        length_of_first_scalar(bytes) == bytes.len(),
    ensures
        bytes.last() < 0xc0,
        valid_utf8(raised(bytes)) <==> bytes.last() != 0x7f && bytes.last() != 0xbf,
{
    let up = raised(bytes);
    let a = bytes[0];
    let z = bytes.last();
    let y = (z + 1) as u8;
    assert(up.last() == y);
    if z != 0x7f && z != 0xbf {
        if bytes.len() == 1 {
            assert(y == z + 1);
            assert((y & 0x7f) as u32 <= 0x7f) by (bit_vector);
        } else if bytes.len() == 2 {
            let low = codepoint_width_2(a, z);
            let high = codepoint_width_2(a, y);
            assert(high == low + 1 && high < 0x800) by (bit_vector)
                requires
                    low == (((a & 0x1F) as u32) << 6) | ((z & 0x3f) as u32),
                    high == (((a & 0x1F) as u32) << 6) | ((y & 0x3f) as u32),
                    0x80 <= z < 0xbf,
                    y == z + 1,
            ;
        } else if bytes.len() == 3 {
            let b = bytes[1];
            assert(up[1] == b);
            let low = codepoint_width_3(a, b, z);
            let high = codepoint_width_3(a, b, y);
            assert(high == low + 1 && low != 0xD7FF) by (bit_vector)
                requires
                    low == (((a & 0x0F) as u32) << 12) | (((b & 0x3f) as u32) << 6) | ((z
                        & 0x3f) as u32),
                    high == (((a & 0x0F) as u32) << 12) | (((b & 0x3f) as u32) << 6) | ((y
                        & 0x3f) as u32),
                    0x80 <= z < 0xbf,
                    y == z + 1,
            ;
        } else {
            let b = bytes[1];
            let c = bytes[2];
            assert(up[1] == b && up[2] == c);
            let low = codepoint_width_4(a, b, c, z);
            let high = codepoint_width_4(a, b, c, y);
            assert(high == low + 1 && low != 0x10FFFF) by (bit_vector)
                requires
                    low == (((a & 0x07) as u32) << 18) | (((b & 0x3f) as u32) << 12) | (((c
                        & 0x3f) as u32) << 6) | ((z & 0x3f) as u32),
                    high == (((a & 0x07) as u32) << 18) | (((b & 0x3f) as u32) << 12) | (((c
                        & 0x3f) as u32) << 6) | ((y & 0x3f) as u32),
                    0x80 <= z < 0xbf,
                    y == z + 1,
            ;
        }
        assert(valid_first_scalar(up));
        assert(pop_first_scalar(up).len() == 0);
        assert(valid_utf8(pop_first_scalar(up)));
    }
}

/// An ASCII character is its own single byte.
pub(crate) proof fn lemma_encode_ascii(c: char)
    requires
        '\0' <= c <= '\u{7f}',
    ensures
        encode_utf8(seq![c]) == seq![c as u8],
{
    let s = seq![c];
    assert(vstd::utf8::is_ascii_chars(s));
    vstd::utf8::is_ascii_chars_encode_utf8(s);
    assert(encode_utf8(s) =~= seq![c as u8]) by {
        assert(s[0] as u8 == encode_utf8(s)[0]);
    }
}

} // verus!
