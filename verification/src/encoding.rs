//! Where newlines stand in the UTF-8 encoding of a text.
//!
//! A newline is encoded as the single byte `0x0A`, and a text whose encoding
//! begins with that byte begins with a newline. A text can therefore be cut
//! at its first newline by looking at its bytes, without decoding it.

use vstd::prelude::*;
use vstd::utf8::*;

verus! {

/// The byte that encodes the newline character.
pub const NEWLINE: u8 = 0x0A;

/// The encoding of the newline character is the one byte `NEWLINE`.
pub proof fn lemma_newline_encoding()
    ensures
        encode_scalar('\n' as u32) == seq![NEWLINE],
{
    assert('\n' as u32 == 0x0Au32);
    assert((0x0Au32 & 0x7F) as u8 == 0x0Au8) by (bit_vector);
}

/// Every character takes at least one byte.
pub proof fn lemma_encoded_len(chars: Seq<char>)
    ensures
        encode_utf8(chars).len() >= chars.len(),
    decreases chars.len(),
{
    if chars.len() > 0 {
        lemma_encoded_len(chars.drop_first());
    }
}

/// A text that holds a newline has the byte `NEWLINE` in its encoding.
pub proof fn lemma_newline_is_encoded(chars: Seq<char>, at: int)
    requires
        0 <= at < chars.len(),
        chars[at] == '\n',
    ensures
        exists|j: int| 0 <= j < encode_utf8(chars).len() && encode_utf8(chars)[j] == NEWLINE,
    decreases chars.len(),
{
    let first = encode_scalar(chars[0] as u32);
    let rest = chars.drop_first();
    if at == 0 {
        lemma_newline_encoding();
        assert(encode_utf8(chars)[0] == NEWLINE);
    } else {
        assert(rest[at - 1] == '\n');
        lemma_newline_is_encoded(rest, at - 1);
        let j = choose|j: int| 0 <= j < encode_utf8(rest).len() && encode_utf8(rest)[j] == NEWLINE;
        assert(encode_utf8(chars)[first.len() + j] == NEWLINE);
    }
}

/// A text whose encoding begins with the byte `NEWLINE` begins with a
/// newline.
pub proof fn lemma_leading_newline(chars: Seq<char>)
    requires
        encode_utf8(chars).len() > 0,
        encode_utf8(chars)[0] == NEWLINE,
    ensures
        chars.len() > 0,
        chars[0] == '\n',
{
    encode_utf8_first_scalar(chars);
    let scalar = decode_first_scalar(encode_utf8(chars));
    assert(scalar == 0x0Au32) by {
        assert((0x0Au8 & 0x7F) as u32 == 0x0Au32) by (bit_vector);
    }
    char_u32_cast(chars[0], scalar);
    assert(0x0Au32 as char == '\n');
}

} // verus!
