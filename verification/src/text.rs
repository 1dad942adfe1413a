//! Decoding of a framed command into text.
//!
//! Decoding is lossy: every byte sequence yields a text, invalid sequences
//! are replaced and never rejected.

use crate::framing::{has_delimiter, lemma_command_ends_in_second, SQL_DELIMITER};
use vstd::prelude::*;
use vstd::utf8::{decode_utf8, encode_scalar, encode_utf8, valid_utf8};

verus! {

/// What `String::from_utf8_lossy` of the standard library returns for
/// `bytes`.
pub uninterp spec fn from_utf8_lossy(bytes: Seq<u8>) -> Seq<char>;

/// The text of a command: for valid UTF-8 the characters that the bytes
/// encode, for anything else what lossy decoding makes of them.
pub open spec fn lossy_text(bytes: Seq<u8>) -> Seq<char> {
    if valid_utf8(bytes) {
        decode_utf8(bytes)
    } else {
        from_utf8_lossy(bytes)
    }
}

/// Decodes `bytes` with `String::from_utf8_lossy` of the standard library.
///
/// Trusted, not proved: the text depends on the bytes alone, and for bytes
/// that are valid UTF-8 it is the text that they encode. For other input the
/// standard library replaces each invalid sequence by U+FFFD; the contract
/// names that text and says nothing more of it.
#[verifier::external_body]
fn decode_lossy(bytes: &[u8]) -> (text: String)
    ensures
        text@ == from_utf8_lossy(bytes@),
        valid_utf8(bytes@) ==> text@ == decode_utf8(bytes@),
{
    String::from_utf8_lossy(bytes).into_owned()
}

/// Decodes a command as text. Never fails: bytes that are not valid UTF-8
/// are replaced, not rejected.
pub fn decode_command(bytes: &[u8]) -> (text: String)
    ensures
        text@ == lossy_text(bytes@),
{
    decode_lossy(bytes)
}

/// Text that was sent as UTF-8 is decoded to itself.
pub proof fn lemma_encoded_text_decodes(text: Seq<char>)
    ensures
        lossy_text(encode_utf8(text)) == text,
{
    vstd::utf8::encode_utf8_valid_utf8(text);
    vstd::utf8::encode_utf8_decode_utf8(text);
}

/// A byte with its top bit set is not the delimiter.
proof fn lemma_high_bytes_differ(low: u8)
    by (bit_vector)
    ensures
        0x80u8 | low != 0x3Bu8,
        0xC0u8 | low != 0x3Bu8,
        0xE0u8 | low != 0x3Bu8,
        0xF0u8 | low != 0x3Bu8,
{
}

/// A scalar below 128 is encoded as the byte of the same value.
proof fn lemma_low_scalar_byte(scalar: u32)
    by (bit_vector)
    requires
        scalar <= 0x7F,
    ensures
        (scalar & 0x7F) as u8 == scalar,
{
}

/// The encoding of one character holds the delimiter byte only where the
/// character is the semicolon, and then it is that byte alone.
pub proof fn lemma_scalar_delimiter(c: char)
    ensures
        c == ';' ==> encode_scalar(c as u32) == seq![SQL_DELIMITER],
        c != ';' ==> !has_delimiter(encode_scalar(c as u32)),
{
    let scalar = c as u32;
    let bytes = encode_scalar(scalar);
    vstd::utf8::char_is_scalar(c);
    if scalar <= 0x7F {
        lemma_low_scalar_byte(scalar);
        assert(bytes =~= seq![scalar as u8]);
        if c != ';' {
            assert(!has_delimiter(bytes)) by {
                if has_delimiter(bytes) {
                    let i = choose|i: int| 0 <= i < bytes.len() && bytes[i] == SQL_DELIMITER;
                    assert(bytes[i] == scalar as u8);
                }
            }
        }
    } else {
        lemma_high_bytes_differ(((scalar >> 6) & 0x1F) as u8);
        lemma_high_bytes_differ(((scalar >> 12) & 0x0F) as u8);
        lemma_high_bytes_differ(((scalar >> 18) & 0x7) as u8);
        lemma_high_bytes_differ((scalar & 0x3F) as u8);
        lemma_high_bytes_differ(((scalar >> 6) & 0x3F) as u8);
        lemma_high_bytes_differ(((scalar >> 12) & 0x3F) as u8);
        assert(!has_delimiter(bytes)) by {
            if has_delimiter(bytes) {
                let i = choose|i: int| 0 <= i < bytes.len() && bytes[i] == SQL_DELIMITER;
                assert(bytes[i] != SQL_DELIMITER);
            }
        }
    }
}

/// Text without a semicolon is encoded without a delimiter byte: no byte of
/// a longer encoding can be mistaken for the delimiter.
pub proof fn lemma_encoding_without_delimiter(text: Seq<char>)
    requires
        !text.contains(';'),
    ensures
        !has_delimiter(encode_utf8(text)),
    decreases text.len(),
{
    if text.len() > 0 {
        let rest = text.drop_first();
        assert(text[0] != ';') by {
            if text[0] == ';' {
                assert(text.contains(';'));
            }
        }
        assert(!rest.contains(';')) by {
            if rest.contains(';') {
                let i = choose|i: int| 0 <= i < rest.len() && rest[i] == ';';
                assert(text[i + 1] == ';');
                assert(text.contains(';'));
            }
        }
        lemma_scalar_delimiter(text[0]);
        lemma_encoding_without_delimiter(rest);
        lemma_command_ends_in_second(encode_scalar(text[0] as u32), encode_utf8(rest));
    } else {
        assert(encode_utf8(text) =~= Seq::<u8>::empty());
    }
}

/// The encoding of two texts in a row is the encoding of the first followed
/// by that of the second.
pub proof fn lemma_encoding_concat(first: Seq<char>, second: Seq<char>)
    ensures
        encode_utf8(first + second) == encode_utf8(first) + encode_utf8(second),
    decreases first.len(),
{
    if first.len() == 0 {
        assert(first + second =~= second);
        assert(encode_utf8(first) =~= Seq::<u8>::empty());
        assert(encode_utf8(first) + encode_utf8(second) =~= encode_utf8(second));
    } else {
        let head = encode_scalar(first[0] as u32);
        assert((first + second).drop_first() =~= first.drop_first() + second);
        assert((first + second)[0] == first[0]);
        lemma_encoding_concat(first.drop_first(), second);
        assert(head + (encode_utf8(first.drop_first()) + encode_utf8(second)) =~= (head
            + encode_utf8(first.drop_first())) + encode_utf8(second));
    }
}

/// The encoding of a semicolon is the delimiter byte.
pub proof fn lemma_semicolon_is_delimiter()
    ensures
        encode_utf8(seq![';']) == seq![SQL_DELIMITER],
{
    lemma_scalar_delimiter(';');
    assert(seq![';'].drop_first() =~= Seq::<char>::empty());
    assert(encode_utf8(Seq::<char>::empty()) =~= Seq::<u8>::empty());
    assert(encode_utf8(seq![';']) =~= encode_scalar(';' as u32));
}

} // verus!
