//! Dump decoding: UTF-16LE with a byte-order mark, or UTF-8.

use vstd::prelude::*;

verus! {

/// Decoding failure: the bytes are neither marked UTF-16LE nor valid
/// UTF-8.
#[derive(Debug)]
pub struct DecodeError {}

impl DecodeError {
    /// A short description of the failure.
    pub fn message(&self) -> (r: String)
        ensures
            true,
    {
        let v = crate::chars::str_to_chars("the dump is not valid UTF-8");
        crate::chars::chars_to_string(v.as_slice())
    }
}

/// What the UTF-16LE decoder returns for some bytes (byte-order mark
/// consumed, malformed units replaced): a deterministic function of the
/// bytes alone.
pub uninterp spec fn utf16le_text_of(bytes: Seq<u8>) -> Seq<char>;

/// Relies on encoding_rs's UTF_16LE decode: the text the bytes spell in
/// UTF-16 little endian, the leading byte-order mark consumed, malformed
/// units replaced; a deterministic function of the bytes.
#[verifier::external_body]
fn decode_utf16le(bytes: &Vec<u8>) -> (r: String)
    ensures
        r@ == utf16le_text_of(bytes@),
{
    encoding_rs::UTF_16LE.decode(bytes).0.into_owned()
}

/// Relies on String::from_utf8: `Ok` exactly when the bytes are the UTF-8
/// encoding of some text, and then that text.
#[verifier::external_body]
fn utf8_to_string(bytes: Vec<u8>) -> (r: Option<String>)
    ensures
        (match r {
            Some(s) => vstd::utf8::encode_utf8(s@) == bytes@,
            None => !(exists|t: Seq<char>| vstd::utf8::encode_utf8(t) == bytes@),
        }),
{
    String::from_utf8(bytes).ok()
}

/// Decode a dump: bytes opening with `FF FE` are read as UTF-16 little
/// endian with the mark consumed; anything else must be valid UTF-8.
pub fn decode_dump(raw: Vec<u8>) -> (r: Result<String, DecodeError>)
    ensures
        (match r {
            Ok(s) => if raw@.len() >= 2 && raw@[0] == 0xffu8 && raw@[1] == 0xfeu8 {
                s@ == utf16le_text_of(raw@)
            } else {
                vstd::utf8::encode_utf8(s@) == raw@
            },
            Err(_) => !(raw@.len() >= 2 && raw@[0] == 0xffu8 && raw@[1] == 0xfeu8) && !(
            exists|t: Seq<char>| vstd::utf8::encode_utf8(t) == raw@),
        }),
{
    if raw.len() >= 2 && raw[0] == 0xff && raw[1] == 0xfe {
        return Ok(decode_utf16le(&raw));
    }
    match utf8_to_string(raw) {
        Some(s) => Ok(s),
        None => Err(DecodeError {}),
    }
}

} // verus!
