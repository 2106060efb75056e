//! Turning the salt's text into the bytes that are hashed.
use vstd::prelude::*;
use vstd::utf8::encode_utf8;
use crate::primitives::{hex_bytes, hex_decode, is_hex_text};

verus! {

/// The salt bytes for a salt text: none for empty text, the decoded bytes for
/// hexadecimal text, and otherwise the text's own UTF-8 bytes.
pub open spec fn salt_bytes_of(salt: Seq<char>) -> Seq<u8> {
    if salt.len() == 0 {
        Seq::empty()
    } else if is_hex_text(salt) {
        hex_bytes(salt)
    } else {
        encode_utf8(salt)
    }
}

/// A decoded salt, and whether the text was not hexadecimal and was taken literally.
pub struct ParsedSalt {
    pub bytes: Vec<u8>,
    pub literal_fallback: bool,
}

/// Decodes a salt given as hexadecimal text; text that is not hexadecimal is
/// used as it stands (and flagged so that the caller can warn).
pub fn parse_salt(salt: &str) -> (r: ParsedSalt)
    ensures
        r.bytes@ == salt_bytes_of(salt@),
        r.literal_fallback == (salt@.len() > 0 && !is_hex_text(salt@)),
{
    if salt.is_empty() {
        return ParsedSalt { bytes: Vec::new(), literal_fallback: false };
    }
    match hex_decode(salt) {
        Some(bytes) => ParsedSalt { bytes, literal_fallback: false },
        None => {
            let raw = salt.as_bytes();
            let mut bytes: Vec<u8> = Vec::new();
            let mut i: usize = 0;
            while i < raw.len()
                invariant
                    i <= raw@.len(),
                    bytes@ == raw@.subrange(0, i as int),
                decreases raw@.len() - i,
            {
                bytes.push(raw[i]);
                i += 1;
                proof {
                    assert(bytes@ =~= raw@.subrange(0, i as int));
                }
            }
            proof {
                assert(raw@.subrange(0, raw@.len() as int) =~= raw@);
            }
            ParsedSalt { bytes, literal_fallback: true }
        },
    }
}

} // verus!
