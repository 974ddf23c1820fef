//! Strict UTF-8 decoding of a message buffer.
//!
//! The decoding itself is done by the `encoding` crate. What it computes is
//! stated over `vstd::utf8`, the definition of UTF-8 that the views of `str`
//! and `String` are built on.
use encoding::all::UTF_8;
use encoding::{DecoderTrap, Encoding};
use std::borrow::Cow;
use vstd::prelude::*;
use vstd::utf8::{decode_utf8, valid_utf8};

verus! {

/// Why a buffer could not be read as text.
#[derive(Debug, Clone, Copy, PartialEq, Eq, Structural)]
pub enum DecodeError {
    /// The bytes are not well-formed UTF-8. Nothing is replaced or skipped:
    /// one malformed sequence anywhere in the buffer rejects all of it.
    InvalidUtf8,
}

/// The text that a buffer holds, or the reason why it holds none.
pub open spec fn decode_text_spec(bytes: Seq<u8>) -> Result<Seq<char>, DecodeError> {
    if valid_utf8(bytes) {
        Ok(decode_utf8(bytes))
    } else {
        Err(DecodeError::InvalidUtf8)
    }
}

/// Calls `encoding::Encoding::decode` on `encoding::all::UTF_8` with
/// `DecoderTrap::Strict`.
///
/// Trusted, not proved: the call succeeds exactly on well-formed UTF-8
/// (no overlong form, no surrogate, nothing above U+10FFFF, no sequence cut
/// short at the end), and the string it then returns consists of the input
/// bytes unchanged, so its characters are those that the bytes encode. No
/// byte order mark is looked for or removed.
#[verifier::external_body]
fn utf8_decode_strict(bytes: &[u8]) -> (r: Result<String, Cow<'static, str>>)
    ensures
        r is Ok <==> valid_utf8(bytes@),
        r matches Ok(text) ==> text@ == decode_utf8(bytes@),
{
    UTF_8.decode(bytes, DecoderTrap::Strict)
}

/// Decodes `bytes` as UTF-8 text, strictly.
pub fn decode_text(bytes: &[u8]) -> (r: Result<String, DecodeError>)
    ensures
        match r {
            Ok(text) => decode_text_spec(bytes@) == Ok::<Seq<char>, DecodeError>(text@),
            Err(e) => decode_text_spec(bytes@) == Err::<Seq<char>, DecodeError>(e),
        },
{
    match utf8_decode_strict(bytes) {
        Ok(text) => Ok(text),
        Err(_) => Err(DecodeError::InvalidUtf8),
    }
}

} // verus!
