use vstd::prelude::*;
use vstd::utf8::{encode_utf8, valid_utf8};

use base64::Engine;

verus! {

/// What the standard base64 engine of the `base64` crate (alphabet
/// `A-Z a-z 0-9 + /`, `=` padding required and canonical) decodes `input`
/// to, or `None` where it reports a decoding error.
pub uninterp spec fn base64_standard_decode(input: Seq<u8>) -> Option<Seq<u8>>;

/// Decodes `input` with `base64::engine::general_purpose::STANDARD`
/// (`Engine::decode`, base64 0.21).
///
/// Trusted: the result is claimed to be the value named by
/// `base64_standard_decode` on the input bytes, so that equal inputs decode
/// equally; the decoding rules themselves are left to the crate.
#[verifier::external_body]
pub(crate) fn decode_standard_base64(input: &[u8]) -> (decoded: Option<Vec<u8>>)
    ensures
        match decoded {
            Some(bytes) => base64_standard_decode(input@) == Some(bytes@),
            None => base64_standard_decode(input@) is None,
        },
{
    base64::engine::general_purpose::STANDARD.decode(input).ok()
}

/// Turns `bytes` into a `String` with `String::from_utf8`.
///
/// Trusted: as std documents, the call succeeds exactly when the bytes are
/// valid UTF-8, and the string then holds those very bytes (vstd's model of
/// UTF-8 states both).
#[verifier::external_body]
pub(crate) fn string_from_utf8(bytes: Vec<u8>) -> (text: Option<String>)
    ensures
        text is Some <==> valid_utf8(bytes@),
        text matches Some(s) ==> encode_utf8(s@) == bytes@,
{
    String::from_utf8(bytes).ok()
}

} // verus!
