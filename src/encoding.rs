//! Base64, the encoding of the signature bytes in the header.
use vstd::prelude::*;

verus! {

/// What `base64::encode` makes of the bytes `b`.
pub uninterp spec fn base64_encoded(b: Seq<u8>) -> Seq<char>;

/// What `base64::decode` makes of the text `s`: `None` where it refuses it.
pub uninterp spec fn base64_decoded(s: Seq<char>) -> Option<Seq<u8>>;

/// A character of base64's standard alphabet, or its padding `=`.
pub open spec fn is_base64_char(c: char) -> bool {
    let u = c as u32;
    (48 <= u <= 57) || (65 <= u <= 90) || (97 <= u <= 122) || c == '+' || c == '/' || c == '='
}

/// Relies on base64::encode (standard alphabet, padded): the text depends on
/// the bytes alone, is made of the alphabet's characters and `=`, and
/// base64::decode gives the bytes back (the crate's round trip).
#[verifier::external_body]
pub(crate) fn encode_base64(b: &[u8]) -> (r: String)
    ensures
        r@ == base64_encoded(b@),
        base64_decoded(r@) == Some(b@),
        forall|i: int| 0 <= i < r@.len() ==> is_base64_char(#[trigger] r@[i]),
{
    base64::encode(b)
}

/// Relies on base64::decode (standard alphabet, padded): whether it succeeds,
/// and the bytes, depend on the text alone.
#[verifier::external_body]
pub(crate) fn decode_base64(s: &str) -> (r: Result<Vec<u8>, base64::DecodeError>)
    ensures
        match base64_decoded(s@) {
            Some(b) => r matches Ok(v) && v@ == b,
            None => r is Err,
        },
{
    base64::decode(s)
}

} // verus!
