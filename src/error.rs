//! The library's error type.
use vstd::prelude::*;

verus! {

#[verifier::external_type_specification]
#[verifier::external_body]
pub struct ExErrorStack(openssl::error::ErrorStack);

#[verifier::external_type_specification]
#[verifier::external_body]
pub struct ExDecodeError(base64::DecodeError);

#[verifier::external_type_specification]
#[verifier::external_body]
pub struct ExFromUtf8Error(std::string::FromUtf8Error);

/// General error type.
#[derive(Debug)]
pub enum Error {
    /// A mandatory field of the `Signature:` header is missing.
    MissingField(&'static str),
    /// The `Signature:` header is missing.
    SignatureHeaderMissing,
    /// A header value holds bytes that are not visible ASCII.
    HeaderValue,
    /// The serialized `Signature:` header cannot be used as a header value.
    SerializeHeader,
    /// The signature algorithm is not implemented.
    UnknownAlgorithm(String),
    /// The `Signature:` header does not follow its grammar.
    ParseSignatureHeader,
    /// The signature is not valid base64.
    SignatureBase64(base64::DecodeError),
    /// PEM text is longer than the cryptographic backend can take.
    PemTooLong,
    /// The cryptographic backend failed.
    OpenSsl(openssl::error::ErrorStack),
    /// Bytes that should have been UTF-8 were not.
    Utf8(std::string::FromUtf8Error),
}

} // verus!
