//! Keys for signing and verification, serializable from and to PEM.
use vstd::prelude::*;
use vstd::utf8::{decode_utf8, valid_utf8};
use openssl::pkey::{PKey, Private, Public};
use crate::error::Error;

verus! {

#[verifier::external_type_specification]
#[verifier::external_body]
#[verifier::reject_recursive_types(T)]
pub struct ExPKey<T>(PKey<T>);

#[verifier::external_type_specification]
#[verifier::external_body]
pub struct ExPrivate(Private);

#[verifier::external_type_specification]
#[verifier::external_body]
pub struct ExPublic(Public);

/// Relies on openssl's `Clone` for PKey, which shares the key by reference
/// count; nothing is stated of the copy.
pub assume_specification<T>[ <PKey<T> as Clone>::clone ](k: &PKey<T>) -> PKey<T>;

/// Relies on String::from_utf8: it succeeds exactly on valid UTF-8, and the
/// string then holds the decoded characters.
#[verifier::external_body]
pub(crate) fn string_from_utf8(b: Vec<u8>) -> (r: Result<String, std::string::FromUtf8Error>)
    ensures
        (r is Ok) == valid_utf8(b@),
        r matches Ok(s) ==> s@ == decode_utf8(b@),
{
    String::from_utf8(b)
}

/// The longest PEM text that OpenSSL takes: its buffer length is a C `int`.
pub const PEM_MAX_LEN: usize = 0x7fff_ffff;

/// Relies on openssl's PKey::private_key_from_pem: decodes a private key.
/// It panics on a buffer longer than a C `int` can count.
#[verifier::external_body]
fn private_key_from_pem(pem: &[u8]) -> (r: Result<PKey<Private>, openssl::error::ErrorStack>)
    requires
        pem@.len() <= PEM_MAX_LEN,
{
    PKey::private_key_from_pem(pem)
}

/// Relies on openssl's PKey::public_key_from_pem: decodes a public key.
/// It panics on a buffer longer than a C `int` can count.
#[verifier::external_body]
fn public_key_from_pem(pem: &[u8]) -> (r: Result<PKey<Public>, openssl::error::ErrorStack>)
    requires
        pem@.len() <= PEM_MAX_LEN,
{
    PKey::public_key_from_pem(pem)
}

/// Relies on openssl's PKey::private_key_to_pem_pkcs8: encodes a private key.
#[verifier::external_body]
fn private_key_to_pem(k: &PKey<Private>) -> (r: Result<Vec<u8>, openssl::error::ErrorStack>) {
    k.private_key_to_pem_pkcs8()
}

/// Relies on openssl's PKey::public_key_to_pem: encodes a public key.
#[verifier::external_body]
fn public_key_to_pem(k: &PKey<Public>) -> (r: Result<Vec<u8>, openssl::error::ErrorStack>) {
    k.public_key_to_pem()
}

/// Bytes of PEM text as a string: the OpenSSL error, or the UTF-8 error.
fn pem_text(r: Result<Vec<u8>, openssl::error::ErrorStack>) -> (s: Result<String, Error>)
    ensures
        r is Err ==> s matches Err(Error::OpenSsl(_)),
        r matches Ok(b) ==> (valid_utf8(b@) ==> (s matches Ok(t) && t@ == decode_utf8(b@))),
        r matches Ok(b) ==> (!valid_utf8(b@) ==> s matches Err(Error::Utf8(_))),
{
    match r {
        Err(e) => Err(Error::OpenSsl(e)),
        Ok(bytes) => match string_from_utf8(bytes) {
            Ok(t) => Ok(t),
            Err(e) => Err(Error::Utf8(e)),
        },
    }
}

/// Key that is serializable from/to PEM.
pub trait Key: Sized {
    /// Deserialize from PEM.
    fn from_pem(pem: &[u8]) -> (r: Result<Self, Error>)
        requires
            pem@.len() <= PEM_MAX_LEN,
        ensures
            r is Err ==> r matches Err(Error::OpenSsl(_)),
    ;

    /// Serialize to PEM.
    fn to_pem(&self) -> (r: Result<String, Error>)
        ensures
            r is Err ==> (r matches Err(Error::OpenSsl(_)) || r matches Err(Error::Utf8(_))),
    ;
}

/// Deserialize a key from PEM: `PemTooLong` exactly where the text is longer
/// than OpenSSL takes, else what [`Key::from_pem`] gives.
pub fn from_pem_checked<K: Key>(pem: &[u8]) -> (r: Result<K, Error>)
    ensures
        (r matches Err(Error::PemTooLong)) <==> pem@.len() > PEM_MAX_LEN,
        r is Err ==> (r matches Err(Error::OpenSsl(_)) || r matches Err(Error::PemTooLong)),
{
    if pem.len() > PEM_MAX_LEN {
        return Err(Error::PemTooLong);
    }
    K::from_pem(pem)
}

/// A private key for signing.
#[derive(Debug, Clone)]
pub struct PrivateKey(pub PKey<Private>);

/// A public key for verification.
#[derive(Debug, Clone)]
pub struct PublicKey(pub PKey<Public>);

impl Key for PrivateKey {
    fn from_pem(pem: &[u8]) -> (r: Result<Self, Error>) {
        match private_key_from_pem(pem) {
            Ok(k) => Ok(PrivateKey(k)),
            Err(e) => Err(Error::OpenSsl(e)),
        }
    }

    fn to_pem(&self) -> (r: Result<String, Error>) {
        pem_text(private_key_to_pem(&self.0))
    }
}

impl Key for PublicKey {
    fn from_pem(pem: &[u8]) -> (r: Result<Self, Error>) {
        match public_key_from_pem(pem) {
            Ok(k) => Ok(PublicKey(k)),
            Err(e) => Err(Error::OpenSsl(e)),
        }
    }

    fn to_pem(&self) -> (r: Result<String, Error>) {
        pem_text(public_key_to_pem(&self.0))
    }
}

} // verus!
