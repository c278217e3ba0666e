//! Signature algorithms.
use vstd::prelude::*;
use openssl::error::ErrorStack;
use openssl::hash::MessageDigest;
use openssl::pkey::{PKey, Private, Public};
use openssl::rsa::Padding;
use openssl::sign::{Signer, Verifier};
use crate::error::Error;
use crate::key::{PrivateKey, PublicKey};
use crate::text::str_eq;

mod hs2019;
mod rsa_sha256;

pub use hs2019::Hs2019;
pub use rsa_sha256::RsaSha256;

verus! {

#[verifier::external_type_specification]
#[verifier::external_body]
pub struct ExMessageDigest(MessageDigest);

#[verifier::external_type_specification]
#[verifier::external_body]
pub struct ExPadding(Padding);

#[verifier::external_type_specification]
#[verifier::external_body]
pub struct ExSigner<'a>(Signer<'a>);

#[verifier::external_type_specification]
#[verifier::external_body]
pub struct ExVerifier<'a>(Verifier<'a>);

/// Relies on openssl's MessageDigest::sha256.
#[verifier::external_body]
fn sha256() -> (r: MessageDigest) {
    MessageDigest::sha256()
}

/// Relies on openssl's Padding::PKCS1, PKCS#1 v1.5 padding.
#[verifier::external_body]
fn pkcs1() -> (r: Padding) {
    Padding::PKCS1
}

/// The message digests that an algorithm may name.
#[derive(Clone, Copy, Debug, PartialEq, Eq, Structural)]
pub enum Digest {
    /// SHA-256.
    Sha256,
}

/// The RSA padding modes that an algorithm may name.
#[derive(Clone, Copy, Debug, PartialEq, Eq, Structural)]
pub enum RsaPadding {
    /// PKCS#1 v1.5 padding.
    Pkcs1,
}

/// Relies on openssl's Signer::new: a signer that hashes with `md`.
#[verifier::external_body]
fn signer_with_digest<'a>(md: MessageDigest, key: &'a PKey<Private>) -> (r: Result<
    Signer<'a>,
    ErrorStack,
>) {
    Signer::new(md, key)
}

/// Relies on openssl's Signer::new_without_digest: a signer for keys whose
/// algorithm fixes the digest.
#[verifier::external_body]
fn signer_without_digest<'a>(key: &'a PKey<Private>) -> (r: Result<Signer<'a>, ErrorStack>) {
    Signer::new_without_digest(key)
}

/// Relies on openssl's Signer::set_rsa_padding.
#[verifier::external_body]
fn signer_set_padding(signer: &mut Signer, padding: Padding) -> (r: Result<(), ErrorStack>) {
    signer.set_rsa_padding(padding)
}

/// Relies on openssl's Signer::len: the size of buffer that a signature needs.
#[verifier::external_body]
fn signer_len(signer: &Signer) -> (r: Result<usize, ErrorStack>) {
    signer.len()
}

/// Relies on openssl's Signer::sign_oneshot: signs `data` into `buf`, whose
/// length a slice cannot change, and returns the length written.
#[verifier::external_body]
fn signer_sign_oneshot(signer: &mut Signer, buf: &mut Vec<u8>, data: &[u8]) -> (r: Result<
    usize,
    ErrorStack,
>)
    ensures
        final(buf)@.len() == old(buf)@.len(),
{
    signer.sign_oneshot(buf.as_mut_slice(), data)
}

/// Relies on openssl's Verifier::new: a verifier that hashes with `md`.
#[verifier::external_body]
fn verifier_with_digest<'a>(md: MessageDigest, key: &'a PKey<Public>) -> (r: Result<
    Verifier<'a>,
    ErrorStack,
>) {
    Verifier::new(md, key)
}

/// Relies on openssl's Verifier::new_without_digest: a verifier for keys
/// whose algorithm fixes the digest.
#[verifier::external_body]
fn verifier_without_digest<'a>(key: &'a PKey<Public>) -> (r: Result<Verifier<'a>, ErrorStack>) {
    Verifier::new_without_digest(key)
}

/// Relies on openssl's Verifier::set_rsa_padding.
#[verifier::external_body]
fn verifier_set_padding(verifier: &mut Verifier, padding: Padding) -> (r: Result<(), ErrorStack>) {
    verifier.set_rsa_padding(padding)
}

/// Relies on openssl's Verifier::verify_oneshot: whether `signature` is
/// valid for `data`.
#[verifier::external_body]
fn verifier_verify_oneshot(verifier: &mut Verifier, signature: &[u8], data: &[u8]) -> (r: Result<
    bool,
    ErrorStack,
>) {
    verifier.verify_oneshot(signature, data)
}

/// Signature algorithm.
pub trait Algorithm {
    /// The algorithm's name in the `Signature:` header.
    spec fn spec_name(&self) -> Seq<char>;

    /// The digest that the algorithm names, if any.
    spec fn spec_digest(&self) -> Option<Digest>;

    /// The RSA padding mode that the algorithm names, if any.
    spec fn spec_padding(&self) -> Option<RsaPadding>;

    /// Signature algorithm name.
    fn name(&self) -> (r: &'static str)
        ensures
            r@ == self.spec_name(),
    ;

    /// Generate private and public keys suitable for this algorithm.
    fn generate_keys(&self) -> (r: Result<(PrivateKey, PublicKey), Error>)
        ensures
            r is Err ==> (r matches Err(Error::OpenSsl(_)) || r matches Err(Error::PemTooLong)),
    ;

    /// The message digest specified by this algorithm.
    fn message_digest(&self) -> (r: Option<Digest>)
        ensures
            r == self.spec_digest(),
    ;

    /// The RSA padding mode specified by this algorithm.
    fn rsa_padding(&self) -> (r: Option<RsaPadding>)
        ensures
            r == self.spec_padding(),
    ;

    /// Sign data.
    fn sign(&self, private_key: &PrivateKey, data: &[u8]) -> (r: Result<Vec<u8>, Error>)
        ensures
            r is Err ==> r matches Err(Error::OpenSsl(_)),
    {
        let pkey = &private_key.0;
        let made = match self.message_digest() {
            Some(Digest::Sha256) => signer_with_digest(sha256(), pkey),
            None => signer_without_digest(pkey),
        };
        let mut signer = match made {
            Ok(s) => s,
            Err(e) => {
                return Err(Error::OpenSsl(e));
            },
        };
        if let Some(RsaPadding::Pkcs1) = self.rsa_padding() {
            if let Err(e) = signer_set_padding(&mut signer, pkcs1()) {
                return Err(Error::OpenSsl(e));
            }
        }
        let len = match signer_len(&signer) {
            Ok(n) => n,
            Err(e) => {
                return Err(Error::OpenSsl(e));
            },
        };
        let mut buf: Vec<u8> = vec![0u8; len];
        let written = match signer_sign_oneshot(&mut signer, &mut buf, data) {
            Ok(n) => n,
            Err(e) => {
                return Err(Error::OpenSsl(e));
            },
        };
        buf.truncate(written);
        Ok(buf)
    }

    /// Verify a signature.
    fn verify(&self, public_key: &PublicKey, data: &[u8], signature: &[u8]) -> (r: Result<
        bool,
        Error,
    >)
        ensures
            r is Err ==> r matches Err(Error::OpenSsl(_)),
    {
        let pkey = &public_key.0;
        let made = match self.message_digest() {
            Some(Digest::Sha256) => verifier_with_digest(sha256(), pkey),
            None => verifier_without_digest(pkey),
        };
        let mut verifier = match made {
            Ok(v) => v,
            Err(e) => {
                return Err(Error::OpenSsl(e));
            },
        };
        if let Some(RsaPadding::Pkcs1) = self.rsa_padding() {
            if let Err(e) = verifier_set_padding(&mut verifier, pkcs1()) {
                return Err(Error::OpenSsl(e));
            }
        }
        match verifier_verify_oneshot(&mut verifier, signature, data) {
            Ok(b) => Ok(b),
            Err(e) => Err(Error::OpenSsl(e)),
        }
    }
}

/// The names of the implemented algorithms.
pub open spec fn is_known_algorithm(name: Seq<char>) -> bool {
    name == "rsa-sha256"@ || name == "hs2019"@
}

/// One of the implemented algorithms, chosen by name.
#[derive(Clone, Copy, Debug, PartialEq, Eq)]
pub enum AnyAlgorithm {
    RsaSha256(RsaSha256),
    Hs2019(Hs2019),
}

impl Algorithm for AnyAlgorithm {
    open spec fn spec_name(&self) -> Seq<char> {
        match self {
            AnyAlgorithm::RsaSha256(a) => a.spec_name(),
            AnyAlgorithm::Hs2019(a) => a.spec_name(),
        }
    }

    open spec fn spec_digest(&self) -> Option<Digest> {
        match self {
            AnyAlgorithm::RsaSha256(a) => a.spec_digest(),
            AnyAlgorithm::Hs2019(a) => a.spec_digest(),
        }
    }

    open spec fn spec_padding(&self) -> Option<RsaPadding> {
        match self {
            AnyAlgorithm::RsaSha256(a) => a.spec_padding(),
            AnyAlgorithm::Hs2019(a) => a.spec_padding(),
        }
    }

    fn name(&self) -> (r: &'static str) {
        match self {
            AnyAlgorithm::RsaSha256(a) => a.name(),
            AnyAlgorithm::Hs2019(a) => a.name(),
        }
    }

    fn generate_keys(&self) -> (r: Result<(PrivateKey, PublicKey), Error>) {
        match self {
            AnyAlgorithm::RsaSha256(a) => a.generate_keys(),
            AnyAlgorithm::Hs2019(a) => a.generate_keys(),
        }
    }

    fn message_digest(&self) -> (r: Option<Digest>) {
        match self {
            AnyAlgorithm::RsaSha256(a) => {
                proof {
                    assert(self.spec_digest() == a.spec_digest());
                }
                a.message_digest()
            },
            AnyAlgorithm::Hs2019(a) => {
                proof {
                    assert(self.spec_digest() == a.spec_digest());
                }
                a.message_digest()
            },
        }
    }

    fn rsa_padding(&self) -> (r: Option<RsaPadding>) {
        match self {
            AnyAlgorithm::RsaSha256(a) => {
                proof {
                    assert(self.spec_padding() == a.spec_padding());
                }
                a.rsa_padding()
            },
            AnyAlgorithm::Hs2019(a) => {
                proof {
                    assert(self.spec_padding() == a.spec_padding());
                }
                a.rsa_padding()
            },
        }
    }
}

/// Find the signature algorithm implementation by name.
pub fn by_name(name: &str) -> (r: Option<AnyAlgorithm>)
    ensures
        is_known_algorithm(name@) ==> (r matches Some(a) && a.spec_name() == name@),
        !is_known_algorithm(name@) ==> r is None,
{
    if str_eq(name, "rsa-sha256") {
        Some(AnyAlgorithm::RsaSha256(RsaSha256))
    } else if str_eq(name, "hs2019") {
        Some(AnyAlgorithm::Hs2019(Hs2019))
    } else {
        None
    }
}

} // verus!
