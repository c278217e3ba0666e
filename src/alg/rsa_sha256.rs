//! The `rsa-sha256` algorithm: RSA, PKCS#1 v1.5 padding, SHA-256.
use vstd::prelude::*;
use openssl::error::ErrorStack;
use openssl::pkey::{PKey, Private};
use openssl::rsa::Rsa;
use super::{Digest, RsaPadding};
use crate::error::Error;
use crate::key::{from_pem_checked, PrivateKey, PublicKey};

verus! {

#[verifier::external_type_specification]
#[verifier::external_body]
#[verifier::reject_recursive_types(T)]
pub struct ExRsa<T>(Rsa<T>);

/// Relies on openssl's Rsa::generate: a fresh key pair of `bits` bits.
#[verifier::external_body]
fn rsa_generate(bits: u32) -> (r: Result<Rsa<Private>, ErrorStack>) {
    Rsa::generate(bits)
}

/// Relies on openssl's Rsa::public_key_to_pem: the public half as PEM.
#[verifier::external_body]
fn rsa_public_key_to_pem(rsa: &Rsa<Private>) -> (r: Result<Vec<u8>, ErrorStack>) {
    rsa.public_key_to_pem()
}

/// Relies on openssl's PKey::from_rsa: wraps the RSA key.
#[verifier::external_body]
fn pkey_from_rsa(rsa: Rsa<Private>) -> (r: Result<PKey<Private>, ErrorStack>) {
    PKey::from_rsa(rsa)
}

/// Size of generated RSA keys, in bits.
pub const RSA_KEY_BITS: u32 = 4096;

/// `rsa-sha256` algorithm.
#[derive(Clone, Copy, Debug, PartialEq, Eq)]
pub struct RsaSha256;

impl super::Algorithm for RsaSha256 {
    open spec fn spec_name(&self) -> Seq<char> {
        "rsa-sha256"@
    }

    open spec fn spec_digest(&self) -> Option<Digest> {
        Some(Digest::Sha256)
    }

    open spec fn spec_padding(&self) -> Option<RsaPadding> {
        Some(RsaPadding::Pkcs1)
    }

    fn name(&self) -> (r: &'static str) {
        "rsa-sha256"
    }

    fn message_digest(&self) -> (r: Option<Digest>) {
        proof {
            assert(self.spec_digest() == Some(Digest::Sha256));
        }
        Some(Digest::Sha256)
    }

    fn rsa_padding(&self) -> (r: Option<RsaPadding>) {
        proof {
            assert(self.spec_padding() == Some(RsaPadding::Pkcs1));
        }
        Some(RsaPadding::Pkcs1)
    }

    fn generate_keys(&self) -> (r: Result<(PrivateKey, PublicKey), Error>) {
        let rsa = match rsa_generate(RSA_KEY_BITS) {
            Ok(k) => k,
            Err(e) => {
                return Err(Error::OpenSsl(e));
            },
        };
        let pem = match rsa_public_key_to_pem(&rsa) {
            Ok(p) => p,
            Err(e) => {
                return Err(Error::OpenSsl(e));
            },
        };
        let public_key = match from_pem_checked::<PublicKey>(pem.as_slice()) {
            Ok(k) => k,
            Err(e) => {
                return Err(e);
            },
        };
        match pkey_from_rsa(rsa) {
            Ok(k) => Ok((PrivateKey(k), public_key)),
            Err(e) => Err(Error::OpenSsl(e)),
        }
    }
}

} // verus!
