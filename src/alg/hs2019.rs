//! The `hs2019` algorithm as Ed25519 (EdDSA, whose SHA-512 is implicit).
use vstd::prelude::*;
use openssl::error::ErrorStack;
use openssl::pkey::{Id, PKey, Private, Public};
use super::{Digest, RsaPadding};
use crate::error::Error;
use crate::key::{PrivateKey, PublicKey};

verus! {

/// Relies on openssl's PKey::generate_ed25519: a fresh Ed25519 key.
#[verifier::external_body]
fn generate_ed25519() -> (r: Result<PKey<Private>, ErrorStack>) {
    PKey::generate_ed25519()
}

/// Relies on openssl's PKey::raw_public_key: the raw public half of a key.
#[verifier::external_body]
fn raw_public_key(k: &PKey<Private>) -> (r: Result<Vec<u8>, ErrorStack>) {
    k.raw_public_key()
}

/// Relies on openssl's PKey::public_key_from_raw_bytes with Id::ED25519: an
/// Ed25519 public key from its raw bytes.
#[verifier::external_body]
fn ed25519_public_key(bytes: &[u8]) -> (r: Result<PKey<Public>, ErrorStack>) {
    PKey::public_key_from_raw_bytes(bytes, Id::ED25519)
}

/// `hs2019` algorithm, as Ed25519.
#[derive(Clone, Copy, Debug, PartialEq, Eq)]
pub struct Hs2019;

impl super::Algorithm for Hs2019 {
    open spec fn spec_name(&self) -> Seq<char> {
        "hs2019"@
    }

    open spec fn spec_digest(&self) -> Option<Digest> {
        None
    }

    open spec fn spec_padding(&self) -> Option<RsaPadding> {
        None
    }

    fn name(&self) -> (r: &'static str) {
        "hs2019"
    }

    fn message_digest(&self) -> (r: Option<Digest>) {
        // SHA-512 is implicit for Ed25519.
        proof {
            assert(self.spec_digest() == None::<Digest>);
        }
        None
    }

    fn rsa_padding(&self) -> (r: Option<RsaPadding>) {
        proof {
            assert(self.spec_padding() == None::<RsaPadding>);
        }
        None
    }

    fn generate_keys(&self) -> (r: Result<(PrivateKey, PublicKey), Error>) {
        let private_key = match generate_ed25519() {
            Ok(k) => k,
            Err(e) => {
                return Err(Error::OpenSsl(e));
            },
        };
        let raw = match raw_public_key(&private_key) {
            Ok(b) => b,
            Err(e) => {
                return Err(Error::OpenSsl(e));
            },
        };
        match ed25519_public_key(raw.as_slice()) {
            Ok(public_key) => Ok((PrivateKey(private_key), PublicKey(public_key))),
            Err(e) => Err(Error::OpenSsl(e)),
        }
    }
}

} // verus!
