//! HTTP signature generation and verification for ActivityPub.
//!
//! The `Signature:` header grammar, the signing string and the request view
//! are verified here; the cryptography is delegated to OpenSSL and the
//! signature bytes travel in base64.

/// Signature algorithms.
pub mod alg;
pub mod encoding;
pub mod error;
pub mod grammar;
/// Key serialization/deserialization.
pub mod key;
pub mod lemmas;
pub mod request;
pub mod round_trip;
pub mod signature;
pub mod signature_header;
pub mod text;

pub use error::Error;
pub use key::{Key, PrivateKey, PublicKey};
pub use request::Request;
pub use signature::{Signature, SigningConfig};
pub use signature_header::SignatureHeader;
