//! A BLS (Boneh–Lynn–Shacham) signature scheme with identity-indexed
//! threshold secret sharing, built over a compact model of a pairing-friendly
//! curve triple: a scalar field, two paired groups, and the pairing target
//! group.
//!
//! The protocol layer — canonical binary and text encodings, signing and
//! pairing-based verification, homomorphic aggregation, and Shamir-style
//! sharing with Lagrange recovery — is fully verified. The arithmetic engine
//! underneath works over a small prime field so that every algebraic claim
//! (round trips, the verification equality, homomorphism, degenerate sharing)
//! is provable and testable end to end; it is a model engine, not a
//! production-strength curve implementation, and offers no cryptographic
//! hardness.

pub mod bytes;
pub mod fr;
pub mod id;
pub mod laws;
pub mod params;
pub mod public_key;
pub mod repr;
pub mod scheme;
pub mod secret_key;
pub mod sharing;
pub mod signature;
pub mod text;

pub use id::BlsId;
pub use params::bls_init;
pub use params::CurveType;
pub use public_key::BlsPublicKey;
pub use repr::{MclBnFr, MclBnG1, MclBnG2, MclBnGT};
pub use secret_key::BlsSecretKey;
pub use signature::BlsSignature;
