//! Calls into the standard library and outside crates that the proofs take on trust.
pub mod aead;
pub mod clock;
pub mod digest;
pub mod encoding;
pub mod image;
pub mod json;
pub mod names;
pub mod path;
pub mod pattern;
pub mod random;
pub mod text;
pub mod unicode;
pub mod x25519;
