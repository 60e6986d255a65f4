//! A small password-hashing service around the scrypt key-derivation
//! function: parameter validation and defaulting, salt handling, and the
//! formatting of results either as a raw hex-encoded derived key or as a
//! self-describing encoded hash string paired with a verification entry
//! point. The scrypt computation itself is delegated to an external
//! cryptographic library; everything around it is verified.

pub mod ascii;
pub mod b64;
pub mod codec;
pub mod errors;
pub mod hexcode;
pub mod kdf;
pub mod params;
pub mod service;

pub use errors::HashError;
pub use params::HashParams;
pub use service::{derive_hash, derive_hash_encoded, scrypt, verify_hash};
