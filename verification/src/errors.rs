use vstd::prelude::*;

verus! {

/// Failure taxonomy of the password-hashing service.
///
/// Every entry point reports failures through this type; no input makes a
/// verified function of this crate panic.
#[derive(Clone, Copy, Debug, PartialEq, Eq, Structural)]
pub enum HashError {
    /// The cost parameters (exponent, block size, parallelism) are out of
    /// range, zero, or their combination would overflow the KDF's internal
    /// buffer sizing.
    InvalidParameters,
    /// A caller-supplied salt cannot be embedded in the encoded output
    /// shape: its base64 form does not fit the 64-character salt field.
    SaltEncodingError,
    /// The requested derived-key length is outside the algorithm's limits.
    HashComputationError,
    /// An encoded hash string handed to verification is not well formed.
    ParseError,
}

} // verus!
