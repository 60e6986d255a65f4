use vstd::prelude::*;
use crate::params::{cost_valid, out_len_valid};
use scrypt::password_hash::rand_core::{OsRng, RngCore};

verus! {

/// The derived key that the scrypt function computes for a password, a salt,
/// the cost parameters, and a requested length. The computation is
/// deterministic: its result depends on these arguments alone.
pub uninterp spec fn scrypt_kdf(
    password: Seq<u8>,
    salt: Seq<u8>,
    log_n: u8,
    r: u32,
    p: u32,
    out_len: usize,
) -> Seq<u8>;

/// Relies on `scrypt::Params::new` and `scrypt::scrypt` of the scrypt crate:
/// `Params::new` accepts every cost triple that `cost_valid` admits (its
/// checks are the ones `cost_valid` spells out, save that it also tolerates
/// a zero exponent, which this library rejects before getting here), and
/// `scrypt::scrypt` then succeeds for every output length that
/// `out_len_valid` admits, filling the whole output buffer with the derived
/// key, a deterministic function of password, salt, cost triple, and length.
#[verifier::external_body]
pub(crate) fn run_scrypt(
    password: &[u8],
    salt: &[u8],
    log_n: u8,
    r: u32,
    p: u32,
    out_len: usize,
) -> (out: Vec<u8>)
    requires
        cost_valid(log_n, r, p),
        out_len_valid(out_len),
    ensures
        out@ == scrypt_kdf(password@, salt@, log_n, r, p, out_len),
        out@.len() == out_len,
{
    let params = scrypt::Params::new(log_n, r, p).expect("cost triple was checked");
    let mut out = vec![0u8; out_len];
    scrypt::scrypt(password, salt, &params, &mut out).expect("output length was checked");
    out
}

/// Relies on `rand_core::OsRng` (reached through the scrypt crate's
/// password-hash re-export): fills a buffer from the operating system's
/// cryptographically secure random source. Nothing is assumed of the values
/// drawn; only that sixteen bytes come back. Should the operating system's
/// source itself fail, the call aborts rather than returning: that failure
/// is environmental, tied to no input, and outside the error taxonomy.
#[verifier::external_body]
pub(crate) fn random_salt_bytes() -> (out: Vec<u8>)
    ensures
        out@.len() == 16,
{
    let mut buf = [0u8; 16];
    OsRng.fill_bytes(&mut buf);
    buf.to_vec()
}

} // verus!
