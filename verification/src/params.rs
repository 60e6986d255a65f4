use vstd::prelude::*;
use vstd::arithmetic::power2::pow2;

verus! {

/// Default cost exponent: the KDF runs with N = 2^15 = 32768.
pub const DEFAULT_LOG_N: u8 = 15;

/// Default block size.
pub const DEFAULT_R: u32 = 8;

/// Default parallelism.
pub const DEFAULT_P: u32 = 1;

/// Default derived-key length in bytes for raw-mode output.
pub const DEFAULT_OUT_LEN: usize = 8;

/// Derived-key length used by the encoded output mode.
pub const ENCODED_OUT_LEN: usize = 32;

/// The cost parameters and output length of one derivation, resolved from
/// the caller's optional inputs once at the start of a call.
///
/// The cost selector is the log2 exponent of the CPU/memory cost N; the
/// service never takes a raw N. Block size `r` and parallelism `p` pass
/// through to the KDF unchanged.
#[derive(Clone, Copy, Debug, PartialEq, Eq, Structural)]
pub struct HashParams {
    /// log2 of the CPU/memory cost N.
    pub log_n: u8,
    /// Block size.
    pub r: u32,
    /// Parallelism.
    pub p: u32,
    /// Derived-key length in bytes (raw-hex mode only).
    pub out_len: usize,
}

/// Validity of a cost-parameter triple: the exponent yields a power-of-two
/// cost of at least 2, block size and parallelism are at least 1, and no
/// combination overflows the KDF's internal buffer sizing (N < 2^(16 r),
/// r·p below the block-count limit, and both 128·r·p and 128·r·N
/// addressable, whatever the word width).
pub open spec fn cost_valid(log_n: u8, r: u32, p: u32) -> bool {
    &&& 1 <= log_n < 64
    &&& r >= 1
    &&& p >= 1
    &&& (log_n as int) < 16 * (r as int)
    &&& (r as int) * (p as int) < 0x4000_0000
    &&& 128 * (r as int) * (p as int) <= usize::MAX as int
    &&& 128 * (r as int) * (pow2(log_n as nat) as int) <= usize::MAX as int
}

/// Validity of a requested derived-key length: at least one byte, at most
/// (2^32 - 1) * 32 bytes.
pub open spec fn out_len_valid(len: usize) -> bool {
    1 <= len && len as int / 32 <= 0xffff_ffff
}

/// The parameters a caller's optional inputs resolve to: each absent value
/// falls back to its documented default.
pub open spec fn resolved_params(
    log_n: Option<u8>,
    r: Option<u32>,
    p: Option<u32>,
    len: Option<usize>,
) -> HashParams {
    HashParams {
        log_n: match log_n {
            Some(v) => v,
            None => DEFAULT_LOG_N,
        },
        r: match r {
            Some(v) => v,
            None => DEFAULT_R,
        },
        p: match p {
            Some(v) => v,
            None => DEFAULT_P,
        },
        out_len: match len {
            Some(v) => v,
            None => DEFAULT_OUT_LEN,
        },
    }
}

impl HashParams {
    /// Resolve optional caller inputs to a full parameter set, applying the
    /// documented defaults (exponent 15, r = 8, p = 1, output length 8).
    pub fn resolve(log_n: Option<u8>, r: Option<u32>, p: Option<u32>, len: Option<usize>) -> (c:
        HashParams)
        ensures
            c == resolved_params(log_n, r, p, len),
    {
        HashParams {
            log_n: match log_n {
                Some(v) => v,
                None => DEFAULT_LOG_N,
            },
            r: match r {
                Some(v) => v,
                None => DEFAULT_R,
            },
            p: match p {
                Some(v) => v,
                None => DEFAULT_P,
            },
            out_len: match len {
                Some(v) => v,
                None => DEFAULT_OUT_LEN,
            },
        }
    }

    /// Whether this parameter set's cost triple is valid.
    pub fn cost_is_valid(&self) -> (res: bool)
        ensures
            res == cost_valid(self.log_n, self.r, self.p),
    {
        check_cost(self.log_n, self.r, self.p)
    }
}

/// Decide validity of a cost triple, exactly as `cost_valid` states it.
pub fn check_cost(log_n: u8, r: u32, p: u32) -> (res: bool)
    ensures
        res == cost_valid(log_n, r, p),
{
    if log_n == 0 || log_n >= 64 || r == 0 || p == 0 {
        return false;
    }
    if !((log_n as u64) < 16 * (r as u64)) {
        return false;
    }
    proof {
        assert((r as int) * (p as int) <= 0xffff_ffffu64 * 0xffff_ffffu64) by (nonlinear_arith)
            requires
                r <= 0xffff_ffffu64 && p <= 0xffff_ffffu64,
        ;
    }
    if !((r as u64) * (p as u64) < 0x4000_0000) {
        return false;
    }
    proof {
        assert(128 * (r as int) * (p as int) == 128 * ((r as int) * (p as int)))
            by (nonlinear_arith);
    }
    if !(128 * ((r as u64) * (p as u64)) <= (usize::MAX as u64)) {
        return false;
    }
    let n64: u64 = 1u64 << log_n;
    proof {
        vstd::bits::lemma_u64_pow2_no_overflow(log_n as nat);
        vstd::bits::lemma_u64_shl_is_mul(1u64, log_n as u64);
    }
    match (128 * (r as u64)).checked_mul(n64) {
        Some(v) => {
            proof {
                assert(128 * (r as int) * (pow2(log_n as nat) as int) == (128 * (r as int)) * (pow2(
                    log_n as nat,
                ) as int)) by (nonlinear_arith);
            }
            v <= (usize::MAX as u64)
        },
        None => {
            proof {
                assert(128 * (r as int) * (pow2(log_n as nat) as int) == (128 * (r as int)) * (pow2(
                    log_n as nat,
                ) as int)) by (nonlinear_arith);
                assert(usize::MAX as int <= u64::MAX as int);
            }
            false
        },
    }
}

/// Decide validity of a requested output length, exactly as
/// `out_len_valid` states it.
pub fn check_out_len(len: usize) -> (res: bool)
    ensures
        res == out_len_valid(len),
{
    1 <= len && len / 32 <= 0xffff_ffff
}

} // verus!
