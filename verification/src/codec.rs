use vstd::prelude::*;

verus! {

/// Whether a byte is the ASCII code of a decimal digit.
pub open spec fn is_digit(b: u8) -> bool {
    48 <= b <= 57
}

/// Canonical decimal rendering of a non-negative integer, as ASCII codes.
pub open spec fn dec_of(n: int) -> Seq<u8>
    recommends
        n >= 0,
    decreases n,
{
    if n < 10 {
        seq![(48 + if 0 <= n { n } else { 0 }) as u8]
    } else {
        dec_of(n / 10) + seq![(48 + n % 10) as u8]
    }
}

/// The number a sequence of ASCII digit codes denotes.
pub open spec fn dec_val(d: Seq<u8>) -> int
    decreases d.len(),
{
    if d.len() == 0 {
        0
    } else {
        dec_val(d.drop_last()) * 10 + (d.last() - 48)
    }
}

pub proof fn lemma_dec_of_digits(n: int)
    requires
        n >= 0,
    ensures
        dec_of(n).len() >= 1,
        forall|i: int| 0 <= i < dec_of(n).len() ==> is_digit(#[trigger] dec_of(n)[i]),
    decreases n,
{
    if n >= 10 {
        lemma_dec_of_digits(n / 10);
        assert forall|i: int| 0 <= i < dec_of(n).len() implies is_digit(#[trigger] dec_of(n)[i]) by {
            if i < dec_of(n / 10).len() {
                assert(dec_of(n)[i] == dec_of(n / 10)[i]);
            } else {
                assert(dec_of(n)[i] == (48 + n % 10) as u8);
            }
        }
    }
}

/// Reading back the canonical decimal rendering gives the number itself.
pub proof fn lemma_dec_val_of(n: int)
    requires
        n >= 0,
    ensures
        dec_val(dec_of(n)) == n,
    decreases n,
{
    if n < 10 {
        assert(dec_of(n).drop_last() =~= Seq::<u8>::empty());
        assert(dec_of(n).last() == (48 + n) as u8);
        assert(dec_val(dec_of(n)) == dec_val(Seq::<u8>::empty()) * 10 + ((48 + n) as u8 - 48));
    } else {
        lemma_dec_val_of(n / 10);
        assert(dec_of(n).drop_last() =~= dec_of(n / 10));
        assert(dec_of(n).last() == (48 + n % 10) as u8);
        assert(dec_val(dec_of(n)) == dec_val(dec_of(n / 10)) * 10 + ((48 + n % 10) as u8 - 48));
        assert((n / 10) * 10 + n % 10 == n);
    }
}

/// Length of the run of decimal digits in `s` beginning at `i`.
pub open spec fn digit_run(s: Seq<u8>, i: int) -> int
    decreases s.len() - i,
{
    if 0 <= i < s.len() && is_digit(s[i]) {
        1 + digit_run(s, i + 1)
    } else {
        0
    }
}

/// Position of the first occurrence of `b` in `s` at or after `i`, or -1.
pub open spec fn find_byte(s: Seq<u8>, b: u8, i: int) -> int
    decreases s.len() - i,
{
    if !(0 <= i < s.len()) {
        -1
    } else if s[i] == b {
        i
    } else {
        find_byte(s, b, i + 1)
    }
}

pub proof fn lemma_digit_run_exact(s: Seq<u8>, i: int, d: int)
    requires
        0 <= i,
        0 <= d,
        i + d <= s.len(),
        forall|k: int| i <= k < i + d ==> is_digit(#[trigger] s[k]),
        i + d == s.len() || !is_digit(s[i + d]),
    ensures
        digit_run(s, i) == d,
    decreases d,
{
    if d > 0 {
        lemma_digit_run_exact(s, i + 1, d - 1);
    }
}

pub proof fn lemma_find_byte_exact(s: Seq<u8>, b: u8, i: int, j: int)
    requires
        0 <= i <= j < s.len(),
        s[j] == b,
        forall|k: int| i <= k < j ==> s[k] != b,
    ensures
        find_byte(s, b, i) == j,
    decreases j - i,
{
    if i < j {
        lemma_find_byte_exact(s, b, i + 1, j);
    }
}

/// The ASCII codes of the fixed lead-in "$scrypt$ln=".
pub open spec fn enc_prefix() -> Seq<u8> {
    seq![36u8, 115u8, 99u8, 114u8, 121u8, 112u8, 116u8, 36u8, 108u8, 110u8, 61u8]
}

/// The ASCII codes of the separator ",r=".
pub open spec fn r_sep() -> Seq<u8> {
    seq![44u8, 114u8, 61u8]
}

/// The ASCII codes of the separator ",p=".
pub open spec fn p_sep() -> Seq<u8> {
    seq![44u8, 112u8, 61u8]
}

/// The self-describing encoded form of a hash: algorithm tag, the three cost
/// parameters in decimal, then the base64 salt string and base64 derived key,
/// dollar-separated.
pub open spec fn encoded_of(log_n: u8, r: u32, p: u32, salt_b64: Seq<u8>, hash_b64: Seq<u8>) -> Seq<
    u8,
> {
    enc_prefix() + dec_of(log_n as int) + r_sep() + dec_of(r as int) + p_sep() + dec_of(p as int)
        + seq![36u8] + salt_b64 + seq![36u8] + hash_b64
}

/// Whether `pat` occurs in `s` at position `i`.
pub open spec fn starts_with_at(s: Seq<u8>, i: int, pat: Seq<u8>) -> bool {
    0 <= i && i + pat.len() <= s.len() && s.subrange(i, i + pat.len()) == pat
}

/// Parse an encoded hash string: the exponent, block size, and parallelism
/// read back from their decimal forms, and the salt and derived-key fields
/// split at the dollar signs. `None` exactly when the bytes lack this shape:
/// the fixed lead-in, three decimal numbers in range (leading zeros are
/// tolerated, though `encoded_of` never writes them), a dollar sign, and the
/// two dollar-separated fields.
pub open spec fn parse_encoded(s: Seq<u8>) -> Option<(u8, u32, u32, Seq<u8>, Seq<u8>)> {
    if !starts_with_at(s, 0, enc_prefix()) {
        None
    } else {
        let i1 = enc_prefix().len() as int;
        let d1 = digit_run(s, i1);
        let v1 = dec_val(s.subrange(i1, i1 + d1));
        if d1 < 1 || v1 > 0xff {
            None
        } else if !starts_with_at(s, i1 + d1, r_sep()) {
            None
        } else {
            let i2 = i1 + d1 + 3;
            let d2 = digit_run(s, i2);
            let v2 = dec_val(s.subrange(i2, i2 + d2));
            if d2 < 1 || v2 > 0xffff_ffff {
                None
            } else if !starts_with_at(s, i2 + d2, p_sep()) {
                None
            } else {
                let i3 = i2 + d2 + 3;
                let d3 = digit_run(s, i3);
                let v3 = dec_val(s.subrange(i3, i3 + d3));
                if d3 < 1 || v3 > 0xffff_ffff {
                    None
                } else {
                    let i4 = i3 + d3;
                    if !(i4 < s.len() && s[i4] == 36) {
                        None
                    } else {
                        let j = find_byte(s, 36, i4 + 1);
                        if j < 0 {
                            None
                        } else {
                            Some(
                                (
                                    v1 as u8,
                                    v2 as u32,
                                    v3 as u32,
                                    s.subrange(i4 + 1, j),
                                    s.subrange(j + 1, s.len() as int),
                                ),
                            )
                        }
                    }
                }
            }
        }
    }
}

/// Parsing recovers exactly what `encoded_of` laid down, for any salt string
/// free of dollar signs (the derived-key field, which runs to the end of the
/// string, needs no such condition).
pub proof fn lemma_parse_of_encoded(log_n: u8, r: u32, p: u32, salt_b64: Seq<u8>, hash_b64: Seq<u8>)
    requires
        forall|i: int| 0 <= i < salt_b64.len() ==> salt_b64[i] != 36,
    ensures
        parse_encoded(encoded_of(log_n, r, p, salt_b64, hash_b64)) == Some(
            (log_n, r, p, salt_b64, hash_b64),
        ),
{
    let s = encoded_of(log_n, r, p, salt_b64, hash_b64);
    let a = dec_of(log_n as int);
    let b = dec_of(r as int);
    let c = dec_of(p as int);
    lemma_dec_of_digits(log_n as int);
    lemma_dec_of_digits(r as int);
    lemma_dec_of_digits(p as int);
    lemma_dec_val_of(log_n as int);
    lemma_dec_val_of(r as int);
    lemma_dec_val_of(p as int);
    let i1 = 11int;
    let i2 = i1 + a.len() + 3;
    let i3 = i2 + b.len() + 3;
    let i4 = i3 + c.len();
    let j = i4 + 1 + salt_b64.len();
    assert(s.len() == j + 1 + hash_b64.len());
    assert(s.subrange(0, 11) =~= enc_prefix());
    assert(s.subrange(i1, i1 + a.len()) =~= a);
    assert(s.subrange(i1 + a.len(), i2) =~= r_sep());
    assert(s.subrange(i2, i2 + b.len()) =~= b);
    assert(s.subrange(i2 + b.len(), i3) =~= p_sep());
    assert(s.subrange(i3, i3 + c.len()) =~= c);
    assert(s[i4] == 36);
    assert(s.subrange(i4 + 1, j) =~= salt_b64);
    assert(s[j] == 36);
    assert(s.subrange(j + 1, s.len() as int) =~= hash_b64);
    assert forall|k: int| i1 <= k < i1 + a.len() implies is_digit(#[trigger] s[k]) by {
        assert(s[k] == a[k - i1]);
    }
    assert(!is_digit(s[i1 + a.len()]));
    lemma_digit_run_exact(s, i1, a.len() as int);
    assert forall|k: int| i2 <= k < i2 + b.len() implies is_digit(#[trigger] s[k]) by {
        assert(s[k] == b[k - i2]);
    }
    assert(!is_digit(s[i2 + b.len()]));
    lemma_digit_run_exact(s, i2, b.len() as int);
    assert forall|k: int| i3 <= k < i3 + c.len() implies is_digit(#[trigger] s[k]) by {
        assert(s[k] == c[k - i3]);
    }
    assert(!is_digit(s[i4]));
    lemma_digit_run_exact(s, i3, c.len() as int);
    assert forall|k: int| i4 + 1 <= k < j implies s[k] != 36 by {
        assert(s[k] == salt_b64[k - (i4 + 1)]);
    }
    lemma_find_byte_exact(s, 36, i4 + 1, j);
}

/// Every byte of an encoded hash is ASCII, provided its salt and key fields
/// are.
pub proof fn lemma_encoded_of_ascii(log_n: u8, r: u32, p: u32, salt_b64: Seq<u8>, hash_b64: Seq<u8>)
    requires
        forall|i: int| 0 <= i < salt_b64.len() ==> salt_b64[i] < 128,
        forall|i: int| 0 <= i < hash_b64.len() ==> hash_b64[i] < 128,
    ensures
        forall|i: int|
            0 <= i < encoded_of(log_n, r, p, salt_b64, hash_b64).len() ==> #[trigger] encoded_of(
                log_n,
                r,
                p,
                salt_b64,
                hash_b64,
            )[i] < 128,
{
    let s = encoded_of(log_n, r, p, salt_b64, hash_b64);
    lemma_dec_of_digits(log_n as int);
    lemma_dec_of_digits(r as int);
    lemma_dec_of_digits(p as int);
    assert forall|i: int| 0 <= i < s.len() implies #[trigger] s[i] < 128 by {
        let a = dec_of(log_n as int);
        let b = dec_of(r as int);
        let c = dec_of(p as int);
        let i2 = 11 + a.len() + 3;
        let i3 = i2 + b.len() + 3;
        let i4 = i3 + c.len();
        if 11 <= i < 11 + a.len() {
            assert(s[i] == a[i - 11] && is_digit(a[i - 11]));
        } else if i2 <= i < i2 + b.len() {
            assert(s[i] == b[i - i2] && is_digit(b[i - i2]));
        } else if i3 <= i < i3 + c.len() {
            assert(s[i] == c[i - i3] && is_digit(c[i - i3]));
        } else if i4 + 1 <= i < i4 + 1 + salt_b64.len() {
            assert(s[i] == salt_b64[i - (i4 + 1)]);
        } else if i4 + 2 + salt_b64.len() <= i {
            assert(s[i] == hash_b64[i - (i4 + 2 + salt_b64.len())]);
        }
    }
}

/// Append a byte slice to a buffer.
fn push_all(out: &mut Vec<u8>, s: &[u8])
    ensures
        final(out)@ == old(out)@ + s@,
{
    let mut i: usize = 0;
    while i < s.len()
        invariant
            i <= s@.len(),
            out@ == old(out)@ + s@.take(i as int),
        decreases s@.len() - i,
    {
        out.push(s[i]);
        i = i + 1;
        proof {
            assert(old(out)@ + s@.take(i as int) =~= (old(out)@ + s@.take(i - 1)).push(
                s@[i - 1],
            ));
        }
    }
    proof {
        assert(old(out)@ + s@.take(s@.len() as int) =~= old(out)@ + s@);
        assert(old(out)@ + s@.take(0) =~= old(out)@);
    }
}

/// Append the canonical decimal rendering of `n`.
fn push_dec(out: &mut Vec<u8>, n: u64)
    ensures
        final(out)@ == old(out)@ + dec_of(n as int),
    decreases n,
{
    if n < 10 {
        out.push(48 + n as u8);
        proof {
            assert(old(out)@ + dec_of(n as int) =~= old(out)@.push((48 + n as int) as u8));
        }
    } else {
        push_dec(out, n / 10);
        out.push(48 + (n % 10) as u8);
        proof {
            assert(old(out)@ + dec_of(n as int) =~= (old(out)@ + dec_of(n as int / 10)).push(
                (48 + n as int % 10) as u8,
            ));
        }
    }
}

/// Lay down the encoded form of a hash, exactly as `encoded_of` states it.
pub fn format_encoded(log_n: u8, r: u32, p: u32, salt_b64: &[u8], hash_b64: &[u8]) -> (out: Vec<u8>)
    ensures
        out@ == encoded_of(log_n, r, p, salt_b64@, hash_b64@),
{
    let mut out: Vec<u8> = Vec::new();
    let prefix: [u8; 11] = [36, 115, 99, 114, 121, 112, 116, 36, 108, 110, 61];
    push_all(&mut out, prefix.as_slice());
    push_dec(&mut out, log_n as u64);
    let rs: [u8; 3] = [44, 114, 61];
    push_all(&mut out, rs.as_slice());
    push_dec(&mut out, r as u64);
    let ps: [u8; 3] = [44, 112, 61];
    push_all(&mut out, ps.as_slice());
    push_dec(&mut out, p as u64);
    out.push(36);
    push_all(&mut out, salt_b64);
    out.push(36);
    push_all(&mut out, hash_b64);
    proof {
        assert(prefix@ =~= enc_prefix());
        assert(rs@ =~= r_sep());
        assert(ps@ =~= p_sep());
        assert(out@ =~= encoded_of(log_n, r, p, salt_b64@, hash_b64@));
    }
    out
}

/// The fields recovered from an encoded hash string.
#[derive(Debug)]
pub struct ParsedHash {
    /// log2 of the CPU/memory cost N.
    pub log_n: u8,
    /// Block size.
    pub r: u32,
    /// Parallelism.
    pub p: u32,
    /// The base64 salt string, as ASCII codes.
    pub salt_b64: Vec<u8>,
    /// The base64 derived key, as ASCII codes.
    pub hash_b64: Vec<u8>,
}

/// Whether `pat` occurs in `s` at `i`, executably.
fn match_at(s: &[u8], i: usize, pat: &[u8]) -> (res: bool)
    ensures
        res == starts_with_at(s@, i as int, pat@),
{
    if i > s.len() || pat.len() > s.len() - i {
        return false;
    }
    let slen = s.len();
    let mut k: usize = 0;
    while k < pat.len()
        invariant
            i + pat@.len() <= s@.len(),
            s@.len() == slen,
            k <= pat@.len(),
            forall|m: int| 0 <= m < k ==> s@[i + m] == pat@[m],
        decreases pat@.len() - k,
    {
        if s[i + k] != pat[k] {
            proof {
                assert(s@.subrange(i as int, i + pat@.len())[k as int] == s@[i + k]);
            }
            return false;
        }
        k = k + 1;
    }
    proof {
        assert(s@.subrange(i as int, i + pat@.len()) =~= pat@);
    }
    true
}

/// Length of the digit run at `i`, executably.
fn scan_digits(s: &[u8], i: usize) -> (d: usize)
    requires
        i <= s@.len(),
    ensures
        d == digit_run(s@, i as int),
        i + d <= s@.len(),
        forall|k: int| i <= k < i + d ==> is_digit(#[trigger] s@[k]),
{
    let mut j: usize = i;
    while j < s.len() && 48 <= s[j] && s[j] <= 57
        invariant
            i <= j <= s@.len(),
            digit_run(s@, i as int) == (j - i) + digit_run(s@, j as int),
            forall|k: int| i <= k < j ==> is_digit(#[trigger] s@[k]),
        decreases s@.len() - j,
    {
        j = j + 1;
    }
    j - i
}

/// Value of a digit run, saturating above `cap`: the result equals the run's
/// value when that value is within `cap`, and exceeds `cap` exactly when the
/// value does.
fn dec_value_upto(s: &[u8], i: usize, d: usize, cap: u64) -> (v: u64)
    requires
        i + d <= s@.len(),
        cap <= 0xffff_ffff,
        forall|k: int| i <= k < i + d ==> is_digit(#[trigger] s@[k]),
    ensures
        dec_val(s@.subrange(i as int, i + d)) <= cap as int ==> v == dec_val(
            s@.subrange(i as int, i + d),
        ),
        dec_val(s@.subrange(i as int, i + d)) > cap as int ==> v > cap,
{
    let mut v: u64 = 0;
    let mut j: usize = i;
    proof {
        assert(s@.subrange(i as int, i as int) =~= Seq::<u8>::empty());
    }
    while j - i < d
        invariant
            i <= j <= i + d,
            i + d <= s@.len(),
            cap <= 0xffff_ffff,
            forall|k: int| i <= k < i + d ==> is_digit(#[trigger] s@[k]),
            dec_val(s@.subrange(i as int, j as int)) <= cap as int ==> v == dec_val(
                s@.subrange(i as int, j as int),
            ),
            dec_val(s@.subrange(i as int, j as int)) > cap as int ==> v > cap,
            v <= 0xf_ffff_ffff,
        decreases i + d - j,
    {
        let digit = s[j] - 48;
        if v <= cap {
            v = v * 10 + digit as u64;
        }
        j = j + 1;
        proof {
            assert(s@.subrange(i as int, j as int).drop_last() =~= s@.subrange(i as int, j - 1));
            assert(s@.subrange(i as int, j as int).last() == s@[j - 1]);
        }
    }
    v
}

/// Position of the next dollar sign at or after `i`, executably.
fn find_dollar_from(s: &[u8], i: usize) -> (res: Option<usize>)
    requires
        i <= s@.len(),
    ensures
        match res {
            Some(j) => j == find_byte(s@, 36, i as int) && i <= j < s@.len() && s@[j as int] == 36,
            None => find_byte(s@, 36, i as int) == -1,
        },
{
    let mut j: usize = i;
    while j < s.len() && s[j] != 36
        invariant
            i <= j <= s@.len(),
            find_byte(s@, 36, i as int) == find_byte(s@, 36, j as int),
        decreases s@.len() - j,
    {
        j = j + 1;
    }
    if j < s.len() {
        Some(j)
    } else {
        None
    }
}

/// Parse an encoded hash from its bytes, deciding exactly as `parse_encoded`
/// states.
pub fn parse_encoded_bytes(s: &[u8]) -> (res: Option<ParsedHash>)
    ensures
        match res {
            Some(ph) => parse_encoded(s@) == Some(
                (ph.log_n, ph.r, ph.p, ph.salt_b64@, ph.hash_b64@),
            ),
            None => parse_encoded(s@) is None,
        },
{
    let slen = s.len();
    let prefix: [u8; 11] = [36, 115, 99, 114, 121, 112, 116, 36, 108, 110, 61];
    proof {
        assert(prefix@ =~= enc_prefix());
    }
    if !match_at(s, 0, prefix.as_slice()) {
        return None;
    }
    let d1 = scan_digits(s, 11);
    if d1 < 1 {
        return None;
    }
    let v1 = dec_value_upto(s, 11, d1, 0xff);
    if v1 > 0xff {
        return None;
    }
    let rs: [u8; 3] = [44, 114, 61];
    proof {
        assert(rs@ =~= r_sep());
    }
    if !match_at(s, 11 + d1, rs.as_slice()) {
        return None;
    }
    let i2 = 11 + d1 + 3;
    let d2 = scan_digits(s, i2);
    if d2 < 1 {
        return None;
    }
    let v2 = dec_value_upto(s, i2, d2, 0xffff_ffff);
    if v2 > 0xffff_ffff {
        return None;
    }
    let ps: [u8; 3] = [44, 112, 61];
    proof {
        assert(ps@ =~= p_sep());
    }
    if !match_at(s, i2 + d2, ps.as_slice()) {
        return None;
    }
    let i3 = i2 + d2 + 3;
    let d3 = scan_digits(s, i3);
    if d3 < 1 {
        return None;
    }
    let v3 = dec_value_upto(s, i3, d3, 0xffff_ffff);
    if v3 > 0xffff_ffff {
        return None;
    }
    let i4 = i3 + d3;
    if !(i4 < s.len()) {
        return None;
    }
    if *vstd::slice::slice_index_get(s, i4) != 36 {
        return None;
    }
    match find_dollar_from(s, i4 + 1) {
        None => None,
        Some(j) => {
            let salt_b64 = vstd::slice::slice_to_vec(vstd::slice::slice_subrange(s, i4 + 1, j));
            let hash_b64 = vstd::slice::slice_to_vec(vstd::slice::slice_subrange(s, j + 1, s.len()));
            Some(ParsedHash { log_n: v1 as u8, r: v2 as u32, p: v3 as u32, salt_b64, hash_b64 })
        },
    }
}

} // verus!
