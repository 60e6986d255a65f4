use vstd::prelude::*;
use vstd::string::*;
use crate::ascii::{ascii_chars_of, ascii_string, lemma_encode_utf8_of_ascii_chars};
use crate::b64::{
    b64_decode, b64_decode_bytes, b64_encode, b64_of, lemma_b64_decode_of, lemma_b64_of_range,
};
use crate::codec::{
    encoded_of, format_encoded, lemma_encoded_of_ascii, lemma_parse_of_encoded, parse_encoded,
    parse_encoded_bytes,
};
use crate::errors::HashError;
use crate::hexcode::{encode_hex, hex_of, lemma_hex_of_ascii};
use crate::kdf::{random_salt_bytes, run_scrypt, scrypt_kdf};
use crate::params::{
    check_cost, check_out_len, cost_valid, out_len_valid, resolved_params, HashParams,
    ENCODED_OUT_LEN,
};

verus! {

/// Longest caller-supplied salt, in bytes, whose base64 form still fits the
/// 64-character salt field of the encoded output shape. Raw-mode derivation
/// embeds nothing and so puts no bound on the salt.
pub const MAX_SALT_INPUT_LEN: usize = 48;

/// The raw-mode result for a fixed salt: lowercase hexadecimal of the
/// derived key that the KDF computes from the password bytes and the salt
/// bytes, used verbatim.
pub open spec fn raw_hash_of(password: Seq<u8>, salt: Seq<u8>, c: HashParams) -> Seq<u8> {
    hex_of(scrypt_kdf(password, salt, c.log_n, c.r, c.p, c.out_len))
}

/// The salt the KDF runs with: a caller-supplied salt is used verbatim; an
/// absent one is drawn as sixteen fresh random bytes.
fn resolve_salt(salt: Option<&str>) -> (v: Vec<u8>)
    ensures
        salt matches Some(s) ==> v@ == s.spec_bytes(),
        salt is None ==> v@.len() == 16,
{
    match salt {
        Some(s) => s.as_bytes_vec(),
        None => random_salt_bytes(),
    }
}

/// Derive a password hash in raw-hex mode.
///
/// The cost triple is validated first, then the requested output length;
/// the KDF runs only when both pass, on the password bytes and the salt
/// bytes taken verbatim (or sixteen fresh random bytes when the salt is
/// absent). On success the result is the lowercase hexadecimal rendering of
/// `c.out_len` derived-key bytes: two characters per byte.
pub fn derive_hash(password: &str, salt: Option<&str>, c: &HashParams) -> (res: Result<
    String,
    HashError,
>)
    ensures
        !cost_valid(c.log_n, c.r, c.p) ==> res == Err::<String, HashError>(
            HashError::InvalidParameters,
        ),
        cost_valid(c.log_n, c.r, c.p) && !out_len_valid(c.out_len) ==> res == Err::<
            String,
            HashError,
        >(HashError::HashComputationError),
        salt matches Some(s) ==> ((cost_valid(c.log_n, c.r, c.p) && out_len_valid(c.out_len)) ==> (
        res matches Ok(h) && h@ == ascii_chars_of(
            raw_hash_of(password.spec_bytes(), s.spec_bytes(), *c),
        ))),
        (cost_valid(c.log_n, c.r, c.p) && out_len_valid(c.out_len) && salt is None) ==> (res matches
            Ok(h) && exists|sb: Seq<u8>|
            sb.len() == 16 && h@ == ascii_chars_of(raw_hash_of(password.spec_bytes(), sb, *c))),
        res matches Ok(h) ==> h@.len() == 2 * c.out_len,
{
    if !check_cost(c.log_n, c.r, c.p) {
        return Err(HashError::InvalidParameters);
    }
    if !check_out_len(c.out_len) {
        return Err(HashError::HashComputationError);
    }
    let salt_bytes = resolve_salt(salt);
    let pw = password.as_bytes();
    let key = run_scrypt(pw, salt_bytes.as_slice(), c.log_n, c.r, c.p, c.out_len);
    let hexed = encode_hex(key.as_slice());
    proof {
        lemma_hex_of_ascii(key@);
    }
    let out = ascii_string(hexed);
    Ok(out)
}

/// Derive a password hash in raw-hex mode from optional inputs, as the
/// host-facing entry point takes them: absent values fall back to the
/// documented defaults (exponent 15, r = 8, p = 1, output length 8).
pub fn scrypt(
    password: &str,
    salt: Option<&str>,
    log_n: Option<u8>,
    r: Option<u32>,
    p: Option<u32>,
    len: Option<usize>,
) -> (res: Result<String, HashError>)
    ensures
        ({
            let c = resolved_params(log_n, r, p, len);
            &&& !cost_valid(c.log_n, c.r, c.p) ==> res == Err::<String, HashError>(
                HashError::InvalidParameters,
            )
            &&& cost_valid(c.log_n, c.r, c.p) && !out_len_valid(c.out_len) ==> res == Err::<
                String,
                HashError,
            >(HashError::HashComputationError)
            &&& salt matches Some(s) ==> ((cost_valid(c.log_n, c.r, c.p) && out_len_valid(
                c.out_len,
            )) ==> (res matches Ok(h) && h@ == ascii_chars_of(
                raw_hash_of(password.spec_bytes(), s.spec_bytes(), c),
            )))
            &&& (cost_valid(c.log_n, c.r, c.p) && out_len_valid(c.out_len) && salt is None) ==> (
            res matches Ok(h) && exists|sb: Seq<u8>|
                sb.len() == 16 && h@ == ascii_chars_of(raw_hash_of(password.spec_bytes(), sb, c)))
            &&& res matches Ok(h) ==> h@.len() == 2 * c.out_len
        }),
{
    let c = HashParams::resolve(log_n, r, p, len);
    derive_hash(password, salt, &c)
}

/// The base64 derived-key field an encoded-mode derivation embeds, for a
/// fixed salt.
pub open spec fn encoded_key_of(
    password: Seq<u8>,
    salt: Seq<u8>,
    log_n: u8,
    r: u32,
    p: u32,
) -> Seq<u8> {
    b64_of(scrypt_kdf(password, salt, log_n, r, p, ENCODED_OUT_LEN))
}

/// The full encoded string an encoded-mode derivation produces for a fixed
/// salt: the salt rides along base64-encoded, while the KDF itself runs on
/// the verbatim salt bytes.
pub open spec fn encoded_hash_of(
    password: Seq<u8>,
    salt: Seq<u8>,
    log_n: u8,
    r: u32,
    p: u32,
) -> Seq<u8> {
    encoded_of(log_n, r, p, b64_of(salt), encoded_key_of(password, salt, log_n, r, p))
}

/// Whether an encoded hash accepts a password: it parses, its cost triple is
/// valid, its salt field decodes from base64, and its derived-key field is
/// exactly what the KDF gives for that password with the decoded salt and
/// the embedded parameters.
pub open spec fn accepts(password: Seq<u8>, enc: Seq<u8>) -> bool {
    match parse_encoded(enc) {
        Some(t) => cost_valid(t.0, t.1, t.2) && match b64_decode(t.3) {
            Some(salt) => t.4 == encoded_key_of(password, salt, t.0, t.1, t.2),
            None => false,
        },
        None => false,
    }
}

/// Byte-for-byte equality of two slices.
fn bytes_eq(a: &[u8], b: &[u8]) -> (res: bool)
    ensures
        res == (a@ == b@),
{
    if a.len() != b.len() {
        return false;
    }
    let mut i: usize = 0;
    while i < a.len()
        invariant
            i <= a@.len(),
            a@.len() == b@.len(),
            forall|k: int| 0 <= k < i ==> a@[k] == b@[k],
        decreases a@.len() - i,
    {
        if a[i] != b[i] {
            return false;
        }
        i = i + 1;
    }
    proof {
        assert(a@ =~= b@);
    }
    true
}

/// Derive a password hash in encoded mode: a self-describing string holding
/// the algorithm tag, the cost parameters, the base64 salt, and the base64
/// derived key of 32 bytes, from which `verify_hash` can check a password.
/// The KDF runs on the verbatim salt bytes; base64 serves only to embed the
/// salt in the string, which caps it at 48 bytes (64 characters encoded).
///
/// Absent cost inputs fall back to the documented defaults (exponent 15,
/// r = 8, p = 1). Every string this function returns accepts the password it
/// was derived from.
pub fn derive_hash_encoded(
    password: &str,
    salt: Option<&str>,
    log_n: Option<u8>,
    r: Option<u32>,
    p: Option<u32>,
) -> (res: Result<String, HashError>)
    ensures
        ({
            let c = resolved_params(log_n, r, p, None);
            &&& !cost_valid(c.log_n, c.r, c.p) ==> res == Err::<String, HashError>(
                HashError::InvalidParameters,
            )
            &&& salt matches Some(s) ==> ((cost_valid(c.log_n, c.r, c.p) && s.spec_bytes().len()
                > MAX_SALT_INPUT_LEN) ==> res == Err::<String, HashError>(
                HashError::SaltEncodingError,
            ))
            &&& salt matches Some(s) ==> ((cost_valid(c.log_n, c.r, c.p) && s.spec_bytes().len()
                <= MAX_SALT_INPUT_LEN) ==> (res matches Ok(h) && h@ == ascii_chars_of(
                encoded_hash_of(password.spec_bytes(), s.spec_bytes(), c.log_n, c.r, c.p),
            )))
            &&& (cost_valid(c.log_n, c.r, c.p) && salt is None) ==> (res matches Ok(h) && exists|
                sb: Seq<u8>,
            |
                sb.len() == 16 && h@ == ascii_chars_of(
                    encoded_hash_of(password.spec_bytes(), sb, c.log_n, c.r, c.p),
                ))
            &&& res matches Ok(h) ==> accepts(password.spec_bytes(), vstd::utf8::encode_utf8(h@))
        }),
{
    let c = HashParams::resolve(log_n, r, p, None);
    if !check_cost(c.log_n, c.r, c.p) {
        return Err(HashError::InvalidParameters);
    }
    if let Some(s) = salt {
        if s.len() > MAX_SALT_INPUT_LEN {
            return Err(HashError::SaltEncodingError);
        }
    }
    let salt_bytes = resolve_salt(salt);
    let salt_field = b64_encode(salt_bytes.as_slice());
    let key = run_scrypt(
        password.as_bytes(),
        salt_bytes.as_slice(),
        c.log_n,
        c.r,
        c.p,
        ENCODED_OUT_LEN,
    );
    let hash_field = b64_encode(key.as_slice());
    proof {
        lemma_b64_of_range(salt_bytes@);
        lemma_b64_of_range(key@);
        lemma_encoded_of_ascii(c.log_n, c.r, c.p, salt_field@, hash_field@);
    }
    let enc = format_encoded(c.log_n, c.r, c.p, salt_field.as_slice(), hash_field.as_slice());
    let ghost ebytes = enc@;
    let out = ascii_string(enc);
    proof {
        lemma_parse_of_encoded(c.log_n, c.r, c.p, salt_field@, hash_field@);
        lemma_b64_decode_of(salt_bytes@);
        lemma_encode_utf8_of_ascii_chars(ebytes);
    }
    Ok(out)
}

/// Check a password against an encoded hash: parse the string, decode the
/// embedded base64 salt, re-derive the key for the password with that salt
/// and the embedded parameters, and compare. A string that does not parse,
/// or whose salt field is not base64, is a `ParseError`; an embedded cost
/// triple out of range is `InvalidParameters`; otherwise the verdict is
/// `Ok`, true exactly when the hash accepts the password.
pub fn verify_hash(password: &str, encoded: &str) -> (res: Result<bool, HashError>)
    ensures
        parse_encoded(encoded.spec_bytes()) is None ==> res == Err::<bool, HashError>(
            HashError::ParseError,
        ),
        parse_encoded(encoded.spec_bytes()) matches Some(t) ==> ((!cost_valid(t.0, t.1, t.2)
            ==> res == Err::<bool, HashError>(HashError::InvalidParameters)) && ((cost_valid(
            t.0,
            t.1,
            t.2,
        ) && b64_decode(t.3) is None) ==> res == Err::<bool, HashError>(HashError::ParseError))
            && ((cost_valid(t.0, t.1, t.2) && b64_decode(t.3) is Some) ==> res == Ok::<
            bool,
            HashError,
        >(accepts(password.spec_bytes(), encoded.spec_bytes())))),
{
    let eb = encoded.as_bytes();
    let ph = match parse_encoded_bytes(eb) {
        None => {
            return Err(HashError::ParseError);
        },
        Some(ph) => ph,
    };
    if !check_cost(ph.log_n, ph.r, ph.p) {
        return Err(HashError::InvalidParameters);
    }
    let salt_bytes = match b64_decode_bytes(ph.salt_b64.as_slice()) {
        None => {
            return Err(HashError::ParseError);
        },
        Some(v) => v,
    };
    let pw = password.as_bytes();
    let key = run_scrypt(pw, salt_bytes.as_slice(), ph.log_n, ph.r, ph.p, ENCODED_OUT_LEN);
    let expect = b64_encode(key.as_slice());
    let ok = bytes_eq(expect.as_slice(), ph.hash_b64.as_slice());
    Ok(ok)
}

/// Round trip of the encoded mode: an encoded hash derived from a password
/// accepts that very password, whatever the salt.
pub proof fn lemma_encoded_round_trip(password: Seq<u8>, salt: Seq<u8>, log_n: u8, r: u32, p: u32)
    requires
        cost_valid(log_n, r, p),
    ensures
        accepts(password, encoded_hash_of(password, salt, log_n, r, p)),
{
    lemma_b64_of_range(salt);
    lemma_parse_of_encoded(log_n, r, p, b64_of(salt), encoded_key_of(password, salt, log_n, r, p));
    lemma_b64_decode_of(salt);
}

/// Verification decides by the derived key alone: an encoded hash derived
/// from one password accepts an attempted password exactly when the KDF
/// gives the attempt the same embedded key — a different password is
/// accepted only on a derived-key collision.
pub proof fn lemma_verify_decides_by_key(
    attempt: Seq<u8>,
    password: Seq<u8>,
    salt: Seq<u8>,
    log_n: u8,
    r: u32,
    p: u32,
)
    requires
        cost_valid(log_n, r, p),
    ensures
        accepts(attempt, encoded_hash_of(password, salt, log_n, r, p)) == (encoded_key_of(
            attempt,
            salt,
            log_n,
            r,
            p,
        ) == encoded_key_of(password, salt, log_n, r, p)),
{
    lemma_b64_of_range(salt);
    lemma_parse_of_encoded(log_n, r, p, b64_of(salt), encoded_key_of(password, salt, log_n, r, p));
    lemma_b64_decode_of(salt);
}

/// Determinism of raw-mode derivation: two results obtained from the same
/// password bytes, the same salt bytes, and the same parameters are equal.
pub proof fn lemma_derive_deterministic(
    password: Seq<u8>,
    salt: Seq<u8>,
    c: HashParams,
    out1: Seq<char>,
    out2: Seq<char>,
)
    requires
        out1 == ascii_chars_of(raw_hash_of(password, salt, c)),
        out2 == ascii_chars_of(raw_hash_of(password, salt, c)),
    ensures
        out1 == out2,
{
}

} // verus!
