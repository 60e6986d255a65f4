use scrypt_hash::{derive_hash_encoded, scrypt, verify_hash, HashError, HashParams};

#[test]
fn parameter_resolution_applies_defaults() {
    let c = HashParams::resolve(None, None, None, None);
    assert_eq!((c.log_n, c.r, c.p, c.out_len), (15, 8, 1, 8));
    assert!(c.cost_is_valid());
    let bad = HashParams::resolve(Some(0), None, None, None);
    assert!(!bad.cost_is_valid());
}

#[test]
fn cost_exponent_must_stay_below_sixteen_times_block_size() {
    assert_eq!(
        scrypt("pw", Some("salt"), Some(16), Some(1), Some(1), Some(8)),
        Err(HashError::InvalidParameters)
    );
    assert!(scrypt("pw", Some("salt"), Some(15), Some(1), Some(1), Some(8)).is_ok());
}

#[test]
fn raw_output_is_hex_of_requested_length() {
    // Two characters per derived byte, for several valid parameter sets.
    let cases: [(u8, u32, u32, usize); 4] = [(1, 8, 1, 1), (2, 16, 2, 7), (4, 8, 1, 33), (15, 8, 1, 8)];
    for (log_n, r, p, len) in cases {
        let hash = scrypt("pw", Some("somesalt"), Some(log_n), Some(r), Some(p), Some(len)).unwrap();
        assert_eq!(hash.len(), 2 * len);
        assert!(hash.chars().all(|c| c.is_ascii_hexdigit() && !c.is_ascii_uppercase()));
    }
}

#[test]
fn raw_derivation_is_deterministic() {
    let a = scrypt("repeatable", Some("fixed-salt"), Some(4), Some(8), Some(1), Some(16)).unwrap();
    let b = scrypt("repeatable", Some("fixed-salt"), Some(4), Some(8), Some(1), Some(16)).unwrap();
    assert_eq!(a, b);
}

#[test]
fn different_salts_give_different_hashes() {
    let a = scrypt("pw", Some("salt1"), Some(4), Some(8), Some(1), Some(16)).unwrap();
    let b = scrypt("pw", Some("salt2"), Some(4), Some(8), Some(1), Some(16)).unwrap();
    assert_ne!(a, b);
}

#[test]
fn zero_parameters_are_rejected() {
    assert_eq!(
        scrypt("pw", Some("salt"), Some(0), Some(8), Some(1), Some(8)),
        Err(HashError::InvalidParameters)
    );
    assert_eq!(
        scrypt("pw", Some("salt"), Some(4), Some(0), Some(1), Some(8)),
        Err(HashError::InvalidParameters)
    );
    assert_eq!(
        scrypt("pw", Some("salt"), Some(4), Some(8), Some(0), Some(8)),
        Err(HashError::InvalidParameters)
    );
}

#[test]
fn oversized_salt_is_rejected() {
    // Only the encoded mode embeds the salt; 49 bytes no longer fit its
    // 64-character base64 salt field, while 48 still do.
    let long_salt = "x".repeat(49);
    assert_eq!(
        derive_hash_encoded("pw", Some(&long_salt), Some(4), Some(8), Some(1)),
        Err(HashError::SaltEncodingError)
    );
    let ok_salt = "x".repeat(48);
    assert!(derive_hash_encoded("pw", Some(&ok_salt), Some(4), Some(8), Some(1)).is_ok());
    // Raw-mode derivation embeds nothing and takes any salt verbatim.
    assert!(scrypt("pw", Some(&long_salt), Some(4), Some(8), Some(1), Some(8)).is_ok());
}

#[test]
fn zero_output_length_is_rejected() {
    assert_eq!(
        scrypt("pw", Some("salt"), Some(4), Some(8), Some(1), Some(0)),
        Err(HashError::HashComputationError)
    );
}

#[test]
fn encoded_round_trip_accepts_right_password_only() {
    let encoded = derive_hash_encoded("correct horse", Some("battery"), Some(4), Some(8), Some(1))
        .unwrap();
    assert!(verify_hash("correct horse", &encoded).unwrap());
    assert!(!verify_hash("correct horsf", &encoded).unwrap());
    assert!(!verify_hash("", &encoded).unwrap());
}

#[test]
fn encoded_round_trip_with_random_salt() {
    let encoded = derive_hash_encoded("pw", None, Some(4), Some(8), Some(1)).unwrap();
    assert!(verify_hash("pw", &encoded).unwrap());
    assert!(!verify_hash("other", &encoded).unwrap());
}

#[test]
fn malformed_encoded_hash_is_a_parse_error() {
    assert_eq!(verify_hash("pw", "nonsense"), Err(HashError::ParseError));
    assert_eq!(verify_hash("pw", ""), Err(HashError::ParseError));
    assert_eq!(verify_hash("pw", "$scrypt$ln=,r=8,p=1$AAAA$BBBB"), Err(HashError::ParseError));
    assert_eq!(verify_hash("pw", "$scrypt$ln=4,r=8,p=1$AAAA"), Err(HashError::ParseError));
    // A salt field that is not base64 is malformed too.
    assert_eq!(verify_hash("pw", "$scrypt$ln=4,r=8,p=1$A?AA$BBBB"), Err(HashError::ParseError));
    assert_eq!(verify_hash("pw", "$scrypt$ln=4,r=8,p=1$AAAAA$BBBB"), Err(HashError::ParseError));
}

#[test]
fn encoded_hash_with_invalid_cost_is_rejected() {
    assert_eq!(
        verify_hash("pw", "$scrypt$ln=0,r=8,p=1$AAAA$BBBB"),
        Err(HashError::InvalidParameters)
    );
    assert_eq!(
        verify_hash("pw", "$scrypt$ln=4,r=0,p=1$AAAA$BBBB"),
        Err(HashError::InvalidParameters)
    );
}

#[test]
fn encoded_hash_spells_out_its_parameters() {
    let encoded = derive_hash_encoded("hunter42", Some("test"), None, None, None).unwrap();
    // "test" is "dGVzdA" in unpadded base64.
    assert!(encoded.starts_with("$scrypt$ln=15,r=8,p=1$dGVzdA$"));
}

#[test]
fn absent_salt_draws_fresh_randomness() {
    let mut outputs: Vec<String> = Vec::new();
    for _ in 0..1000 {
        outputs.push(scrypt("pw", None, Some(1), Some(8), Some(1), Some(16)).unwrap());
    }
    outputs.sort();
    for pair in outputs.windows(2) {
        assert_ne!(pair[0], pair[1]);
    }
}

#[test]
fn matches_reference_scrypt_crate() {
    // The KDF runs on the caller's salt bytes verbatim. Recompute with the
    // scrypt crate directly and compare.
    let ours = scrypt("pw", Some("abc"), Some(4), Some(8), Some(1), Some(24)).unwrap();
    let params = scrypt::Params::new(4, 8, 1).unwrap();
    let mut out = [0u8; 24];
    scrypt::scrypt(b"pw", b"abc", &params, &mut out).unwrap();
    assert_eq!(ours, hex::encode(out));
}

#[test]
fn reference_vector_default_cost() {
    let hash = scrypt("hunter42", Some("test"), Some(15), Some(8), Some(1), Some(8)).unwrap();
    assert_eq!(hash.len(), 16);
    // The defaults resolve to the same parameter set.
    let defaulted = scrypt("hunter42", Some("test"), None, None, None, None).unwrap();
    assert_eq!(hash, defaulted);
    assert_eq!(hash, "8b95f00460d43eef");
}

#[test]
fn reference_vector_custom_cost() {
    // N = 16384 is exponent 14.
    let hash = scrypt(
        "some-scrypt-password",
        Some("some-salt"),
        Some(14),
        Some(12),
        Some(2),
        Some(64),
    )
    .unwrap();
    assert_eq!(hash.len(), 128);
    assert_eq!(hash, "b448ad7ba88b653b5b56b8053a06806724932d0751988bc9cd0ef7ff059e8ba8a020e1913b7069a650d3f99a1559aba0221f2c277826919513a054e76e339028");
}
