use scrypt_hash::{derive_hash_encoded, scrypt, verify_hash};

#[test]
fn test_scrypt_without_salt() {
    let hash = scrypt("hunter42", None, None, None, None, None).unwrap();

    println!("{:?}", hash);
}

#[test]
fn test_scrypt_with_salt() {
    let hash = scrypt("hunter42", Some("salt"), None, None, None, None).unwrap();
    assert_eq!(hash.len(), 16);

    // Verification pairs with the encoded output shape; derive one for the
    // same inputs and check the password against it.
    let encoded = derive_hash_encoded("hunter42", Some("salt"), None, None, None).unwrap();

    assert!(verify_hash("hunter42", &encoded).unwrap());
}

#[test]
fn test_scrypt_with_custom_params() {
    let hash = scrypt("some-scrypt-password", None, Some(2), Some(16), Some(1), Some(64)).unwrap();

    println!("{:?}", hash);
    assert_eq!(hash.len(), 128);

    let encoded =
        derive_hash_encoded("some-scrypt-password", None, Some(2), Some(16), Some(1)).unwrap();

    assert!(verify_hash("some-scrypt-password", &encoded).unwrap());
    assert!(!verify_hash("hunter42", &encoded).unwrap());
}

#[test]
fn test_scrypt_with_invalid_params() {
    assert!(scrypt("hunter42", None, Some(0), Some(0), Some(0), Some(0)).is_err());
}
