//! The password codec against the real keyed bcrypt implementation.

use authcore::password::{hash_password, verify_password, PasswordError};

const PEPPER: &[u8] = b"server pepper";

#[test]
fn a_fresh_hash_verifies_its_password() {
    let hash = hash_password("secret123", PEPPER, 4).unwrap();
    assert!(verify_password("secret123", &hash, PEPPER));
}

#[test]
fn a_wrong_password_is_rejected() {
    let hash = hash_password("secret123", PEPPER, 4).unwrap();
    assert!(!verify_password("secret124", &hash, PEPPER));
    assert!(!verify_password("", &hash, PEPPER));
}

#[test]
fn a_wrong_pepper_is_rejected() {
    let hash = hash_password("secret123", PEPPER, 4).unwrap();
    assert!(!verify_password("secret123", &hash, b"other pepper"));
}

#[test]
fn hashing_is_salted() {
    let h1 = hash_password("secret123", PEPPER, 4).unwrap();
    let h2 = hash_password("secret123", PEPPER, 4).unwrap();
    assert_ne!(h1, h2);
    assert!(verify_password("secret123", &h1, PEPPER));
    assert!(verify_password("secret123", &h2, PEPPER));
}

#[test]
fn configuration_errors_are_distinguished() {
    assert_eq!(hash_password("pw", b"", 4).unwrap_err(), PasswordError::EmptyPepper);
    assert_eq!(hash_password("pw", PEPPER, 3).unwrap_err(), PasswordError::CostNotAllowed);
    assert_eq!(hash_password("pw", PEPPER, 32).unwrap_err(), PasswordError::CostNotAllowed);
}

#[test]
fn a_malformed_stored_hash_is_a_mismatch_not_a_crash() {
    assert!(!verify_password("pw", "not a bcrypt hash", PEPPER));
    assert!(!verify_password("pw", "", PEPPER));
}

#[test]
fn the_codec_interoperates_with_the_underlying_library() {
    let theirs = easy_password::bcrypt::hash_password("pw", PEPPER, 4).unwrap();
    assert!(verify_password("pw", &theirs, PEPPER));
    let ours = hash_password("pw", PEPPER, 4).unwrap();
    assert!(easy_password::bcrypt::verify_password("pw", &ours, PEPPER).unwrap());
}
