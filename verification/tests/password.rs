use example_monitoring_web::password::{hash_password, hash_password_with_salt, verify_password};

const ONE_ROUND: &str =
    "pbkdf2_sha256$1$73616c74$120fb6cffcf8b32c43e7225256c4f837a86548c92ccc35480805987cb70be17b";

#[test]
fn verify_password_known_vector() {
    assert!(verify_password("password", ONE_ROUND));
    assert!(!verify_password("passw0rd", ONE_ROUND));
}

#[test]
fn verify_password_two_rounds() {
    let stored =
        "pbkdf2_sha256$2$73616C74$ae4d0c95af6b46d32d0adff928f06dd02a303f8ef3c251dfd6e2d85a95474c43";
    assert!(verify_password("password", stored));
}

#[test]
fn verify_password_shorter_digest() {
    // the digest length decides how many bytes are derived
    assert!(verify_password("password", "pbkdf2_sha256$1$73616c74$120fb6cf"));
    assert!(!verify_password("password", "pbkdf2_sha256$1$73616c74$120fb6ce"));
}

#[test]
fn verify_password_refuses_malformed_hashes() {
    assert!(!verify_password("password", ""));
    assert!(!verify_password("password", "bcrypt$1$73616c74$120fb6cf"));
    assert!(!verify_password("password", "pbkdf2_sha256$1$73616c74"));
    assert!(!verify_password("password", "pbkdf2_sha256$1$73616c74$120fb6cf$"));
    assert!(!verify_password("password", "pbkdf2_sha256$x$73616c74$120fb6cf"));
    assert!(!verify_password("password", "pbkdf2_sha256$-1$73616c74$120fb6cf"));
    assert!(!verify_password("password", "pbkdf2_sha256$1$7361zz74$120fb6cf"));
    assert!(!verify_password("password", "pbkdf2_sha256$1$73616c74$120fb6c"));
}

#[test]
fn hash_password_format_and_round_trip() {
    let stored = hash_password_with_salt("correct horse", &[0u8; 16]);
    let parts: Vec<&str> = stored.split('$').collect();
    assert_eq!(parts.len(), 4);
    assert_eq!(parts[0], "pbkdf2_sha256");
    assert_eq!(parts[1], "600000");
    assert_eq!(parts[2], "00000000000000000000000000000000");
    assert_eq!(parts[3].len(), 64);
    assert!(verify_password("correct horse", &stored));
    assert!(!verify_password("wrong horse", &stored));
}

#[test]
fn hash_password_uses_fresh_salt() {
    let a = hash_password("pw");
    let b = hash_password("pw");
    assert!(a.starts_with("pbkdf2_sha256$600000$"));
    assert_eq!(a.split('$').nth(2).unwrap().len(), 32);
    assert_ne!(a, b);
}

#[test]
fn stored_hash_lengths() {
    assert_eq!(hash_password("pw").len(), 118);
    assert_eq!(hash_password_with_salt("pw", &[1u8; 16]).len(), 118);
    assert_eq!(hash_password_with_salt("pw", b"salt").len(), 94);
}
