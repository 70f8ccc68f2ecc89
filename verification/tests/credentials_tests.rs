use lumen::credentials::{hash_password, hash_password_with_salt, hex_of_u128, verify_password};

#[test]
fn hex_of_u128_prints_lower_case_without_leading_zeros() {
    assert_eq!(hex_of_u128(0), "0");
    assert_eq!(hex_of_u128(9), "9");
    assert_eq!(hex_of_u128(10), "a");
    assert_eq!(hex_of_u128(255), "ff");
    assert_eq!(hex_of_u128(256), "100");
    assert_eq!(hex_of_u128(0x1234abcd), "1234abcd");
    assert_eq!(hex_of_u128(u128::MAX), "ffffffffffffffffffffffffffffffff");
    assert_eq!(hex_of_u128(1_700_000_000_123_456_789), format!("{:x}", 1_700_000_000_123_456_789u128));
}

#[test]
fn salted_hash_is_salt_colon_sha256_hex() {
    assert_eq!(
        hash_password_with_salt("abc", "password"),
        "abc:c5ae5f176fadad3c9fe337ac7d4846b2603faffc66dfa47295d638021671a547"
    );
    assert_eq!(
        hash_password_with_salt("salt", ""),
        "salt:63479ad69a090b258277ec8fba6f99419a2ffb248981510657c944ccd1148e97"
    );
}

#[test]
fn stored_hash_verifies_its_password_only() {
    let stored = hash_password_with_salt("18a3f0c9d2e", "s3cret");
    assert!(verify_password(&stored, "s3cret"));
    assert!(!verify_password(&stored, "s3cret "));
    assert!(!verify_password(&stored, ""));
}

#[test]
fn verify_accepts_a_known_hash() {
    assert!(verify_password(
        "abc:c5ae5f176fadad3c9fe337ac7d4846b2603faffc66dfa47295d638021671a547",
        "password"
    ));
}

#[test]
fn verify_rejects_malformed_stored_hashes() {
    assert!(!verify_password("", "password"));
    assert!(!verify_password("abc", "password"));
    assert!(!verify_password(
        "abc:c5ae5f176fadad3c9fe337ac7d4846b2603faffc66dfa47295d638021671a547:x",
        "password"
    ));
    assert!(!verify_password(
        "abc:C5AE5F176FADAD3C9FE337AC7D4846B2603FAFFC66DFA47295D638021671A547",
        "password"
    ));
}

#[test]
fn non_ascii_salt_and_password_round_trip() {
    let stored = hash_password_with_salt("sälz", "pässwörd");
    assert!(stored.starts_with("sälz:"));
    assert!(verify_password(&stored, "pässwörd"));
    assert!(!verify_password(&stored, "passwörd"));
}

#[test]
fn hash_password_verifies_and_uses_a_hex_salt() {
    let stored = hash_password("hunter2").expect("the clock is after 1970");
    let (salt, digest) = stored.split_once(':').expect("salt:hash");
    assert!(!salt.is_empty());
    assert!(salt.chars().all(|c| c.is_ascii_hexdigit() && !c.is_ascii_uppercase()));
    assert_eq!(digest.len(), 64);
    assert!(verify_password(&stored, "hunter2"));
    assert!(!verify_password(&stored, "hunter3"));
}
