use github_actions_local_cache::digest::{is_sha256, sha256, PayloadHasher};
use github_actions_local_cache::entry::created_at_text;

#[test]
fn digests_are_lowercase_hex_sha256() {
    assert_eq!(
        sha256("abc"),
        "ba7816bf8f01cfea414140de5dae2223b00361a396177a9cb410ff61f20015ad"
    );
    assert_eq!(
        sha256(""),
        "e3b0c44298fc1c149afbf4c8996fb92427ae41e4649b934ca495991b7852b855"
    );
    assert!(is_sha256(&sha256("any key at all")));
    assert_ne!(sha256("a"), sha256("b"));
}

#[test]
fn sha256_text_form_is_strict() {
    assert!(is_sha256(&"a".repeat(64)));
    assert!(!is_sha256(&"A".repeat(64)));
    assert!(!is_sha256(&"a".repeat(63)));
    assert!(!is_sha256(&"g".repeat(64)));
    assert!(!is_sha256(&format!("{}é", "a".repeat(63))));
}

#[test]
fn streamed_payload_digest_matches_one_shot() {
    let mut hasher = PayloadHasher::new();
    hasher.update(b"a");
    hasher.update(b"");
    hasher.update(b"bc");
    assert_eq!(
        hasher.digest_hex(),
        "ba7816bf8f01cfea414140de5dae2223b00361a396177a9cb410ff61f20015ad"
    );
    assert_eq!(PayloadHasher::new().digest_hex(), sha256(""));
}

#[test]
fn created_at_is_rfc3339() {
    assert_eq!(created_at_text(0).unwrap(), "1970-01-01T00:00:00Z");
    assert_eq!(created_at_text(1_500_000_000).unwrap(), "1970-01-01T00:00:01.5Z");
    assert_eq!(
        created_at_text(253_402_300_799_999_999_999).unwrap(),
        "9999-12-31T23:59:59.999999999Z"
    );
    assert_eq!(created_at_text(-62_167_219_200_000_000_000).unwrap(), "0000-01-01T00:00:00Z");
    let error = created_at_text(253_402_300_800_000_000_000).unwrap_err();
    assert_eq!(error.code, "metadata-create");
    assert!(created_at_text(-62_167_219_200_000_000_001).is_err());
    assert!(created_at_text(i128::MAX).is_err());
}
