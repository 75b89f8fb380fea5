use keepass_sync::{Revision, RevisionError};

#[test]
fn hashes_bytes_with_sha256_prefix() {
    let revision = Revision::from_bytes(b"abc");
    assert_eq!(
        revision.as_str(),
        "sha256:ba7816bf8f01cfea414140de5dae2223b00361a396177a9cb410ff61f20015ad"
    );
}

#[test]
fn rejects_revision_without_prefix() {
    assert!(Revision::parse("abc").is_err());
}

#[test]
fn missing_prefix_is_reported() {
    assert_eq!(Revision::parse("abc").unwrap_err(), RevisionError::MissingPrefix);
    assert_eq!(Revision::parse("").unwrap_err(), RevisionError::MissingPrefix);
    assert_eq!(
        Revision::parse("SHA256:ba7816bf8f01cfea414140de5dae2223b00361a396177a9cb410ff61f20015ad")
            .unwrap_err(),
        RevisionError::MissingPrefix
    );
}

#[test]
fn wrong_length_is_reported_in_bytes() {
    assert_eq!(
        Revision::parse("sha256:abc").unwrap_err(),
        RevisionError::InvalidLength { actual: 3 }
    );
    assert_eq!(
        Revision::parse("sha256:").unwrap_err(),
        RevisionError::InvalidLength { actual: 0 }
    );
    // "é" is two bytes in UTF-8
    assert_eq!(
        Revision::parse("sha256:é").unwrap_err(),
        RevisionError::InvalidLength { actual: 2 }
    );
}

#[test]
fn non_hex_digits_are_reported() {
    let text = format!("sha256:{}", "g".repeat(64));
    assert_eq!(Revision::parse(&text).unwrap_err(), RevisionError::InvalidHex);
    // 62 ASCII digits and one two-byte character: 64 bytes, not hex
    let text = format!("sha256:{}é", "0".repeat(62));
    assert_eq!(Revision::parse(&text).unwrap_err(), RevisionError::InvalidHex);
}

#[test]
fn upper_case_hex_is_stored_lower_case() {
    let upper = "sha256:BA7816BF8F01CFEA414140DE5DAE2223B00361A396177A9CB410FF61F20015AD";
    let revision = Revision::parse(upper).unwrap();
    assert_eq!(
        revision.as_str(),
        "sha256:ba7816bf8f01cfea414140de5dae2223b00361a396177a9cb410ff61f20015ad"
    );
    assert_eq!(revision, Revision::from_bytes(b"abc"));
}

#[test]
fn revision_text_round_trips() {
    let revision = Revision::from_bytes(b"some database");
    let parsed = Revision::parse(revision.as_str()).unwrap();
    assert_eq!(parsed, revision);
    assert_eq!(parsed.as_str(), revision.as_str());
}

#[test]
fn empty_input_hash() {
    assert_eq!(
        Revision::from_bytes(b"").as_str(),
        "sha256:e3b0c44298fc1c149afbf4c8996fb92427ae41e4649b934ca495991b7852b855"
    );
}

#[test]
fn different_contents_have_different_revisions() {
    assert_ne!(Revision::from_bytes(b"a"), Revision::from_bytes(b"b"));
    assert_eq!(Revision::from_bytes(b"a"), Revision::from_bytes(b"a"));
}

#[test]
fn revision_error_messages() {
    assert_eq!(
        RevisionError::MissingPrefix.message(),
        "revision must start with sha256:"
    );
    assert_eq!(
        RevisionError::InvalidLength { actual: 3 }.message(),
        "revision hex must be 64 characters, got 3"
    );
    assert_eq!(
        RevisionError::InvalidLength { actual: 120 }.message(),
        "revision hex must be 64 characters, got 120"
    );
    assert_eq!(
        RevisionError::InvalidHex.message(),
        "revision contains non-hex characters"
    );
}

#[test]
fn digests_become_revisions() {
    let digest = [0xab_u8; 32];
    let revision = Revision::from_digest(&digest).unwrap();
    assert_eq!(revision.as_str(), format!("sha256:{}", "ab".repeat(32)));
    let mut digest = [0_u8; 32];
    digest[0] = 0x0f;
    digest[31] = 0xf0;
    let revision = Revision::from_digest(&digest).unwrap();
    assert_eq!(
        revision.as_str(),
        format!("sha256:0f{}f0", "00".repeat(30))
    );
    assert!(Revision::from_digest(&[1, 2, 3]).is_none());
    assert!(Revision::from_digest(&[0_u8; 33]).is_none());
}
