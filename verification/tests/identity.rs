use guild_core::Identifier;

#[test]
fn text_is_hyphenated_lower_case() {
    let id = Identifier::from_u128(0xa1a2a3a4b1b2c1c2d1d2d3d4d5d6d7d8);
    assert_eq!(id.as_str(), "a1a2a3a4-b1b2-c1c2-d1d2-d3d4d5d6d7d8");
    assert_eq!(id.as_u128(), 0xa1a2a3a4b1b2c1c2d1d2d3d4d5d6d7d8);
}

#[test]
fn text_of_small_values_is_padded() {
    assert_eq!(Identifier::from_u128(0).as_str(), "00000000-0000-0000-0000-000000000000");
    assert_eq!(Identifier::from_u128(0x1f).as_str(), "00000000-0000-0000-0000-00000000001f");
    assert_eq!(Identifier::from_u128(u128::MAX).as_str(), "ffffffff-ffff-ffff-ffff-ffffffffffff");
}

#[test]
fn text_agrees_with_the_uuid_crate() {
    let uuid = uuid::Uuid::parse_str("936da01f-9abd-4d9d-80c7-02af85c822a8").unwrap();
    let id = Identifier::from_u128(uuid.as_u128());
    assert_eq!(id.as_str(), uuid.to_string());
}

#[test]
fn parse_reads_the_canonical_text_back() {
    let id = Identifier::from_u128(0x550e8400e29b41d4a716446655440000);
    let read = Identifier::parse(id.as_str()).unwrap();
    assert_eq!(read, id);
    assert_eq!(read.as_u128(), 0x550e8400e29b41d4a716446655440000);
}

#[test]
fn parse_reads_the_other_forms_of_the_uuid_crate() {
    let value = 0x550e8400e29b41d4a716446655440000u128;
    for text in [
        "550e8400e29b41d4a716446655440000",
        "550E8400-E29B-41D4-A716-446655440000",
        "{550e8400-e29b-41d4-a716-446655440000}",
        "urn:uuid:550e8400-e29b-41d4-a716-446655440000",
    ] {
        let read = Identifier::parse(text).unwrap();
        assert_eq!(read.as_u128(), value);
        assert_eq!(read.as_str(), "550e8400-e29b-41d4-a716-446655440000");
    }
}

#[test]
fn parse_rejects_what_is_no_identity() {
    assert!(Identifier::parse("").is_none());
    assert!(Identifier::parse("client_123").is_none());
    assert!(Identifier::parse("550e8400-e29b-41d4-a716-44665544000").is_none());
    assert!(Identifier::parse("550e8400-e29b-41d4-a716-44665544000g").is_none());
    assert!(Identifier::parse("550e8400_e29b_41d4_a716_446655440000").is_none());
}

#[test]
fn generate_gives_random_version_four_identities() {
    let a = Identifier::generate();
    let b = Identifier::generate();
    assert_ne!(a, b);
    assert_eq!((a.as_u128() >> 76) & 0xf, 4);
    assert_eq!((a.as_u128() >> 62) & 0x3, 2);
    assert_eq!(Identifier::parse(a.as_str()).unwrap(), a);
}

#[test]
fn duplicate_is_equal() {
    let id = Identifier::from_u128(42);
    assert_eq!(id.duplicate(), id);
}
