use apr::uuid::Uuid;
use std::collections::HashSet;

#[test]
fn test_uuid_generate() {
    let uuid1 = Uuid::new();
    let uuid2 = Uuid::new();
    assert_ne!(uuid1, uuid2);
}

#[test]
fn test_uuid_format() {
    let uuid = Uuid::new();
    let formatted = uuid.format();
    assert_eq!(formatted.len(), 36);
    assert_eq!(formatted.chars().nth(8), Some('-'));
    assert_eq!(formatted.chars().nth(13), Some('-'));
    assert_eq!(formatted.chars().nth(18), Some('-'));
    assert_eq!(formatted.chars().nth(23), Some('-'));
}

#[test]
fn test_uuid_parse_valid() {
    let uuid_str = "550e8400-e29b-41d4-a716-446655440000";
    let uuid = Uuid::parse(uuid_str).unwrap();
    assert_eq!(uuid.format().to_lowercase(), uuid_str.to_lowercase());
}

#[test]
fn test_uuid_parse_invalid() {
    assert!(Uuid::parse("not-a-uuid").is_err());
    assert!(Uuid::parse("550e8400-e29b-41d4-a716").is_err());
    assert!(Uuid::parse("550e8400-e29b-41d4-a716-446655440000-extra").is_err());
}

#[test]
fn test_uuid_round_trip() {
    let uuid1 = Uuid::new();
    let formatted = uuid1.format();
    let uuid2 = Uuid::parse(&formatted).unwrap();
    assert_eq!(uuid1, uuid2);
}

#[test]
fn test_uuid_from_str() {
    let uuid_str = "550e8400-e29b-41d4-a716-446655440000";
    let uuid: Uuid = uuid_str.parse().unwrap();
    assert_eq!(uuid.to_display_string().to_lowercase(), uuid_str.to_lowercase());
}

#[test]
fn test_uuid_bytes() {
    let bytes = [
        0x55, 0x0e, 0x84, 0x00, 0xe2, 0x9b, 0x41, 0xd4, 0xa7, 0x16, 0x44, 0x66, 0x55, 0x44,
        0x00, 0x00,
    ];
    let uuid = Uuid::from_bytes(bytes);
    assert_eq!(uuid.as_bytes(), &bytes);
}

#[test]
fn test_uuid_uniqueness() {
    let mut uuids = HashSet::new();
    for _ in 0..100 {
        let uuid = Uuid::new();
        assert!(uuids.insert(uuid.format()));
    }
    assert_eq!(uuids.len(), 100);
}

#[test]
fn test_uuid_display_debug() {
    let uuid = Uuid::new();
    let display = uuid.to_display_string();
    let debug = uuid.to_debug_string();
    assert_eq!(display, uuid.format());
    assert!(debug.starts_with("Uuid("));
    assert!(debug.ends_with(")"));
}

#[test]
fn uuid_parse_rules() {
    let u = Uuid::parse("550E8400-E29B-41D4-A716-446655440000").unwrap();
    assert_eq!(u.as_bytes()[0], 0x55);
    assert_eq!(u.format(), "550e8400-e29b-41d4-a716-446655440000");
    // a hex digit where a dash goes is accepted and skipped
    assert!(Uuid::parse("550e84000e29b-41d4-a716-446655440000").is_ok());
    assert_eq!(Uuid::parse("not-a-uuid").unwrap_err().status(), apr::Status::BadArgument);
    assert_eq!(Uuid::parse("550e8400\0").unwrap_err().status(), apr::Status::General);
}
