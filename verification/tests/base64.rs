use apr::base64::{
    base64_decode, base64_decode_len, base64_decode_string, base64_encode, base64_encode_len,
    base64_encode_string,
};
use apr::Status;

#[test]
fn test_base64_encode_empty() {
    assert_eq!(base64_encode(b""), "");
}

#[test]
fn test_base64_encode_hello() {
    assert_eq!(base64_encode(b"Hello, World!"), "SGVsbG8sIFdvcmxkIQ==");
}

#[test]
fn test_base64_encode_binary() {
    let data = vec![0xFF, 0x00, 0xAB, 0xCD, 0xEF];
    let encoded = base64_encode(&data);
    assert!(!encoded.is_empty());
}

#[test]
fn test_base64_decode_hello() {
    let decoded = base64_decode("SGVsbG8sIFdvcmxkIQ==").unwrap();
    assert_eq!(decoded, b"Hello, World!");
}

#[test]
fn test_base64_round_trip() {
    let original = b"The quick brown fox jumps over the lazy dog";
    let encoded = base64_encode(original);
    let decoded = base64_decode(&encoded).unwrap();
    assert_eq!(decoded, original);
}

#[test]
fn test_base64_string_round_trip() {
    let original = "Hello, 世界! 🦀";
    let encoded = base64_encode_string(original);
    let decoded = base64_decode_string(&encoded).unwrap();
    assert_eq!(decoded, original);
}

#[test]
fn test_base64_decode_invalid() {
    let result = base64_decode("!@#$%^&*()");
    let _ = result;
}

#[test]
fn test_base64_encode_len() {
    assert_eq!(base64_encode_len(0), 1);
    assert_eq!(base64_encode_len(1), 5);
    assert_eq!(base64_encode_len(2), 5);
    assert_eq!(base64_encode_len(3), 5);
    assert_eq!(base64_encode_len(4), 9);
}

#[test]
fn base64_binary_exact_value() {
    assert_eq!(base64_encode(&[0xFF, 0x00, 0xAB, 0xCD, 0xEF]), "/wCrze8=");
    assert_eq!(base64_decode("/wCrze8=").unwrap(), vec![0xFF, 0x00, 0xAB, 0xCD, 0xEF]);
}

#[test]
fn base64_decode_stops_at_first_non_symbol() {
    assert_eq!(base64_decode("!@#$%^&*()").unwrap(), Vec::<u8>::new());
    assert_eq!(base64_decode("SGVs bG8=").unwrap(), b"Hel".to_vec());
    assert_eq!(base64_decode("SGVsbA").unwrap(), b"Hell".to_vec());
}

#[test]
fn base64_decode_refuses_nul() {
    let e = base64_decode("SGVs\0bG8=").unwrap_err();
    assert_eq!(e.status(), Status::General);
}

#[test]
fn base64_decode_len_values() {
    assert_eq!(base64_decode_len("SGVsbG8sIFdvcmxkIQ=="), 16);
    assert_eq!(base64_decode_len(""), 1);
    assert_eq!(base64_decode_len("a\0b"), 0);
}

#[test]
fn base64_decode_string_refuses_invalid_utf8() {
    let e = base64_decode_string("/w==").unwrap_err();
    assert_eq!(e.status(), Status::General);
}
