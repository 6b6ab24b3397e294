use surrealdb_iroh::common::{
    base64_url_decode, base64_url_encode, current_timestamp_nanos, current_timestamp_secs,
    duration_as_micros, duration_as_ms, timestamp_nanos_at, timestamp_secs_at,
};
use std::time::{Duration, SystemTime, UNIX_EPOCH};

#[test]
fn test_base64_url_roundtrip() {
    let original = b"Hello, World! This is a test.";
    let encoded = base64_url_encode(original);
    let decoded = base64_url_decode(&encoded).unwrap();
    assert_eq!(original.as_slice(), decoded.as_slice());
}

#[test]
fn test_base64_url_no_padding() {
    let data = b"test";
    let encoded = base64_url_encode(data);
    assert!(!encoded.contains('='));
}

#[test]
fn test_base64_url_decode_invalid_char() {
    let result = base64_url_decode("invalid!!!");
    assert!(result.is_err());
}

#[test]
fn test_base64_url_decode_empty() {
    let result = base64_url_decode("").unwrap();
    assert!(result.is_empty());
}

#[test]
fn test_current_timestamp_nanos() {
    let ts = current_timestamp_nanos();
    assert!(ts > 0, "timestamp should be positive");
}

#[test]
fn test_current_timestamp_secs() {
    let ts = current_timestamp_secs();
    assert!(ts > 0, "timestamp should be positive");
}

#[test]
fn test_timestamp_monotonic() {
    let mut prev = 0u64;
    for _ in 0..100 {
        let ts = current_timestamp_nanos();
        assert!(ts >= prev, "timestamps should be monotonic");
        prev = ts;
    }
}

#[test]
fn test_base64_url_decode_integration() {
    let data = b"HelloWorld123";
    let encoded = base64_url_encode(data);
    let decoded = base64_url_decode(&encoded).unwrap();
    assert_eq!(
        data.as_slice(),
        decoded.as_slice(),
        "roundtrip should preserve data"
    );

    let data2 = b"test-data_with-special";
    let encoded2 = base64_url_encode(data2);
    let decoded2 = base64_url_decode(&encoded2).unwrap();
    assert_eq!(data2.as_slice(), decoded2.as_slice());
}

#[test]
fn test_ticket_roundtrip() {
    let json = r#"{"endpoint_id":"test","addresses":[]}"#;
    let bytes = json.as_bytes();

    let encoded = base64_url_encode(bytes);
    println!("Encoded: {} chars", encoded.len());

    let decoded = base64_url_decode(&encoded).unwrap();
    let decoded_str = String::from_utf8(decoded).unwrap();
    println!("Decoded: {}", decoded_str);

    assert_eq!(json, decoded_str);
}

#[test]
fn base64_known_texts() {
    assert_eq!(base64_url_encode(b""), "");
    assert_eq!(base64_url_encode(b"f"), "Zg");
    assert_eq!(base64_url_encode(b"fo"), "Zm8");
    assert_eq!(base64_url_encode(b"foo"), "Zm9v");
    assert_eq!(base64_url_encode(b"foob"), "Zm9vYg");
    assert_eq!(base64_url_encode(&[0xfb, 0xff, 0xfe]), "-__-");
    assert_eq!(base64_url_decode("-__-").unwrap(), vec![0xfb, 0xff, 0xfe]);
}

#[test]
fn base64_refuses_padding_and_other_alphabets() {
    assert_eq!(base64_url_decode("Zg=="), Err("invalid base64 character"));
    assert_eq!(base64_url_decode("+/"), Err("invalid base64 character"));
    assert_eq!(base64_url_decode("Zm9vé"), Err("invalid base64 character"));
}

#[test]
fn base64_roundtrip_of_every_byte() {
    for len in 0..70usize {
        let data: Vec<u8> = (0..len).map(|i| (i * 37 + len) as u8).collect();
        assert_eq!(base64_url_decode(&base64_url_encode(&data)).unwrap(), data);
    }
    let all: Vec<u8> = (0..=255u8).collect();
    assert_eq!(base64_url_decode(&base64_url_encode(&all)).unwrap(), all);
}

#[test]
fn timestamps_of_given_times() {
    let t = UNIX_EPOCH + Duration::new(12, 345);
    assert_eq!(timestamp_secs_at(t), 12);
    assert_eq!(timestamp_nanos_at(t), 12_000_000_345);
    let before: SystemTime = UNIX_EPOCH - Duration::from_secs(5);
    assert_eq!(timestamp_secs_at(before), 0);
    assert_eq!(timestamp_nanos_at(before), 0);
}

#[test]
fn durations_in_smaller_units() {
    let d = Duration::new(2, 3_456_789);
    assert_eq!(duration_as_ms(d), 2003);
    assert_eq!(duration_as_micros(d), 2_003_456);
}
