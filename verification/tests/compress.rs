use surrealdb_iroh::compress::{
    compress, decode_compressed, decompress, encode_compressed, message_of, smaller_of,
    CompressionConfig, CompressionError,
};

#[test]
fn test_compression_config_default() {
    let config = CompressionConfig::default();
    assert!(config.enabled);
    assert_eq!(config.level, 3);
    assert_eq!(config.min_size, 64);
}

#[test]
fn test_compression_disabled() {
    let config = CompressionConfig::new().with_enabled(false);
    let data = b"hello world this is some data to compress";
    let result = compress(data, &config);
    assert!(!result.compressed);
    assert_eq!(result.data.as_ref(), data);
}

#[test]
fn test_compression_small_data() {
    let config = CompressionConfig::new().with_min_size(1024);
    let data = b"short";
    let result = compress(data, &config);
    assert!(!result.compressed);
}

#[test]
fn test_compression_roundtrip() {
    let config = CompressionConfig::default();
    let data = b"This is a much longer piece of data that should compress well because it has repetition and patternssss";

    let encoded = encode_compressed(data, &config);
    let decoded = decode_compressed(&encoded).unwrap();

    assert_eq!(decoded.as_ref(), data);
}

#[test]
fn repetitive_data_gets_smaller_and_comes_back() {
    let data = vec![7u8; 5000];
    let result = compress(&data, &CompressionConfig::default());
    assert!(result.compressed);
    assert!(result.data.len() < data.len());
    assert_eq!(result.original_size, 5000);
    assert_eq!(decompress(&result.data, Some(5000)).unwrap().as_ref(), &data[..]);
    let framed = encode_compressed(&data, &CompressionConfig::default());
    assert_eq!(framed[0], 1);
    assert_eq!(framed[1..5], [0, 0, 0x13, 0x88]);
    assert_eq!(decode_compressed(&framed).unwrap().as_ref(), &data[..]);
}

#[test]
fn a_frame_that_is_not_smaller_is_not_used() {
    let r = smaller_of(&[1, 2, 3], Some(vec![9, 9, 9]));
    assert!(!r.compressed);
    assert_eq!(r.data.as_ref(), &[1, 2, 3]);
    let r = smaller_of(&[1, 2, 3], Some(vec![9, 9]));
    assert!(r.compressed);
    assert_eq!(r.data.as_ref(), &[9, 9]);
    assert_eq!(r.original_size, 3);
    let r = smaller_of(&[1, 2, 3], None);
    assert!(!r.compressed);
}

#[test]
fn the_message_goes_by_what_was_chosen() {
    let framed = message_of(&smaller_of(&[1, 2, 3], Some(vec![9, 8])));
    assert_eq!(&framed[..], &[1, 0, 0, 0, 3, 9, 8]);
    let plain = message_of(&smaller_of(&[1, 2, 3], None));
    assert_eq!(&plain[..], &[0, 1, 2, 3]);
}

#[test]
fn decompression_needs_room_for_all_of_the_data() {
    let data = vec![7u8; 5000];
    let frame = compress(&data, &CompressionConfig::default()).data;
    assert_eq!(decompress(&frame, None).unwrap().len(), 5000);
    assert_eq!(decompress(&frame, Some(6000)).unwrap().len(), 5000);
    assert!(decompress(&frame, Some(4999)).is_err());
}

#[test]
fn plain_data_is_framed_as_it_is() {
    let config = CompressionConfig::new().with_enabled(false).with_level(1).with_min_size(1);
    let framed = encode_compressed(b"abc", &config);
    assert_eq!(&framed[..], &[0, b'a', b'b', b'c']);
    assert_eq!(decode_compressed(&framed).unwrap().as_ref(), b"abc");
    assert_eq!(decode_compressed(&[0]).unwrap().len(), 0);
}

#[test]
fn what_is_no_frame_is_refused() {
    let e = decode_compressed(&[]).err().unwrap();
    assert!(matches!(e, CompressionError::InvalidData(_)));
    let e = decode_compressed(&[1, 0, 0]).err().unwrap();
    assert!(matches!(e, CompressionError::InvalidData(_)));
    let e = decode_compressed(&[1, 0, 0, 0, 4, 1, 2, 3]).err().unwrap();
    assert!(matches!(e, CompressionError::DecompressionFailed(_)));
    let e = decompress(b"junk", None).err().unwrap();
    assert!(e.message().starts_with("decompression failed"));
    assert_eq!(
        CompressionError::BufferTooSmall(2, 3).message(),
        "buffer too small: needed 2, got 3"
    );
}

#[test]
fn refusals_in_words() {
    assert_eq!(decode_compressed(&[]).err().unwrap().message(), "invalid data: empty data");
    assert_eq!(
        decode_compressed(&[1]).err().unwrap().message(),
        "invalid data: truncated compressed data"
    );
}

#[test]
fn a_bad_frame_is_refused_with_the_reason() {
    let reason = zstd::bulk::decompress(b"junk", 100).unwrap_err().to_string();
    match decompress(b"junk", Some(100)) {
        Err(CompressionError::DecompressionFailed(text)) => assert_eq!(text, reason),
        _ => panic!("the frame is not valid"),
    }
    match decode_compressed(&[1, 0, 0, 0, 100, b'j', b'u', b'n', b'k']) {
        Err(CompressionError::DecompressionFailed(text)) => assert_eq!(text, reason),
        _ => panic!("the frame is not valid"),
    }
}
