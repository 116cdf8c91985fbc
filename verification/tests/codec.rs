use wiremux::batch::{COMPRESSION_HEATSHRINK, COMPRESSION_LZ4, COMPRESSION_NONE};
use wiremux::codec::{
    compress, decompress, heatshrink_profile_compress, heatshrink_profile_decompress,
    lz4_block_compress, lz4_block_decompress, CodecError,
};

#[test]
fn heatshrink_round_trips_repeated_payload() {
    let input = b"ESP_LOGI demo demo demo demo demo telemetry telemetry telemetry";
    let compressed = compress(COMPRESSION_HEATSHRINK, input).expect("compress");
    assert_eq!(
        decompress(COMPRESSION_HEATSHRINK, &compressed, input.len()),
        Ok(input.to_vec())
    );
}

#[test]
fn lz4_round_trips_repeated_payload() {
    let input = b"channel=2 level=info value=42 channel=2 level=info value=43";
    let compressed = compress(COMPRESSION_LZ4, input).expect("compress");
    assert_eq!(
        decompress(COMPRESSION_LZ4, &compressed, input.len()),
        Ok(input.to_vec())
    );
}

#[test]
fn rejects_unknown_algorithm() {
    assert_eq!(
        compress(99, b"abc"),
        Err(CodecError::UnsupportedAlgorithm(99))
    );
}

#[test]
fn decompress_rejects_unknown_algorithm() {
    assert_eq!(
        decompress(7, b"abc", 3),
        Err(CodecError::UnsupportedAlgorithm(7))
    );
}

#[test]
fn no_compression_copies_the_payload() {
    assert_eq!(compress(COMPRESSION_NONE, b"abc"), Ok(b"abc".to_vec()));
    assert_eq!(decompress(COMPRESSION_NONE, b"abc", 3), Ok(b"abc".to_vec()));
}

#[test]
fn compression_shrinks_repeated_payloads() {
    let input = vec![b'a'; 200];
    let hs = heatshrink_profile_compress(&input).expect("heatshrink");
    let lz = lz4_block_compress(&input).expect("lz4");
    assert!(hs.len() < input.len());
    assert!(lz.len() < input.len());
    assert_eq!(heatshrink_profile_decompress(&hs, input.len()), Ok(input.clone()));
    assert_eq!(lz4_block_decompress(&lz, input.len()), Ok(input));
}

#[test]
fn round_trips_empty_and_short_inputs() {
    for input in [&b""[..], &b"x"[..], &b"xy"[..], &b"hello world"[..]] {
        for algorithm in [COMPRESSION_HEATSHRINK, COMPRESSION_LZ4] {
            let compressed = compress(algorithm, input).expect("compress");
            assert_eq!(decompress(algorithm, &compressed, input.len()), Ok(input.to_vec()));
        }
    }
}

#[test]
fn lz4_literal_only_block_has_exact_encoding() {
    assert_eq!(lz4_block_compress(b"abc"), Ok(vec![0x30, b'a', b'b', b'c']));
}

#[test]
fn decompress_rejects_wrong_length() {
    let compressed = compress(COMPRESSION_LZ4, b"abcdef").expect("compress");
    assert!(decompress(COMPRESSION_LZ4, &compressed, 3).is_err());
    assert!(lz4_block_decompress(&[0xF0], 100).is_err());
}
