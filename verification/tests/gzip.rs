use flate2::read::GzDecoder;
use flate2::write::GzEncoder;
use flate2::Compression;
use pty_host::protocol::GZIP_THRESHOLD;
use std::io::Read;
use std::io::Write;

#[test]
fn gzip_compress_decompress_round_trip() {
    let original = b"hello world this is a test of gzip compression that should be longer than threshold".to_vec();
    let mut encoder = GzEncoder::new(Vec::new(), Compression::fast());
    encoder.write_all(&original).unwrap();
    let compressed = encoder.finish().unwrap();

    let mut decoder = GzDecoder::new(&compressed[..]);
    let mut decompressed = Vec::new();
    decoder.read_to_end(&mut decompressed).unwrap();

    assert_eq!(decompressed, original);
}

#[test]
fn gzip_below_threshold_not_compressed() {
    let small_data = b"small";
    assert!(small_data.len() < GZIP_THRESHOLD);
}

#[test]
fn gzip_large_data_round_trip() {
    let mut original = Vec::with_capacity(8192);
    for _ in 0..8192 {
        original.push(b'A');
    }
    assert!(original.len() >= GZIP_THRESHOLD);

    let mut encoder = GzEncoder::new(Vec::new(), Compression::fast());
    encoder.write_all(&original).unwrap();
    let compressed = encoder.finish().unwrap();

    assert!(compressed.len() < original.len());

    let mut decoder = GzDecoder::new(&compressed[..]);
    let mut decompressed = Vec::new();
    decoder.read_to_end(&mut decompressed).unwrap();
    assert_eq!(decompressed, original);
}

#[test]
fn gzip_random_data_may_be_larger() {
    let original: Vec<u8> = (0..5000).map(|i| (i * 7 + 13) as u8).collect();
    let mut encoder = GzEncoder::new(Vec::new(), Compression::fast());
    encoder.write_all(&original).unwrap();
    let compressed = encoder.finish().unwrap();

    let mut decoder = GzDecoder::new(&compressed[..]);
    let mut decompressed = Vec::new();
    decoder.read_to_end(&mut decompressed).unwrap();
    assert_eq!(decompressed, original);
}
