use cachefs::compression::{compress_bzip2, compress_gzip, decompress_bzip2, decompress_gzip};
use cachefs::errors::CompressionError;

#[test]
fn test_gzip_compression() {
    let data = b"Hello world!";
    let compressed_data = compress_gzip(data).unwrap();
    let decompressed_data = decompress_gzip(compressed_data).unwrap();
    assert_eq!(
        String::from_utf8(decompressed_data).unwrap(),
        "Hello world!"
    );
}

#[test]
fn test_bzip2_compression() {
    let data = b"Hello world!";
    let decompressed_size = data.len();
    let compressed_data = compress_bzip2(data).unwrap();
    let decompressed_data = decompress_bzip2(compressed_data, decompressed_size).unwrap();
    assert_eq!(
        String::from_utf8(decompressed_data).unwrap(),
        "Hello world!"
    );
}

#[test]
fn test_gzip_round_trip_larger_input() {
    let mut data = Vec::new();
    for i in 0..4096u32 {
        data.push((i % 251) as u8);
    }
    let compressed = compress_gzip(&data).unwrap();
    assert_eq!(compressed[0], 0x1f);
    assert_eq!(compressed[1], 0x8b);
    assert_eq!(decompress_gzip(compressed).unwrap(), data);
}

#[test]
fn test_bzip2_round_trip_larger_input() {
    let mut data = Vec::new();
    for i in 0..4096u32 {
        data.push((i % 241) as u8);
    }
    let compressed = compress_bzip2(&data).unwrap();
    assert_eq!(decompress_bzip2(compressed, data.len()).unwrap(), data);
}

#[test]
fn test_decompress_bzip2_rejects_empty_input() {
    assert_eq!(
        decompress_bzip2(Vec::new(), 4).unwrap_err(),
        CompressionError::EmptyCompressedDataGiven
    );
}

#[test]
fn test_decompress_bzip2_rejects_short_input() {
    assert_eq!(
        decompress_bzip2(vec![1, 2, 3], 4).unwrap_err(),
        CompressionError::InvalidCompressedDataLengthGiven { given: 3, expected_at_least: 5 }
    );
}

#[test]
fn test_decompress_bzip2_rejects_corrupt_input() {
    assert_eq!(
        decompress_bzip2(vec![9, 9, 9, 9, 9, 9, 9, 9], 4).unwrap_err(),
        CompressionError::Io
    );
}

#[test]
fn test_decompress_gzip_rejects_empty_input() {
    assert_eq!(
        decompress_gzip(Vec::new()).unwrap_err(),
        CompressionError::EmptyCompressedDataGiven
    );
}

#[test]
fn test_decompress_gzip_rejects_bad_magic() {
    assert_eq!(
        decompress_gzip(vec![0x1f, 0x00, 1, 2]).unwrap_err(),
        CompressionError::InvalidGZIPHeader
    );
    assert_eq!(
        decompress_gzip(vec![0x1f]).unwrap_err(),
        CompressionError::InvalidGZIPHeader
    );
}

#[test]
fn test_decompress_gzip_rejects_corrupt_stream() {
    assert_eq!(
        decompress_gzip(vec![0x1f, 0x8b, 9, 9, 9, 9, 9, 9]).unwrap_err(),
        CompressionError::Io
    );
}
