use file_endec::compress::{brotli_compress, brotli_decompress, compress_file, decompress_file, CompressError};
use file_endec::strategy::CompressionAlg;

fn pattern() -> Vec<u8> {
    let mut v: Vec<u8> = (0u8..32).collect();
    v.extend(0u8..32);
    v
}

const PATTERN_COMPRESSED: [u8; 24] = [
    27, 63, 0, 0, 196, 3, 224, 120, 26, 226, 75, 49, 9, 126, 86, 64, 57, 221, 231, 199, 0, 16, 86, 3,
];

#[test]
fn brotli_compression_empty() {
    let input = vec![];
    let actual = brotli_compress(&input).unwrap();
    let expected = vec![59u8];
    assert_eq!(expected, actual);
}

#[test]
fn brotli_compression() {
    let actual = brotli_compress(&pattern()).unwrap();
    assert_eq!(PATTERN_COMPRESSED.to_vec(), actual);
}

#[test]
fn brotli_decompression_empty() {
    let input = vec![59];
    let actual = brotli_decompress(&input).unwrap();
    let expected: Vec<u8> = vec![];
    assert_eq!(expected, actual);
}

#[test]
fn brotli_decompression() {
    let actual = brotli_decompress(&PATTERN_COMPRESSED).unwrap();
    assert_eq!(pattern(), actual);
}

#[test]
fn compress_by_algorithm() {
    assert_eq!(compress_file(pattern(), &CompressionAlg::Brotli).unwrap(), PATTERN_COMPRESSED.to_vec());
    assert_eq!(compress_file(pattern(), &CompressionAlg::Uncompressed).unwrap(), pattern());
    assert_eq!(decompress_file(PATTERN_COMPRESSED.to_vec(), &CompressionAlg::Brotli).unwrap(), pattern());
    assert_eq!(decompress_file(vec![1, 2, 3], &CompressionAlg::Uncompressed).unwrap(), vec![1, 2, 3]);
}

#[test]
fn decompress_rejects_garbage() {
    assert_eq!(decompress_file(vec![255, 255, 255, 255], &CompressionAlg::Brotli), Err(CompressError::Decompress));
}
