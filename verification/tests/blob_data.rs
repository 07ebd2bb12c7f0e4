use std::io::Write;

use osmpbf_parser::{Blob, Error};

fn pv(mut x: u64, out: &mut Vec<u8>) {
    loop {
        let b = (x & 0x7f) as u8;
        x >>= 7;
        if x == 0 {
            out.push(b);
            return;
        }
        out.push(b | 0x80);
    }
}

fn len_field(field: u64, payload: &[u8], out: &mut Vec<u8>) {
    pv(field << 3 | 2, out);
    pv(payload.len() as u64, out);
    out.extend_from_slice(payload);
}

fn parse_blob(bytes: &[u8]) -> Blob {
    let parser = osmpbf_parser::Parser::new(bytes.to_vec());
    parser.read_blob(0, bytes.len()).unwrap()
}

fn zlib_compress(data: &[u8]) -> Vec<u8> {
    let mut enc = flate2::write::ZlibEncoder::new(Vec::new(), flate2::Compression::default());
    enc.write_all(data).unwrap();
    enc.finish().unwrap()
}

#[test]
fn stored_bytes_pass_through_unchanged() {
    let mut record = Vec::new();
    len_field(1, b"plain payload", &mut record);
    let blob = parse_blob(&record);
    assert_eq!(blob.get_data().unwrap(), b"plain payload".to_vec());
}

#[test]
fn zlib_bytes_inflate() {
    let original = b"the quick brown fox jumps over the lazy dog".repeat(20);
    let compressed = zlib_compress(&original);
    assert_ne!(compressed, original);
    let mut record = Vec::new();
    len_field(3, &compressed, &mut record);
    let blob = parse_blob(&record);
    assert_eq!(blob.get_data().unwrap(), original);
}

#[test]
fn corrupt_zlib_stream_fails_decompression() {
    let mut compressed = zlib_compress(b"some data to mangle");
    let mid = compressed.len() / 2;
    compressed[mid] ^= 0xff;
    compressed.truncate(compressed.len() - 4);
    let mut record = Vec::new();
    len_field(3, &compressed, &mut record);
    let blob = parse_blob(&record);
    assert_eq!(blob.get_data().unwrap_err(), Error::DecompressionFailed);
}

#[test]
fn foreign_compression_scheme_is_rejected() {
    // Field 4 declares an lzma payload: a scheme outside {stored, zlib}.
    let mut record = Vec::new();
    len_field(4, b"\x01\x02\x03", &mut record);
    let blob = parse_blob(&record);
    assert_eq!(blob.get_data().unwrap_err(), Error::UnsupportedCompression);
}

#[test]
fn every_foreign_scheme_field_is_rejected() {
    for field in [5u64, 6, 7] {
        let mut record = Vec::new();
        len_field(field, b"zz", &mut record);
        let blob = parse_blob(&record);
        assert_eq!(blob.get_data().unwrap_err(), Error::UnsupportedCompression);
    }
}

#[test]
fn empty_record_declares_no_supported_scheme() {
    let blob = parse_blob(&[]);
    assert_eq!(blob.get_data().unwrap_err(), Error::UnsupportedCompression);
}
