use osmpbf_parser::{Error, Parser};

fn pv(mut x: u64, out: &mut Vec<u8>) {
    loop {
        let b = (x & 0x7f) as u8;
        x >>= 7;
        if x == 0 {
            out.push(b);
            return;
        }
        out.push(b | 0x80);
    }
}

fn len_field(field: u64, payload: &[u8], out: &mut Vec<u8>) {
    pv(field << 3 | 2, out);
    pv(payload.len() as u64, out);
    out.extend_from_slice(payload);
}

fn varint_field(field: u64, v: u64, out: &mut Vec<u8>) {
    pv(field << 3, out);
    pv(v, out);
}

fn header_record(block_type: &str, datasize: u32) -> Vec<u8> {
    let mut h = Vec::new();
    len_field(1, block_type.as_bytes(), &mut h);
    varint_field(3, datasize as u64, &mut h);
    h
}

fn frame_block(block_type: &str, payload: &[u8]) -> Vec<u8> {
    let h = header_record(block_type, payload.len() as u32);
    let mut out = Vec::new();
    out.extend_from_slice(&(h.len() as u32).to_be_bytes());
    out.extend_from_slice(&h);
    out.extend_from_slice(payload);
    out
}

fn raw_blob(data: &[u8]) -> Vec<u8> {
    let mut b = Vec::new();
    len_field(1, data, &mut b);
    b
}

#[test]
fn consumed_bytes_tile_the_source() {
    let mut file = Vec::new();
    file.extend_from_slice(&frame_block("OSMHeader", &raw_blob(b"")));
    file.extend_from_slice(&frame_block("OSMData", &raw_blob(b"abc")));
    file.extend_from_slice(&frame_block("OSMData", &raw_blob(b"defgh")));
    let total = file.len() as u64;
    let parser = Parser::new(file);
    let mut offset = 0u64;
    let mut blocks = 0;
    while offset < total {
        let (consumed, _header, _blob) = parser.read_fileblock(offset).unwrap();
        assert!(consumed > 0);
        offset += consumed;
        blocks += 1;
    }
    assert_eq!(offset, total);
    assert_eq!(blocks, 3);
}

#[test]
fn header_reports_declared_kind_and_length() {
    let file = frame_block("OSMHeader", &raw_blob(b"xy"));
    let parser = Parser::new(file);
    let (consumed, header) = parser.read_blob_header(0).unwrap();
    assert_eq!(header.block_type, b"OSMHeader".to_vec());
    let payload = raw_blob(b"xy");
    assert_eq!(header.datasize as usize, payload.len());
    assert_eq!(consumed as usize, 4 + header_record("OSMHeader", payload.len() as u32).len());
}

#[test]
fn short_length_prefix_is_truncated_read() {
    let parser = Parser::new(vec![0, 0, 1]);
    assert_eq!(parser.read_blob_header(0).unwrap_err(), Error::TruncatedRead);
}

#[test]
fn short_header_record_is_truncated_read() {
    // Length prefix declares 10 header bytes but only 2 follow.
    let mut file = vec![0, 0, 0, 10];
    file.extend_from_slice(&[8, 1]);
    let parser = Parser::new(file);
    assert_eq!(parser.read_blob_header(0).unwrap_err(), Error::TruncatedRead);
}

#[test]
fn short_payload_is_truncated_read() {
    let mut file = frame_block("OSMData", &raw_blob(b"abcdef"));
    file.truncate(file.len() - 3);
    let parser = Parser::new(file);
    assert_eq!(parser.read_fileblock(0).unwrap_err(), Error::TruncatedRead);
}

#[test]
fn garbage_header_record_is_malformed_header() {
    // A header record that ends inside a declared field.
    let record = vec![0x0a, 0x20, b'x'];
    let mut file = Vec::new();
    file.extend_from_slice(&(record.len() as u32).to_be_bytes());
    file.extend_from_slice(&record);
    let parser = Parser::new(file);
    assert_eq!(parser.read_blob_header(0).unwrap_err(), Error::MalformedHeader);
}

#[test]
fn read_skips_the_leading_metadata_block() {
    let mut file = Vec::new();
    file.extend_from_slice(&frame_block("OSMHeader", &raw_blob(b"")));
    let parser = Parser::new(file);
    let (_consumed, items) = parser.read(0).unwrap();
    assert!(items.is_empty());
}

#[test]
fn metadata_block_decodes_bbox_and_features() {
    // A metadata payload: bbox (left 1, right -2, top 3, bottom -4, zigzag
    // varints) and one required feature name.
    let mut bbox = Vec::new();
    varint_field(1, 2, &mut bbox);
    varint_field(2, 3, &mut bbox);
    varint_field(3, 6, &mut bbox);
    varint_field(4, 7, &mut bbox);
    let mut payload = Vec::new();
    len_field(1, &bbox, &mut payload);
    len_field(4, b"DenseNodes", &mut payload);
    let file = frame_block("OSMHeader", &raw_blob(&payload));
    let parser = Parser::new(file);
    let (_consumed, _header, blob) = parser.read_fileblock(0).unwrap();
    let block = blob.decode_header().unwrap();
    let bb = block.bbox.unwrap();
    assert_eq!(bb.left, 1);
    assert_eq!(bb.right, -2);
    assert_eq!(bb.top, 3);
    assert_eq!(bb.bottom, -4);
    assert_eq!(block.required_features, vec![b"DenseNodes".to_vec()]);
    assert!(block.optional_features.is_empty());
}

#[test]
fn offsets_past_the_end_are_truncated_reads() {
    let file = frame_block("OSMHeader", &raw_blob(b""));
    let parser = Parser::new(file.clone());
    assert_eq!(parser.read_fileblock(file.len() as u64 + 1).unwrap_err(), Error::TruncatedRead);
}
