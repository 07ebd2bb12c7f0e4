use osmpbf_parser::{Error, Parser, Scan, ScanTable};

fn pv(mut x: u64, out: &mut Vec<u8>) {
    loop {
        let b = (x & 0x7f) as u8;
        x >>= 7;
        if x == 0 {
            out.push(b);
            return;
        }
        out.push(b | 0x80);
    }
}

fn zig(v: i64) -> u64 {
    ((v << 1) ^ (v >> 63)) as u64
}

fn len_field(field: u64, payload: &[u8], out: &mut Vec<u8>) {
    pv(field << 3 | 2, out);
    pv(payload.len() as u64, out);
    out.extend_from_slice(payload);
}

fn varint_field(field: u64, v: u64, out: &mut Vec<u8>) {
    pv(field << 3, out);
    pv(v, out);
}

fn packed_sint64(field: u64, vals: &[i64], out: &mut Vec<u8>) {
    let mut body = Vec::new();
    for v in vals {
        pv(zig(*v), &mut body);
    }
    len_field(field, &body, out);
}

fn string_table(strings: &[&str]) -> Vec<u8> {
    let mut t = Vec::new();
    for s in strings {
        len_field(1, s.as_bytes(), &mut t);
    }
    t
}

/// A primitive block holding one dense run of points with the given ids.
fn node_block(ids: &[i64]) -> Vec<u8> {
    let deltas: Vec<i64> = ids
        .iter()
        .enumerate()
        .map(|(i, v)| if i == 0 { *v } else { v - ids[i - 1] })
        .collect();
    let zeros: Vec<i64> = ids.iter().map(|_| 0).collect();
    let mut dense = Vec::new();
    packed_sint64(1, &deltas, &mut dense);
    packed_sint64(8, &zeros, &mut dense);
    packed_sint64(9, &zeros, &mut dense);
    let mut group = Vec::new();
    len_field(2, &dense, &mut group);
    let mut block = Vec::new();
    len_field(1, &string_table(&[""]), &mut block);
    len_field(2, &group, &mut block);
    block
}

/// A primitive block holding one polyline per given id.
fn way_block(ids: &[i64]) -> Vec<u8> {
    let mut group = Vec::new();
    for id in ids {
        let mut way = Vec::new();
        varint_field(1, *id as u64, &mut way);
        packed_sint64(8, &[7, 1], &mut way);
        len_field(3, &way, &mut group);
    }
    let mut block = Vec::new();
    len_field(1, &string_table(&[""]), &mut block);
    len_field(2, &group, &mut block);
    block
}

fn raw_blob(data: &[u8]) -> Vec<u8> {
    let mut b = Vec::new();
    len_field(1, data, &mut b);
    b
}

fn frame_block(block_type: &str, payload: &[u8]) -> Vec<u8> {
    let mut h = Vec::new();
    len_field(1, block_type.as_bytes(), &mut h);
    varint_field(3, payload.len() as u64, &mut h);
    let mut out = Vec::new();
    out.extend_from_slice(&(h.len() as u32).to_be_bytes());
    out.extend_from_slice(&h);
    out.extend_from_slice(payload);
    out
}

/// A whole synthetic source: metadata block, a point block with ids
/// 100..=104, and a polyline block with ids 500..=502.
fn synthetic_file() -> (Vec<u8>, u64) {
    let mut file = Vec::new();
    file.extend_from_slice(&frame_block("OSMHeader", &raw_blob(b"")));
    let mid;
    file.extend_from_slice(&frame_block("OSMData", &raw_blob(&node_block(&[100, 101, 102, 103, 104]))));
    mid = file.len() as u64;
    file.extend_from_slice(&frame_block("OSMData", &raw_blob(&way_block(&[500, 501, 502]))));
    (file, mid)
}

#[test]
fn read_walks_blocks_and_reconstructs_entities() {
    let (file, _mid) = synthetic_file();
    let total = file.len() as u64;
    let parser = Parser::new(file);
    let (len0, items0) = parser.read(0).unwrap();
    assert!(items0.is_empty(), "the leading metadata block carries no entities");
    let (len1, items1) = parser.read(len0).unwrap();
    assert_eq!(items1.len(), 5);
    let (len2, items2) = parser.read(len0 + len1).unwrap();
    assert_eq!(items2.len(), 3);
    assert_eq!(len0 + len1 + len2, total);
}

#[test]
fn query_outside_every_interval_is_empty() {
    let (file, _mid) = synthetic_file();
    let len = file.len() as u64;
    let mut scan = Scan::new(Parser::new(file));
    scan.scan(0, len).unwrap();
    assert!(scan.get_node_blob_offsets_for_id(99).is_empty());
    assert!(scan.get_node_blob_offsets_for_id(105).is_empty());
    assert!(scan.get_way_blob_offsets_for_id(100).is_empty());
    assert!(scan.get_relation_blob_offsets_for_id(500).is_empty());
}

#[test]
fn query_inside_exactly_one_interval_yields_exactly_it() {
    let (file, _mid) = synthetic_file();
    let len = file.len() as u64;
    let mut scan = Scan::new(Parser::new(file));
    scan.scan(0, len).unwrap();
    let all = scan.get_node_blob_offsets();
    assert_eq!(all.len(), 1);
    let hits = scan.get_node_blob_offsets_for_id(102);
    assert_eq!(hits, all);
    assert_eq!(hits[0].2, 5, "the block recorded five points");
    let way_hits = scan.get_way_blob_offsets_for_id(501);
    assert_eq!(way_hits, scan.get_way_blob_offsets());
    assert_eq!(way_hits[0].2, 3);
}

#[test]
fn lookup_finds_entities_by_id() {
    let (file, _mid) = synthetic_file();
    let len = file.len() as u64;
    let mut scan = Scan::new(Parser::new(file));
    scan.scan(0, len).unwrap();
    let node = scan.get_node(103).unwrap().unwrap();
    assert_eq!(node.id, 103);
    assert!(scan.get_node(99).unwrap().is_none());
    // Inside the recorded interval but not present in the block.
    let way = scan.get_way(502).unwrap().unwrap();
    assert_eq!(way.id, 502);
    assert_eq!(way.refs, vec![7, 8]);
    assert!(scan.get_relation(1).unwrap().is_none());
}

#[test]
fn merged_partial_scans_answer_like_a_whole_scan() {
    let (file, mid) = synthetic_file();
    let len = file.len() as u64;
    let mut whole = Scan::new(Parser::new(file.clone()));
    whole.scan(0, len).unwrap();

    let mut first = Scan::new(Parser::new(file.clone()));
    first.scan(0, mid).unwrap();
    let mut second = Scan::new(Parser::new(file));
    second.scan(mid, len).unwrap();
    let mut merged = ScanTable::default();
    merged.extend(&first.table);
    merged.extend(&second.table);

    for id in [99i64, 100, 102, 104, 105, 500, 501, 502, 503] {
        assert_eq!(
            merged.get_node_blob_offsets_for_id(id),
            whole.table.get_node_blob_offsets_for_id(id),
        );
        assert_eq!(
            merged.get_way_blob_offsets_for_id(id),
            whole.table.get_way_blob_offsets_for_id(id),
        );
        assert_eq!(
            merged.get_relation_blob_offsets_for_id(id),
            whole.table.get_relation_blob_offsets_for_id(id),
        );
    }
}

#[test]
fn equal_intervals_from_two_blocks_are_both_kept() {
    let mut file = Vec::new();
    file.extend_from_slice(&frame_block("OSMHeader", &raw_blob(b"")));
    file.extend_from_slice(&frame_block("OSMData", &raw_blob(&node_block(&[7, 8, 9]))));
    file.extend_from_slice(&frame_block("OSMData", &raw_blob(&node_block(&[7, 8, 9]))));
    let len = file.len() as u64;
    let mut scan = Scan::new(Parser::new(file));
    scan.scan(0, len).unwrap();
    let hits = scan.get_node_blob_offsets_for_id(8);
    assert_eq!(hits.len(), 2, "identical ranges from different blocks are not deduplicated");
    assert_ne!(hits[0].0, hits[1].0, "the two candidates point at different payloads");
}

#[test]
fn scan_aborts_on_a_bad_block() {
    let mut file = Vec::new();
    file.extend_from_slice(&frame_block("OSMHeader", &raw_blob(b"")));
    // A data block whose payload declares a foreign compression scheme.
    let mut bad = Vec::new();
    len_field(4, b"??", &mut bad);
    file.extend_from_slice(&frame_block("OSMData", &bad));
    let len = file.len() as u64;
    let mut scan = Scan::new(Parser::new(file));
    assert_eq!(scan.scan(0, len).unwrap_err(), Error::UnsupportedCompression);
}

#[test]
fn persisted_index_answers_queries_like_the_original() {
    let (file, _mid) = synthetic_file();
    let len = file.len() as u64;
    let mut scan = Scan::new(Parser::new(file.clone()));
    scan.scan(0, len).unwrap();

    let bytes = scan.table.to_bytes();
    assert_eq!(scan.table.count_bytes(), bytes.len());
    let (consumed, reloaded) = ScanTable::from_bytes(&bytes).unwrap();
    assert_eq!(consumed, bytes.len());

    let reloaded_scan = Scan::from_table(Parser::new(file), reloaded);
    for id in [99i64, 100, 102, 104, 105, 500, 501, 502, 503] {
        assert_eq!(
            reloaded_scan.get_node_blob_offsets_for_id(id),
            scan.get_node_blob_offsets_for_id(id),
        );
        assert_eq!(
            reloaded_scan.get_way_blob_offsets_for_id(id),
            scan.get_way_blob_offsets_for_id(id),
        );
        assert_eq!(
            reloaded_scan.get_relation_blob_offsets_for_id(id),
            scan.get_relation_blob_offsets_for_id(id),
        );
    }
    let node = reloaded_scan.get_node(101).unwrap().unwrap();
    assert_eq!(node.id, 101);
}

#[test]
fn write_bytes_appends_and_reports_length() {
    let (file, _mid) = synthetic_file();
    let len = file.len() as u64;
    let mut scan = Scan::new(Parser::new(file));
    scan.scan(0, len).unwrap();
    let mut buf = vec![0xAAu8, 0xBB];
    let written = scan.table.write_bytes(&mut buf);
    assert_eq!(buf.len(), 2 + written);
    assert_eq!(&buf[..2], &[0xAA, 0xBB]);
    assert_eq!(&buf[2..], scan.table.to_bytes().as_slice());
}

#[test]
fn truncated_persisted_index_is_a_truncated_read() {
    let (file, _mid) = synthetic_file();
    let len = file.len() as u64;
    let mut scan = Scan::new(Parser::new(file));
    scan.scan(0, len).unwrap();
    let mut bytes = scan.table.to_bytes();
    bytes.truncate(bytes.len() - 1);
    assert_eq!(ScanTable::from_bytes(&bytes).unwrap_err(), Error::TruncatedRead);
}

#[test]
fn empty_index_round_trips() {
    let table = ScanTable::default();
    let bytes = table.to_bytes();
    assert_eq!(bytes, vec![0, 0, 0]);
    let (consumed, reloaded) = ScanTable::from_bytes(&bytes).unwrap();
    assert_eq!(consumed, 3);
    assert!(reloaded.get_node_blob_offsets().is_empty());
    assert!(reloaded.get_way_blob_offsets().is_empty());
    assert!(reloaded.get_relation_blob_offsets().is_empty());
}

#[test]
fn metadata_blocks_are_skipped_wherever_they_stand() {
    // A metadata block in the middle of the range must not be indexed,
    // and a scan not starting at offset zero must not misread its first
    // data block.
    let mut file = Vec::new();
    file.extend_from_slice(&frame_block("OSMHeader", &raw_blob(b"")));
    let first_data = file.len() as u64;
    file.extend_from_slice(&frame_block("OSMData", &raw_blob(&node_block(&[1, 2, 3]))));
    file.extend_from_slice(&frame_block("OSMHeader", &raw_blob(b"")));
    file.extend_from_slice(&frame_block("OSMData", &raw_blob(&node_block(&[10, 11]))));
    let len = file.len() as u64;
    let mut scan = Scan::new(Parser::new(file));
    scan.scan(first_data, len).unwrap();
    let spans = scan.get_node_blob_offsets();
    assert_eq!(spans.len(), 2);
    assert_eq!(scan.get_node(2).unwrap().unwrap().id, 2);
    assert_eq!(scan.get_node(11).unwrap().unwrap().id, 11);
}
