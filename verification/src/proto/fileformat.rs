//! The framing-level block records: the header that precedes every
//! payload, and the payload container with its compression variants.
//!
//! Both records are parsed from tagged wire fields; the parse of each is
//! specified exactly, field by field, so the framing contracts can speak
//! of the bytes alone.

use vstd::prelude::*;

use crate::wire::{
    copy_range, read_len_delim, read_varint, skip_field, spec_len_delim, spec_pb_varint,
    spec_skip_field,
};
use crate::wire::lemma_pb_varint_range;

verus! {

/// The record framed before each payload: the payload's declared kind and
/// its byte length.
#[derive(Debug, Clone)]
pub struct BlobHeader {
    /// Kind of the block, as the writer declared it ("OSMHeader" for the
    /// leading metadata block, "OSMData" for entity blocks).
    pub block_type: Vec<u8>,
    /// Opaque index hint some writers attach; carried through unread.
    pub indexdata: Option<Vec<u8>>,
    /// Declared byte length of the payload that follows the header.
    pub datasize: u32,
}

/// Mathematical image of a [`BlobHeader`].
pub ghost struct BlobHeaderV {
    pub block_type: Seq<u8>,
    pub indexdata: Option<Seq<u8>>,
    pub datasize: u32,
}

impl View for BlobHeader {
    type V = BlobHeaderV;

    open spec fn view(&self) -> BlobHeaderV {
        BlobHeaderV {
            block_type: self.block_type@,
            indexdata: match self.indexdata {
                Some(d) => Some(d@),
                None => None,
            },
            datasize: self.datasize,
        }
    }
}

/// A block payload: bytes stored plain, bytes to inflate, or a
/// compression scheme this reader does not interpret.
#[derive(Debug, Clone)]
pub struct Blob {
    /// Payload stored uncompressed, when the writer chose to.
    pub raw: Option<Vec<u8>>,
    /// Payload compressed with zlib, when the writer chose to.
    pub zlib_data: Option<Vec<u8>>,
    /// Whether the record declared a payload under any other compression
    /// scheme; such a payload is never interpreted.
    pub other_compression: bool,
}

/// Mathematical image of a [`Blob`].
pub ghost struct BlobV {
    pub raw: Option<Seq<u8>>,
    pub zlib_data: Option<Seq<u8>>,
    pub other_compression: bool,
}

impl View for Blob {
    type V = BlobV;

    open spec fn view(&self) -> BlobV {
        BlobV {
            raw: match self.raw {
                Some(d) => Some(d@),
                None => None,
            },
            zlib_data: match self.zlib_data {
                Some(d) => Some(d@),
                None => None,
            },
            other_compression: self.other_compression,
        }
    }
}

/// The header record before any field has been read: empty kind, no index
/// hint, zero declared length.
pub open spec fn spec_bh_init() -> BlobHeaderV {
    BlobHeaderV { block_type: Seq::empty(), indexdata: None, datasize: 0 }
}

/// One field of a header record: reads the tag at `pos`, takes the
/// field's value into `h` when the field is known under the expected wire
/// type, skips it otherwise, and reports the position just past it.
pub open spec fn spec_bh_step(data: Seq<u8>, pos: int, end: int, h: BlobHeaderV) -> Option<
    (BlobHeaderV, int),
> {
    match spec_pb_varint(data, pos, end) {
        None => None,
        Some(tp) => {
            let field = tp.0 / 8;
            let wire = tp.0 % 8;
            let p = tp.1;
            if field == 1 && wire == 2 {
                match spec_len_delim(data, p, end) {
                    Some(se) => Some(
                        (
                            BlobHeaderV { block_type: data.subrange(se.0, se.1), ..h },
                            se.1,
                        ),
                    ),
                    None => None,
                }
            } else if field == 2 && wire == 2 {
                match spec_len_delim(data, p, end) {
                    Some(se) => Some(
                        (
                            BlobHeaderV { indexdata: Some(data.subrange(se.0, se.1)), ..h },
                            se.1,
                        ),
                    ),
                    None => None,
                }
            } else if field == 3 && wire == 0 {
                match spec_pb_varint(data, p, end) {
                    Some(vp) => Some((BlobHeaderV { datasize: vp.0 as u32, ..h }, vp.1)),
                    None => None,
                }
            } else {
                match spec_skip_field(data, p, end, wire) {
                    Some(p2) => Some((h, p2)),
                    None => None,
                }
            }
        },
    }
}

/// The header record read from the whole window `pos..end`, folding
/// [`spec_bh_step`] until the window is exhausted.
pub open spec fn spec_bh_rec(data: Seq<u8>, pos: int, end: int, h: BlobHeaderV) -> Option<
    BlobHeaderV,
>
    decreases end - pos,
{
    if pos >= end {
        if pos == end {
            Some(h)
        } else {
            None
        }
    } else {
        match spec_bh_step(data, pos, end, h) {
            None => None,
            Some(hp) => if pos < hp.1 <= end {
                spec_bh_rec(data, hp.1, end, hp.0)
            } else {
                None
            },
        }
    }
}

/// The header record held in the bytes `pos..end`, or nothing when they
/// do not deserialize.
pub open spec fn spec_parse_blob_header(data: Seq<u8>, pos: int, end: int) -> Option<BlobHeaderV> {
    if 0 <= pos <= end <= data.len() {
        spec_bh_rec(data, pos, end, spec_bh_init())
    } else {
        None
    }
}

/// A step never stalls or escapes the window.
proof fn lemma_bh_step_range(data: Seq<u8>, pos: int, end: int, h: BlobHeaderV)
    requires
        0 <= pos < end <= data.len(),
    ensures
        match spec_bh_step(data, pos, end, h) {
            Some(hp) => pos < hp.1 <= end,
            None => true,
        },
{
    lemma_pb_varint_range(data, pos, end);
    if let Some(tp) = spec_pb_varint(data, pos, end) {
        lemma_pb_varint_range(data, tp.1, end);
    }
}

fn bh_step(data: &[u8], pos: usize, end: usize, h: BlobHeader) -> (r: Option<(BlobHeader, usize)>)
    requires
        pos < end <= data@.len(),
    ensures
        match spec_bh_step(data@, pos as int, end as int, h@) {
            Some(hp) => r matches Some(q) && q.0@ == hp.0 && q.1 as int == hp.1 && pos < q.1 <= end,
            None => r is None,
        },
{
    proof {
        lemma_bh_step_range(data@, pos as int, end as int, h@);
        lemma_pb_varint_range(data@, pos as int, end as int);
    }
    match read_varint(data, pos, end) {
        None => None,
        Some((tag, p)) => {
            let field = tag / 8;
            let wire = tag % 8;
            if field == 1 && wire == 2 {
                match read_len_delim(data, p, end) {
                    Some((a, b)) => {
                        let bytes = copy_range(data, a, b);
                        Some((BlobHeader { block_type: bytes, ..h }, b))
                    },
                    None => None,
                }
            } else if field == 2 && wire == 2 {
                match read_len_delim(data, p, end) {
                    Some((a, b)) => {
                        let bytes = copy_range(data, a, b);
                        Some((BlobHeader { indexdata: Some(bytes), ..h }, b))
                    },
                    None => None,
                }
            } else if field == 3 && wire == 0 {
                match read_varint(data, p, end) {
                    Some((v, p2)) => Some((BlobHeader { datasize: v as u32, ..h }, p2)),
                    None => None,
                }
            } else {
                match skip_field(data, p, end, wire) {
                    Some(p2) => Some((h, p2)),
                    None => None,
                }
            }
        },
    }
}

/// Deserializes a header record from the bytes `pos..end`.
pub fn parse_blob_header(data: &[u8], pos: usize, end: usize) -> (r: Option<BlobHeader>)
    requires
        pos <= end <= data@.len(),
    ensures
        match spec_parse_blob_header(data@, pos as int, end as int) {
            Some(hv) => r matches Some(h) && h@ == hv,
            None => r is None,
        },
{
    let mut h = BlobHeader { block_type: Vec::new(), indexdata: None, datasize: 0 };
    let mut p = pos;
    proof {
        assert(h@ == spec_bh_init());
    }
    while p < end
        invariant
            pos <= p <= end <= data@.len(),
            spec_bh_rec(data@, pos as int, end as int, spec_bh_init()) == spec_bh_rec(
                data@,
                p as int,
                end as int,
                h@,
            ),
        decreases end - p,
    {
        match bh_step(data, p, end, h) {
            Some((h2, p2)) => {
                h = h2;
                p = p2;
            },
            None => {
                return None;
            },
        }
    }
    Some(h)
}

/// The payload record before any field has been read: nothing stored, no
/// foreign compression declared.
pub open spec fn spec_blob_init() -> BlobV {
    BlobV { raw: None, zlib_data: None, other_compression: false }
}

/// One field of a payload record: plain bytes and zlib bytes are taken;
/// any other length-prefixed payload variant only marks the record as
/// carrying a compression this reader does not interpret.
pub open spec fn spec_blob_step(data: Seq<u8>, pos: int, end: int, b: BlobV) -> Option<
    (BlobV, int),
> {
    match spec_pb_varint(data, pos, end) {
        None => None,
        Some(tp) => {
            let field = tp.0 / 8;
            let wire = tp.0 % 8;
            let p = tp.1;
            if field == 1 && wire == 2 {
                match spec_len_delim(data, p, end) {
                    Some(se) => Some(
                        (BlobV { raw: Some(data.subrange(se.0, se.1)), ..b }, se.1),
                    ),
                    None => None,
                }
            } else if field == 3 && wire == 2 {
                match spec_len_delim(data, p, end) {
                    Some(se) => Some(
                        (BlobV { zlib_data: Some(data.subrange(se.0, se.1)), ..b }, se.1),
                    ),
                    None => None,
                }
            } else if (field == 4 || field == 5 || field == 6 || field == 7) && wire == 2 {
                match spec_len_delim(data, p, end) {
                    Some(se) => Some((BlobV { other_compression: true, ..b }, se.1)),
                    None => None,
                }
            } else {
                match spec_skip_field(data, p, end, wire) {
                    Some(p2) => Some((b, p2)),
                    None => None,
                }
            }
        },
    }
}

/// The payload record read from the whole window `pos..end`.
pub open spec fn spec_blob_rec(data: Seq<u8>, pos: int, end: int, b: BlobV) -> Option<BlobV>
    decreases end - pos,
{
    if pos >= end {
        if pos == end {
            Some(b)
        } else {
            None
        }
    } else {
        match spec_blob_step(data, pos, end, b) {
            None => None,
            Some(bp) => if pos < bp.1 <= end {
                spec_blob_rec(data, bp.1, end, bp.0)
            } else {
                None
            },
        }
    }
}

/// The payload record held in the bytes `pos..end`, or nothing when they
/// do not deserialize.
pub open spec fn spec_parse_blob(data: Seq<u8>, pos: int, end: int) -> Option<BlobV> {
    if 0 <= pos <= end <= data.len() {
        spec_blob_rec(data, pos, end, spec_blob_init())
    } else {
        None
    }
}

proof fn lemma_blob_step_range(data: Seq<u8>, pos: int, end: int, b: BlobV)
    requires
        0 <= pos < end <= data.len(),
    ensures
        match spec_blob_step(data, pos, end, b) {
            Some(bp) => pos < bp.1 <= end,
            None => true,
        },
{
    lemma_pb_varint_range(data, pos, end);
    if let Some(tp) = spec_pb_varint(data, pos, end) {
        lemma_pb_varint_range(data, tp.1, end);
    }
}

fn blob_step(data: &[u8], pos: usize, end: usize, b: Blob) -> (r: Option<(Blob, usize)>)
    requires
        pos < end <= data@.len(),
    ensures
        match spec_blob_step(data@, pos as int, end as int, b@) {
            Some(bp) => r matches Some(q) && q.0@ == bp.0 && q.1 as int == bp.1 && pos < q.1 <= end,
            None => r is None,
        },
{
    proof {
        lemma_blob_step_range(data@, pos as int, end as int, b@);
        lemma_pb_varint_range(data@, pos as int, end as int);
    }
    match read_varint(data, pos, end) {
        None => None,
        Some((tag, p)) => {
            let field = tag / 8;
            let wire = tag % 8;
            if field == 1 && wire == 2 {
                match read_len_delim(data, p, end) {
                    Some((a, e)) => {
                        let bytes = copy_range(data, a, e);
                        Some((Blob { raw: Some(bytes), ..b }, e))
                    },
                    None => None,
                }
            } else if field == 3 && wire == 2 {
                match read_len_delim(data, p, end) {
                    Some((a, e)) => {
                        let bytes = copy_range(data, a, e);
                        Some((Blob { zlib_data: Some(bytes), ..b }, e))
                    },
                    None => None,
                }
            } else if (field == 4 || field == 5 || field == 6 || field == 7) && wire == 2 {
                match read_len_delim(data, p, end) {
                    Some((_, e)) => Some((Blob { other_compression: true, ..b }, e)),
                    None => None,
                }
            } else {
                match skip_field(data, p, end, wire) {
                    Some(p2) => Some((b, p2)),
                    None => None,
                }
            }
        },
    }
}

/// Deserializes a payload record from the bytes `pos..end`.
pub fn parse_blob(data: &[u8], pos: usize, end: usize) -> (r: Option<Blob>)
    requires
        pos <= end <= data@.len(),
    ensures
        match spec_parse_blob(data@, pos as int, end as int) {
            Some(bv) => r matches Some(b) && b@ == bv,
            None => r is None,
        },
{
    let mut b = Blob { raw: None, zlib_data: None, other_compression: false };
    let mut p = pos;
    proof {
        assert(b@ == spec_blob_init());
    }
    while p < end
        invariant
            pos <= p <= end <= data@.len(),
            spec_blob_rec(data@, pos as int, end as int, spec_blob_init()) == spec_blob_rec(
                data@,
                p as int,
                end as int,
                b@,
            ),
        decreases end - p,
    {
        match blob_step(data, p, end, b) {
            Some((b2, p2)) => {
                b = b2;
                p = p2;
            },
            None => {
                return None;
            },
        }
    }
    Some(b)
}

} // verus!
