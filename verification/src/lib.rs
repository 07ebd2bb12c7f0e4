//! Reader for a length-framed, block-compressed binary map-data format.
//!
//! A source is a sequence of blocks, each laid out as a 4-byte big-endian
//! length `n`, an `n`-byte header record, and a payload whose length the
//! header declares.  The library locates payloads (framing), decompresses
//! and deserializes them into typed block records, reconstructs the
//! delta-encoded entities they carry, and maintains an interval index from
//! entity identifier ranges to block locations, with a varint-based
//! persistence codec for that index.

pub mod decode;
pub mod element;
pub mod error;
pub mod proto;
pub mod scan;
pub mod scan_bytes;
pub mod varint;
pub mod wire;

pub use element::{Element, Info, Member, MemberType, Node, Relation, Way};
pub use error::Error;
pub use proto::fileformat::{Blob, BlobHeader};
pub use scan::{Scan, ScanTable};

use vstd::prelude::*;

use crate::proto::fileformat::{
    parse_blob, parse_blob_header, spec_parse_blob, spec_parse_blob_header, BlobHeaderV, BlobV,
};
use crate::element::ElementV;

verus! {

/// The 4-byte big-endian unsigned length at `off`.
pub open spec fn spec_be32(data: Seq<u8>, off: int) -> u32 {
    ((data[off] as int) * 0x100_0000 + (data[off + 1] as int) * 0x1_0000 + (data[off + 2] as int)
        * 0x100 + (data[off + 3] as int)) as u32
}

/// One header read at `offset`: the bytes consumed (the 4-byte length
/// plus the header record it frames) and the header record, or the exact
/// failure — too few bytes for the length or the record, or a record that
/// does not deserialize.
#[verifier::opaque]
pub open spec fn spec_read_blob_header(data: Seq<u8>, offset: int) -> Result<
    (int, BlobHeaderV),
    crate::error::Error,
> {
    if offset < 0 || offset + 4 > data.len() {
        Err(crate::error::Error::TruncatedRead)
    } else {
        let n = spec_be32(data, offset) as int;
        if offset + 4 + n > data.len() {
            Err(crate::error::Error::TruncatedRead)
        } else {
            match spec_parse_blob_header(data, offset + 4, offset + 4 + n) {
                Some(h) => Ok((4 + n, h)),
                None => Err(crate::error::Error::MalformedHeader),
            }
        }
    }
}

/// One payload read: exactly `len` bytes at `offset`, deserialized into a
/// payload record.
#[verifier::opaque]
pub open spec fn spec_read_blob(data: Seq<u8>, offset: int, len: int) -> Result<
    BlobV,
    crate::error::Error,
> {
    if offset < 0 || len < 0 || offset + len > data.len() {
        Err(crate::error::Error::TruncatedRead)
    } else {
        match spec_parse_blob(data, offset, offset + len) {
            Some(b) => Ok(b),
            None => Err(crate::error::Error::MalformedBlock),
        }
    }
}

/// One whole block read at `offset`: header read, then the payload whose
/// length the header declares; the consumed total is the unit callers
/// advance by to reach the next block.
#[verifier::opaque]
pub open spec fn spec_read_fileblock(data: Seq<u8>, offset: int) -> Result<
    (int, BlobHeaderV, BlobV),
    crate::error::Error,
> {
    match spec_read_blob_header(data, offset) {
        Err(e) => Err(e),
        Ok(sh) => match spec_read_blob(data, offset + sh.0, sh.1.datasize as int) {
            Err(e) => Err(e),
            Ok(b) => Ok((sh.0 + sh.1.datasize as int, sh.1, b)),
        },
    }
}

/// One block fully read and reconstructed at `offset`: the bytes it
/// consumes and the entities it carries.  The block at offset zero is the
/// leading metadata block by convention and carries none.
pub open spec fn spec_read(data: Seq<u8>, offset: int) -> Result<
    (int, Seq<ElementV>),
    crate::error::Error,
> {
    match spec_read_fileblock(data, offset) {
        Err(e) => Err(e),
        Ok(t) => if offset == 0 {
            Ok((t.0, Seq::empty()))
        } else {
            match crate::decode::spec_decode_primitive(t.2) {
                Err(e) => Err(e),
                Ok(pbv) => match crate::decode::spec_decode(pbv) {
                    Some(es) => Ok((t.0, es)),
                    None => Err(crate::error::Error::MalformedBlock),
                },
            }
        },
    }
}

/// A successful header read stands at a non-negative offset, consumes at
/// least the four length bytes, and stays within the source.
pub proof fn lemma_read_blob_header_bounds(data: Seq<u8>, offset: int)
    ensures
        match spec_read_blob_header(data, offset) {
            Ok(sh) => 0 <= offset && 4 <= sh.0 && offset + sh.0 <= data.len(),
            Err(_) => true,
        },
{
    reveal(spec_read_blob_header);
}

/// A successful payload read stays within the source.
pub proof fn lemma_read_blob_bounds(data: Seq<u8>, offset: int, len: int)
    ensures
        match spec_read_blob(data, offset, len) {
            Ok(_) => 0 <= offset && 0 <= len && offset + len <= data.len(),
            Err(_) => true,
        },
{
    reveal(spec_read_blob);
}

/// The bytes one block at `offset` consumes, when a block reads cleanly
/// there.
pub open spec fn spec_block_len(data: Seq<u8>, offset: int) -> Option<int> {
    match spec_read_fileblock(data, offset) {
        Ok(t) => Some(t.0),
        Err(_) => None,
    }
}

/// Whether blocks read from `offset` onward tile the rest of the source:
/// each read succeeds and the last ends exactly at the source's end.
pub open spec fn spec_tiles(data: Seq<u8>, offset: int) -> bool
    decreases data.len() - offset,
{
    if offset == data.len() {
        true
    } else if offset < 0 || offset > data.len() {
        false
    } else {
        match spec_block_len(data, offset) {
            None => false,
            Some(l) => if l > 0 && offset + l <= data.len() {
                spec_tiles(data, offset + l)
            } else {
                false
            },
        }
    }
}

/// The sum of the consumed byte counts of the blocks from `offset` on,
/// while they read cleanly.
pub open spec fn spec_block_sum(data: Seq<u8>, offset: int) -> int
    decreases data.len() - offset,
{
    if offset < 0 || offset >= data.len() {
        0
    } else {
        match spec_block_len(data, offset) {
            None => 0,
            Some(l) => if l > 0 && offset + l <= data.len() {
                l + spec_block_sum(data, offset + l)
            } else {
                0
            },
        }
    }
}

/// No gaps and no overlap: when the blocks of a source tile it from
/// `offset`, the consumed byte counts of the successive reads sum to
/// exactly the bytes that remain.  From offset zero, they sum to the
/// whole source's length.
pub proof fn lemma_blocks_tile(data: Seq<u8>, offset: int)
    requires
        spec_tiles(data, offset),
        0 <= offset <= data.len(),
    ensures
        spec_block_sum(data, offset) == data.len() - offset,
    decreases data.len() - offset,
{
    if offset < data.len() {
        let l = spec_block_len(data, offset).unwrap();
        lemma_blocks_tile(data, offset + l);
    }
}

/// Reads blocks out of an in-memory byte source.
///
/// The source bytes are held whole; block offsets are byte offsets into
/// them.  Framing is exact: each read's contract mirrors the byte-level
/// layout of the format.
pub struct Parser {
    pub data: Vec<u8>,
}

impl Parser {
    /// Wraps a fully loaded byte source.
    pub fn new(data: Vec<u8>) -> (p: Parser)
        ensures
            p.data@ == data@,
    {
        Parser { data }
    }

    /// Reads the 4-byte big-endian length at `offset` and the header
    /// record it frames, returning the bytes consumed by both.
    pub fn read_blob_header(&self, offset: u64) -> (r: Result<(u64, BlobHeader), Error>)
        ensures
            match spec_read_blob_header(self.data@, offset as int) {
                Ok(sh) => r matches Ok(p) && p.0 as int == sh.0 && p.1@ == sh.1,
                Err(e) => r == Err::<(u64, BlobHeader), Error>(e),
            },
    {
        proof {
            reveal(spec_read_blob_header);
        }
        let total = self.data.len();
        if offset > total as u64 || (total as u64) - offset < 4 {
            return Err(Error::TruncatedRead);
        }
        let off = offset as usize;
        let n: u32 = (self.data[off] as u32) * 0x100_0000 + (self.data[off + 1] as u32) * 0x1_0000
            + (self.data[off + 2] as u32) * 0x100 + (self.data[off + 3] as u32);
        if (n as u64) > (total as u64) - offset - 4 {
            return Err(Error::TruncatedRead);
        }
        match parse_blob_header(self.data.as_slice(), off + 4, off + 4 + n as usize) {
            Some(h) => Ok((4 + n as u64, h)),
            None => Err(Error::MalformedHeader),
        }
    }

    /// Reads exactly `len` payload bytes at `offset` and deserializes
    /// them into a payload record.
    pub fn read_blob(&self, offset: u64, len: usize) -> (r: Result<Blob, Error>)
        ensures
            match spec_read_blob(self.data@, offset as int, len as int) {
                Ok(bv) => r matches Ok(b) && b@ == bv,
                Err(e) => r == Err::<Blob, Error>(e),
            },
    {
        proof {
            reveal(spec_read_blob);
        }
        let total = self.data.len();
        if offset > total as u64 || (len as u64) > (total as u64) - offset {
            return Err(Error::TruncatedRead);
        }
        let off = offset as usize;
        match parse_blob(self.data.as_slice(), off, off + len) {
            Some(b) => Ok(b),
            None => Err(Error::MalformedBlock),
        }
    }

    /// Reads one whole block at `offset`: its header, then the payload
    /// the header declares.  The returned count is what a caller adds to
    /// `offset` to reach the next block; starting from offset zero and
    /// advancing this way visits every block with no gap and no overlap.
    pub fn read_fileblock(&self, offset: u64) -> (r: Result<(u64, BlobHeader, Blob), Error>)
        ensures
            match spec_read_fileblock(self.data@, offset as int) {
                Ok(t) => r matches Ok(p) && p.0 as int == t.0 && p.1@ == t.1 && p.2@ == t.2,
                Err(e) => r == Err::<(u64, BlobHeader, Blob), Error>(e),
            },
    {
        proof {
            reveal(spec_read_blob_header);
            reveal(spec_read_blob);
            reveal(spec_read_fileblock);
        }
        let (s, blob_header) = self.read_blob_header(offset)?;
        proof {
            assert(self.data@.len() <= usize::MAX) by {
                vstd::std_specs::vec::axiom_spec_len(&self.data);
            }
            assert(offset + s <= self.data@.len());
        }
        let blob = self.read_blob(offset + s, blob_header.datasize as usize)?;
        Ok((s + blob_header.datasize as u64, blob_header, blob))
    }

    /// Reads and fully reconstructs the block at `offset`.  The block at
    /// offset zero is the source's leading metadata block by convention
    /// and yields no entities; any other block is decoded and
    /// reconstructed.  The returned count advances `offset` to the next
    /// block either way.
    pub fn read(&self, offset: u64) -> (r: Result<(u64, Vec<Element>), Error>)
        ensures
            match spec_read(self.data@, offset as int) {
                Ok(le) => r matches Ok(p) && p.0 as int == le.0 && crate::decode::spec_elems(p.1@)
                    == le.1,
                Err(e) => r == Err::<(u64, Vec<Element>), Error>(e),
            },
    {
        let (len, _blob_header, blob) = self.read_fileblock(offset)?;
        if offset == 0 {
            let items: Vec<Element> = Vec::new();
            proof {
                assert(crate::decode::spec_elems(items@) =~= Seq::<ElementV>::empty());
            }
            Ok((len, items))
        } else {
            let items = blob.decode_primitive()?.decode()?;
            Ok((len, items))
        }
    }
}

} // verus!
