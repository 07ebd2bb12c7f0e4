//! Protobuf-style wire format primitives.
//!
//! Block records are stored as sequences of tagged fields: a tag varint
//! whose low three bits are the wire type and whose remaining bits are the
//! field number, followed by the field payload (a varint, a fixed-width
//! value, or a length-prefixed byte run).  The message parsers in
//! [`crate::proto`] are built from these primitives.  Every reader works
//! on a window `pos..end` of a byte buffer and never looks outside it.

use vstd::prelude::*;

use vstd::slice::{slice_subrange, slice_to_vec};

verus! {

/// One wire-varint decoding chain: base-128 digits at `pos`, scaled by
/// `m`, onto `acc`, with at most `rem` further bytes; ten bytes of
/// continuation exhaust the read and fail it.
pub open spec fn spec_pbv_from(data: Seq<u8>, pos: int, end: int, rem: nat, acc: int, m: int) -> Option<
    (int, int),
>
    decreases rem,
{
    if rem == 0 {
        None
    } else if pos < 0 || pos >= end || end > data.len() {
        None
    } else {
        let b = data[pos];
        let acc2 = acc + m * ((b % 128) as int);
        if b < 128 {
            Some((acc2, pos + 1))
        } else {
            spec_pbv_from(data, pos + 1, end, (rem - 1) as nat, acc2, m * 128)
        }
    }
}

/// A wire varint read inside the window `pos..end`: the value, reduced to
/// 64 bits, and the position just past it.  At most ten bytes are read;
/// digits beyond the 64th bit are discarded.
pub open spec fn spec_pb_varint(data: Seq<u8>, pos: int, end: int) -> Option<(u64, int)> {
    match spec_pbv_from(data, pos, end, 10, 0, 1) {
        Some(vn) => Some(((vn.0 % 0x1_0000_0000_0000_0000) as u64, vn.1)),
        None => None,
    }
}

/// Relies on quick_protobuf::BytesReader::read_varint64: reads a base-128
/// varint of at most ten bytes from the window and reports the 64-bit
/// value and the window length left after it; fails when the window ends
/// inside the varint or a tenth byte still asks for a continuation.
#[verifier::external_body]
fn pb_varint_raw(data: &[u8], pos: usize, end: usize) -> (r: Option<(u64, usize)>)
    requires
        pos <= end <= data@.len(),
    ensures
        match spec_pb_varint(data@, pos as int, end as int) {
            Some(vn) => r matches Some(p) && p.0 == vn.0 && end - p.1 == vn.1,
            None => r is None,
        },
{
    let win = &data[pos..end];
    let mut rd = quick_protobuf::BytesReader::from_bytes(win);
    match rd.read_varint64(win) {
        Ok(v) => Some((v, rd.len())),
        Err(_) => None,
    }
}

/// A successful varint read lands strictly past `pos` and within the
/// window.
pub proof fn lemma_pb_varint_range(data: Seq<u8>, pos: int, end: int)
    ensures
        match spec_pb_varint(data, pos, end) {
            Some(vn) => pos < vn.1 <= end && end <= data.len(),
            None => true,
        },
{
    lemma_pbv_from_range(data, pos, end, 10, 0, 1);
}

proof fn lemma_pbv_from_range(data: Seq<u8>, pos: int, end: int, rem: nat, acc: int, m: int)
    ensures
        match spec_pbv_from(data, pos, end, rem, acc, m) {
            Some(vn) => pos < vn.1 <= end && end <= data.len(),
            None => true,
        },
    decreases rem,
{
    if rem > 0 && 0 <= pos < end && end <= data.len() && data[pos] >= 128 {
        lemma_pbv_from_range(data, pos + 1, end, (rem - 1) as nat, acc + m * ((data[pos] % 128) as int), m * 128);
    }
}

/// Reads a wire varint inside the window, returning the value and the
/// position just past it.
pub fn read_varint(data: &[u8], pos: usize, end: usize) -> (r: Option<(u64, usize)>)
    requires
        pos <= end <= data@.len(),
    ensures
        match spec_pb_varint(data@, pos as int, end as int) {
            Some(vn) => r matches Some(p) && p.0 == vn.0 && p.1 as int == vn.1,
            None => r is None,
        },
{
    proof {
        lemma_pb_varint_range(data@, pos as int, end as int);
    }
    match pb_varint_raw(data, pos, end) {
        Some((v, left)) => Some((v, end - left)),
        None => None,
    }
}

/// Interprets a wire varint as a signed value: even values are the
/// non-negatives in order, odd values the negatives.
pub open spec fn spec_zigzag64(v: u64) -> i64 {
    if v % 2 == 0 {
        (v / 2) as i64
    } else {
        (-1 - ((v / 2) as int)) as i64
    }
}

/// Undoes the even-odd interleaving of signed values.
pub fn zigzag64(v: u64) -> (r: i64)
    ensures
        r == spec_zigzag64(v),
{
    if v % 2 == 0 {
        (v / 2) as i64
    } else {
        -1i64 - ((v / 2) as i64)
    }
}

/// The signed reading of a 32-bit wire value: the low 32 bits of the
/// varint, two's complement.
pub open spec fn spec_as_i32(v: u64) -> i32 {
    (v as u32) as i32
}

/// Truncates a wire varint to a signed 32-bit value.
pub fn wire_i32(v: u64) -> (r: i32)
    ensures
        r == spec_as_i32(v),
{
    (v as u32) as i32
}

/// The signed zigzag reading of a 32-bit wire value.
pub open spec fn spec_zigzag32(v: u64) -> i32 {
    let n = v as u32;
    if n % 2 == 0 {
        (n / 2) as i32
    } else {
        (-1 - ((n / 2) as int)) as i32
    }
}

/// Undoes the even-odd interleaving on the low 32 bits of a wire value.
pub fn zigzag32(v: u64) -> (r: i32)
    ensures
        r == spec_zigzag32(v),
{
    let n = v as u32;
    if n % 2 == 0 {
        (n / 2) as i32
    } else {
        -1i32 - ((n / 2) as i32)
    }
}

/// Where the field after a tag of the given wire type ends: varints are
/// scanned, fixed-width runs measured, length-prefixed runs bounded by the
/// window; any other wire type fails the message.
pub open spec fn spec_skip_field(data: Seq<u8>, pos: int, end: int, wire: u64) -> Option<int> {
    if wire == 0 {
        match spec_pb_varint(data, pos, end) {
            Some(vn) => Some(vn.1),
            None => None,
        }
    } else if wire == 1 {
        if pos + 8 <= end {
            Some(pos + 8)
        } else {
            None
        }
    } else if wire == 2 {
        match spec_pb_varint(data, pos, end) {
            Some(vn) => if vn.1 + vn.0 <= end {
                Some(vn.1 + vn.0)
            } else {
                None
            },
            None => None,
        }
    } else if wire == 5 {
        if pos + 4 <= end {
            Some(pos + 4)
        } else {
            None
        }
    } else {
        None
    }
}

/// Skips one field payload of the given wire type, returning the position
/// just past it.
pub fn skip_field(data: &[u8], pos: usize, end: usize, wire: u64) -> (r: Option<usize>)
    requires
        pos <= end <= data@.len(),
    ensures
        match spec_skip_field(data@, pos as int, end as int, wire) {
            Some(next) => r matches Some(p) && p as int == next,
            None => r is None,
        },
{
    proof {
        lemma_pb_varint_range(data@, pos as int, end as int);
    }
    if wire == 0 {
        match read_varint(data, pos, end) {
            Some((_, next)) => Some(next),
            None => None,
        }
    } else if wire == 1 {
        if end - pos >= 8 {
            Some(pos + 8)
        } else {
            None
        }
    } else if wire == 2 {
        match read_varint(data, pos, end) {
            Some((len, next)) => {
                if len <= (end - next) as u64 {
                    Some(next + len as usize)
                } else {
                    None
                }
            },
            None => None,
        }
    } else if wire == 5 {
        if end - pos >= 4 {
            Some(pos + 4)
        } else {
            None
        }
    } else {
        None
    }
}

/// The bounds of a length-prefixed byte run at `pos`: where it starts and
/// where it ends, both within the window.
pub open spec fn spec_len_delim(data: Seq<u8>, pos: int, end: int) -> Option<(int, int)> {
    match spec_pb_varint(data, pos, end) {
        Some(vn) => if vn.1 + vn.0 <= end {
            Some((vn.1, vn.1 + vn.0))
        } else {
            None
        },
        None => None,
    }
}

/// Reads the bounds of a length-prefixed byte run.
pub fn read_len_delim(data: &[u8], pos: usize, end: usize) -> (r: Option<(usize, usize)>)
    requires
        pos <= end <= data@.len(),
    ensures
        match spec_len_delim(data@, pos as int, end as int) {
            Some(se) => r matches Some(p) && p.0 as int == se.0 && p.1 as int == se.1 && pos < p.0
                <= p.1 <= end,
            None => r is None,
        },
{
    proof {
        lemma_pb_varint_range(data@, pos as int, end as int);
    }
    match read_varint(data, pos, end) {
        Some((len, next)) => {
            if len <= (end - next) as u64 {
                Some((next, next + len as usize))
            } else {
                None
            }
        },
        None => None,
    }
}

/// Copies the window `a..b` out of the buffer.
pub fn copy_range(data: &[u8], a: usize, b: usize) -> (r: Vec<u8>)
    requires
        a <= b <= data@.len(),
    ensures
        r@ == data@.subrange(a as int, b as int),
{
    slice_to_vec(slice_subrange(data, a, b))
}

} // verus!
