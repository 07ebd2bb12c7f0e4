//! Entity-level block records: the metadata block and the primitive block
//! with its groups of plain nodes, dense nodes, ways and relations.
//!
//! The records hold plain values exactly as they stand on the wire:
//! delta-encoded columns stay delta-encoded here, and string references
//! stay table indices.  Reversing the deltas and resolving the indices is
//! the reconstructor's job.  The parsers are verified to be total on
//! arbitrary bytes — they cannot panic and always terminate — while the
//! field-by-field deserialization itself is schema plumbing whose output
//! the reconstructor's exact contracts take as given.

use vstd::prelude::*;

use crate::wire::{
    copy_range, lemma_pb_varint_range, read_len_delim, read_varint, skip_field, spec_as_i32,
    spec_len_delim, spec_pb_varint, spec_skip_field, spec_zigzag32, spec_zigzag64, wire_i32,
    zigzag32, zigzag64,
};

verus! {

/// Bounding box of a metadata block, in nanodegrees.
#[derive(Debug, Clone)]
pub struct HeaderBBox {
    pub left: i64,
    pub right: i64,
    pub top: i64,
    pub bottom: i64,
}

/// The metadata block that leads a well-formed source: a bounding box and
/// the feature names a reader must understand.
#[derive(Debug, Clone)]
pub struct HeaderBlock {
    pub bbox: Option<HeaderBBox>,
    pub required_features: Vec<Vec<u8>>,
    pub optional_features: Vec<Vec<u8>>,
}

/// Per-entity metadata, all fields absolute.
#[derive(Debug, Clone)]
pub struct Info {
    pub version: i32,
    pub timestamp: Option<i64>,
    pub changeset: Option<i64>,
    pub uid: Option<i32>,
    pub user_sid: Option<u32>,
    pub visible: Option<bool>,
}

/// A plain (non-dense) point entity: absolute id and raw coordinate
/// units, with tag key/value string-table indices consumed pairwise.
#[derive(Debug, Clone)]
pub struct Node {
    pub id: i64,
    pub keys: Vec<u32>,
    pub vals: Vec<u32>,
    pub info: Option<Info>,
    pub lat: i64,
    pub lon: i64,
}

/// The columnar, delta-encoded representation of many points: parallel
/// `id`/`lat`/`lon` delta columns, one flat sentinel-terminated tag index
/// array for all points, and optional per-point metadata columns.
#[derive(Debug, Clone)]
pub struct DenseNodes {
    pub id: Vec<i64>,
    pub lat: Vec<i64>,
    pub lon: Vec<i64>,
    pub denseinfo: Option<DenseInfo>,
    pub keys_vals: Vec<i32>,
}

/// Metadata columns of a dense block; each column is independently
/// optional and may be shorter than the id column.  `timestamp`,
/// `changeset`, `uid` and `user_sid` are deltas, `visible` is absolute.
#[derive(Debug, Clone)]
pub struct DenseInfo {
    pub version: Vec<i32>,
    pub timestamp: Vec<i64>,
    pub changeset: Vec<i64>,
    pub uid: Vec<i32>,
    pub user_sid: Vec<i32>,
    pub visible: Vec<bool>,
}

/// A polyline entity: absolute id, tag index pairs, and delta-encoded
/// references to point ids.
#[derive(Debug, Clone)]
pub struct Way {
    pub id: i64,
    pub keys: Vec<u32>,
    pub vals: Vec<u32>,
    pub info: Option<Info>,
    pub refs: Vec<i64>,
}

/// A relation entity: absolute id, tag index pairs, and three parallel
/// member columns — delta-encoded member ids, role string-table indices,
/// and member kind tags.
#[derive(Debug, Clone)]
pub struct Relation {
    pub id: i64,
    pub keys: Vec<u32>,
    pub vals: Vec<u32>,
    pub info: Option<Info>,
    pub roles_sid: Vec<i32>,
    pub memids: Vec<i64>,
    pub types: Vec<i32>,
}

/// One group of entities inside a primitive block.
#[derive(Debug, Clone)]
pub struct PrimitiveGroup {
    pub nodes: Vec<Node>,
    pub dense: Option<DenseNodes>,
    pub ways: Vec<Way>,
    pub relations: Vec<Relation>,
}

/// A decoded data block: the shared string table (index 0 reserved), the
/// entity groups, and the linear transform of raw coordinate units into
/// nanodegrees.
#[derive(Debug, Clone)]
pub struct PrimitiveBlock {
    pub stringtable: Vec<Vec<u8>>,
    pub primitivegroup: Vec<PrimitiveGroup>,
    pub granularity: i32,
    pub lat_offset: i64,
    pub lon_offset: i64,
}

/// Mathematical image of an [`Info`].
pub ghost struct InfoV {
    pub version: i32,
    pub timestamp: Option<i64>,
    pub changeset: Option<i64>,
    pub uid: Option<i32>,
    pub user_sid: Option<u32>,
    pub visible: Option<bool>,
}

impl View for Info {
    type V = InfoV;

    open spec fn view(&self) -> InfoV {
        InfoV {
            version: self.version,
            timestamp: self.timestamp,
            changeset: self.changeset,
            uid: self.uid,
            user_sid: self.user_sid,
            visible: self.visible,
        }
    }
}

/// Mathematical image of a [`Node`].
pub ghost struct NodeV {
    pub id: i64,
    pub keys: Seq<u32>,
    pub vals: Seq<u32>,
    pub info: Option<InfoV>,
    pub lat: i64,
    pub lon: i64,
}

impl View for Node {
    type V = NodeV;

    open spec fn view(&self) -> NodeV {
        NodeV {
            id: self.id,
            keys: self.keys@,
            vals: self.vals@,
            info: match self.info {
                Some(i) => Some(i@),
                None => None,
            },
            lat: self.lat,
            lon: self.lon,
        }
    }
}

/// Mathematical image of a [`DenseInfo`].
pub ghost struct DenseInfoV {
    pub version: Seq<i32>,
    pub timestamp: Seq<i64>,
    pub changeset: Seq<i64>,
    pub uid: Seq<i32>,
    pub user_sid: Seq<i32>,
    pub visible: Seq<bool>,
}

impl View for DenseInfo {
    type V = DenseInfoV;

    open spec fn view(&self) -> DenseInfoV {
        DenseInfoV {
            version: self.version@,
            timestamp: self.timestamp@,
            changeset: self.changeset@,
            uid: self.uid@,
            user_sid: self.user_sid@,
            visible: self.visible@,
        }
    }
}

/// Mathematical image of a [`DenseNodes`].
pub ghost struct DenseNodesV {
    pub id: Seq<i64>,
    pub lat: Seq<i64>,
    pub lon: Seq<i64>,
    pub denseinfo: Option<DenseInfoV>,
    pub keys_vals: Seq<i32>,
}

impl View for DenseNodes {
    type V = DenseNodesV;

    open spec fn view(&self) -> DenseNodesV {
        DenseNodesV {
            id: self.id@,
            lat: self.lat@,
            lon: self.lon@,
            denseinfo: match self.denseinfo {
                Some(d) => Some(d@),
                None => None,
            },
            keys_vals: self.keys_vals@,
        }
    }
}

/// Mathematical image of a [`Way`].
pub ghost struct WayV {
    pub id: i64,
    pub keys: Seq<u32>,
    pub vals: Seq<u32>,
    pub info: Option<InfoV>,
    pub refs: Seq<i64>,
}

impl View for Way {
    type V = WayV;

    open spec fn view(&self) -> WayV {
        WayV {
            id: self.id,
            keys: self.keys@,
            vals: self.vals@,
            info: match self.info {
                Some(i) => Some(i@),
                None => None,
            },
            refs: self.refs@,
        }
    }
}

/// Mathematical image of a [`Relation`].
pub ghost struct RelationV {
    pub id: i64,
    pub keys: Seq<u32>,
    pub vals: Seq<u32>,
    pub info: Option<InfoV>,
    pub roles_sid: Seq<i32>,
    pub memids: Seq<i64>,
    pub types: Seq<i32>,
}

impl View for Relation {
    type V = RelationV;

    open spec fn view(&self) -> RelationV {
        RelationV {
            id: self.id,
            keys: self.keys@,
            vals: self.vals@,
            info: match self.info {
                Some(i) => Some(i@),
                None => None,
            },
            roles_sid: self.roles_sid@,
            memids: self.memids@,
            types: self.types@,
        }
    }
}

/// Mathematical image of a [`PrimitiveGroup`].
pub ghost struct PrimitiveGroupV {
    pub nodes: Seq<NodeV>,
    pub dense: Option<DenseNodesV>,
    pub ways: Seq<WayV>,
    pub relations: Seq<RelationV>,
}

impl View for PrimitiveGroup {
    type V = PrimitiveGroupV;

    open spec fn view(&self) -> PrimitiveGroupV {
        PrimitiveGroupV {
            nodes: self.nodes@.map_values(|n: Node| n@),
            dense: match self.dense {
                Some(d) => Some(d@),
                None => None,
            },
            ways: self.ways@.map_values(|w: Way| w@),
            relations: self.relations@.map_values(|r: Relation| r@),
        }
    }
}

/// Mathematical image of a [`PrimitiveBlock`].
pub ghost struct PrimitiveBlockV {
    pub stringtable: Seq<Seq<u8>>,
    pub primitivegroup: Seq<PrimitiveGroupV>,
    pub granularity: i32,
    pub lat_offset: i64,
    pub lon_offset: i64,
}

impl View for PrimitiveBlock {
    type V = PrimitiveBlockV;

    open spec fn view(&self) -> PrimitiveBlockV {
        PrimitiveBlockV {
            stringtable: self.stringtable@.map_values(|s: Vec<u8>| s@),
            primitivegroup: self.primitivegroup@.map_values(|g: PrimitiveGroup| g@),
            granularity: self.granularity,
            lat_offset: self.lat_offset,
            lon_offset: self.lon_offset,
        }
    }
}

/// The zigzag 64-bit values packed back to back in `pos..end`, one varint each.
pub open spec fn spec_packed_sint64(data: Seq<u8>, pos: int, end: int) -> Option<Seq<i64>>
    decreases end - pos,
{
    if pos == end {
        Some(Seq::empty())
    } else if pos < 0 || pos > end {
        None
    } else {
        match spec_pb_varint(data, pos, end) {
            None => None,
            Some(vp) => if pos < vp.1 <= end {
                match spec_packed_sint64(data, vp.1, end) {
                    None => None,
                    Some(rest) => Some(seq![spec_zigzag64(vp.0)] + rest),
                }
            } else {
                None
            },
        }
    }
}

/// A length-prefixed packed column of zigzag 64-bit values: the values and the position
/// just past the column.
pub open spec fn spec_packed_sint64_col(data: Seq<u8>, pos: int, end: int) -> Option<
    (Seq<i64>, int),
> {
    match spec_len_delim(data, pos, end) {
        None => None,
        Some(ab) => match spec_packed_sint64(data, ab.0, ab.1) {
            None => None,
            Some(vals) => Some((vals, ab.1)),
        },
    }
}

/// The unsigned 32-bit values packed back to back in `pos..end`, one varint each.
pub open spec fn spec_packed_u32(data: Seq<u8>, pos: int, end: int) -> Option<Seq<u32>>
    decreases end - pos,
{
    if pos == end {
        Some(Seq::empty())
    } else if pos < 0 || pos > end {
        None
    } else {
        match spec_pb_varint(data, pos, end) {
            None => None,
            Some(vp) => if pos < vp.1 <= end {
                match spec_packed_u32(data, vp.1, end) {
                    None => None,
                    Some(rest) => Some(seq![(vp.0 as u32)] + rest),
                }
            } else {
                None
            },
        }
    }
}

/// A length-prefixed packed column of unsigned 32-bit values: the values and the position
/// just past the column.
pub open spec fn spec_packed_u32_col(data: Seq<u8>, pos: int, end: int) -> Option<
    (Seq<u32>, int),
> {
    match spec_len_delim(data, pos, end) {
        None => None,
        Some(ab) => match spec_packed_u32(data, ab.0, ab.1) {
            None => None,
            Some(vals) => Some((vals, ab.1)),
        },
    }
}

/// The plain signed 32-bit values packed back to back in `pos..end`, one varint each.
pub open spec fn spec_packed_i32(data: Seq<u8>, pos: int, end: int) -> Option<Seq<i32>>
    decreases end - pos,
{
    if pos == end {
        Some(Seq::empty())
    } else if pos < 0 || pos > end {
        None
    } else {
        match spec_pb_varint(data, pos, end) {
            None => None,
            Some(vp) => if pos < vp.1 <= end {
                match spec_packed_i32(data, vp.1, end) {
                    None => None,
                    Some(rest) => Some(seq![spec_as_i32(vp.0)] + rest),
                }
            } else {
                None
            },
        }
    }
}

/// A length-prefixed packed column of plain signed 32-bit values: the values and the position
/// just past the column.
pub open spec fn spec_packed_i32_col(data: Seq<u8>, pos: int, end: int) -> Option<
    (Seq<i32>, int),
> {
    match spec_len_delim(data, pos, end) {
        None => None,
        Some(ab) => match spec_packed_i32(data, ab.0, ab.1) {
            None => None,
            Some(vals) => Some((vals, ab.1)),
        },
    }
}

/// The zigzag 32-bit values packed back to back in `pos..end`, one varint each.
pub open spec fn spec_packed_sint32(data: Seq<u8>, pos: int, end: int) -> Option<Seq<i32>>
    decreases end - pos,
{
    if pos == end {
        Some(Seq::empty())
    } else if pos < 0 || pos > end {
        None
    } else {
        match spec_pb_varint(data, pos, end) {
            None => None,
            Some(vp) => if pos < vp.1 <= end {
                match spec_packed_sint32(data, vp.1, end) {
                    None => None,
                    Some(rest) => Some(seq![spec_zigzag32(vp.0)] + rest),
                }
            } else {
                None
            },
        }
    }
}

/// A length-prefixed packed column of zigzag 32-bit values: the values and the position
/// just past the column.
pub open spec fn spec_packed_sint32_col(data: Seq<u8>, pos: int, end: int) -> Option<
    (Seq<i32>, int),
> {
    match spec_len_delim(data, pos, end) {
        None => None,
        Some(ab) => match spec_packed_sint32(data, ab.0, ab.1) {
            None => None,
            Some(vals) => Some((vals, ab.1)),
        },
    }
}

/// The booleans packed back to back in `pos..end`, one varint each.
pub open spec fn spec_packed_bool(data: Seq<u8>, pos: int, end: int) -> Option<Seq<bool>>
    decreases end - pos,
{
    if pos == end {
        Some(Seq::empty())
    } else if pos < 0 || pos > end {
        None
    } else {
        match spec_pb_varint(data, pos, end) {
            None => None,
            Some(vp) => if pos < vp.1 <= end {
                match spec_packed_bool(data, vp.1, end) {
                    None => None,
                    Some(rest) => Some(seq![(vp.0 != 0)] + rest),
                }
            } else {
                None
            },
        }
    }
}

/// A length-prefixed packed column of booleans: the values and the position
/// just past the column.
pub open spec fn spec_packed_bool_col(data: Seq<u8>, pos: int, end: int) -> Option<
    (Seq<bool>, int),
> {
    match spec_len_delim(data, pos, end) {
        None => None,
        Some(ab) => match spec_packed_bool(data, ab.0, ab.1) {
            None => None,
            Some(vals) => Some((vals, ab.1)),
        },
    }
}

/// Mathematical image of a [`HeaderBBox`].
pub ghost struct HeaderBBoxV {
    pub left: i64,
    pub right: i64,
    pub top: i64,
    pub bottom: i64,
}

impl View for HeaderBBox {
    type V = HeaderBBoxV;

    open spec fn view(&self) -> HeaderBBoxV {
        HeaderBBoxV {
            left: self.left,
            right: self.right,
            top: self.top,
            bottom: self.bottom,
        }
    }
}

/// Mathematical image of a [`HeaderBlock`].
pub ghost struct HeaderBlockV {
    pub bbox: Option<HeaderBBoxV>,
    pub required_features: Seq<Seq<u8>>,
    pub optional_features: Seq<Seq<u8>>,
}

impl View for HeaderBlock {
    type V = HeaderBlockV;

    open spec fn view(&self) -> HeaderBlockV {
        HeaderBlockV {
            bbox: match self.bbox {
                Some(b) => Some(b@),
                None => None,
            },
            required_features: self.required_features@.map_values(|x: Vec<u8>| x@),
            optional_features: self.optional_features@.map_values(|x: Vec<u8>| x@),
        }
    }
}

/// A fresh bounding box record, all corners at zero.
pub open spec fn spec_bbox_init() -> HeaderBBoxV {
    HeaderBBoxV { left: 0, right: 0, top: 0, bottom: 0 }
}

/// One field of a bounding box record.
pub open spec fn spec_bbox_step(data: Seq<u8>, pos: int, end: int, m: HeaderBBoxV) -> Option<
    (HeaderBBoxV, int),
> {
    match spec_pb_varint(data, pos, end) {
        None => None,
        Some(tp) => {
            let field = tp.0 / 8;
            let wire = tp.0 % 8;
            let p = tp.1;
            if 1 <= field <= 4 && wire == 0 {
                match spec_pb_varint(data, p, end) {
                    Some(vp) => {
                        let v = spec_zigzag64(vp.0);
                        let m2 = if field == 1 {
                            HeaderBBoxV { left: v, ..m }
                        } else if field == 2 {
                            HeaderBBoxV { right: v, ..m }
                        } else if field == 3 {
                            HeaderBBoxV { top: v, ..m }
                        } else {
                            HeaderBBoxV { bottom: v, ..m }
                        };
                        Some((m2, vp.1))
                    },
                    None => None,
                }
            } else {
                match spec_skip_field(data, p, end, wire) {
                    Some(p2) => Some((m, p2)),
                    None => None,
                }
            }
        },
    }
}

/// A bounding box record folded from the whole window `pos..end`.
pub open spec fn spec_bbox_rec(data: Seq<u8>, pos: int, end: int, m: HeaderBBoxV) -> Option<
    HeaderBBoxV,
>
    decreases end - pos,
{
    if pos >= end {
        if pos == end {
            Some(m)
        } else {
            None
        }
    } else {
        match spec_bbox_step(data, pos, end, m) {
            None => None,
            Some(mp) => if pos < mp.1 <= end {
                spec_bbox_rec(data, mp.1, end, mp.0)
            } else {
                None
            },
        }
    }
}

/// The bounding box record held in the bytes `pos..end`.
pub open spec fn spec_parse_bbox(data: Seq<u8>, pos: int, end: int) -> Option<HeaderBBoxV> {
    if 0 <= pos <= end <= data.len() {
        spec_bbox_rec(data, pos, end, spec_bbox_init())
    } else {
        None
    }
}

/// A fresh metadata block record: no bounding box, no features.
pub open spec fn spec_header_block_init() -> HeaderBlockV {
    HeaderBlockV { bbox: None, required_features: Seq::empty(), optional_features: Seq::empty() }
}

/// One field of a metadata block record.
pub open spec fn spec_header_block_step(
    data: Seq<u8>,
    pos: int,
    end: int,
    m: HeaderBlockV,
) -> Option<(HeaderBlockV, int)> {
    match spec_pb_varint(data, pos, end) {
        None => None,
        Some(tp) => {
            let field = tp.0 / 8;
            let wire = tp.0 % 8;
            let p = tp.1;
            if field == 1 && wire == 2 {
                match spec_len_delim(data, p, end) {
                    Some(ab) => match spec_parse_bbox(data, ab.0, ab.1) {
                        Some(sub) => Some((HeaderBlockV { bbox: Some(sub), ..m }, ab.1)),
                        None => None,
                    },
                    None => None,
                }
            } else if field == 4 && wire == 2 {
                match spec_len_delim(data, p, end) {
                    Some(ab) => Some(
                        (
                            HeaderBlockV {
                                required_features: m.required_features.push(
                                    data.subrange(ab.0, ab.1),
                                ),
                                ..m
                            },
                            ab.1,
                        ),
                    ),
                    None => None,
                }
            } else if field == 5 && wire == 2 {
                match spec_len_delim(data, p, end) {
                    Some(ab) => Some(
                        (
                            HeaderBlockV {
                                optional_features: m.optional_features.push(
                                    data.subrange(ab.0, ab.1),
                                ),
                                ..m
                            },
                            ab.1,
                        ),
                    ),
                    None => None,
                }
            } else {
                match spec_skip_field(data, p, end, wire) {
                    Some(p2) => Some((m, p2)),
                    None => None,
                }
            }
        },
    }
}

/// A metadata block record folded from the whole window `pos..end`.
pub open spec fn spec_header_block_rec(data: Seq<u8>, pos: int, end: int, m: HeaderBlockV) -> Option<
    HeaderBlockV,
>
    decreases end - pos,
{
    if pos >= end {
        if pos == end {
            Some(m)
        } else {
            None
        }
    } else {
        match spec_header_block_step(data, pos, end, m) {
            None => None,
            Some(mp) => if pos < mp.1 <= end {
                spec_header_block_rec(data, mp.1, end, mp.0)
            } else {
                None
            },
        }
    }
}

/// The metadata block record held in the bytes `pos..end`.
pub open spec fn spec_parse_header_block(data: Seq<u8>, pos: int, end: int) -> Option<
    HeaderBlockV,
> {
    if 0 <= pos <= end <= data.len() {
        spec_header_block_rec(data, pos, end, spec_header_block_init())
    } else {
        None
    }
}

proof fn lemma_bbox_step_range(data: Seq<u8>, pos: int, end: int, m: HeaderBBoxV)
    requires
        0 <= pos < end <= data.len(),
    ensures
        match spec_bbox_step(data, pos, end, m) {
            Some(mp) => pos < mp.1 <= end,
            None => true,
        },
{
    lemma_pb_varint_range(data, pos, end);
    if let Some(tp) = spec_pb_varint(data, pos, end) {
        lemma_pb_varint_range(data, tp.1, end);
    }
}

proof fn lemma_header_block_step_range(data: Seq<u8>, pos: int, end: int, m: HeaderBlockV)
    requires
        0 <= pos < end <= data.len(),
    ensures
        match spec_header_block_step(data, pos, end, m) {
            Some(mp) => pos < mp.1 <= end,
            None => true,
        },
{
    lemma_pb_varint_range(data, pos, end);
    if let Some(tp) = spec_pb_varint(data, pos, end) {
        lemma_pb_varint_range(data, tp.1, end);
    }
}

/// Reads a length-prefixed packed column of zigzag 64-bit values.
fn read_packed_sint64(data: &[u8], pos: usize, end: usize) -> (r: Option<(Vec<i64>, usize)>)
    requires
        pos <= end <= data@.len(),
    ensures
        match spec_packed_sint64_col(data@, pos as int, end as int) {
            Some(cp) => r matches Some(p) && p.0@ == cp.0 && p.1 as int == cp.1 && pos < p.1
                <= end,
            None => r is None,
        },
{
    match read_len_delim(data, pos, end) {
        None => None,
        Some((a, b)) => {
            let mut out: Vec<i64> = Vec::new();
            let mut p = a;
            proof {
                if let Some(whole) = spec_packed_sint64(data@, a as int, b as int) {
                    assert(Seq::<i64>::empty() + whole =~= whole);
                }
            }
            while p < b
                invariant
                    a <= p <= b <= end <= data@.len(),
                    spec_len_delim(data@, pos as int, end as int) == Some((a as int, b as int)),
                    match spec_packed_sint64(data@, p as int, b as int) {
                        Some(rest) => spec_packed_sint64(data@, a as int, b as int) == Some(
                            out@ + rest,
                        ),
                        None => spec_packed_sint64(data@, a as int, b as int) is None,
                    },
                decreases b - p,
            {
                proof {
                    lemma_pb_varint_range(data@, p as int, b as int);
                }
                match read_varint(data, p, b) {
                    Some((v, next)) => {
                        let ghost old_out = out@;
                        out.push(zigzag64(v));
                        proof {
                            if let Some(rest2) = spec_packed_sint64(data@, next as int, b as int) {
                                assert(old_out + (seq![spec_zigzag64(v as u64)] + rest2) =~= out@ + rest2);
                            }
                        }
                        p = next;
                    },
                    None => {
                        return None;
                    },
                }
            }
            proof {
                assert(out@ + Seq::<i64>::empty() =~= out@);
            }
            Some((out, b))
        },
    }
}

/// Reads a length-prefixed packed column of unsigned 32-bit values.
fn read_packed_u32(data: &[u8], pos: usize, end: usize) -> (r: Option<(Vec<u32>, usize)>)
    requires
        pos <= end <= data@.len(),
    ensures
        match spec_packed_u32_col(data@, pos as int, end as int) {
            Some(cp) => r matches Some(p) && p.0@ == cp.0 && p.1 as int == cp.1 && pos < p.1
                <= end,
            None => r is None,
        },
{
    match read_len_delim(data, pos, end) {
        None => None,
        Some((a, b)) => {
            let mut out: Vec<u32> = Vec::new();
            let mut p = a;
            proof {
                if let Some(whole) = spec_packed_u32(data@, a as int, b as int) {
                    assert(Seq::<u32>::empty() + whole =~= whole);
                }
            }
            while p < b
                invariant
                    a <= p <= b <= end <= data@.len(),
                    spec_len_delim(data@, pos as int, end as int) == Some((a as int, b as int)),
                    match spec_packed_u32(data@, p as int, b as int) {
                        Some(rest) => spec_packed_u32(data@, a as int, b as int) == Some(
                            out@ + rest,
                        ),
                        None => spec_packed_u32(data@, a as int, b as int) is None,
                    },
                decreases b - p,
            {
                proof {
                    lemma_pb_varint_range(data@, p as int, b as int);
                }
                match read_varint(data, p, b) {
                    Some((v, next)) => {
                        let ghost old_out = out@;
                        out.push(v as u32);
                        proof {
                            if let Some(rest2) = spec_packed_u32(data@, next as int, b as int) {
                                assert(old_out + (seq![(v as u32)] + rest2) =~= out@ + rest2);
                            }
                        }
                        p = next;
                    },
                    None => {
                        return None;
                    },
                }
            }
            proof {
                assert(out@ + Seq::<u32>::empty() =~= out@);
            }
            Some((out, b))
        },
    }
}

/// Reads a length-prefixed packed column of plain signed 32-bit values.
fn read_packed_i32(data: &[u8], pos: usize, end: usize) -> (r: Option<(Vec<i32>, usize)>)
    requires
        pos <= end <= data@.len(),
    ensures
        match spec_packed_i32_col(data@, pos as int, end as int) {
            Some(cp) => r matches Some(p) && p.0@ == cp.0 && p.1 as int == cp.1 && pos < p.1
                <= end,
            None => r is None,
        },
{
    match read_len_delim(data, pos, end) {
        None => None,
        Some((a, b)) => {
            let mut out: Vec<i32> = Vec::new();
            let mut p = a;
            proof {
                if let Some(whole) = spec_packed_i32(data@, a as int, b as int) {
                    assert(Seq::<i32>::empty() + whole =~= whole);
                }
            }
            while p < b
                invariant
                    a <= p <= b <= end <= data@.len(),
                    spec_len_delim(data@, pos as int, end as int) == Some((a as int, b as int)),
                    match spec_packed_i32(data@, p as int, b as int) {
                        Some(rest) => spec_packed_i32(data@, a as int, b as int) == Some(
                            out@ + rest,
                        ),
                        None => spec_packed_i32(data@, a as int, b as int) is None,
                    },
                decreases b - p,
            {
                proof {
                    lemma_pb_varint_range(data@, p as int, b as int);
                }
                match read_varint(data, p, b) {
                    Some((v, next)) => {
                        let ghost old_out = out@;
                        out.push(wire_i32(v));
                        proof {
                            if let Some(rest2) = spec_packed_i32(data@, next as int, b as int) {
                                assert(old_out + (seq![spec_as_i32(v as u64)] + rest2) =~= out@ + rest2);
                            }
                        }
                        p = next;
                    },
                    None => {
                        return None;
                    },
                }
            }
            proof {
                assert(out@ + Seq::<i32>::empty() =~= out@);
            }
            Some((out, b))
        },
    }
}

/// Reads a length-prefixed packed column of zigzag 32-bit values.
fn read_packed_sint32(data: &[u8], pos: usize, end: usize) -> (r: Option<(Vec<i32>, usize)>)
    requires
        pos <= end <= data@.len(),
    ensures
        match spec_packed_sint32_col(data@, pos as int, end as int) {
            Some(cp) => r matches Some(p) && p.0@ == cp.0 && p.1 as int == cp.1 && pos < p.1
                <= end,
            None => r is None,
        },
{
    match read_len_delim(data, pos, end) {
        None => None,
        Some((a, b)) => {
            let mut out: Vec<i32> = Vec::new();
            let mut p = a;
            proof {
                if let Some(whole) = spec_packed_sint32(data@, a as int, b as int) {
                    assert(Seq::<i32>::empty() + whole =~= whole);
                }
            }
            while p < b
                invariant
                    a <= p <= b <= end <= data@.len(),
                    spec_len_delim(data@, pos as int, end as int) == Some((a as int, b as int)),
                    match spec_packed_sint32(data@, p as int, b as int) {
                        Some(rest) => spec_packed_sint32(data@, a as int, b as int) == Some(
                            out@ + rest,
                        ),
                        None => spec_packed_sint32(data@, a as int, b as int) is None,
                    },
                decreases b - p,
            {
                proof {
                    lemma_pb_varint_range(data@, p as int, b as int);
                }
                match read_varint(data, p, b) {
                    Some((v, next)) => {
                        let ghost old_out = out@;
                        out.push(zigzag32(v));
                        proof {
                            if let Some(rest2) = spec_packed_sint32(data@, next as int, b as int) {
                                assert(old_out + (seq![spec_zigzag32(v as u64)] + rest2) =~= out@ + rest2);
                            }
                        }
                        p = next;
                    },
                    None => {
                        return None;
                    },
                }
            }
            proof {
                assert(out@ + Seq::<i32>::empty() =~= out@);
            }
            Some((out, b))
        },
    }
}

/// Reads a length-prefixed packed column of booleans.
fn read_packed_bool(data: &[u8], pos: usize, end: usize) -> (r: Option<(Vec<bool>, usize)>)
    requires
        pos <= end <= data@.len(),
    ensures
        match spec_packed_bool_col(data@, pos as int, end as int) {
            Some(cp) => r matches Some(p) && p.0@ == cp.0 && p.1 as int == cp.1 && pos < p.1
                <= end,
            None => r is None,
        },
{
    match read_len_delim(data, pos, end) {
        None => None,
        Some((a, b)) => {
            let mut out: Vec<bool> = Vec::new();
            let mut p = a;
            proof {
                if let Some(whole) = spec_packed_bool(data@, a as int, b as int) {
                    assert(Seq::<bool>::empty() + whole =~= whole);
                }
            }
            while p < b
                invariant
                    a <= p <= b <= end <= data@.len(),
                    spec_len_delim(data@, pos as int, end as int) == Some((a as int, b as int)),
                    match spec_packed_bool(data@, p as int, b as int) {
                        Some(rest) => spec_packed_bool(data@, a as int, b as int) == Some(
                            out@ + rest,
                        ),
                        None => spec_packed_bool(data@, a as int, b as int) is None,
                    },
                decreases b - p,
            {
                proof {
                    lemma_pb_varint_range(data@, p as int, b as int);
                }
                match read_varint(data, p, b) {
                    Some((v, next)) => {
                        let ghost old_out = out@;
                        out.push(v != 0);
                        proof {
                            if let Some(rest2) = spec_packed_bool(data@, next as int, b as int) {
                                assert(old_out + (seq![(v != 0)] + rest2) =~= out@ + rest2);
                            }
                        }
                        p = next;
                    },
                    None => {
                        return None;
                    },
                }
            }
            proof {
                assert(out@ + Seq::<bool>::empty() =~= out@);
            }
            Some((out, b))
        },
    }
}

/// A fresh plain metadata record, fields at their defaults.
pub open spec fn spec_info_init() -> InfoV {
    InfoV { version: -1i32, timestamp: None, changeset: None, uid: None, user_sid: None, visible: None }
}

/// One field of a plain metadata record.
pub open spec fn spec_info_step(data: Seq<u8>, pos: int, end: int, m: InfoV) -> Option<
    (InfoV, int),
> {
    match spec_pb_varint(data, pos, end) {
        None => None,
        Some(tp) => {
            let field = tp.0 / 8;
            let wire = tp.0 % 8;
            let p = tp.1;
            if field == 1 && wire == 0 {
                match spec_pb_varint(data, p, end) {
                    Some(vp) => Some((InfoV { version: spec_as_i32(vp.0), ..m }, vp.1)),
                    None => None,
                }
            } else             if field == 2 && wire == 0 {
                match spec_pb_varint(data, p, end) {
                    Some(vp) => Some((InfoV { timestamp: Some(vp.0 as i64), ..m }, vp.1)),
                    None => None,
                }
            } else             if field == 3 && wire == 0 {
                match spec_pb_varint(data, p, end) {
                    Some(vp) => Some((InfoV { changeset: Some(vp.0 as i64), ..m }, vp.1)),
                    None => None,
                }
            } else             if field == 4 && wire == 0 {
                match spec_pb_varint(data, p, end) {
                    Some(vp) => Some((InfoV { uid: Some(spec_as_i32(vp.0)), ..m }, vp.1)),
                    None => None,
                }
            } else             if field == 5 && wire == 0 {
                match spec_pb_varint(data, p, end) {
                    Some(vp) => Some((InfoV { user_sid: Some(vp.0 as u32), ..m }, vp.1)),
                    None => None,
                }
            } else             if field == 6 && wire == 0 {
                match spec_pb_varint(data, p, end) {
                    Some(vp) => Some((InfoV { visible: Some(vp.0 != 0), ..m }, vp.1)),
                    None => None,
                }
            } else {
                match spec_skip_field(data, p, end, wire) {
                    Some(p2) => Some((m, p2)),
                    None => None,
                }
            }
        },
    }
}

/// A plain metadata record folded from the whole window `pos..end`.
pub open spec fn spec_info_rec(data: Seq<u8>, pos: int, end: int, m: InfoV) -> Option<InfoV>
    decreases end - pos,
{
    if pos >= end {
        if pos == end {
            Some(m)
        } else {
            None
        }
    } else {
        match spec_info_step(data, pos, end, m) {
            None => None,
            Some(mp) => if pos < mp.1 <= end {
                spec_info_rec(data, mp.1, end, mp.0)
            } else {
                None
            },
        }
    }
}

/// The plain metadata record held in the bytes `pos..end`, or nothing when they do
/// not deserialize.
pub open spec fn spec_parse_info(data: Seq<u8>, pos: int, end: int) -> Option<InfoV> {
    if 0 <= pos <= end <= data.len() {
        spec_info_rec(data, pos, end, spec_info_init())
    } else {
        None
    }
}

/// A fresh plain point record, fields at their defaults.
pub open spec fn spec_node_init() -> NodeV {
    NodeV { id: 0, keys: Seq::empty(), vals: Seq::empty(), info: None, lat: 0, lon: 0 }
}

/// One field of a plain point record.
pub open spec fn spec_node_step(data: Seq<u8>, pos: int, end: int, m: NodeV) -> Option<
    (NodeV, int),
> {
    match spec_pb_varint(data, pos, end) {
        None => None,
        Some(tp) => {
            let field = tp.0 / 8;
            let wire = tp.0 % 8;
            let p = tp.1;
            if field == 1 && wire == 0 {
                match spec_pb_varint(data, p, end) {
                    Some(vp) => Some((NodeV { id: spec_zigzag64(vp.0), ..m }, vp.1)),
                    None => None,
                }
            } else             if field == 2 && wire == 2 {
                match spec_packed_u32_col(data, p, end) {
                    Some(cp) => Some((NodeV { keys: cp.0, ..m }, cp.1)),
                    None => None,
                }
            } else             if field == 3 && wire == 2 {
                match spec_packed_u32_col(data, p, end) {
                    Some(cp) => Some((NodeV { vals: cp.0, ..m }, cp.1)),
                    None => None,
                }
            } else             if field == 4 && wire == 2 {
                match spec_len_delim(data, p, end) {
                    Some(ab) => match spec_parse_info(data, ab.0, ab.1) {
                        Some(sub) => Some((NodeV { info: Some(sub), ..m }, ab.1)),
                        None => None,
                    },
                    None => None,
                }
            } else             if field == 8 && wire == 0 {
                match spec_pb_varint(data, p, end) {
                    Some(vp) => Some((NodeV { lat: spec_zigzag64(vp.0), ..m }, vp.1)),
                    None => None,
                }
            } else             if field == 9 && wire == 0 {
                match spec_pb_varint(data, p, end) {
                    Some(vp) => Some((NodeV { lon: spec_zigzag64(vp.0), ..m }, vp.1)),
                    None => None,
                }
            } else {
                match spec_skip_field(data, p, end, wire) {
                    Some(p2) => Some((m, p2)),
                    None => None,
                }
            }
        },
    }
}

/// A plain point record folded from the whole window `pos..end`.
pub open spec fn spec_node_rec(data: Seq<u8>, pos: int, end: int, m: NodeV) -> Option<NodeV>
    decreases end - pos,
{
    if pos >= end {
        if pos == end {
            Some(m)
        } else {
            None
        }
    } else {
        match spec_node_step(data, pos, end, m) {
            None => None,
            Some(mp) => if pos < mp.1 <= end {
                spec_node_rec(data, mp.1, end, mp.0)
            } else {
                None
            },
        }
    }
}

/// The plain point record held in the bytes `pos..end`, or nothing when they do
/// not deserialize.
pub open spec fn spec_parse_node(data: Seq<u8>, pos: int, end: int) -> Option<NodeV> {
    if 0 <= pos <= end <= data.len() {
        spec_node_rec(data, pos, end, spec_node_init())
    } else {
        None
    }
}

/// A fresh dense metadata column record, fields at their defaults.
pub open spec fn spec_dense_info_init() -> DenseInfoV {
    DenseInfoV { version: Seq::empty(), timestamp: Seq::empty(), changeset: Seq::empty(), uid: Seq::empty(), user_sid: Seq::empty(), visible: Seq::empty() }
}

/// One field of a dense metadata column record.
pub open spec fn spec_dense_info_step(data: Seq<u8>, pos: int, end: int, m: DenseInfoV) -> Option<
    (DenseInfoV, int),
> {
    match spec_pb_varint(data, pos, end) {
        None => None,
        Some(tp) => {
            let field = tp.0 / 8;
            let wire = tp.0 % 8;
            let p = tp.1;
            if field == 1 && wire == 2 {
                match spec_packed_i32_col(data, p, end) {
                    Some(cp) => Some((DenseInfoV { version: cp.0, ..m }, cp.1)),
                    None => None,
                }
            } else             if field == 2 && wire == 2 {
                match spec_packed_sint64_col(data, p, end) {
                    Some(cp) => Some((DenseInfoV { timestamp: cp.0, ..m }, cp.1)),
                    None => None,
                }
            } else             if field == 3 && wire == 2 {
                match spec_packed_sint64_col(data, p, end) {
                    Some(cp) => Some((DenseInfoV { changeset: cp.0, ..m }, cp.1)),
                    None => None,
                }
            } else             if field == 4 && wire == 2 {
                match spec_packed_sint32_col(data, p, end) {
                    Some(cp) => Some((DenseInfoV { uid: cp.0, ..m }, cp.1)),
                    None => None,
                }
            } else             if field == 5 && wire == 2 {
                match spec_packed_sint32_col(data, p, end) {
                    Some(cp) => Some((DenseInfoV { user_sid: cp.0, ..m }, cp.1)),
                    None => None,
                }
            } else             if field == 6 && wire == 2 {
                match spec_packed_bool_col(data, p, end) {
                    Some(cp) => Some((DenseInfoV { visible: cp.0, ..m }, cp.1)),
                    None => None,
                }
            } else {
                match spec_skip_field(data, p, end, wire) {
                    Some(p2) => Some((m, p2)),
                    None => None,
                }
            }
        },
    }
}

/// A dense metadata column record folded from the whole window `pos..end`.
pub open spec fn spec_dense_info_rec(data: Seq<u8>, pos: int, end: int, m: DenseInfoV) -> Option<DenseInfoV>
    decreases end - pos,
{
    if pos >= end {
        if pos == end {
            Some(m)
        } else {
            None
        }
    } else {
        match spec_dense_info_step(data, pos, end, m) {
            None => None,
            Some(mp) => if pos < mp.1 <= end {
                spec_dense_info_rec(data, mp.1, end, mp.0)
            } else {
                None
            },
        }
    }
}

/// The dense metadata column record held in the bytes `pos..end`, or nothing when they do
/// not deserialize.
pub open spec fn spec_parse_dense_info(data: Seq<u8>, pos: int, end: int) -> Option<DenseInfoV> {
    if 0 <= pos <= end <= data.len() {
        spec_dense_info_rec(data, pos, end, spec_dense_info_init())
    } else {
        None
    }
}

/// A fresh dense point column record, fields at their defaults.
pub open spec fn spec_dense_init() -> DenseNodesV {
    DenseNodesV { id: Seq::empty(), lat: Seq::empty(), lon: Seq::empty(), denseinfo: None, keys_vals: Seq::empty() }
}

/// One field of a dense point column record.
pub open spec fn spec_dense_step(data: Seq<u8>, pos: int, end: int, m: DenseNodesV) -> Option<
    (DenseNodesV, int),
> {
    match spec_pb_varint(data, pos, end) {
        None => None,
        Some(tp) => {
            let field = tp.0 / 8;
            let wire = tp.0 % 8;
            let p = tp.1;
            if field == 1 && wire == 2 {
                match spec_packed_sint64_col(data, p, end) {
                    Some(cp) => Some((DenseNodesV { id: cp.0, ..m }, cp.1)),
                    None => None,
                }
            } else             if field == 5 && wire == 2 {
                match spec_len_delim(data, p, end) {
                    Some(ab) => match spec_parse_dense_info(data, ab.0, ab.1) {
                        Some(sub) => Some((DenseNodesV { denseinfo: Some(sub), ..m }, ab.1)),
                        None => None,
                    },
                    None => None,
                }
            } else             if field == 8 && wire == 2 {
                match spec_packed_sint64_col(data, p, end) {
                    Some(cp) => Some((DenseNodesV { lat: cp.0, ..m }, cp.1)),
                    None => None,
                }
            } else             if field == 9 && wire == 2 {
                match spec_packed_sint64_col(data, p, end) {
                    Some(cp) => Some((DenseNodesV { lon: cp.0, ..m }, cp.1)),
                    None => None,
                }
            } else             if field == 10 && wire == 2 {
                match spec_packed_i32_col(data, p, end) {
                    Some(cp) => Some((DenseNodesV { keys_vals: cp.0, ..m }, cp.1)),
                    None => None,
                }
            } else {
                match spec_skip_field(data, p, end, wire) {
                    Some(p2) => Some((m, p2)),
                    None => None,
                }
            }
        },
    }
}

/// A dense point column record folded from the whole window `pos..end`.
pub open spec fn spec_dense_rec(data: Seq<u8>, pos: int, end: int, m: DenseNodesV) -> Option<DenseNodesV>
    decreases end - pos,
{
    if pos >= end {
        if pos == end {
            Some(m)
        } else {
            None
        }
    } else {
        match spec_dense_step(data, pos, end, m) {
            None => None,
            Some(mp) => if pos < mp.1 <= end {
                spec_dense_rec(data, mp.1, end, mp.0)
            } else {
                None
            },
        }
    }
}

/// The dense point column record held in the bytes `pos..end`, or nothing when they do
/// not deserialize.
pub open spec fn spec_parse_dense(data: Seq<u8>, pos: int, end: int) -> Option<DenseNodesV> {
    if 0 <= pos <= end <= data.len() {
        spec_dense_rec(data, pos, end, spec_dense_init())
    } else {
        None
    }
}

/// A fresh polyline record, fields at their defaults.
pub open spec fn spec_way_init() -> WayV {
    WayV { id: 0, keys: Seq::empty(), vals: Seq::empty(), info: None, refs: Seq::empty() }
}

/// One field of a polyline record.
pub open spec fn spec_way_step(data: Seq<u8>, pos: int, end: int, m: WayV) -> Option<
    (WayV, int),
> {
    match spec_pb_varint(data, pos, end) {
        None => None,
        Some(tp) => {
            let field = tp.0 / 8;
            let wire = tp.0 % 8;
            let p = tp.1;
            if field == 1 && wire == 0 {
                match spec_pb_varint(data, p, end) {
                    Some(vp) => Some((WayV { id: vp.0 as i64, ..m }, vp.1)),
                    None => None,
                }
            } else             if field == 2 && wire == 2 {
                match spec_packed_u32_col(data, p, end) {
                    Some(cp) => Some((WayV { keys: cp.0, ..m }, cp.1)),
                    None => None,
                }
            } else             if field == 3 && wire == 2 {
                match spec_packed_u32_col(data, p, end) {
                    Some(cp) => Some((WayV { vals: cp.0, ..m }, cp.1)),
                    None => None,
                }
            } else             if field == 4 && wire == 2 {
                match spec_len_delim(data, p, end) {
                    Some(ab) => match spec_parse_info(data, ab.0, ab.1) {
                        Some(sub) => Some((WayV { info: Some(sub), ..m }, ab.1)),
                        None => None,
                    },
                    None => None,
                }
            } else             if field == 8 && wire == 2 {
                match spec_packed_sint64_col(data, p, end) {
                    Some(cp) => Some((WayV { refs: cp.0, ..m }, cp.1)),
                    None => None,
                }
            } else {
                match spec_skip_field(data, p, end, wire) {
                    Some(p2) => Some((m, p2)),
                    None => None,
                }
            }
        },
    }
}

/// A polyline record folded from the whole window `pos..end`.
pub open spec fn spec_way_rec(data: Seq<u8>, pos: int, end: int, m: WayV) -> Option<WayV>
    decreases end - pos,
{
    if pos >= end {
        if pos == end {
            Some(m)
        } else {
            None
        }
    } else {
        match spec_way_step(data, pos, end, m) {
            None => None,
            Some(mp) => if pos < mp.1 <= end {
                spec_way_rec(data, mp.1, end, mp.0)
            } else {
                None
            },
        }
    }
}

/// The polyline record held in the bytes `pos..end`, or nothing when they do
/// not deserialize.
pub open spec fn spec_parse_way(data: Seq<u8>, pos: int, end: int) -> Option<WayV> {
    if 0 <= pos <= end <= data.len() {
        spec_way_rec(data, pos, end, spec_way_init())
    } else {
        None
    }
}

/// A fresh relation record, fields at their defaults.
pub open spec fn spec_relation_init() -> RelationV {
    RelationV { id: 0, keys: Seq::empty(), vals: Seq::empty(), info: None, roles_sid: Seq::empty(), memids: Seq::empty(), types: Seq::empty() }
}

/// One field of a relation record.
pub open spec fn spec_relation_step(data: Seq<u8>, pos: int, end: int, m: RelationV) -> Option<
    (RelationV, int),
> {
    match spec_pb_varint(data, pos, end) {
        None => None,
        Some(tp) => {
            let field = tp.0 / 8;
            let wire = tp.0 % 8;
            let p = tp.1;
            if field == 1 && wire == 0 {
                match spec_pb_varint(data, p, end) {
                    Some(vp) => Some((RelationV { id: vp.0 as i64, ..m }, vp.1)),
                    None => None,
                }
            } else             if field == 2 && wire == 2 {
                match spec_packed_u32_col(data, p, end) {
                    Some(cp) => Some((RelationV { keys: cp.0, ..m }, cp.1)),
                    None => None,
                }
            } else             if field == 3 && wire == 2 {
                match spec_packed_u32_col(data, p, end) {
                    Some(cp) => Some((RelationV { vals: cp.0, ..m }, cp.1)),
                    None => None,
                }
            } else             if field == 4 && wire == 2 {
                match spec_len_delim(data, p, end) {
                    Some(ab) => match spec_parse_info(data, ab.0, ab.1) {
                        Some(sub) => Some((RelationV { info: Some(sub), ..m }, ab.1)),
                        None => None,
                    },
                    None => None,
                }
            } else             if field == 8 && wire == 2 {
                match spec_packed_i32_col(data, p, end) {
                    Some(cp) => Some((RelationV { roles_sid: cp.0, ..m }, cp.1)),
                    None => None,
                }
            } else             if field == 9 && wire == 2 {
                match spec_packed_sint64_col(data, p, end) {
                    Some(cp) => Some((RelationV { memids: cp.0, ..m }, cp.1)),
                    None => None,
                }
            } else             if field == 10 && wire == 2 {
                match spec_packed_i32_col(data, p, end) {
                    Some(cp) => Some((RelationV { types: cp.0, ..m }, cp.1)),
                    None => None,
                }
            } else {
                match spec_skip_field(data, p, end, wire) {
                    Some(p2) => Some((m, p2)),
                    None => None,
                }
            }
        },
    }
}

/// A relation record folded from the whole window `pos..end`.
pub open spec fn spec_relation_rec(data: Seq<u8>, pos: int, end: int, m: RelationV) -> Option<RelationV>
    decreases end - pos,
{
    if pos >= end {
        if pos == end {
            Some(m)
        } else {
            None
        }
    } else {
        match spec_relation_step(data, pos, end, m) {
            None => None,
            Some(mp) => if pos < mp.1 <= end {
                spec_relation_rec(data, mp.1, end, mp.0)
            } else {
                None
            },
        }
    }
}

/// The relation record held in the bytes `pos..end`, or nothing when they do
/// not deserialize.
pub open spec fn spec_parse_relation(data: Seq<u8>, pos: int, end: int) -> Option<RelationV> {
    if 0 <= pos <= end <= data.len() {
        spec_relation_rec(data, pos, end, spec_relation_init())
    } else {
        None
    }
}

/// A fresh string table record, fields at their defaults.
pub open spec fn spec_string_table_init() -> Seq<Seq<u8>> {
    Seq::empty()
}

/// One field of a string table record.
pub open spec fn spec_string_table_step(data: Seq<u8>, pos: int, end: int, m: Seq<Seq<u8>>) -> Option<
    (Seq<Seq<u8>>, int),
> {
    match spec_pb_varint(data, pos, end) {
        None => None,
        Some(tp) => {
            let field = tp.0 / 8;
            let wire = tp.0 % 8;
            let p = tp.1;
            if field == 1 && wire == 2 {
                match spec_len_delim(data, p, end) {
                    Some(ab) => Some((m.push(data.subrange(ab.0, ab.1)), ab.1)),
                    None => None,
                }
            } else {
                match spec_skip_field(data, p, end, wire) {
                    Some(p2) => Some((m, p2)),
                    None => None,
                }
            }
        },
    }
}

/// A string table record folded from the whole window `pos..end`.
pub open spec fn spec_string_table_rec(data: Seq<u8>, pos: int, end: int, m: Seq<Seq<u8>>) -> Option<Seq<Seq<u8>>>
    decreases end - pos,
{
    if pos >= end {
        if pos == end {
            Some(m)
        } else {
            None
        }
    } else {
        match spec_string_table_step(data, pos, end, m) {
            None => None,
            Some(mp) => if pos < mp.1 <= end {
                spec_string_table_rec(data, mp.1, end, mp.0)
            } else {
                None
            },
        }
    }
}

/// The string table record held in the bytes `pos..end`, or nothing when they do
/// not deserialize.
pub open spec fn spec_parse_string_table(data: Seq<u8>, pos: int, end: int) -> Option<Seq<Seq<u8>>> {
    if 0 <= pos <= end <= data.len() {
        spec_string_table_rec(data, pos, end, spec_string_table_init())
    } else {
        None
    }
}

/// A fresh entity group record, fields at their defaults.
pub open spec fn spec_group_init() -> PrimitiveGroupV {
    PrimitiveGroupV { nodes: Seq::empty(), dense: None, ways: Seq::empty(), relations: Seq::empty() }
}

/// One field of a entity group record.
pub open spec fn spec_group_step(data: Seq<u8>, pos: int, end: int, m: PrimitiveGroupV) -> Option<
    (PrimitiveGroupV, int),
> {
    match spec_pb_varint(data, pos, end) {
        None => None,
        Some(tp) => {
            let field = tp.0 / 8;
            let wire = tp.0 % 8;
            let p = tp.1;
            if field == 1 && wire == 2 {
                match spec_len_delim(data, p, end) {
                    Some(ab) => match spec_parse_node(data, ab.0, ab.1) {
                        Some(sub) => Some((PrimitiveGroupV { nodes: m.nodes.push(sub), ..m }, ab.1)),
                        None => None,
                    },
                    None => None,
                }
            } else             if field == 2 && wire == 2 {
                match spec_len_delim(data, p, end) {
                    Some(ab) => match spec_parse_dense(data, ab.0, ab.1) {
                        Some(sub) => Some((PrimitiveGroupV { dense: Some(sub), ..m }, ab.1)),
                        None => None,
                    },
                    None => None,
                }
            } else             if field == 3 && wire == 2 {
                match spec_len_delim(data, p, end) {
                    Some(ab) => match spec_parse_way(data, ab.0, ab.1) {
                        Some(sub) => Some((PrimitiveGroupV { ways: m.ways.push(sub), ..m }, ab.1)),
                        None => None,
                    },
                    None => None,
                }
            } else             if field == 4 && wire == 2 {
                match spec_len_delim(data, p, end) {
                    Some(ab) => match spec_parse_relation(data, ab.0, ab.1) {
                        Some(sub) => Some((PrimitiveGroupV { relations: m.relations.push(sub), ..m }, ab.1)),
                        None => None,
                    },
                    None => None,
                }
            } else {
                match spec_skip_field(data, p, end, wire) {
                    Some(p2) => Some((m, p2)),
                    None => None,
                }
            }
        },
    }
}

/// A entity group record folded from the whole window `pos..end`.
pub open spec fn spec_group_rec(data: Seq<u8>, pos: int, end: int, m: PrimitiveGroupV) -> Option<PrimitiveGroupV>
    decreases end - pos,
{
    if pos >= end {
        if pos == end {
            Some(m)
        } else {
            None
        }
    } else {
        match spec_group_step(data, pos, end, m) {
            None => None,
            Some(mp) => if pos < mp.1 <= end {
                spec_group_rec(data, mp.1, end, mp.0)
            } else {
                None
            },
        }
    }
}

/// The entity group record held in the bytes `pos..end`, or nothing when they do
/// not deserialize.
pub open spec fn spec_parse_group(data: Seq<u8>, pos: int, end: int) -> Option<PrimitiveGroupV> {
    if 0 <= pos <= end <= data.len() {
        spec_group_rec(data, pos, end, spec_group_init())
    } else {
        None
    }
}

/// A fresh primitive block record, fields at their defaults.
pub open spec fn spec_primitive_block_init() -> PrimitiveBlockV {
    PrimitiveBlockV { stringtable: Seq::empty(), primitivegroup: Seq::empty(), granularity: 100, lat_offset: 0, lon_offset: 0 }
}

/// One field of a primitive block record.
pub open spec fn spec_primitive_block_step(data: Seq<u8>, pos: int, end: int, m: PrimitiveBlockV) -> Option<
    (PrimitiveBlockV, int),
> {
    match spec_pb_varint(data, pos, end) {
        None => None,
        Some(tp) => {
            let field = tp.0 / 8;
            let wire = tp.0 % 8;
            let p = tp.1;
            if field == 1 && wire == 2 {
                match spec_len_delim(data, p, end) {
                    Some(ab) => match spec_parse_string_table(data, ab.0, ab.1) {
                        Some(sub) => Some((PrimitiveBlockV { stringtable: sub, ..m }, ab.1)),
                        None => None,
                    },
                    None => None,
                }
            } else             if field == 2 && wire == 2 {
                match spec_len_delim(data, p, end) {
                    Some(ab) => match spec_parse_group(data, ab.0, ab.1) {
                        Some(sub) => Some((PrimitiveBlockV { primitivegroup: m.primitivegroup.push(sub), ..m }, ab.1)),
                        None => None,
                    },
                    None => None,
                }
            } else             if field == 17 && wire == 0 {
                match spec_pb_varint(data, p, end) {
                    Some(vp) => Some((PrimitiveBlockV { granularity: spec_as_i32(vp.0), ..m }, vp.1)),
                    None => None,
                }
            } else             if field == 19 && wire == 0 {
                match spec_pb_varint(data, p, end) {
                    Some(vp) => Some((PrimitiveBlockV { lat_offset: vp.0 as i64, ..m }, vp.1)),
                    None => None,
                }
            } else             if field == 20 && wire == 0 {
                match spec_pb_varint(data, p, end) {
                    Some(vp) => Some((PrimitiveBlockV { lon_offset: vp.0 as i64, ..m }, vp.1)),
                    None => None,
                }
            } else {
                match spec_skip_field(data, p, end, wire) {
                    Some(p2) => Some((m, p2)),
                    None => None,
                }
            }
        },
    }
}

/// A primitive block record folded from the whole window `pos..end`.
pub open spec fn spec_primitive_block_rec(data: Seq<u8>, pos: int, end: int, m: PrimitiveBlockV) -> Option<PrimitiveBlockV>
    decreases end - pos,
{
    if pos >= end {
        if pos == end {
            Some(m)
        } else {
            None
        }
    } else {
        match spec_primitive_block_step(data, pos, end, m) {
            None => None,
            Some(mp) => if pos < mp.1 <= end {
                spec_primitive_block_rec(data, mp.1, end, mp.0)
            } else {
                None
            },
        }
    }
}

/// The primitive block record held in the bytes `pos..end`, or nothing when they do
/// not deserialize.
pub open spec fn spec_parse_primitive_block(data: Seq<u8>, pos: int, end: int) -> Option<PrimitiveBlockV> {
    if 0 <= pos <= end <= data.len() {
        spec_primitive_block_rec(data, pos, end, spec_primitive_block_init())
    } else {
        None
    }
}

proof fn lemma_info_step_range(data: Seq<u8>, pos: int, end: int, m: InfoV)
    requires
        0 <= pos < end <= data.len(),
    ensures
        match spec_info_step(data, pos, end, m) {
            Some(mp) => pos < mp.1 <= end,
            None => true,
        },
{
    lemma_pb_varint_range(data, pos, end);
    if let Some(tp) = spec_pb_varint(data, pos, end) {
        lemma_pb_varint_range(data, tp.1, end);
    }
}

proof fn lemma_node_step_range(data: Seq<u8>, pos: int, end: int, m: NodeV)
    requires
        0 <= pos < end <= data.len(),
    ensures
        match spec_node_step(data, pos, end, m) {
            Some(mp) => pos < mp.1 <= end,
            None => true,
        },
{
    lemma_pb_varint_range(data, pos, end);
    if let Some(tp) = spec_pb_varint(data, pos, end) {
        lemma_pb_varint_range(data, tp.1, end);
    }
}

proof fn lemma_dense_info_step_range(data: Seq<u8>, pos: int, end: int, m: DenseInfoV)
    requires
        0 <= pos < end <= data.len(),
    ensures
        match spec_dense_info_step(data, pos, end, m) {
            Some(mp) => pos < mp.1 <= end,
            None => true,
        },
{
    lemma_pb_varint_range(data, pos, end);
    if let Some(tp) = spec_pb_varint(data, pos, end) {
        lemma_pb_varint_range(data, tp.1, end);
    }
}

proof fn lemma_dense_step_range(data: Seq<u8>, pos: int, end: int, m: DenseNodesV)
    requires
        0 <= pos < end <= data.len(),
    ensures
        match spec_dense_step(data, pos, end, m) {
            Some(mp) => pos < mp.1 <= end,
            None => true,
        },
{
    lemma_pb_varint_range(data, pos, end);
    if let Some(tp) = spec_pb_varint(data, pos, end) {
        lemma_pb_varint_range(data, tp.1, end);
    }
}

proof fn lemma_way_step_range(data: Seq<u8>, pos: int, end: int, m: WayV)
    requires
        0 <= pos < end <= data.len(),
    ensures
        match spec_way_step(data, pos, end, m) {
            Some(mp) => pos < mp.1 <= end,
            None => true,
        },
{
    lemma_pb_varint_range(data, pos, end);
    if let Some(tp) = spec_pb_varint(data, pos, end) {
        lemma_pb_varint_range(data, tp.1, end);
    }
}

proof fn lemma_relation_step_range(data: Seq<u8>, pos: int, end: int, m: RelationV)
    requires
        0 <= pos < end <= data.len(),
    ensures
        match spec_relation_step(data, pos, end, m) {
            Some(mp) => pos < mp.1 <= end,
            None => true,
        },
{
    lemma_pb_varint_range(data, pos, end);
    if let Some(tp) = spec_pb_varint(data, pos, end) {
        lemma_pb_varint_range(data, tp.1, end);
    }
}

proof fn lemma_string_table_step_range(data: Seq<u8>, pos: int, end: int, m: Seq<Seq<u8>>)
    requires
        0 <= pos < end <= data.len(),
    ensures
        match spec_string_table_step(data, pos, end, m) {
            Some(mp) => pos < mp.1 <= end,
            None => true,
        },
{
    lemma_pb_varint_range(data, pos, end);
    if let Some(tp) = spec_pb_varint(data, pos, end) {
        lemma_pb_varint_range(data, tp.1, end);
    }
}

proof fn lemma_group_step_range(data: Seq<u8>, pos: int, end: int, m: PrimitiveGroupV)
    requires
        0 <= pos < end <= data.len(),
    ensures
        match spec_group_step(data, pos, end, m) {
            Some(mp) => pos < mp.1 <= end,
            None => true,
        },
{
    lemma_pb_varint_range(data, pos, end);
    if let Some(tp) = spec_pb_varint(data, pos, end) {
        lemma_pb_varint_range(data, tp.1, end);
    }
}

proof fn lemma_primitive_block_step_range(data: Seq<u8>, pos: int, end: int, m: PrimitiveBlockV)
    requires
        0 <= pos < end <= data.len(),
    ensures
        match spec_primitive_block_step(data, pos, end, m) {
            Some(mp) => pos < mp.1 <= end,
            None => true,
        },
{
    lemma_pb_varint_range(data, pos, end);
    if let Some(tp) = spec_pb_varint(data, pos, end) {
        lemma_pb_varint_range(data, tp.1, end);
    }
}

/// Deserializes a per-entity metadata record from the bytes `pos..end`.
fn parse_info(data: &[u8], pos: usize, end: usize) -> (r: Option<Info>)
    requires
        pos <= end <= data@.len(),
    ensures
        match spec_parse_info(data@, pos as int, end as int) {
            Some(mv) => r matches Some(m) && m@ == mv,
            None => r is None,
        },
{
    let mut m = Info {
        version: -1,
        timestamp: None,
        changeset: None,
        uid: None,
        user_sid: None,
        visible: None,
    };
    let mut p = pos;
    proof {
        assert(m@ == spec_info_init());
    }
    while p < end
        invariant
            pos <= p <= end <= data@.len(),
            spec_info_rec(data@, pos as int, end as int, spec_info_init()) == spec_info_rec(
                data@,
                p as int,
                end as int,
                m@,
            ),
        decreases end - p,
    {
        proof {
            lemma_pb_varint_range(data@, p as int, end as int);
            lemma_info_step_range(data@, p as int, end as int, m@);
        }
        match read_varint(data, p, end) {
            None => {
                return None;
            },
            Some((tag, q)) => {
                let field = tag / 8;
                let wire = tag % 8;
                proof {
                    lemma_pb_varint_range(data@, q as int, end as int);
                }
                if field == 1 && wire == 0 {
                    match read_varint(data, q, end) {
                        Some((v, q2)) => {
                            m.version = wire_i32(v);
                            p = q2;
                        },
                        None => {
                            return None;
                        },
                    }
                } else if field == 2 && wire == 0 {
                    match read_varint(data, q, end) {
                        Some((v, q2)) => {
                            m.timestamp = Some(v as i64);
                            p = q2;
                        },
                        None => {
                            return None;
                        },
                    }
                } else if field == 3 && wire == 0 {
                    match read_varint(data, q, end) {
                        Some((v, q2)) => {
                            m.changeset = Some(v as i64);
                            p = q2;
                        },
                        None => {
                            return None;
                        },
                    }
                } else if field == 4 && wire == 0 {
                    match read_varint(data, q, end) {
                        Some((v, q2)) => {
                            m.uid = Some(wire_i32(v));
                            p = q2;
                        },
                        None => {
                            return None;
                        },
                    }
                } else if field == 5 && wire == 0 {
                    match read_varint(data, q, end) {
                        Some((v, q2)) => {
                            m.user_sid = Some(v as u32);
                            p = q2;
                        },
                        None => {
                            return None;
                        },
                    }
                } else if field == 6 && wire == 0 {
                    match read_varint(data, q, end) {
                        Some((v, q2)) => {
                            m.visible = Some(v != 0);
                            p = q2;
                        },
                        None => {
                            return None;
                        },
                    }
                } else {
                    match skip_field(data, q, end, wire) {
                        Some(q2) => {
                            proof {
                                lemma_pb_varint_range(data@, q as int, end as int);
                            }
                            p = q2;
                        },
                        None => {
                            return None;
                        },
                    }
                }
            },
        }
    }
    Some(m)
}

/// Deserializes a plain point record from the bytes `pos..end`.
fn parse_node(data: &[u8], pos: usize, end: usize) -> (r: Option<Node>)
    requires
        pos <= end <= data@.len(),
    ensures
        match spec_parse_node(data@, pos as int, end as int) {
            Some(mv) => r matches Some(m) && m@ == mv,
            None => r is None,
        },
{
    let mut m = Node { id: 0, keys: Vec::new(), vals: Vec::new(), info: None, lat: 0, lon: 0 };
    let mut p = pos;
    proof {
        assert(m@ == spec_node_init());
    }
    while p < end
        invariant
            pos <= p <= end <= data@.len(),
            spec_node_rec(data@, pos as int, end as int, spec_node_init()) == spec_node_rec(
                data@,
                p as int,
                end as int,
                m@,
            ),
        decreases end - p,
    {
        proof {
            lemma_pb_varint_range(data@, p as int, end as int);
            lemma_node_step_range(data@, p as int, end as int, m@);
        }
        match read_varint(data, p, end) {
            None => {
                return None;
            },
            Some((tag, q)) => {
                let field = tag / 8;
                let wire = tag % 8;
                proof {
                    lemma_pb_varint_range(data@, q as int, end as int);
                }
                if field == 1 && wire == 0 {
                    match read_varint(data, q, end) {
                        Some((v, q2)) => {
                            m.id = zigzag64(v);
                            p = q2;
                        },
                        None => {
                            return None;
                        },
                    }
                } else if field == 2 && wire == 2 {
                    match read_packed_u32(data, q, end) {
                        Some((col, q2)) => {
                            m.keys = col;
                            p = q2;
                        },
                        None => {
                            return None;
                        },
                    }
                } else if field == 3 && wire == 2 {
                    match read_packed_u32(data, q, end) {
                        Some((col, q2)) => {
                            m.vals = col;
                            p = q2;
                        },
                        None => {
                            return None;
                        },
                    }
                } else if field == 4 && wire == 2 {
                    match read_len_delim(data, q, end) {
                        Some((a, b)) => {
                            match parse_info(data, a, b) {
                                Some(i) => {
                                    m.info = Some(i);
                                    p = b;
                                },
                                None => {
                                    return None;
                                },
                            }
                        },
                        None => {
                            return None;
                        },
                    }
                } else if field == 8 && wire == 0 {
                    match read_varint(data, q, end) {
                        Some((v, q2)) => {
                            m.lat = zigzag64(v);
                            p = q2;
                        },
                        None => {
                            return None;
                        },
                    }
                } else if field == 9 && wire == 0 {
                    match read_varint(data, q, end) {
                        Some((v, q2)) => {
                            m.lon = zigzag64(v);
                            p = q2;
                        },
                        None => {
                            return None;
                        },
                    }
                } else {
                    match skip_field(data, q, end, wire) {
                        Some(q2) => {
                            proof {
                                lemma_pb_varint_range(data@, q as int, end as int);
                            }
                            p = q2;
                        },
                        None => {
                            return None;
                        },
                    }
                }
            },
        }
    }
    Some(m)
}

/// Deserializes the metadata columns of a dense block.
fn parse_dense_info(data: &[u8], pos: usize, end: usize) -> (r: Option<DenseInfo>)
    requires
        pos <= end <= data@.len(),
    ensures
        match spec_parse_dense_info(data@, pos as int, end as int) {
            Some(mv) => r matches Some(m) && m@ == mv,
            None => r is None,
        },
{
    let mut m = DenseInfo {
        version: Vec::new(),
        timestamp: Vec::new(),
        changeset: Vec::new(),
        uid: Vec::new(),
        user_sid: Vec::new(),
        visible: Vec::new(),
    };
    let mut p = pos;
    proof {
        assert(m@ == spec_dense_info_init());
    }
    while p < end
        invariant
            pos <= p <= end <= data@.len(),
            spec_dense_info_rec(data@, pos as int, end as int, spec_dense_info_init()) == spec_dense_info_rec(
                data@,
                p as int,
                end as int,
                m@,
            ),
        decreases end - p,
    {
        proof {
            lemma_pb_varint_range(data@, p as int, end as int);
            lemma_dense_info_step_range(data@, p as int, end as int, m@);
        }
        match read_varint(data, p, end) {
            None => {
                return None;
            },
            Some((tag, q)) => {
                let field = tag / 8;
                let wire = tag % 8;
                proof {
                    lemma_pb_varint_range(data@, q as int, end as int);
                }
                if field == 1 && wire == 2 {
                    match read_packed_i32(data, q, end) {
                        Some((col, q2)) => {
                            m.version = col;
                            p = q2;
                        },
                        None => {
                            return None;
                        },
                    }
                } else if field == 2 && wire == 2 {
                    match read_packed_sint64(data, q, end) {
                        Some((col, q2)) => {
                            m.timestamp = col;
                            p = q2;
                        },
                        None => {
                            return None;
                        },
                    }
                } else if field == 3 && wire == 2 {
                    match read_packed_sint64(data, q, end) {
                        Some((col, q2)) => {
                            m.changeset = col;
                            p = q2;
                        },
                        None => {
                            return None;
                        },
                    }
                } else if field == 4 && wire == 2 {
                    match read_packed_sint32(data, q, end) {
                        Some((col, q2)) => {
                            m.uid = col;
                            p = q2;
                        },
                        None => {
                            return None;
                        },
                    }
                } else if field == 5 && wire == 2 {
                    match read_packed_sint32(data, q, end) {
                        Some((col, q2)) => {
                            m.user_sid = col;
                            p = q2;
                        },
                        None => {
                            return None;
                        },
                    }
                } else if field == 6 && wire == 2 {
                    match read_packed_bool(data, q, end) {
                        Some((col, q2)) => {
                            m.visible = col;
                            p = q2;
                        },
                        None => {
                            return None;
                        },
                    }
                } else {
                    match skip_field(data, q, end, wire) {
                        Some(q2) => {
                            proof {
                                lemma_pb_varint_range(data@, q as int, end as int);
                            }
                            p = q2;
                        },
                        None => {
                            return None;
                        },
                    }
                }
            },
        }
    }
    Some(m)
}

/// Deserializes a dense point column record.
fn parse_dense(data: &[u8], pos: usize, end: usize) -> (r: Option<DenseNodes>)
    requires
        pos <= end <= data@.len(),
    ensures
        match spec_parse_dense(data@, pos as int, end as int) {
            Some(mv) => r matches Some(m) && m@ == mv,
            None => r is None,
        },
{
    let mut m = DenseNodes {
        id: Vec::new(),
        lat: Vec::new(),
        lon: Vec::new(),
        denseinfo: None,
        keys_vals: Vec::new(),
    };
    let mut p = pos;
    proof {
        assert(m@ == spec_dense_init());
    }
    while p < end
        invariant
            pos <= p <= end <= data@.len(),
            spec_dense_rec(data@, pos as int, end as int, spec_dense_init()) == spec_dense_rec(
                data@,
                p as int,
                end as int,
                m@,
            ),
        decreases end - p,
    {
        proof {
            lemma_pb_varint_range(data@, p as int, end as int);
            lemma_dense_step_range(data@, p as int, end as int, m@);
        }
        match read_varint(data, p, end) {
            None => {
                return None;
            },
            Some((tag, q)) => {
                let field = tag / 8;
                let wire = tag % 8;
                proof {
                    lemma_pb_varint_range(data@, q as int, end as int);
                }
                if field == 1 && wire == 2 {
                    match read_packed_sint64(data, q, end) {
                        Some((col, q2)) => {
                            m.id = col;
                            p = q2;
                        },
                        None => {
                            return None;
                        },
                    }
                } else if field == 5 && wire == 2 {
                    match read_len_delim(data, q, end) {
                        Some((a, b)) => {
                            match parse_dense_info(data, a, b) {
                                Some(di) => {
                                    m.denseinfo = Some(di);
                                    p = b;
                                },
                                None => {
                                    return None;
                                },
                            }
                        },
                        None => {
                            return None;
                        },
                    }
                } else if field == 8 && wire == 2 {
                    match read_packed_sint64(data, q, end) {
                        Some((col, q2)) => {
                            m.lat = col;
                            p = q2;
                        },
                        None => {
                            return None;
                        },
                    }
                } else if field == 9 && wire == 2 {
                    match read_packed_sint64(data, q, end) {
                        Some((col, q2)) => {
                            m.lon = col;
                            p = q2;
                        },
                        None => {
                            return None;
                        },
                    }
                } else if field == 10 && wire == 2 {
                    match read_packed_i32(data, q, end) {
                        Some((col, q2)) => {
                            m.keys_vals = col;
                            p = q2;
                        },
                        None => {
                            return None;
                        },
                    }
                } else {
                    match skip_field(data, q, end, wire) {
                        Some(q2) => {
                            proof {
                                lemma_pb_varint_range(data@, q as int, end as int);
                            }
                            p = q2;
                        },
                        None => {
                            return None;
                        },
                    }
                }
            },
        }
    }
    Some(m)
}

/// Deserializes a polyline record.
fn parse_way(data: &[u8], pos: usize, end: usize) -> (r: Option<Way>)
    requires
        pos <= end <= data@.len(),
    ensures
        match spec_parse_way(data@, pos as int, end as int) {
            Some(mv) => r matches Some(m) && m@ == mv,
            None => r is None,
        },
{
    let mut m = Way { id: 0, keys: Vec::new(), vals: Vec::new(), info: None, refs: Vec::new() };
    let mut p = pos;
    proof {
        assert(m@ == spec_way_init());
    }
    while p < end
        invariant
            pos <= p <= end <= data@.len(),
            spec_way_rec(data@, pos as int, end as int, spec_way_init()) == spec_way_rec(
                data@,
                p as int,
                end as int,
                m@,
            ),
        decreases end - p,
    {
        proof {
            lemma_pb_varint_range(data@, p as int, end as int);
            lemma_way_step_range(data@, p as int, end as int, m@);
        }
        match read_varint(data, p, end) {
            None => {
                return None;
            },
            Some((tag, q)) => {
                let field = tag / 8;
                let wire = tag % 8;
                proof {
                    lemma_pb_varint_range(data@, q as int, end as int);
                }
                if field == 1 && wire == 0 {
                    match read_varint(data, q, end) {
                        Some((v, q2)) => {
                            m.id = v as i64;
                            p = q2;
                        },
                        None => {
                            return None;
                        },
                    }
                } else if field == 2 && wire == 2 {
                    match read_packed_u32(data, q, end) {
                        Some((col, q2)) => {
                            m.keys = col;
                            p = q2;
                        },
                        None => {
                            return None;
                        },
                    }
                } else if field == 3 && wire == 2 {
                    match read_packed_u32(data, q, end) {
                        Some((col, q2)) => {
                            m.vals = col;
                            p = q2;
                        },
                        None => {
                            return None;
                        },
                    }
                } else if field == 4 && wire == 2 {
                    match read_len_delim(data, q, end) {
                        Some((a, b)) => {
                            match parse_info(data, a, b) {
                                Some(i) => {
                                    m.info = Some(i);
                                    p = b;
                                },
                                None => {
                                    return None;
                                },
                            }
                        },
                        None => {
                            return None;
                        },
                    }
                } else if field == 8 && wire == 2 {
                    match read_packed_sint64(data, q, end) {
                        Some((col, q2)) => {
                            m.refs = col;
                            p = q2;
                        },
                        None => {
                            return None;
                        },
                    }
                } else {
                    match skip_field(data, q, end, wire) {
                        Some(q2) => {
                            proof {
                                lemma_pb_varint_range(data@, q as int, end as int);
                            }
                            p = q2;
                        },
                        None => {
                            return None;
                        },
                    }
                }
            },
        }
    }
    Some(m)
}

/// Deserializes a relation record.
fn parse_relation(data: &[u8], pos: usize, end: usize) -> (r: Option<Relation>)
    requires
        pos <= end <= data@.len(),
    ensures
        match spec_parse_relation(data@, pos as int, end as int) {
            Some(mv) => r matches Some(m) && m@ == mv,
            None => r is None,
        },
{
    let mut m = Relation {
        id: 0,
        keys: Vec::new(),
        vals: Vec::new(),
        info: None,
        roles_sid: Vec::new(),
        memids: Vec::new(),
        types: Vec::new(),
    };
    let mut p = pos;
    proof {
        assert(m@ == spec_relation_init());
    }
    while p < end
        invariant
            pos <= p <= end <= data@.len(),
            spec_relation_rec(data@, pos as int, end as int, spec_relation_init()) == spec_relation_rec(
                data@,
                p as int,
                end as int,
                m@,
            ),
        decreases end - p,
    {
        proof {
            lemma_pb_varint_range(data@, p as int, end as int);
            lemma_relation_step_range(data@, p as int, end as int, m@);
        }
        match read_varint(data, p, end) {
            None => {
                return None;
            },
            Some((tag, q)) => {
                let field = tag / 8;
                let wire = tag % 8;
                proof {
                    lemma_pb_varint_range(data@, q as int, end as int);
                }
                if field == 1 && wire == 0 {
                    match read_varint(data, q, end) {
                        Some((v, q2)) => {
                            m.id = v as i64;
                            p = q2;
                        },
                        None => {
                            return None;
                        },
                    }
                } else if field == 2 && wire == 2 {
                    match read_packed_u32(data, q, end) {
                        Some((col, q2)) => {
                            m.keys = col;
                            p = q2;
                        },
                        None => {
                            return None;
                        },
                    }
                } else if field == 3 && wire == 2 {
                    match read_packed_u32(data, q, end) {
                        Some((col, q2)) => {
                            m.vals = col;
                            p = q2;
                        },
                        None => {
                            return None;
                        },
                    }
                } else if field == 4 && wire == 2 {
                    match read_len_delim(data, q, end) {
                        Some((a, b)) => {
                            match parse_info(data, a, b) {
                                Some(i) => {
                                    m.info = Some(i);
                                    p = b;
                                },
                                None => {
                                    return None;
                                },
                            }
                        },
                        None => {
                            return None;
                        },
                    }
                } else if field == 8 && wire == 2 {
                    match read_packed_i32(data, q, end) {
                        Some((col, q2)) => {
                            m.roles_sid = col;
                            p = q2;
                        },
                        None => {
                            return None;
                        },
                    }
                } else if field == 9 && wire == 2 {
                    match read_packed_sint64(data, q, end) {
                        Some((col, q2)) => {
                            m.memids = col;
                            p = q2;
                        },
                        None => {
                            return None;
                        },
                    }
                } else if field == 10 && wire == 2 {
                    match read_packed_i32(data, q, end) {
                        Some((col, q2)) => {
                            m.types = col;
                            p = q2;
                        },
                        None => {
                            return None;
                        },
                    }
                } else {
                    match skip_field(data, q, end, wire) {
                        Some(q2) => {
                            proof {
                                lemma_pb_varint_range(data@, q as int, end as int);
                            }
                            p = q2;
                        },
                        None => {
                            return None;
                        },
                    }
                }
            },
        }
    }
    Some(m)
}

/// Deserializes the shared string table: the ordered byte strings of a
/// block, index 0 conventionally reserved for the empty string.
fn parse_string_table(data: &[u8], pos: usize, end: usize) -> (r: Option<Vec<Vec<u8>>>)
    requires
        pos <= end <= data@.len(),
    ensures
        match spec_parse_string_table(data@, pos as int, end as int) {
            Some(tv) => r matches Some(t) && t@.map_values(|x: Vec<u8>| x@) == tv,
            None => r is None,
        },
{
    let mut table: Vec<Vec<u8>> = Vec::new();
    let mut p = pos;
    proof {
        assert(table@.map_values(|x: Vec<u8>| x@) =~= spec_string_table_init());
    }
    while p < end
        invariant
            pos <= p <= end <= data@.len(),
            spec_string_table_rec(data@, pos as int, end as int, spec_string_table_init())
                == spec_string_table_rec(
                data@,
                p as int,
                end as int,
                table@.map_values(|x: Vec<u8>| x@),
            ),
        decreases end - p,
    {
        proof {
            lemma_pb_varint_range(data@, p as int, end as int);
            lemma_string_table_step_range(
                data@,
                p as int,
                end as int,
                table@.map_values(|x: Vec<u8>| x@),
            );
        }
        match read_varint(data, p, end) {
            None => {
                return None;
            },
            Some((tag, q)) => {
                let field = tag / 8;
                let wire = tag % 8;
                proof {
                    lemma_pb_varint_range(data@, q as int, end as int);
                }
                if field == 1 && wire == 2 {
                    match read_len_delim(data, q, end) {
                        Some((a, b)) => {
                            let ghost oldt = table@.map_values(|x: Vec<u8>| x@);
                            table.push(copy_range(data, a, b));
                            proof {
                                assert(table@.map_values(|x: Vec<u8>| x@) =~= oldt.push(
                                    data@.subrange(a as int, b as int),
                                ));
                            }
                            p = b;
                        },
                        None => {
                            return None;
                        },
                    }
                } else {
                    match skip_field(data, q, end, wire) {
                        Some(q2) => {
                            proof {
                                lemma_pb_varint_range(data@, q as int, end as int);
                            }
                            p = q2;
                        },
                        None => {
                            return None;
                        },
                    }
                }
            },
        }
    }
    Some(table)
}

/// Deserializes one entity group.
fn parse_group(data: &[u8], pos: usize, end: usize) -> (r: Option<PrimitiveGroup>)
    requires
        pos <= end <= data@.len(),
    ensures
        match spec_parse_group(data@, pos as int, end as int) {
            Some(mv) => r matches Some(m) && m@ == mv,
            None => r is None,
        },
{
    let mut m = PrimitiveGroup {
        nodes: Vec::new(),
        dense: None,
        ways: Vec::new(),
        relations: Vec::new(),
    };
    let mut p = pos;
    proof {
        assert(m@.nodes =~= Seq::<NodeV>::empty());
        assert(m@.ways =~= Seq::<WayV>::empty());
        assert(m@.relations =~= Seq::<RelationV>::empty());
        assert(m@ == spec_group_init());
    }
    while p < end
        invariant
            pos <= p <= end <= data@.len(),
            spec_group_rec(data@, pos as int, end as int, spec_group_init()) == spec_group_rec(
                data@,
                p as int,
                end as int,
                m@,
            ),
        decreases end - p,
    {
        proof {
            lemma_pb_varint_range(data@, p as int, end as int);
            lemma_group_step_range(data@, p as int, end as int, m@);
        }
        match read_varint(data, p, end) {
            None => {
                return None;
            },
            Some((tag, q)) => {
                let field = tag / 8;
                let wire = tag % 8;
                proof {
                    lemma_pb_varint_range(data@, q as int, end as int);
                }
                if field == 1 && wire == 2 {
                    match read_len_delim(data, q, end) {
                        Some((a, b)) => {
                            match parse_node(data, a, b) {
                                Some(n) => {
                                    let ghost oldv = m@.nodes;
                                    let ghost nv = n@;
                                    m.nodes.push(n);
                                    proof {
                                        assert(m@.nodes =~= oldv.push(nv));
                                    }
                                    p = b;
                                },
                                None => {
                                    return None;
                                },
                            }
                        },
                        None => {
                            return None;
                        },
                    }
                } else if field == 2 && wire == 2 {
                    match read_len_delim(data, q, end) {
                        Some((a, b)) => {
                            match parse_dense(data, a, b) {
                                Some(d) => {
                                    m.dense = Some(d);
                                    p = b;
                                },
                                None => {
                                    return None;
                                },
                            }
                        },
                        None => {
                            return None;
                        },
                    }
                } else if field == 3 && wire == 2 {
                    match read_len_delim(data, q, end) {
                        Some((a, b)) => {
                            match parse_way(data, a, b) {
                                Some(w) => {
                                    let ghost oldv = m@.ways;
                                    let ghost nv = w@;
                                    m.ways.push(w);
                                    proof {
                                        assert(m@.ways =~= oldv.push(nv));
                                    }
                                    p = b;
                                },
                                None => {
                                    return None;
                                },
                            }
                        },
                        None => {
                            return None;
                        },
                    }
                } else if field == 4 && wire == 2 {
                    match read_len_delim(data, q, end) {
                        Some((a, b)) => {
                            match parse_relation(data, a, b) {
                                Some(rel) => {
                                    let ghost oldv = m@.relations;
                                    let ghost nv = rel@;
                                    m.relations.push(rel);
                                    proof {
                                        assert(m@.relations =~= oldv.push(nv));
                                    }
                                    p = b;
                                },
                                None => {
                                    return None;
                                },
                            }
                        },
                        None => {
                            return None;
                        },
                    }
                } else {
                    match skip_field(data, q, end, wire) {
                        Some(q2) => {
                            proof {
                                lemma_pb_varint_range(data@, q as int, end as int);
                            }
                            p = q2;
                        },
                        None => {
                            return None;
                        },
                    }
                }
            },
        }
    }
    Some(m)
}

/// Deserializes a primitive block record from the bytes `pos..end`.
pub fn parse_primitive_block(data: &[u8], pos: usize, end: usize) -> (r: Option<PrimitiveBlock>)
    requires
        pos <= end <= data@.len(),
    ensures
        match spec_parse_primitive_block(data@, pos as int, end as int) {
            Some(mv) => r matches Some(m) && m@ == mv,
            None => r is None,
        },
{
    let mut m = PrimitiveBlock {
        stringtable: Vec::new(),
        primitivegroup: Vec::new(),
        granularity: 100,
        lat_offset: 0,
        lon_offset: 0,
    };
    let mut p = pos;
    proof {
        assert(m@.stringtable =~= Seq::<Seq<u8>>::empty());
        assert(m@.primitivegroup =~= Seq::<PrimitiveGroupV>::empty());
        assert(m@ == spec_primitive_block_init());
    }
    while p < end
        invariant
            pos <= p <= end <= data@.len(),
            spec_primitive_block_rec(data@, pos as int, end as int, spec_primitive_block_init()) == spec_primitive_block_rec(
                data@,
                p as int,
                end as int,
                m@,
            ),
        decreases end - p,
    {
        proof {
            lemma_pb_varint_range(data@, p as int, end as int);
            lemma_primitive_block_step_range(data@, p as int, end as int, m@);
        }
        match read_varint(data, p, end) {
            None => {
                return None;
            },
            Some((tag, q)) => {
                let field = tag / 8;
                let wire = tag % 8;
                proof {
                    lemma_pb_varint_range(data@, q as int, end as int);
                }
                if field == 1 && wire == 2 {
                    match read_len_delim(data, q, end) {
                        Some((a, b)) => {
                            match parse_string_table(data, a, b) {
                                Some(t) => {
                                    m.stringtable = t;
                                    p = b;
                                },
                                None => {
                                    return None;
                                },
                            }
                        },
                        None => {
                            return None;
                        },
                    }
                } else if field == 2 && wire == 2 {
                    match read_len_delim(data, q, end) {
                        Some((a, b)) => {
                            match parse_group(data, a, b) {
                                Some(g) => {
                                    let ghost oldg = m@.primitivegroup;
                                    let ghost gv = g@;
                                    m.primitivegroup.push(g);
                                    proof {
                                        assert(m@.primitivegroup =~= oldg.push(gv));
                                    }
                                    p = b;
                                },
                                None => {
                                    return None;
                                },
                            }
                        },
                        None => {
                            return None;
                        },
                    }
                } else if field == 17 && wire == 0 {
                    match read_varint(data, q, end) {
                        Some((v, q2)) => {
                            m.granularity = wire_i32(v);
                            p = q2;
                        },
                        None => {
                            return None;
                        },
                    }
                } else if field == 19 && wire == 0 {
                    match read_varint(data, q, end) {
                        Some((v, q2)) => {
                            m.lat_offset = v as i64;
                            p = q2;
                        },
                        None => {
                            return None;
                        },
                    }
                } else if field == 20 && wire == 0 {
                    match read_varint(data, q, end) {
                        Some((v, q2)) => {
                            m.lon_offset = v as i64;
                            p = q2;
                        },
                        None => {
                            return None;
                        },
                    }
                } else {
                    match skip_field(data, q, end, wire) {
                        Some(q2) => {
                            proof {
                                lemma_pb_varint_range(data@, q as int, end as int);
                            }
                            p = q2;
                        },
                        None => {
                            return None;
                        },
                    }
                }
            },
        }
    }
    Some(m)
}

/// Deserializes the bounding box record of a metadata block.
fn parse_bbox(data: &[u8], pos: usize, end: usize) -> (r: Option<HeaderBBox>)
    requires
        pos <= end <= data@.len(),
    ensures
        match spec_parse_bbox(data@, pos as int, end as int) {
            Some(mv) => r matches Some(m) && m@ == mv,
            None => r is None,
        },
{
    let mut m = HeaderBBox { left: 0, right: 0, top: 0, bottom: 0 };
    let mut p = pos;
    proof {
        assert(m@ == spec_bbox_init());
    }
    while p < end
        invariant
            pos <= p <= end <= data@.len(),
            spec_bbox_rec(data@, pos as int, end as int, spec_bbox_init()) == spec_bbox_rec(
                data@,
                p as int,
                end as int,
                m@,
            ),
        decreases end - p,
    {
        proof {
            lemma_pb_varint_range(data@, p as int, end as int);
            lemma_bbox_step_range(data@, p as int, end as int, m@);
        }
        match read_varint(data, p, end) {
            None => {
                return None;
            },
            Some((tag, q)) => {
                let field = tag / 8;
                let wire = tag % 8;
                proof {
                    lemma_pb_varint_range(data@, q as int, end as int);
                }
                if field >= 1 && field <= 4 && wire == 0 {
                    match read_varint(data, q, end) {
                        Some((v, q2)) => {
                            let s = zigzag64(v);
                            if field == 1 {
                                m.left = s;
                            } else if field == 2 {
                                m.right = s;
                            } else if field == 3 {
                                m.top = s;
                            } else {
                                m.bottom = s;
                            }
                            p = q2;
                        },
                        None => {
                            return None;
                        },
                    }
                } else {
                    match skip_field(data, q, end, wire) {
                        Some(q2) => {
                            proof {
                                lemma_pb_varint_range(data@, q as int, end as int);
                            }
                            p = q2;
                        },
                        None => {
                            return None;
                        },
                    }
                }
            },
        }
    }
    Some(m)
}

/// Deserializes a metadata block record from the bytes `pos..end`.
pub fn parse_header_block(data: &[u8], pos: usize, end: usize) -> (r: Option<HeaderBlock>)
    requires
        pos <= end <= data@.len(),
    ensures
        match spec_parse_header_block(data@, pos as int, end as int) {
            Some(mv) => r matches Some(m) && m@ == mv,
            None => r is None,
        },
{
    let mut m = HeaderBlock {
        bbox: None,
        required_features: Vec::new(),
        optional_features: Vec::new(),
    };
    let mut p = pos;
    proof {
        assert(m@.required_features =~= Seq::<Seq<u8>>::empty());
        assert(m@.optional_features =~= Seq::<Seq<u8>>::empty());
        assert(m@ == spec_header_block_init());
    }
    while p < end
        invariant
            pos <= p <= end <= data@.len(),
            spec_header_block_rec(data@, pos as int, end as int, spec_header_block_init())
                == spec_header_block_rec(
                data@,
                p as int,
                end as int,
                m@,
            ),
        decreases end - p,
    {
        proof {
            lemma_pb_varint_range(data@, p as int, end as int);
            lemma_header_block_step_range(data@, p as int, end as int, m@);
        }
        match read_varint(data, p, end) {
            None => {
                return None;
            },
            Some((tag, q)) => {
                let field = tag / 8;
                let wire = tag % 8;
                proof {
                    lemma_pb_varint_range(data@, q as int, end as int);
                }
                if field == 1 && wire == 2 {
                    match read_len_delim(data, q, end) {
                        Some((a, b)) => {
                            match parse_bbox(data, a, b) {
                                Some(bb) => {
                                    m.bbox = Some(bb);
                                    p = b;
                                },
                                None => {
                                    return None;
                                },
                            }
                        },
                        None => {
                            return None;
                        },
                    }
                } else if field == 4 && wire == 2 {
                    match read_len_delim(data, q, end) {
                        Some((a, b)) => {
                            let ghost oldf = m@.required_features;
                            m.required_features.push(copy_range(data, a, b));
                            proof {
                                assert(m@.required_features =~= oldf.push(
                                    data@.subrange(a as int, b as int),
                                ));
                            }
                            p = b;
                        },
                        None => {
                            return None;
                        },
                    }
                } else if field == 5 && wire == 2 {
                    match read_len_delim(data, q, end) {
                        Some((a, b)) => {
                            let ghost oldf = m@.optional_features;
                            m.optional_features.push(copy_range(data, a, b));
                            proof {
                                assert(m@.optional_features =~= oldf.push(
                                    data@.subrange(a as int, b as int),
                                ));
                            }
                            p = b;
                        },
                        None => {
                            return None;
                        },
                    }
                } else {
                    match skip_field(data, q, end, wire) {
                        Some(q2) => {
                            proof {
                                lemma_pb_varint_range(data@, q as int, end as int);
                            }
                            p = q2;
                        },
                        None => {
                            return None;
                        },
                    }
                }
            },
        }
    }
    Some(m)
}

} // verus!
