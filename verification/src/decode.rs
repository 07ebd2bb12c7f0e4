//! Block decoding and entity reconstruction.
//!
//! A payload is first turned into plain bytes (stored bytes pass through,
//! zlib bytes are inflated, any other declared scheme is rejected), then
//! deserialized into a typed block record, and finally reconstructed: the
//! delta-encoded columns are folded into absolute values and every
//! string-table index is resolved, bounds-checked, into text.  The
//! reconstruction is specified exactly, value by value, over the block
//! record.

use vstd::prelude::*;

use std::io::Read;

use crate::element::{
    Element, ElementV, Info, InfoV, Member, MemberType, MemberV, Node, NodeV, Relation, RelationV,
    Tags, TagsV, Way, WayV,
};
use crate::error::Error;
use crate::proto::fileformat::{Blob, BlobV};
use crate::proto::osmformat;
use crate::proto::osmformat::{HeaderBlock, PrimitiveBlock, PrimitiveBlockV};

verus! {

/// What the text of a byte string is, when the bytes are valid UTF-8; a
/// function of the bytes alone.
pub uninterp spec fn utf8_decode(bytes: Seq<u8>) -> Option<Seq<char>>;

/// Relies on String::from_utf8: succeeds exactly on valid UTF-8 input,
/// and what it decodes depends on the bytes alone.
#[verifier::external_body]
fn bytes_to_string(v: &Vec<u8>) -> (r: Option<String>)
    ensures
        r is Some <==> utf8_decode(v@) is Some,
        r matches Some(s) ==> utf8_decode(v@) == Some(s@),
{
    match String::from_utf8(v.clone()) {
        Ok(s) => Some(s),
        Err(_) => None,
    }
}

/// What a zlib stream inflates to, when it inflates cleanly; a function of
/// the bytes alone.
pub uninterp spec fn inflate(bytes: Seq<u8>) -> Option<Seq<u8>>;

/// Relies on flate2::read::ZlibDecoder: inflating a byte buffer is a
/// function of the bytes alone, and fails exactly on streams that do not
/// inflate cleanly.
#[verifier::external_body]
fn zlib_inflate(input: &Vec<u8>) -> (r: Option<Vec<u8>>)
    ensures
        r is Some <==> inflate(input@) is Some,
        r matches Some(v) ==> inflate(input@) == Some(v@),
{
    let mut z = flate2::read::ZlibDecoder::new(&input[..]);
    let mut out = Vec::new();
    match z.read_to_end(&mut out) {
        Ok(_) => Some(out),
        Err(_) => None,
    }
}

/// Whether index `i` resolves in the string table: in range and valid
/// text.
pub open spec fn spec_str_ok(st: Seq<Seq<u8>>, i: int) -> bool {
    0 <= i < st.len() && utf8_decode(st[i]) is Some
}

/// The text at index `i` of the string table.
pub open spec fn spec_str_at(st: Seq<Seq<u8>>, i: int) -> Seq<char> {
    utf8_decode(st[i]).unwrap()
}

/// The first `n` tag pairs drawn from parallel key and value index
/// columns, every index resolved; nothing when any index fails.
pub open spec fn spec_tags_n(st: Seq<Seq<u8>>, keys: Seq<u32>, vals: Seq<u32>, n: int) -> Option<
    TagsV,
>
    decreases n,
{
    if n <= 0 {
        Some(Seq::empty())
    } else {
        match spec_tags_n(st, keys, vals, n - 1) {
            None => None,
            Some(pre) => {
                let k = keys[n - 1] as int;
                let v = vals[n - 1] as int;
                if spec_str_ok(st, k) && spec_str_ok(st, v) {
                    Some(pre.push((spec_str_at(st, k), spec_str_at(st, v))))
                } else {
                    None
                }
            },
        }
    }
}

/// The tag list of an entity: key and value columns consumed pairwise, to
/// the shorter of the two.
pub open spec fn spec_tags(st: Seq<Seq<u8>>, keys: Seq<u32>, vals: Seq<u32>) -> Option<TagsV> {
    spec_tags_n(
        st,
        keys,
        vals,
        if keys.len() <= vals.len() {
            keys.len() as int
        } else {
            vals.len() as int
        },
    )
}

/// Once a tag prefix fails to resolve, every longer prefix fails too.
proof fn lemma_tags_n_none(st: Seq<Seq<u8>>, keys: Seq<u32>, vals: Seq<u32>, n: int, n2: int)
    requires
        spec_tags_n(st, keys, vals, n) is None,
        n <= n2,
    ensures
        spec_tags_n(st, keys, vals, n2) is None,
    decreases n2 - n,
{
    if n < n2 {
        lemma_tags_n_none(st, keys, vals, n, n2 - 1);
    }
}

/// Absolute metadata of a plain entity: every field carried over, the
/// user name resolved from the string table when a user index is present.
pub open spec fn spec_info(st: Seq<Seq<u8>>, m: osmformat::InfoV) -> Option<InfoV> {
    match m.user_sid {
        Some(sid) => if spec_str_ok(st, sid as int) {
            Some(
                InfoV {
                    version: m.version,
                    timestamp: m.timestamp,
                    changeset: m.changeset,
                    uid: m.uid,
                    user: Some(spec_str_at(st, sid as int)),
                    visible: m.visible,
                },
            )
        } else {
            None
        },
        None => Some(
            InfoV {
                version: m.version,
                timestamp: m.timestamp,
                changeset: m.changeset,
                uid: m.uid,
                user: None,
                visible: m.visible,
            },
        ),
    }
}

/// A raw coordinate turned into nanodegrees: the block's offset plus its
/// granularity times the raw unit, both steps wrapping on overflow.
pub open spec fn spec_coord(off: i64, gran: i32, raw: i64) -> i64 {
    off.wrapping_add((gran as i64).wrapping_mul(raw))
}

impl PrimitiveBlock {
    /// Resolves index `i` of the block's string table, bounds-checked;
    /// an out-of-range index or invalid text is a malformed block.
    pub fn get_string(&self, i: usize) -> (r: Result<String, Error>)
        ensures
            match r {
                Ok(s) => spec_str_ok(self@.stringtable, i as int) && s@ == spec_str_at(
                    self@.stringtable,
                    i as int,
                ),
                Err(e) => e == Error::MalformedBlock && !spec_str_ok(self@.stringtable, i as int),
            },
    {
        if i >= self.stringtable.len() {
            return Err(Error::MalformedBlock);
        }
        match bytes_to_string(&self.stringtable[i]) {
            Some(s) => Ok(s),
            None => Err(Error::MalformedBlock),
        }
    }

    /// Resolves the key and value index columns of one entity into its
    /// tag list; the first unresolvable index makes the block malformed.
    pub fn tags(&self, keys: &Vec<u32>, vals: &Vec<u32>) -> (r: Result<Tags, Error>)
        ensures
            match r {
                Ok(t) => spec_tags(self@.stringtable, keys@, vals@) == Some(
                    crate::element::view_tags(t),
                ),
                Err(e) => e == Error::MalformedBlock && spec_tags(self@.stringtable, keys@, vals@)
                    is None,
            },
    {
        let ghost st = self@.stringtable;
        let n = if keys.len() <= vals.len() {
            keys.len()
        } else {
            vals.len()
        };
        let mut out: Tags = Vec::new();
        let mut i: usize = 0;
        while i < n
            invariant
                i <= n,
                n == if keys@.len() <= vals@.len() {
                    keys@.len()
                } else {
                    vals@.len()
                },
                st == self@.stringtable,
                spec_tags_n(st, keys@, vals@, i as int) == Some(crate::element::view_tags(out)),
            decreases n - i,
        {
            let k = keys[i];
            let v = vals[i];
            let ks = match self.get_string(k as usize) {
                Ok(s) => s,
                Err(e) => {
                    proof {
                        lemma_tags_n_none(st, keys@, vals@, i + 1, n as int);
                    }
                    return Err(e);
                },
            };
            let vs = match self.get_string(v as usize) {
                Ok(s) => s,
                Err(e) => {
                    proof {
                        lemma_tags_n_none(st, keys@, vals@, i + 1, n as int);
                    }
                    return Err(e);
                },
            };
            out.push((ks, vs));
            proof {
                assert(crate::element::view_tags(out) =~= spec_tags_n(
                    st,
                    keys@,
                    vals@,
                    i + 1,
                ).unwrap());
            }
            i = i + 1;
        }
        Ok(out)
    }

    /// Turns one plain metadata record absolute, resolving the user name.
    pub fn info(&self, m: &osmformat::Info) -> (r: Result<Info, Error>)
        ensures
            match r {
                Ok(i) => spec_info(self@.stringtable, m@) == Some(i@),
                Err(e) => e == Error::MalformedBlock && spec_info(self@.stringtable, m@) is None,
            },
    {
        let user = match m.user_sid {
            Some(sid) => match self.get_string(sid as usize) {
                Ok(s) => Some(s),
                Err(e) => {
                    return Err(e);
                },
            },
            None => None,
        };
        Ok(
            Info {
                version: m.version,
                timestamp: m.timestamp,
                changeset: m.changeset,
                uid: m.uid,
                user,
                visible: m.visible,
            },
        )
    }
}

/// The absolute point references of a polyline: the first `n` deltas
/// folded into running sums, the sum starting at zero and wrapping on
/// overflow.
pub open spec fn spec_way_refs(refs: Seq<i64>, n: int) -> Seq<i64>
    decreases n,
{
    if n <= 0 {
        Seq::empty()
    } else {
        let pre = spec_way_refs(refs, n - 1);
        let prev: i64 = if n == 1 {
            0i64
        } else {
            pre[n - 2]
        };
        pre.push(prev.wrapping_add(refs[n - 1]))
    }
}

/// A reconstructed plain point: absolute already on the wire, tags and
/// metadata resolved, coordinates scaled to nanodegrees.
pub open spec fn spec_plain_node(pb: PrimitiveBlockV, n: osmformat::NodeV) -> Option<NodeV> {
    match spec_tags(pb.stringtable, n.keys, n.vals) {
        None => None,
        Some(tags) => {
            let lon = spec_coord(pb.lon_offset, pb.granularity, n.lon);
            let lat = spec_coord(pb.lat_offset, pb.granularity, n.lat);
            match n.info {
                Some(mi) => match spec_info(pb.stringtable, mi) {
                    None => None,
                    Some(iv) => Some(NodeV { id: n.id, tags, info: Some(iv), lon, lat }),
                },
                None => Some(NodeV { id: n.id, tags, info: None, lon, lat }),
            }
        },
    }
}

/// A reconstructed polyline: tags and metadata resolved, references
/// folded absolute.
pub open spec fn spec_way(pb: PrimitiveBlockV, w: osmformat::WayV) -> Option<WayV> {
    match spec_tags(pb.stringtable, w.keys, w.vals) {
        None => None,
        Some(tags) => {
            let refs = spec_way_refs(w.refs, w.refs.len() as int);
            match w.info {
                Some(mi) => match spec_info(pb.stringtable, mi) {
                    None => None,
                    Some(iv) => Some(WayV { id: w.id, tags, info: Some(iv), refs }),
                },
                None => Some(WayV { id: w.id, tags, info: None, refs }),
            }
        },
    }
}

/// The entity kind a member column tag denotes; anything but the three
/// known tags is malformed.
pub open spec fn spec_member_type(t: i32) -> Option<MemberType> {
    if t == 0 {
        Some(MemberType::Node)
    } else if t == 1 {
        Some(MemberType::Way)
    } else if t == 2 {
        Some(MemberType::Relation)
    } else {
        None
    }
}

/// The first `n` members of a relation, zipped positionally from the
/// three parallel columns: ids folded from deltas, roles resolved from
/// the string table, kinds mapped from their tags.
pub open spec fn spec_members_n(
    st: Seq<Seq<u8>>,
    memids: Seq<i64>,
    roles: Seq<i32>,
    types: Seq<i32>,
    n: int,
) -> Option<Seq<MemberV>>
    decreases n,
{
    if n <= 0 {
        Some(Seq::empty())
    } else {
        match spec_members_n(st, memids, roles, types, n - 1) {
            None => None,
            Some(pre) => {
                let prev: i64 = if n == 1 {
                    0i64
                } else {
                    pre[n - 2].id
                };
                let id = prev.wrapping_add(memids[n - 1]);
                let role_i = roles[n - 1] as int;
                match spec_member_type(types[n - 1]) {
                    None => None,
                    Some(mt) => if spec_str_ok(st, role_i) {
                        Some(pre.push(MemberV { id, role: spec_str_at(st, role_i), member_type: mt }))
                    } else {
                        None
                    },
                }
            },
        }
    }
}

proof fn lemma_members_n_none(
    st: Seq<Seq<u8>>,
    memids: Seq<i64>,
    roles: Seq<i32>,
    types: Seq<i32>,
    n: int,
    n2: int,
)
    requires
        spec_members_n(st, memids, roles, types, n) is None,
        n <= n2,
    ensures
        spec_members_n(st, memids, roles, types, n2) is None,
    decreases n2 - n,
{
    if n < n2 {
        lemma_members_n_none(st, memids, roles, types, n, n2 - 1);
    }
}

/// A reconstructed relation: the three member columns must be equally
/// long, or the block is malformed.
pub open spec fn spec_relation(pb: PrimitiveBlockV, r: osmformat::RelationV) -> Option<RelationV> {
    if r.memids.len() == r.roles_sid.len() && r.roles_sid.len() == r.types.len() {
        match spec_tags(pb.stringtable, r.keys, r.vals) {
            None => None,
            Some(tags) => {
                match spec_members_n(
                    pb.stringtable,
                    r.memids,
                    r.roles_sid,
                    r.types,
                    r.memids.len() as int,
                ) {
                    None => None,
                    Some(members) => match r.info {
                        Some(mi) => match spec_info(pb.stringtable, mi) {
                            None => None,
                            Some(iv) => Some(
                                RelationV { id: r.id, tags, info: Some(iv), members },
                            ),
                        },
                        None => Some(RelationV { id: r.id, tags, info: None, members }),
                    },
                }
            },
        }
    } else {
        None
    }
}

/// The views of a reconstructed entity list.
pub open spec fn spec_elems(v: Seq<Element>) -> Seq<ElementV> {
    v.map_values(|e: Element| e@)
}

/// The running state of one dense pass: the id, coordinate and metadata
/// running sums, and the single cursor into the flat tag array.  All sums
/// start at zero and persist across the whole pass; the tag cursor only
/// ever moves forward and saturates at the end of the array.
pub ghost struct DenseCursor {
    pub id: i64,
    pub lat: i64,
    pub lon: i64,
    pub ts: i64,
    pub cs: i64,
    pub uid: i32,
    pub sid: i32,
    pub tag_i: int,
}

/// The state at the start of a dense pass.
pub open spec fn dense_cursor_init() -> DenseCursor {
    DenseCursor { id: 0, lat: 0, lon: 0, ts: 0, cs: 0, uid: 0, sid: 0, tag_i: 0 }
}

/// One point's tag run, read from the flat tag array at cursor `i`: index
/// pairs until a zero sentinel key (or until a lone trailing index or the
/// array's end stops the run), each pair resolved through the string
/// table.  The returned cursor stands one past the sentinel, so the next
/// point's run starts cleanly; failing to step past the sentinel would
/// misalign every later point's tags.
pub open spec fn spec_dense_tag_run(st: Seq<Seq<u8>>, kv: Seq<i32>, i: int) -> Option<
    (TagsV, int),
>
    decreases kv.len() - i,
{
    if 0 <= i && i + 1 < kv.len() && kv[i] != 0 {
        let k = kv[i] as int;
        let v = kv[i + 1] as int;
        if spec_str_ok(st, k) && spec_str_ok(st, v) {
            match spec_dense_tag_run(st, kv, i + 2) {
                None => None,
                Some(rest) => Some(
                    (seq![(spec_str_at(st, k), spec_str_at(st, v))] + rest.0, rest.1),
                ),
            }
        } else {
            None
        }
    } else {
        Some(
            (
                Seq::empty(),
                if 0 <= i < kv.len() {
                    i + 1
                } else {
                    i
                },
            ),
        )
    }
}
/// One point's metadata in a dense pass: each column contributes only
/// while the point's index is within it — a missing or exhausted column
/// yields no value for this and every later point.  The delta columns
/// advance their running sums; a sum whose column yielded nothing resets
/// to zero, which no later point can observe since its column has ended.
pub open spec fn spec_dense_info_at(
    st: Seq<Seq<u8>>,
    di: osmformat::DenseInfoV,
    i: int,
    cur: DenseCursor,
) -> Option<(InfoV, DenseCursor)> {
    let ts = if 0 <= i < di.timestamp.len() {
        Some(cur.ts.wrapping_add(di.timestamp[i]))
    } else {
        None
    };
    let cs = if 0 <= i < di.changeset.len() {
        Some(cur.cs.wrapping_add(di.changeset[i]))
    } else {
        None
    };
    let uid = if 0 <= i < di.uid.len() {
        Some(cur.uid.wrapping_add(di.uid[i]))
    } else {
        None
    };
    let sid = if 0 <= i < di.user_sid.len() {
        Some(cur.sid.wrapping_add(di.user_sid[i]))
    } else {
        None
    };
    let version = if 0 <= i < di.version.len() {
        di.version[i]
    } else {
        0i32
    };
    let visible = if 0 <= i < di.visible.len() {
        Some(di.visible[i])
    } else {
        None
    };
    let cur2 = DenseCursor {
        ts: match ts {
            Some(t) => t,
            None => 0i64,
        },
        cs: match cs {
            Some(c) => c,
            None => 0i64,
        },
        uid: match uid {
            Some(u) => u,
            None => 0i32,
        },
        sid: match sid {
            Some(s) => s,
            None => 0i32,
        },
        ..cur
    };
    match sid {
        Some(s) => if spec_str_ok(st, s as int) {
            Some(
                (
                    InfoV {
                        version,
                        timestamp: ts,
                        changeset: cs,
                        uid,
                        user: Some(spec_str_at(st, s as int)),
                        visible,
                    },
                    cur2,
                ),
            )
        } else {
            None
        },
        None => Some(
            (InfoV { version, timestamp: ts, changeset: cs, uid, user: None, visible }, cur2),
        ),
    }
}

/// How many points a dense block carries: the id, latitude and longitude
/// columns consumed in step, to the shortest.
pub open spec fn spec_dense_len(d: osmformat::DenseNodesV) -> int {
    let a = d.id.len() as int;
    let b = d.lat.len() as int;
    let c = d.lon.len() as int;
    if a <= b && a <= c {
        a
    } else if b <= c {
        b
    } else {
        c
    }
}

/// One point of a dense pass: delta columns folded onto the running sums,
/// the tag run taken at the cursor, metadata taken when the block carries
/// any, and the state advanced for the next point.
pub open spec fn spec_dense_step(
    pb: PrimitiveBlockV,
    d: osmformat::DenseNodesV,
    i: int,
    cur: DenseCursor,
) -> Option<(NodeV, DenseCursor)> {
    let id = cur.id.wrapping_add(d.id[i]);
    let lon = cur.lon.wrapping_add(d.lon[i]);
    let lat = cur.lat.wrapping_add(d.lat[i]);
    match spec_dense_tag_run(pb.stringtable, d.keys_vals, cur.tag_i) {
        None => None,
        Some(tr) => {
            let cur1 = DenseCursor { id, lon, lat, tag_i: tr.1, ..cur };
            let lon_nano = spec_coord(pb.lon_offset, pb.granularity, lon);
            let lat_nano = spec_coord(pb.lat_offset, pb.granularity, lat);
            match d.denseinfo {
                None => Some(
                    (
                        NodeV { id, tags: tr.0, info: None, lon: lon_nano, lat: lat_nano },
                        cur1,
                    ),
                ),
                Some(di) => match spec_dense_info_at(pb.stringtable, di, i, cur1) {
                    None => None,
                    Some(ic) => Some(
                        (
                            NodeV {
                                id,
                                tags: tr.0,
                                info: Some(ic.0),
                                lon: lon_nano,
                                lat: lat_nano,
                            },
                            ic.1,
                        ),
                    ),
                },
            }
        },
    }
}

/// The points of a dense pass from index `i` on, threading the running
/// state through every step.
pub open spec fn spec_dense_rec(
    pb: PrimitiveBlockV,
    d: osmformat::DenseNodesV,
    i: int,
    cur: DenseCursor,
) -> Option<Seq<ElementV>>
    decreases spec_dense_len(d) - i,
{
    if i < 0 || i >= spec_dense_len(d) {
        Some(Seq::empty())
    } else {
        match spec_dense_step(pb, d, i, cur) {
            None => None,
            Some(nc) => match spec_dense_rec(pb, d, i + 1, nc.1) {
                None => None,
                Some(rest) => Some(seq![ElementV::Node(nc.0)] + rest),
            },
        }
    }
}

/// All points of a dense block, reconstructed in stored order.
pub open spec fn spec_dense(pb: PrimitiveBlockV, d: osmformat::DenseNodesV) -> Option<
    Seq<ElementV>,
> {
    spec_dense_rec(pb, d, 0, dense_cursor_init())
}

impl PrimitiveBlock {
    /// Reconstructs one plain point entity of this block.
    fn decode_plain_node(&self, n: &osmformat::Node) -> (r: Result<Node, Error>)
        ensures
            match r {
                Ok(e) => spec_plain_node(self@, n@) == Some(e@),
                Err(e) => e == Error::MalformedBlock && spec_plain_node(self@, n@) is None,
            },
    {
        let tags = self.tags(&n.keys, &n.vals)?;
        let info = match &n.info {
            Some(mi) => Some(self.info(mi)?),
            None => None,
        };
        Ok(
            Node {
                id: n.id,
                tags,
                info,
                lon: self.lon_offset.wrapping_add((self.granularity as i64).wrapping_mul(n.lon)),
                lat: self.lat_offset.wrapping_add((self.granularity as i64).wrapping_mul(n.lat)),
            },
        )
    }

    /// Reconstructs one polyline entity of this block.
    fn decode_way(&self, w: &osmformat::Way) -> (r: Result<Way, Error>)
        ensures
            match r {
                Ok(e) => spec_way(self@, w@) == Some(e@),
                Err(e) => e == Error::MalformedBlock && spec_way(self@, w@) is None,
            },
    {
        let tags = self.tags(&w.keys, &w.vals)?;
        let info = match &w.info {
            Some(mi) => Some(self.info(mi)?),
            None => None,
        };
        let mut refs: Vec<i64> = Vec::new();
        let mut prev: i64 = 0;
        let mut i: usize = 0;
        while i < w.refs.len()
            invariant
                i <= w.refs@.len(),
                refs@ == spec_way_refs(w@.refs, i as int),
                refs@.len() == i,
                prev == if i == 0 {
                    0i64
                } else {
                    refs@[i - 1]
                },
            decreases w.refs@.len() - i,
        {
            let a = prev.wrapping_add(w.refs[i]);
            refs.push(a);
            prev = a;
            i = i + 1;
        }
        Ok(Way { id: w.id, tags, info, refs })
    }

    /// Reconstructs one relation entity of this block.
    fn decode_relation(&self, rel: &osmformat::Relation) -> (r: Result<Relation, Error>)
        ensures
            match r {
                Ok(e) => spec_relation(self@, rel@) == Some(e@),
                Err(e) => e == Error::MalformedBlock && spec_relation(self@, rel@) is None,
            },
    {
        let ghost st = self@.stringtable;
        if rel.memids.len() != rel.roles_sid.len() || rel.roles_sid.len() != rel.types.len() {
            return Err(Error::MalformedBlock);
        }
        let tags = self.tags(&rel.keys, &rel.vals)?;
        let n = rel.memids.len();
        let mut members: Vec<Member> = Vec::new();
        let mut prev: i64 = 0;
        let mut i: usize = 0;
        while i < n
            invariant
                i <= n,
                n == rel.memids@.len() && n == rel.roles_sid@.len() && n == rel.types@.len(),
                st == self@.stringtable,
                spec_members_n(st, rel@.memids, rel@.roles_sid, rel@.types, i as int) == Some(
                    members@.map_values(|m: Member| m@),
                ),
                members@.len() == i,
                prev == if i == 0 {
                    0i64
                } else {
                    members@.map_values(|m: Member| m@)[i - 1].id
                },
            decreases n - i,
        {
            let id = prev.wrapping_add(rel.memids[i]);
            let role_sid = rel.roles_sid[i];
            let mt = if rel.types[i] == 0 {
                MemberType::Node
            } else if rel.types[i] == 1 {
                MemberType::Way
            } else if rel.types[i] == 2 {
                MemberType::Relation
            } else {
                proof {
                    lemma_members_n_none(st, rel@.memids, rel@.roles_sid, rel@.types, i + 1, n as int);
                }
                return Err(Error::MalformedBlock);
            };
            let role = if role_sid < 0 {
                proof {
                    lemma_members_n_none(st, rel@.memids, rel@.roles_sid, rel@.types, i + 1, n as int);
                }
                return Err(Error::MalformedBlock);
            } else {
                match self.get_string(role_sid as usize) {
                    Ok(s) => s,
                    Err(e) => {
                        proof {
                            lemma_members_n_none(
                                st,
                                rel@.memids,
                                rel@.roles_sid,
                                rel@.types,
                                i + 1,
                                n as int,
                            );
                        }
                        return Err(e);
                    },
                }
            };
            members.push(Member { id, role, member_type: mt });
            proof {
                assert(members@.map_values(|m: Member| m@) =~= spec_members_n(
                    st,
                    rel@.memids,
                    rel@.roles_sid,
                    rel@.types,
                    i + 1,
                ).unwrap());
            }
            prev = id;
            i = i + 1;
        }
        let info = match &rel.info {
            Some(mi) => Some(self.info(mi)?),
            None => None,
        };
        Ok(Relation { id: rel.id, tags, info, members })
    }
}

impl PrimitiveBlock {
    /// Reconstructs every point of one dense block, folding the delta
    /// columns and walking the single tag cursor across the whole pass.
    #[verifier::rlimit(50)]
    fn decode_dense(&self, d: &osmformat::DenseNodes) -> (r: Result<Vec<Element>, Error>)
        ensures
            match spec_dense(self@, d@) {
                Some(es) => r matches Ok(v) && spec_elems(v@) == es,
                None => r == Err::<Vec<Element>, Error>(Error::MalformedBlock),
            },
    {
        let ghost pb = self@;
        let n0 = if d.id.len() <= d.lat.len() {
            d.id.len()
        } else {
            d.lat.len()
        };
        let n = if n0 <= d.lon.len() {
            n0
        } else {
            d.lon.len()
        };
        let mut out: Vec<Element> = Vec::new();
        let mut prev_id: i64 = 0;
        let mut prev_lat: i64 = 0;
        let mut prev_lon: i64 = 0;
        let mut prev_ts: i64 = 0;
        let mut prev_cs: i64 = 0;
        let mut prev_uid: i32 = 0;
        let mut prev_sid: i32 = 0;
        let mut tag_i: usize = 0;
        let mut i: usize = 0;
        while i < n
            invariant
                i <= n,
                n as int == spec_dense_len(d@),
                n <= d.id@.len() && n <= d.lat@.len() && n <= d.lon@.len(),
                tag_i <= d.keys_vals@.len(),
                pb == self@,
                ({
                    let cur = DenseCursor {
                        id: prev_id,
                        lat: prev_lat,
                        lon: prev_lon,
                        ts: prev_ts,
                        cs: prev_cs,
                        uid: prev_uid,
                        sid: prev_sid,
                        tag_i: tag_i as int,
                    };
                    match spec_dense_rec(pb, d@, i as int, cur) {
                        Some(rest) => spec_dense(pb, d@) == Some(spec_elems(out@) + rest),
                        None => spec_dense(pb, d@) is None,
                    }
                }),
            decreases n - i,
        {
            let ghost cur0 = DenseCursor {
                id: prev_id,
                lat: prev_lat,
                lon: prev_lon,
                ts: prev_ts,
                cs: prev_cs,
                uid: prev_uid,
                sid: prev_sid,
                tag_i: tag_i as int,
            };
            let id = prev_id.wrapping_add(d.id[i]);
            let lon = prev_lon.wrapping_add(d.lon[i]);
            let lat = prev_lat.wrapping_add(d.lat[i]);
            let ghost tag_i0 = tag_i as int;
            let mut tags: Tags = Vec::new();
            while d.keys_vals.len() > 0 && tag_i < d.keys_vals.len() - 1 && d.keys_vals[tag_i]
                != 0
                invariant
                    tag_i <= d.keys_vals@.len(),
                    0 <= tag_i0 <= tag_i as int,
                    pb == self@,
                    0 <= (i as int) && (i as int) < spec_dense_len(d@),
                    n as int == spec_dense_len(d@),
                    n <= d.id@.len() && n <= d.lat@.len() && n <= d.lon@.len(),
                    cur0 == (DenseCursor {
                        id: prev_id,
                        lat: prev_lat,
                        lon: prev_lon,
                        ts: prev_ts,
                        cs: prev_cs,
                        uid: prev_uid,
                        sid: prev_sid,
                        tag_i: tag_i0,
                    }),
                    match spec_dense_rec(pb, d@, i as int, cur0) {
                        Some(rest) => spec_dense(pb, d@) == Some(spec_elems(out@) + rest),
                        None => spec_dense(pb, d@) is None,
                    },
                    match spec_dense_tag_run(pb.stringtable, d@.keys_vals, tag_i as int) {
                        Some(tr) => spec_dense_tag_run(pb.stringtable, d@.keys_vals, tag_i0)
                            == Some((crate::element::view_tags(tags) + tr.0, tr.1)),
                        None => spec_dense_tag_run(pb.stringtable, d@.keys_vals, tag_i0) is None,
                    },
                decreases d.keys_vals@.len() - tag_i,
            {
                let k = d.keys_vals[tag_i];
                let v = d.keys_vals[tag_i + 1];
                proof {
                    if !spec_str_ok(pb.stringtable, k as int) || !spec_str_ok(
                        pb.stringtable,
                        v as int,
                    ) {
                        assert(spec_dense_tag_run(pb.stringtable, d@.keys_vals, tag_i as int)
                            is None);
                        assert(spec_dense_tag_run(pb.stringtable, d@.keys_vals, tag_i0) is None);
                        assert(spec_dense_step(pb, d@, i as int, cur0) is None);
                        assert(spec_dense_rec(pb, d@, i as int, cur0) is None);
                        assert(spec_dense(pb, d@) is None);
                    }
                }
                let ks = if k < 0 {
                    return Err(Error::MalformedBlock);
                } else {
                    match self.get_string(k as usize) {
                        Ok(s) => s,
                        Err(_) => {
                            return Err(Error::MalformedBlock);
                        },
                    }
                };
                let vs = if v < 0 {
                    return Err(Error::MalformedBlock);
                } else {
                    match self.get_string(v as usize) {
                        Ok(s) => s,
                        Err(_) => {
                            return Err(Error::MalformedBlock);
                        },
                    }
                };
                proof {
                    assert(spec_str_ok(pb.stringtable, d@.keys_vals[tag_i as int] as int));
                    assert(spec_str_ok(pb.stringtable, d@.keys_vals[tag_i as int + 1] as int));
                }
                let ghost old_tags = crate::element::view_tags(tags);
                tags.push((ks, vs));
                proof {
                    let kk = d@.keys_vals[tag_i as int] as int;
                    let vv = d@.keys_vals[tag_i as int + 1] as int;
                    let pair = (spec_str_at(pb.stringtable, kk), spec_str_at(pb.stringtable, vv));
                    assert(crate::element::view_tags(tags) =~= old_tags.push(pair));
                    if let Some(tr2) = spec_dense_tag_run(
                        pb.stringtable,
                        d@.keys_vals,
                        tag_i as int + 2,
                    ) {
                        assert(old_tags.push(pair) + tr2.0 =~= old_tags + (seq![pair] + tr2.0));
                    }
                }
                tag_i = tag_i + 2;
            }
            if tag_i < d.keys_vals.len() {
                tag_i = tag_i + 1;
            }
            proof {
                assert(spec_dense_tag_run(pb.stringtable, d@.keys_vals, tag_i0) == Some(
                    (crate::element::view_tags(tags), tag_i as int),
                )) by {
                    assert(crate::element::view_tags(tags) + Seq::<
                        (Seq<char>, Seq<char>),
                    >::empty() =~= crate::element::view_tags(tags));
                }
            }
            let ghost cur1 = DenseCursor { id, lon, lat, tag_i: tag_i as int, ..cur0 };
            let info = match &d.denseinfo {
                Some(di) => {
                    let ts = if i < di.timestamp.len() {
                        Some(prev_ts.wrapping_add(di.timestamp[i]))
                    } else {
                        None
                    };
                    let cs = if i < di.changeset.len() {
                        Some(prev_cs.wrapping_add(di.changeset[i]))
                    } else {
                        None
                    };
                    let uid_v = if i < di.uid.len() {
                        Some(prev_uid.wrapping_add(di.uid[i]))
                    } else {
                        None
                    };
                    let sid = if i < di.user_sid.len() {
                        Some(prev_sid.wrapping_add(di.user_sid[i]))
                    } else {
                        None
                    };
                    let version = if i < di.version.len() {
                        di.version[i]
                    } else {
                        0
                    };
                    let visible = if i < di.visible.len() {
                        Some(di.visible[i])
                    } else {
                        None
                    };
                    let user = match sid {
                        Some(s) => {
                            proof {
                                if !spec_str_ok(pb.stringtable, s as int) {
                                    assert(spec_dense_info_at(pb.stringtable, di@, i as int, cur1)
                                        is None);
                                    assert(spec_dense_step(pb, d@, i as int, cur0) is None);
                                    assert(spec_dense_rec(pb, d@, i as int, cur0) is None);
                                    assert(spec_dense(pb, d@) is None);
                                }
                            }
                            if s < 0 {
                                return Err(Error::MalformedBlock);
                            }
                            match self.get_string(s as usize) {
                                Ok(u) => Some(u),
                                Err(_) => {
                                    return Err(Error::MalformedBlock);
                                },
                            }
                        },
                        None => None,
                    };
                    prev_ts = match ts {
                        Some(t) => t,
                        None => 0,
                    };
                    prev_cs = match cs {
                        Some(c) => c,
                        None => 0,
                    };
                    prev_uid = match uid_v {
                        Some(u) => u,
                        None => 0,
                    };
                    prev_sid = match sid {
                        Some(s) => s,
                        None => 0,
                    };
                    Some(Info { version, timestamp: ts, changeset: cs, uid: uid_v, user, visible })
                },
                None => None,
            };
            let node = Node {
                id,
                tags,
                info,
                lon: self.lon_offset.wrapping_add((self.granularity as i64).wrapping_mul(lon)),
                lat: self.lat_offset.wrapping_add((self.granularity as i64).wrapping_mul(lat)),
            };
            let ghost nv = node@;
            let ghost old_out = out@;
            out.push(Element::Node(node));
            proof {
                let cur2 = DenseCursor {
                    id,
                    lat,
                    lon,
                    ts: prev_ts,
                    cs: prev_cs,
                    uid: prev_uid,
                    sid: prev_sid,
                    tag_i: tag_i as int,
                };
                assert(spec_dense_step(pb, d@, i as int, cur0) == Some((nv, cur2)));
                assert(spec_elems(out@) =~= spec_elems(old_out).push(ElementV::Node(nv)));
                if let Some(rest2) = spec_dense_rec(pb, d@, i as int + 1, cur2) {
                    assert(spec_elems(old_out) + (seq![ElementV::Node(nv)] + rest2)
                        =~= spec_elems(out@) + rest2);
                }
            }
            prev_id = id;
            prev_lat = lat;
            prev_lon = lon;
            i = i + 1;
        }
        Ok(out)
    }
}

/// The plain point entities of a group from index `i` on.
pub open spec fn spec_plain_nodes_rec(pb: PrimitiveBlockV, ns: Seq<osmformat::NodeV>, i: int) -> Option<
    Seq<ElementV>,
>
    decreases ns.len() - i,
{
    if i < 0 || i >= ns.len() {
        Some(Seq::empty())
    } else {
        match spec_plain_node(pb, ns[i]) {
            None => None,
            Some(nv) => match spec_plain_nodes_rec(pb, ns, i + 1) {
                None => None,
                Some(rest) => Some(seq![ElementV::Node(nv)] + rest),
            },
        }
    }
}

/// The polyline entities of a group from index `i` on.
pub open spec fn spec_ways_rec(pb: PrimitiveBlockV, ws: Seq<osmformat::WayV>, i: int) -> Option<
    Seq<ElementV>,
>
    decreases ws.len() - i,
{
    if i < 0 || i >= ws.len() {
        Some(Seq::empty())
    } else {
        match spec_way(pb, ws[i]) {
            None => None,
            Some(wv) => match spec_ways_rec(pb, ws, i + 1) {
                None => None,
                Some(rest) => Some(seq![ElementV::Way(wv)] + rest),
            },
        }
    }
}

/// The relation entities of a group from index `i` on.
pub open spec fn spec_relations_rec(
    pb: PrimitiveBlockV,
    rs: Seq<osmformat::RelationV>,
    i: int,
) -> Option<Seq<ElementV>>
    decreases rs.len() - i,
{
    if i < 0 || i >= rs.len() {
        Some(Seq::empty())
    } else {
        match spec_relation(pb, rs[i]) {
            None => None,
            Some(rv) => match spec_relations_rec(pb, rs, i + 1) {
                None => None,
                Some(rest) => Some(seq![ElementV::Relation(rv)] + rest),
            },
        }
    }
}

/// The entities one group contributes, in stored order: plain points,
/// then the dense block's points, then polylines, then relations.
pub open spec fn spec_group(pb: PrimitiveBlockV, g: osmformat::PrimitiveGroupV) -> Option<
    Seq<ElementV>,
> {
    match spec_plain_nodes_rec(pb, g.nodes, 0) {
        None => None,
        Some(ns) => {
            let dn = match g.dense {
                Some(d) => spec_dense(pb, d),
                None => Some(Seq::<ElementV>::empty()),
            };
            match dn {
                None => None,
                Some(ds) => match spec_ways_rec(pb, g.ways, 0) {
                    None => None,
                    Some(ws) => match spec_relations_rec(pb, g.relations, 0) {
                        None => None,
                        Some(rs) => Some(ns + ds + ws + rs),
                    },
                },
            }
        },
    }
}

/// The entities of the block's groups from index `i` on, concatenated in
/// group order.
pub open spec fn spec_groups_rec(pb: PrimitiveBlockV, i: int) -> Option<Seq<ElementV>>
    decreases pb.primitivegroup.len() - i,
{
    if i < 0 || i >= pb.primitivegroup.len() {
        Some(Seq::empty())
    } else {
        match spec_group(pb, pb.primitivegroup[i]) {
            None => None,
            Some(es) => match spec_groups_rec(pb, i + 1) {
                None => None,
                Some(rest) => Some(es + rest),
            },
        }
    }
}

/// The full ordered entity sequence a block encodes, or nothing when any
/// index fails to resolve, any text is invalid, a member column mismatch
/// is found, or a member kind tag is unknown.
#[verifier::opaque]
pub open spec fn spec_decode(pb: PrimitiveBlockV) -> Option<Seq<ElementV>> {
    spec_groups_rec(pb, 0)
}

impl PrimitiveBlock {
    /// Reconstructs the entities of one group, in stored order.
    fn decode_group(&self, g: &osmformat::PrimitiveGroup) -> (r: Result<Vec<Element>, Error>)
        ensures
            match spec_group(self@, g@) {
                Some(es) => r matches Ok(v) && spec_elems(v@) == es,
                None => r == Err::<Vec<Element>, Error>(Error::MalformedBlock),
            },
    {
        let ghost pb = self@;
        let mut out: Vec<Element> = Vec::new();
        let mut i: usize = 0;
        while i < g.nodes.len()
            invariant
                i <= g.nodes@.len(),
                pb == self@,
                match spec_plain_nodes_rec(pb, g@.nodes, i as int) {
                    Some(rest) => spec_plain_nodes_rec(pb, g@.nodes, 0) == Some(
                        spec_elems(out@) + rest,
                    ),
                    None => spec_plain_nodes_rec(pb, g@.nodes, 0) is None,
                },
            decreases g.nodes@.len() - i,
        {
            match self.decode_plain_node(&g.nodes[i]) {
                Ok(nd) => {
                    let ghost old_out = out@;
                    let ghost nv = nd@;
                    out.push(Element::Node(nd));
                    proof {
                        assert(spec_elems(out@) =~= spec_elems(old_out).push(ElementV::Node(nv)));
                        if let Some(rest2) = spec_plain_nodes_rec(pb, g@.nodes, i as int + 1) {
                            assert(spec_elems(old_out) + (seq![ElementV::Node(nv)] + rest2)
                                =~= spec_elems(out@) + rest2);
                        }
                    }
                },
                Err(e) => {
                    return Err(e);
                },
            }
            i = i + 1;
        }
        let ghost nodes_elems = spec_elems(out@);
        proof {
            assert(nodes_elems + Seq::<ElementV>::empty() =~= nodes_elems);
        }
        match &g.dense {
            Some(d) => {
                let mut part = match self.decode_dense(d) {
                    Ok(p) => p,
                    Err(e) => {
                        return Err(e);
                    },
                };
                let ghost part_elems = spec_elems(part@);
                out.append(&mut part);
                proof {
                    assert(spec_elems(out@) =~= nodes_elems + part_elems);
                }
            },
            None => {},
        }
        let ghost base = spec_elems(out@);
        let ghost dense_elems = match g@.dense {
            Some(dv) => spec_dense(pb, dv).unwrap(),
            None => Seq::<ElementV>::empty(),
        };
        proof {
            assert(base =~= nodes_elems + dense_elems);
        }
        let mut i: usize = 0;
        while i < g.ways.len()
            invariant
                i <= g.ways@.len(),
                pb == self@,
                spec_plain_nodes_rec(pb, g@.nodes, 0) == Some(nodes_elems),
                match g@.dense {
                    Some(dv) => spec_dense(pb, dv) == Some(dense_elems),
                    None => dense_elems == Seq::<ElementV>::empty(),
                },
                base == nodes_elems + dense_elems,
                match spec_ways_rec(pb, g@.ways, i as int) {
                    Some(rest) => spec_ways_rec(pb, g@.ways, 0) matches Some(w0) && base + w0
                        == spec_elems(out@) + rest,
                    None => spec_ways_rec(pb, g@.ways, 0) is None,
                },
            decreases g.ways@.len() - i,
        {
            match self.decode_way(&g.ways[i]) {
                Ok(wd) => {
                    let ghost old_out = out@;
                    let ghost wv = wd@;
                    out.push(Element::Way(wd));
                    proof {
                        assert(spec_elems(out@) =~= spec_elems(old_out).push(ElementV::Way(wv)));
                        if let Some(rest2) = spec_ways_rec(pb, g@.ways, i as int + 1) {
                            assert(spec_elems(old_out) + (seq![ElementV::Way(wv)] + rest2)
                                =~= spec_elems(out@) + rest2);
                        }
                    }
                },
                Err(e) => {
                    return Err(e);
                },
            }
            i = i + 1;
        }
        let ghost ways_elems = spec_ways_rec(pb, g@.ways, 0).unwrap();
        proof {
            assert(base + ways_elems =~= spec_elems(out@) + Seq::<ElementV>::empty());
            assert(base + ways_elems =~= spec_elems(out@));
        }
        let ghost base2 = spec_elems(out@);
        let mut i: usize = 0;
        while i < g.relations.len()
            invariant
                i <= g.relations@.len(),
                pb == self@,
                spec_plain_nodes_rec(pb, g@.nodes, 0) == Some(nodes_elems),
                match g@.dense {
                    Some(dv) => spec_dense(pb, dv) == Some(dense_elems),
                    None => dense_elems == Seq::<ElementV>::empty(),
                },
                spec_ways_rec(pb, g@.ways, 0) == Some(ways_elems),
                base2 == nodes_elems + dense_elems + ways_elems,
                match spec_relations_rec(pb, g@.relations, i as int) {
                    Some(rest) => spec_relations_rec(pb, g@.relations, 0) matches Some(r0) && base2
                        + r0 == spec_elems(out@) + rest,
                    None => spec_relations_rec(pb, g@.relations, 0) is None,
                },
            decreases g.relations@.len() - i,
        {
            match self.decode_relation(&g.relations[i]) {
                Ok(rd) => {
                    let ghost old_out = out@;
                    let ghost rv = rd@;
                    out.push(Element::Relation(rd));
                    proof {
                        assert(spec_elems(out@) =~= spec_elems(old_out).push(
                            ElementV::Relation(rv),
                        ));
                        if let Some(rest2) = spec_relations_rec(pb, g@.relations, i as int + 1) {
                            assert(spec_elems(old_out) + (seq![ElementV::Relation(rv)] + rest2)
                                =~= spec_elems(out@) + rest2);
                        }
                    }
                },
                Err(e) => {
                    return Err(e);
                },
            }
            i = i + 1;
        }
        proof {
            let rels_elems = spec_relations_rec(pb, g@.relations, 0).unwrap();
            assert(base2 + rels_elems =~= spec_elems(out@) + Seq::<ElementV>::empty());
            assert(base2 + rels_elems =~= spec_elems(out@));
            assert(nodes_elems + dense_elems + ways_elems + rels_elems =~= spec_elems(out@));
        }
        Ok(out)
    }

    /// Reconstructs the full ordered entity sequence of this block: every
    /// group's plain points, dense points, polylines and relations, delta
    /// columns folded absolute and every string index resolved.
    pub fn decode(&self) -> (r: Result<Vec<Element>, Error>)
        ensures
            match spec_decode(self@) {
                Some(es) => r matches Ok(v) && spec_elems(v@) == es,
                None => r == Err::<Vec<Element>, Error>(Error::MalformedBlock),
            },
    {
        proof {
            reveal(spec_decode);
        }
        let ghost pb = self@;
        let mut out: Vec<Element> = Vec::new();
        let mut gi: usize = 0;
        while gi < self.primitivegroup.len()
            invariant
                gi <= self.primitivegroup@.len(),
                pb == self@,
                match spec_groups_rec(pb, gi as int) {
                    Some(rest) => spec_decode(pb) == Some(spec_elems(out@) + rest),
                    None => spec_decode(pb) is None,
                },
            decreases self.primitivegroup@.len() - gi,
        {
            match self.decode_group(&self.primitivegroup[gi]) {
                Ok(mut part) => {
                    let ghost old_out = out@;
                    let ghost part_elems = spec_elems(part@);
                    out.append(&mut part);
                    proof {
                        assert(spec_elems(out@) =~= spec_elems(old_out) + part_elems);
                        if let Some(rest2) = spec_groups_rec(pb, gi as int + 1) {
                            assert(spec_elems(old_out) + (part_elems + rest2) =~= spec_elems(out@)
                                + rest2);
                        }
                    }
                },
                Err(e) => {
                    return Err(e);
                },
            }
            gi = gi + 1;
        }
        Ok(out)
    }
}

/// The bytes a payload record yields: stored bytes pass through
/// unchanged, zlib bytes inflate or fail as the stream decides, and a
/// record that declares any other scheme — or none — is rejected without
/// further interpretation.
pub open spec fn spec_get_data(b: BlobV) -> Result<Seq<u8>, Error> {
    if b.other_compression {
        Err(Error::UnsupportedCompression)
    } else {
        match b.raw {
            Some(d) => Ok(d),
            None => match b.zlib_data {
                Some(z) => match inflate(z) {
                    Some(d) => Ok(d),
                    None => Err(Error::DecompressionFailed),
                },
                None => Err(Error::UnsupportedCompression),
            },
        }
    }
}

/// The block record a payload deserializes to: the payload bytes as its
/// declared compression yields them, parsed as a primitive block.
#[verifier::opaque]
pub open spec fn spec_decode_primitive(b: BlobV) -> Result<PrimitiveBlockV, Error> {
    match spec_get_data(b) {
        Err(e) => Err(e),
        Ok(data) => match osmformat::spec_parse_primitive_block(data, 0, data.len() as int) {
            Some(pb) => Ok(pb),
            None => Err(Error::MalformedBlock),
        },
    }
}

/// The metadata record a payload deserializes to.
pub open spec fn spec_decode_header(b: BlobV) -> Result<osmformat::HeaderBlockV, Error> {
    match spec_get_data(b) {
        Err(e) => Err(e),
        Ok(data) => match osmformat::spec_parse_header_block(data, 0, data.len() as int) {
            Some(h) => Ok(h),
            None => Err(Error::MalformedBlock),
        },
    }
}

impl Blob {
    /// The payload bytes of this record, decompressed as its declared
    /// scheme demands.
    pub fn get_data(&self) -> (r: Result<Vec<u8>, Error>)
        ensures
            match spec_get_data(self@) {
                Ok(d) => r matches Ok(v) && v@ == d,
                Err(e) => r == Err::<Vec<u8>, Error>(e),
            },
    {
        if self.other_compression {
            return Err(Error::UnsupportedCompression);
        }
        match &self.raw {
            Some(d) => Ok(d.clone()),
            None => match &self.zlib_data {
                Some(z) => match zlib_inflate(z) {
                    Some(d) => Ok(d),
                    None => Err(Error::DecompressionFailed),
                },
                None => Err(Error::UnsupportedCompression),
            },
        }
    }

    /// Deserializes this payload as a metadata block.
    pub fn decode_header(&self) -> (r: Result<HeaderBlock, Error>)
        ensures
            match spec_decode_header(self@) {
                Ok(hv) => r matches Ok(h) && h@ == hv,
                Err(e) => r == Err::<HeaderBlock, Error>(e),
            },
    {
        let data = self.get_data()?;
        match osmformat::parse_header_block(&data, 0, data.len()) {
            Some(h) => Ok(h),
            None => Err(Error::MalformedBlock),
        }
    }

    /// Deserializes this payload as a primitive (entity-carrying) block.
    pub fn decode_primitive(&self) -> (r: Result<PrimitiveBlock, Error>)
        ensures
            match spec_decode_primitive(self@) {
                Ok(pbv) => r matches Ok(pb) && pb@ == pbv,
                Err(e) => r == Err::<PrimitiveBlock, Error>(e),
            },
    {
        proof {
            reveal(spec_decode_primitive);
        }
        let data = self.get_data()?;
        match osmformat::parse_primitive_block(&data, 0, data.len()) {
            Some(b) => Ok(b),
            None => Err(Error::MalformedBlock),
        }
    }
}

} // verus!
