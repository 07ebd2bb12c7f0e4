//! Binary persistence of the range index.
//!
//! The persisted form is three groups, one per entity kind in the fixed
//! order points, polylines, relations; each group is a varint count
//! followed by that many records of five varints: low identifier, high
//! identifier, payload byte offset, payload byte length, entity count.
//! Identifiers are persisted through their unsigned two's-complement
//! image.  Decoding bytes produced by encoding reproduces the index
//! exactly — and with it every query answer — for all values below
//! `2^56`, the range the varint decoder covers.

use vstd::prelude::*;

use crate::error::Error;
use crate::scan::{IdSpan, ScanTable, ScanTableV};
use crate::varint::{
    lemma_vdec_of_venc, lemma_vdec_range, lemma_vlen_bounds, spec_vdec, spec_venc, spec_vlen,
    varint_append, varint_decode,
};

verus! {

/// The five varints one recorded span persists to.
pub open spec fn spec_enc_span(s: IdSpan) -> Seq<u8> {
    spec_venc(s.low as u64) + spec_venc(s.high as u64) + spec_venc(s.offset) + spec_venc(
        s.byte_len,
    ) + spec_venc(s.items)
}

/// The records of a span list, encoded in recorded order.
pub open spec fn spec_enc_spans(spans: Seq<IdSpan>) -> Seq<u8>
    decreases spans.len(),
{
    if spans.len() == 0 {
        Seq::empty()
    } else {
        spec_enc_span(spans[0]) + spec_enc_spans(spans.skip(1))
    }
}

/// One kind's group: the span count, then the spans.
pub open spec fn spec_enc_group(spans: Seq<IdSpan>) -> Seq<u8> {
    spec_venc(spans.len() as u64) + spec_enc_spans(spans)
}

/// The whole persisted index: the three kinds' groups in fixed order.
pub open spec fn spec_enc_table(t: ScanTableV) -> Seq<u8> {
    spec_enc_group(t.nodes) + spec_enc_group(t.ways) + spec_enc_group(t.relations)
}

/// One record decoded at `pos`: five varints and the position past them.
pub open spec fn spec_dec_span(data: Seq<u8>, pos: int) -> Option<(IdSpan, int)> {
    match spec_vdec(data, pos) {
        None => None,
        Some(lo) => match spec_vdec(data, lo.1) {
            None => None,
            Some(hi) => match spec_vdec(data, hi.1) {
                None => None,
                Some(off) => match spec_vdec(data, off.1) {
                    None => None,
                    Some(bl) => match spec_vdec(data, bl.1) {
                        None => None,
                        Some(it) => Some(
                            (
                                IdSpan {
                                    low: lo.0 as i64,
                                    high: hi.0 as i64,
                                    offset: off.0 as u64,
                                    byte_len: bl.0 as u64,
                                    items: it.0 as u64,
                                },
                                it.1,
                            ),
                        ),
                    },
                },
            },
        },
    }
}

/// `count` records decoded in order from `pos`.
pub open spec fn spec_dec_spans(data: Seq<u8>, pos: int, count: int) -> Option<(Seq<IdSpan>, int)>
    decreases count,
{
    if count <= 0 {
        Some((Seq::empty(), pos))
    } else {
        match spec_dec_span(data, pos) {
            None => None,
            Some(sp) => match spec_dec_spans(data, sp.1, count - 1) {
                None => None,
                Some(rest) => Some((seq![sp.0] + rest.0, rest.1)),
            },
        }
    }
}

/// One kind's group decoded at `pos`.
pub open spec fn spec_dec_group(data: Seq<u8>, pos: int) -> Option<(Seq<IdSpan>, int)> {
    match spec_vdec(data, pos) {
        None => None,
        Some(cnt) => spec_dec_spans(data, cnt.1, cnt.0),
    }
}

/// The whole index decoded at `pos`: three groups in fixed order, and the
/// position past them.
pub open spec fn spec_dec_table(data: Seq<u8>, pos: int) -> Option<(ScanTableV, int)> {
    match spec_dec_group(data, pos) {
        None => None,
        Some(ns) => match spec_dec_group(data, ns.1) {
            None => None,
            Some(ws) => match spec_dec_group(data, ws.1) {
                None => None,
                Some(rs) => Some(
                    (ScanTableV { nodes: ns.0, ways: ws.0, relations: rs.0 }, rs.1),
                ),
            },
        },
    }
}

/// Whether one span's five values are inside the range the varint
/// decoder covers: identifiers non-negative (their unsigned image must
/// stay small) and every value below `2^56`.
pub open spec fn span_bounded(s: IdSpan) -> bool {
    &&& 0 <= s.low < 0x100_0000_0000_0000
    &&& 0 <= s.high < 0x100_0000_0000_0000
    &&& s.offset < 0x100_0000_0000_0000
    &&& s.byte_len < 0x100_0000_0000_0000
    &&& s.items < 0x100_0000_0000_0000
}

/// Whether a whole index is inside the range the codec round-trips:
/// every span bounded, and every kind's count below `2^56`.
pub open spec fn table_bounded(t: ScanTableV) -> bool {
    &&& t.nodes.len() < 0x100_0000_0000_0000
    &&& t.ways.len() < 0x100_0000_0000_0000
    &&& t.relations.len() < 0x100_0000_0000_0000
    &&& forall|i: int| 0 <= i < t.nodes.len() ==> span_bounded(#[trigger] t.nodes[i])
    &&& forall|i: int| 0 <= i < t.ways.len() ==> span_bounded(#[trigger] t.ways[i])
    &&& forall|i: int| 0 <= i < t.relations.len() ==> span_bounded(#[trigger] t.relations[i])
}

proof fn lemma_sub_at(data: Seq<u8>, pos: int, len: int, a: int, b: int)
    requires
        0 <= pos,
        pos + len <= data.len(),
        0 <= a <= b <= len,
    ensures
        data.subrange(pos + a, pos + b) == data.subrange(pos, pos + len).subrange(a, b),
{
    assert(data.subrange(pos + a, pos + b) =~= data.subrange(pos, pos + len).subrange(a, b));
}

proof fn lemma_span_roundtrip(data: Seq<u8>, pos: int, s: IdSpan)
    requires
        0 <= pos,
        pos + spec_enc_span(s).len() <= data.len(),
        data.subrange(pos, pos + spec_enc_span(s).len()) == spec_enc_span(s),
        span_bounded(s),
    ensures
        spec_dec_span(data, pos) == Some((s, pos + spec_enc_span(s).len())),
{
    let e = spec_enc_span(s);
    let v1 = s.low as u64;
    let v2 = s.high as u64;
    let v3 = s.offset;
    let v4 = s.byte_len;
    let v5 = s.items;
    lemma_vlen_bounds(v1);
    lemma_vlen_bounds(v2);
    lemma_vlen_bounds(v3);
    lemma_vlen_bounds(v4);
    lemma_vlen_bounds(v5);
    let l1 = spec_vlen(v1);
    let l2 = spec_vlen(v2);
    let l3 = spec_vlen(v3);
    let l4 = spec_vlen(v4);
    let l5 = spec_vlen(v5);
    let o1 = 0;
    let o2 = l1;
    let o3 = l1 + l2;
    let o4 = l1 + l2 + l3;
    let o5 = l1 + l2 + l3 + l4;
    assert(e.len() == l1 + l2 + l3 + l4 + l5);
    assert(e.subrange(o1, o1 + l1) =~= spec_venc(v1));
    assert(e.subrange(o2, o2 + l2) =~= spec_venc(v2));
    assert(e.subrange(o3, o3 + l3) =~= spec_venc(v3));
    assert(e.subrange(o4, o4 + l4) =~= spec_venc(v4));
    assert(e.subrange(o5, o5 + l5) =~= spec_venc(v5));
    lemma_sub_at(data, pos, e.len() as int, o1, o1 + l1);
    lemma_sub_at(data, pos, e.len() as int, o2, o2 + l2);
    lemma_sub_at(data, pos, e.len() as int, o3, o3 + l3);
    lemma_sub_at(data, pos, e.len() as int, o4, o4 + l4);
    lemma_sub_at(data, pos, e.len() as int, o5, o5 + l5);
    lemma_vdec_of_venc(data, pos + o1, v1);
    lemma_vdec_of_venc(data, pos + o2, v2);
    lemma_vdec_of_venc(data, pos + o3, v3);
    lemma_vdec_of_venc(data, pos + o4, v4);
    lemma_vdec_of_venc(data, pos + o5, v5);
    assert((v1 as i64) == s.low);
    assert((v2 as i64) == s.high);
}

proof fn lemma_spans_roundtrip(data: Seq<u8>, pos: int, spans: Seq<IdSpan>)
    requires
        0 <= pos,
        pos + spec_enc_spans(spans).len() <= data.len(),
        data.subrange(pos, pos + spec_enc_spans(spans).len()) == spec_enc_spans(spans),
        forall|i: int| 0 <= i < spans.len() ==> span_bounded(#[trigger] spans[i]),
    ensures
        spec_dec_spans(data, pos, spans.len() as int) == Some(
            (spans, pos + spec_enc_spans(spans).len()),
        ),
    decreases spans.len(),
{
    if spans.len() == 0 {
        assert(spans =~= Seq::<IdSpan>::empty());
    } else {
        let e = spec_enc_spans(spans);
        let e0 = spec_enc_span(spans[0]);
        let erest = spec_enc_spans(spans.skip(1));
        assert(e == e0 + erest);
        assert(e.subrange(0, e0.len() as int) =~= e0);
        assert(e.subrange(e0.len() as int, e.len() as int) =~= erest);
        lemma_sub_at(data, pos, e.len() as int, 0, e0.len() as int);
        lemma_sub_at(data, pos, e.len() as int, e0.len() as int, e.len() as int);
        lemma_span_roundtrip(data, pos, spans[0]);
        assert(forall|i: int|
            0 <= i < spans.skip(1).len() ==> span_bounded(#[trigger] spans.skip(1)[i]));
        lemma_spans_roundtrip(data, pos + e0.len(), spans.skip(1));
        assert(seq![spans[0]] + spans.skip(1) =~= spans);
    }
}

proof fn lemma_group_roundtrip(data: Seq<u8>, pos: int, spans: Seq<IdSpan>)
    requires
        0 <= pos,
        pos + spec_enc_group(spans).len() <= data.len(),
        data.subrange(pos, pos + spec_enc_group(spans).len()) == spec_enc_group(spans),
        spans.len() < 0x100_0000_0000_0000,
        forall|i: int| 0 <= i < spans.len() ==> span_bounded(#[trigger] spans[i]),
    ensures
        spec_dec_group(data, pos) == Some((spans, pos + spec_enc_group(spans).len())),
{
    let cnt = spans.len() as u64;
    lemma_vlen_bounds(cnt);
    let e = spec_enc_group(spans);
    let lc = spec_vlen(cnt);
    assert(e.subrange(0, lc) =~= spec_venc(cnt));
    assert(e.subrange(lc, e.len() as int) =~= spec_enc_spans(spans));
    lemma_sub_at(data, pos, e.len() as int, 0, lc);
    lemma_sub_at(data, pos, e.len() as int, lc, e.len() as int);
    lemma_vdec_of_venc(data, pos, cnt);
    lemma_spans_roundtrip(data, pos + lc, spans);
}

/// Round trip of the persistence codec: decoding the bytes an index
/// encodes to — wherever they stand in a larger buffer — reproduces that
/// index exactly, for every index within the codec's bounds.  Since the
/// reproduced spans are identical per kind, every point query on the
/// reloaded index answers exactly as on the original.
pub proof fn lemma_table_roundtrip(data: Seq<u8>, pos: int, t: ScanTableV)
    requires
        0 <= pos,
        pos + spec_enc_table(t).len() <= data.len(),
        data.subrange(pos, pos + spec_enc_table(t).len()) == spec_enc_table(t),
        table_bounded(t),
    ensures
        spec_dec_table(data, pos) == Some((t, pos + spec_enc_table(t).len())),
{
    let e = spec_enc_table(t);
    let g1 = spec_enc_group(t.nodes);
    let g2 = spec_enc_group(t.ways);
    let g3 = spec_enc_group(t.relations);
    assert(e == g1 + g2 + g3);
    let o2 = g1.len() as int;
    let o3 = (g1.len() + g2.len()) as int;
    assert(e.subrange(0, o2) =~= g1);
    assert(e.subrange(o2, o3) =~= g2);
    assert(e.subrange(o3, e.len() as int) =~= g3);
    lemma_sub_at(data, pos, e.len() as int, 0, o2);
    lemma_sub_at(data, pos, e.len() as int, o2, o3);
    lemma_sub_at(data, pos, e.len() as int, o3, e.len() as int);
    lemma_group_roundtrip(data, pos, t.nodes);
    lemma_group_roundtrip(data, pos + o2, t.ways);
    lemma_group_roundtrip(data, pos + o3, t.relations);
}

/// The round trip stated over query answers: for every identifier and
/// every kind, the index reloaded from its persisted form answers a point
/// query exactly as the original did.
pub proof fn lemma_roundtrip_preserves_queries(t: ScanTableV, id: i64)
    requires
        table_bounded(t),
    ensures
        spec_dec_table(spec_enc_table(t), 0) matches Some(p) && {
            &&& crate::scan::spec_query(p.0.nodes, id) == crate::scan::spec_query(t.nodes, id)
            &&& crate::scan::spec_query(p.0.ways, id) == crate::scan::spec_query(t.ways, id)
            &&& crate::scan::spec_query(p.0.relations, id) == crate::scan::spec_query(
                t.relations,
                id,
            )
        },
{
    let e = spec_enc_table(t);
    assert(e.subrange(0, e.len() as int) =~= e);
    lemma_table_roundtrip(e, 0, t);
}

/// Appends the encoding of one span list (without its count).
fn write_spans(spans: &Vec<IdSpan>, out: &mut Vec<u8>)
    requires
        old(out)@.len() + spec_enc_spans(spans@).len() <= usize::MAX,
    ensures
        final(out)@ == old(out)@ + spec_enc_spans(spans@),
{
    let ghost base = out@;
    proof {
        assert(spans@.skip(0) =~= spans@);
    }
    let mut i: usize = 0;
    while i < spans.len()
        invariant
            i <= spans@.len(),
            out@ + spec_enc_spans(spans@.skip(i as int)) == base + spec_enc_spans(spans@),
            base.len() + spec_enc_spans(spans@).len() <= usize::MAX,
        decreases spans@.len() - i,
    {
        let s = spans[i];
        proof {
            assert(spans@.skip(i as int)[0] == spans@[i as int]);
            assert(spans@.skip(i as int).skip(1) =~= spans@.skip(i as int + 1));
            lemma_vlen_bounds(s.low as u64);
            lemma_vlen_bounds(s.high as u64);
            lemma_vlen_bounds(s.offset);
            lemma_vlen_bounds(s.byte_len);
            lemma_vlen_bounds(s.items);
            assert(spec_enc_spans(spans@.skip(i as int)) == spec_enc_span(spans@[i as int])
                + spec_enc_spans(spans@.skip(i as int + 1)));
            assert((out@ + spec_enc_spans(spans@.skip(i as int))).len() == (base
                + spec_enc_spans(spans@)).len());
            assert(out@.len() + spec_enc_spans(spans@.skip(i as int)).len() == base.len()
                + spec_enc_spans(spans@).len());
        }
        varint_append(s.low as u64, out);
        varint_append(s.high as u64, out);
        varint_append(s.offset, out);
        varint_append(s.byte_len, out);
        varint_append(s.items, out);
        proof {
            assert(out@ + spec_enc_spans(spans@.skip(i as int + 1)) =~= base + spec_enc_spans(
                spans@,
            ));
        }
        i = i + 1;
    }
    proof {
        assert(spans@.skip(spans@.len() as int) =~= Seq::<IdSpan>::empty());
        assert(out@ + Seq::<u8>::empty() =~= out@);
    }
}

/// Appends the encoding of one kind's group.
fn write_group(spans: &Vec<IdSpan>, out: &mut Vec<u8>)
    requires
        old(out)@.len() + spec_enc_group(spans@).len() <= usize::MAX,
    ensures
        final(out)@ == old(out)@ + spec_enc_group(spans@),
{
    proof {
        lemma_vlen_bounds(spans@.len() as u64);
    }
    varint_append(spans.len() as u64, out);
    write_spans(spans, out);
    proof {
        assert(old(out)@ + spec_venc(spans@.len() as u64) + spec_enc_spans(spans@) =~= old(out)@
            + spec_enc_group(spans@));
    }
}

impl ScanTable {
    /// The byte length of this index's persisted form.
    pub fn count_bytes(&self) -> (r: usize)
        requires
            spec_enc_table(self@).len() <= usize::MAX,
        ensures
            r as int == spec_enc_table(self@).len(),
    {
        let mut buf: Vec<u8> = Vec::new();
        self.write_bytes(&mut buf);
        buf.len()
    }

    /// Appends this index's persisted form to `buf`, returning the byte
    /// count written.
    pub fn write_bytes(&self, buf: &mut Vec<u8>) -> (n: usize)
        requires
            old(buf)@.len() + spec_enc_table(self@).len() <= usize::MAX,
        ensures
            final(buf)@ == old(buf)@ + spec_enc_table(self@),
            n as int == spec_enc_table(self@).len(),
    {
        let start = buf.len();
        write_group(&self.node_spans, buf);
        write_group(&self.way_spans, buf);
        write_group(&self.relation_spans, buf);
        proof {
            assert(old(buf)@ + spec_enc_group(self@.nodes) + spec_enc_group(self@.ways)
                + spec_enc_group(self@.relations) =~= old(buf)@ + spec_enc_table(self@));
        }
        buf.len() - start
    }

    /// This index's persisted form.
    pub fn to_bytes(&self) -> (r: Vec<u8>)
        requires
            spec_enc_table(self@).len() <= usize::MAX,
        ensures
            r@ == spec_enc_table(self@),
    {
        let mut buf: Vec<u8> = Vec::new();
        self.write_bytes(&mut buf);
        proof {
            assert(Seq::<u8>::empty() + spec_enc_table(self@) =~= spec_enc_table(self@));
        }
        buf
    }

    /// Reloads an index from its persisted form, reporting the bytes
    /// consumed and the index; the reloaded index is well formed, its
    /// intervals re-indexed.  Bytes that end inside a varint are a
    /// truncated read.
    pub fn from_bytes(buf: &[u8]) -> (r: Result<(usize, ScanTable), Error>)
        ensures
            match spec_dec_table(buf@, 0) {
                Some(tp) => r matches Ok(p) && p.0 as int == tp.1 && p.1@ == tp.0 && p.1.wf(),
                None => r == Err::<(usize, ScanTable), Error>(Error::TruncatedRead),
            },
    {
        let mut table = ScanTable::default();
        let pos: usize = 0;
        let (nodes, pos) = match read_group(buf, pos) {
            Some(p) => p,
            None => {
                return Err(Error::TruncatedRead);
            },
        };
        let (ways, pos) = match read_group(buf, pos) {
            Some(p) => p,
            None => {
                return Err(Error::TruncatedRead);
            },
        };
        let (relations, pos) = match read_group(buf, pos) {
            Some(p) => p,
            None => {
                return Err(Error::TruncatedRead);
            },
        };
        insert_all(&mut table, crate::element::MemberType::Node, &nodes);
        insert_all(&mut table, crate::element::MemberType::Way, &ways);
        insert_all(&mut table, crate::element::MemberType::Relation, &relations);
        proof {
            assert(Seq::<IdSpan>::empty() + nodes@ =~= nodes@);
            assert(Seq::<IdSpan>::empty() + ways@ =~= ways@);
            assert(Seq::<IdSpan>::empty() + relations@ =~= relations@);
        }
        Ok((pos, table))
    }
}

/// Records a decoded span list under one kind, in order.
fn insert_all(table: &mut ScanTable, kind: crate::element::MemberType, spans: &Vec<IdSpan>)
    requires
        old(table).wf(),
    ensures
        final(table).wf(),
        final(table).spans_of(kind) == old(table).spans_of(kind) + spans@,
        forall|k: crate::element::MemberType|
            k != kind ==> final(table).spans_of(k) == old(table).spans_of(k),
{
    let mut i: usize = 0;
    while i < spans.len()
        invariant
            i <= spans@.len(),
            table.wf(),
            table.spans_of(kind) == old(table).spans_of(kind) + spans@.take(i as int),
            forall|k: crate::element::MemberType|
                k != kind ==> table.spans_of(k) == old(table).spans_of(k),
        decreases spans@.len() - i,
    {
        table.insert_span(kind, spans[i]);
        proof {
            assert((old(table).spans_of(kind) + spans@.take(i as int)).push(spans@[i as int])
                =~= old(table).spans_of(kind) + spans@.take(i as int + 1));
        }
        i = i + 1;
    }
    proof {
        assert(spans@.take(spans@.len() as int) =~= spans@);
    }
}

/// Reads one record at `pos`.
fn read_span(buf: &[u8], pos: usize) -> (r: Option<(IdSpan, usize)>)
    requires
        pos <= buf@.len(),
    ensures
        match spec_dec_span(buf@, pos as int) {
            Some(sp) => r matches Some(p) && p.0 == sp.0 && p.1 as int == sp.1 && pos < p.1
                <= buf@.len(),
            None => r is None,
        },
{
    proof {
        vstd::slice::axiom_spec_len(buf);
        lemma_vdec_range(buf@, pos as int);
    }
    let (low, pos) = match varint_decode(buf, pos) {
        Some((v, n)) => (v as i64, pos + n),
        None => {
            return None;
        },
    };
    proof {
        vstd::slice::axiom_spec_len(buf);
        lemma_vdec_range(buf@, pos as int);
    }
    let (high, pos) = match varint_decode(buf, pos) {
        Some((v, n)) => (v as i64, pos + n),
        None => {
            return None;
        },
    };
    proof {
        vstd::slice::axiom_spec_len(buf);
        lemma_vdec_range(buf@, pos as int);
    }
    let (offset, pos) = match varint_decode(buf, pos) {
        Some((v, n)) => (v, pos + n),
        None => {
            return None;
        },
    };
    proof {
        vstd::slice::axiom_spec_len(buf);
        lemma_vdec_range(buf@, pos as int);
    }
    let (byte_len, pos) = match varint_decode(buf, pos) {
        Some((v, n)) => (v, pos + n),
        None => {
            return None;
        },
    };
    proof {
        vstd::slice::axiom_spec_len(buf);
        lemma_vdec_range(buf@, pos as int);
    }
    let (items, pos) = match varint_decode(buf, pos) {
        Some((v, n)) => (v, pos + n),
        None => {
            return None;
        },
    };
    Some((IdSpan { low, high, offset, byte_len, items }, pos))
}

/// Reads one group at `pos`: the count, then that many records.
fn read_group(buf: &[u8], pos: usize) -> (r: Option<(Vec<IdSpan>, usize)>)
    requires
        pos <= buf@.len(),
    ensures
        match spec_dec_group(buf@, pos as int) {
            Some(gp) => r matches Some(p) && p.0@ == gp.0 && p.1 as int == gp.1 && p.1
                <= buf@.len(),
            None => r is None,
        },
{
    proof {
        vstd::slice::axiom_spec_len(buf);
        lemma_vdec_range(buf@, pos as int);
    }
    let (count, start) = match varint_decode(buf, pos) {
        Some((v, n)) => (v, pos + n),
        None => {
            return None;
        },
    };
    let ghost start_pos = start as int;
    proof {
        if let Some(rest) = spec_dec_spans(buf@, start_pos, count as int) {
            assert(Seq::<IdSpan>::empty() + rest.0 =~= rest.0);
        }
    }
    let mut p = start;
    let mut out: Vec<IdSpan> = Vec::new();
    let mut i: u64 = 0;
    while i < count
        invariant
            i <= count,
            p <= buf@.len(),
            spec_dec_group(buf@, pos as int) == spec_dec_spans(buf@, start_pos, count as int),
            match spec_dec_spans(buf@, p as int, count - i) {
                Some(rest) => spec_dec_spans(buf@, start_pos, count as int) matches Some(whole)
                    && out@ + rest.0 == whole.0 && rest.1 == whole.1,
                None => spec_dec_spans(buf@, start_pos, count as int) is None,
            },
        decreases count - i,
    {
        let sp = match read_span(buf, p) {
            Some(q) => q,
            None => {
                return None;
            },
        };
        let ghost old_out = out@;
        out.push(sp.0);
        proof {
            if let Some(rest2) = spec_dec_spans(buf@, sp.1 as int, count - i - 1) {
                assert(old_out + (seq![sp.0] + rest2.0) =~= out@ + rest2.0);
            }
        }
        p = sp.1;
        i = i + 1;
    }
    proof {
        assert(out@ + Seq::<IdSpan>::empty() =~= out@);
    }
    Some((out, p))
}

} // verus!
