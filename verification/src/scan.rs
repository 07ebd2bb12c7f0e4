//! The range index: identifier intervals mapped to block locations.
//!
//! A scan pass walks a byte range block by block and records, per block,
//! the lowest and highest identifier the block's entities span, the
//! block's payload location, and its entity count, filed under the entity
//! kind the block contributes.  Intervals from different blocks may
//! overlap; a point query returns every recorded span whose interval
//! contains the identifier, in recorded order.  An interval tree over the
//! recorded intervals serves as the stabbing-query accelerator, consulted
//! first to dismiss identifiers no interval contains.
//!
//! One range per block, not per kind within a block: a block is assumed
//! homogeneous in the kind it contributes, and a mixed block is filed
//! whole under the last non-point kind its entities showed.  Point
//! lookups inherit the same assumption and stop scanning a candidate
//! block at its first entity of a foreign kind.

use vstd::prelude::*;

use std::ops::Bound;

use unbounded_interval_tree::interval_tree::IntervalTree;

use crate::element::{
    spec_element_id, spec_element_kind, Element, ElementV, MemberType, Node, Relation, Way,
};
use crate::decode::spec_elems;
use crate::error::Error;
use crate::{spec_block_len, spec_read_blob, spec_read_blob_header, Parser};

verus! {

/// One recorded block: the inclusive identifier interval its entities
/// span, the payload's byte location, and how many entities it held.
#[derive(Clone, Copy, Debug, PartialEq, Eq, Structural)]
pub struct IdSpan {
    /// Lowest identifier observed in the block.
    pub low: i64,
    /// Highest identifier observed in the block.
    pub high: i64,
    /// Byte offset of the block's payload in the source.
    pub offset: u64,
    /// Byte length of the block's payload.
    pub byte_len: u64,
    /// Number of entities the block decoded to.
    pub items: u64,
}

/// The set of inclusive-bound intervals a tree stores, as plain pairs; a
/// tree never stores one interval twice.
pub uninterp spec fn tree_set(t: IntervalTree<i64>) -> Set<(i64, i64)>;

#[verifier::external_type_specification]
#[verifier::external_body]
#[verifier::reject_recursive_types(K)]
pub struct ExIntervalTree<K>(IntervalTree<K>);

/// Relies on IntervalTree::default: a fresh tree stores no interval.
#[verifier::external_body]
fn tree_new() -> (t: IntervalTree<i64>)
    ensures
        tree_set(t) == Set::<(i64, i64)>::empty(),
{
    IntervalTree::default()
}

/// Relies on IntervalTree::insert: inserting the inclusive interval
/// `[lo, hi]` adds exactly that interval to the stored set (an interval
/// already present is not duplicated).
#[verifier::external_body]
fn tree_insert(t: &mut IntervalTree<i64>, lo: i64, hi: i64)
    ensures
        tree_set(*final(t)) == tree_set(*old(t)).insert((lo, hi)),
{
    t.insert((Bound::Included(lo), Bound::Included(hi)));
}

/// Relies on IntervalTree::contains_point: it answers false only when no
/// stored interval contains the point, so a negative answer dismisses the
/// query.
#[verifier::external_body]
fn tree_contains_point(t: &IntervalTree<i64>, id: i64) -> (r: bool)
    ensures
        !r ==> forall|iv: (i64, i64)|
            tree_set(*t).contains(iv) ==> !(iv.0 <= id && id <= iv.1),
{
    t.contains_point(&id)
}

/// Whether a span's inclusive identifier interval contains `id`.
pub open spec fn span_contains(s: IdSpan, id: i64) -> bool {
    s.low <= id && id <= s.high
}

/// The location triple a span answers queries with: payload offset,
/// payload byte length, entity count.
pub open spec fn span_loc(s: IdSpan) -> (u64, u64, u64) {
    (s.offset, s.byte_len, s.items)
}

/// The interval key of a span.
pub open spec fn span_key(s: IdSpan) -> (i64, i64) {
    (s.low, s.high)
}

/// What a point query answers over a span list: the location of every
/// span whose interval contains `id`, in recorded order.
pub open spec fn spec_query(spans: Seq<IdSpan>, id: i64) -> Seq<(u64, u64, u64)>
    decreases spans.len(),
{
    if spans.len() == 0 {
        Seq::empty()
    } else {
        let rest = spec_query(spans.drop_last(), id);
        if span_contains(spans.last(), id) {
            rest.push(span_loc(spans.last()))
        } else {
            rest
        }
    }
}

/// An identifier strictly outside every recorded interval is answered by
/// the empty sequence.
pub proof fn lemma_query_outside_all(spans: Seq<IdSpan>, id: i64)
    requires
        forall|i: int| 0 <= i < spans.len() ==> !span_contains(#[trigger] spans[i], id),
    ensures
        spec_query(spans, id) == Seq::<(u64, u64, u64)>::empty(),
    decreases spans.len(),
{
    if spans.len() > 0 {
        lemma_query_outside_all(spans.drop_last(), id);
    }
}

/// An identifier inside exactly one recorded interval is answered by
/// exactly that interval's location.
pub proof fn lemma_query_single(spans: Seq<IdSpan>, id: i64, k: int)
    requires
        0 <= k < spans.len(),
        span_contains(spans[k], id),
        forall|i: int| 0 <= i < spans.len() && i != k ==> !span_contains(#[trigger] spans[i], id),
    ensures
        spec_query(spans, id) == seq![span_loc(spans[k])],
    decreases spans.len(),
{
    if k == spans.len() - 1 {
        lemma_query_outside_all(spans.drop_last(), id);
        assert(Seq::<(u64, u64, u64)>::empty().push(span_loc(spans[k])) =~= seq![
            span_loc(spans[k]),
        ]);
    } else {
        lemma_query_single(spans.drop_last(), id, k);
        assert(spans.drop_last()[k] == spans[k]);
    }
}

/// A query distributes over concatenation of span lists: the answer over
/// the two lists joined is the answer over the first followed by the
/// answer over the second.
pub proof fn lemma_query_append(a: Seq<IdSpan>, b: Seq<IdSpan>, id: i64)
    ensures
        spec_query(a + b, id) == spec_query(a, id) + spec_query(b, id),
    decreases b.len(),
{
    if b.len() == 0 {
        assert(a + b =~= a);
        assert(spec_query(a, id) + spec_query(b, id) =~= spec_query(a, id));
    } else {
        lemma_query_append(a, b.drop_last(), id);
        assert((a + b).drop_last() =~= a + b.drop_last());
        assert((a + b).last() == b.last());
        if span_contains(b.last(), id) {
            assert(spec_query(a, id) + spec_query(b.drop_last(), id).push(span_loc(b.last()))
                =~= (spec_query(a, id) + spec_query(b.drop_last(), id)).push(
                span_loc(b.last()),
            ));
        }
    }
}

/// Merging two indexes answers every point query with the first index's
/// answer followed by the second's, for every identifier and kind; in
/// particular, an index merged from scans of disjoint ranges covering a
/// whole source answers exactly as the scans contributed, with nothing
/// lost and nothing reordered within either part.
pub proof fn lemma_merge_query(a: ScanTableV, b: ScanTableV, id: i64)
    ensures
        spec_query(a.nodes + b.nodes, id) == spec_query(a.nodes, id) + spec_query(b.nodes, id),
        spec_query(a.ways + b.ways, id) == spec_query(a.ways, id) + spec_query(b.ways, id),
        spec_query(a.relations + b.relations, id) == spec_query(a.relations, id) + spec_query(
            b.relations,
            id,
        ),
{
    lemma_query_append(a.nodes, b.nodes, id);
    lemma_query_append(a.ways, b.ways, id);
    lemma_query_append(a.relations, b.relations, id);
}

proof fn lemma_key_set_push(spans: Seq<IdSpan>, s: IdSpan)
    ensures
        spans.push(s).map_values(|x: IdSpan| span_key(x)).to_set() == spans.map_values(
            |x: IdSpan| span_key(x),
        ).to_set().insert(span_key(s)),
{
    broadcast use vstd::set::group_set_axioms;

    let m = spans.map_values(|x: IdSpan| span_key(x));
    let m2 = spans.push(s).map_values(|x: IdSpan| span_key(x));
    let k = span_key(s);
    assert(m2 =~= m.push(k));
    m.lemma_push_to_set_commute(k);
    assert(m2.to_set() =~= m.to_set().insert(k));
}

/// When no interval in a span list's key set contains `id`, no span in
/// the list does.
proof fn lemma_no_key_no_span(spans: Seq<IdSpan>, ks: Set<(i64, i64)>, id: i64)
    requires
        ks == spans.map_values(|x: IdSpan| span_key(x)).to_set(),
        forall|iv: (i64, i64)| #[trigger] ks.contains(iv) ==> !(iv.0 <= id && id <= iv.1),
    ensures
        forall|i: int| 0 <= i < spans.len() ==> !span_contains(#[trigger] spans[i], id),
{
    broadcast use vstd::set::group_set_axioms;

    let m = spans.map_values(|x: IdSpan| span_key(x));
    assert forall|i: int| 0 <= i < spans.len() implies !span_contains(spans[i], id) by {
        assert(m[i] == span_key(spans[i]));
        assert(m.contains(m[i]));
        assert(m.to_set().contains(m[i]));
        assert(m.to_set().contains(span_key(spans[i])));
    }
}

/// A prefix stays a prefix when the longer list grows at its end.
proof fn lemma_prefix_push(a: Seq<IdSpan>, b: Seq<IdSpan>, s: IdSpan)
    requires
        a.is_prefix_of(b),
    ensures
        a.is_prefix_of(b.push(s)),
{
    assert(b.push(s).subrange(0, a.len() as int) =~= a);
}

/// Mathematical image of a [`ScanTable`]: the recorded spans of each
/// kind, in recorded order.
pub ghost struct ScanTableV {
    pub nodes: Seq<IdSpan>,
    pub ways: Seq<IdSpan>,
    pub relations: Seq<IdSpan>,
}

/// The range index over one or more scanned byte ranges: per entity kind,
/// the recorded spans and an interval tree over their keys.
#[derive(Debug)]
pub struct ScanTable {
    /// Interval tree over the recorded point spans' keys.
    pub nodes: IntervalTree<i64>,
    /// Interval tree over the recorded polyline spans' keys.
    pub ways: IntervalTree<i64>,
    /// Interval tree over the recorded relation spans' keys.
    pub relations: IntervalTree<i64>,
    /// Recorded point spans, in recorded order.
    pub node_spans: Vec<IdSpan>,
    /// Recorded polyline spans, in recorded order.
    pub way_spans: Vec<IdSpan>,
    /// Recorded relation spans, in recorded order.
    pub relation_spans: Vec<IdSpan>,
}

impl View for ScanTable {
    type V = ScanTableV;

    open spec fn view(&self) -> ScanTableV {
        ScanTableV { nodes: self.node_spans@, ways: self.way_spans@, relations: self.relation_spans@ }
    }
}

impl ScanTable {
    /// The trees index exactly the recorded spans' intervals.
    pub open spec fn wf(&self) -> bool {
        &&& tree_set(self.nodes) == self.node_spans@.map_values(|x: IdSpan| span_key(x)).to_set()
        &&& tree_set(self.ways) == self.way_spans@.map_values(|x: IdSpan| span_key(x)).to_set()
        &&& tree_set(self.relations) == self.relation_spans@.map_values(
            |x: IdSpan| span_key(x),
        ).to_set()
    }

    /// The recorded spans of one kind.
    pub open spec fn spans_of(&self, kind: MemberType) -> Seq<IdSpan> {
        match kind {
            MemberType::Node => self@.nodes,
            MemberType::Way => self@.ways,
            MemberType::Relation => self@.relations,
        }
    }

    /// Records one block's span under its kind, appending to that kind's
    /// list and indexing its interval.
    pub fn insert_span(&mut self, kind: MemberType, span: IdSpan)
        requires
            old(self).wf(),
        ensures
            final(self).wf(),
            final(self).spans_of(kind) == old(self).spans_of(kind).push(span),
            forall|k: MemberType| k != kind ==> final(self).spans_of(k) == old(self).spans_of(k),
    {
        match kind {
            MemberType::Node => {
                proof {
                    lemma_key_set_push(self.node_spans@, span);
                }
                tree_insert(&mut self.nodes, span.low, span.high);
                self.node_spans.push(span);
            },
            MemberType::Way => {
                proof {
                    lemma_key_set_push(self.way_spans@, span);
                }
                tree_insert(&mut self.ways, span.low, span.high);
                self.way_spans.push(span);
            },
            MemberType::Relation => {
                proof {
                    lemma_key_set_push(self.relation_spans@, span);
                }
                tree_insert(&mut self.relations, span.low, span.high);
                self.relation_spans.push(span);
            },
        }
    }

    /// The recorded locations of every point-entity block, in recorded
    /// order.
    pub fn get_node_blob_offsets(&self) -> (r: Vec<(u64, u64, u64)>)
        ensures
            r@ == self@.nodes.map_values(|s: IdSpan| span_loc(s)),
    {
        spans_locs(&self.node_spans)
    }

    /// The recorded locations of every polyline block, in recorded order.
    pub fn get_way_blob_offsets(&self) -> (r: Vec<(u64, u64, u64)>)
        ensures
            r@ == self@.ways.map_values(|s: IdSpan| span_loc(s)),
    {
        spans_locs(&self.way_spans)
    }

    /// The recorded locations of every relation block, in recorded order.
    pub fn get_relation_blob_offsets(&self) -> (r: Vec<(u64, u64, u64)>)
        ensures
            r@ == self@.relations.map_values(|s: IdSpan| span_loc(s)),
    {
        spans_locs(&self.relation_spans)
    }

    /// The locations of every recorded point-entity block whose interval
    /// contains `id`, in recorded order.  The interval tree is consulted
    /// first: when it holds no containing interval the answer is empty
    /// without touching the span list.
    pub fn get_node_blob_offsets_for_id(&self, id: i64) -> (r: Vec<(u64, u64, u64)>)
        requires
            self.wf(),
        ensures
            r@ == spec_query(self@.nodes, id),
    {
        if !tree_contains_point(&self.nodes, id) {
            proof {
                lemma_no_key_no_span(self.node_spans@, tree_set(self.nodes), id);
                lemma_query_outside_all(self.node_spans@, id);
            }
            Vec::new()
        } else {
            spans_query(&self.node_spans, id)
        }
    }

    /// The locations of every recorded polyline block whose interval
    /// contains `id`, in recorded order.
    pub fn get_way_blob_offsets_for_id(&self, id: i64) -> (r: Vec<(u64, u64, u64)>)
        requires
            self.wf(),
        ensures
            r@ == spec_query(self@.ways, id),
    {
        if !tree_contains_point(&self.ways, id) {
            proof {
                lemma_no_key_no_span(self.way_spans@, tree_set(self.ways), id);
                lemma_query_outside_all(self.way_spans@, id);
            }
            Vec::new()
        } else {
            spans_query(&self.way_spans, id)
        }
    }

    /// The locations of every recorded relation block whose interval
    /// contains `id`, in recorded order.
    pub fn get_relation_blob_offsets_for_id(&self, id: i64) -> (r: Vec<(u64, u64, u64)>)
        requires
            self.wf(),
        ensures
            r@ == spec_query(self@.relations, id),
    {
        if !tree_contains_point(&self.relations, id) {
            proof {
                lemma_no_key_no_span(self.relation_spans@, tree_set(self.relations), id);
                lemma_query_outside_all(self.relation_spans@, id);
            }
            Vec::new()
        } else {
            spans_query(&self.relation_spans, id)
        }
    }

    /// Unions another index into this one: per kind, the other's spans
    /// are appended in their recorded order.  Nothing is deduplicated;
    /// merging indexes built over overlapping ranges double-counts.
    pub fn extend(&mut self, other: &ScanTable)
        requires
            old(self).wf(),
            other.wf(),
        ensures
            final(self).wf(),
            final(self)@.nodes == old(self)@.nodes + other@.nodes,
            final(self)@.ways == old(self)@.ways + other@.ways,
            final(self)@.relations == old(self)@.relations + other@.relations,
    {
        extend_kind(&mut self.nodes, &mut self.node_spans, &other.node_spans);
        extend_kind(&mut self.ways, &mut self.way_spans, &other.way_spans);
        extend_kind(&mut self.relations, &mut self.relation_spans, &other.relation_spans);
    }
}

impl Default for ScanTable {
    /// An index with nothing recorded.
    fn default() -> (r: ScanTable)
        ensures
            r.wf(),
            r@.nodes.len() == 0,
            r@.ways.len() == 0,
            r@.relations.len() == 0,
    {
        let t = ScanTable {
            nodes: tree_new(),
            ways: tree_new(),
            relations: tree_new(),
            node_spans: Vec::new(),
            way_spans: Vec::new(),
            relation_spans: Vec::new(),
        };
        proof {
            assert(Seq::<IdSpan>::empty().map_values(|x: IdSpan| span_key(x)).to_set()
                =~= Set::<(i64, i64)>::empty());
            assert(t.node_spans@ =~= Seq::<IdSpan>::empty());
            assert(t.way_spans@ =~= Seq::<IdSpan>::empty());
            assert(t.relation_spans@ =~= Seq::<IdSpan>::empty());
        }
        t
    }
}

/// The location triples of a span list, in order.
fn spans_locs(spans: &Vec<IdSpan>) -> (r: Vec<(u64, u64, u64)>)
    ensures
        r@ == spans@.map_values(|s: IdSpan| span_loc(s)),
{
    let mut out: Vec<(u64, u64, u64)> = Vec::new();
    let mut i: usize = 0;
    while i < spans.len()
        invariant
            i <= spans@.len(),
            out@ == spans@.take(i as int).map_values(|s: IdSpan| span_loc(s)),
        decreases spans@.len() - i,
    {
        let s = spans[i];
        out.push((s.offset, s.byte_len, s.items));
        proof {
            assert(out@ =~= spans@.take(i + 1).map_values(|s: IdSpan| span_loc(s)));
        }
        i = i + 1;
    }
    proof {
        assert(spans@.take(spans@.len() as int) =~= spans@);
    }
    out
}

/// Scans a span list for every span containing `id`, in order.
fn spans_query(spans: &Vec<IdSpan>, id: i64) -> (r: Vec<(u64, u64, u64)>)
    ensures
        r@ == spec_query(spans@, id),
{
    let mut out: Vec<(u64, u64, u64)> = Vec::new();
    let mut i: usize = 0;
    while i < spans.len()
        invariant
            i <= spans@.len(),
            out@ == spec_query(spans@.take(i as int), id),
        decreases spans@.len() - i,
    {
        let s = spans[i];
        proof {
            assert(spans@.take(i + 1).drop_last() =~= spans@.take(i as int));
            assert(spans@.take(i + 1).last() == spans@[i as int]);
        }
        if s.low <= id && id <= s.high {
            out.push((s.offset, s.byte_len, s.items));
        }
        i = i + 1;
    }
    proof {
        assert(spans@.take(spans@.len() as int) =~= spans@);
    }
    out
}

/// Appends one kind's spans from another index, keeping that kind's tree
/// in step.
fn extend_kind(tree: &mut IntervalTree<i64>, spans: &mut Vec<IdSpan>, other: &Vec<IdSpan>)
    requires
        tree_set(*old(tree)) == old(spans)@.map_values(|x: IdSpan| span_key(x)).to_set(),
    ensures
        final(spans)@ == old(spans)@ + other@,
        tree_set(*final(tree)) == final(spans)@.map_values(|x: IdSpan| span_key(x)).to_set(),
{
    let mut i: usize = 0;
    while i < other.len()
        invariant
            i <= other@.len(),
            spans@ == old(spans)@ + other@.take(i as int),
            tree_set(*tree) == spans@.map_values(|x: IdSpan| span_key(x)).to_set(),
        decreases other@.len() - i,
    {
        let s = other[i];
        proof {
            lemma_key_set_push(spans@, s);
        }
        tree_insert(tree, s.low, s.high);
        spans.push(s);
        proof {
            assert(spans@ =~= old(spans)@ + other@.take(i + 1));
        }
        i = i + 1;
    }
    proof {
        assert(old(spans)@ + other@.take(other@.len() as int) =~= old(spans)@ + other@);
    }
}


/// What one block at `offset` contributes to the index: nothing for a
/// metadata block or a block without entities, one kind-filed span
/// otherwise, or the exact failure of reading, decoding or
/// reconstructing it.
#[verifier::opaque]
pub open spec fn spec_scan_block(data: Seq<u8>, offset: int) -> Result<
    Option<(MemberType, IdSpan)>,
    Error,
> {
    match spec_read_blob_header(data, offset) {
        Err(e) => Err(e),
        Ok(sh) => match spec_read_blob(data, offset + sh.0, sh.1.datasize as int) {
            Err(e) => Err(e),
            Ok(b) => if sh.1.block_type == osmheader_type() {
                Ok(None)
            } else {
                match crate::decode::spec_decode_primitive(b) {
                    Err(e) => Err(e),
                    Ok(pbv) => match crate::decode::spec_decode(pbv) {
                        None => Err(Error::MalformedBlock),
                        Some(es) => Ok(
                            spec_block_span(es, (offset + sh.0) as u64, sh.1.datasize as u64),
                        ),
                    },
                }
            },
        },
    }
}

/// The span sequence one block contributes: one element or none.
pub open spec fn spec_opt_span(opt: Option<(MemberType, IdSpan)>) -> Seq<(MemberType, IdSpan)> {
    match opt {
        Some(ks) => seq![ks],
        None => Seq::<(MemberType, IdSpan)>::empty(),
    }
}

/// The kind-filed spans a scan over `[offset, end)` records, in block
/// order, or the failure that aborts it.  A block that starts before
/// `end` is processed whole even when it ends past `end`.
pub open spec fn spec_scan(data: Seq<u8>, offset: int, end: int) -> Result<
    Seq<(MemberType, IdSpan)>,
    Error,
>
    decreases end - offset,
{
    if offset >= end {
        Ok(Seq::empty())
    } else {
        match spec_scan_block(data, offset) {
            Err(e) => Err(e),
            Ok(opt) => {
                let this = spec_opt_span(opt);
                match spec_block_len(data, offset) {
                    None => Ok(this),
                    Some(len) => if len > 0 && offset + len < end {
                        match spec_scan(data, offset + len, end) {
                            Err(e) => Err(e),
                            Ok(rest) => Ok(this + rest),
                        }
                    } else {
                        Ok(this)
                    },
                }
            },
        }
    }
}
/// The spans a scan filed under one kind, in recorded order.
pub open spec fn spec_kind_spans(spans: Seq<(MemberType, IdSpan)>, k: MemberType) -> Seq<IdSpan>
    decreases spans.len(),
{
    if spans.len() == 0 {
        Seq::empty()
    } else {
        let rest = spec_kind_spans(spans.drop_last(), k);
        if spans.last().0 == k {
            rest.push(spans.last().1)
        } else {
            rest
        }
    }
}

/// Kind filing distributes over concatenation of scan results.
pub proof fn lemma_kind_spans_append(
    a: Seq<(MemberType, IdSpan)>,
    b: Seq<(MemberType, IdSpan)>,
    k: MemberType,
)
    ensures
        spec_kind_spans(a + b, k) == spec_kind_spans(a, k) + spec_kind_spans(b, k),
    decreases b.len(),
{
    if b.len() == 0 {
        assert(a + b =~= a);
        assert(spec_kind_spans(a, k) + spec_kind_spans(b, k) =~= spec_kind_spans(a, k));
    } else {
        lemma_kind_spans_append(a, b.drop_last(), k);
        assert((a + b).drop_last() =~= a + b.drop_last());
        assert((a + b).last() == b.last());
        if b.last().0 == k {
            assert(spec_kind_spans(a, k) + spec_kind_spans(b.drop_last(), k).push(b.last().1)
                =~= (spec_kind_spans(a, k) + spec_kind_spans(b.drop_last(), k)).push(b.last().1));
        }
    }
}

/// Whether successive whole blocks lead from `from` exactly to `to`: the
/// condition under which `to` splits a byte range on a block boundary.
pub open spec fn spec_reaches(data: Seq<u8>, from: int, to: int) -> bool
    decreases to - from,
{
    if from == to {
        true
    } else if from > to {
        false
    } else {
        match spec_block_len(data, from) {
            None => false,
            Some(l) => l > 0 && from + l <= to && spec_reaches(data, from + l, to),
        }
    }
}

/// Scanning a byte range in two pieces split on a block boundary records
/// exactly what scanning it whole records: the first piece's spans
/// followed by the second's.
pub proof fn lemma_scan_split(data: Seq<u8>, start: int, mid: int, end: int)
    requires
        start <= mid <= end,
        spec_reaches(data, start, mid),
        spec_scan(data, start, mid) is Ok,
        spec_scan(data, mid, end) is Ok,
    ensures
        spec_scan(data, start, end) == Ok::<Seq<(MemberType, IdSpan)>, Error>(
            spec_scan(data, start, mid).unwrap() + spec_scan(data, mid, end).unwrap(),
        ),
    decreases mid - start,
{
    if start == mid {
        assert(spec_scan(data, start, mid).unwrap() + spec_scan(data, mid, end).unwrap()
            =~= spec_scan(data, mid, end).unwrap());
    } else {
        let l = spec_block_len(data, start).unwrap();
        let this = spec_opt_span(spec_scan_block(data, start).unwrap());
        if start + l < mid {
            lemma_scan_split(data, start + l, mid, end);
            let a2 = spec_scan(data, start + l, mid).unwrap();
            let b = spec_scan(data, mid, end).unwrap();
            assert(this + (a2 + b) =~= (this + a2) + b);
        } else {
            assert(start + l == mid);
            let b = spec_scan(data, mid, end).unwrap();
            if mid < end {
                assert(this + b =~= spec_scan(data, start, mid).unwrap() + b);
            } else {
                assert(b =~= Seq::<(MemberType, IdSpan)>::empty());
                assert(this + b =~= this);
            }
        }
    }
}

/// An index built over a whole byte range answers every point query
/// exactly as the merge of indexes built over its two halves, split on a
/// block boundary: for every identifier and kind, the whole scan's answer
/// is the first half's followed by the second half's.
pub proof fn lemma_split_build_queries(data: Seq<u8>, start: int, mid: int, end: int, id: i64)
    requires
        start <= mid <= end,
        spec_reaches(data, start, mid),
        spec_scan(data, start, mid) is Ok,
        spec_scan(data, mid, end) is Ok,
    ensures
        ({
            let a = spec_scan(data, start, mid).unwrap();
            let b = spec_scan(data, mid, end).unwrap();
            spec_scan(data, start, end) matches Ok(whole) && {
                &&& spec_query(spec_kind_spans(whole, MemberType::Node), id) == spec_query(
                    spec_kind_spans(a, MemberType::Node),
                    id,
                ) + spec_query(spec_kind_spans(b, MemberType::Node), id)
                &&& spec_query(spec_kind_spans(whole, MemberType::Way), id) == spec_query(
                    spec_kind_spans(a, MemberType::Way),
                    id,
                ) + spec_query(spec_kind_spans(b, MemberType::Way), id)
                &&& spec_query(spec_kind_spans(whole, MemberType::Relation), id) == spec_query(
                    spec_kind_spans(a, MemberType::Relation),
                    id,
                ) + spec_query(spec_kind_spans(b, MemberType::Relation), id)
            }
        }),
{
    lemma_scan_split(data, start, mid, end);
    let a = spec_scan(data, start, mid).unwrap();
    let b = spec_scan(data, mid, end).unwrap();
    lemma_kind_spans_append(a, b, MemberType::Node);
    lemma_kind_spans_append(a, b, MemberType::Way);
    lemma_kind_spans_append(a, b, MemberType::Relation);
    lemma_query_append(spec_kind_spans(a, MemberType::Node), spec_kind_spans(b, MemberType::Node), id);
    lemma_query_append(spec_kind_spans(a, MemberType::Way), spec_kind_spans(b, MemberType::Way), id);
    lemma_query_append(
        spec_kind_spans(a, MemberType::Relation),
        spec_kind_spans(b, MemberType::Relation),
        id,
    );
}

/// The kind and identifier span one block's entity list contributes to
/// the index: the lowest and highest identifier over all entities, filed
/// under the kind of the last non-point entity (point, when the block
/// holds only points).
pub open spec fn spec_span_fold(items: Seq<ElementV>, n: int) -> (MemberType, i64, i64)
    decreases n,
{
    if n <= 0 {
        (MemberType::Node, i64::MAX, i64::MIN)
    } else {
        let pre = spec_span_fold(items, n - 1);
        let e = items[n - 1];
        let k = match e {
            ElementV::Node(_) => pre.0,
            ElementV::Way(_) => MemberType::Way,
            ElementV::Relation(_) => MemberType::Relation,
        };
        let id = spec_element_id(e);
        (
            k,
            if id < pre.1 {
                id
            } else {
                pre.1
            },
            if id > pre.2 {
                id
            } else {
                pre.2
            },
        )
    }
}

/// The span a block's entities record, or nothing for a block without
/// entities.
pub open spec fn spec_block_span(
    items: Seq<ElementV>,
    offset: u64,
    byte_len: u64,
) -> Option<(MemberType, IdSpan)> {
    if items.len() == 0 {
        None
    } else {
        let f = spec_span_fold(items, items.len() as int);
        Some(
            (
                f.0,
                IdSpan {
                    low: f.1,
                    high: f.2,
                    offset,
                    byte_len,
                    items: items.len() as u64,
                },
            ),
        )
    }
}

/// Computes the kind and identifier span of one decoded block.
fn span_of_items(items: &Vec<Element>, offset: u64, byte_len: u64) -> (r: Option<
    (MemberType, IdSpan),
>)
    ensures
        r == spec_block_span(spec_elems(items@), offset, byte_len),
{
    if items.len() == 0 {
        return None;
    }
    let mut etype = MemberType::Node;
    let mut min_id = i64::MAX;
    let mut max_id = i64::MIN;
    let mut i: usize = 0;
    while i < items.len()
        invariant
            i <= items@.len(),
            spec_span_fold(spec_elems(items@), i as int) == (etype, min_id, max_id),
        decreases items@.len() - i,
    {
        let item = &items[i];
        match item {
            Element::Node(_) => {},
            Element::Way(_) => {
                etype = MemberType::Way;
            },
            Element::Relation(_) => {
                etype = MemberType::Relation;
            },
        }
        let id = item.id();
        if id < min_id {
            min_id = id;
        }
        if id > max_id {
            max_id = id;
        }
        i = i + 1;
    }
    Some(
        (
            etype,
            IdSpan { low: min_id, high: max_id, offset, byte_len, items: items.len() as u64 },
        ),
    )
}

/// The declared kind of the leading metadata block.
pub open spec fn osmheader_type() -> Seq<u8> {
    seq![79u8, 83u8, 77u8, 72u8, 101u8, 97u8, 100u8, 101u8, 114u8]
}

/// Whether a header record declares the metadata block kind.
fn is_osmheader(t: &Vec<u8>) -> (r: bool)
    ensures
        r <==> t@ == osmheader_type(),
{
    let r = t.len() == 9 && t[0] == 79 && t[1] == 83 && t[2] == 77 && t[3] == 72 && t[4] == 101
        && t[5] == 97 && t[6] == 100 && t[7] == 101 && t[8] == 114;
    proof {
        if r {
            assert(t@ =~= osmheader_type());
        }
        if t@ == osmheader_type() {
            assert(t@.len() == 9);
        }
    }
    r
}

/// The entity a candidate block's list yields for a lookup, scanning in
/// stored order from index `i`: the first entity of the requested kind
/// with the requested identifier; the scan stops at the first entity of a
/// foreign kind, since a block is assumed to store one kind contiguously.
pub open spec fn spec_scan_items(items: Seq<ElementV>, kind: MemberType, id: i64, i: int) -> Option<
    ElementV,
>
    decreases items.len() - i,
{
    if i < 0 || i >= items.len() {
        None
    } else {
        let e = items[i];
        if spec_element_kind(e) != kind {
            None
        } else if spec_element_id(e) == id {
            Some(e)
        } else {
            spec_scan_items(items, kind, id, i + 1)
        }
    }
}

/// What re-reading and fully re-decoding one candidate block yields.
pub open spec fn spec_lookup_block(data: Seq<u8>, offset: u64, byte_len: u64) -> Result<
    Seq<ElementV>,
    Error,
> {
    if byte_len as int > usize::MAX as int {
        Err(Error::TruncatedRead)
    } else {
        match spec_read_blob(data, offset as int, byte_len as int) {
            Err(e) => Err(e),
            Ok(b) => match crate::decode::spec_decode_primitive(b) {
                Err(e) => Err(e),
                Ok(pb) => match crate::decode::spec_decode(pb) {
                    None => Err(Error::MalformedBlock),
                    Some(es) => Ok(es),
                },
            },
        }
    }
}

/// The result of a point lookup over the candidate locations from index
/// `ci` on: the first exact match across candidates, `None` when no
/// candidate yields one, or the first error re-reading or re-decoding a
/// candidate.
pub open spec fn spec_lookup(
    data: Seq<u8>,
    cands: Seq<(u64, u64, u64)>,
    kind: MemberType,
    id: i64,
    ci: int,
) -> Result<Option<ElementV>, Error>
    decreases cands.len() - ci,
{
    if ci < 0 || ci >= cands.len() {
        Ok(None)
    } else {
        match spec_lookup_block(data, cands[ci].0, cands[ci].1) {
            Err(e) => Err(e),
            Ok(es) => match spec_scan_items(es, kind, id, 0) {
                Some(e) => Ok(Some(e)),
                None => spec_lookup(data, cands, kind, id, ci + 1),
            },
        }
    }
}
/// A match found by the lookup scan is of the requested kind and
/// identifier.
proof fn lemma_scan_items_kind(items: Seq<ElementV>, kind: MemberType, id: i64, i: int)
    ensures
        match spec_scan_items(items, kind, id, i) {
            Some(ev) => spec_element_kind(ev) == kind && spec_element_id(ev) == id,
            None => true,
        },
    decreases items.len() - i,
{
    if 0 <= i < items.len() && spec_element_kind(items[i]) == kind && spec_element_id(items[i])
        != id {
        lemma_scan_items_kind(items, kind, id, i + 1);
    }
}

/// Scans one decoded block's entities for the requested kind and
/// identifier, in stored order, stopping at the first entity of a foreign
/// kind; reports where the match stands.
fn scan_items_index(items: &Vec<Element>, kind: MemberType, id: i64) -> (r: Option<usize>)
    ensures
        match spec_scan_items(spec_elems(items@), kind, id, 0) {
            Some(ev) => r matches Some(ii) && ii < items@.len() && items@[ii as int]@ == ev,
            None => r is None,
        },
{
    let ghost es = spec_elems(items@);
    let mut ii: usize = 0;
    while ii < items.len()
        invariant
            ii <= items@.len(),
            es == spec_elems(items@),
            spec_scan_items(es, kind, id, 0) == spec_scan_items(es, kind, id, ii as int),
        decreases items@.len() - ii,
    {
        let item = &items[ii];
        if item.kind() != kind {
            proof {
                assert(spec_scan_items(es, kind, id, ii as int) is None);
            }
            return None;
        }
        if item.id() == id {
            proof {
                assert(spec_scan_items(es, kind, id, ii as int) == Some(es[ii as int]));
            }
            return Some(ii);
        }
        ii = ii + 1;
    }
    None
}

/// A scanner: a block reader joined with the range index it fills.
pub struct Scan {
    pub parser: Parser,
    pub table: ScanTable,
}

impl Scan {
    /// A scanner with an empty index.
    pub fn new(parser: Parser) -> (r: Scan)
        ensures
            r.table.wf(),
            r.table@.nodes.len() == 0 && r.table@.ways.len() == 0 && r.table@.relations.len() == 0,
            r.parser == parser,
    {
        Scan { parser, table: ScanTable::default() }
    }

    /// A scanner over an index built earlier (for example one reloaded
    /// from its persisted form).
    pub fn from_table(parser: Parser, table: ScanTable) -> (r: Scan)
        requires
            table.wf(),
        ensures
            r.table == table,
            r.parser == parser,
            r.table.wf(),
    {
        Scan { parser, table }
    }

    /// Walks the blocks of `[start, end)` in framing order and records
    /// one span per entity-carrying block.  Metadata blocks are skipped
    /// by their declared kind, wherever they stand.  The index only ever
    /// grows, and each kind's earlier spans keep their order and places;
    /// a failing block aborts the scan with the spans recorded so far
    /// kept.
    /// Reads, decodes and indexes the single block at `offset`, returning
    /// the bytes it consumed; a metadata block or an empty block leaves
    /// the index unchanged.
    /// Reads, decodes and indexes the single block at `offset`, returning
    /// the bytes it consumed; a metadata block or an empty block leaves
    /// the index unchanged.
    #[verifier::rlimit(100)]
    #[verifier::spinoff_prover]
    fn scan_block(&mut self, offset: u64) -> (r: Result<u64, Error>)
        requires
            old(self).table.wf(),
        ensures
            final(self).table.wf(),
            final(self).parser == old(self).parser,
            old(self).table@.nodes.is_prefix_of(final(self).table@.nodes),
            old(self).table@.ways.is_prefix_of(final(self).table@.ways),
            old(self).table@.relations.is_prefix_of(final(self).table@.relations),
            match spec_scan_block(old(self).parser.data@, offset as int) {
                Ok(opt) => {
                    &&& r matches Ok(len) && spec_block_len(old(self).parser.data@, offset as int)
                        == Some(len as int) && 4 <= len && offset + len <= old(
                        self,
                    ).parser.data@.len()
                    &&& final(self).table@.nodes == old(self).table@.nodes + spec_kind_spans(
                        spec_opt_span(opt),
                        MemberType::Node,
                    )
                    &&& final(self).table@.ways == old(self).table@.ways + spec_kind_spans(
                        spec_opt_span(opt),
                        MemberType::Way,
                    )
                    &&& final(self).table@.relations == old(self).table@.relations
                        + spec_kind_spans(spec_opt_span(opt), MemberType::Relation)
                },
                Err(e) => r == Err::<u64, Error>(e),
            },
    {
        proof {
            reveal(spec_scan_block);
            vstd::std_specs::vec::axiom_spec_len(&self.parser.data);
            crate::lemma_read_blob_header_bounds(self.parser.data@, offset as int);
        }
        let ghost data = self.parser.data@;
        let (blob_header_len, blob_header) = match self.parser.read_blob_header(offset) {
            Ok(p) => p,
            Err(e) => {
                return Err(e);
            },
        };
        let blob_offset = offset + blob_header_len;
        let blob_len = blob_header.datasize as usize;
        proof {
            crate::lemma_read_blob_bounds(data, blob_offset as int, blob_len as int);
        }
        let blob = match self.parser.read_blob(blob_offset, blob_len) {
            Ok(b) => b,
            Err(e) => {
                return Err(e);
            },
        };
        let len = blob_header_len + blob_header.datasize as u64;
        proof {
            reveal(crate::spec_read_fileblock);
            assert(spec_block_len(data, offset as int) == Some(len as int));
        }
        if is_osmheader(&blob_header.block_type) {
            proof {
                assert(spec_scan_block(data, offset as int) == Ok::<
                    Option<(MemberType, IdSpan)>,
                    Error,
                >(None));
                assert(self.table@.nodes + Seq::<IdSpan>::empty() =~= self.table@.nodes);
                assert(self.table@.ways + Seq::<IdSpan>::empty() =~= self.table@.ways);
                assert(self.table@.relations + Seq::<IdSpan>::empty() =~= self.table@.relations);
            }
            return Ok(len);
        }
        let block = match blob.decode_primitive() {
            Ok(b) => b,
            Err(e) => {
                return Err(e);
            },
        };
        let items = match block.decode() {
            Ok(v) => v,
            Err(e) => {
                return Err(e);
            },
        };
        match span_of_items(&items, blob_offset, blob_header.datasize as u64) {
            Some((kind, span)) => {
                let ghost pre = self.table@;
                self.table.insert_span(kind, span);
                proof {
                    assert(self.table.spans_of(MemberType::Node) == self.table@.nodes);
                    assert(self.table.spans_of(MemberType::Way) == self.table@.ways);
                    assert(self.table.spans_of(MemberType::Relation) == self.table@.relations);
                    lemma_prefix_push(old(self).table@.nodes, pre.nodes, span);
                    lemma_prefix_push(old(self).table@.ways, pre.ways, span);
                    lemma_prefix_push(old(self).table@.relations, pre.relations, span);
                    assert(spec_scan_block(data, offset as int) == Ok::<
                        Option<(MemberType, IdSpan)>,
                        Error,
                    >(Some((kind, span))));
                    let this = spec_opt_span(Some((kind, span)));
                    assert(this =~= seq![(kind, span)]);
                    assert(seq![(kind, span)].drop_last() =~= Seq::<
                        (MemberType, IdSpan),
                    >::empty());
                    assert(seq![(kind, span)].last() == (kind, span));
                    assert(spec_kind_spans(Seq::<(MemberType, IdSpan)>::empty(), MemberType::Node)
                        =~= Seq::<IdSpan>::empty());
                    assert(spec_kind_spans(Seq::<(MemberType, IdSpan)>::empty(), MemberType::Way)
                        =~= Seq::<IdSpan>::empty());
                    assert(spec_kind_spans(
                        Seq::<(MemberType, IdSpan)>::empty(),
                        MemberType::Relation,
                    ) =~= Seq::<IdSpan>::empty());
                    if kind == MemberType::Node {
                        assert(spec_kind_spans(this, MemberType::Node) =~= Seq::<
                            IdSpan,
                        >::empty().push(span));
                        assert(self.table@.nodes =~= pre.nodes.push(span));
                        assert(self.table@.nodes =~= pre.nodes + spec_kind_spans(
                            this,
                            MemberType::Node,
                        ));
                    } else {
                        assert(spec_kind_spans(this, MemberType::Node) =~= Seq::<
                            IdSpan,
                        >::empty());
                        assert(self.table@.nodes =~= pre.nodes + spec_kind_spans(
                            this,
                            MemberType::Node,
                        ));
                    }
                    if kind == MemberType::Way {
                        assert(spec_kind_spans(this, MemberType::Way) =~= Seq::<
                            IdSpan,
                        >::empty().push(span));
                        assert(self.table@.ways =~= pre.ways.push(span));
                        assert(self.table@.ways =~= pre.ways + spec_kind_spans(
                            this,
                            MemberType::Way,
                        ));
                    } else {
                        assert(spec_kind_spans(this, MemberType::Way) =~= Seq::<IdSpan>::empty());
                        assert(self.table@.ways =~= pre.ways + spec_kind_spans(
                            this,
                            MemberType::Way,
                        ));
                    }
                    if kind == MemberType::Relation {
                        assert(spec_kind_spans(this, MemberType::Relation) =~= Seq::<
                            IdSpan,
                        >::empty().push(span));
                        assert(self.table@.relations =~= pre.relations.push(span));
                        assert(self.table@.relations =~= pre.relations + spec_kind_spans(
                            this,
                            MemberType::Relation,
                        ));
                    } else {
                        assert(spec_kind_spans(this, MemberType::Relation) =~= Seq::<
                            IdSpan,
                        >::empty());
                        assert(self.table@.relations =~= pre.relations + spec_kind_spans(
                            this,
                            MemberType::Relation,
                        ));
                    }
                }
            },
            None => {
                proof {
                    assert(spec_scan_block(data, offset as int) == Ok::<
                        Option<(MemberType, IdSpan)>,
                        Error,
                    >(None));
                    assert(self.table@.nodes + Seq::<IdSpan>::empty() =~= self.table@.nodes);
                    assert(self.table@.ways + Seq::<IdSpan>::empty() =~= self.table@.ways);
                    assert(self.table@.relations + Seq::<IdSpan>::empty()
                        =~= self.table@.relations);
                }
            },
        }
        Ok(len)
    }

    /// Walks the blocks of `[start, end)` in framing order and records
    /// one span per entity-carrying block.  Metadata blocks are skipped
    /// by their declared kind, wherever they stand.  The index only ever
    /// grows — each kind's earlier spans keep their order and places —
    /// and on success it has gained exactly the spans the byte range
    /// encodes, in block order; a failing block aborts the scan with the
    /// spans recorded so far kept.
    #[verifier::rlimit(100)]
    #[verifier::spinoff_prover]
    pub fn scan(&mut self, start: u64, end: u64) -> (r: Result<(), Error>)
        requires
            old(self).table.wf(),
        ensures
            final(self).table.wf(),
            final(self).parser == old(self).parser,
            old(self).table@.nodes.is_prefix_of(final(self).table@.nodes),
            old(self).table@.ways.is_prefix_of(final(self).table@.ways),
            old(self).table@.relations.is_prefix_of(final(self).table@.relations),
            match spec_scan(old(self).parser.data@, start as int, end as int) {
                Ok(spans) => {
                    &&& r is Ok
                    &&& final(self).table@.nodes == old(self).table@.nodes + spec_kind_spans(
                        spans,
                        MemberType::Node,
                    )
                    &&& final(self).table@.ways == old(self).table@.ways + spec_kind_spans(
                        spans,
                        MemberType::Way,
                    )
                    &&& final(self).table@.relations == old(self).table@.relations
                        + spec_kind_spans(spans, MemberType::Relation)
                },
                Err(e) => r == Err::<(), Error>(e),
            },
    {
        let ghost data = self.parser.data@;
        proof {
            if let Ok(whole) = spec_scan(data, start as int, end as int) {
                assert(old(self).table@.nodes + spec_kind_spans(whole, MemberType::Node)
                    =~= self.table@.nodes + spec_kind_spans(whole, MemberType::Node));
            }
        }
        let mut offset = start;
        while offset < end
            invariant
                self.table.wf(),
                self.parser == old(self).parser,
                data == old(self).parser.data@,
                old(self).table@.nodes.is_prefix_of(self.table@.nodes),
                old(self).table@.ways.is_prefix_of(self.table@.ways),
                old(self).table@.relations.is_prefix_of(self.table@.relations),
                match spec_scan(data, offset as int, end as int) {
                    Ok(rest) => spec_scan(data, start as int, end as int) matches Ok(whole) && {
                        &&& self.table@.nodes + spec_kind_spans(rest, MemberType::Node) == old(
                            self,
                        ).table@.nodes + spec_kind_spans(whole, MemberType::Node)
                        &&& self.table@.ways + spec_kind_spans(rest, MemberType::Way) == old(
                            self,
                        ).table@.ways + spec_kind_spans(whole, MemberType::Way)
                        &&& self.table@.relations + spec_kind_spans(rest, MemberType::Relation)
                            == old(self).table@.relations + spec_kind_spans(
                            whole,
                            MemberType::Relation,
                        )
                    },
                    Err(e) => spec_scan(data, start as int, end as int) == Err::<
                        Seq<(MemberType, IdSpan)>,
                        Error,
                    >(e),
                },
            decreases end - offset,
        {
            let ghost pre_table = self.table@;
            let len = match self.scan_block(offset) {
                Ok(l) => l,
                Err(e) => {
                    return Err(e);
                },
            };
            proof {
                let off = offset as int;
                let this = spec_opt_span(spec_scan_block(data, off).unwrap());
                if len < end - offset {
                    if let Ok(rest2) = spec_scan(data, off + len as int, end as int) {
                        assert(spec_scan(data, off, end as int) == Ok::<
                            Seq<(MemberType, IdSpan)>,
                            Error,
                        >(this + rest2));
                        lemma_kind_spans_append(this, rest2, MemberType::Node);
                        lemma_kind_spans_append(this, rest2, MemberType::Way);
                        lemma_kind_spans_append(this, rest2, MemberType::Relation);
                        if let Ok(whole) = spec_scan(data, start as int, end as int) {
                            assert(self.table@.nodes + spec_kind_spans(rest2, MemberType::Node)
                                =~= old(self).table@.nodes + spec_kind_spans(
                                whole,
                                MemberType::Node,
                            ));
                            assert(self.table@.ways + spec_kind_spans(rest2, MemberType::Way)
                                =~= old(self).table@.ways + spec_kind_spans(
                                whole,
                                MemberType::Way,
                            ));
                            assert(self.table@.relations + spec_kind_spans(
                                rest2,
                                MemberType::Relation,
                            ) =~= old(self).table@.relations + spec_kind_spans(
                                whole,
                                MemberType::Relation,
                            ));
                        }
                    }
                } else {
                    assert(spec_scan(data, off, end as int) == Ok::<
                        Seq<(MemberType, IdSpan)>,
                        Error,
                    >(this));
                    if let Ok(whole) = spec_scan(data, start as int, end as int) {
                        assert(spec_kind_spans(
                            Seq::<(MemberType, IdSpan)>::empty(),
                            MemberType::Node,
                        ) =~= Seq::<IdSpan>::empty());
                        assert(self.table@.nodes + Seq::<IdSpan>::empty() =~= old(
                            self,
                        ).table@.nodes + spec_kind_spans(whole, MemberType::Node));
                        assert(self.table@.ways + Seq::<IdSpan>::empty() =~= old(
                            self,
                        ).table@.ways + spec_kind_spans(whole, MemberType::Way));
                        assert(self.table@.relations + Seq::<IdSpan>::empty() =~= old(
                            self,
                        ).table@.relations + spec_kind_spans(whole, MemberType::Relation));
                    }
                }
            }
            if len < end - offset {
                offset = offset + len;
            } else {
                offset = end;
            }
        }
        Ok(())
    }

    /// The recorded locations of every point-entity block.
    pub fn get_node_blob_offsets(&self) -> (r: Vec<(u64, u64, u64)>)
        ensures
            r@ == self.table@.nodes.map_values(|s: IdSpan| span_loc(s)),
    {
        self.table.get_node_blob_offsets()
    }

    /// The candidate locations for a point identifier.
    pub fn get_node_blob_offsets_for_id(&self, id: i64) -> (r: Vec<(u64, u64, u64)>)
        requires
            self.table.wf(),
        ensures
            r@ == spec_query(self.table@.nodes, id),
    {
        self.table.get_node_blob_offsets_for_id(id)
    }

    /// Looks a point entity up by identifier: every candidate block the
    /// index shortlists is re-read and re-decoded, its entities scanned
    /// in stored order up to the first entity of a foreign kind, and the
    /// first exact match is returned.  `None` means no candidate held the
    /// identifier; errors re-reading or re-decoding a candidate propagate
    /// instead.
    pub fn get_node(&self, id: i64) -> (r: Result<Option<Node>, Error>)
        requires
            self.table.wf(),
        ensures
            match spec_lookup(
                self.parser.data@,
                spec_query(self.table@.nodes, id),
                MemberType::Node,
                id,
                0,
            ) {
                Ok(opt) => r matches Ok(ro) && match opt {
                    Some(ev) => ro matches Some(n) && ElementV::Node(n@) == ev,
                    None => ro is None,
                },
                Err(e) => r == Err::<Option<Node>, Error>(e),
            },
    {
        let ghost data = self.parser.data@;
        let candidates = self.get_node_blob_offsets_for_id(id);
        let ghost cands = candidates@;
        let mut ci: usize = 0;
        while ci < candidates.len()
            invariant
                ci <= candidates@.len(),
                candidates@ == cands,
                cands == spec_query(self.table@.nodes, id),
                data == self.parser.data@,
                spec_lookup(data, cands, MemberType::Node, id, 0) == spec_lookup(
                    data,
                    cands,
                    MemberType::Node,
                    id,
                    ci as int,
                ),
            decreases candidates@.len() - ci,
        {
            let (offset, byte_len, _count) = candidates[ci];
            match self.lookup_in_block(offset, byte_len) {
                Ok(mut items) => {
                    let ghost es = spec_elems(items@);
                    match scan_items_index(&items, MemberType::Node, id) {
                        Some(ii) => {
                            proof {
                                lemma_scan_items_kind(es, MemberType::Node, id, 0);
                            }
                            match items.remove(ii) {
                                Element::Node(n) => {
                                    return Ok(Some(n));
                                },
                                _ => {
                                    return Err(Error::MalformedBlock);
                                },
                            }
                        },
                        None => {
                            proof {
                                assert(spec_lookup(data, cands, MemberType::Node, id, ci as int)
                                    == spec_lookup(data, cands, MemberType::Node, id, ci + 1));
                            }
                        },
                    }
                },
                Err(e) => {
                    return Err(e);
                },
            }
            ci = ci + 1;
        }
        Ok(None)
    }

    /// The recorded locations of every polyline block.
    pub fn get_way_blob_offsets(&self) -> (r: Vec<(u64, u64, u64)>)
        ensures
            r@ == self.table@.ways.map_values(|s: IdSpan| span_loc(s)),
    {
        self.table.get_way_blob_offsets()
    }

    /// The candidate locations for a polyline identifier.
    pub fn get_way_blob_offsets_for_id(&self, id: i64) -> (r: Vec<(u64, u64, u64)>)
        requires
            self.table.wf(),
        ensures
            r@ == spec_query(self.table@.ways, id),
    {
        self.table.get_way_blob_offsets_for_id(id)
    }

    /// Looks a polyline up by identifier: every candidate block the
    /// index shortlists is re-read and re-decoded, its entities scanned
    /// in stored order up to the first entity of a foreign kind, and the
    /// first exact match is returned.  `None` means no candidate held the
    /// identifier; errors re-reading or re-decoding a candidate propagate
    /// instead.
    pub fn get_way(&self, id: i64) -> (r: Result<Option<Way>, Error>)
        requires
            self.table.wf(),
        ensures
            match spec_lookup(
                self.parser.data@,
                spec_query(self.table@.ways, id),
                MemberType::Way,
                id,
                0,
            ) {
                Ok(opt) => r matches Ok(ro) && match opt {
                    Some(ev) => ro matches Some(w) && ElementV::Way(w@) == ev,
                    None => ro is None,
                },
                Err(e) => r == Err::<Option<Way>, Error>(e),
            },
    {
        let ghost data = self.parser.data@;
        let candidates = self.get_way_blob_offsets_for_id(id);
        let ghost cands = candidates@;
        let mut ci: usize = 0;
        while ci < candidates.len()
            invariant
                ci <= candidates@.len(),
                candidates@ == cands,
                cands == spec_query(self.table@.ways, id),
                data == self.parser.data@,
                spec_lookup(data, cands, MemberType::Way, id, 0) == spec_lookup(
                    data,
                    cands,
                    MemberType::Way,
                    id,
                    ci as int,
                ),
            decreases candidates@.len() - ci,
        {
            let (offset, byte_len, _count) = candidates[ci];
            match self.lookup_in_block(offset, byte_len) {
                Ok(mut items) => {
                    let ghost es = spec_elems(items@);
                    match scan_items_index(&items, MemberType::Way, id) {
                        Some(ii) => {
                            proof {
                                lemma_scan_items_kind(es, MemberType::Way, id, 0);
                            }
                            match items.remove(ii) {
                                Element::Way(w) => {
                                    return Ok(Some(w));
                                },
                                _ => {
                                    return Err(Error::MalformedBlock);
                                },
                            }
                        },
                        None => {
                            proof {
                                assert(spec_lookup(data, cands, MemberType::Way, id, ci as int)
                                    == spec_lookup(data, cands, MemberType::Way, id, ci + 1));
                            }
                        },
                    }
                },
                Err(e) => {
                    return Err(e);
                },
            }
            ci = ci + 1;
        }
        Ok(None)
    }

    /// The recorded locations of every relation block.
    pub fn get_relation_blob_offsets(&self) -> (r: Vec<(u64, u64, u64)>)
        ensures
            r@ == self.table@.relations.map_values(|s: IdSpan| span_loc(s)),
    {
        self.table.get_relation_blob_offsets()
    }

    /// The candidate locations for a relation identifier.
    pub fn get_relation_blob_offsets_for_id(&self, id: i64) -> (r: Vec<(u64, u64, u64)>)
        requires
            self.table.wf(),
        ensures
            r@ == spec_query(self.table@.relations, id),
    {
        self.table.get_relation_blob_offsets_for_id(id)
    }

    /// Looks a relation up by identifier: every candidate block the
    /// index shortlists is re-read and re-decoded, its entities scanned
    /// in stored order up to the first entity of a foreign kind, and the
    /// first exact match is returned.  `None` means no candidate held the
    /// identifier; errors re-reading or re-decoding a candidate propagate
    /// instead.
    pub fn get_relation(&self, id: i64) -> (r: Result<Option<Relation>, Error>)
        requires
            self.table.wf(),
        ensures
            match spec_lookup(
                self.parser.data@,
                spec_query(self.table@.relations, id),
                MemberType::Relation,
                id,
                0,
            ) {
                Ok(opt) => r matches Ok(ro) && match opt {
                    Some(ev) => ro matches Some(rel) && ElementV::Relation(rel@) == ev,
                    None => ro is None,
                },
                Err(e) => r == Err::<Option<Relation>, Error>(e),
            },
    {
        let ghost data = self.parser.data@;
        let candidates = self.get_relation_blob_offsets_for_id(id);
        let ghost cands = candidates@;
        let mut ci: usize = 0;
        while ci < candidates.len()
            invariant
                ci <= candidates@.len(),
                candidates@ == cands,
                cands == spec_query(self.table@.relations, id),
                data == self.parser.data@,
                spec_lookup(data, cands, MemberType::Relation, id, 0) == spec_lookup(
                    data,
                    cands,
                    MemberType::Relation,
                    id,
                    ci as int,
                ),
            decreases candidates@.len() - ci,
        {
            let (offset, byte_len, _count) = candidates[ci];
            match self.lookup_in_block(offset, byte_len) {
                Ok(mut items) => {
                    let ghost es = spec_elems(items@);
                    match scan_items_index(&items, MemberType::Relation, id) {
                        Some(ii) => {
                            proof {
                                lemma_scan_items_kind(es, MemberType::Relation, id, 0);
                            }
                            match items.remove(ii) {
                                Element::Relation(rel) => {
                                    return Ok(Some(rel));
                                },
                                _ => {
                                    return Err(Error::MalformedBlock);
                                },
                            }
                        },
                        None => {
                            proof {
                                assert(spec_lookup(data, cands, MemberType::Relation, id, ci as int)
                                    == spec_lookup(data, cands, MemberType::Relation, id, ci + 1));
                            }
                        },
                    }
                },
                Err(e) => {
                    return Err(e);
                },
            }
            ci = ci + 1;
        }
        Ok(None)
    }

    /// Re-reads and re-decodes one candidate block for a lookup.
    fn lookup_in_block(&self, offset: u64, byte_len: u64) -> (r: Result<Vec<Element>, Error>)
        ensures
            match spec_lookup_block(self.parser.data@, offset, byte_len) {
                Ok(es) => r matches Ok(v) && spec_elems(v@) == es,
                Err(e) => r == Err::<Vec<Element>, Error>(e),
            },
    {
        if byte_len > usize::MAX as u64 {
            return Err(Error::TruncatedRead);
        }
        let blob = self.parser.read_blob(offset, byte_len as usize)?;
        let block = blob.decode_primitive()?;
        block.decode()
    }
}

} // verus!
