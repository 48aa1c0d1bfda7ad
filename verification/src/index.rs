//! The spatial index builder: bulk-loading a balanced query tree from an
//! array's non-null geometries and answering point queries against their
//! cached envelopes.
//!
//! Coordinates are opaque 64-bit patterns everywhere in this crate, so the
//! index works in an integer key space: each pattern is mapped by an
//! order-preserving re-encoding (sign bit flipped for one half, all bits for
//! the other) to a signed 64-bit key, and envelopes are computed as key
//! minima and maxima. Under this map the key order of two encoded values
//! agrees with the standard total order of the values they encode, so
//! containment queries in key space answer containment over the encoded
//! coordinates. The tree itself is the outside r-tree crate, kept behind
//! trusted wrappers; the envelope computation and the bulk-load bookkeeping
//! around it are verified.

use vstd::prelude::*;

use rstar::RTree;
use rstar::primitives::{GeomWithData, Rectangle};

use crate::multipoint::{MultiPoint, MultiPointArray};
use crate::polygon::PolygonArray;
use crate::coords::CoordBuffer;

verus! {

/// The order-preserving signed key of one coordinate pattern: patterns with
/// a clear top bit keep their value, patterns with a set top bit are
/// reflected below zero, so larger keys mean larger encoded values.
pub open spec fn spec_coord_key(bits: u64) -> i64 {
    if bits < 0x8000000000000000 {
        bits as i64
    } else {
        (0x7FFFFFFFFFFFFFFF - bits) as i64
    }
}

/// Computes the order-preserving signed key of one coordinate pattern.
pub fn coord_key(bits: u64) -> (k: i64)
    ensures
        k == spec_coord_key(bits),
{
    if bits < 0x8000000000000000 {
        bits as i64
    } else {
        let d: u64 = bits - 0x8000000000000000;
        -1i64 - (d as i64)
    }
}

/// The key-space envelope of a non-empty coordinate sequence: least and
/// greatest key per axis, as (x low, y low, x high, y high).
pub open spec fn spec_envelope(s: Seq<(u64, u64)>) -> (i64, i64, i64, i64)
    decreases s.len(),
{
    if s.len() <= 1 {
        let kx = spec_coord_key(s[0].0);
        let ky = spec_coord_key(s[0].1);
        (kx, ky, kx, ky)
    } else {
        let rest = spec_envelope(s.drop_last());
        let kx = spec_coord_key(s.last().0);
        let ky = spec_coord_key(s.last().1);
        (
            if kx < rest.0 {
                kx
            } else {
                rest.0
            },
            if ky < rest.1 {
                ky
            } else {
                rest.1
            },
            if kx > rest.2 {
                kx
            } else {
                rest.2
            },
            if ky > rest.3 {
                ky
            } else {
                rest.3
            },
        )
    }
}

/// A non-empty sequence's envelope never has a low corner above its high
/// corner.
pub proof fn lemma_envelope_ordered(s: Seq<(u64, u64)>)
    requires
        s.len() >= 1,
    ensures
        spec_envelope(s).0 <= spec_envelope(s).2,
        spec_envelope(s).1 <= spec_envelope(s).3,
    decreases s.len(),
{
    if s.len() > 1 {
        lemma_envelope_ordered(s.drop_last());
    }
}

/// Whether a key-space rectangle contains a key-space point, with closed
/// bounds on every side.
pub open spec fn rect_contains(r: (i64, i64, i64, i64), x: i64, y: i64) -> bool {
    r.0 <= x <= r.2 && r.1 <= y <= r.3
}

/// The identifier-to-envelope table a bulk-load batch describes; a later
/// entry with the same identifier would win, but batches are built with
/// distinct identifiers.
pub open spec fn entries_of(items: Seq<(i64, i64, i64, i64, usize)>) -> Map<
    usize,
    (i64, i64, i64, i64),
>
    decreases items.len(),
{
    if items.len() == 0 {
        Map::empty()
    } else {
        entries_of(items.drop_last()).insert(
            items.last().4,
            (items.last().0, items.last().1, items.last().2, items.last().3),
        )
    }
}

/// A bulk-loaded balanced spatial tree over key-space rectangles, each
/// carrying the array index it came from. The tree is the outside r-tree
/// structure; what it holds is described by `index_entries`.
#[verifier::external_body]
pub struct SpatialIndex {
    tree: RTree<GeomWithData<Rectangle<[i64; 2]>, usize>>,
}

/// What a spatial index holds: its identifier-to-envelope table.
pub uninterp spec fn index_entries(t: &SpatialIndex) -> Map<usize, (i64, i64, i64, i64)>;

/// Relies on rstar's `RTree::bulk_load`: the balanced tree built from a
/// batch holds exactly the given elements, here one axis-aligned rectangle
/// per entry with its identifier as attached data. The identifiers must be
/// distinct and each rectangle's corners ordered, so that the table is a
/// faithful picture of the tree's contents.
#[verifier::external_body]
fn index_bulk_load(items: Vec<(i64, i64, i64, i64, usize)>) -> (t: SpatialIndex)
    requires
        forall|j1: int, j2: int| 0 <= j1 < j2 < items@.len() ==> (#[trigger] items@[j1]).4 != (
        #[trigger] items@[j2]).4,
        forall|j: int| 0 <= j < items@.len() ==> (#[trigger] items@[j]).0 <= items@[j].2
            && items@[j].1 <= items@[j].3,
    ensures
        index_entries(&t) == entries_of(items@),
{
    let elements: Vec<GeomWithData<Rectangle<[i64; 2]>, usize>> = items
        .into_iter()
        .map(|it| GeomWithData::new(Rectangle::from_corners([it.0, it.1], [it.2, it.3]), it.4))
        .collect();
    SpatialIndex { tree: RTree::bulk_load(elements) }
}

/// Relies on rstar's `RTree::locate_all_at_point`: it yields every stored
/// element whose envelope contains the query point, each once, and no other;
/// a rectangle's envelope is itself, with closed bounds on every side.
#[verifier::external_body]
fn index_locate(t: &SpatialIndex, x: i64, y: i64) -> (r: Vec<usize>)
    ensures
        r@.no_duplicates(),
        forall|id: usize| #[trigger] r@.contains(id) <==> (index_entries(t).contains_key(id)
            && rect_contains(index_entries(t)[id], x, y)),
{
    t.tree.locate_all_at_point([x, y]).map(|g| g.data).collect()
}

/// The key-space envelope of a coordinate range of a buffer, or nothing for
/// an empty range.
pub fn coords_range_envelope(coords: &CoordBuffer, start: usize, end: usize) -> (r: Option<
    (i64, i64, i64, i64),
>)
    requires
        coords.wf(),
        start <= end <= coords.spec_len(),
    ensures
        match r {
            Option::None => start == end,
            Option::Some(env) => start < end && env == spec_envelope(
                coords.coords().subrange(start as int, end as int),
            ),
        },
{
    if start == end {
        return Option::None;
    }
    let ghost span = coords.coords().subrange(start as int, end as int);
    let first: (u64, u64) = coords.get(start);
    let mut xl: i64 = coord_key(first.0);
    let mut yl: i64 = coord_key(first.1);
    let mut xh: i64 = xl;
    let mut yh: i64 = yl;
    let mut k: usize = start + 1;
    while k < end
        invariant
            coords.wf(),
            start < end <= coords.spec_len(),
            span == coords.coords().subrange(start as int, end as int),
            start < k <= end,
            (xl, yl, xh, yh) == spec_envelope(span.subrange(0, k - start)),
        decreases end - k,
    {
        let c: (u64, u64) = coords.get(k);
        let kx: i64 = coord_key(c.0);
        let ky: i64 = coord_key(c.1);
        proof {
            let pre = span.subrange(0, k - start);
            let now = span.subrange(0, k + 1 - start);
            assert(now.drop_last() =~= pre);
            assert(now.last() == span[k - start]);
            assert(span[k - start] == coords.coords()[k as int]);
        }
        if kx < xl {
            xl = kx;
        }
        if ky < yl {
            yl = ky;
        }
        if kx > xh {
            xh = kx;
        }
        if ky > yh {
            yh = ky;
        }
        k = k + 1;
    }
    proof {
        assert(span.subrange(0, end - start) =~= span);
    }
    Option::Some((xl, yl, xh, yh))
}

/// The key-space envelope of one non-empty multi-point, or nothing for an
/// empty one.
pub fn multipoint_envelope(m: &MultiPoint<'_>) -> (r: Option<(i64, i64, i64, i64)>)
    requires
        m.wf(),
    ensures
        match r {
            Option::None => m.verts().len() == 0,
            Option::Some(env) => m.verts().len() > 0 && env == spec_envelope(m.verts()),
        },
{
    let (s, e) = m.geom_offsets.start_end(m.geom_index);
    coords_range_envelope(m.coords, s, e)
}

/// The envelope table of an array: one entry per slot that is valid and
/// non-empty, keyed by the slot index. Null slots are excluded entirely, and
/// empty geometries have no envelope to index.
pub open spec fn array_env_map(a: &MultiPointArray) -> Map<usize, (i64, i64, i64, i64)> {
    Map::new(
        |i: usize| 0 <= i < a.spec_len() && match a.view()[i as int] {
            Option::Some(s) => s.len() > 0,
            Option::None => false,
        },
        |i: usize| spec_envelope(a.view()[i as int]->0),
    )
}

impl MultiPointArray {
    /// Bulk-loads a balanced spatial tree from this array's valid, non-empty
    /// geometries, each wrapped with its cached key-space envelope and its
    /// slot index; one-shot construction for many point queries afterward.
    pub fn rstar_tree(&self) -> (t: SpatialIndex)
        requires
            self.wf(),
        ensures
            index_entries(&t) == array_env_map(self),
    {
        let n: usize = self.len();
        let mut items: Vec<(i64, i64, i64, i64, usize)> = Vec::new();
        let mut k: usize = 0;
        while k < n
            invariant
                self.wf(),
                n == self.spec_len(),
                k <= n,
                forall|j1: int, j2: int| 0 <= j1 < j2 < items@.len() ==> (
                #[trigger] items@[j1]).4 < (#[trigger] items@[j2]).4,
                forall|j: int| 0 <= j < items@.len() ==> (#[trigger] items@[j]).4 < k,
                forall|j: int| 0 <= j < items@.len() ==> (#[trigger] items@[j]).0 <= items@[j].2
                    && items@[j].1 <= items@[j].3,
                entries_of(items@) =~= array_env_map(self).restrict(
                    Set::new(|i: usize| 0 <= i < k),
                ),
            decreases n - k,
        {
            let ghost pre = items@;
            if !self.is_null(k) {
                let m: MultiPoint<'_> = self.value(k);
                match multipoint_envelope(&m) {
                    Option::Some(env) => {
                        proof {
                            lemma_envelope_ordered(m.verts());
                        }
                        items.push((env.0, env.1, env.2, env.3, k));
                        proof {
                            assert(items@.drop_last() =~= pre);
                        }
                    },
                    Option::None => {},
                }
            }
            proof {
                assert(entries_of(items@) =~= array_env_map(self).restrict(
                    Set::new(|i: usize| 0 <= i < k + 1),
                ));
            }
            k = k + 1;
        }
        proof {
            assert(array_env_map(self).restrict(Set::new(|i: usize| 0 <= i < n))
                =~= array_env_map(self));
        }
        index_bulk_load(items)
    }
}

/// The contiguous coordinate range geometry `i` of a polygon array spans:
/// every position of every one of its rings.
pub open spec fn polygon_slot_span(a: &PolygonArray, i: int) -> Seq<(u64, u64)> {
    a.coords.coords().subrange(
        a.ring_offsets.offsets()[a.geom_offsets.offsets()[i]],
        a.ring_offsets.offsets()[a.geom_offsets.offsets()[i + 1]],
    )
}

/// The envelope table of a polygon array: one entry per slot that is valid
/// and touches at least one coordinate, keyed by the slot index.
pub open spec fn polygon_env_map(a: &PolygonArray) -> Map<usize, (i64, i64, i64, i64)> {
    Map::new(
        |i: usize| 0 <= i < a.spec_len() && !(a.view()[i as int] is None)
            && polygon_slot_span(a, i as int).len() > 0,
        |i: usize| spec_envelope(polygon_slot_span(a, i as int)),
    )
}

impl PolygonArray {
    /// Bulk-loads a balanced spatial tree from this array's valid geometries
    /// that touch at least one coordinate, each wrapped with its cached
    /// key-space envelope and its slot index.
    pub fn rstar_tree(&self) -> (t: SpatialIndex)
        requires
            self.wf(),
        ensures
            index_entries(&t) == polygon_env_map(self),
    {
        let n: usize = self.len();
        let mut items: Vec<(i64, i64, i64, i64, usize)> = Vec::new();
        let mut k: usize = 0;
        while k < n
            invariant
                self.wf(),
                n == self.spec_len(),
                k <= n,
                forall|j1: int, j2: int| 0 <= j1 < j2 < items@.len() ==> (
                #[trigger] items@[j1]).4 < (#[trigger] items@[j2]).4,
                forall|j: int| 0 <= j < items@.len() ==> (#[trigger] items@[j]).4 < k,
                forall|j: int| 0 <= j < items@.len() ==> (#[trigger] items@[j]).0 <= items@[j].2
                    && items@[j].1 <= items@[j].3,
                entries_of(items@) =~= polygon_env_map(self).restrict(
                    Set::new(|i: usize| 0 <= i < k),
                ),
            decreases n - k,
        {
            let ghost pre = items@;
            if !self.is_null(k) {
                proof {
                    self.geom_offsets.lemma_window_bounds();
                    self.ring_offsets.lemma_window_bounds();
                }
                let (rs, re) = self.geom_offsets.start_end(k);
                let cstart: usize = self.ring_offsets.offset_at(rs);
                let cend: usize = self.ring_offsets.offset_at(re);
                proof {
                    assert(self.ring_offsets.offsets()[rs as int]
                        <= self.ring_offsets.offsets()[re as int]);
                }
                match coords_range_envelope(&self.coords, cstart, cend) {
                    Option::Some(env) => {
                        proof {
                            lemma_envelope_ordered(polygon_slot_span(self, k as int));
                        }
                        items.push((env.0, env.1, env.2, env.3, k));
                        proof {
                            assert(items@.drop_last() =~= pre);
                        }
                    },
                    Option::None => {},
                }
            }
            proof {
                assert(entries_of(items@) =~= polygon_env_map(self).restrict(
                    Set::new(|i: usize| 0 <= i < k + 1),
                ));
            }
            k = k + 1;
        }
        proof {
            assert(polygon_env_map(self).restrict(Set::new(|i: usize| 0 <= i < n))
                =~= polygon_env_map(self));
        }
        index_bulk_load(items)
    }
}

/// All slot indices whose indexed envelope contains the query point, given
/// as coordinate bit patterns; exactly the entries of the table that match,
/// each once, in no promised order.
pub fn locate_ids(t: &SpatialIndex, x_bits: u64, y_bits: u64) -> (r: Vec<usize>)
    ensures
        r@.no_duplicates(),
        forall|id: usize| #[trigger] r@.contains(id) <==> (index_entries(t).contains_key(id)
            && rect_contains(
            index_entries(t)[id],
            spec_coord_key(x_bits),
            spec_coord_key(y_bits),
        )),
{
    let x: i64 = coord_key(x_bits);
    let y: i64 = coord_key(y_bits);
    index_locate(t, x, y)
}


/// Law: a point query against an index bulk-loaded from a multi-point array
/// answers exactly over the array's contents. `rstar_tree` promises the
/// index's table is the array's envelope table and `locate_ids` promises the
/// returned identifiers are exactly the matching table entries; composed,
/// the query returns precisely the valid, non-empty slots whose key-space
/// envelope contains the query point, each once.
pub proof fn lemma_array_query_exact(
    a: &MultiPointArray,
    t: &SpatialIndex,
    ids: Seq<usize>,
    x_bits: u64,
    y_bits: u64,
)
    requires
        a.wf(),
        index_entries(t) == array_env_map(a),
        ids.no_duplicates(),
        forall|id: usize| #[trigger] ids.contains(id) <==> (index_entries(t).contains_key(id)
            && rect_contains(
            index_entries(t)[id],
            spec_coord_key(x_bits),
            spec_coord_key(y_bits),
        )),
    ensures
        forall|id: usize| #[trigger] ids.contains(id) <==> {
            &&& 0 <= id < a.spec_len()
            &&& a.view()[id as int] matches Option::Some(s) && s.len() > 0
            &&& rect_contains(
                spec_envelope(a.view()[id as int]->0),
                spec_coord_key(x_bits),
                spec_coord_key(y_bits),
            )
        },
{
    assert forall|id: usize| #[trigger] ids.contains(id) <==> {
        &&& 0 <= id < a.spec_len()
        &&& a.view()[id as int] matches Option::Some(s) && s.len() > 0
        &&& rect_contains(
            spec_envelope(a.view()[id as int]->0),
            spec_coord_key(x_bits),
            spec_coord_key(y_bits),
        )
    } by {
        assert(array_env_map(a).contains_key(id) <==> (0 <= id < a.spec_len()
            && match a.view()[id as int] {
            Option::Some(s) => s.len() > 0,
            Option::None => false,
        }));
        if array_env_map(a).contains_key(id) {
            assert(array_env_map(a)[id] == spec_envelope(a.view()[id as int]->0));
        }
    }
}
} // verus!
