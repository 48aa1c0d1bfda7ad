//! An immutable array of polygon geometries: a coordinate buffer, a ring
//! offset buffer delimiting each ring's positions, a geometry offset buffer
//! delimiting each polygon's rings, and an optional validity bitmap. The
//! first ring of a polygon is its exterior; the rest are interior holes.

use vstd::prelude::*;

use crate::GeoArrowError;
use crate::coords::{CoordBuffer, CoordType};
use crate::geom::{LineStringGeom, MultiPointGeom, PolygonGeom};
use crate::linestring::LineString;
use crate::multipoint::{MultiPointArray, multipoint_geoms_view};
use crate::offsets::OffsetBuffer;
use crate::validity::{Validity, slot_valid};

verus! {

/// An immutable array of polygon geometries.
#[derive(Debug)]
pub struct PolygonArray {
    /// The positions of every ring of every geometry, back to back.
    pub coords: CoordBuffer,
    /// Offsets into the ring sequence where each geometry starts.
    pub geom_offsets: OffsetBuffer,
    /// Offsets into the coordinate buffer where each ring starts.
    pub ring_offsets: OffsetBuffer,
    /// Optional per-geometry null markers.
    pub validity: Option<Validity>,
}

/// A borrowed view of one polygon of an array: the backing buffers plus the
/// geometry's index.
#[derive(Debug)]
pub struct Polygon<'a> {
    /// The array's coordinate buffer.
    pub coords: &'a CoordBuffer,
    /// The array's geometry offsets, delimiting rings per geometry.
    pub geom_offsets: &'a OffsetBuffer,
    /// The array's ring offsets, delimiting coordinates per ring.
    pub ring_offsets: &'a OffsetBuffer,
    /// Which geometry of the array this view addresses.
    pub geom_index: usize,
}

impl PolygonArray {
    /// Well-formedness: each buffer is well-formed, every ring's range lies
    /// inside the coordinate buffer, every geometry's range lies inside the
    /// ring sequence, and the bitmap covers the logical length exactly.
    pub open spec fn wf(&self) -> bool {
        &&& self.coords.wf()
        &&& self.geom_offsets.wf()
        &&& self.ring_offsets.wf()
        &&& self.ring_offsets.last_offset() <= self.coords.spec_len()
        &&& self.geom_offsets.last_offset() <= self.ring_offsets.spec_len()
        &&& match self.validity {
            Option::None => true,
            Option::Some(v) => v.wf() && v.spec_len() == self.geom_offsets.spec_len(),
        }
    }

    /// The number of geometries in this array.
    pub open spec fn spec_len(&self) -> int {
        self.geom_offsets.spec_len()
    }

    /// The coordinate range of ring `j`, counted over the whole array.
    pub open spec fn ring_view(&self, j: int) -> Seq<(u64, u64)> {
        self.coords.coords().subrange(
            self.ring_offsets.offsets()[j],
            self.ring_offsets.offsets()[j + 1],
        )
    }

    /// The rings of geometry `i`, exterior first, validity ignored.
    pub open spec fn slot_rings(&self, i: int) -> Seq<Seq<(u64, u64)>> {
        Seq::new(
            (self.geom_offsets.offsets()[i + 1] - self.geom_offsets.offsets()[i]) as nat,
            |t: int| self.ring_view(self.geom_offsets.offsets()[i] + t),
        )
    }

    /// The logical contents: one optional ring sequence per slot. An empty
    /// polygon is a present slot with no rings, distinct from a null slot.
    pub open spec fn view(&self) -> Seq<Option<Seq<Seq<(u64, u64)>>>> {
        Seq::new(
            self.spec_len() as nat,
            |i: int| if slot_valid(&self.validity, i) {
                Option::Some(self.slot_rings(i))
            } else {
                Option::None
            },
        )
    }

    /// Creates an array from parts already known consistent, in O(1);
    /// `try_new` is the validating constructor.
    pub fn new(
        coords: CoordBuffer,
        geom_offsets: OffsetBuffer,
        ring_offsets: OffsetBuffer,
        validity: Option<Validity>,
    ) -> (r: PolygonArray)
        requires
            coords.wf(),
            geom_offsets.wf(),
            ring_offsets.wf(),
            match validity {
                Option::None => true,
                Option::Some(v) => v.wf() && v.spec_len() == geom_offsets.spec_len(),
            },
            ring_offsets.last_offset() == coords.spec_len(),
            geom_offsets.last_offset() == ring_offsets.spec_len(),
        ensures
            r == (PolygonArray { coords, geom_offsets, ring_offsets, validity }),
            r.wf(),
    {
        PolygonArray { coords, geom_offsets, ring_offsets, validity }
    }

    /// Creates an array from parts, validating them first: the validity
    /// length must match the number of geometries, the terminal ring offset
    /// must match the coordinate count, and the terminal geometry offset
    /// must match the ring count.
    pub fn try_new(
        coords: CoordBuffer,
        geom_offsets: OffsetBuffer,
        ring_offsets: OffsetBuffer,
        validity: Option<Validity>,
    ) -> (r: Result<PolygonArray, GeoArrowError>)
        requires
            coords.wf(),
            geom_offsets.wf(),
            ring_offsets.wf(),
            match validity {
                Option::None => true,
                Option::Some(v) => v.wf(),
            },
        ensures
            match r {
                Ok(a) => {
                    &&& a == (PolygonArray { coords, geom_offsets, ring_offsets, validity })
                    &&& a.wf()
                    &&& match validity {
                        Option::None => true,
                        Option::Some(v) => v.spec_len() == geom_offsets.spec_len(),
                    }
                    &&& ring_offsets.last_offset() == coords.spec_len()
                    &&& geom_offsets.last_offset() == ring_offsets.spec_len()
                },
                Err(e) => {
                    &&& (e == GeoArrowError::ValidityLengthMismatch
                        || e == GeoArrowError::OffsetLengthMismatch)
                    &&& !{
                        &&& match validity {
                            Option::None => true,
                            Option::Some(v) => v.spec_len() == geom_offsets.spec_len(),
                        }
                        &&& ring_offsets.last_offset() == coords.spec_len()
                        &&& geom_offsets.last_offset() == ring_offsets.spec_len()
                    }
                },
            },
    {
        match &validity {
            Option::Some(v) => {
                if v.count() != geom_offsets.len() {
                    return Err(GeoArrowError::ValidityLengthMismatch);
                }
            },
            Option::None => {},
        }
        if ring_offsets.last() != coords.len() {
            return Err(GeoArrowError::OffsetLengthMismatch);
        }
        if geom_offsets.last() != ring_offsets.len() {
            return Err(GeoArrowError::OffsetLengthMismatch);
        }
        Ok(PolygonArray { coords, geom_offsets, ring_offsets, validity })
    }

    /// The number of geometries in this array.
    pub fn len(&self) -> (n: usize)
        ensures
            n == self.spec_len(),
    {
        self.geom_offsets.len()
    }

    /// Whether slot `i` is null; an empty polygon at a valid slot is not.
    pub fn is_null(&self, i: usize) -> (r: bool)
        requires
            self.wf(),
            i < self.spec_len(),
        ensures
            r == (self.view()[i as int] is None),
    {
        match &self.validity {
            Option::None => false,
            Option::Some(v) => !v.is_valid(i),
        }
    }

    /// The borrowed view of geometry `i`, without consulting validity.
    pub fn value<'a>(&'a self, i: usize) -> (s: Polygon<'a>)
        requires
            self.wf(),
            i < self.spec_len(),
        ensures
            s.wf(),
            s.rings() == self.slot_rings(i as int),
    {
        let s = Polygon {
            coords: &self.coords,
            geom_offsets: &self.geom_offsets,
            ring_offsets: &self.ring_offsets,
            geom_index: i,
        };
        proof {
            assert(s.rings() =~= self.slot_rings(i as int));
        }
        s
    }

    /// The borrowed view of geometry `i`, or nothing when the slot is null.
    pub fn get<'a>(&'a self, i: usize) -> (s: Option<Polygon<'a>>)
        requires
            self.wf(),
            i < self.spec_len(),
        ensures
            match s {
                Option::None => self.view()[i as int] is None,
                Option::Some(p) => {
                    &&& p.wf()
                    &&& self.view()[i as int] == Option::Some(p.rings())
                },
            },
    {
        if self.is_null(i) {
            return Option::None;
        }
        Option::Some(self.value(i))
    }

    /// Slices this array in place to `length` geometries beginning at
    /// `offset`: O(1), sharing every buffer; the ring and coordinate buffers
    /// are untouched, since geometry offsets keep their absolute values.
    pub fn slice(&mut self, offset: usize, length: usize)
        requires
            old(self).wf(),
            offset + length <= old(self).spec_len(),
        ensures
            final(self).wf(),
            final(self).spec_len() == length,
            final(self).view() == old(self).view().subrange(
                offset as int,
                offset + length as int,
            ),
            final(self).coords == old(self).coords,
            final(self).ring_offsets == old(self).ring_offsets,
            crate::offsets::offsets_window_shifted(
                old(self).geom_offsets,
                final(self).geom_offsets,
                offset as int,
                length as int,
            ),
            crate::validity::validity_window_shifted(
                old(self).validity,
                final(self).validity,
                offset as int,
                length as int,
            ),
    {
        proof {
            old(self).geom_offsets.lemma_window_bounds();
        }
        match &mut self.validity {
            Option::Some(v) => v.slice(offset, length),
            Option::None => {},
        }
        self.geom_offsets.slice(offset, length);
        proof {
            let ghost osub = old(self).geom_offsets.offsets().subrange(
                offset as int,
                offset + length + 1,
            );
            assert(self.geom_offsets.offsets() == osub);
            assert(self.geom_offsets.offsets().len() == length + 1);
            assert forall|i: int| 0 <= i < length implies
                #[trigger] self.view()[i] == old(self).view()[offset + i] by {
                assert(self.geom_offsets.offsets()[i] == osub[i]);
                assert(self.geom_offsets.offsets()[i + 1] == osub[i + 1]);
                match (&self.validity, &old(self).validity) {
                    (Option::Some(v), Option::Some(w)) => {
                        let ghost bsub = w.bits().subrange(offset as int, offset + length as int);
                        assert(v.bits() == bsub);
                        assert(v.bits()[i] == bsub[i]);
                    },
                    _ => {},
                }
                assert(self.slot_rings(i) =~= old(self).slot_rings(offset + i));
            }
            assert(self.view() =~= old(self).view().subrange(
                offset as int,
                offset + length as int,
            ));
            let oo = old(self).geom_offsets.offsets();
            assert(self.geom_offsets.last_offset() == oo[offset + length]);
            assert(oo[offset + length] <= oo[old(self).geom_offsets.spec_len() as int]);
            match (&self.validity, &old(self).validity) {
                (Option::Some(v), Option::Some(w)) => {
                    assert(v.bits().len() == length);
                },
                _ => {},
            }
        }
    }

    /// Copies the `length` geometries beginning at `offset` into a fresh,
    /// compact array: only the rings and coordinates those geometries touch
    /// are copied, and every offset buffer is re-based to zero.
    pub fn owned_slice(&self, offset: usize, length: usize) -> (r: PolygonArray)
        requires
            self.wf(),
            offset + length <= self.spec_len(),
        ensures
            r.wf(),
            r.spec_len() == length,
            r.view() == self.view().subrange(offset as int, offset + length as int),
            r.coords.is_compact(),
            r.geom_offsets.is_compact(),
            r.ring_offsets.is_compact(),
            r.ring_offsets.spec_len() == self.geom_offsets.offsets()[offset + length]
                - self.geom_offsets.offsets()[offset as int],
            r.coords.spec_len() == self.ring_offsets.offsets()[
                self.geom_offsets.offsets()[offset + length]
            ] - self.ring_offsets.offsets()[self.geom_offsets.offsets()[offset as int]],
    {
        proof {
            self.geom_offsets.lemma_window_bounds();
            self.ring_offsets.lemma_window_bounds();
        }
        let rstart: usize = self.geom_offsets.offset_at(offset);
        let rend: usize = self.geom_offsets.offset_at(offset + length);
        proof {
            assert(self.geom_offsets.offsets()[offset as int]
                <= self.geom_offsets.offsets()[offset + length]);
        }
        let cstart: usize = self.ring_offsets.offset_at(rstart);
        let cend: usize = self.ring_offsets.offset_at(rend);
        proof {
            assert(self.ring_offsets.offsets()[rstart as int]
                <= self.ring_offsets.offsets()[rend as int]);
        }
        let geom_offsets: OffsetBuffer = self.geom_offsets.owned_slice(offset, length);
        let ring_offsets: OffsetBuffer = self.ring_offsets.owned_slice(rstart, rend - rstart);
        let coords: CoordBuffer = self.coords.owned_slice(cstart, cend - cstart);
        let validity: Option<Validity> = match &self.validity {
            Option::Some(v) => Option::Some(v.owned_slice(offset, length)),
            Option::None => Option::None,
        };
        let r = PolygonArray { coords, geom_offsets, ring_offsets, validity };
        proof {
            assert(r.ring_offsets.last_offset()
                == self.ring_offsets.offsets()[rend as int]
                    - self.ring_offsets.offsets()[rstart as int]);
            assert(r.geom_offsets.last_offset()
                == self.geom_offsets.offsets()[offset + length]
                    - self.geom_offsets.offsets()[offset as int]);
            assert(r.coords.spec_len() == cend - cstart);
            assert(r.ring_offsets.spec_len() == rend - rstart);
            assert forall|i: int| 0 <= i < length implies
                #[trigger] r.view()[i] == self.view()[offset + i] by {
                assert(r.geom_offsets.offsets()[i]
                    == self.geom_offsets.offsets()[offset + i] - rstart);
                assert(r.geom_offsets.offsets()[i + 1]
                    == self.geom_offsets.offsets()[offset + i + 1] - rstart);
                assert(0 <= self.geom_offsets.offsets()[offset + i] - rstart);
                assert(self.geom_offsets.offsets()[offset + i + 1]
                    <= self.geom_offsets.offsets()[offset + length]);
                assert forall|t: int|
                    0 <= t < r.geom_offsets.offsets()[i + 1] - r.geom_offsets.offsets()[i]
                        implies #[trigger] r.ring_view(r.geom_offsets.offsets()[i] + t)
                        == self.ring_view(self.geom_offsets.offsets()[offset + i] + t) by {
                    let jr = r.geom_offsets.offsets()[i] + t;
                    let js = self.geom_offsets.offsets()[offset + i] + t;
                    assert(jr == js - rstart);
                    assert(0 <= js < self.ring_offsets.spec_len());
                    assert(r.ring_offsets.offsets()[jr]
                        == self.ring_offsets.offsets()[rstart + jr] - cstart);
                    assert(r.ring_offsets.offsets()[jr + 1]
                        == self.ring_offsets.offsets()[rstart + jr + 1] - cstart);
                    assert(self.ring_offsets.offsets()[rstart as int]
                        <= self.ring_offsets.offsets()[js]);
                    assert(self.ring_offsets.offsets()[js + 1]
                        <= self.ring_offsets.offsets()[rend as int]);
                    self.coords.coords().lemma_slice_of_slice(
                        cstart as int,
                        cend as int,
                        self.ring_offsets.offsets()[js] - cstart,
                        self.ring_offsets.offsets()[js + 1] - cstart,
                    );
                    assert(r.ring_view(jr) =~= self.ring_view(js));
                }
                assert(r.slot_rings(i) =~= self.slot_rings(offset + i));
                match (&r.validity, &self.validity) {
                    (Option::Some(v), Option::Some(w)) => {
                        assert(v.bits()[i] == w.bits().subrange(
                            offset as int,
                            offset + length as int,
                        )[i]);
                    },
                    _ => {},
                }
            }
            assert(r.view() =~= self.view().subrange(offset as int, offset + length as int));
            assert(r.geom_offsets.spec_len() == length);
            match &r.validity {
                Option::Some(v) => {
                    assert(v.bits().len() == length);
                },
                Option::None => {},
            }
        }
        r
    }
}

impl<'a> Polygon<'a> {
    /// Well-formedness: the buffers are well-formed and nested in range, and
    /// the index addresses a geometry.
    pub open spec fn wf(&self) -> bool {
        &&& self.coords.wf()
        &&& self.geom_offsets.wf()
        &&& self.ring_offsets.wf()
        &&& self.ring_offsets.last_offset() <= self.coords.spec_len()
        &&& self.geom_offsets.last_offset() <= self.ring_offsets.spec_len()
        &&& self.geom_index < self.geom_offsets.spec_len()
    }

    /// The coordinate range of ring `j`, counted over the whole array.
    pub open spec fn ring_view(&self, j: int) -> Seq<(u64, u64)> {
        self.coords.coords().subrange(
            self.ring_offsets.offsets()[j],
            self.ring_offsets.offsets()[j + 1],
        )
    }

    /// The rings of this polygon, exterior first.
    pub open spec fn rings(&self) -> Seq<Seq<(u64, u64)>> {
        Seq::new(
            (self.geom_offsets.offsets()[self.geom_index as int + 1]
                - self.geom_offsets.offsets()[self.geom_index as int]) as nat,
            |t: int| self.ring_view(self.geom_offsets.offsets()[self.geom_index as int] + t),
        )
    }

    /// Assembles a view of one geometry from an array's buffers.
    pub fn new(
        coords: &'a CoordBuffer,
        geom_offsets: &'a OffsetBuffer,
        ring_offsets: &'a OffsetBuffer,
        geom_index: usize,
    ) -> (s: Polygon<'a>)
        requires
            coords.wf(),
            geom_offsets.wf(),
            ring_offsets.wf(),
            ring_offsets.last_offset() <= coords.spec_len(),
            geom_offsets.last_offset() <= ring_offsets.spec_len(),
            geom_index < geom_offsets.spec_len(),
        ensures
            s.wf(),
            s == (Polygon { coords, geom_offsets, ring_offsets, geom_index }),
    {
        Polygon { coords, geom_offsets, ring_offsets, geom_index }
    }

    /// Assembles a view of one geometry from borrowed buffers; the same
    /// construction as `new`, under the name callers of the borrowing form
    /// use.
    pub fn new_borrowed(
        coords: &'a CoordBuffer,
        geom_offsets: &'a OffsetBuffer,
        ring_offsets: &'a OffsetBuffer,
        geom_index: usize,
    ) -> (s: Polygon<'a>)
        requires
            coords.wf(),
            geom_offsets.wf(),
            ring_offsets.wf(),
            ring_offsets.last_offset() <= coords.spec_len(),
            geom_offsets.last_offset() <= ring_offsets.spec_len(),
            geom_index < geom_offsets.spec_len(),
        ensures
            s.wf(),
            s == (Polygon { coords, geom_offsets, ring_offsets, geom_index }),
    {
        Polygon { coords, geom_offsets, ring_offsets, geom_index }
    }

    /// The exterior ring, or nothing for a polygon with no rings.
    pub fn exterior(&self) -> (r: Option<LineString<'a>>)
        requires
            self.wf(),
        ensures
            match r {
                Option::None => self.rings().len() == 0,
                Option::Some(l) => {
                    &&& self.rings().len() > 0
                    &&& l.wf()
                    &&& l.verts() == self.rings()[0]
                },
            },
    {
        let (start, end) = self.geom_offsets.start_end(self.geom_index);
        if start == end {
            Option::None
        } else {
            proof {
                self.geom_offsets.lemma_window_bounds();
            }
            let l = LineString {
                coords: self.coords,
                geom_offsets: self.ring_offsets,
                geom_index: start,
            };
            Option::Some(l)
        }
    }

    /// The number of interior rings: every ring but the exterior.
    pub fn num_interiors(&self) -> (n: usize)
        requires
            self.wf(),
        ensures
            self.rings().len() == 0 ==> n == 0,
            self.rings().len() > 0 ==> n == self.rings().len() - 1,
    {
        let (start, end) = self.geom_offsets.start_end(self.geom_index);
        if start == end {
            0
        } else {
            end - start - 1
        }
    }

    /// The interior ring at index `i`, or nothing when `i` is not the index
    /// of an interior ring.
    pub fn interior(&self, i: usize) -> (r: Option<LineString<'a>>)
        requires
            self.wf(),
        ensures
            match r {
                Option::None => self.rings().len() == 0 || i >= self.rings().len() - 1,
                Option::Some(l) => {
                    &&& i + 1 < self.rings().len()
                    &&& l.wf()
                    &&& l.verts() == self.rings()[i as int + 1]
                },
            },
    {
        let (start, end) = self.geom_offsets.start_end(self.geom_index);
        if start == end || i >= end - start - 1 {
            return Option::None;
        }
        proof {
            self.geom_offsets.lemma_window_bounds();
        }
        let l = LineString {
            coords: self.coords,
            geom_offsets: self.ring_offsets,
            geom_index: start + 1 + i,
        };
        Option::Some(l)
    }
}


/// The logical contents of a sequence of optional owned polygons: one
/// optional ring sequence per slot.
pub open spec fn polygon_geoms_view(gs: Seq<Option<PolygonGeom>>) -> Seq<
    Option<Seq<Seq<(u64, u64)>>>,
> {
    Seq::new(
        gs.len(),
        |i: int| match gs[i] {
            Option::None => Option::None,
            Option::Some(g) => Option::Some(g.ring_views()),
        },
    )
}

/// All rings of a sequence of optional polygons, back to back, in slot
/// order; null slots contribute nothing.
pub open spec fn rings_concat(gs: Seq<Option<PolygonGeom>>) -> Seq<Seq<(u64, u64)>>
    decreases gs.len(),
{
    if gs.len() == 0 {
        Seq::empty()
    } else {
        rings_concat(gs.drop_last()) + match gs.last() {
            Option::None => Seq::<Seq<(u64, u64)>>::empty(),
            Option::Some(g) => g.ring_views(),
        }
    }
}

/// The total coordinate count of a sequence of rings.
pub open spec fn seq_lens_total(rs: Seq<Seq<(u64, u64)>>) -> int
    decreases rs.len(),
{
    if rs.len() == 0 {
        0
    } else {
        seq_lens_total(rs.drop_last()) + rs.last().len()
    }
}

/// The total coordinate count of a sequence of optional polygons.
pub open spec fn polygon_coord_total(gs: Seq<Option<PolygonGeom>>) -> int {
    seq_lens_total(rings_concat(gs))
}

/// The total ring count of a sequence of optional polygons.
pub open spec fn polygon_ring_total(gs: Seq<Option<PolygonGeom>>) -> int {
    rings_concat(gs).len() as int
}

/// A flat sequence of multi-points carrying exactly the given rings has the
/// rings' total coordinate count.
proof fn lemma_flatten_matches_ring_lens(
    mps: Seq<Option<MultiPointGeom>>,
    rs: Seq<Seq<(u64, u64)>>,
)
    requires
        mps.len() == rs.len(),
        forall|j: int| 0 <= j < mps.len() ==> (#[trigger] mps[j]) is Some
            && mps[j]->0.points@ == rs[j],
    ensures
        crate::multipoint::flatten_geoms(mps).len() == seq_lens_total(rs),
    decreases mps.len(),
{
    if mps.len() > 0 {
        lemma_flatten_matches_ring_lens(mps.drop_last(), rs.drop_last());
        assert(mps.drop_last().len() == rs.drop_last().len());
    }
}

/// The ring count one slot contributes: zero for a null slot.
pub open spec fn slot_ring_count(g: Option<PolygonGeom>) -> int {
    match g {
        Option::None => 0,
        Option::Some(gg) => gg.rings@.len() as int,
    }
}

/// The per-slot ring counts sum to the concatenated ring count.
proof fn lemma_ring_counts_sum(gs: Seq<Option<PolygonGeom>>, counts: Seq<usize>)
    requires
        counts.len() == gs.len(),
        forall|i: int| 0 <= i < gs.len() ==> #[trigger] counts[i] as int == slot_ring_count(
            gs[i],
        ),
    ensures
        crate::offsets::sum_lengths(counts) == rings_concat(gs).len(),
    decreases gs.len(),
{
    if gs.len() > 0 {
        lemma_ring_counts_sum(gs.drop_last(), counts.drop_last());
        assert(counts.drop_last().len() == gs.drop_last().len());
    }
}

/// Concatenated ring prefixes are prefixes of the concatenated whole.
proof fn lemma_rings_concat_prefix_of(gs: Seq<Option<PolygonGeom>>, i: int)
    requires
        0 <= i <= gs.len(),
    ensures
        rings_concat(gs.subrange(0, i)).len() <= rings_concat(gs).len(),
        forall|j: int| 0 <= j < rings_concat(gs.subrange(0, i)).len() ==>
            #[trigger] rings_concat(gs)[j] == rings_concat(gs.subrange(0, i))[j],
    decreases gs.len() - i,
{
    if i == gs.len() {
        assert(gs.subrange(0, i) =~= gs);
    } else {
        lemma_rings_concat_prefix_of(gs, i + 1);
        let pre1 = gs.subrange(0, i + 1);
        assert(pre1.drop_last() =~= gs.subrange(0, i));
        assert(pre1.last() == gs[i]);
        assert(rings_concat(pre1) == rings_concat(gs.subrange(0, i)) + match gs[i] {
            Option::None => Seq::<Seq<(u64, u64)>>::empty(),
            Option::Some(g) => g.ring_views(),
        });
        assert forall|j: int| 0 <= j < rings_concat(gs.subrange(0, i)).len() implies
            #[trigger] rings_concat(gs)[j] == rings_concat(gs.subrange(0, i))[j] by {
            assert(rings_concat(gs)[j] == rings_concat(pre1)[j]);
            assert(rings_concat(pre1)[j] == rings_concat(gs.subrange(0, i))[j]);
        }
    }
}

/// Inside the concatenated rings, slot `i` occupies the range from the
/// concatenated count of the first `i` slots to that plus its own count.
proof fn lemma_rings_concat_at(gs: Seq<Option<PolygonGeom>>, i: int)
    requires
        0 <= i < gs.len(),
    ensures
        rings_concat(gs.subrange(0, i + 1)).len()
            == rings_concat(gs.subrange(0, i)).len() + slot_ring_count(gs[i]),
        forall|t: int| 0 <= t < slot_ring_count(gs[i]) ==>
            #[trigger] rings_concat(gs)[rings_concat(gs.subrange(0, i)).len() + t] == match gs[i] {
                Option::None => Seq::<Seq<(u64, u64)>>::empty(),
                Option::Some(g) => g.ring_views(),
            }[t],
{
    let slot: Seq<Seq<(u64, u64)>> = match gs[i] {
        Option::None => Seq::<Seq<(u64, u64)>>::empty(),
        Option::Some(g) => g.ring_views(),
    };
    let pre1 = gs.subrange(0, i + 1);
    let pre0 = gs.subrange(0, i);
    assert(pre1.drop_last() =~= pre0);
    assert(pre1.last() == gs[i]);
    assert(rings_concat(pre1) == rings_concat(pre0) + slot);
    lemma_rings_concat_prefix_of(gs, i + 1);
    let li = rings_concat(pre0).len() as int;
    assert forall|t: int| 0 <= t < slot_ring_count(gs[i]) implies
        #[trigger] rings_concat(gs)[li + t] == slot[t] by {
        assert(rings_concat(gs)[li + t] == rings_concat(gs.subrange(0, i + 1))[li + t]);
        assert(rings_concat(pre1)[li + t] == slot[t]);
    }
}

/// Offsets accumulated from per-slot ring counts mark the concatenated ring
/// boundaries of each prefix.
proof fn lemma_go_prefix(
    gs: Seq<Option<PolygonGeom>>,
    counts: Seq<usize>,
    b: OffsetBuffer,
    i: int,
)
    requires
        b.is_compact(),
        b.spec_len() == gs.len(),
        counts.len() == gs.len(),
        forall|i: int| 0 <= i < gs.len() ==> #[trigger] counts[i] as int == slot_ring_count(
            gs[i],
        ),
        forall|i: int| 0 <= i < counts.len() ==>
            #[trigger] b.offsets()[i + 1] == b.offsets()[i] + counts[i],
        0 <= i <= gs.len(),
    ensures
        b.offsets()[i] == rings_concat(gs.subrange(0, i)).len(),
    decreases i,
{
    if i == 0 {
        assert(gs.subrange(0, 0) =~= Seq::<Option<PolygonGeom>>::empty());
    } else {
        lemma_go_prefix(gs, counts, b, i - 1);
        let im1 = i - 1;
        assert(b.offsets()[im1 + 1] == b.offsets()[im1] + counts[im1]);
        let pre = gs.subrange(0, i);
        assert(pre.drop_last() =~= gs.subrange(0, im1));
        assert(pre.last() == gs[im1]);
    }
}

impl<'a> Polygon<'a> {
    /// All interior rings in order: the whole-collection counterpart of
    /// `interior`.
    pub fn interiors(&self) -> (rs: Vec<LineString<'a>>)
        requires
            self.wf(),
        ensures
            self.rings().len() == 0 ==> rs@.len() == 0,
            self.rings().len() > 0 ==> rs@.len() == self.rings().len() - 1,
            forall|j: int| 0 <= j < rs@.len() ==> {
                &&& (#[trigger] rs@[j]).wf()
                &&& rs@[j].verts() == self.rings()[j + 1]
            },
    {
        let n: usize = self.num_interiors();
        let mut rs: Vec<LineString<'a>> = Vec::new();
        let mut t: usize = 0;
        while t < n
            invariant
                self.wf(),
                self.rings().len() > 0 ==> n == self.rings().len() - 1,
                self.rings().len() == 0 ==> n == 0,
                t <= n,
                rs@.len() == t,
                forall|j: int| 0 <= j < t ==> {
                    &&& (#[trigger] rs@[j]).wf()
                    &&& rs@[j].verts() == self.rings()[j + 1]
                },
            decreases n - t,
        {
            let l: LineString<'a> = match self.interior(t) {
                Option::Some(l) => l,
                Option::None => {
                    proof {
                        assert(false);
                    }
                    LineString {
                        coords: self.coords,
                        geom_offsets: self.ring_offsets,
                        geom_index: 0,
                    }
                },
            };
            rs.push(l);
            t = t + 1;
        }
        rs
    }

    /// Materializes this view into an owned geometry object: the explicit
    /// allocation boundary.
    pub fn to_geo(&self) -> (g: PolygonGeom)
        requires
            self.wf(),
        ensures
            g.ring_views() == self.rings(),
    {
        let (start, end) = self.geom_offsets.start_end(self.geom_index);
        proof {
            self.geom_offsets.lemma_window_bounds();
        }
        let mut rings: Vec<LineStringGeom> = Vec::new();
        let mut t: usize = 0;
        while t < end - start
            invariant
                self.wf(),
                self.geom_offsets.offsets()[self.geom_index as int] == start,
                self.geom_offsets.offsets()[self.geom_index as int + 1] == end,
                start <= end <= self.ring_offsets.spec_len(),
                t <= end - start,
                rings@.len() == t,
                forall|j: int| 0 <= j < t ==>
                    #[trigger] rings@[j].coords@ == self.rings()[j],
            decreases end - start - t,
        {
            let l = LineString {
                coords: self.coords,
                geom_offsets: self.ring_offsets,
                geom_index: start + t,
            };
            rings.push(l.to_geo());
            t = t + 1;
        }
        let g = PolygonGeom { rings };
        proof {
            assert(g.ring_views() =~= self.rings());
        }
        g
    }

    /// Whether this polygon and another carry the same logical rings, ring
    /// for ring and coordinate for coordinate; the views may live in
    /// different arrays, layouts and positions.
    #[verifier::loop_isolation(false)]
    pub fn eq(&self, other: &Polygon<'_>) -> (r: bool)
        requires
            self.wf(),
            other.wf(),
        ensures
            r == (self.rings() == other.rings()),
    {
        let (s1, e1) = self.geom_offsets.start_end(self.geom_index);
        let (s2, e2) = other.geom_offsets.start_end(other.geom_index);
        if e1 - s1 != e2 - s2 {
            proof {
                assert(self.rings().len() != other.rings().len());
            }
            return false;
        }
        let n: usize = e1 - s1;
        proof {
            self.geom_offsets.lemma_window_bounds();
            other.geom_offsets.lemma_window_bounds();
        }
        let mut t: usize = 0;
        while t < n
            invariant
                self.wf(),
                other.wf(),
                self.geom_offsets.offsets()[self.geom_index as int] == s1,
                self.geom_offsets.offsets()[self.geom_index as int + 1] == e1,
                other.geom_offsets.offsets()[other.geom_index as int] == s2,
                other.geom_offsets.offsets()[other.geom_index as int + 1] == e2,
                s1 <= e1 <= self.ring_offsets.spec_len(),
                s2 <= e2 <= other.ring_offsets.spec_len(),
                n == e1 - s1,
                n == e2 - s2,
                t <= n,
                forall|j: int| 0 <= j < t ==>
                    #[trigger] self.rings()[j] == other.rings()[j],
            decreases n - t,
        {
            let l1 = LineString {
                coords: self.coords,
                geom_offsets: self.ring_offsets,
                geom_index: s1 + t,
            };
            let l2 = LineString {
                coords: other.coords,
                geom_offsets: other.ring_offsets,
                geom_index: s2 + t,
            };
            let m1: usize = l1.num_coords();
            let m2: usize = l2.num_coords();
            if m1 != m2 {
                proof {
                    assert(self.rings()[t as int] == l1.verts());
                    assert(other.rings()[t as int] == l2.verts());
                }
                return false;
            }
            let mut j: usize = 0;
            while j < m1
                invariant
                    l1.wf(),
                    l2.wf(),
                    m1 == l1.verts().len(),
                    m1 == l2.verts().len(),
                    j <= m1,
                    forall|u: int| 0 <= u < j ==>
                        #[trigger] l1.verts()[u] == l2.verts()[u],
                decreases m1 - j,
            {
                let c1: Option<(u64, u64)> = l1.coord(j);
                let c2: Option<(u64, u64)> = l2.coord(j);
                match (c1, c2) {
                    (Option::Some(a), Option::Some(b)) => {
                        if a.0 != b.0 || a.1 != b.1 {
                            proof {
                                assert(l1.verts()[j as int] != l2.verts()[j as int]);
                                assert(self.rings()[t as int] == l1.verts());
                                assert(other.rings()[t as int] == l2.verts());
                            }
                            return false;
                        }
                    },
                    _ => {
                        proof {
                            assert(false);
                        }
                    },
                }
                j = j + 1;
            }
            proof {
                assert(l1.verts() =~= l2.verts());
                assert(self.rings()[t as int] == l1.verts());
                assert(other.rings()[t as int] == l2.verts());
            }
            t = t + 1;
        }
        proof {
            assert(self.rings() =~= other.rings());
        }
        true
    }
}

impl PolygonArray {
    /// Materializes the whole array as one optional owned geometry per slot,
    /// in index order.
    pub fn iter_geo(&self) -> (gs: Vec<Option<PolygonGeom>>)
        requires
            self.wf(),
        ensures
            polygon_geoms_view(gs@) == self.view(),
            gs@.len() == self.spec_len(),
    {
        let n: usize = self.len();
        let mut gs: Vec<Option<PolygonGeom>> = Vec::new();
        let mut k: usize = 0;
        while k < n
            invariant
                self.wf(),
                n == self.spec_len(),
                k <= n,
                gs@.len() == k,
                forall|i: int| 0 <= i < k ==>
                    #[trigger] polygon_geoms_view(gs@)[i] == self.view()[i],
            decreases n - k,
        {
            let ghost pre = gs@;
            if self.is_null(k) {
                gs.push(Option::None);
            } else {
                let p: Polygon<'_> = self.value(k);
                gs.push(Option::Some(p.to_geo()));
            }
            proof {
                assert forall|i: int| 0 <= i < k + 1 implies
                    #[trigger] polygon_geoms_view(gs@)[i] == self.view()[i] by {
                    if i < k {
                        assert(gs@[i] == pre[i]);
                        assert(polygon_geoms_view(pre)[i] == self.view()[i]);
                    }
                }
            }
            k = k + 1;
        }
        proof {
            assert(polygon_geoms_view(gs@) =~= self.view());
        }
        gs
    }

    /// Builds an array of the requested coordinate layout from one optional
    /// owned geometry per slot: the rings are packed through the multi-point
    /// construction, one multi-point per ring, and a geometry offset buffer
    /// is accumulated over the per-slot ring counts. A validity bitmap is
    /// kept only when some slot is null; failure comes only from a running
    /// total that overflows the index width.
    #[verifier::loop_isolation(false)]
    pub fn from_geoms(geoms: Vec<Option<PolygonGeom>>, target: CoordType) -> (r: Result<
        PolygonArray,
        GeoArrowError,
    >)
        ensures
            r is Ok <==> {
                &&& polygon_coord_total(geoms@) <= i64::MAX
                &&& polygon_coord_total(geoms@) <= usize::MAX
                &&& polygon_ring_total(geoms@) <= i64::MAX
                &&& polygon_ring_total(geoms@) <= usize::MAX
            },
            match r {
                Ok(a) => {
                    &&& a.wf()
                    &&& a.view() == polygon_geoms_view(geoms@)
                    &&& a.coords.spec_coord_type() == target
                },
                Err(e) => e == GeoArrowError::LengthOverflow,
            },
    {
        let n: usize = geoms.len();
        let ghost orig = geoms@;
        let mut geoms = geoms;
        let mut rings_flat: Vec<Option<MultiPointGeom>> = Vec::new();
        let mut ring_counts: Vec<usize> = Vec::new();
        let mut flags: Vec<bool> = Vec::new();
        let mut has_null: bool = false;
        let mut k: usize = 0;
        while k < n
            invariant
                n == orig.len(),
                geoms@ == orig.subrange(k as int, n as int),
                k <= n,
                ring_counts@.len() == k,
                flags@.len() == k,
                forall|i: int| 0 <= i < k ==> #[trigger] flags@[i] == (orig[i] is Some),
                has_null == (exists|i: int| 0 <= i < k && orig[i] is None),
                forall|i: int| 0 <= i < k ==>
                    #[trigger] ring_counts@[i] as int == slot_ring_count(orig[i]),
                rings_flat@.len() == rings_concat(orig.subrange(0, k as int)).len(),
                forall|j: int| 0 <= j < rings_flat@.len() ==> {
                    &&& #[trigger] rings_flat@[j] is Some
                    &&& rings_flat@[j]->0.points@ == rings_concat(orig.subrange(0, k as int))[j]
                },
            decreases n - k,
        {
            let ghost pre_concat = rings_concat(orig.subrange(0, k as int));
            let g: Option<PolygonGeom> = geoms.remove(0);
            proof {
                assert(g == orig[k as int]);
                assert(geoms@ =~= orig.subrange(k + 1, n as int));
                let now = orig.subrange(0, k + 1);
                assert(now.drop_last() =~= orig.subrange(0, k as int));
                assert(now.last() == orig[k as int]);
            }
            match g {
                Option::Some(p) => {
                    let m: usize = p.rings.len();
                    ring_counts.push(m);
                    flags.push(true);
                    let mut rings: Vec<LineStringGeom> = p.rings;
                    let ghost rviews = orig[k as int]->Some_0.ring_views();
                    let mut t: usize = 0;
                    while t < m
                        invariant
                            t <= m,
                            rings@.len() == m - t,
                            rviews.len() == m,
                            forall|u: int| 0 <= u < m - t ==>
                                #[trigger] rings@[u].coords@ == rviews[t + u],
                            rings_flat@.len() == pre_concat.len() + t,
                            forall|j: int| 0 <= j < rings_flat@.len() ==> {
                                &&& #[trigger] rings_flat@[j] is Some
                                &&& rings_flat@[j]->0.points@ == (pre_concat + rviews.subrange(
                                    0,
                                    t as int,
                                ))[j]
                            },
                        decreases m - t,
                    {
                        let ring: LineStringGeom = rings.remove(0);
                        rings_flat.push(Option::Some(MultiPointGeom { points: ring.coords }));
                        proof {
                            assert forall|u: int| 0 <= u < rings@.len() implies
                                #[trigger] rings@[u].coords@ == rviews[t + 1 + u] by {
                            }
                            assert(rviews.subrange(0, t + 1)
                                =~= rviews.subrange(0, t as int).push(rviews[t as int]));
                        }
                        t = t + 1;
                    }
                    proof {
                        assert(rviews.subrange(0, m as int) =~= rviews);
                        assert(rings_concat(orig.subrange(0, k + 1))
                            =~= pre_concat + rviews);
                    }
                },
                Option::None => {
                    ring_counts.push(0);
                    flags.push(false);
                    has_null = true;
                    proof {
                        assert(rings_concat(orig.subrange(0, k + 1)) =~= pre_concat);
                    }
                },
            }
            k = k + 1;
        }
        proof {
            assert(orig.subrange(0, n as int) =~= orig);
            lemma_flatten_matches_ring_lens(rings_flat@, rings_concat(orig));
            lemma_ring_counts_sum(orig, ring_counts@);
        }
        let mp: MultiPointArray = match MultiPointArray::from_geoms(&rings_flat, target) {
            Ok(a) => a,
            Err(e) => {
                return Err(e);
            },
        };
        let geom_offsets: OffsetBuffer = match OffsetBuffer::from_lengths(&ring_counts) {
            Ok(b) => b,
            Err(e) => {
                return Err(e);
            },
        };
        proof {
            assert(mp.view().len() == mp.spec_len());
            assert(mp.view() == multipoint_geoms_view(rings_flat@));
        }
        let MultiPointArray { coords, geom_offsets: ring_offsets, validity: mp_validity } = mp;
        let validity: Option<Validity> = if has_null {
            Option::Some(Validity::from_bools(flags))
        } else {
            Option::None
        };
        let a = PolygonArray { coords, geom_offsets, ring_offsets, validity };
        proof {
            assert(a.ring_offsets.last_offset() == a.coords.spec_len());
            assert(a.geom_offsets.last_offset() == rings_concat(orig).len());
            assert(a.ring_offsets.spec_len() == rings_flat@.len());
            assert(a.wf());
            assert forall|i: int| 0 <= i < a.spec_len() implies
                #[trigger] a.view()[i] == polygon_geoms_view(orig)[i] by {
                lemma_go_prefix(orig, ring_counts@, a.geom_offsets, i);
                lemma_go_prefix(orig, ring_counts@, a.geom_offsets, i + 1);
                lemma_rings_concat_at(orig, i);
                match &a.validity {
                    Option::Some(v) => {
                        assert(v.bits()[i] == flags@[i]);
                    },
                    Option::None => {},
                }
                if slot_valid(&a.validity, i) {
                    assert(orig[i] is Some);
                    let rv = orig[i]->Some_0.ring_views();
                    assert forall|t: int|
                        0 <= t < a.geom_offsets.offsets()[i + 1] - a.geom_offsets.offsets()[i]
                            implies #[trigger] a.slot_rings(i)[t] == rv[t] by {
                        let j = a.geom_offsets.offsets()[i] + t;
                        a.geom_offsets.lemma_window_bounds();
                        assert(a.geom_offsets.offsets()[i + 1]
                            <= a.geom_offsets.offsets()[a.geom_offsets.spec_len() as int]);
                        assert(a.geom_offsets.offsets()[a.geom_offsets.spec_len() as int]
                            == rings_concat(orig).len());
                        assert(j == rings_concat(orig.subrange(0, i)).len() + t);
                        assert(rings_concat(orig)[rings_concat(orig.subrange(0, i)).len() + t]
                            == rv[t]);
                        assert(rings_concat(orig)[j] == rv[t]);
                        assert(0 <= j < rings_flat@.len());
                        assert(multipoint_geoms_view(rings_flat@)[j]
                            == Option::Some(rings_flat@[j]->0.points@));
                        assert(a.ring_view(j) == rings_flat@[j]->0.points@);
                    }
                    assert(a.slot_rings(i) =~= rv);
                }
            }
            assert(a.view() =~= polygon_geoms_view(orig));
        }
        Ok(a)
    }
}

/// Law: converting a polygon array to its owned geometry objects and
/// building an array back from them restores the logical contents exactly,
/// nulls and empty polygons included. `iter_geo` promises its result depicts
/// the source array's view and `from_geoms` promises the built array depicts
/// its input, both through `polygon_geoms_view`; this states their
/// composition.
pub proof fn lemma_polygon_geo_roundtrip(
    a: &PolygonArray,
    gs: Seq<Option<PolygonGeom>>,
    b: &PolygonArray,
)
    requires
        a.wf(),
        polygon_geoms_view(gs) == a.view(),
        b.wf(),
        b.view() == polygon_geoms_view(gs),
    ensures
        b.view() == a.view(),
        b.spec_len() == a.spec_len(),
{
    assert(polygon_geoms_view(gs).len() == gs.len());
}

} // verus!
