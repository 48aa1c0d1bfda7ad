//! An immutable array of multi-line-string geometries. The physical layout
//! is the same as the polygon array's, two offset buffers over the
//! coordinates, so conversions between the two classes only change the
//! semantic type and move no data.

use vstd::prelude::*;

use crate::GeoArrowError;
use crate::coords::{CoordBuffer, CoordType};
use crate::geom::{LineStringGeom, MultiLineStringGeom, PolygonGeom};
use crate::linestring::LineString;
use crate::offsets::OffsetBuffer;
use crate::polygon::{PolygonArray, polygon_coord_total, polygon_geoms_view, polygon_ring_total};
use crate::validity::{Validity, slot_valid};

verus! {

/// An immutable array of multi-line-string geometries.
#[derive(Debug)]
pub struct MultiLineStringArray {
    /// The positions of every line of every geometry, back to back.
    pub coords: CoordBuffer,
    /// Offsets into the line sequence where each geometry starts.
    pub geom_offsets: OffsetBuffer,
    /// Offsets into the coordinate buffer where each line starts.
    pub ring_offsets: OffsetBuffer,
    /// Optional per-geometry null markers.
    pub validity: Option<Validity>,
}

/// A borrowed view of one multi-line-string of an array.
#[derive(Debug)]
pub struct MultiLineString<'a> {
    /// The array's coordinate buffer.
    pub coords: &'a CoordBuffer,
    /// The array's geometry offsets, delimiting lines per geometry.
    pub geom_offsets: &'a OffsetBuffer,
    /// The array's line offsets, delimiting coordinates per line.
    pub ring_offsets: &'a OffsetBuffer,
    /// Which geometry of the array this view addresses.
    pub geom_index: usize,
}

/// The same sequence read through the layout twin: each multi-line-string
/// as a polygon whose rings are its lines. Construction packs through this
/// reading, so its overflow condition is stated over it.
pub open spec fn multilinestring_as_polygons(gs: Seq<Option<MultiLineStringGeom>>) -> Seq<
    Option<PolygonGeom>,
> {
    gs.map(
        |_i: int, g: Option<MultiLineStringGeom>| match g {
            Option::None => Option::<PolygonGeom>::None,
            Option::Some(m) => Option::Some(PolygonGeom { rings: m.lines }),
        },
    )
}

/// The logical contents of a sequence of optional owned multi-line-strings.
pub open spec fn multilinestring_geoms_view(gs: Seq<Option<MultiLineStringGeom>>) -> Seq<
    Option<Seq<Seq<(u64, u64)>>>,
> {
    Seq::new(
        gs.len(),
        |i: int| match gs[i] {
            Option::None => Option::None,
            Option::Some(g) => Option::Some(g.line_views()),
        },
    )
}

impl MultiLineStringArray {
    /// Well-formedness: as for the polygon array of the same layout.
    pub open spec fn wf(&self) -> bool {
        &&& self.coords.wf()
        &&& self.geom_offsets.wf()
        &&& self.ring_offsets.wf()
        &&& self.ring_offsets.last_offset() <= self.coords.spec_len()
        &&& self.geom_offsets.last_offset() <= self.ring_offsets.spec_len()
        &&& match self.validity {
            Option::None => true,
            Option::Some(v) => v.wf() && v.spec_len() == self.geom_offsets.spec_len(),
        }
    }

    /// The number of geometries in this array.
    pub open spec fn spec_len(&self) -> int {
        self.geom_offsets.spec_len()
    }

    /// The coordinate range of line `j`, counted over the whole array.
    pub open spec fn line_view(&self, j: int) -> Seq<(u64, u64)> {
        self.coords.coords().subrange(
            self.ring_offsets.offsets()[j],
            self.ring_offsets.offsets()[j + 1],
        )
    }

    /// The lines of geometry `i`, validity ignored.
    pub open spec fn slot_lines(&self, i: int) -> Seq<Seq<(u64, u64)>> {
        Seq::new(
            (self.geom_offsets.offsets()[i + 1] - self.geom_offsets.offsets()[i]) as nat,
            |t: int| self.line_view(self.geom_offsets.offsets()[i] + t),
        )
    }

    /// The logical contents: one optional line sequence per slot.
    pub open spec fn view(&self) -> Seq<Option<Seq<Seq<(u64, u64)>>>> {
        Seq::new(
            self.spec_len() as nat,
            |i: int| if slot_valid(&self.validity, i) {
                Option::Some(self.slot_lines(i))
            } else {
                Option::None
            },
        )
    }

    /// Creates an array from parts already known consistent, in O(1);
    /// `try_new` is the validating constructor.
    pub fn new(
        coords: CoordBuffer,
        geom_offsets: OffsetBuffer,
        ring_offsets: OffsetBuffer,
        validity: Option<Validity>,
    ) -> (r: MultiLineStringArray)
        requires
            coords.wf(),
            geom_offsets.wf(),
            ring_offsets.wf(),
            match validity {
                Option::None => true,
                Option::Some(v) => v.wf() && v.spec_len() == geom_offsets.spec_len(),
            },
            ring_offsets.last_offset() == coords.spec_len(),
            geom_offsets.last_offset() == ring_offsets.spec_len(),
        ensures
            r == (MultiLineStringArray { coords, geom_offsets, ring_offsets, validity }),
            r.wf(),
    {
        MultiLineStringArray { coords, geom_offsets, ring_offsets, validity }
    }

    /// Creates an array from parts, validating them as the polygon
    /// constructor does.
    pub fn try_new(
        coords: CoordBuffer,
        geom_offsets: OffsetBuffer,
        ring_offsets: OffsetBuffer,
        validity: Option<Validity>,
    ) -> (r: Result<MultiLineStringArray, GeoArrowError>)
        requires
            coords.wf(),
            geom_offsets.wf(),
            ring_offsets.wf(),
            match validity {
                Option::None => true,
                Option::Some(v) => v.wf(),
            },
        ensures
            match r {
                Ok(a) => {
                    &&& a == (MultiLineStringArray {
                        coords,
                        geom_offsets,
                        ring_offsets,
                        validity,
                    })
                    &&& a.wf()
                    &&& match validity {
                        Option::None => true,
                        Option::Some(v) => v.spec_len() == geom_offsets.spec_len(),
                    }
                    &&& ring_offsets.last_offset() == coords.spec_len()
                    &&& geom_offsets.last_offset() == ring_offsets.spec_len()
                },
                Err(e) => {
                    &&& (e == GeoArrowError::ValidityLengthMismatch
                        || e == GeoArrowError::OffsetLengthMismatch)
                    &&& !{
                        &&& match validity {
                            Option::None => true,
                            Option::Some(v) => v.spec_len() == geom_offsets.spec_len(),
                        }
                        &&& ring_offsets.last_offset() == coords.spec_len()
                        &&& geom_offsets.last_offset() == ring_offsets.spec_len()
                    }
                },
            },
    {
        match &validity {
            Option::Some(v) => {
                if v.count() != geom_offsets.len() {
                    return Err(GeoArrowError::ValidityLengthMismatch);
                }
            },
            Option::None => {},
        }
        if ring_offsets.last() != coords.len() {
            return Err(GeoArrowError::OffsetLengthMismatch);
        }
        if geom_offsets.last() != ring_offsets.len() {
            return Err(GeoArrowError::OffsetLengthMismatch);
        }
        Ok(MultiLineStringArray { coords, geom_offsets, ring_offsets, validity })
    }

    /// The number of geometries in this array.
    pub fn len(&self) -> (n: usize)
        ensures
            n == self.spec_len(),
    {
        self.geom_offsets.len()
    }

    /// Whether slot `i` is null; an empty multi-line-string at a valid slot
    /// is not.
    pub fn is_null(&self, i: usize) -> (r: bool)
        requires
            self.wf(),
            i < self.spec_len(),
        ensures
            r == (self.view()[i as int] is None),
    {
        match &self.validity {
            Option::None => false,
            Option::Some(v) => !v.is_valid(i),
        }
    }

    /// The borrowed view of geometry `i`, without consulting validity.
    pub fn value<'a>(&'a self, i: usize) -> (s: MultiLineString<'a>)
        requires
            self.wf(),
            i < self.spec_len(),
        ensures
            s.wf(),
            s.lines() == self.slot_lines(i as int),
    {
        let s = MultiLineString {
            coords: &self.coords,
            geom_offsets: &self.geom_offsets,
            ring_offsets: &self.ring_offsets,
            geom_index: i,
        };
        proof {
            assert(s.lines() =~= self.slot_lines(i as int));
        }
        s
    }

    /// The borrowed view of geometry `i`, or nothing when the slot is null.
    pub fn get<'a>(&'a self, i: usize) -> (s: Option<MultiLineString<'a>>)
        requires
            self.wf(),
            i < self.spec_len(),
        ensures
            match s {
                Option::None => self.view()[i as int] is None,
                Option::Some(m) => {
                    &&& m.wf()
                    &&& self.view()[i as int] == Option::Some(m.lines())
                },
            },
    {
        if self.is_null(i) {
            return Option::None;
        }
        Option::Some(self.value(i))
    }

    /// Materializes the whole array as one optional owned geometry per slot.
    pub fn iter_geo(&self) -> (gs: Vec<Option<MultiLineStringGeom>>)
        requires
            self.wf(),
        ensures
            multilinestring_geoms_view(gs@) == self.view(),
            gs@.len() == self.spec_len(),
    {
        let n: usize = self.len();
        let mut gs: Vec<Option<MultiLineStringGeom>> = Vec::new();
        let mut k: usize = 0;
        while k < n
            invariant
                self.wf(),
                n == self.spec_len(),
                k <= n,
                gs@.len() == k,
                forall|i: int| 0 <= i < k ==>
                    #[trigger] multilinestring_geoms_view(gs@)[i] == self.view()[i],
            decreases n - k,
        {
            let ghost pre = gs@;
            if self.is_null(k) {
                gs.push(Option::None);
            } else {
                let m: MultiLineString<'_> = self.value(k);
                gs.push(Option::Some(m.to_geo()));
            }
            proof {
                assert forall|i: int| 0 <= i < k + 1 implies
                    #[trigger] multilinestring_geoms_view(gs@)[i] == self.view()[i] by {
                    if i < k {
                        assert(gs@[i] == pre[i]);
                        assert(multilinestring_geoms_view(pre)[i] == self.view()[i]);
                    }
                }
            }
            k = k + 1;
        }
        proof {
            assert(multilinestring_geoms_view(gs@) =~= self.view());
        }
        gs
    }

    /// Builds an array of the requested coordinate layout from one optional
    /// owned geometry per slot, through the layout twin: the polygon
    /// construction does the packing, and only the semantic type changes.
    /// Fails exactly when the total coordinate or line count overflows the
    /// index width.
    pub fn from_geoms(geoms: Vec<Option<MultiLineStringGeom>>, target: CoordType) -> (r: Result<
        MultiLineStringArray,
        GeoArrowError,
    >)
        ensures
            r is Ok <==> {
                &&& polygon_coord_total(multilinestring_as_polygons(geoms@)) <= i64::MAX
                &&& polygon_coord_total(multilinestring_as_polygons(geoms@)) <= usize::MAX
                &&& polygon_ring_total(multilinestring_as_polygons(geoms@)) <= i64::MAX
                &&& polygon_ring_total(multilinestring_as_polygons(geoms@)) <= usize::MAX
            },
            match r {
                Ok(a) => {
                    &&& a.wf()
                    &&& a.view() == multilinestring_geoms_view(geoms@)
                    &&& a.coords.spec_coord_type() == target
                },
                Err(e) => e == GeoArrowError::LengthOverflow,
            },
    {
        let n: usize = geoms.len();
        let ghost orig = geoms@;
        let mut geoms = geoms;
        let mut polys: Vec<Option<PolygonGeom>> = Vec::new();
        let mut k: usize = 0;
        while k < n
            invariant
                n == orig.len(),
                geoms@ == orig.subrange(k as int, n as int),
                k <= n,
                polys@.len() == k,
                polys@ == multilinestring_as_polygons(orig.subrange(0, k as int)),
                forall|i: int| 0 <= i < k ==>
                    #[trigger] polygon_geoms_view(polys@)[i]
                        == multilinestring_geoms_view(orig)[i],
            decreases n - k,
        {
            let ghost pre = polys@;
            let g: Option<MultiLineStringGeom> = geoms.remove(0);
            proof {
                assert(g == orig[k as int]);
                assert(geoms@ =~= orig.subrange(k + 1, n as int));
            }
            match g {
                Option::Some(m) => {
                    polys.push(Option::Some(PolygonGeom { rings: m.lines }));
                },
                Option::None => {
                    polys.push(Option::None);
                },
            }
            proof {
                assert forall|i: int| 0 <= i < k + 1 implies
                    #[trigger] polygon_geoms_view(polys@)[i]
                        == multilinestring_geoms_view(orig)[i] by {
                    if i < k {
                        assert(polys@[i] == pre[i]);
                        assert(polygon_geoms_view(pre)[i]
                            == multilinestring_geoms_view(orig)[i]);
                    }
                }
                assert(polys@ =~= multilinestring_as_polygons(orig.subrange(0, k + 1)));
            }
            k = k + 1;
        }
        proof {
            assert(orig.subrange(0, n as int) =~= orig);
        }
        let pa: PolygonArray = match PolygonArray::from_geoms(polys, target) {
            Ok(a) => a,
            Err(e) => {
                return Err(e);
            },
        };
        let r = MultiLineStringArray::from_polygon_array(pa);
        proof {
            assert(r.view() =~= multilinestring_geoms_view(orig));
        }
        Ok(r)
    }

    /// Reinterprets a polygon array as a multi-line-string array: the two
    /// classes share one physical layout, so this moves the buffers and
    /// changes only the semantic type.
    pub fn from_polygon_array(a: PolygonArray) -> (r: MultiLineStringArray)
        ensures
            r == (MultiLineStringArray {
                coords: a.coords,
                geom_offsets: a.geom_offsets,
                ring_offsets: a.ring_offsets,
                validity: a.validity,
            }),
            a.wf() ==> r.wf() && r.view() == a.view(),
    {
        let PolygonArray { coords, geom_offsets, ring_offsets, validity } = a;
        let r = MultiLineStringArray { coords, geom_offsets, ring_offsets, validity };
        proof {
            if a.wf() {
                assert forall|i: int| 0 <= i < a.spec_len() implies
                    #[trigger] r.view()[i] == a.view()[i] by {
                    assert(r.slot_lines(i) =~= a.slot_rings(i));
                }
                assert(r.view() =~= a.view());
            }
        }
        r
    }

    /// Slices this array in place to `length` geometries beginning at
    /// `offset`: O(1), sharing every buffer, as for the polygon array of the
    /// same layout.
    pub fn slice(&mut self, offset: usize, length: usize)
        requires
            old(self).wf(),
            offset + length <= old(self).spec_len(),
        ensures
            final(self).wf(),
            final(self).spec_len() == length,
            final(self).view() == old(self).view().subrange(
                offset as int,
                offset + length as int,
            ),
            final(self).coords == old(self).coords,
            final(self).ring_offsets == old(self).ring_offsets,
            crate::offsets::offsets_window_shifted(
                old(self).geom_offsets,
                final(self).geom_offsets,
                offset as int,
                length as int,
            ),
            crate::validity::validity_window_shifted(
                old(self).validity,
                final(self).validity,
                offset as int,
                length as int,
            ),
    {
        proof {
            old(self).geom_offsets.lemma_window_bounds();
        }
        match &mut self.validity {
            Option::Some(v) => v.slice(offset, length),
            Option::None => {},
        }
        self.geom_offsets.slice(offset, length);
        proof {
            let ghost osub = old(self).geom_offsets.offsets().subrange(
                offset as int,
                offset + length + 1,
            );
            assert(self.geom_offsets.offsets() == osub);
            assert(self.geom_offsets.offsets().len() == length + 1);
            assert forall|i: int| 0 <= i < length implies
                #[trigger] self.view()[i] == old(self).view()[offset + i] by {
                assert(self.geom_offsets.offsets()[i] == osub[i]);
                assert(self.geom_offsets.offsets()[i + 1] == osub[i + 1]);
                match (&self.validity, &old(self).validity) {
                    (Option::Some(v), Option::Some(w)) => {
                        let ghost bsub = w.bits().subrange(offset as int, offset + length as int);
                        assert(v.bits() == bsub);
                        assert(v.bits()[i] == bsub[i]);
                    },
                    _ => {},
                }
                assert(self.slot_lines(i) =~= old(self).slot_lines(offset + i));
            }
            assert(self.view() =~= old(self).view().subrange(
                offset as int,
                offset + length as int,
            ));
            let oo = old(self).geom_offsets.offsets();
            assert(self.geom_offsets.last_offset() == oo[offset + length]);
            assert(oo[offset + length] <= oo[old(self).geom_offsets.spec_len() as int]);
            match (&self.validity, &old(self).validity) {
                (Option::Some(v), Option::Some(w)) => {
                    assert(v.bits().len() == length);
                },
                _ => {},
            }
        }
    }

    /// Copies the `length` geometries beginning at `offset` into a fresh,
    /// compact array: only the lines and coordinates those geometries touch
    /// are copied, and every offset buffer is re-based to zero.
    pub fn owned_slice(&self, offset: usize, length: usize) -> (r: MultiLineStringArray)
        requires
            self.wf(),
            offset + length <= self.spec_len(),
        ensures
            r.wf(),
            r.spec_len() == length,
            r.view() == self.view().subrange(offset as int, offset + length as int),
            r.coords.is_compact(),
            r.geom_offsets.is_compact(),
            r.ring_offsets.is_compact(),
            r.ring_offsets.spec_len() == self.geom_offsets.offsets()[offset + length]
                - self.geom_offsets.offsets()[offset as int],
            r.coords.spec_len() == self.ring_offsets.offsets()[
                self.geom_offsets.offsets()[offset + length]
            ] - self.ring_offsets.offsets()[self.geom_offsets.offsets()[offset as int]],
    {
        proof {
            self.geom_offsets.lemma_window_bounds();
            self.ring_offsets.lemma_window_bounds();
        }
        let rstart: usize = self.geom_offsets.offset_at(offset);
        let rend: usize = self.geom_offsets.offset_at(offset + length);
        proof {
            assert(self.geom_offsets.offsets()[offset as int]
                <= self.geom_offsets.offsets()[offset + length]);
        }
        let cstart: usize = self.ring_offsets.offset_at(rstart);
        let cend: usize = self.ring_offsets.offset_at(rend);
        proof {
            assert(self.ring_offsets.offsets()[rstart as int]
                <= self.ring_offsets.offsets()[rend as int]);
        }
        let geom_offsets: OffsetBuffer = self.geom_offsets.owned_slice(offset, length);
        let ring_offsets: OffsetBuffer = self.ring_offsets.owned_slice(rstart, rend - rstart);
        let coords: CoordBuffer = self.coords.owned_slice(cstart, cend - cstart);
        let validity: Option<Validity> = match &self.validity {
            Option::Some(v) => Option::Some(v.owned_slice(offset, length)),
            Option::None => Option::None,
        };
        let r = MultiLineStringArray { coords, geom_offsets, ring_offsets, validity };
        proof {
            assert(r.ring_offsets.last_offset()
                == self.ring_offsets.offsets()[rend as int]
                    - self.ring_offsets.offsets()[rstart as int]);
            assert(r.geom_offsets.last_offset()
                == self.geom_offsets.offsets()[offset + length]
                    - self.geom_offsets.offsets()[offset as int]);
            assert(r.coords.spec_len() == cend - cstart);
            assert(r.ring_offsets.spec_len() == rend - rstart);
            assert forall|i: int| 0 <= i < length implies
                #[trigger] r.view()[i] == self.view()[offset + i] by {
                assert(r.geom_offsets.offsets()[i]
                    == self.geom_offsets.offsets()[offset + i] - rstart);
                assert(r.geom_offsets.offsets()[i + 1]
                    == self.geom_offsets.offsets()[offset + i + 1] - rstart);
                assert(0 <= self.geom_offsets.offsets()[offset + i] - rstart);
                assert(self.geom_offsets.offsets()[offset + i + 1]
                    <= self.geom_offsets.offsets()[offset + length]);
                assert forall|t: int|
                    0 <= t < r.geom_offsets.offsets()[i + 1] - r.geom_offsets.offsets()[i]
                        implies #[trigger] r.line_view(r.geom_offsets.offsets()[i] + t)
                        == self.line_view(self.geom_offsets.offsets()[offset + i] + t) by {
                    let jr = r.geom_offsets.offsets()[i] + t;
                    let js = self.geom_offsets.offsets()[offset + i] + t;
                    assert(jr == js - rstart);
                    assert(0 <= js < self.ring_offsets.spec_len());
                    assert(r.ring_offsets.offsets()[jr]
                        == self.ring_offsets.offsets()[rstart + jr] - cstart);
                    assert(r.ring_offsets.offsets()[jr + 1]
                        == self.ring_offsets.offsets()[rstart + jr + 1] - cstart);
                    assert(self.ring_offsets.offsets()[rstart as int]
                        <= self.ring_offsets.offsets()[js]);
                    assert(self.ring_offsets.offsets()[js + 1]
                        <= self.ring_offsets.offsets()[rend as int]);
                    self.coords.coords().lemma_slice_of_slice(
                        cstart as int,
                        cend as int,
                        self.ring_offsets.offsets()[js] - cstart,
                        self.ring_offsets.offsets()[js + 1] - cstart,
                    );
                    assert(r.line_view(jr) =~= self.line_view(js));
                }
                assert(r.slot_lines(i) =~= self.slot_lines(offset + i));
                match (&r.validity, &self.validity) {
                    (Option::Some(v), Option::Some(w)) => {
                        assert(v.bits()[i] == w.bits().subrange(
                            offset as int,
                            offset + length as int,
                        )[i]);
                    },
                    _ => {},
                }
            }
            assert(r.view() =~= self.view().subrange(offset as int, offset + length as int));
            assert(r.geom_offsets.spec_len() == length);
            match &r.validity {
                Option::Some(v) => {
                    assert(v.bits().len() == length);
                },
                Option::None => {},
            }
        }
        r
    }
}

impl<'a> MultiLineString<'a> {
    /// Well-formedness: as for the polygon scalar of the same layout.
    pub open spec fn wf(&self) -> bool {
        &&& self.coords.wf()
        &&& self.geom_offsets.wf()
        &&& self.ring_offsets.wf()
        &&& self.ring_offsets.last_offset() <= self.coords.spec_len()
        &&& self.geom_offsets.last_offset() <= self.ring_offsets.spec_len()
        &&& self.geom_index < self.geom_offsets.spec_len()
    }

    /// The coordinate range of line `j`, counted over the whole array.
    pub open spec fn line_view(&self, j: int) -> Seq<(u64, u64)> {
        self.coords.coords().subrange(
            self.ring_offsets.offsets()[j],
            self.ring_offsets.offsets()[j + 1],
        )
    }

    /// The lines of this geometry, in order.
    pub open spec fn lines(&self) -> Seq<Seq<(u64, u64)>> {
        Seq::new(
            (self.geom_offsets.offsets()[self.geom_index as int + 1]
                - self.geom_offsets.offsets()[self.geom_index as int]) as nat,
            |t: int| self.line_view(self.geom_offsets.offsets()[self.geom_index as int] + t),
        )
    }

    /// The number of lines in this geometry.
    pub fn num_lines(&self) -> (n: usize)
        requires
            self.wf(),
        ensures
            n == self.lines().len(),
    {
        let (s, e) = self.geom_offsets.start_end(self.geom_index);
        e - s
    }

    /// The line at index `t`, or nothing when `t` is out of range.
    pub fn line(&self, t: usize) -> (r: Option<LineString<'a>>)
        requires
            self.wf(),
        ensures
            match r {
                Option::None => t >= self.lines().len(),
                Option::Some(l) => {
                    &&& t < self.lines().len()
                    &&& l.wf()
                    &&& l.verts() == self.lines()[t as int]
                },
            },
    {
        let (s, e) = self.geom_offsets.start_end(self.geom_index);
        if t >= e - s {
            return Option::None;
        }
        proof {
            self.geom_offsets.lemma_window_bounds();
        }
        Option::Some(LineString {
            coords: self.coords,
            geom_offsets: self.ring_offsets,
            geom_index: s + t,
        })
    }

    /// Materializes this view into an owned geometry object.
    #[verifier::loop_isolation(false)]
    pub fn to_geo(&self) -> (g: MultiLineStringGeom)
        requires
            self.wf(),
        ensures
            g.line_views() == self.lines(),
    {
        let n: usize = self.num_lines();
        let mut lines: Vec<LineStringGeom> = Vec::new();
        let mut t: usize = 0;
        while t < n
            invariant
                t <= n,
                lines@.len() == t,
                forall|j: int| 0 <= j < t ==>
                    #[trigger] lines@[j].coords@ == self.lines()[j],
            decreases n - t,
        {
            let l: LineString<'a> = match self.line(t) {
                Option::Some(l) => l,
                Option::None => {
                    proof {
                        assert(false);
                    }
                    LineString {
                        coords: self.coords,
                        geom_offsets: self.ring_offsets,
                        geom_index: 0,
                    }
                },
            };
            lines.push(l.to_geo());
            t = t + 1;
        }
        let g = MultiLineStringGeom { lines };
        proof {
            assert(g.line_views() =~= self.lines());
        }
        g
    }
}


/// Law: converting a multi-line-string array to its owned geometry objects
/// and building an array back from them restores the logical contents
/// exactly, nulls and empty geometries included, through
/// `multilinestring_geoms_view` as in the sibling classes.
pub proof fn lemma_multilinestring_geo_roundtrip(
    a: &MultiLineStringArray,
    gs: Seq<Option<MultiLineStringGeom>>,
    b: &MultiLineStringArray,
)
    requires
        a.wf(),
        multilinestring_geoms_view(gs) == a.view(),
        b.wf(),
        b.view() == multilinestring_geoms_view(gs),
    ensures
        b.view() == a.view(),
        b.spec_len() == a.spec_len(),
{
    assert(multilinestring_geoms_view(gs).len() == gs.len());
}
} // verus!
