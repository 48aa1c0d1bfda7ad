//! An immutable array of line-string geometries. The physical layout is the
//! same as the multi-point array's, one offset buffer into the coordinates,
//! so conversions between the two classes only change the semantic type and
//! move no data.

use vstd::prelude::*;

use crate::GeoArrowError;
use crate::coords::{CoordBuffer, CoordType};
use crate::geom::{LineStringGeom, MultiPointGeom};
use crate::multipoint::{MultiPointArray, multipoint_geoms_view};
use crate::offsets::OffsetBuffer;
use crate::validity::{Validity, slot_valid};

verus! {

/// An immutable array of line-string geometries.
#[derive(Debug)]
pub struct LineStringArray {
    /// The positions of every geometry, back to back.
    pub coords: CoordBuffer,
    /// Offsets into the coordinate buffer where each geometry starts.
    pub geom_offsets: OffsetBuffer,
    /// Optional per-geometry null markers.
    pub validity: Option<Validity>,
}

/// A borrowed view of one line string of an array.
#[derive(Debug)]
pub struct LineString<'a> {
    /// The array's coordinate buffer.
    pub coords: &'a CoordBuffer,
    /// The array's geometry offsets.
    pub geom_offsets: &'a OffsetBuffer,
    /// Which geometry of the array this view addresses.
    pub geom_index: usize,
}

/// The same sequence read through the layout twin: each line string as a
/// multi-point over the same coordinate vector. Construction packs through
/// this reading, so its overflow condition is stated over it.
pub open spec fn linestring_as_multipoints(gs: Seq<Option<LineStringGeom>>) -> Seq<
    Option<MultiPointGeom>,
> {
    gs.map(
        |_i: int, g: Option<LineStringGeom>| match g {
            Option::None => Option::<MultiPointGeom>::None,
            Option::Some(l) => Option::Some(MultiPointGeom { points: l.coords }),
        },
    )
}

/// The logical contents of a sequence of optional owned line strings.
pub open spec fn linestring_geoms_view(gs: Seq<Option<LineStringGeom>>) -> Seq<
    Option<Seq<(u64, u64)>>,
> {
    Seq::new(
        gs.len(),
        |i: int| match gs[i] {
            Option::None => Option::None,
            Option::Some(g) => Option::Some(g.coords@),
        },
    )
}

impl LineStringArray {
    /// Well-formedness: as for the multi-point array of the same layout.
    pub open spec fn wf(&self) -> bool {
        &&& self.coords.wf()
        &&& self.geom_offsets.wf()
        &&& self.geom_offsets.last_offset() <= self.coords.spec_len()
        &&& match self.validity {
            Option::None => true,
            Option::Some(v) => v.wf() && v.spec_len() == self.geom_offsets.spec_len(),
        }
    }

    /// The number of geometries in this array.
    pub open spec fn spec_len(&self) -> int {
        self.geom_offsets.spec_len()
    }

    /// The coordinate range of geometry `i`, validity ignored.
    pub open spec fn slot_coords(&self, i: int) -> Seq<(u64, u64)> {
        self.coords.coords().subrange(
            self.geom_offsets.offsets()[i],
            self.geom_offsets.offsets()[i + 1],
        )
    }

    /// The logical contents: one optional coordinate sequence per slot.
    pub open spec fn view(&self) -> Seq<Option<Seq<(u64, u64)>>> {
        Seq::new(
            self.spec_len() as nat,
            |i: int| if slot_valid(&self.validity, i) {
                Option::Some(self.slot_coords(i))
            } else {
                Option::None
            },
        )
    }

    /// Creates an array from parts already known consistent, in O(1);
    /// `try_new` is the validating constructor.
    pub fn new(
        coords: CoordBuffer,
        geom_offsets: OffsetBuffer,
        validity: Option<Validity>,
    ) -> (r: LineStringArray)
        requires
            coords.wf(),
            geom_offsets.wf(),
            match validity {
                Option::None => true,
                Option::Some(v) => v.wf() && v.spec_len() == geom_offsets.spec_len(),
            },
            geom_offsets.last_offset() == coords.spec_len(),
        ensures
            r == (LineStringArray { coords, geom_offsets, validity }),
            r.wf(),
    {
        LineStringArray { coords, geom_offsets, validity }
    }

    /// Creates an array from parts, validating them as the multi-point
    /// constructor does.
    pub fn try_new(
        coords: CoordBuffer,
        geom_offsets: OffsetBuffer,
        validity: Option<Validity>,
    ) -> (r: Result<LineStringArray, GeoArrowError>)
        requires
            coords.wf(),
            geom_offsets.wf(),
            match validity {
                Option::None => true,
                Option::Some(v) => v.wf(),
            },
        ensures
            match r {
                Ok(a) => {
                    &&& a == (LineStringArray { coords, geom_offsets, validity })
                    &&& a.wf()
                    &&& crate::multipoint::parts_consistent(
                        &coords,
                        match validity {
                            Option::None => Option::<int>::None,
                            Option::Some(v) => Option::Some(v.spec_len()),
                        },
                        &geom_offsets,
                    )
                },
                Err(e) => {
                    &&& (e == GeoArrowError::ValidityLengthMismatch
                        || e == GeoArrowError::OffsetLengthMismatch)
                    &&& !crate::multipoint::parts_consistent(
                        &coords,
                        match validity {
                            Option::None => Option::<int>::None,
                            Option::Some(v) => Option::Some(v.spec_len()),
                        },
                        &geom_offsets,
                    )
                },
            },
    {
        let validity_len: Option<usize> = match &validity {
            Option::Some(v) => Option::Some(v.count()),
            Option::None => Option::None,
        };
        match crate::multipoint::check(&coords, validity_len, &geom_offsets) {
            Ok(()) => Ok(LineStringArray { coords, geom_offsets, validity }),
            Err(e) => Err(e),
        }
    }

    /// The number of geometries in this array.
    pub fn len(&self) -> (n: usize)
        ensures
            n == self.spec_len(),
    {
        self.geom_offsets.len()
    }

    /// Whether slot `i` is null; an empty line string at a valid slot is not.
    pub fn is_null(&self, i: usize) -> (r: bool)
        requires
            self.wf(),
            i < self.spec_len(),
        ensures
            r == (self.view()[i as int] is None),
    {
        match &self.validity {
            Option::None => false,
            Option::Some(v) => !v.is_valid(i),
        }
    }

    /// The borrowed view of geometry `i`, without consulting validity.
    pub fn value<'a>(&'a self, i: usize) -> (s: LineString<'a>)
        requires
            self.wf(),
            i < self.spec_len(),
        ensures
            s.wf(),
            s.verts() == self.slot_coords(i as int),
    {
        LineString { coords: &self.coords, geom_offsets: &self.geom_offsets, geom_index: i }
    }

    /// The borrowed view of geometry `i`, or nothing when the slot is null.
    pub fn get<'a>(&'a self, i: usize) -> (s: Option<LineString<'a>>)
        requires
            self.wf(),
            i < self.spec_len(),
        ensures
            match s {
                Option::None => self.view()[i as int] is None,
                Option::Some(m) => {
                    &&& m.wf()
                    &&& self.view()[i as int] == Option::Some(m.verts())
                },
            },
    {
        if self.is_null(i) {
            return Option::None;
        }
        Option::Some(self.value(i))
    }

    /// Materializes the whole array as one optional owned geometry per slot.
    pub fn iter_geo(&self) -> (gs: Vec<Option<LineStringGeom>>)
        requires
            self.wf(),
        ensures
            linestring_geoms_view(gs@) == self.view(),
            gs@.len() == self.spec_len(),
    {
        let n: usize = self.len();
        let mut gs: Vec<Option<LineStringGeom>> = Vec::new();
        let mut k: usize = 0;
        while k < n
            invariant
                self.wf(),
                n == self.spec_len(),
                k <= n,
                gs@.len() == k,
                forall|i: int| 0 <= i < k ==>
                    #[trigger] linestring_geoms_view(gs@)[i] == self.view()[i],
            decreases n - k,
        {
            let ghost pre = gs@;
            if self.is_null(k) {
                gs.push(Option::None);
            } else {
                let s: LineString<'_> = self.value(k);
                gs.push(Option::Some(s.to_geo()));
            }
            proof {
                assert forall|i: int| 0 <= i < k + 1 implies
                    #[trigger] linestring_geoms_view(gs@)[i] == self.view()[i] by {
                    if i < k {
                        assert(gs@[i] == pre[i]);
                        assert(linestring_geoms_view(pre)[i] == self.view()[i]);
                    }
                }
            }
            k = k + 1;
        }
        proof {
            assert(linestring_geoms_view(gs@) =~= self.view());
        }
        gs
    }

    /// Builds an array of the requested coordinate layout from one optional
    /// owned geometry per slot, through the layout twin: the multi-point
    /// construction does the packing, and only the semantic type changes.
    /// Fails exactly when the total coordinate count overflows the index
    /// width.
    pub fn from_geoms(geoms: Vec<Option<LineStringGeom>>, target: CoordType) -> (r: Result<
        LineStringArray,
        GeoArrowError,
    >)
        ensures
            r is Ok <==> {
                &&& crate::multipoint::flatten_geoms(linestring_as_multipoints(geoms@)).len()
                    <= i64::MAX
                &&& crate::multipoint::flatten_geoms(linestring_as_multipoints(geoms@)).len()
                    <= usize::MAX
            },
            match r {
                Ok(a) => {
                    &&& a.wf()
                    &&& a.view() == linestring_geoms_view(geoms@)
                    &&& a.coords.spec_coord_type() == target
                },
                Err(e) => e == GeoArrowError::LengthOverflow,
            },
    {
        let n: usize = geoms.len();
        let mut mps: Vec<Option<MultiPointGeom>> = Vec::new();
        let mut k: usize = 0;
        let ghost orig = geoms@;
        let mut geoms = geoms;
        while k < n
            invariant
                n == orig.len(),
                geoms@ == orig.subrange(k as int, n as int),
                k <= n,
                mps@.len() == k,
                mps@ == linestring_as_multipoints(orig.subrange(0, k as int)),
                forall|i: int| 0 <= i < k ==>
                    #[trigger] multipoint_geoms_view(mps@)[i] == linestring_geoms_view(orig)[i],
            decreases n - k,
        {
            let ghost pre = mps@;
            let g: Option<LineStringGeom> = geoms.remove(0);
            proof {
                assert(g == orig[k as int]);
                assert(geoms@ =~= orig.subrange(k + 1, n as int));
            }
            match g {
                Option::Some(l) => {
                    mps.push(Option::Some(MultiPointGeom { points: l.coords }));
                },
                Option::None => {
                    mps.push(Option::None);
                },
            }
            proof {
                assert forall|i: int| 0 <= i < k + 1 implies
                    #[trigger] multipoint_geoms_view(mps@)[i]
                        == linestring_geoms_view(orig)[i] by {
                    if i < k {
                        assert(mps@[i] == pre[i]);
                        assert(multipoint_geoms_view(pre)[i] == linestring_geoms_view(orig)[i]);
                    }
                }
                assert(mps@ =~= linestring_as_multipoints(orig.subrange(0, k + 1)));
            }
            k = k + 1;
        }
        proof {
            assert(orig.subrange(0, n as int) =~= orig);
        }
        let mp: MultiPointArray = match MultiPointArray::from_geoms(&mps, target) {
            Ok(a) => a,
            Err(e) => {
                return Err(e);
            },
        };
        let r = LineStringArray::from_multi_point_array(mp);
        proof {
            assert(r.view() =~= linestring_geoms_view(orig));
        }
        Ok(r)
    }

    /// Reinterprets a multi-point array as a line-string array: the two
    /// classes share one physical layout, so this moves the buffers and
    /// changes only the semantic type.
    pub fn from_multi_point_array(a: MultiPointArray) -> (r: LineStringArray)
        ensures
            r == (LineStringArray {
                coords: a.coords,
                geom_offsets: a.geom_offsets,
                validity: a.validity,
            }),
            a.wf() ==> r.wf() && r.view() == a.view(),
    {
        let MultiPointArray { coords, geom_offsets, validity } = a;
        let r = LineStringArray { coords, geom_offsets, validity };
        proof {
            if a.wf() {
                assert(r.view() =~= a.view());
            }
        }
        r
    }

    /// Slices this array in place: O(1), sharing every buffer, as for the
    /// multi-point array of the same layout.
    pub fn slice(&mut self, offset: usize, length: usize)
        requires
            old(self).wf(),
            offset + length <= old(self).spec_len(),
        ensures
            final(self).wf(),
            final(self).spec_len() == length,
            final(self).view() == old(self).view().subrange(
                offset as int,
                offset + length as int,
            ),
            final(self).coords == old(self).coords,
            crate::offsets::offsets_window_shifted(
                old(self).geom_offsets,
                final(self).geom_offsets,
                offset as int,
                length as int,
            ),
            crate::validity::validity_window_shifted(
                old(self).validity,
                final(self).validity,
                offset as int,
                length as int,
            ),
    {
        proof {
            old(self).geom_offsets.lemma_window_bounds();
        }
        match &mut self.validity {
            Option::Some(v) => v.slice(offset, length),
            Option::None => {},
        }
        self.geom_offsets.slice(offset, length);
        proof {
            let ghost osub = old(self).geom_offsets.offsets().subrange(
                offset as int,
                offset + length + 1,
            );
            assert(self.geom_offsets.offsets() == osub);
            assert(self.geom_offsets.offsets().len() == length + 1);
            assert forall|i: int| 0 <= i < length implies
                #[trigger] self.view()[i] == old(self).view()[offset + i] by {
                assert(self.geom_offsets.offsets()[i] == osub[i]);
                assert(self.geom_offsets.offsets()[i + 1] == osub[i + 1]);
                match (&self.validity, &old(self).validity) {
                    (Option::Some(v), Option::Some(w)) => {
                        let ghost bsub = w.bits().subrange(offset as int, offset + length as int);
                        assert(v.bits() == bsub);
                        assert(v.bits()[i] == bsub[i]);
                    },
                    _ => {},
                }
            }
            assert(self.view() =~= old(self).view().subrange(
                offset as int,
                offset + length as int,
            ));
            let oo = old(self).geom_offsets.offsets();
            assert(self.geom_offsets.last_offset() == oo[offset + length]);
            assert(oo[offset + length] <= oo[old(self).geom_offsets.spec_len() as int]);
            match (&self.validity, &old(self).validity) {
                (Option::Some(v), Option::Some(w)) => {
                    assert(v.bits().len() == length);
                },
                _ => {},
            }
        }
    }

    /// Copies the `length` geometries beginning at `offset` into a fresh,
    /// compact array, as for the multi-point array of the same layout.
    pub fn owned_slice(&self, offset: usize, length: usize) -> (r: LineStringArray)
        requires
            self.wf(),
            offset + length <= self.spec_len(),
        ensures
            r.wf(),
            r.spec_len() == length,
            r.view() == self.view().subrange(offset as int, offset + length as int),
            r.coords.is_compact(),
            r.geom_offsets.is_compact(),
            r.coords.spec_len() == self.geom_offsets.offsets()[offset + length]
                - self.geom_offsets.offsets()[offset as int],
    {
        proof {
            self.geom_offsets.lemma_window_bounds();
        }
        let cstart: usize = self.geom_offsets.offset_at(offset);
        let cend: usize = self.geom_offsets.offset_at(offset + length);
        proof {
            assert(self.geom_offsets.offsets()[offset as int]
                <= self.geom_offsets.offsets()[offset + length]);
        }
        let geom_offsets: OffsetBuffer = self.geom_offsets.owned_slice(offset, length);
        let coords: CoordBuffer = self.coords.owned_slice(cstart, cend - cstart);
        let validity: Option<Validity> = match &self.validity {
            Option::Some(v) => Option::Some(v.owned_slice(offset, length)),
            Option::None => Option::None,
        };
        let r = LineStringArray { coords, geom_offsets, validity };
        proof {
            assert(r.geom_offsets.last_offset()
                == self.geom_offsets.offsets()[offset + length]
                    - self.geom_offsets.offsets()[offset as int]);
            assert(r.coords.spec_len() == cend - cstart);
            assert forall|i: int| 0 <= i < length implies
                #[trigger] r.view()[i] == self.view()[offset + i] by {
                assert(r.geom_offsets.offsets()[i]
                    == self.geom_offsets.offsets()[offset + i] - cstart);
                assert(r.geom_offsets.offsets()[i + 1]
                    == self.geom_offsets.offsets()[offset + i + 1] - cstart);
                assert(0 <= self.geom_offsets.offsets()[offset + i] - cstart);
                assert(self.geom_offsets.offsets()[offset + i + 1]
                    <= self.geom_offsets.offsets()[offset + length]);
                self.coords.coords().lemma_slice_of_slice(
                    cstart as int,
                    cend as int,
                    self.geom_offsets.offsets()[offset + i] - cstart,
                    self.geom_offsets.offsets()[offset + i + 1] - cstart,
                );
                assert(r.slot_coords(i) =~= self.slot_coords(offset + i));
                match (&r.validity, &self.validity) {
                    (Option::Some(v), Option::Some(w)) => {
                        assert(v.bits()[i] == w.bits().subrange(
                            offset as int,
                            offset + length as int,
                        )[i]);
                    },
                    _ => {},
                }
            }
            assert(r.view() =~= self.view().subrange(offset as int, offset + length as int));
            assert(r.geom_offsets.spec_len() == length);
            match &r.validity {
                Option::Some(v) => {
                    assert(v.bits().len() == length);
                },
                Option::None => {},
            }
        }
        r
    }
}

impl<'a> LineString<'a> {
    /// Well-formedness: as for the multi-point scalar of the same layout.
    pub open spec fn wf(&self) -> bool {
        &&& self.coords.wf()
        &&& self.geom_offsets.wf()
        &&& self.geom_offsets.last_offset() <= self.coords.spec_len()
        &&& self.geom_index < self.geom_offsets.spec_len()
    }

    /// The positions of this line string, in order.
    pub open spec fn verts(&self) -> Seq<(u64, u64)> {
        self.coords.coords().subrange(
            self.geom_offsets.offsets()[self.geom_index as int],
            self.geom_offsets.offsets()[self.geom_index as int + 1],
        )
    }

    /// Borrows one geometry of an array's buffers.
    pub fn new_borrowed(
        coords: &'a CoordBuffer,
        geom_offsets: &'a OffsetBuffer,
        geom_index: usize,
    ) -> (s: LineString<'a>)
        requires
            coords.wf(),
            geom_offsets.wf(),
            geom_offsets.last_offset() <= coords.spec_len(),
            geom_index < geom_offsets.spec_len(),
        ensures
            s.wf(),
            s == (LineString { coords, geom_offsets, geom_index }),
    {
        LineString { coords, geom_offsets, geom_index }
    }

    /// The number of positions in this line string.
    pub fn num_coords(&self) -> (n: usize)
        requires
            self.wf(),
        ensures
            n == self.verts().len(),
    {
        let (s, e) = self.geom_offsets.start_end(self.geom_index);
        e - s
    }

    /// The position at index `i`, or nothing when `i` is out of range.
    pub fn coord(&self, i: usize) -> (c: Option<(u64, u64)>)
        requires
            self.wf(),
        ensures
            match c {
                Option::None => i >= self.verts().len(),
                Option::Some(p) => i < self.verts().len() && p == self.verts()[i as int],
            },
    {
        let (s, e) = self.geom_offsets.start_end(self.geom_index);
        if i >= e - s {
            return Option::None;
        }
        proof {
            self.geom_offsets.lemma_window_bounds();
        }
        Option::Some(self.coords.get(s + i))
    }

    /// Materializes this view into an owned geometry object.
    pub fn to_geo(&self) -> (g: LineStringGeom)
        requires
            self.wf(),
        ensures
            g.coords@ == self.verts(),
    {
        let (s, e) = self.geom_offsets.start_end(self.geom_index);
        let mut coords: Vec<(u64, u64)> = Vec::new();
        let mut k: usize = 0;
        proof {
            self.geom_offsets.lemma_window_bounds();
        }
        while k < e - s
            invariant
                self.wf(),
                self.geom_offsets.offsets()[self.geom_index as int] == s,
                self.geom_offsets.offsets()[self.geom_index as int + 1] == e,
                s <= e <= self.coords.spec_len(),
                k <= e - s,
                coords@.len() == k,
                forall|j: int| 0 <= j < k ==>
                    #[trigger] coords@[j] == self.coords.coords()[s + j],
            decreases e - s - k,
        {
            coords.push(self.coords.get(s + k));
            k = k + 1;
        }
        let g = LineStringGeom { coords };
        proof {
            assert(g.coords@ =~= self.verts());
        }
        g
    }
}


/// Law: converting a line-string array to its owned geometry objects and
/// building an array back from them restores the logical contents exactly,
/// nulls and empty line strings included. `iter_geo` promises its result
/// depicts the source array's view and `from_geoms` promises the built array
/// depicts its input, both through `linestring_geoms_view`; this states
/// their composition.
pub proof fn lemma_linestring_geo_roundtrip(
    a: &LineStringArray,
    gs: Seq<Option<LineStringGeom>>,
    b: &LineStringArray,
)
    requires
        a.wf(),
        linestring_geoms_view(gs) == a.view(),
        b.wf(),
        b.view() == linestring_geoms_view(gs),
    ensures
        b.view() == a.view(),
        b.spec_len() == a.spec_len(),
{
    assert(linestring_geoms_view(gs).len() == gs.len());
}
} // verus!
