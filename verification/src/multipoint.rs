//! An immutable array of multi-point geometries: a coordinate buffer, one
//! offset buffer delimiting each geometry's positions, and an optional
//! validity bitmap. Semantically a sequence of optional multi-points.

use vstd::prelude::*;

use crate::GeoArrowError;
use crate::coords::{CoordBuffer, CoordType};
use crate::geom::MultiPointGeom;
use crate::offsets::OffsetBuffer;
use crate::validity::{Validity, slot_valid};

verus! {

/// An immutable array of multi-point geometries.
#[derive(Debug)]
pub struct MultiPointArray {
    /// The positions of every geometry, back to back.
    pub coords: CoordBuffer,
    /// Offsets into the coordinate buffer where each geometry starts.
    pub geom_offsets: OffsetBuffer,
    /// Optional per-geometry null markers.
    pub validity: Option<Validity>,
}

/// A borrowed view of one multi-point of an array: the backing buffers plus
/// the geometry's index. Materializing it into an owned geometry object is a
/// separate, allocating step.
#[derive(Debug)]
pub struct MultiPoint<'a> {
    /// The array's coordinate buffer.
    pub coords: &'a CoordBuffer,
    /// The array's geometry offsets.
    pub geom_offsets: &'a OffsetBuffer,
    /// Which geometry of the array this view addresses.
    pub geom_index: usize,
}

/// The logical contents of a sequence of optional owned multi-points:
/// one optional coordinate sequence per slot.
pub open spec fn multipoint_geoms_view(gs: Seq<Option<MultiPointGeom>>) -> Seq<
    Option<Seq<(u64, u64)>>,
> {
    Seq::new(
        gs.len(),
        |i: int| match gs[i] {
            Option::None => Option::None,
            Option::Some(g) => Option::Some(g.points@),
        },
    )
}

/// The shared construction-time validation: a validity bitmap, when present,
/// must cover exactly the logical length, and the terminal offset must equal
/// the coordinate buffer's length.
pub open spec fn parts_consistent(
    coords: &CoordBuffer,
    validity_len: Option<int>,
    geom_offsets: &OffsetBuffer,
) -> bool {
    &&& match validity_len {
        Option::None => true,
        Option::Some(n) => n == geom_offsets.spec_len(),
    }
    &&& geom_offsets.last_offset() == coords.spec_len()
}

/// Validates array parts, as both constructors do: the validity length must
/// match the number of geometries, and the largest geometry offset must match
/// the coordinate count.
pub fn check(
    coords: &CoordBuffer,
    validity_len: Option<usize>,
    geom_offsets: &OffsetBuffer,
) -> (r: Result<(), GeoArrowError>)
    requires
        coords.wf(),
        geom_offsets.wf(),
    ensures
        match r {
            Ok(()) => parts_consistent(
                coords,
                match validity_len {
                    Option::None => Option::<int>::None,
                    Option::Some(n) => Option::Some(n as int),
                },
                geom_offsets,
            ),
            Err(e) => {
                &&& !parts_consistent(
                    coords,
                    match validity_len {
                        Option::None => Option::<int>::None,
                        Option::Some(n) => Option::Some(n as int),
                    },
                    geom_offsets,
                )
                &&& (e == GeoArrowError::ValidityLengthMismatch
                    || e == GeoArrowError::OffsetLengthMismatch)
            },
        },
{
    match validity_len {
        Option::Some(n) => {
            if n != geom_offsets.len() {
                return Err(GeoArrowError::ValidityLengthMismatch);
            }
        },
        Option::None => {},
    }
    if geom_offsets.last() != coords.len() {
        return Err(GeoArrowError::OffsetLengthMismatch);
    }
    Ok(())
}

impl MultiPointArray {
    /// Well-formedness: each buffer is well-formed, the bitmap covers the
    /// logical length exactly, and every geometry's range lies inside the
    /// coordinate buffer.
    pub open spec fn wf(&self) -> bool {
        &&& self.coords.wf()
        &&& self.geom_offsets.wf()
        &&& self.geom_offsets.last_offset() <= self.coords.spec_len()
        &&& match self.validity {
            Option::None => true,
            Option::Some(v) => v.wf() && v.spec_len() == self.geom_offsets.spec_len(),
        }
    }

    /// The number of geometries in this array.
    pub open spec fn spec_len(&self) -> int {
        self.geom_offsets.spec_len()
    }

    /// The coordinate range of geometry `i`, validity ignored.
    pub open spec fn slot_coords(&self, i: int) -> Seq<(u64, u64)> {
        self.coords.coords().subrange(
            self.geom_offsets.offsets()[i],
            self.geom_offsets.offsets()[i + 1],
        )
    }

    /// The logical contents: one optional coordinate sequence per slot, where
    /// a cleared validity flag makes the slot null. An empty geometry is a
    /// present slot with an empty range, distinct from a null slot.
    pub open spec fn view(&self) -> Seq<Option<Seq<(u64, u64)>>> {
        Seq::new(
            self.spec_len() as nat,
            |i: int| if slot_valid(&self.validity, i) {
                Option::Some(self.slot_coords(i))
            } else {
                Option::None
            },
        )
    }

    /// An array is compact when none of its buffers hides storage around its
    /// window: the shape `owned_slice` guarantees.
    pub open spec fn is_compact(&self) -> bool {
        &&& self.coords.is_compact()
        &&& self.geom_offsets.is_compact()
        &&& match self.validity {
            Option::None => true,
            Option::Some(v) => v.is_compact(),
        }
    }

    /// Creates an array from parts already known consistent, in O(1).
    /// Violating the conditions here is a caller error, not a recoverable
    /// one; `try_new` is the validating constructor.
    pub fn new(
        coords: CoordBuffer,
        geom_offsets: OffsetBuffer,
        validity: Option<Validity>,
    ) -> (r: MultiPointArray)
        requires
            coords.wf(),
            geom_offsets.wf(),
            match validity {
                Option::None => true,
                Option::Some(v) => v.wf() && v.spec_len() == geom_offsets.spec_len(),
            },
            geom_offsets.last_offset() == coords.spec_len(),
        ensures
            r == (MultiPointArray { coords, geom_offsets, validity }),
            r.wf(),
    {
        MultiPointArray { coords, geom_offsets, validity }
    }

    /// Creates an array from parts, validating them first: the validity
    /// length must match the number of geometries, and the largest geometry
    /// offset must match the coordinate count.
    pub fn try_new(
        coords: CoordBuffer,
        geom_offsets: OffsetBuffer,
        validity: Option<Validity>,
    ) -> (r: Result<MultiPointArray, GeoArrowError>)
        requires
            coords.wf(),
            geom_offsets.wf(),
            match validity {
                Option::None => true,
                Option::Some(v) => v.wf(),
            },
        ensures
            match r {
                Ok(a) => {
                    &&& a == (MultiPointArray { coords, geom_offsets, validity })
                    &&& a.wf()
                    &&& parts_consistent(
                        &coords,
                        match validity {
                            Option::None => Option::<int>::None,
                            Option::Some(v) => Option::Some(v.spec_len()),
                        },
                        &geom_offsets,
                    )
                },
                Err(e) => {
                    &&& !parts_consistent(
                        &coords,
                        match validity {
                            Option::None => Option::<int>::None,
                            Option::Some(v) => Option::Some(v.spec_len()),
                        },
                        &geom_offsets,
                    )
                    &&& (e == GeoArrowError::ValidityLengthMismatch
                        || e == GeoArrowError::OffsetLengthMismatch)
                },
            },
    {
        let validity_len: Option<usize> = match &validity {
            Option::Some(v) => Option::Some(v.count()),
            Option::None => Option::None,
        };
        match check(&coords, validity_len, &geom_offsets) {
            Ok(()) => Ok(MultiPointArray { coords, geom_offsets, validity }),
            Err(e) => Err(e),
        }
    }

    /// The number of geometries in this array.
    pub fn len(&self) -> (n: usize)
        ensures
            n == self.spec_len(),
    {
        self.geom_offsets.len()
    }

    /// Whether slot `i` is null. Emptiness is a different question: an empty
    /// geometry at a valid slot is not null.
    pub fn is_null(&self, i: usize) -> (r: bool)
        requires
            self.wf(),
            i < self.spec_len(),
        ensures
            r == (self.view()[i as int] is None),
    {
        match &self.validity {
            Option::None => false,
            Option::Some(v) => !v.is_valid(i),
        }
    }

    /// The borrowed view of geometry `i`, without consulting validity;
    /// callers combine it with `is_null`. Out-of-range access is a caller
    /// error, not a recoverable one.
    pub fn value<'a>(&'a self, i: usize) -> (s: MultiPoint<'a>)
        requires
            self.wf(),
            i < self.spec_len(),
        ensures
            s.wf(),
            s.verts() == self.slot_coords(i as int),
    {
        MultiPoint { coords: &self.coords, geom_offsets: &self.geom_offsets, geom_index: i }
    }

    /// The borrowed view of geometry `i`, or nothing when the slot is null.
    pub fn get<'a>(&'a self, i: usize) -> (s: Option<MultiPoint<'a>>)
        requires
            self.wf(),
            i < self.spec_len(),
        ensures
            match s {
                Option::None => self.view()[i as int] is None,
                Option::Some(m) => {
                    &&& m.wf()
                    &&& self.view()[i as int] == Option::Some(m.verts())
                },
            },
    {
        if self.is_null(i) {
            return Option::None;
        }
        Option::Some(self.value(i))
    }

    /// Materializes geometry `i` as an owned object, without consulting
    /// validity.
    pub fn value_as_geo(&self, i: usize) -> (g: MultiPointGeom)
        requires
            self.wf(),
            i < self.spec_len(),
        ensures
            g.points@ == self.slot_coords(i as int),
    {
        self.value(i).to_geo()
    }

    /// Materializes geometry `i` as an owned object, or nothing when the
    /// slot is null.
    pub fn get_as_geo(&self, i: usize) -> (g: Option<MultiPointGeom>)
        requires
            self.wf(),
            i < self.spec_len(),
        ensures
            match g {
                Option::None => self.view()[i as int] is None,
                Option::Some(m) => self.view()[i as int] == Option::Some(m.points@),
            },
    {
        if self.is_null(i) {
            return Option::None;
        }
        Option::Some(self.value_as_geo(i))
    }

    /// Materializes every geometry in index order, ignoring validity: null
    /// slots come out as their raw (empty) coordinate range.
    pub fn iter_geo_values(&self) -> (gs: Vec<MultiPointGeom>)
        requires
            self.wf(),
        ensures
            gs@.len() == self.spec_len(),
            forall|i: int| 0 <= i < gs@.len() ==>
                #[trigger] gs@[i].points@ == self.slot_coords(i),
    {
        let n: usize = self.len();
        let mut gs: Vec<MultiPointGeom> = Vec::new();
        let mut k: usize = 0;
        while k < n
            invariant
                self.wf(),
                n == self.spec_len(),
                k <= n,
                gs@.len() == k,
                forall|i: int| 0 <= i < k ==>
                    #[trigger] gs@[i].points@ == self.slot_coords(i),
            decreases n - k,
        {
            gs.push(self.value_as_geo(k));
            k = k + 1;
        }
        gs
    }

    /// Materializes the whole array as one optional owned geometry per slot,
    /// in index order: the restartable iteration surface that algorithms and
    /// conversions consume.
    pub fn iter_geo(&self) -> (gs: Vec<Option<MultiPointGeom>>)
        requires
            self.wf(),
        ensures
            multipoint_geoms_view(gs@) == self.view(),
            gs@.len() == self.spec_len(),
    {
        let n: usize = self.len();
        let mut gs: Vec<Option<MultiPointGeom>> = Vec::new();
        let mut k: usize = 0;
        while k < n
            invariant
                self.wf(),
                n == self.spec_len(),
                k <= n,
                gs@.len() == k,
                forall|i: int| 0 <= i < k ==>
                    #[trigger] multipoint_geoms_view(gs@)[i] == self.view()[i],
            decreases n - k,
        {
            let ghost pre = gs@;
            gs.push(self.get_as_geo(k));
            proof {
                assert forall|i: int| 0 <= i < k + 1 implies
                    #[trigger] multipoint_geoms_view(gs@)[i] == self.view()[i] by {
                    if i < k {
                        assert(multipoint_geoms_view(pre)[i] == self.view()[i]);
                        assert(gs@[i] == pre[i]);
                    }
                }
            }
            k = k + 1;
        }
        proof {
            assert(multipoint_geoms_view(gs@) =~= self.view());
        }
        gs
    }

    /// Builds an array of the requested coordinate layout from one optional
    /// owned geometry per slot. A validity bitmap is kept only when some slot
    /// is null. Fails exactly when the total coordinate count overflows the
    /// index width.
    pub fn from_geoms(geoms: &Vec<Option<MultiPointGeom>>, target: CoordType) -> (r: Result<
        MultiPointArray,
        GeoArrowError,
    >)
        ensures
            match r {
                Ok(a) => {
                    &&& a.wf()
                    &&& a.spec_len() == geoms@.len()
                    &&& a.geom_offsets.last_offset() == a.coords.spec_len()
                    &&& a.view() == multipoint_geoms_view(geoms@)
                    &&& a.coords.spec_coord_type() == target
                    &&& a.is_compact()
                    &&& a.validity is Some <==> (exists|i: int|
                        0 <= i < geoms@.len() && geoms@[i] is None)
                    &&& flatten_geoms(geoms@).len() <= i64::MAX
                    &&& flatten_geoms(geoms@).len() <= usize::MAX
                },
                Err(e) => {
                    &&& e == GeoArrowError::LengthOverflow
                    &&& (flatten_geoms(geoms@).len() > i64::MAX
                        || flatten_geoms(geoms@).len() > usize::MAX)
                },
            },
    {
        let n: usize = geoms.len();
        let mut lengths: Vec<usize> = Vec::new();
        let mut pairs: Vec<(u64, u64)> = Vec::new();
        let mut flags: Vec<bool> = Vec::new();
        let mut has_null: bool = false;
        let mut k: usize = 0;
        while k < n
            invariant
                n == geoms@.len(),
                k <= n,
                lengths@.len() == k,
                flags@.len() == k,
                forall|i: int| 0 <= i < k ==>
                    #[trigger] flags@[i] == (geoms@[i] is Some),
                has_null == (exists|i: int| 0 <= i < k && geoms@[i] is None),
                forall|i: int| 0 <= i < k ==>
                    #[trigger] lengths@[i] as int == slot_geom_len(geoms@[i]),
                pairs@ == flatten_geoms(geoms@.subrange(0, k as int)),
            decreases n - k,
        {
            match &geoms[k] {
                Option::Some(g) => {
                    let m: usize = g.points.len();
                    let mut j: usize = 0;
                    while j < m
                        invariant
                            n == geoms@.len(),
                            k < n,
                            j <= m,
                            g.points@.len() == m,
                            geoms@[k as int] == Option::Some(*g),
                            pairs@ == flatten_geoms(geoms@.subrange(0, k as int))
                                + g.points@.subrange(0, j as int),
                        decreases m - j,
                    {
                        let c: (u64, u64) = g.points[j];
                        pairs.push(c);
                        proof {
                            assert(pairs@ =~= flatten_geoms(geoms@.subrange(0, k as int))
                                + g.points@.subrange(0, j + 1));
                        }
                        j = j + 1;
                    }
                    lengths.push(m);
                    flags.push(true);
                    proof {
                        assert(g.points@.subrange(0, m as int) =~= g.points@);
                    }
                },
                Option::None => {
                    lengths.push(0);
                    flags.push(false);
                    has_null = true;
                },
            }
            proof {
                let now = geoms@.subrange(0, k + 1);
                assert(now.drop_last() =~= geoms@.subrange(0, k as int));
                assert(now.last() == geoms@[k as int]);
                assert(pairs@ =~= flatten_geoms(now));
            }
            k = k + 1;
        }
        proof {
            assert(geoms@.subrange(0, n as int) =~= geoms@);
            lemma_sum_is_flatten_len(geoms@, lengths@);
        }
        let geom_offsets: OffsetBuffer = match OffsetBuffer::from_lengths(&lengths) {
            Ok(b) => b,
            Err(e) => {
                return Err(e);
            },
        };
        let coords: CoordBuffer = CoordBuffer::from_pairs(&pairs, target);
        let validity: Option<Validity> = if has_null {
            Option::Some(Validity::from_bools(flags))
        } else {
            Option::None
        };
        proof {
            assert(geoms@.subrange(0, geoms@.len() as int) =~= geoms@);
            lemma_offsets_cover_flatten(geoms@, lengths@, geom_offsets);
        }
        let a = MultiPointArray { coords, geom_offsets, validity };
        proof {
            assert(a.wf());
            assert forall|i: int| 0 <= i < a.spec_len() implies
                #[trigger] a.view()[i] == multipoint_geoms_view(geoms@)[i] by {
                lemma_offsets_cover_flatten_at(geoms@, lengths@, a.geom_offsets, i);
                assert(a.slot_coords(i) =~= match geoms@[i] {
                    Option::None => Seq::<(u64, u64)>::empty(),
                    Option::Some(g) => g.points@,
                });
            }
            assert(a.view() =~= multipoint_geoms_view(geoms@));
        }
        Ok(a)
    }

    /// The physical coordinate layout of this array.
    pub fn coord_type(&self) -> (t: CoordType)
        ensures
            t == self.coords.spec_coord_type(),
    {
        self.coords.coord_type()
    }

    /// Repacks this array into the requested coordinate layout, preserving
    /// the logical contents exactly; the one operation that reshuffles
    /// coordinate memory.
    pub fn into_coord_type(self, target: CoordType) -> (r: MultiPointArray)
        requires
            self.wf(),
        ensures
            r.wf(),
            r.coords.spec_coord_type() == target,
            r.view() == self.view(),
            r.geom_offsets == self.geom_offsets,
            r.validity == self.validity,
    {
        let MultiPointArray { coords, geom_offsets, validity } = self;
        let new_coords: CoordBuffer = coords.into_coord_type(target);
        let r = MultiPointArray { coords: new_coords, geom_offsets, validity };
        proof {
            assert(r.view() =~= self.view());
        }
        r
    }

    /// The optional validity bitmap.
    pub fn validity(&self) -> (v: &Option<Validity>)
        ensures
            v == &self.validity,
    {
        &self.validity
    }

    /// Slices this array in place to `length` geometries beginning at
    /// `offset`: O(1), sharing every buffer. Child offsets are re-based by
    /// truncating their window, never by rewriting values, and the coordinate
    /// buffer is untouched. Exceeding the array's length is a caller error.
    pub fn slice(&mut self, offset: usize, length: usize)
        requires
            old(self).wf(),
            offset + length <= old(self).spec_len(),
        ensures
            final(self).wf(),
            final(self).spec_len() == length,
            final(self).view() == old(self).view().subrange(
                offset as int,
                offset + length as int,
            ),
            final(self).coords == old(self).coords,
            crate::offsets::offsets_window_shifted(
                old(self).geom_offsets,
                final(self).geom_offsets,
                offset as int,
                length as int,
            ),
            crate::validity::validity_window_shifted(
                old(self).validity,
                final(self).validity,
                offset as int,
                length as int,
            ),
    {
        proof {
            old(self).geom_offsets.lemma_window_bounds();
        }
        match &mut self.validity {
            Option::Some(v) => v.slice(offset, length),
            Option::None => {},
        }
        self.geom_offsets.slice(offset, length);
        proof {
            let ghost osub = old(self).geom_offsets.offsets().subrange(
                offset as int,
                offset + length + 1,
            );
            assert(self.geom_offsets.offsets() == osub);
            assert(self.geom_offsets.offsets().len() == length + 1);
            assert(self.geom_offsets.spec_len() == length);
            assert forall|i: int| 0 <= i < length implies
                #[trigger] self.view()[i] == old(self).view()[offset + i] by {
                assert(self.geom_offsets.offsets()[i] == osub[i]);
                assert(self.geom_offsets.offsets()[i + 1] == osub[i + 1]);
                assert(self.geom_offsets.offsets()[i]
                    == old(self).geom_offsets.offsets()[offset + i]);
                assert(self.geom_offsets.offsets()[i + 1]
                    == old(self).geom_offsets.offsets()[offset + i + 1]);
                match (&self.validity, &old(self).validity) {
                    (Option::Some(v), Option::Some(w)) => {
                        let ghost bsub = w.bits().subrange(offset as int, offset + length as int);
                        assert(v.bits() == bsub);
                        assert(v.bits()[i] == bsub[i]);
                        assert(v.bits()[i] == w.bits()[offset + i]);
                    },
                    _ => {},
                }
            }
            assert(self.view() =~= old(self).view().subrange(
                offset as int,
                offset + length as int,
            ));
            let oo = old(self).geom_offsets.offsets();
            assert(self.geom_offsets.last_offset() == oo[offset + length]);
            assert(oo[offset + length] <= oo[old(self).geom_offsets.spec_len() as int]);
            assert(self.coords == old(self).coords);
            match (&self.validity, &old(self).validity) {
                (Option::Some(v), Option::Some(w)) => {
                    assert(v.bits().len() == length);
                    assert(v.spec_len() == length);
                },
                _ => {},
            }
        }
    }

    /// Copies the `length` geometries beginning at `offset` into a fresh,
    /// compact array: only the coordinate range those geometries touch is
    /// copied, the offsets are re-based to zero, and the result's storage is
    /// independent of this array and itself unsliced.
    pub fn owned_slice(&self, offset: usize, length: usize) -> (r: MultiPointArray)
        requires
            self.wf(),
            offset + length <= self.spec_len(),
        ensures
            r.wf(),
            r.is_compact(),
            r.spec_len() == length,
            r.view() == self.view().subrange(offset as int, offset + length as int),
            r.coords.spec_coord_type() == self.coords.spec_coord_type(),
            r.coords.spec_len() == self.geom_offsets.offsets()[offset + length]
                - self.geom_offsets.offsets()[offset as int],
    {
        proof {
            self.geom_offsets.lemma_window_bounds();
        }
        let cstart: usize = self.geom_offsets.offset_at(offset);
        let cend: usize = self.geom_offsets.offset_at(offset + length);
        proof {
            assert(self.geom_offsets.offsets()[offset as int]
                <= self.geom_offsets.offsets()[offset + length]);
        }
        let geom_offsets: OffsetBuffer = self.geom_offsets.owned_slice(offset, length);
        let coords: CoordBuffer = self.coords.owned_slice(cstart, cend - cstart);
        let validity: Option<Validity> = match &self.validity {
            Option::Some(v) => Option::Some(v.owned_slice(offset, length)),
            Option::None => Option::None,
        };
        let r = MultiPointArray { coords, geom_offsets, validity };
        proof {
            assert(r.geom_offsets.last_offset()
                == self.geom_offsets.offsets()[offset + length]
                    - self.geom_offsets.offsets()[offset as int]);
            assert(r.coords.spec_len() == cend - cstart);
            assert forall|i: int| 0 <= i < length implies
                #[trigger] r.view()[i] == self.view()[offset + i] by {
                assert(r.geom_offsets.offsets()[i]
                    == self.geom_offsets.offsets()[offset + i] - cstart);
                assert(r.geom_offsets.offsets()[i + 1]
                    == self.geom_offsets.offsets()[offset + i + 1] - cstart);
                assert(0 <= self.geom_offsets.offsets()[offset + i] - cstart);
                assert(self.geom_offsets.offsets()[offset + i + 1]
                    <= self.geom_offsets.offsets()[offset + length]);
                self.coords.coords().lemma_slice_of_slice(
                    cstart as int,
                    cend as int,
                    self.geom_offsets.offsets()[offset + i] - cstart,
                    self.geom_offsets.offsets()[offset + i + 1] - cstart,
                );
                assert(r.slot_coords(i) =~= self.slot_coords(offset + i));
                match (&r.validity, &self.validity) {
                    (Option::Some(v), Option::Some(w)) => {
                        assert(v.bits()[i] == w.bits()[offset + i]);
                    },
                    _ => {},
                }
            }
            assert(r.view() =~= self.view().subrange(offset as int, offset + length as int));
            assert(r.geom_offsets.spec_len() == length);
            assert(r.geom_offsets.last_offset() <= r.coords.spec_len());
            match &r.validity {
                Option::Some(v) => {
                    assert(v.bits().len() == length);
                    assert(v.spec_len() == length);
                },
                Option::None => {},
            }
        }
        r
    }
}

/// Law: converting an array to its owned geometry objects and building an
/// array back from them restores the logical contents exactly, nulls and
/// empty geometries included. `iter_geo` promises its result depicts the
/// source array's view, and `from_geoms` promises the built array depicts its
/// input, both through `multipoint_geoms_view`; this states their
/// composition.
pub proof fn lemma_multipoint_geo_roundtrip(
    a: &MultiPointArray,
    gs: Seq<Option<MultiPointGeom>>,
    b: &MultiPointArray,
)
    requires
        a.wf(),
        multipoint_geoms_view(gs) == a.view(),
        b.wf(),
        b.view() == multipoint_geoms_view(gs),
    ensures
        b.view() == a.view(),
        b.spec_len() == a.spec_len(),
{
    assert(multipoint_geoms_view(gs).len() == gs.len());
}


/// The coordinate count a slot contributes: zero for a null slot.
pub open spec fn slot_geom_len(g: Option<MultiPointGeom>) -> int {
    match g {
        Option::None => 0,
        Option::Some(gg) => gg.points@.len() as int,
    }
}

/// All coordinates of a sequence of optional geometries, back to back, in
/// slot order; null slots contribute nothing.
pub open spec fn flatten_geoms(gs: Seq<Option<MultiPointGeom>>) -> Seq<(u64, u64)>
    decreases gs.len(),
{
    if gs.len() == 0 {
        Seq::empty()
    } else {
        flatten_geoms(gs.drop_last()) + match gs.last() {
            Option::None => Seq::<(u64, u64)>::empty(),
            Option::Some(g) => g.points@,
        }
    }
}

/// The flattened length of a prefix equals the offset accumulated from the
/// per-slot lengths.
proof fn lemma_offsets_cover_flatten(
    gs: Seq<Option<MultiPointGeom>>,
    lengths: Seq<usize>,
    b: OffsetBuffer,
)
    requires
        b.wf(),
        b.is_compact(),
        b.spec_len() == gs.len(),
        lengths.len() == gs.len(),
        forall|i: int| 0 <= i < gs.len() ==> #[trigger] lengths[i] as int == slot_geom_len(gs[i]),
        forall|i: int| 0 <= i < lengths.len() ==>
            #[trigger] b.offsets()[i + 1] == b.offsets()[i] + lengths[i],
    ensures
        forall|i: int| 0 <= i <= gs.len() ==>
            #[trigger] b.offsets()[i] == flatten_geoms(gs.subrange(0, i)).len(),
{
    assert forall|i: int| 0 <= i <= gs.len() implies
        #[trigger] b.offsets()[i] == flatten_geoms(gs.subrange(0, i)).len() by {
        lemma_offsets_cover_flatten_prefix(gs, lengths, b, i);
    }
}

/// One prefix at a time: offset `i` equals the flattened length of the first
/// `i` slots.
proof fn lemma_offsets_cover_flatten_prefix(
    gs: Seq<Option<MultiPointGeom>>,
    lengths: Seq<usize>,
    b: OffsetBuffer,
    i: int,
)
    requires
        b.wf(),
        b.is_compact(),
        b.spec_len() == gs.len(),
        lengths.len() == gs.len(),
        forall|i: int| 0 <= i < gs.len() ==> #[trigger] lengths[i] as int == slot_geom_len(gs[i]),
        forall|i: int| 0 <= i < lengths.len() ==>
            #[trigger] b.offsets()[i + 1] == b.offsets()[i] + lengths[i],
        0 <= i <= gs.len(),
    ensures
        b.offsets()[i] == flatten_geoms(gs.subrange(0, i)).len(),
    decreases i,
{
    if i == 0 {
        assert(gs.subrange(0, 0) =~= Seq::<Option<MultiPointGeom>>::empty());
    } else {
        lemma_offsets_cover_flatten_prefix(gs, lengths, b, i - 1);
        let im1 = i - 1;
        assert(b.offsets()[im1 + 1] == b.offsets()[im1] + lengths[im1]);
        let pre = gs.subrange(0, i);
        assert(pre.drop_last() =~= gs.subrange(0, im1));
        assert(pre.last() == gs[im1]);
    }
}

/// The coordinates of slot `i` sit exactly at the offset range `i` of the
/// flattened buffer.
proof fn lemma_offsets_cover_flatten_at(
    gs: Seq<Option<MultiPointGeom>>,
    lengths: Seq<usize>,
    b: OffsetBuffer,
    i: int,
)
    requires
        b.wf(),
        b.is_compact(),
        b.spec_len() == gs.len(),
        lengths.len() == gs.len(),
        forall|i: int| 0 <= i < gs.len() ==> #[trigger] lengths[i] as int == slot_geom_len(gs[i]),
        forall|i: int| 0 <= i < lengths.len() ==>
            #[trigger] b.offsets()[i + 1] == b.offsets()[i] + lengths[i],
        0 <= i < gs.len(),
    ensures
        flatten_geoms(gs).subrange(b.offsets()[i], b.offsets()[i + 1]) == match gs[i] {
            Option::None => Seq::<(u64, u64)>::empty(),
            Option::Some(g) => g.points@,
        },
{
    lemma_offsets_cover_flatten_prefix(gs, lengths, b, i);
    lemma_offsets_cover_flatten_prefix(gs, lengths, b, i + 1);
    lemma_flatten_slot_at(gs, i);
}

/// Inside the flattened sequence, slot `i` occupies the range from the
/// flattened length of the first `i` slots to that plus its own length.
proof fn lemma_flatten_slot_at(gs: Seq<Option<MultiPointGeom>>, i: int)
    requires
        0 <= i < gs.len(),
    ensures
        flatten_geoms(gs.subrange(0, i + 1)).len()
            == flatten_geoms(gs.subrange(0, i)).len() + slot_geom_len(gs[i]),
        flatten_geoms(gs).subrange(
            flatten_geoms(gs.subrange(0, i)).len() as int,
            flatten_geoms(gs.subrange(0, i + 1)).len() as int,
        ) == match gs[i] {
            Option::None => Seq::<(u64, u64)>::empty(),
            Option::Some(g) => g.points@,
        },
{
    let slot: Seq<(u64, u64)> = match gs[i] {
        Option::None => Seq::<(u64, u64)>::empty(),
        Option::Some(g) => g.points@,
    };
    let pre1 = gs.subrange(0, i + 1);
    let pre0 = gs.subrange(0, i);
    assert(pre1.drop_last() =~= pre0);
    assert(pre1.last() == gs[i]);
    assert(flatten_geoms(pre1) == flatten_geoms(pre0) + slot);
    lemma_flatten_prefix_of(gs, i + 1);
    let li = flatten_geoms(pre0).len() as int;
    let li1 = flatten_geoms(pre1).len() as int;
    assert forall|t: int| 0 <= t < li1 - li implies
        #[trigger] flatten_geoms(gs)[li + t] == slot[t] by {
        assert(flatten_geoms(gs)[li + t] == flatten_geoms(gs.subrange(0, i + 1))[li + t]);
        assert(flatten_geoms(pre1)[li + t] == slot[t]);
    }
    assert(flatten_geoms(gs).subrange(li, li1) =~= slot);
}

/// The per-slot lengths sum to the flattened coordinate count.
proof fn lemma_sum_is_flatten_len(gs: Seq<Option<MultiPointGeom>>, lengths: Seq<usize>)
    requires
        lengths.len() == gs.len(),
        forall|i: int| 0 <= i < gs.len() ==> #[trigger] lengths[i] as int == slot_geom_len(gs[i]),
    ensures
        crate::offsets::sum_lengths(lengths) == flatten_geoms(gs).len(),
    decreases gs.len(),
{
    if gs.len() > 0 {
        lemma_sum_is_flatten_len(gs.drop_last(), lengths.drop_last());
        assert(lengths.drop_last().len() == gs.drop_last().len());
    }
}

/// Flattened prefixes are prefixes of the flattened whole: lengths only grow
/// and earlier contents stay in place.
proof fn lemma_flatten_prefix_of(gs: Seq<Option<MultiPointGeom>>, i: int)
    requires
        0 <= i <= gs.len(),
    ensures
        flatten_geoms(gs.subrange(0, i)).len() <= flatten_geoms(gs).len(),
        forall|j: int| 0 <= j < flatten_geoms(gs.subrange(0, i)).len() ==>
            #[trigger] flatten_geoms(gs)[j] == flatten_geoms(gs.subrange(0, i))[j],
    decreases gs.len() - i,
{
    if i == gs.len() {
        assert(gs.subrange(0, i) =~= gs);
    } else {
        lemma_flatten_prefix_of(gs, i + 1);
        let pre1 = gs.subrange(0, i + 1);
        assert(pre1.drop_last() =~= gs.subrange(0, i));
        assert(pre1.last() == gs[i]);
        assert(flatten_geoms(pre1) == flatten_geoms(gs.subrange(0, i)) + match gs[i] {
            Option::None => Seq::<(u64, u64)>::empty(),
            Option::Some(g) => g.points@,
        });
        assert forall|j: int| 0 <= j < flatten_geoms(gs.subrange(0, i)).len() implies
            #[trigger] flatten_geoms(gs)[j] == flatten_geoms(gs.subrange(0, i))[j] by {
            assert(flatten_geoms(gs)[j] == flatten_geoms(pre1)[j]);
            assert(flatten_geoms(pre1)[j] == flatten_geoms(gs.subrange(0, i))[j]);
        }
    }
}

impl<'a> MultiPoint<'a> {
    /// Well-formedness: the buffers are well-formed, the index is in range,
    /// and the geometry's range lies inside the coordinate buffer.
    pub open spec fn wf(&self) -> bool {
        &&& self.coords.wf()
        &&& self.geom_offsets.wf()
        &&& self.geom_offsets.last_offset() <= self.coords.spec_len()
        &&& self.geom_index < self.geom_offsets.spec_len()
    }

    /// The positions of this geometry, in order.
    pub open spec fn verts(&self) -> Seq<(u64, u64)> {
        self.coords.coords().subrange(
            self.geom_offsets.offsets()[self.geom_index as int],
            self.geom_offsets.offsets()[self.geom_index as int + 1],
        )
    }

    /// Borrows one geometry of an array's buffers.
    pub fn new_borrowed(
        coords: &'a CoordBuffer,
        geom_offsets: &'a OffsetBuffer,
        geom_index: usize,
    ) -> (s: MultiPoint<'a>)
        requires
            coords.wf(),
            geom_offsets.wf(),
            geom_offsets.last_offset() <= coords.spec_len(),
            geom_index < geom_offsets.spec_len(),
        ensures
            s.wf(),
            s == (MultiPoint { coords, geom_offsets, geom_index }),
    {
        MultiPoint { coords, geom_offsets, geom_index }
    }

    /// The number of positions in this geometry.
    pub fn num_points(&self) -> (n: usize)
        requires
            self.wf(),
        ensures
            n == self.verts().len(),
    {
        let (s, e) = self.geom_offsets.start_end(self.geom_index);
        e - s
    }

    /// The position at index `i` of this geometry.
    pub fn point(&self, i: usize) -> (c: Option<(u64, u64)>)
        requires
            self.wf(),
        ensures
            match c {
                Option::None => i >= self.verts().len(),
                Option::Some(p) => i < self.verts().len() && p == self.verts()[i as int],
            },
    {
        let (s, e) = self.geom_offsets.start_end(self.geom_index);
        if i >= e - s {
            return Option::None;
        }
        proof {
            self.geom_offsets.lemma_window_bounds();
        }
        Option::Some(self.coords.get(s + i))
    }

    /// Materializes this view into an owned geometry object: the explicit
    /// allocation boundary.
    pub fn to_geo(&self) -> (g: MultiPointGeom)
        requires
            self.wf(),
        ensures
            g.points@ == self.verts(),
    {
        let (s, e) = self.geom_offsets.start_end(self.geom_index);
        let mut points: Vec<(u64, u64)> = Vec::new();
        let mut k: usize = 0;
        proof {
            self.geom_offsets.lemma_window_bounds();
        }
        while k < e - s
            invariant
                self.wf(),
                self.geom_offsets.offsets()[self.geom_index as int] == s,
                self.geom_offsets.offsets()[self.geom_index as int + 1] == e,
                s <= e <= self.coords.spec_len(),
                k <= e - s,
                points@.len() == k,
                forall|j: int| 0 <= j < k ==>
                    #[trigger] points@[j] == self.coords.coords()[s + j],
            decreases e - s - k,
        {
            points.push(self.coords.get(s + k));
            k = k + 1;
        }
        let g = MultiPointGeom { points };
        proof {
            assert(g.points@ =~= self.verts());
        }
        g
    }
}


impl Default for MultiPointArray {
    /// The empty array: no geometries, no coordinates, no bitmap.
    fn default() -> (r: MultiPointArray)
        ensures
            r.wf(),
            r.spec_len() == 0,
            r.view() == Seq::<Option<Seq<(u64, u64)>>>::empty(),
            r.validity is None,
            r.coords.spec_len() == 0,
    {
        let mut data: Vec<i64> = Vec::new();
        data.push(0);
        let coords = CoordBuffer::Interleaved { data: Vec::new(), start: 0, len: 0 };
        let geom_offsets = OffsetBuffer { data, start: 0, count: 0 };
        let r = MultiPointArray { coords, geom_offsets, validity: Option::None };
        proof {
            assert(r.view() =~= Seq::<Option<Seq<(u64, u64)>>>::empty());
        }
        r
    }
}
} // verus!
