//! An immutable array of point geometries: one coordinate per slot plus an
//! optional validity bitmap. The only array class without an offset buffer.

use vstd::prelude::*;

use crate::GeoArrowError;
use crate::coords::{CoordBuffer, CoordType};
use crate::geom::PointGeom;
use crate::multipoint::MultiPointArray;
use crate::offsets::OffsetBuffer;
use crate::validity::{Validity, slot_valid};

verus! {

/// An immutable array of point geometries.
#[derive(Debug)]
pub struct PointArray {
    /// One position per slot.
    pub coords: CoordBuffer,
    /// Optional per-slot null markers.
    pub validity: Option<Validity>,
}

impl PointArray {
    /// Well-formedness: the bitmap, when present, covers exactly one flag
    /// per coordinate.
    pub open spec fn wf(&self) -> bool {
        &&& self.coords.wf()
        &&& match self.validity {
            Option::None => true,
            Option::Some(v) => v.wf() && v.spec_len() == self.coords.spec_len(),
        }
    }

    /// The number of points in this array.
    pub open spec fn spec_len(&self) -> int {
        self.coords.spec_len()
    }

    /// The logical contents: one optional position per slot.
    pub open spec fn view(&self) -> Seq<Option<(u64, u64)>> {
        Seq::new(
            self.spec_len() as nat,
            |i: int| if slot_valid(&self.validity, i) {
                Option::Some(self.coords.coords()[i])
            } else {
                Option::None
            },
        )
    }

    /// Creates an array from parts already known consistent, in O(1);
    /// `try_new` is the validating constructor.
    pub fn new(coords: CoordBuffer, validity: Option<Validity>) -> (r: PointArray)
        requires
            coords.wf(),
            match validity {
                Option::None => true,
                Option::Some(v) => v.wf() && v.spec_len() == coords.spec_len(),
            },
        ensures
            r == (PointArray { coords, validity }),
            r.wf(),
    {
        PointArray { coords, validity }
    }

    /// Creates an array from parts, validating that the bitmap covers
    /// exactly the number of coordinates.
    pub fn try_new(coords: CoordBuffer, validity: Option<Validity>) -> (r: Result<
        PointArray,
        GeoArrowError,
    >)
        requires
            coords.wf(),
            match validity {
                Option::None => true,
                Option::Some(v) => v.wf(),
            },
        ensures
            match r {
                Ok(a) => {
                    &&& a == (PointArray { coords, validity })
                    &&& a.wf()
                    &&& match validity {
                        Option::None => true,
                        Option::Some(v) => v.spec_len() == coords.spec_len(),
                    }
                },
                Err(e) => {
                    &&& e == GeoArrowError::ValidityLengthMismatch
                    &&& validity matches Option::Some(v) && v.spec_len() != coords.spec_len()
                },
            },
    {
        match &validity {
            Option::Some(v) => {
                if v.count() != coords.len() {
                    return Err(GeoArrowError::ValidityLengthMismatch);
                }
            },
            Option::None => {},
        }
        Ok(PointArray { coords, validity })
    }

    /// The number of points in this array.
    pub fn len(&self) -> (n: usize)
        requires
            self.wf(),
        ensures
            n == self.spec_len(),
    {
        self.coords.len()
    }

    /// Whether slot `i` is null. A point always has a position, so a point
    /// array has no empty geometries, only null slots.
    pub fn is_null(&self, i: usize) -> (r: bool)
        requires
            self.wf(),
            i < self.spec_len(),
        ensures
            r == (self.view()[i as int] is None),
    {
        match &self.validity {
            Option::None => false,
            Option::Some(v) => !v.is_valid(i),
        }
    }

    /// The point at slot `i`, without consulting validity.
    pub fn value(&self, i: usize) -> (g: PointGeom)
        requires
            self.wf(),
            i < self.spec_len(),
        ensures
            g.coord() == self.coords.coords()[i as int],
    {
        let c: (u64, u64) = self.coords.get(i);
        PointGeom { x: c.0, y: c.1 }
    }

    /// The point at slot `i`, or nothing when the slot is null.
    pub fn get(&self, i: usize) -> (g: Option<PointGeom>)
        requires
            self.wf(),
            i < self.spec_len(),
        ensures
            match g {
                Option::None => self.view()[i as int] is None,
                Option::Some(p) => self.view()[i as int] == Option::Some(p.coord()),
            },
    {
        if self.is_null(i) {
            return Option::None;
        }
        Option::Some(self.value(i))
    }

    /// Slices this array in place: O(1), sharing both buffers.
    pub fn slice(&mut self, offset: usize, length: usize)
        requires
            old(self).wf(),
            offset + length <= old(self).spec_len(),
        ensures
            final(self).wf(),
            final(self).spec_len() == length,
            final(self).view() == old(self).view().subrange(
                offset as int,
                offset + length as int,
            ),
            CoordBuffer::window_shifted(
                old(self).coords,
                final(self).coords,
                offset as int,
                length as int,
            ),
            crate::validity::validity_window_shifted(
                old(self).validity,
                final(self).validity,
                offset as int,
                length as int,
            ),
    {
        match &mut self.validity {
            Option::Some(v) => v.slice(offset, length),
            Option::None => {},
        }
        self.coords.slice(offset, length);
        proof {
            assert forall|i: int| 0 <= i < length implies
                #[trigger] self.view()[i] == old(self).view()[offset + i] by {
                let csub = old(self).coords.coords().subrange(
                    offset as int,
                    offset + length as int,
                );
                assert(self.coords.coords()[i] == csub[i]);
                match (&self.validity, &old(self).validity) {
                    (Option::Some(v), Option::Some(w)) => {
                        let bsub = w.bits().subrange(offset as int, offset + length as int);
                        assert(v.bits()[i] == bsub[i]);
                    },
                    _ => {},
                }
            }
            assert(self.view() =~= old(self).view().subrange(
                offset as int,
                offset + length as int,
            ));
            assert(self.coords.coords().len() == length);
            match (&self.validity, &old(self).validity) {
                (Option::Some(v), Option::Some(w)) => {
                    assert(v.bits().len() == length);
                    assert(v.spec_len() == length);
                },
                _ => {},
            }
        }
    }

    /// Copies the `length` points beginning at `offset` into a fresh,
    /// compact array.
    pub fn owned_slice(&self, offset: usize, length: usize) -> (r: PointArray)
        requires
            self.wf(),
            offset + length <= self.spec_len(),
        ensures
            r.wf(),
            r.coords.is_compact(),
            r.spec_len() == length,
            r.view() == self.view().subrange(offset as int, offset + length as int),
            r.coords.spec_coord_type() == self.coords.spec_coord_type(),
    {
        let coords: CoordBuffer = self.coords.owned_slice(offset, length);
        let validity: Option<Validity> = match &self.validity {
            Option::Some(v) => Option::Some(v.owned_slice(offset, length)),
            Option::None => Option::None,
        };
        let r = PointArray { coords, validity };
        proof {
            assert forall|i: int| 0 <= i < length implies
                #[trigger] r.view()[i] == self.view()[offset + i] by {
                match (&r.validity, &self.validity) {
                    (Option::Some(v), Option::Some(w)) => {
                        assert(v.bits()[i] == w.bits().subrange(
                            offset as int,
                            offset + length as int,
                        )[i]);
                    },
                    _ => {},
                }
            }
            assert(r.view() =~= self.view().subrange(offset as int, offset + length as int));
            assert(r.coords.coords().len() == length);
            match &r.validity {
                Option::Some(v) => {
                    assert(v.bits().len() == length);
                    assert(v.spec_len() == length);
                },
                Option::None => {},
            }
        }
        r
    }

    /// Builds an array of the requested coordinate layout from one optional
    /// point per slot; a null slot stores a zero position behind its cleared
    /// flag, as the layout has no holes.
    pub fn from_geoms(geoms: &Vec<Option<PointGeom>>, target: CoordType) -> (r: PointArray)
        ensures
            r.wf(),
            r.spec_len() == geoms@.len(),
            r.coords.spec_coord_type() == target,
            r.view() == point_geoms_view(geoms@),
    {
        let n: usize = geoms.len();
        let mut pairs: Vec<(u64, u64)> = Vec::new();
        let mut flags: Vec<bool> = Vec::new();
        let mut has_null: bool = false;
        let mut k: usize = 0;
        while k < n
            invariant
                n == geoms@.len(),
                k <= n,
                pairs@.len() == k,
                flags@.len() == k,
                forall|i: int| 0 <= i < k ==> #[trigger] flags@[i] == (geoms@[i] is Some),
                has_null == (exists|i: int| 0 <= i < k && geoms@[i] is None),
                forall|i: int| 0 <= i < k ==> (geoms@[i] matches Option::Some(p) ==>
                    #[trigger] pairs@[i] == p.coord()),
            decreases n - k,
        {
            match &geoms[k] {
                Option::Some(p) => {
                    pairs.push((p.x, p.y));
                    flags.push(true);
                },
                Option::None => {
                    pairs.push((0, 0));
                    flags.push(false);
                    has_null = true;
                },
            }
            k = k + 1;
        }
        let coords: CoordBuffer = CoordBuffer::from_pairs(&pairs, target);
        let validity: Option<Validity> = if has_null {
            Option::Some(Validity::from_bools(flags))
        } else {
            Option::None
        };
        let r = PointArray { coords, validity };
        proof {
            assert forall|i: int| 0 <= i < geoms@.len() implies
                #[trigger] r.view()[i] == (match geoms@[i] {
                    Option::None => Option::<(u64, u64)>::None,
                    Option::Some(p) => Option::Some(p.coord()),
                }) by {
                assert(r.coords.coords()[i] == pairs@[i]);
                match &r.validity {
                    Option::Some(v) => {
                        assert(v.bits()[i] == flags@[i]);
                    },
                    Option::None => {},
                }
            }
            assert(r.view() =~= point_geoms_view(geoms@));
        }
        r
    }

    /// Materializes the whole array as one optional owned point per slot,
    /// in index order.
    pub fn iter_geo(&self) -> (gs: Vec<Option<PointGeom>>)
        requires
            self.wf(),
        ensures
            point_geoms_view(gs@) == self.view(),
            gs@.len() == self.spec_len(),
    {
        let n: usize = self.len();
        let mut gs: Vec<Option<PointGeom>> = Vec::new();
        let mut k: usize = 0;
        while k < n
            invariant
                self.wf(),
                n == self.spec_len(),
                k <= n,
                gs@.len() == k,
                forall|i: int| 0 <= i < k ==>
                    #[trigger] point_geoms_view(gs@)[i] == self.view()[i],
            decreases n - k,
        {
            let ghost pre = gs@;
            gs.push(self.get(k));
            proof {
                assert forall|i: int| 0 <= i < k + 1 implies
                    #[trigger] point_geoms_view(gs@)[i] == self.view()[i] by {
                    if i < k {
                        assert(gs@[i] == pre[i]);
                        assert(point_geoms_view(pre)[i] == self.view()[i]);
                    }
                }
            }
            k = k + 1;
        }
        proof {
            assert(point_geoms_view(gs@) =~= self.view());
        }
        gs
    }
}


/// In an offset buffer accumulated from unit lengths, offset `i` is `i`.
proof fn lemma_unit_offsets(b: OffsetBuffer, lengths: Seq<usize>, i: int)
    requires
        b.is_compact(),
        b.spec_len() == lengths.len(),
        forall|j: int| 0 <= j < lengths.len() ==> #[trigger] lengths[j] == 1,
        forall|j: int| 0 <= j < lengths.len() ==>
            #[trigger] b.offsets()[j + 1] == b.offsets()[j] + lengths[j],
        0 <= i <= lengths.len(),
    ensures
        b.offsets()[i] == i,
    decreases i,
{
    if i > 0 {
        lemma_unit_offsets(b, lengths, i - 1);
        let im1 = i - 1;
        assert(b.offsets()[im1 + 1] == b.offsets()[im1] + lengths[im1]);
    }
}

impl MultiPointArray {
    /// Reinterprets a point array as a multi-point array of single-point
    /// geometries: the coordinate buffer and bitmap move unchanged, and a
    /// fresh offset buffer of unit-length ranges is accumulated over them.
    /// Fails exactly when the length does not fit the index width.
    pub fn try_from_point_array(pa: PointArray) -> (r: Result<MultiPointArray, GeoArrowError>)
        requires
            pa.wf(),
        ensures
            r is Ok <==> pa.spec_len() <= i64::MAX,
            match r {
                Ok(a) => {
                    &&& a.wf()
                    &&& a.spec_len() == pa.spec_len()
                    &&& a.coords == pa.coords
                    &&& a.validity == pa.validity
                    &&& forall|i: int| 0 <= i < a.spec_len() ==>
                        #[trigger] a.view()[i] == match pa.view()[i] {
                            Option::None => Option::<Seq<(u64, u64)>>::None,
                            Option::Some(c) => Option::Some(seq![c]),
                        }
                },
                Err(e) => e == GeoArrowError::LengthOverflow,
            },
    {
        let n: usize = pa.coords.len();
        let mut lengths: Vec<usize> = Vec::new();
        let mut k: usize = 0;
        while k < n
            invariant
                k <= n,
                lengths@.len() == k,
                forall|j: int| 0 <= j < k ==> #[trigger] lengths@[j] == 1,
                crate::offsets::sum_lengths(lengths@) == k,
            decreases n - k,
        {
            let ghost pre = lengths@;
            lengths.push(1);
            proof {
                assert(lengths@.drop_last() =~= pre);
            }
            k = k + 1;
        }
        let geom_offsets: OffsetBuffer = match OffsetBuffer::from_lengths(&lengths) {
            Ok(b) => b,
            Err(e) => {
                return Err(e);
            },
        };
        proof {
            assert forall|i: int| 0 <= i <= n implies
                #[trigger] geom_offsets.offsets()[i] == i by {
                lemma_unit_offsets(geom_offsets, lengths@, i);
            }
        }
        let a = MultiPointArray {
            coords: pa.coords,
            geom_offsets,
            validity: pa.validity,
        };
        proof {
            assert(a.wf());
            assert forall|i: int| 0 <= i < a.spec_len() implies
                #[trigger] a.view()[i] == (match pa.view()[i] {
                    Option::None => Option::<Seq<(u64, u64)>>::None,
                    Option::Some(c) => Option::Some(seq![c]),
                }) by {
                if crate::validity::slot_valid(&a.validity, i) {
                    assert(a.slot_coords(i) =~= seq![pa.coords.coords()[i]]);
                }
            }
        }
        Ok(a)
    }
}

/// The logical contents of a sequence of optional owned points.
pub open spec fn point_geoms_view(gs: Seq<Option<PointGeom>>) -> Seq<Option<(u64, u64)>> {
    Seq::new(
        gs.len(),
        |i: int| match gs[i] {
            Option::None => Option::None,
            Option::Some(p) => Option::Some(p.coord()),
        },
    )
}

/// Law: converting a point array to its owned geometry objects and building
/// an array back from them restores the logical contents exactly, nulls
/// included: `get` depicts each slot and `from_geoms` promises the built
/// array depicts its input, both through `point_geoms_view`.
pub proof fn lemma_point_geo_roundtrip(
    a: &PointArray,
    gs: Seq<Option<PointGeom>>,
    b: &PointArray,
)
    requires
        a.wf(),
        point_geoms_view(gs) == a.view(),
        b.wf(),
        b.view() == point_geoms_view(gs),
    ensures
        b.view() == a.view(),
        b.spec_len() == a.spec_len(),
{
    assert(point_geoms_view(gs).len() == gs.len());
}
} // verus!
