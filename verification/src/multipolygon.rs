//! An immutable array of multi-polygon geometries: the deepest class, with
//! three offset levels. A geometry offset buffer delimits each geometry's
//! polygons, a polygon offset buffer each polygon's rings, and a ring offset
//! buffer each ring's coordinates.

use vstd::prelude::*;

use crate::GeoArrowError;
use crate::coords::{CoordBuffer, CoordType};
use crate::geom::{MultiPolygonGeom, PolygonGeom};
use crate::offsets::OffsetBuffer;
use crate::polygon::{Polygon, PolygonArray, polygon_coord_total, polygon_geoms_view, polygon_ring_total};
use crate::validity::{Validity, slot_valid};

verus! {

/// An immutable array of multi-polygon geometries.
#[derive(Debug)]
pub struct MultiPolygonArray {
    /// The positions of every ring of every polygon, back to back.
    pub coords: CoordBuffer,
    /// Offsets into the polygon sequence where each geometry starts.
    pub geom_offsets: OffsetBuffer,
    /// Offsets into the ring sequence where each polygon starts.
    pub polygon_offsets: OffsetBuffer,
    /// Offsets into the coordinate buffer where each ring starts.
    pub ring_offsets: OffsetBuffer,
    /// Optional per-geometry null markers.
    pub validity: Option<Validity>,
}

/// A borrowed view of one multi-polygon of an array.
#[derive(Debug)]
pub struct MultiPolygon<'a> {
    /// The array's coordinate buffer.
    pub coords: &'a CoordBuffer,
    /// The array's geometry offsets, delimiting polygons per geometry.
    pub geom_offsets: &'a OffsetBuffer,
    /// The array's polygon offsets, delimiting rings per polygon.
    pub polygon_offsets: &'a OffsetBuffer,
    /// The array's ring offsets, delimiting coordinates per ring.
    pub ring_offsets: &'a OffsetBuffer,
    /// Which geometry of the array this view addresses.
    pub geom_index: usize,
}

/// The logical contents of a sequence of optional owned multi-polygons.
pub open spec fn multipolygon_geoms_view(gs: Seq<Option<MultiPolygonGeom>>) -> Seq<
    Option<Seq<Seq<Seq<(u64, u64)>>>>,
> {
    Seq::new(
        gs.len(),
        |i: int| match gs[i] {
            Option::None => Option::None,
            Option::Some(g) => Option::Some(g.polygon_views()),
        },
    )
}

/// All polygons of a sequence of optional multi-polygons, back to back, in
/// slot order; null slots contribute nothing.
pub open spec fn polys_concat(gs: Seq<Option<MultiPolygonGeom>>) -> Seq<Seq<Seq<(u64, u64)>>>
    decreases gs.len(),
{
    if gs.len() == 0 {
        Seq::empty()
    } else {
        polys_concat(gs.drop_last()) + match gs.last() {
            Option::None => Seq::<Seq<Seq<(u64, u64)>>>::empty(),
            Option::Some(g) => g.polygon_views(),
        }
    }
}

/// All polygons of a sequence of optional multi-polygons, back to back and
/// as optional values, in slot order: the flat sequence construction packs
/// through, so its overflow condition is stated over it.
pub open spec fn mpoly_polys_flat(gs: Seq<Option<MultiPolygonGeom>>) -> Seq<Option<PolygonGeom>>
    decreases gs.len(),
{
    if gs.len() == 0 {
        Seq::empty()
    } else {
        mpoly_polys_flat(gs.drop_last()) + match gs.last() {
            Option::None => Seq::<Option<PolygonGeom>>::empty(),
            Option::Some(m) => m.polygons@.map(|_j: int, p: PolygonGeom| Option::Some(p)),
        }
    }
}

/// The polygon count one slot contributes: zero for a null slot.
pub open spec fn slot_poly_count(g: Option<MultiPolygonGeom>) -> int {
    match g {
        Option::None => 0,
        Option::Some(gg) => gg.polygons@.len() as int,
    }
}

/// The per-slot polygon counts sum to the concatenated polygon count.
proof fn lemma_poly_counts_sum(gs: Seq<Option<MultiPolygonGeom>>, counts: Seq<usize>)
    requires
        counts.len() == gs.len(),
        forall|i: int| 0 <= i < gs.len() ==> #[trigger] counts[i] as int == slot_poly_count(
            gs[i],
        ),
    ensures
        crate::offsets::sum_lengths(counts) == polys_concat(gs).len(),
    decreases gs.len(),
{
    if gs.len() > 0 {
        lemma_poly_counts_sum(gs.drop_last(), counts.drop_last());
        assert(counts.drop_last().len() == gs.drop_last().len());
    }
}

/// Concatenated polygon prefixes are prefixes of the concatenated whole.
proof fn lemma_polys_concat_prefix_of(gs: Seq<Option<MultiPolygonGeom>>, i: int)
    requires
        0 <= i <= gs.len(),
    ensures
        polys_concat(gs.subrange(0, i)).len() <= polys_concat(gs).len(),
        forall|j: int| 0 <= j < polys_concat(gs.subrange(0, i)).len() ==>
            #[trigger] polys_concat(gs)[j] == polys_concat(gs.subrange(0, i))[j],
    decreases gs.len() - i,
{
    if i == gs.len() {
        assert(gs.subrange(0, i) =~= gs);
    } else {
        lemma_polys_concat_prefix_of(gs, i + 1);
        let pre1 = gs.subrange(0, i + 1);
        assert(pre1.drop_last() =~= gs.subrange(0, i));
        assert(pre1.last() == gs[i]);
        assert(polys_concat(pre1) == polys_concat(gs.subrange(0, i)) + match gs[i] {
            Option::None => Seq::<Seq<Seq<(u64, u64)>>>::empty(),
            Option::Some(g) => g.polygon_views(),
        });
        assert forall|j: int| 0 <= j < polys_concat(gs.subrange(0, i)).len() implies
            #[trigger] polys_concat(gs)[j] == polys_concat(gs.subrange(0, i))[j] by {
            assert(polys_concat(gs)[j] == polys_concat(pre1)[j]);
            assert(polys_concat(pre1)[j] == polys_concat(gs.subrange(0, i))[j]);
        }
    }
}

/// Inside the concatenated polygons, slot `i` occupies the range from the
/// concatenated count of the first `i` slots to that plus its own count.
proof fn lemma_polys_concat_at(gs: Seq<Option<MultiPolygonGeom>>, i: int)
    requires
        0 <= i < gs.len(),
    ensures
        polys_concat(gs.subrange(0, i + 1)).len()
            == polys_concat(gs.subrange(0, i)).len() + slot_poly_count(gs[i]),
        forall|t: int| 0 <= t < slot_poly_count(gs[i]) ==>
            #[trigger] polys_concat(gs)[polys_concat(gs.subrange(0, i)).len() + t] == match gs[i] {
                Option::None => Seq::<Seq<Seq<(u64, u64)>>>::empty(),
                Option::Some(g) => g.polygon_views(),
            }[t],
{
    let slot: Seq<Seq<Seq<(u64, u64)>>> = match gs[i] {
        Option::None => Seq::<Seq<Seq<(u64, u64)>>>::empty(),
        Option::Some(g) => g.polygon_views(),
    };
    let pre1 = gs.subrange(0, i + 1);
    let pre0 = gs.subrange(0, i);
    assert(pre1.drop_last() =~= pre0);
    assert(pre1.last() == gs[i]);
    assert(polys_concat(pre1) == polys_concat(pre0) + slot);
    lemma_polys_concat_prefix_of(gs, i + 1);
    let li = polys_concat(pre0).len() as int;
    assert forall|t: int| 0 <= t < slot_poly_count(gs[i]) implies
        #[trigger] polys_concat(gs)[li + t] == slot[t] by {
        assert(polys_concat(gs)[li + t] == polys_concat(gs.subrange(0, i + 1))[li + t]);
        assert(polys_concat(pre1)[li + t] == slot[t]);
    }
}

/// Offsets accumulated from per-slot polygon counts mark the concatenated
/// polygon boundaries of each prefix.
proof fn lemma_mp_go_prefix(
    gs: Seq<Option<MultiPolygonGeom>>,
    counts: Seq<usize>,
    b: OffsetBuffer,
    i: int,
)
    requires
        b.is_compact(),
        b.spec_len() == gs.len(),
        counts.len() == gs.len(),
        forall|i: int| 0 <= i < gs.len() ==> #[trigger] counts[i] as int == slot_poly_count(
            gs[i],
        ),
        forall|i: int| 0 <= i < counts.len() ==>
            #[trigger] b.offsets()[i + 1] == b.offsets()[i] + counts[i],
        0 <= i <= gs.len(),
    ensures
        b.offsets()[i] == polys_concat(gs.subrange(0, i)).len(),
    decreases i,
{
    if i == 0 {
        assert(gs.subrange(0, 0) =~= Seq::<Option<MultiPolygonGeom>>::empty());
    } else {
        lemma_mp_go_prefix(gs, counts, b, i - 1);
        let im1 = i - 1;
        assert(b.offsets()[im1 + 1] == b.offsets()[im1] + counts[im1]);
        let pre = gs.subrange(0, i);
        assert(pre.drop_last() =~= gs.subrange(0, im1));
        assert(pre.last() == gs[im1]);
    }
}

impl MultiPolygonArray {
    /// Well-formedness: each buffer is well-formed and each offset level
    /// ranges inside the next, down to the coordinates; the bitmap covers
    /// the logical length exactly.
    pub open spec fn wf(&self) -> bool {
        &&& self.coords.wf()
        &&& self.geom_offsets.wf()
        &&& self.polygon_offsets.wf()
        &&& self.ring_offsets.wf()
        &&& self.ring_offsets.last_offset() <= self.coords.spec_len()
        &&& self.polygon_offsets.last_offset() <= self.ring_offsets.spec_len()
        &&& self.geom_offsets.last_offset() <= self.polygon_offsets.spec_len()
        &&& match self.validity {
            Option::None => true,
            Option::Some(v) => v.wf() && v.spec_len() == self.geom_offsets.spec_len(),
        }
    }

    /// The number of geometries in this array.
    pub open spec fn spec_len(&self) -> int {
        self.geom_offsets.spec_len()
    }

    /// The coordinate range of ring `j`, counted over the whole array.
    pub open spec fn ring_view(&self, j: int) -> Seq<(u64, u64)> {
        self.coords.coords().subrange(
            self.ring_offsets.offsets()[j],
            self.ring_offsets.offsets()[j + 1],
        )
    }

    /// The rings of polygon `p`, counted over the whole array.
    pub open spec fn poly_rings(&self, p: int) -> Seq<Seq<(u64, u64)>> {
        Seq::new(
            (self.polygon_offsets.offsets()[p + 1] - self.polygon_offsets.offsets()[p]) as nat,
            |t: int| self.ring_view(self.polygon_offsets.offsets()[p] + t),
        )
    }

    /// The polygons of geometry `i`, validity ignored.
    pub open spec fn slot_polys(&self, i: int) -> Seq<Seq<Seq<(u64, u64)>>> {
        Seq::new(
            (self.geom_offsets.offsets()[i + 1] - self.geom_offsets.offsets()[i]) as nat,
            |t: int| self.poly_rings(self.geom_offsets.offsets()[i] + t),
        )
    }

    /// The logical contents: one optional polygon sequence per slot.
    pub open spec fn view(&self) -> Seq<Option<Seq<Seq<Seq<(u64, u64)>>>>> {
        Seq::new(
            self.spec_len() as nat,
            |i: int| if slot_valid(&self.validity, i) {
                Option::Some(self.slot_polys(i))
            } else {
                Option::None
            },
        )
    }

    /// Creates an array from parts already known consistent, in O(1).
    pub fn new(
        coords: CoordBuffer,
        geom_offsets: OffsetBuffer,
        polygon_offsets: OffsetBuffer,
        ring_offsets: OffsetBuffer,
        validity: Option<Validity>,
    ) -> (r: MultiPolygonArray)
        requires
            coords.wf(),
            geom_offsets.wf(),
            polygon_offsets.wf(),
            ring_offsets.wf(),
            match validity {
                Option::None => true,
                Option::Some(v) => v.wf() && v.spec_len() == geom_offsets.spec_len(),
            },
            ring_offsets.last_offset() == coords.spec_len(),
            polygon_offsets.last_offset() == ring_offsets.spec_len(),
            geom_offsets.last_offset() == polygon_offsets.spec_len(),
        ensures
            r == (MultiPolygonArray {
                coords,
                geom_offsets,
                polygon_offsets,
                ring_offsets,
                validity,
            }),
            r.wf(),
    {
        MultiPolygonArray { coords, geom_offsets, polygon_offsets, ring_offsets, validity }
    }

    /// The number of geometries in this array.
    pub fn len(&self) -> (n: usize)
        ensures
            n == self.spec_len(),
    {
        self.geom_offsets.len()
    }

    /// Whether slot `i` is null; an empty multi-polygon at a valid slot is
    /// not.
    pub fn is_null(&self, i: usize) -> (r: bool)
        requires
            self.wf(),
            i < self.spec_len(),
        ensures
            r == (self.view()[i as int] is None),
    {
        match &self.validity {
            Option::None => false,
            Option::Some(v) => !v.is_valid(i),
        }
    }

    /// The borrowed view of geometry `i`, without consulting validity.
    pub fn value<'a>(&'a self, i: usize) -> (s: MultiPolygon<'a>)
        requires
            self.wf(),
            i < self.spec_len(),
        ensures
            s.wf(),
            s.polys() == self.slot_polys(i as int),
    {
        let s = MultiPolygon {
            coords: &self.coords,
            geom_offsets: &self.geom_offsets,
            polygon_offsets: &self.polygon_offsets,
            ring_offsets: &self.ring_offsets,
            geom_index: i,
        };
        proof {
            assert forall|t: int|
                0 <= t < s.polys().len() implies #[trigger] s.polys()[t]
                    == self.slot_polys(i as int)[t] by {
                assert(s.poly_rings(s.geom_offsets.offsets()[i as int] + t)
                    =~= self.poly_rings(self.geom_offsets.offsets()[i as int] + t));
            }
            assert(s.polys() =~= self.slot_polys(i as int));
        }
        s
    }

    /// The borrowed view of geometry `i`, or nothing when the slot is null.
    pub fn get<'a>(&'a self, i: usize) -> (s: Option<MultiPolygon<'a>>)
        requires
            self.wf(),
            i < self.spec_len(),
        ensures
            match s {
                Option::None => self.view()[i as int] is None,
                Option::Some(m) => {
                    &&& m.wf()
                    &&& self.view()[i as int] == Option::Some(m.polys())
                },
            },
    {
        if self.is_null(i) {
            return Option::None;
        }
        Option::Some(self.value(i))
    }

    /// Materializes the whole array as one optional owned geometry per slot.
    pub fn iter_geo(&self) -> (gs: Vec<Option<MultiPolygonGeom>>)
        requires
            self.wf(),
        ensures
            multipolygon_geoms_view(gs@) == self.view(),
            gs@.len() == self.spec_len(),
    {
        let n: usize = self.len();
        let mut gs: Vec<Option<MultiPolygonGeom>> = Vec::new();
        let mut k: usize = 0;
        while k < n
            invariant
                self.wf(),
                n == self.spec_len(),
                k <= n,
                gs@.len() == k,
                forall|i: int| 0 <= i < k ==>
                    #[trigger] multipolygon_geoms_view(gs@)[i] == self.view()[i],
            decreases n - k,
        {
            let ghost pre = gs@;
            if self.is_null(k) {
                gs.push(Option::None);
            } else {
                let m: MultiPolygon<'_> = self.value(k);
                gs.push(Option::Some(m.to_geo()));
            }
            proof {
                assert forall|i: int| 0 <= i < k + 1 implies
                    #[trigger] multipolygon_geoms_view(gs@)[i] == self.view()[i] by {
                    if i < k {
                        assert(gs@[i] == pre[i]);
                        assert(multipolygon_geoms_view(pre)[i] == self.view()[i]);
                    }
                }
            }
            k = k + 1;
        }
        proof {
            assert(multipolygon_geoms_view(gs@) =~= self.view());
        }
        gs
    }

    /// Builds an array of the requested coordinate layout from one optional
    /// owned geometry per slot: the polygons are packed through the polygon
    /// construction, and a geometry offset buffer is accumulated over the
    /// per-slot polygon counts. A validity bitmap is kept only when some
    /// slot is null; failure comes only from a running total that overflows
    /// the index width.
    #[verifier::loop_isolation(false)]
    pub fn from_geoms(geoms: Vec<Option<MultiPolygonGeom>>, target: CoordType) -> (r: Result<
        MultiPolygonArray,
        GeoArrowError,
    >)
        ensures
            r is Ok <==> {
                &&& polygon_coord_total(mpoly_polys_flat(geoms@)) <= i64::MAX
                &&& polygon_coord_total(mpoly_polys_flat(geoms@)) <= usize::MAX
                &&& polygon_ring_total(mpoly_polys_flat(geoms@)) <= i64::MAX
                &&& polygon_ring_total(mpoly_polys_flat(geoms@)) <= usize::MAX
                &&& polys_concat(geoms@).len() <= i64::MAX
                &&& polys_concat(geoms@).len() <= usize::MAX
            },
            match r {
                Ok(a) => {
                    &&& a.wf()
                    &&& a.view() == multipolygon_geoms_view(geoms@)
                    &&& a.coords.spec_coord_type() == target
                },
                Err(e) => e == GeoArrowError::LengthOverflow,
            },
    {
        let n: usize = geoms.len();
        let ghost orig = geoms@;
        let mut geoms = geoms;
        let mut polys_flat: Vec<Option<PolygonGeom>> = Vec::new();
        let mut poly_counts: Vec<usize> = Vec::new();
        let mut flags: Vec<bool> = Vec::new();
        let mut has_null: bool = false;
        let mut k: usize = 0;
        while k < n
            invariant
                n == orig.len(),
                geoms@ == orig.subrange(k as int, n as int),
                k <= n,
                poly_counts@.len() == k,
                flags@.len() == k,
                forall|i: int| 0 <= i < k ==> #[trigger] flags@[i] == (orig[i] is Some),
                has_null == (exists|i: int| 0 <= i < k && orig[i] is None),
                forall|i: int| 0 <= i < k ==>
                    #[trigger] poly_counts@[i] as int == slot_poly_count(orig[i]),
                polys_flat@.len() == polys_concat(orig.subrange(0, k as int)).len(),
                polys_flat@ == mpoly_polys_flat(orig.subrange(0, k as int)),
                forall|j: int| 0 <= j < polys_flat@.len() ==> {
                    &&& #[trigger] polys_flat@[j] is Some
                    &&& polys_flat@[j]->0.ring_views()
                        == polys_concat(orig.subrange(0, k as int))[j]
                },
            decreases n - k,
        {
            let ghost pre_concat = polys_concat(orig.subrange(0, k as int));
            let g: Option<MultiPolygonGeom> = geoms.remove(0);
            proof {
                assert(g == orig[k as int]);
                assert(geoms@ =~= orig.subrange(k + 1, n as int));
                let now = orig.subrange(0, k + 1);
                assert(now.drop_last() =~= orig.subrange(0, k as int));
                assert(now.last() == orig[k as int]);
            }
            match g {
                Option::Some(mp) => {
                    let m: usize = mp.polygons.len();
                    poly_counts.push(m);
                    flags.push(true);
                    let mut polys: Vec<PolygonGeom> = mp.polygons;
                    let ghost pviews = orig[k as int]->Some_0.polygon_views();
                    let ghost pvals = orig[k as int]->Some_0.polygons@;
                    let ghost pre_flat = mpoly_polys_flat(orig.subrange(0, k as int));
                    let mut t: usize = 0;
                    proof {
                        assert(polys@ =~= pvals.subrange(0, m as int));
                        assert(polys_flat@ =~= pre_flat + pvals.subrange(0, 0).map(
                            |_j: int, p: PolygonGeom| Option::Some(p),
                        ));
                    }
                    while t < m
                        invariant
                            t <= m,
                            polys@.len() == m - t,
                            pviews.len() == m,
                            pvals.len() == m,
                            polys@ == pvals.subrange(t as int, m as int),
                            forall|u: int| 0 <= u < m - t ==>
                                #[trigger] polys@[u].ring_views() == pviews[t + u],
                            polys_flat@.len() == pre_concat.len() + t,
                            polys_flat@ == pre_flat + pvals.subrange(0, t as int).map(
                                |_j: int, p: PolygonGeom| Option::Some(p),
                            ),
                            forall|j: int| 0 <= j < polys_flat@.len() ==> {
                                &&& #[trigger] polys_flat@[j] is Some
                                &&& polys_flat@[j]->0.ring_views() == (pre_concat
                                    + pviews.subrange(0, t as int))[j]
                            },
                        decreases m - t,
                    {
                        let poly: PolygonGeom = polys.remove(0);
                        proof {
                            assert(poly == pvals[t as int]);
                            assert(polys@ =~= pvals.subrange(t + 1, m as int));
                        }
                        polys_flat.push(Option::Some(poly));
                        proof {
                            assert forall|u: int| 0 <= u < polys@.len() implies
                                #[trigger] polys@[u].ring_views() == pviews[t + 1 + u] by {
                            }
                            assert(pviews.subrange(0, t + 1)
                                =~= pviews.subrange(0, t as int).push(pviews[t as int]));
                            assert(polys_flat@ =~= pre_flat + pvals.subrange(0, t + 1).map(
                                |_j: int, p: PolygonGeom| Option::Some(p),
                            ));
                        }
                        t = t + 1;
                    }
                    proof {
                        assert(pviews.subrange(0, m as int) =~= pviews);
                        assert(pvals.subrange(0, m as int) =~= pvals);
                        assert(polys_concat(orig.subrange(0, k + 1)) =~= pre_concat + pviews);
                        assert(mpoly_polys_flat(orig.subrange(0, k + 1)) =~= pre_flat
                            + pvals.map(|_j: int, p: PolygonGeom| Option::Some(p)));
                        assert(polys_flat@ =~= mpoly_polys_flat(orig.subrange(0, k + 1)));
                    }
                },
                Option::None => {
                    poly_counts.push(0);
                    flags.push(false);
                    has_null = true;
                    proof {
                        assert(polys_concat(orig.subrange(0, k + 1)) =~= pre_concat);
                        assert(mpoly_polys_flat(orig.subrange(0, k + 1))
                            =~= mpoly_polys_flat(orig.subrange(0, k as int)));
                    }
                },
            }
            k = k + 1;
        }
        proof {
            assert(orig.subrange(0, n as int) =~= orig);
            lemma_poly_counts_sum(orig, poly_counts@);
        }
        let pa: PolygonArray = match PolygonArray::from_geoms(polys_flat, target) {
            Ok(a) => a,
            Err(e) => {
                return Err(e);
            },
        };
        let geom_offsets: OffsetBuffer = match OffsetBuffer::from_lengths(&poly_counts) {
            Ok(b) => b,
            Err(e) => {
                return Err(e);
            },
        };
        proof {
            assert(pa.view().len() == pa.spec_len());
        }
        let ghost pa_snapshot = pa;
        let ghost flat_snapshot = polys_flat@;
        let PolygonArray {
            coords,
            geom_offsets: polygon_offsets,
            ring_offsets,
            validity: pa_validity,
        } = pa;
        let validity: Option<Validity> = if has_null {
            Option::Some(Validity::from_bools(flags))
        } else {
            Option::None
        };
        let a = MultiPolygonArray { coords, geom_offsets, polygon_offsets, ring_offsets, validity };
        proof {
            assert(a.geom_offsets.last_offset() == polys_concat(orig).len());
            assert(a.polygon_offsets.spec_len() == pa_snapshot.spec_len());
            assert(a.wf());
            assert forall|i: int| 0 <= i < a.spec_len() implies
                #[trigger] a.view()[i] == multipolygon_geoms_view(orig)[i] by {
                lemma_mp_go_prefix(orig, poly_counts@, a.geom_offsets, i);
                lemma_mp_go_prefix(orig, poly_counts@, a.geom_offsets, i + 1);
                lemma_polys_concat_at(orig, i);
                match &a.validity {
                    Option::Some(v) => {
                        assert(v.bits()[i] == flags@[i]);
                    },
                    Option::None => {},
                }
                if slot_valid(&a.validity, i) {
                    assert(orig[i] is Some);
                    let pv = orig[i]->Some_0.polygon_views();
                    assert forall|t: int|
                        0 <= t < a.geom_offsets.offsets()[i + 1] - a.geom_offsets.offsets()[i]
                            implies #[trigger] a.slot_polys(i)[t] == pv[t] by {
                        let j = a.geom_offsets.offsets()[i] + t;
                        a.geom_offsets.lemma_window_bounds();
                        assert(a.geom_offsets.offsets()[i + 1]
                            <= a.geom_offsets.offsets()[a.geom_offsets.spec_len() as int]);
                        assert(j == polys_concat(orig.subrange(0, i)).len() + t);
                        assert(polys_concat(orig)[polys_concat(orig.subrange(0, i)).len() + t]
                            == pv[t]);
                        assert(0 <= j < pa_snapshot.spec_len());
                        assert(pa_snapshot.view()[j] == polygon_geoms_view(flat_snapshot)[j]);
                        assert(polygon_geoms_view(flat_snapshot)[j]
                            == Option::Some(flat_snapshot[j]->0.ring_views()));
                        assert(flat_snapshot[j]->0.ring_views() == polys_concat(orig)[j]);
                        assert(pa_snapshot.view()[j]
                            == Option::Some(pa_snapshot.slot_rings(j)));
                        assert(a.poly_rings(j) =~= pa_snapshot.slot_rings(j));
                        assert(pa_snapshot.slot_rings(j) == pv[t]);
                    }
                    assert(a.slot_polys(i) =~= pv);
                }
            }
            assert(a.view() =~= multipolygon_geoms_view(orig));
        }
        Ok(a)
    }

    /// Slices this array in place to `length` geometries beginning at
    /// `offset`: O(1), sharing every buffer; the inner offset levels and the
    /// coordinates are untouched.
    pub fn slice(&mut self, offset: usize, length: usize)
        requires
            old(self).wf(),
            offset + length <= old(self).spec_len(),
        ensures
            final(self).wf(),
            final(self).spec_len() == length,
            final(self).view() == old(self).view().subrange(
                offset as int,
                offset + length as int,
            ),
            final(self).coords == old(self).coords,
            final(self).polygon_offsets == old(self).polygon_offsets,
            final(self).ring_offsets == old(self).ring_offsets,
            crate::offsets::offsets_window_shifted(
                old(self).geom_offsets,
                final(self).geom_offsets,
                offset as int,
                length as int,
            ),
            crate::validity::validity_window_shifted(
                old(self).validity,
                final(self).validity,
                offset as int,
                length as int,
            ),
    {
        proof {
            old(self).geom_offsets.lemma_window_bounds();
        }
        match &mut self.validity {
            Option::Some(v) => v.slice(offset, length),
            Option::None => {},
        }
        self.geom_offsets.slice(offset, length);
        proof {
            let ghost osub = old(self).geom_offsets.offsets().subrange(
                offset as int,
                offset + length + 1,
            );
            assert(self.geom_offsets.offsets() == osub);
            assert(self.geom_offsets.offsets().len() == length + 1);
            assert forall|i: int| 0 <= i < length implies
                #[trigger] self.view()[i] == old(self).view()[offset + i] by {
                assert(self.geom_offsets.offsets()[i] == osub[i]);
                assert(self.geom_offsets.offsets()[i + 1] == osub[i + 1]);
                match (&self.validity, &old(self).validity) {
                    (Option::Some(v), Option::Some(w)) => {
                        let ghost bsub = w.bits().subrange(offset as int, offset + length as int);
                        assert(v.bits() == bsub);
                        assert(v.bits()[i] == bsub[i]);
                    },
                    _ => {},
                }
                assert forall|t: int|
                    0 <= t < self.geom_offsets.offsets()[i + 1]
                        - self.geom_offsets.offsets()[i] implies
                    #[trigger] self.slot_polys(i)[t]
                        == old(self).slot_polys(offset + i)[t] by {
                    assert(self.poly_rings(self.geom_offsets.offsets()[i] + t)
                        =~= old(self).poly_rings(
                        old(self).geom_offsets.offsets()[offset + i] + t,
                    ));
                }
                assert(self.slot_polys(i) =~= old(self).slot_polys(offset + i));
            }
            assert(self.view() =~= old(self).view().subrange(
                offset as int,
                offset + length as int,
            ));
            let oo = old(self).geom_offsets.offsets();
            assert(self.geom_offsets.last_offset() == oo[offset + length]);
            assert(oo[offset + length] <= oo[old(self).geom_offsets.spec_len() as int]);
            match (&self.validity, &old(self).validity) {
                (Option::Some(v), Option::Some(w)) => {
                    assert(v.bits().len() == length);
                },
                _ => {},
            }
        }
    }

    /// Copies the `length` geometries beginning at `offset` into a fresh,
    /// compact array: only the polygons, rings and coordinates those
    /// geometries touch are copied, and every offset buffer is re-based to
    /// zero.
    pub fn owned_slice(&self, offset: usize, length: usize) -> (r: MultiPolygonArray)
        requires
            self.wf(),
            offset + length <= self.spec_len(),
        ensures
            r.wf(),
            r.spec_len() == length,
            r.view() == self.view().subrange(offset as int, offset + length as int),
            r.coords.is_compact(),
            r.geom_offsets.is_compact(),
            r.polygon_offsets.is_compact(),
            r.ring_offsets.is_compact(),
            r.polygon_offsets.spec_len() == self.geom_offsets.offsets()[offset + length]
                - self.geom_offsets.offsets()[offset as int],
            r.ring_offsets.spec_len() == self.polygon_offsets.offsets()[
                self.geom_offsets.offsets()[offset + length]
            ] - self.polygon_offsets.offsets()[self.geom_offsets.offsets()[offset as int]],
            r.coords.spec_len() == self.ring_offsets.offsets()[
                self.polygon_offsets.offsets()[self.geom_offsets.offsets()[offset + length]]
            ] - self.ring_offsets.offsets()[
                self.polygon_offsets.offsets()[self.geom_offsets.offsets()[offset as int]]
            ],
    {
        proof {
            self.geom_offsets.lemma_window_bounds();
            self.polygon_offsets.lemma_window_bounds();
            self.ring_offsets.lemma_window_bounds();
        }
        let pstart: usize = self.geom_offsets.offset_at(offset);
        let pend: usize = self.geom_offsets.offset_at(offset + length);
        proof {
            assert(self.geom_offsets.offsets()[offset as int]
                <= self.geom_offsets.offsets()[offset + length]);
        }
        let rstart: usize = self.polygon_offsets.offset_at(pstart);
        let rend: usize = self.polygon_offsets.offset_at(pend);
        proof {
            assert(self.polygon_offsets.offsets()[pstart as int]
                <= self.polygon_offsets.offsets()[pend as int]);
        }
        let cstart: usize = self.ring_offsets.offset_at(rstart);
        let cend: usize = self.ring_offsets.offset_at(rend);
        proof {
            assert(self.ring_offsets.offsets()[rstart as int]
                <= self.ring_offsets.offsets()[rend as int]);
        }
        let geom_offsets: OffsetBuffer = self.geom_offsets.owned_slice(offset, length);
        let polygon_offsets: OffsetBuffer = self.polygon_offsets.owned_slice(
            pstart,
            pend - pstart,
        );
        let ring_offsets: OffsetBuffer = self.ring_offsets.owned_slice(rstart, rend - rstart);
        let coords: CoordBuffer = self.coords.owned_slice(cstart, cend - cstart);
        let validity: Option<Validity> = match &self.validity {
            Option::Some(v) => Option::Some(v.owned_slice(offset, length)),
            Option::None => Option::None,
        };
        let r = MultiPolygonArray { coords, geom_offsets, polygon_offsets, ring_offsets, validity };
        proof {
            assert(r.ring_offsets.last_offset()
                == self.ring_offsets.offsets()[rend as int]
                    - self.ring_offsets.offsets()[rstart as int]);
            assert(r.polygon_offsets.last_offset()
                == self.polygon_offsets.offsets()[pend as int]
                    - self.polygon_offsets.offsets()[pstart as int]);
            assert(r.geom_offsets.last_offset()
                == self.geom_offsets.offsets()[offset + length]
                    - self.geom_offsets.offsets()[offset as int]);
            assert(r.coords.spec_len() == cend - cstart);
            assert(r.ring_offsets.spec_len() == rend - rstart);
            assert(r.polygon_offsets.spec_len() == pend - pstart);
            assert forall|i: int| 0 <= i < length implies
                #[trigger] r.view()[i] == self.view()[offset + i] by {
                assert(r.geom_offsets.offsets()[i]
                    == self.geom_offsets.offsets()[offset + i] - pstart);
                assert(r.geom_offsets.offsets()[i + 1]
                    == self.geom_offsets.offsets()[offset + i + 1] - pstart);
                assert(0 <= self.geom_offsets.offsets()[offset + i] - pstart);
                assert(self.geom_offsets.offsets()[offset + i + 1]
                    <= self.geom_offsets.offsets()[offset + length]);
                assert forall|t: int|
                    0 <= t < r.geom_offsets.offsets()[i + 1] - r.geom_offsets.offsets()[i]
                        implies #[trigger] r.poly_rings(r.geom_offsets.offsets()[i] + t)
                        == self.poly_rings(self.geom_offsets.offsets()[offset + i] + t) by {
                    let pr = r.geom_offsets.offsets()[i] + t;
                    let ps = self.geom_offsets.offsets()[offset + i] + t;
                    assert(pr == ps - pstart);
                    assert(0 <= ps < self.polygon_offsets.spec_len());
                    assert(r.polygon_offsets.offsets()[pr]
                        == self.polygon_offsets.offsets()[pstart + pr] - rstart);
                    assert(r.polygon_offsets.offsets()[pr + 1]
                        == self.polygon_offsets.offsets()[pstart + pr + 1] - rstart);
                    assert(self.polygon_offsets.offsets()[pstart as int]
                        <= self.polygon_offsets.offsets()[ps]);
                    assert(self.polygon_offsets.offsets()[ps + 1]
                        <= self.polygon_offsets.offsets()[pend as int]);
                    assert forall|u: int|
                        0 <= u < r.polygon_offsets.offsets()[pr + 1]
                            - r.polygon_offsets.offsets()[pr] implies
                        #[trigger] r.ring_view(r.polygon_offsets.offsets()[pr] + u)
                            == self.ring_view(self.polygon_offsets.offsets()[ps] + u) by {
                        let jr = r.polygon_offsets.offsets()[pr] + u;
                        let js = self.polygon_offsets.offsets()[ps] + u;
                        assert(jr == js - rstart);
                        assert(0 <= js < self.ring_offsets.spec_len());
                        assert(r.ring_offsets.offsets()[jr]
                            == self.ring_offsets.offsets()[rstart + jr] - cstart);
                        assert(r.ring_offsets.offsets()[jr + 1]
                            == self.ring_offsets.offsets()[rstart + jr + 1] - cstart);
                        assert(self.ring_offsets.offsets()[rstart as int]
                            <= self.ring_offsets.offsets()[js]);
                        assert(self.ring_offsets.offsets()[js + 1]
                            <= self.ring_offsets.offsets()[rend as int]);
                        self.coords.coords().lemma_slice_of_slice(
                            cstart as int,
                            cend as int,
                            self.ring_offsets.offsets()[js] - cstart,
                            self.ring_offsets.offsets()[js + 1] - cstart,
                        );
                        assert(r.ring_view(jr) =~= self.ring_view(js));
                    }
                    assert(r.poly_rings(pr) =~= self.poly_rings(ps));
                }
                assert(r.slot_polys(i) =~= self.slot_polys(offset + i));
                match (&r.validity, &self.validity) {
                    (Option::Some(v), Option::Some(w)) => {
                        assert(v.bits()[i] == w.bits().subrange(
                            offset as int,
                            offset + length as int,
                        )[i]);
                    },
                    _ => {},
                }
            }
            assert(r.view() =~= self.view().subrange(offset as int, offset + length as int));
            assert(r.geom_offsets.spec_len() == length);
            match &r.validity {
                Option::Some(v) => {
                    assert(v.bits().len() == length);
                },
                Option::None => {},
            }
        }
        r
    }
}

impl<'a> MultiPolygon<'a> {
    /// Well-formedness: the buffers are well-formed and nested in range, and
    /// the index addresses a geometry.
    pub open spec fn wf(&self) -> bool {
        &&& self.coords.wf()
        &&& self.geom_offsets.wf()
        &&& self.polygon_offsets.wf()
        &&& self.ring_offsets.wf()
        &&& self.ring_offsets.last_offset() <= self.coords.spec_len()
        &&& self.polygon_offsets.last_offset() <= self.ring_offsets.spec_len()
        &&& self.geom_offsets.last_offset() <= self.polygon_offsets.spec_len()
        &&& self.geom_index < self.geom_offsets.spec_len()
    }

    /// The coordinate range of ring `j`, counted over the whole array.
    pub open spec fn ring_view(&self, j: int) -> Seq<(u64, u64)> {
        self.coords.coords().subrange(
            self.ring_offsets.offsets()[j],
            self.ring_offsets.offsets()[j + 1],
        )
    }

    /// The rings of polygon `p`, counted over the whole array.
    pub open spec fn poly_rings(&self, p: int) -> Seq<Seq<(u64, u64)>> {
        Seq::new(
            (self.polygon_offsets.offsets()[p + 1] - self.polygon_offsets.offsets()[p]) as nat,
            |t: int| self.ring_view(self.polygon_offsets.offsets()[p] + t),
        )
    }

    /// The polygons of this geometry, in order.
    pub open spec fn polys(&self) -> Seq<Seq<Seq<(u64, u64)>>> {
        Seq::new(
            (self.geom_offsets.offsets()[self.geom_index as int + 1]
                - self.geom_offsets.offsets()[self.geom_index as int]) as nat,
            |t: int| self.poly_rings(self.geom_offsets.offsets()[self.geom_index as int] + t),
        )
    }

    /// The number of polygons in this geometry.
    pub fn num_polygons(&self) -> (n: usize)
        requires
            self.wf(),
        ensures
            n == self.polys().len(),
    {
        let (s, e) = self.geom_offsets.start_end(self.geom_index);
        e - s
    }

    /// The polygon at index `t`, or nothing when `t` is out of range.
    pub fn polygon(&self, t: usize) -> (r: Option<Polygon<'a>>)
        requires
            self.wf(),
        ensures
            match r {
                Option::None => t >= self.polys().len(),
                Option::Some(p) => {
                    &&& t < self.polys().len()
                    &&& p.wf()
                    &&& p.rings() == self.polys()[t as int]
                },
            },
    {
        let (s, e) = self.geom_offsets.start_end(self.geom_index);
        if t >= e - s {
            return Option::None;
        }
        proof {
            self.geom_offsets.lemma_window_bounds();
        }
        let p = Polygon {
            coords: self.coords,
            geom_offsets: self.polygon_offsets,
            ring_offsets: self.ring_offsets,
            geom_index: s + t,
        };
        proof {
            assert(p.rings() =~= self.polys()[t as int]);
        }
        Option::Some(p)
    }

    /// Materializes this view into an owned geometry object.
    #[verifier::loop_isolation(false)]
    pub fn to_geo(&self) -> (g: MultiPolygonGeom)
        requires
            self.wf(),
        ensures
            g.polygon_views() == self.polys(),
    {
        let n: usize = self.num_polygons();
        let mut polygons: Vec<PolygonGeom> = Vec::new();
        let mut t: usize = 0;
        while t < n
            invariant
                t <= n,
                polygons@.len() == t,
                forall|j: int| 0 <= j < t ==>
                    #[trigger] polygons@[j].ring_views() == self.polys()[j],
            decreases n - t,
        {
            let p: Polygon<'a> = match self.polygon(t) {
                Option::Some(p) => p,
                Option::None => {
                    proof {
                        assert(false);
                    }
                    Polygon {
                        coords: self.coords,
                        geom_offsets: self.polygon_offsets,
                        ring_offsets: self.ring_offsets,
                        geom_index: 0,
                    }
                },
            };
            polygons.push(p.to_geo());
            t = t + 1;
        }
        let g = MultiPolygonGeom { polygons };
        proof {
            assert(g.polygon_views() =~= self.polys());
        }
        g
    }
}


/// Law: converting a multi-polygon array to its owned geometry objects and
/// building an array back from them restores the logical contents exactly,
/// nulls and empty geometries included, through `multipolygon_geoms_view` as
/// in the sibling classes.
pub proof fn lemma_multipolygon_geo_roundtrip(
    a: &MultiPolygonArray,
    gs: Seq<Option<MultiPolygonGeom>>,
    b: &MultiPolygonArray,
)
    requires
        a.wf(),
        multipolygon_geoms_view(gs) == a.view(),
        b.wf(),
        b.view() == multipolygon_geoms_view(gs),
    ensures
        b.view() == a.view(),
        b.spec_len() == a.spec_len(),
{
    assert(multipolygon_geoms_view(gs).len() == gs.len());
}
} // verus!
