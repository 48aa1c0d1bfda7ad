//! Reading WKB polygons and multi-polygons: variable-sized structures whose
//! sub-element positions are computed from embedded counts, each consumed
//! byte size accumulated so the next sibling's offset is known without
//! rescanning earlier bytes.
//!
//! A polygon is a 9-byte header followed by its rings; a ring is a 4-byte
//! point count followed by that many 16-byte coordinate pairs. A
//! multi-polygon is a 9-byte header followed by whole polygons back to back.
//! As everywhere in this codec, nested structures are read with the outer
//! byte order and bounds are checked before any byte is dereferenced.

use vstd::prelude::*;

use crate::GeoArrowError;
use crate::geom::{LineStringGeom, MultiPolygonGeom, PolygonGeom};
use crate::wkb::{Endianness, read_u32, read_u64, u32_at, u64_at};

verus! {

/// Where the ring starting at `off` ends: its 4-byte count plus 16 bytes per
/// point.
pub open spec fn ring_end(b: Seq<u8>, off: int, e: Endianness) -> int {
    off + 4 + 16 * u32_at(b, off, e)
}

/// A ring fits the buffer: its count is readable and its points lie within.
pub open spec fn ring_ok(b: Seq<u8>, off: int, e: Endianness) -> bool {
    &&& 0 <= off
    &&& off + 4 <= b.len()
    &&& ring_end(b, off, e) <= b.len()
}

/// The coordinates of the ring starting at `off`.
pub open spec fn ring_coords(b: Seq<u8>, off: int, e: Endianness) -> Seq<(u64, u64)> {
    Seq::new(
        u32_at(b, off, e) as nat,
        |j: int| (u64_at(b, off + 4 + 16 * j, e), u64_at(b, off + 4 + 16 * j + 8, e)),
    )
}

/// `n` rings in a row starting at `off` all fit the buffer.
pub open spec fn rings_wf(b: Seq<u8>, off: int, n: int, e: Endianness) -> bool
    decreases n,
{
    n <= 0 || (ring_ok(b, off, e) && rings_wf(b, ring_end(b, off, e), n - 1, e))
}

/// Where `n` rings in a row starting at `off` end.
pub open spec fn rings_end(b: Seq<u8>, off: int, n: int, e: Endianness) -> int
    decreases n,
{
    if n <= 0 {
        off
    } else {
        rings_end(b, ring_end(b, off, e), n - 1, e)
    }
}

/// The coordinates of `n` rings in a row, ring by ring.
pub open spec fn rings_views(b: Seq<u8>, off: int, n: int, e: Endianness) -> Seq<
    Seq<(u64, u64)>,
>
    decreases n,
{
    if n <= 0 {
        Seq::empty()
    } else {
        seq![ring_coords(b, off, e)] + rings_views(b, ring_end(b, off, e), n - 1, e)
    }
}

/// The declared ring count of the polygon starting at `off`.
pub open spec fn wkb_poly_nrings(b: Seq<u8>, off: int, e: Endianness) -> int {
    u32_at(b, off + 5, e)
}

/// A polygon fits the buffer: its 9-byte header is readable and all its
/// rings lie within.
pub open spec fn wkb_poly_wf(b: Seq<u8>, off: int, e: Endianness) -> bool {
    &&& 0 <= off
    &&& off + 9 <= b.len()
    &&& rings_wf(b, off + 9, wkb_poly_nrings(b, off, e), e)
}

/// Where the polygon starting at `off` ends.
pub open spec fn wkb_poly_end(b: Seq<u8>, off: int, e: Endianness) -> int {
    rings_end(b, off + 9, wkb_poly_nrings(b, off, e), e)
}

/// The ring contents of the polygon starting at `off`, exterior first.
pub open spec fn wkb_poly_rings(b: Seq<u8>, off: int, e: Endianness) -> Seq<Seq<(u64, u64)>> {
    rings_views(b, off + 9, wkb_poly_nrings(b, off, e), e)
}

/// A chain of `n` rings has `n` views.
pub proof fn lemma_rings_views_len(b: Seq<u8>, off: int, n: int, e: Endianness)
    requires
        n >= 0,
    ensures
        rings_views(b, off, n, e).len() == n,
    decreases n,
{
    if n > 0 {
        lemma_rings_views_len(b, ring_end(b, off, e), n - 1, e);
    }
}

/// A well-formed chain stays well-formed one ring further when the next ring
/// fits, and its end advances by that ring.
pub proof fn lemma_rings_extend(b: Seq<u8>, off: int, j: int, e: Endianness)
    requires
        j >= 0,
        rings_wf(b, off, j, e),
        ring_ok(b, rings_end(b, off, j, e), e),
    ensures
        rings_wf(b, off, j + 1, e),
        rings_end(b, off, j + 1, e) == ring_end(b, rings_end(b, off, j, e), e),
    decreases j,
{
    if j > 0 {
        assert(ring_ok(b, off, e));
        assert(rings_wf(b, ring_end(b, off, e), j - 1, e));
        assert(rings_end(b, off, j, e) == rings_end(b, ring_end(b, off, e), j - 1, e));
        lemma_rings_extend(b, ring_end(b, off, e), j - 1, e);
        assert(rings_wf(b, ring_end(b, off, e), j, e));
        assert(rings_wf(b, off, j + 1, e));
        assert(rings_end(b, off, j + 1, e) == rings_end(b, ring_end(b, off, e), j, e));
    } else {
        assert(rings_end(b, off, 0, e) == off);
        assert(rings_wf(b, ring_end(b, off, e), 0, e));
        assert(rings_wf(b, off, 1, e));
        assert(rings_end(b, off, 1, e) == rings_end(b, ring_end(b, off, e), 0, e));
    }
}

/// Within a well-formed chain, each ring fits the buffer at its computed
/// position, and the chain's views list that ring's coordinates there.
pub proof fn lemma_rings_at(b: Seq<u8>, off: int, n: int, j: int, e: Endianness)
    requires
        rings_wf(b, off, n, e),
        0 <= j < n,
    ensures
        ring_ok(b, rings_end(b, off, j, e), e),
        rings_views(b, off, n, e).len() == n,
        rings_views(b, off, n, e)[j] == ring_coords(b, rings_end(b, off, j, e), e),
    decreases j,
{
    lemma_rings_views_len(b, off, n, e);
    if j > 0 {
        lemma_rings_at(b, ring_end(b, off, e), n - 1, j - 1, e);
        lemma_rings_views_len(b, ring_end(b, off, e), n - 1, e);
    }
}

/// A borrowed view of one polygon over a WKB byte buffer, with the byte
/// position of each ring computed once at construction.
#[derive(Debug)]
pub struct WKBPolygon<'a> {
    /// The underlying bytes; the polygon need not start at their beginning.
    pub buf: &'a [u8],
    /// The byte order of the enclosing buffer.
    pub byte_order: Endianness,
    /// Where in the buffer this polygon starts.
    pub offset: usize,
    /// Where each ring starts, in ring order: the precomputed offset table.
    pub ring_starts: Vec<usize>,
    /// Where this polygon ends: the next sibling's offset.
    pub end: usize,
}

/// A borrowed view of one linear ring over a WKB byte buffer.
#[derive(Debug)]
pub struct WKBLinearRing<'a> {
    /// The underlying bytes.
    pub buf: &'a [u8],
    /// The byte order of the enclosing buffer.
    pub byte_order: Endianness,
    /// Where in the buffer this ring's count field starts.
    pub offset: usize,
}

impl<'a> WKBLinearRing<'a> {
    /// Well-formedness: the ring fits the buffer at its offset.
    pub open spec fn wf(&self) -> bool {
        ring_ok(self.buf@, self.offset as int, self.byte_order)
    }

    /// The coordinates of this ring.
    pub open spec fn verts(&self) -> Seq<(u64, u64)> {
        ring_coords(self.buf@, self.offset as int, self.byte_order)
    }

    /// The declared number of points of this ring.
    pub fn num_points(&self) -> (n: usize)
        requires
            self.wf(),
        ensures
            n == self.verts().len(),
    {
        let blen: usize = self.buf.len();
        let c: u32 = read_u32(self.buf, self.offset, self.byte_order);
        c as usize
    }

    /// The coordinate at index `i`, or nothing when `i` is out of range.
    pub fn point(&self, i: usize) -> (c: Option<(u64, u64)>)
        requires
            self.wf(),
        ensures
            match c {
                Option::None => i >= self.verts().len(),
                Option::Some(p) => i < self.verts().len() && p == self.verts()[i as int],
            },
    {
        let n: usize = self.num_points();
        if i >= n {
            return Option::None;
        }
        let blen: usize = self.buf.len();
        proof {
            assert(self.offset + 4 + 16 * (n as int) <= blen);
        }
        let base: usize = self.offset + 4 + 16 * i;
        let x: u64 = read_u64(self.buf, base, self.byte_order);
        let y: u64 = read_u64(self.buf, base + 8, self.byte_order);
        Option::Some((x, y))
    }

    /// Materializes this ring as an owned line string.
    pub fn to_geo(&self) -> (g: LineStringGeom)
        requires
            self.wf(),
        ensures
            g.coords@ == self.verts(),
    {
        let n: usize = self.num_points();
        let blen: usize = self.buf.len();
        let mut coords: Vec<(u64, u64)> = Vec::new();
        let mut k: usize = 0;
        proof {
            assert(self.offset + 4 + 16 * (n as int) <= blen);
        }
        while k < n
            invariant
                self.wf(),
                n == self.verts().len(),
                blen == self.buf@.len(),
                self.offset + 4 + 16 * (n as int) <= blen,
                k <= n,
                coords@.len() == k,
                forall|j: int| 0 <= j < k ==> #[trigger] coords@[j] == self.verts()[j],
            decreases n - k,
        {
            let base: usize = self.offset + 4 + 16 * k;
            let x: u64 = read_u64(self.buf, base, self.byte_order);
            let y: u64 = read_u64(self.buf, base + 8, self.byte_order);
            coords.push((x, y));
            k = k + 1;
        }
        let g = LineStringGeom { coords };
        proof {
            assert(g.coords@ =~= self.verts());
        }
        g
    }
}

impl<'a> WKBPolygon<'a> {
    /// Well-formedness: the polygon fits the buffer at its offset and the
    /// cached ring table and end agree with the byte structure.
    pub open spec fn wf(&self) -> bool {
        &&& wkb_poly_wf(self.buf@, self.offset as int, self.byte_order)
        &&& self.ring_starts@.len() == wkb_poly_nrings(
            self.buf@,
            self.offset as int,
            self.byte_order,
        )
        &&& forall|j: int| 0 <= j < self.ring_starts@.len() ==>
            #[trigger] self.ring_starts@[j] as int == rings_end(
                self.buf@,
                self.offset + 9,
                j,
                self.byte_order,
            )
        &&& self.end as int == wkb_poly_end(self.buf@, self.offset as int, self.byte_order)
    }

    /// The ring contents of this polygon, exterior first.
    pub open spec fn rings(&self) -> Seq<Seq<(u64, u64)>> {
        wkb_poly_rings(self.buf@, self.offset as int, self.byte_order)
    }

    /// Walks the polygon's header and ring counts once, validating every
    /// bound; fails exactly on a structure that does not fit the buffer.
    pub fn try_new(buf: &'a [u8], byte_order: Endianness, offset: usize) -> (r: Result<
        WKBPolygon<'a>,
        GeoArrowError,
    >)
        ensures
            match r {
                Ok(p) => {
                    &&& wkb_poly_wf(buf@, offset as int, byte_order)
                    &&& p.wf()
                    &&& p.buf@ == buf@
                    &&& p.byte_order == byte_order
                    &&& p.offset == offset
                },
                Err(e) => {
                    &&& !wkb_poly_wf(buf@, offset as int, byte_order)
                    &&& e == GeoArrowError::WkbTruncated
                },
            },
    {
        let blen: usize = buf.len();
        if blen < 9 || offset > blen - 9 {
            return Err(GeoArrowError::WkbTruncated);
        }
        let nrings: u32 = read_u32(buf, offset + 5, byte_order);
        let mut ring_starts: Vec<usize> = Vec::new();
        let mut cur: usize = offset + 9;
        let mut j: u32 = 0;
        while j < nrings
            invariant
                blen == buf@.len(),
                offset + 9 <= blen,
                j <= nrings,
                nrings as int == wkb_poly_nrings(buf@, offset as int, byte_order),
                ring_starts@.len() == j,
                forall|t: int| 0 <= t < j ==>
                    #[trigger] ring_starts@[t] as int == rings_end(
                        buf@,
                        offset + 9,
                        t,
                        byte_order,
                    ),
                rings_wf(buf@, offset + 9, j as int, byte_order),
                cur as int == rings_end(buf@, offset + 9, j as int, byte_order),
                cur <= blen,
            decreases nrings - j,
        {
            if blen - cur < 4 {
                proof {
                    lemma_rings_not_wf(buf@, offset + 9, nrings as int, j as int, byte_order);
                }
                return Err(GeoArrowError::WkbTruncated);
            }
            let m: u32 = read_u32(buf, cur, byte_order);
            if ((blen - cur - 4) as u64) < (m as u64) * 16 {
                proof {
                    lemma_rings_not_wf(buf@, offset + 9, nrings as int, j as int, byte_order);
                }
                return Err(GeoArrowError::WkbTruncated);
            }
            ring_starts.push(cur);
            proof {
                lemma_rings_extend(buf@, offset + 9, j as int, byte_order);
            }
            cur = cur + 4 + 16 * (m as usize);
            j = j + 1;
        }
        Ok(WKBPolygon { buf, byte_order, offset, ring_starts, end: cur })
    }

    /// How many bytes this polygon occupies: how far ahead its next sibling
    /// starts.
    pub fn size(&self) -> (n: usize)
        requires
            self.wf(),
        ensures
            n as int == wkb_poly_end(self.buf@, self.offset as int, self.byte_order)
                - self.offset,
    {
        proof {
            lemma_rings_end_ge(
                self.buf@,
                self.offset + 9,
                self.ring_starts@.len() as int,
                self.byte_order,
            );
        }
        self.end - self.offset
    }

    /// The number of rings, the exterior included.
    pub fn num_rings(&self) -> (n: usize)
        requires
            self.wf(),
        ensures
            n == self.rings().len(),
    {
        proof {
            lemma_rings_views_len(
                self.buf@,
                self.offset + 9,
                self.ring_starts@.len() as int,
                self.byte_order,
            );
        }
        self.ring_starts.len()
    }

    /// The ring at index `i`, exterior first, or nothing when `i` is out of
    /// range.
    pub fn ring(&self, i: usize) -> (r: Option<WKBLinearRing<'a>>)
        requires
            self.wf(),
        ensures
            match r {
                Option::None => i >= self.rings().len(),
                Option::Some(g) => {
                    &&& i < self.rings().len()
                    &&& g.wf()
                    &&& g.verts() == self.rings()[i as int]
                },
            },
    {
        if i >= self.ring_starts.len() {
            proof {
                lemma_rings_views_len(
                    self.buf@,
                    self.offset + 9,
                    self.ring_starts@.len() as int,
                    self.byte_order,
                );
            }
            return Option::None;
        }
        proof {
            lemma_rings_at(
                self.buf@,
                self.offset + 9,
                self.ring_starts@.len() as int,
                i as int,
                self.byte_order,
            );
        }
        Option::Some(WKBLinearRing {
            buf: self.buf,
            byte_order: self.byte_order,
            offset: self.ring_starts[i],
        })
    }

    /// Materializes this polygon as an owned geometry object.
    pub fn to_geo(&self) -> (g: PolygonGeom)
        requires
            self.wf(),
        ensures
            g.ring_views() == self.rings(),
    {
        let n: usize = self.num_rings();
        let mut rings: Vec<LineStringGeom> = Vec::new();
        let mut k: usize = 0;
        while k < n
            invariant
                self.wf(),
                n == self.rings().len(),
                k <= n,
                rings@.len() == k,
                forall|j: int| 0 <= j < k ==> #[trigger] rings@[j].coords@ == self.rings()[j],
            decreases n - k,
        {
            let ring: WKBLinearRing<'a> = match self.ring(k) {
                Option::Some(r) => r,
                Option::None => {
                    proof {
                        assert(false);
                    }
                    WKBLinearRing { buf: self.buf, byte_order: self.byte_order, offset: 0 }
                },
            };
            rings.push(ring.to_geo());
            k = k + 1;
        }
        let g = PolygonGeom { rings };
        proof {
            assert(g.ring_views() =~= self.rings());
        }
        g
    }
}

/// A chain's end never precedes its start.
pub proof fn lemma_rings_end_ge(b: Seq<u8>, off: int, n: int, e: Endianness)
    requires
        rings_wf(b, off, n, e),
        n >= 0,
    ensures
        rings_end(b, off, n, e) >= off,
    decreases n,
{
    if n > 0 {
        lemma_rings_end_ge(b, ring_end(b, off, e), n - 1, e);
    }
}

/// If the ring at position `j` of a chain does not fit the buffer, the chain
/// of any greater length is not well-formed.
pub proof fn lemma_rings_not_wf(b: Seq<u8>, off: int, n: int, j: int, e: Endianness)
    requires
        0 <= j < n,
        rings_wf(b, off, j, e),
        !ring_ok(b, rings_end(b, off, j, e), e),
    ensures
        !rings_wf(b, off, n, e),
    decreases j,
{
    if j > 0 {
        lemma_rings_not_wf(b, ring_end(b, off, e), n - 1, j - 1, e);
    }
}


/// The declared polygon count of a multi-polygon buffer.
pub open spec fn wkb_mpoly_npolys(b: Seq<u8>, e: Endianness) -> int {
    u32_at(b, 5, e)
}

/// `n` polygons in a row starting at `off` all fit the buffer.
pub open spec fn polys_wf(b: Seq<u8>, off: int, n: int, e: Endianness) -> bool
    decreases n,
{
    n <= 0 || (wkb_poly_wf(b, off, e) && polys_wf(b, wkb_poly_end(b, off, e), n - 1, e))
}

/// Where `n` polygons in a row starting at `off` end.
pub open spec fn polys_end(b: Seq<u8>, off: int, n: int, e: Endianness) -> int
    decreases n,
{
    if n <= 0 {
        off
    } else {
        polys_end(b, wkb_poly_end(b, off, e), n - 1, e)
    }
}

/// The ring contents of `n` polygons in a row, polygon by polygon.
pub open spec fn polys_views(b: Seq<u8>, off: int, n: int, e: Endianness) -> Seq<
    Seq<Seq<(u64, u64)>>,
>
    decreases n,
{
    if n <= 0 {
        Seq::empty()
    } else {
        seq![wkb_poly_rings(b, off, e)] + polys_views(b, wkb_poly_end(b, off, e), n - 1, e)
    }
}

/// A well-formed multi-polygon buffer: a readable 9-byte header and the
/// declared number of whole polygons after it. Trailing bytes after the last
/// polygon are tolerated, as the enclosing buffer may carry more.
pub open spec fn wkb_mpoly_wf(b: Seq<u8>, e: Endianness) -> bool {
    &&& b.len() >= 9
    &&& polys_wf(b, 9, wkb_mpoly_npolys(b, e), e)
}

/// The polygon contents of a well-formed multi-polygon buffer.
pub open spec fn wkb_mpoly_views(b: Seq<u8>, e: Endianness) -> Seq<Seq<Seq<(u64, u64)>>> {
    polys_views(b, 9, wkb_mpoly_npolys(b, e), e)
}

/// A chain of `n` polygons has `n` views.
pub proof fn lemma_polys_views_len(b: Seq<u8>, off: int, n: int, e: Endianness)
    requires
        n >= 0,
    ensures
        polys_views(b, off, n, e).len() == n,
    decreases n,
{
    if n > 0 {
        lemma_polys_views_len(b, wkb_poly_end(b, off, e), n - 1, e);
    }
}

/// A well-formed chain stays well-formed one polygon further when the next
/// polygon fits, and its end advances by that polygon.
pub proof fn lemma_polys_extend(b: Seq<u8>, off: int, j: int, e: Endianness)
    requires
        j >= 0,
        polys_wf(b, off, j, e),
        wkb_poly_wf(b, polys_end(b, off, j, e), e),
    ensures
        polys_wf(b, off, j + 1, e),
        polys_end(b, off, j + 1, e) == wkb_poly_end(b, polys_end(b, off, j, e), e),
    decreases j,
{
    if j > 0 {
        assert(wkb_poly_wf(b, off, e));
        assert(polys_wf(b, wkb_poly_end(b, off, e), j - 1, e));
        assert(polys_end(b, off, j, e) == polys_end(b, wkb_poly_end(b, off, e), j - 1, e));
        lemma_polys_extend(b, wkb_poly_end(b, off, e), j - 1, e);
        assert(polys_wf(b, wkb_poly_end(b, off, e), j, e));
        assert(polys_wf(b, off, j + 1, e));
        assert(polys_end(b, off, j + 1, e) == polys_end(b, wkb_poly_end(b, off, e), j, e));
    } else {
        assert(polys_end(b, off, 0, e) == off);
        assert(polys_wf(b, wkb_poly_end(b, off, e), 0, e));
        assert(polys_wf(b, off, 1, e));
        assert(polys_end(b, off, 1, e) == polys_end(b, wkb_poly_end(b, off, e), 0, e));
    }
}

/// Within a well-formed chain, each polygon fits the buffer at its computed
/// position, and the chain's views list that polygon's rings there.
pub proof fn lemma_polys_at(b: Seq<u8>, off: int, n: int, j: int, e: Endianness)
    requires
        polys_wf(b, off, n, e),
        0 <= j < n,
    ensures
        wkb_poly_wf(b, polys_end(b, off, j, e), e),
        polys_views(b, off, n, e).len() == n,
        polys_views(b, off, n, e)[j] == wkb_poly_rings(b, polys_end(b, off, j, e), e),
    decreases j,
{
    lemma_polys_views_len(b, off, n, e);
    if j > 0 {
        lemma_polys_at(b, wkb_poly_end(b, off, e), n - 1, j - 1, e);
        lemma_polys_views_len(b, wkb_poly_end(b, off, e), n - 1, e);
    }
}

/// If the polygon at position `j` of a chain does not fit the buffer, the
/// chain of any greater length is not well-formed.
pub proof fn lemma_polys_not_wf(b: Seq<u8>, off: int, n: int, j: int, e: Endianness)
    requires
        0 <= j < n,
        polys_wf(b, off, j, e),
        !wkb_poly_wf(b, polys_end(b, off, j, e), e),
    ensures
        !polys_wf(b, off, n, e),
    decreases j,
{
    if j > 0 {
        lemma_polys_not_wf(b, wkb_poly_end(b, off, e), n - 1, j - 1, e);
    }
}

/// A borrowed view of one multi-polygon over a WKB byte buffer: one polygon
/// view per sub-geometry, each holding its precomputed ring table.
#[derive(Debug)]
pub struct WKBMultiPolygon<'a> {
    /// The underlying bytes.
    pub buf: &'a [u8],
    /// The byte order the caller read from the buffer's marker.
    pub byte_order: Endianness,
    /// A polygon view for each of the declared sub-geometries.
    pub wkb_polygons: Vec<WKBPolygon<'a>>,
}

impl<'a> WKBMultiPolygon<'a> {
    /// Well-formedness: the buffer is a well-formed multi-polygon and each
    /// cached polygon view sits at its computed position.
    pub open spec fn wf(&self) -> bool {
        &&& wkb_mpoly_wf(self.buf@, self.byte_order)
        &&& self.wkb_polygons@.len() == wkb_mpoly_npolys(self.buf@, self.byte_order)
        &&& forall|j: int| 0 <= j < self.wkb_polygons@.len() ==> {
            &&& (#[trigger] self.wkb_polygons@[j]).wf()
            &&& self.wkb_polygons@[j].buf@ == self.buf@
            &&& self.wkb_polygons@[j].byte_order == self.byte_order
            &&& self.wkb_polygons@[j].offset as int == polys_end(
                self.buf@,
                9,
                j,
                self.byte_order,
            )
        }
    }

    /// The ring contents of each polygon, in order.
    pub open spec fn views(&self) -> Seq<Seq<Seq<(u64, u64)>>> {
        wkb_mpoly_views(self.buf@, self.byte_order)
    }

    /// Walks the header and every polygon's ring counts once, validating all
    /// bounds; fails exactly on a structure that does not fit the buffer.
    pub fn try_new(buf: &'a [u8], byte_order: Endianness) -> (r: Result<
        WKBMultiPolygon<'a>,
        GeoArrowError,
    >)
        ensures
            match r {
                Ok(w) => {
                    &&& wkb_mpoly_wf(buf@, byte_order)
                    &&& w.wf()
                    &&& w.buf@ == buf@
                    &&& w.byte_order == byte_order
                },
                Err(e) => {
                    &&& !wkb_mpoly_wf(buf@, byte_order)
                    &&& e == GeoArrowError::WkbTruncated
                },
            },
    {
        let blen: usize = buf.len();
        if blen < 9 {
            return Err(GeoArrowError::WkbTruncated);
        }
        let npolys: u32 = read_u32(buf, 5, byte_order);
        let mut wkb_polygons: Vec<WKBPolygon<'a>> = Vec::new();
        let mut cur: usize = 9;
        let mut j: u32 = 0;
        while j < npolys
            invariant
                blen == buf@.len(),
                blen >= 9,
                j <= npolys,
                npolys as int == wkb_mpoly_npolys(buf@, byte_order),
                wkb_polygons@.len() == j,
                forall|t: int| 0 <= t < j ==> {
                    &&& (#[trigger] wkb_polygons@[t]).wf()
                    &&& wkb_polygons@[t].buf@ == buf@
                    &&& wkb_polygons@[t].byte_order == byte_order
                    &&& wkb_polygons@[t].offset as int == polys_end(buf@, 9, t, byte_order)
                },
                polys_wf(buf@, 9, j as int, byte_order),
                cur as int == polys_end(buf@, 9, j as int, byte_order),
            decreases npolys - j,
        {
            let p: WKBPolygon<'a> = match WKBPolygon::try_new(buf, byte_order, cur) {
                Ok(p) => p,
                Err(e) => {
                    proof {
                        lemma_polys_not_wf(buf@, 9, npolys as int, j as int, byte_order);
                    }
                    return Err(GeoArrowError::WkbTruncated);
                },
            };
            let next: usize = p.end;
            wkb_polygons.push(p);
            proof {
                lemma_polys_extend(buf@, 9, j as int, byte_order);
            }
            cur = next;
            j = j + 1;
        }
        Ok(WKBMultiPolygon { buf, byte_order, wkb_polygons })
    }

    /// Parses a buffer already known well-formed, in the trusted-caller
    /// style; `try_new` is the validating entry point.
    pub fn new(buf: &'a [u8], byte_order: Endianness) -> (w: WKBMultiPolygon<'a>)
        requires
            wkb_mpoly_wf(buf@, byte_order),
        ensures
            w.wf(),
            w.buf@ == buf@,
            w.byte_order == byte_order,
    {
        match WKBMultiPolygon::try_new(buf, byte_order) {
            Ok(w) => w,
            Err(_) => {
                proof {
                    assert(false);
                }
                WKBMultiPolygon { buf, byte_order, wkb_polygons: Vec::new() }
            },
        }
    }

    /// The number of polygons in this multi-polygon.
    pub fn num_polygons(&self) -> (n: usize)
        requires
            self.wf(),
        ensures
            n == self.views().len(),
    {
        proof {
            lemma_polys_views_len(
                self.buf@,
                9,
                self.wkb_polygons@.len() as int,
                self.byte_order,
            );
        }
        self.wkb_polygons.len()
    }

    /// The polygon at index `i`, or nothing when `i` is out of range: a
    /// bounds check, since the format has no notion of a null polygon.
    pub fn polygon(&self, i: usize) -> (r: Option<&WKBPolygon<'a>>)
        requires
            self.wf(),
        ensures
            match r {
                Option::None => i >= self.views().len(),
                Option::Some(p) => {
                    &&& i < self.views().len()
                    &&& p.wf()
                    &&& p.rings() == self.views()[i as int]
                },
            },
    {
        proof {
            lemma_polys_views_len(
                self.buf@,
                9,
                self.wkb_polygons@.len() as int,
                self.byte_order,
            );
        }
        if i >= self.wkb_polygons.len() {
            return Option::None;
        }
        proof {
            lemma_polys_at(
                self.buf@,
                9,
                self.wkb_polygons@.len() as int,
                i as int,
                self.byte_order,
            );
        }
        Option::Some(&self.wkb_polygons[i])
    }

    /// The polygon views in order: the whole-collection counterpart of
    /// `polygon`.
    pub fn polygons(&self) -> (rs: Vec<&WKBPolygon<'a>>)
        requires
            self.wf(),
        ensures
            rs@.len() == self.views().len(),
            forall|j: int| 0 <= j < rs@.len() ==> {
                &&& (#[trigger] rs@[j]).wf()
                &&& rs@[j].rings() == self.views()[j]
            },
    {
        let n: usize = self.num_polygons();
        proof {
            lemma_polys_views_len(self.buf@, 9, self.wkb_polygons@.len() as int, self.byte_order);
        }
        let mut rs: Vec<&WKBPolygon<'a>> = Vec::new();
        let mut k: usize = 0;
        while k < n
            invariant
                self.wf(),
                n == self.views().len(),
                n == self.wkb_polygons@.len(),
                k <= n,
                rs@.len() == k,
                forall|j: int| 0 <= j < k ==> {
                    &&& (#[trigger] rs@[j]).wf()
                    &&& rs@[j].rings() == self.views()[j]
                },
            decreases n - k,
        {
            proof {
                lemma_polys_at(
                    self.buf@,
                    9,
                    self.wkb_polygons@.len() as int,
                    k as int,
                    self.byte_order,
                );
            }
            rs.push(&self.wkb_polygons[k]);
            k = k + 1;
        }
        rs
    }

    /// Materializes this multi-polygon as an owned geometry object.
    pub fn to_geo(&self) -> (g: MultiPolygonGeom)
        requires
            self.wf(),
        ensures
            g.polygon_views() == self.views(),
    {
        let n: usize = self.num_polygons();
        proof {
            lemma_polys_views_len(self.buf@, 9, self.wkb_polygons@.len() as int, self.byte_order);
        }
        let mut polygons: Vec<PolygonGeom> = Vec::new();
        let mut k: usize = 0;
        while k < n
            invariant
                self.wf(),
                n == self.views().len(),
                n == self.wkb_polygons@.len(),
                k <= n,
                polygons@.len() == k,
                forall|j: int| 0 <= j < k ==>
                    (#[trigger] polygons@[j]).ring_views() == self.views()[j],
            decreases n - k,
        {
            proof {
                lemma_polys_at(
                    self.buf@,
                    9,
                    self.wkb_polygons@.len() as int,
                    k as int,
                    self.byte_order,
                );
            }
            polygons.push(self.wkb_polygons[k].to_geo());
            k = k + 1;
        }
        let g = MultiPolygonGeom { polygons };
        proof {
            assert(g.polygon_views() =~= self.views());
        }
        g
    }
}

} // verus!
