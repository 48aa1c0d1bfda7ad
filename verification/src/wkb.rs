//! The binary codec: reading the well-known-binary geometry encoding into
//! borrowed views over the byte buffer, without intermediate allocation.
//!
//! Every geometry starts with a one-byte endianness marker, a 4-byte type
//! tag and a 4-byte count, all interpreted per the marker; coordinates are
//! 8-byte patterns carried through untouched. Sub-geometries are addressed by
//! arithmetic from counts read once at construction, never by re-parsing.
//! Nested geometries are read with the outer byte order, as single-endian
//! buffers are what the reference encoders produce; their own markers are not
//! re-validated. Malformed input (truncated buffers, counts that disagree
//! with the bytes available) is a recoverable error, never a panic.

use vstd::prelude::*;

use crate::GeoArrowError;
use crate::coords::CoordType;
use crate::geom::MultiPointGeom;
use crate::multipoint::{MultiPointArray, multipoint_geoms_view};
use crate::validity::{Validity, slot_valid};

verus! {

/// The byte order a buffer declares in its leading marker byte.
#[derive(Clone, Copy, Debug, PartialEq, Eq, Structural)]
pub enum Endianness {
    BigEndian,
    LittleEndian,
}

/// The byte order a marker byte declares: 1 is little-endian, 0 big-endian.
pub open spec fn marker_endian(m: u8) -> Endianness {
    if m == 1 {
        Endianness::LittleEndian
    } else {
        Endianness::BigEndian
    }
}

/// A marker byte is one of the two defined values.
pub open spec fn marker_ok(m: u8) -> bool {
    m == 0 || m == 1
}

/// The unsigned 32-bit value the four bytes at `off` encode.
pub open spec fn u32_at(b: Seq<u8>, off: int, e: Endianness) -> int {
    match e {
        Endianness::LittleEndian => b[off] + 0x100 * b[off + 1] + 0x10000 * b[off + 2]
            + 0x1000000 * b[off + 3],
        Endianness::BigEndian => b[off + 3] + 0x100 * b[off + 2] + 0x10000 * b[off + 1]
            + 0x1000000 * b[off],
    }
}

/// The 64-bit pattern the eight bytes at `off` encode: how one coordinate
/// value is carried.
pub open spec fn u64_at(b: Seq<u8>, off: int, e: Endianness) -> u64 {
    (match e {
        Endianness::LittleEndian => b[off] + 0x100 * b[off + 1] + 0x10000 * b[off + 2]
            + 0x1000000 * b[off + 3] + 0x100000000 * b[off + 4] + 0x10000000000 * b[off + 5]
            + 0x1000000000000 * b[off + 6] + 0x100000000000000 * b[off + 7],
        Endianness::BigEndian => b[off + 7] + 0x100 * b[off + 6] + 0x10000 * b[off + 5]
            + 0x1000000 * b[off + 4] + 0x100000000 * b[off + 3] + 0x10000000000 * b[off + 2]
            + 0x1000000000000 * b[off + 1] + 0x100000000000000 * b[off],
    }) as u64
}

/// Reads the 4-byte count or tag at `off` per the given byte order.
pub fn read_u32(buf: &[u8], off: usize, e: Endianness) -> (r: u32)
    requires
        off + 4 <= buf@.len(),
    ensures
        r as int == u32_at(buf@, off as int, e),
{
    let n: usize = buf.len();
    proof {
        assert(off + 4 <= n);
    }
    match e {
        Endianness::LittleEndian => (buf[off] as u32) + 0x100 * (buf[off + 1] as u32) + 0x10000
            * (buf[off + 2] as u32) + 0x1000000 * (buf[off + 3] as u32),
        Endianness::BigEndian => (buf[off + 3] as u32) + 0x100 * (buf[off + 2] as u32) + 0x10000
            * (buf[off + 1] as u32) + 0x1000000 * (buf[off] as u32),
    }
}

/// Reads the 8-byte coordinate pattern at `off` per the given byte order.
pub fn read_u64(buf: &[u8], off: usize, e: Endianness) -> (r: u64)
    requires
        off + 8 <= buf@.len(),
    ensures
        r == u64_at(buf@, off as int, e),
{
    let n: usize = buf.len();
    proof {
        assert(off + 8 <= n);
    }
    match e {
        Endianness::LittleEndian => (buf[off] as u64) + 0x100 * (buf[off + 1] as u64) + 0x10000
            * (buf[off + 2] as u64) + 0x1000000 * (buf[off + 3] as u64) + 0x100000000 * (buf[off
            + 4] as u64) + 0x10000000000 * (buf[off + 5] as u64) + 0x1000000000000 * (buf[off
            + 6] as u64) + 0x100000000000000 * (buf[off + 7] as u64),
        Endianness::BigEndian => (buf[off + 7] as u64) + 0x100 * (buf[off + 6] as u64) + 0x10000
            * (buf[off + 5] as u64) + 0x1000000 * (buf[off + 4] as u64) + 0x100000000 * (buf[off
            + 3] as u64) + 0x10000000000 * (buf[off + 2] as u64) + 0x1000000000000 * (buf[off
            + 1] as u64) + 0x100000000000000 * (buf[off] as u64),
    }
}

/// The multi-point type tag.
pub const WKB_MULTIPOINT_TAG: u32 = 4;

/// The byte order a multi-point buffer declares.
pub open spec fn wkb_mp_endian(b: Seq<u8>) -> Endianness {
    marker_endian(b[0])
}

/// The declared number of points of a multi-point buffer.
pub open spec fn wkb_mp_count(b: Seq<u8>) -> int {
    u32_at(b, 5, wkb_mp_endian(b))
}

/// A well-formed multi-point buffer: marker, multi-point tag, and exactly the
/// declared number of 21-byte point records (each a 5-byte header and two
/// 8-byte coordinates).
pub open spec fn wkb_mp_wf(b: Seq<u8>) -> bool {
    &&& b.len() >= 9
    &&& marker_ok(b[0])
    &&& u32_at(b, 1, wkb_mp_endian(b)) == WKB_MULTIPOINT_TAG
    &&& b.len() == 9 + 21 * wkb_mp_count(b)
}

/// The coordinates a well-formed multi-point buffer encodes, in order.
pub open spec fn wkb_mp_coords(b: Seq<u8>) -> Seq<(u64, u64)> {
    Seq::new(
        wkb_mp_count(b) as nat,
        |i: int| (
            u64_at(b, 9 + 21 * i + 5, wkb_mp_endian(b)),
            u64_at(b, 9 + 21 * i + 13, wkb_mp_endian(b)),
        ),
    )
}

/// Which error a malformed multi-point buffer draws, checked in header
/// order: truncation, marker, type tag, then declared count versus bytes.
pub open spec fn wkb_mp_error(b: Seq<u8>) -> GeoArrowError {
    if b.len() < 9 {
        GeoArrowError::WkbTruncated
    } else if !marker_ok(b[0]) {
        GeoArrowError::WkbBadByteOrder
    } else if u32_at(b, 1, wkb_mp_endian(b)) != WKB_MULTIPOINT_TAG {
        GeoArrowError::WkbUnexpectedType
    } else {
        GeoArrowError::WkbLengthMismatch
    }
}

/// A borrowed view of one multi-point over a WKB byte buffer: the header is
/// walked once at construction, after which points are addressed by
/// arithmetic.
#[derive(Debug)]
pub struct WKBMultiPoint<'a> {
    /// The underlying bytes, holding exactly this geometry.
    pub buf: &'a [u8],
    /// The byte order the buffer's marker declared.
    pub byte_order: Endianness,
    /// The declared number of points.
    pub num_points: usize,
}

impl<'a> WKBMultiPoint<'a> {
    /// Well-formedness: the buffer is a well-formed multi-point and the
    /// cached header fields agree with it.
    pub open spec fn wf(&self) -> bool {
        &&& wkb_mp_wf(self.buf@)
        &&& self.byte_order == wkb_mp_endian(self.buf@)
        &&& self.num_points as int == wkb_mp_count(self.buf@)
    }

    /// The coordinates this view decodes to.
    pub open spec fn verts(&self) -> Seq<(u64, u64)> {
        wkb_mp_coords(self.buf@)
    }

    /// Parses the header of a multi-point buffer, validating the marker, the
    /// type tag and the declared count against the bytes available. Fails
    /// exactly on malformed buffers, with the first header error found.
    pub fn try_new(buf: &'a [u8]) -> (r: Result<WKBMultiPoint<'a>, GeoArrowError>)
        ensures
            match r {
                Ok(w) => {
                    &&& wkb_mp_wf(buf@)
                    &&& w.wf()
                    &&& w.buf@ == buf@
                },
                Err(e) => {
                    &&& !wkb_mp_wf(buf@)
                    &&& e == wkb_mp_error(buf@)
                },
            },
    {
        let n: usize = buf.len();
        if n < 9 {
            return Err(GeoArrowError::WkbTruncated);
        }
        let m: u8 = buf[0];
        if m > 1 {
            return Err(GeoArrowError::WkbBadByteOrder);
        }
        let e: Endianness = if m == 1 {
            Endianness::LittleEndian
        } else {
            Endianness::BigEndian
        };
        let tag: u32 = read_u32(buf, 1, e);
        if tag != 4 {
            return Err(GeoArrowError::WkbUnexpectedType);
        }
        let count: u32 = read_u32(buf, 5, e);
        if n as u64 != 9 + 21 * (count as u64) {
            return Err(GeoArrowError::WkbLengthMismatch);
        }
        Ok(WKBMultiPoint { buf, byte_order: e, num_points: count as usize })
    }

    /// The declared number of points.
    pub fn num_points(&self) -> (n: usize)
        requires
            self.wf(),
        ensures
            n as int == self.verts().len(),
    {
        self.num_points
    }

    /// The coordinate of point `i`, or nothing when `i` is out of range:
    /// a bounds check, since the format has no notion of a null point.
    pub fn point(&self, i: usize) -> (c: Option<(u64, u64)>)
        requires
            self.wf(),
        ensures
            match c {
                Option::None => i >= self.verts().len(),
                Option::Some(p) => i < self.verts().len() && p == self.verts()[i as int],
            },
    {
        if i >= self.num_points {
            return Option::None;
        }
        let blen: usize = self.buf.len();
        proof {
            assert(blen as int == 9 + 21 * wkb_mp_count(self.buf@));
        }
        let base: usize = 9 + 21 * i;
        let x: u64 = read_u64(self.buf, base + 5, self.byte_order);
        let y: u64 = read_u64(self.buf, base + 13, self.byte_order);
        Option::Some((x, y))
    }

    /// Materializes the decoded coordinates as an owned geometry object.
    pub fn to_geo(&self) -> (g: MultiPointGeom)
        requires
            self.wf(),
        ensures
            g.points@ == self.verts(),
    {
        let n: usize = self.num_points;
        let blen: usize = self.buf.len();
        let mut points: Vec<(u64, u64)> = Vec::new();
        let mut k: usize = 0;
        while k < n
            invariant
                self.wf(),
                n == self.num_points,
                blen == self.buf@.len(),
                k <= n,
                points@.len() == k,
                forall|j: int| 0 <= j < k ==> #[trigger] points@[j] == self.verts()[j],
            decreases n - k,
        {
            let base: usize = 9 + 21 * k;
            let x: u64 = read_u64(self.buf, base + 5, self.byte_order);
            let y: u64 = read_u64(self.buf, base + 13, self.byte_order);
            points.push((x, y));
            k = k + 1;
        }
        let g = MultiPointGeom { points };
        proof {
            assert(g.points@ =~= self.verts());
        }
        g
    }
}

/// An array of WKB byte buffers, one optional geometry blob per slot.
#[derive(Debug)]
pub struct WKBArray {
    /// One encoded geometry per slot; a null slot's bytes are ignored.
    pub blobs: Vec<Vec<u8>>,
    /// Optional per-slot null markers.
    pub validity: Option<Validity>,
}

impl WKBArray {
    /// Well-formedness: the bitmap, when present, covers exactly one flag
    /// per blob.
    pub open spec fn wf(&self) -> bool {
        match self.validity {
            Option::None => true,
            Option::Some(v) => v.wf() && v.spec_len() == self.blobs@.len(),
        }
    }

    /// The number of slots.
    pub open spec fn spec_len(&self) -> int {
        self.blobs@.len() as int
    }

    /// The bytes of slot `i`.
    pub open spec fn blob(&self, i: int) -> Seq<u8> {
        self.blobs@[i]@
    }

    /// Creates an array from blobs already known consistent with the bitmap.
    pub fn new(blobs: Vec<Vec<u8>>, validity: Option<Validity>) -> (r: WKBArray)
        requires
            match validity {
                Option::None => true,
                Option::Some(v) => v.wf() && v.spec_len() == blobs@.len(),
            },
        ensures
            r == (WKBArray { blobs, validity }),
            r.wf(),
    {
        WKBArray { blobs, validity }
    }

    /// The number of slots.
    pub fn len(&self) -> (n: usize)
        ensures
            n == self.spec_len(),
    {
        self.blobs.len()
    }
}

/// Every valid slot of the batch holds a well-formed multi-point buffer.
pub open spec fn wkb_mp_slots_wf(w: &WKBArray) -> bool {
    forall|i: int| 0 <= i < w.spec_len() && slot_valid(&w.validity, i) ==> wkb_mp_wf(
        #[trigger] w.blob(i),
    )
}

/// The logical contents a multi-point batch decodes to: null slots stay
/// null, valid slots decode to their coordinates.
pub open spec fn wkb_mp_decoded_view(w: &WKBArray) -> Seq<Option<Seq<(u64, u64)>>> {
    Seq::new(
        w.spec_len() as nat,
        |i: int| if slot_valid(&w.validity, i) {
            Option::Some(wkb_mp_coords(w.blob(i)))
        } else {
            Option::None
        },
    )
}

/// The total coordinate count of the first `i` slots of the batch; null
/// slots contribute nothing.
pub open spec fn wkb_mp_total(w: &WKBArray, i: int) -> int
    decreases i,
{
    if i <= 0 {
        0
    } else {
        wkb_mp_total(w, i - 1) + if slot_valid(&w.validity, i - 1) {
            wkb_mp_count(w.blob(i - 1))
        } else {
            0
        }
    }
}

impl MultiPointArray {
    /// Decodes a batch of WKB multi-point buffers into an array of the
    /// requested coordinate layout, preserving the null pattern. Succeeds
    /// exactly when every valid slot is well-formed and the total coordinate
    /// count fits the index width; a malformed slot draws its header error,
    /// an oversized total the overflow error.
    pub fn try_from_wkb(w: &WKBArray, target: CoordType) -> (r: Result<
        MultiPointArray,
        GeoArrowError,
    >)
        requires
            w.wf(),
        ensures
            r is Ok <==> (wkb_mp_slots_wf(w) && wkb_mp_total(w, w.spec_len()) <= i64::MAX
                && wkb_mp_total(w, w.spec_len()) <= usize::MAX),
            match r {
                Ok(a) => {
                    &&& a.wf()
                    &&& a.spec_len() == w.spec_len()
                    &&& a.coords.spec_coord_type() == target
                    &&& a.view() == wkb_mp_decoded_view(w)
                },
                Err(e) => (e == GeoArrowError::LengthOverflow && wkb_mp_slots_wf(w)) || (
                e != GeoArrowError::LengthOverflow && !wkb_mp_slots_wf(w)),
            },
    {
        let n: usize = w.blobs.len();
        let mut geoms: Vec<Option<MultiPointGeom>> = Vec::new();
        let mut k: usize = 0;
        while k < n
            invariant
                w.wf(),
                n == w.spec_len(),
                k <= n,
                geoms@.len() == k,
                forall|i: int| 0 <= i < k && slot_valid(&w.validity, i) ==> wkb_mp_wf(
                    #[trigger] w.blob(i),
                ),
                forall|i: int| 0 <= i < k ==>
                    #[trigger] multipoint_geoms_view(geoms@)[i] == wkb_mp_decoded_view(w)[i],
                forall|i: int| 0 <= i < k ==>
                    slot_geom_len_of(geoms@[i]) == slot_share(w, i),
            decreases n - k,
        {
            let valid: bool = match &w.validity {
                Option::None => true,
                Option::Some(v) => v.is_valid(k),
            };
            let ghost pre = geoms@;
            if valid {
                let parsed: WKBMultiPoint<'_> = match WKBMultiPoint::try_new(w.blobs[k].as_slice()) {
                    Ok(p) => p,
                    Err(e) => {
                        proof {
                            assert(!wkb_mp_wf(w.blob(k as int)));
                            assert(!wkb_mp_slots_wf(w));
                        }
                        return Err(e);
                    },
                };
                geoms.push(Option::Some(parsed.to_geo()));
            } else {
                geoms.push(Option::None);
            }
            proof {
                assert forall|i: int| 0 <= i < k + 1 implies
                    #[trigger] multipoint_geoms_view(geoms@)[i] == wkb_mp_decoded_view(w)[i] by {
                    if i < k {
                        assert(geoms@[i] == pre[i]);
                        assert(multipoint_geoms_view(pre)[i] == wkb_mp_decoded_view(w)[i]);
                    }
                }
            }
            k = k + 1;
        }
        proof {
            lemma_mp_total_is_flatten(w, geoms@, n as int);
            assert(geoms@.subrange(0, n as int) =~= geoms@);
        }
        let built: Result<MultiPointArray, GeoArrowError> = MultiPointArray::from_geoms(
            &geoms,
            target,
        );
        match built {
            Ok(a) => {
                proof {
                    assert(a.view() =~= wkb_mp_decoded_view(w));
                }
                Ok(a)
            },
            Err(e) => Err(e),
        }
    }
}

/// The coordinate count one decoded slot carries.
pub open spec fn slot_geom_len_of(g: Option<MultiPointGeom>) -> int {
    crate::multipoint::slot_geom_len(g)
}

/// The coordinate count slot `i` of the batch contributes.
pub open spec fn slot_share(w: &WKBArray, i: int) -> int {
    if slot_valid(&w.validity, i) {
        wkb_mp_count(w.blob(i))
    } else {
        0
    }
}

/// The batch's running total equals the flattened length of the decoded
/// geometries.
proof fn lemma_mp_total_is_flatten(w: &WKBArray, gs: Seq<Option<MultiPointGeom>>, i: int)
    requires
        0 <= i <= gs.len(),
        gs.len() == w.spec_len(),
        forall|j: int| 0 <= j < gs.len() ==> slot_geom_len_of(#[trigger] gs[j]) == slot_share(
            w,
            j,
        ),
    ensures
        wkb_mp_total(w, i) == crate::multipoint::flatten_geoms(gs.subrange(0, i)).len(),
    decreases i,
{
    if i > 0 {
        lemma_mp_total_is_flatten(w, gs, i - 1);
        let pre = gs.subrange(0, i);
        assert(pre.drop_last() =~= gs.subrange(0, i - 1));
        assert(pre.last() == gs[i - 1]);
    } else {
        assert(gs.subrange(0, 0) =~= Seq::<Option<MultiPointGeom>>::empty());
    }
}

/// Law: decoding a WKB batch is independent of the physical coordinate
/// layout chosen for the result. Arrays decoded from one batch into the
/// interleaved and the separated layout are value-equal: `try_from_wkb`
/// promises each array depicts `wkb_mp_decoded_view` of the batch, whatever
/// the target layout, so the two logical views coincide.
pub proof fn lemma_wkb_decode_layout_independent(
    w: &WKBArray,
    a: &MultiPointArray,
    b: &MultiPointArray,
)
    requires
        a.view() == wkb_mp_decoded_view(w),
        b.view() == wkb_mp_decoded_view(w),
    ensures
        a.view() == b.view(),
{
}

} // verus!
