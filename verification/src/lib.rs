//! A columnar in-memory encoding for geometric data: points, line strings,
//! polygons and their multi-part variants, packed into flat coordinate
//! buffers delimited by offset buffers, with an optional validity bitmap.
//!
//! The crate centres on the array memory model and the binary codec: how
//! variable-length nested geometries live in flat buffers, how arrays are
//! sliced without violating the shared-buffer invariants or copied into
//! independent compact storage, how the well-known-binary wire format is
//! decoded into views over the raw bytes, and how a spatial index is
//! bulk-loaded from an array's contents. Each array class carries a logical
//! view, a sequence of optional geometries over opaque 64-bit coordinate
//! patterns, and every operation's contract is stated against that view.
//!
//! Arrays are immutable value types after construction. In-place slicing
//! narrows a window over shared storage in O(1); owned slicing copies only
//! the touched sub-ranges and yields unsliced storage. Emptiness and nullity
//! are orthogonal throughout: an empty geometry is a present slot with a
//! zero-length range, a null slot has no value at all.

use vstd::prelude::*;

pub mod coords;
pub mod dimensions;
pub mod dynamic;
pub mod geom;
pub mod index;
pub mod linestring;
pub mod multilinestring;
pub mod multipoint;
pub mod multipolygon;
pub mod offsets;
pub mod point;
pub mod polygon;
pub mod validity;
pub mod wkb;
pub mod wkb_polygon;

verus! {

/// Structured errors for construction, conversion and decoding.
///
/// Construction errors come from the fallible constructors; `NarrowOverflow`
/// from index-width narrowing; the `Wkb*` variants from the binary reader.
#[derive(Clone, Copy, Debug, PartialEq, Eq, Structural)]
pub enum GeoArrowError {
    /// A validity bitmap was given whose length differs from the logical length.
    ValidityLengthMismatch,
    /// The terminal offset does not equal the length of the referenced buffer.
    OffsetLengthMismatch,
    /// An offset sequence was not monotonically non-decreasing and non-negative.
    OffsetsNotMonotone,
    /// A value did not fit the narrow index width.
    NarrowOverflow,
    /// A running sum of lengths did not fit the index width.
    LengthOverflow,
    /// An interleaved buffer had odd length, or the two axis buffers of a
    /// separated layout disagreed in length.
    CoordLengthMismatch,
    /// A byte buffer ended before the structure it declares.
    WkbTruncated,
    /// The first byte of a geometry was neither of the two endianness markers.
    WkbBadByteOrder,
    /// The 4-byte type tag named a geometry class other than the expected one.
    WkbUnexpectedType,
    /// The declared element count disagrees with the bytes available.
    WkbLengthMismatch,
}

} // verus!
