//! The dynamic-dispatch wrapper over the array family: the enum a consumer
//! holds when the geometry class of its data is not known until run time.
//! Generic code elsewhere is parameterized over one class statically; this
//! boundary type dispatches the shared capability surface by matching.

use vstd::prelude::*;

use crate::dimensions::HasDimensions;
use crate::linestring::LineStringArray;
use crate::multilinestring::MultiLineStringArray;
use crate::multipoint::MultiPointArray;
use crate::multipolygon::MultiPolygonArray;
use crate::point::PointArray;
use crate::polygon::PolygonArray;

verus! {

/// One geometry array of a class chosen at run time.
#[derive(Debug)]
pub enum GeometryArray {
    Point(PointArray),
    LineString(LineStringArray),
    Polygon(PolygonArray),
    MultiPoint(MultiPointArray),
    MultiLineString(MultiLineStringArray),
    MultiPolygon(MultiPolygonArray),
}

impl GeometryArray {
    /// Well-formedness of the wrapped array.
    pub open spec fn wf(&self) -> bool {
        match self {
            GeometryArray::Point(a) => a.wf(),
            GeometryArray::LineString(a) => a.wf(),
            GeometryArray::Polygon(a) => a.wf(),
            GeometryArray::MultiPoint(a) => a.wf(),
            GeometryArray::MultiLineString(a) => a.wf(),
            GeometryArray::MultiPolygon(a) => a.wf(),
        }
    }

    /// The logical length of the wrapped array.
    pub open spec fn spec_len(&self) -> int {
        match self {
            GeometryArray::Point(a) => a.spec_len(),
            GeometryArray::LineString(a) => a.spec_len(),
            GeometryArray::Polygon(a) => a.spec_len(),
            GeometryArray::MultiPoint(a) => a.spec_len(),
            GeometryArray::MultiLineString(a) => a.spec_len(),
            GeometryArray::MultiPolygon(a) => a.spec_len(),
        }
    }

    /// The number of geometries in the wrapped array.
    pub fn len(&self) -> (n: usize)
        requires
            self.wf(),
        ensures
            n == self.spec_len(),
    {
        match self {
            GeometryArray::Point(a) => a.len(),
            GeometryArray::LineString(a) => a.len(),
            GeometryArray::Polygon(a) => a.len(),
            GeometryArray::MultiPoint(a) => a.len(),
            GeometryArray::MultiLineString(a) => a.len(),
            GeometryArray::MultiPolygon(a) => a.len(),
        }
    }
}

impl HasDimensions for GeometryArray {
    open spec fn dims_wf(&self) -> bool {
        self.wf()
    }

    open spec fn emptiness(&self) -> Seq<Option<bool>> {
        match self {
            GeometryArray::Point(a) => a.emptiness(),
            GeometryArray::LineString(a) => a.emptiness(),
            GeometryArray::Polygon(a) => a.emptiness(),
            GeometryArray::MultiPoint(a) => a.emptiness(),
            GeometryArray::MultiLineString(a) => a.emptiness(),
            GeometryArray::MultiPolygon(a) => a.emptiness(),
        }
    }

    fn is_empty(&self) -> (r: Vec<Option<bool>>) {
        match self {
            GeometryArray::Point(a) => a.is_empty(),
            GeometryArray::LineString(a) => a.is_empty(),
            GeometryArray::Polygon(a) => a.is_empty(),
            GeometryArray::MultiPoint(a) => a.is_empty(),
            GeometryArray::MultiLineString(a) => a.is_empty(),
            GeometryArray::MultiPolygon(a) => a.is_empty(),
        }
    }
}

} // verus!
