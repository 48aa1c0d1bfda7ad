//! Owned, tree-shaped geometry objects: the interchange representation that
//! arrays convert to and from. Materializing one is an explicit, allocating
//! operation and never on the hot path.
//!
//! Coordinates are opaque 64-bit patterns, as everywhere in this crate.
//! Geometry collections and rectangles are deliberately out of scope: the
//! array family covers the six classes below, and nothing here falls through
//! to an unconditional failure.

use vstd::prelude::*;

verus! {

/// A single position.
#[derive(Clone, Copy, Debug, PartialEq, Eq, Structural)]
pub struct PointGeom {
    pub x: u64,
    pub y: u64,
}

/// A sequence of positions forming a line; also used for one polygon ring.
#[derive(Clone, Debug, PartialEq, Eq)]
pub struct LineStringGeom {
    pub coords: Vec<(u64, u64)>,
}

/// A set of positions.
#[derive(Clone, Debug, PartialEq, Eq)]
pub struct MultiPointGeom {
    pub points: Vec<(u64, u64)>,
}

/// A sequence of rings; the first ring, when present, is the exterior and
/// the remaining rings are interior holes.
#[derive(Clone, Debug, PartialEq, Eq)]
pub struct PolygonGeom {
    pub rings: Vec<LineStringGeom>,
}

/// A set of line strings.
#[derive(Clone, Debug, PartialEq, Eq)]
pub struct MultiLineStringGeom {
    pub lines: Vec<LineStringGeom>,
}

/// A set of polygons.
#[derive(Clone, Debug, PartialEq, Eq)]
pub struct MultiPolygonGeom {
    pub polygons: Vec<PolygonGeom>,
}

/// The closed set of geometry classes, owned form.
#[derive(Clone, Debug, PartialEq, Eq)]
pub enum Geometry {
    Point(PointGeom),
    LineString(LineStringGeom),
    Polygon(PolygonGeom),
    MultiPoint(MultiPointGeom),
    MultiLineString(MultiLineStringGeom),
    MultiPolygon(MultiPolygonGeom),
}

/// The closed set of geometry classes, dispatched by reference: the enum a
/// consumer matches on when the class is not known until run time.
#[derive(Debug)]
pub enum GeometryType<'a> {
    Point(&'a PointGeom),
    LineString(&'a LineStringGeom),
    Polygon(&'a PolygonGeom),
    MultiPoint(&'a MultiPointGeom),
    MultiLineString(&'a MultiLineStringGeom),
    MultiPolygon(&'a MultiPolygonGeom),
}

impl PointGeom {
    /// The position as a coordinate pair.
    pub open spec fn coord(&self) -> (u64, u64) {
        (self.x, self.y)
    }
}

impl LineStringGeom {
    /// The positions in order.
    pub open spec fn verts(&self) -> Seq<(u64, u64)> {
        self.coords@
    }

    /// A line string with no positions is empty.
    pub open spec fn spec_is_empty(&self) -> bool {
        self.coords@.len() == 0
    }
}

impl MultiPointGeom {
    /// The positions in order.
    pub open spec fn verts(&self) -> Seq<(u64, u64)> {
        self.points@
    }

    /// A multi-point with no positions is empty.
    pub open spec fn spec_is_empty(&self) -> bool {
        self.points@.len() == 0
    }
}

impl PolygonGeom {
    /// The rings in order, exterior first, each as its positions.
    pub open spec fn ring_views(&self) -> Seq<Seq<(u64, u64)>> {
        self.rings@.map(|_i: int, r: LineStringGeom| r.coords@)
    }

    /// A polygon with no rings is empty.
    pub open spec fn spec_is_empty(&self) -> bool {
        self.rings@.len() == 0
    }
}

impl MultiLineStringGeom {
    /// The line strings in order, each as its positions.
    pub open spec fn line_views(&self) -> Seq<Seq<(u64, u64)>> {
        self.lines@.map(|_i: int, r: LineStringGeom| r.coords@)
    }

    /// A multi-line-string with no lines is empty.
    pub open spec fn spec_is_empty(&self) -> bool {
        self.lines@.len() == 0
    }
}

impl MultiPolygonGeom {
    /// The polygons in order, each as its ring views.
    pub open spec fn polygon_views(&self) -> Seq<Seq<Seq<(u64, u64)>>> {
        self.polygons@.map(|_i: int, p: PolygonGeom| p.ring_views())
    }

    /// A multi-polygon with no polygons is empty.
    pub open spec fn spec_is_empty(&self) -> bool {
        self.polygons@.len() == 0
    }
}

/// Whether a dispatch value carries the same class and payload as an owned
/// geometry.
pub open spec fn dispatches<'a>(g: &Geometry, t: GeometryType<'a>) -> bool {
    match (g, t) {
        (Geometry::Point(p), GeometryType::Point(q)) => q == p,
        (Geometry::LineString(l), GeometryType::LineString(q)) => q == l,
        (Geometry::Polygon(p), GeometryType::Polygon(q)) => q == p,
        (Geometry::MultiPoint(m), GeometryType::MultiPoint(q)) => q == m,
        (Geometry::MultiLineString(m), GeometryType::MultiLineString(q)) => q == m,
        (Geometry::MultiPolygon(m), GeometryType::MultiPolygon(q)) => q == m,
        _ => false,
    }
}

impl Geometry {
    /// Views this geometry as the class-dispatch enum, borrowing the payload.
    pub fn as_type<'a>(&'a self) -> (t: GeometryType<'a>)
        ensures
            dispatches(self, t),
    {
        match self {
            Geometry::Point(p) => GeometryType::Point(p),
            Geometry::LineString(l) => GeometryType::LineString(l),
            Geometry::Polygon(p) => GeometryType::Polygon(p),
            Geometry::MultiPoint(m) => GeometryType::MultiPoint(m),
            Geometry::MultiLineString(m) => GeometryType::MultiLineString(m),
            Geometry::MultiPolygon(m) => GeometryType::MultiPolygon(m),
        }
    }

    /// A geometry is empty when its class admits emptiness and it holds no
    /// parts; a bare point always has a position and is never empty.
    pub open spec fn spec_is_empty(&self) -> bool {
        match self {
            Geometry::Point(_) => false,
            Geometry::LineString(l) => l.spec_is_empty(),
            Geometry::Polygon(p) => p.spec_is_empty(),
            Geometry::MultiPoint(m) => m.spec_is_empty(),
            Geometry::MultiLineString(m) => m.spec_is_empty(),
            Geometry::MultiPolygon(m) => m.spec_is_empty(),
        }
    }

    /// Whether this geometry has zero coordinates.
    pub fn is_empty(&self) -> (r: bool)
        ensures
            r == self.spec_is_empty(),
    {
        match self {
            Geometry::Point(_) => false,
            Geometry::LineString(l) => l.coords.len() == 0,
            Geometry::Polygon(p) => p.rings.len() == 0,
            Geometry::MultiPoint(m) => m.points.len() == 0,
            Geometry::MultiLineString(m) => m.lines.len() == 0,
            Geometry::MultiPolygon(m) => m.polygons.len() == 0,
        }
    }
}

} // verus!
