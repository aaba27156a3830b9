//! The geometry values and their mathematical views.

use vstd::prelude::*;

verus! {

/// A point on the geodetic surface. The coordinates are kept as the bit
/// patterns of IEEE-754 doubles, which is exactly what the wire format stores.
#[derive(Debug, Clone, Copy, PartialEq, Eq, Structural)]
pub struct GeogPoint {
    /// Longitude, as the bits of a double.
    pub x: u64,
    /// Latitude, as the bits of a double.
    pub y: u64,
    pub srid: Option<i32>,
}

/// An ordered sequence of points.
#[derive(Debug, Clone, PartialEq)]
pub struct LineString {
    pub points: Vec<GeogPoint>,
    pub srid: Option<i32>,
}

/// A polygon: the first ring is the exterior boundary, the others are holes.
#[derive(Debug, Clone, PartialEq)]
pub struct Polygon {
    pub rings: Vec<LineString>,
    pub srid: Option<i32>,
}

/// A collection of polygons.
#[derive(Debug, Clone, PartialEq)]
pub struct MultiPolygon {
    pub polygons: Vec<Polygon>,
    pub srid: Option<i32>,
}

/// What a line string holds.
pub struct LineStringV {
    pub points: Seq<GeogPoint>,
    pub srid: Option<i32>,
}

/// What a polygon holds.
pub struct PolygonV {
    pub rings: Seq<LineStringV>,
    pub srid: Option<i32>,
}

/// What a multi-polygon holds.
pub struct MultiPolygonV {
    pub polygons: Seq<PolygonV>,
    pub srid: Option<i32>,
}

impl View for LineString {
    type V = LineStringV;

    open spec fn view(&self) -> LineStringV {
        LineStringV { points: self.points@, srid: self.srid }
    }
}

impl View for Polygon {
    type V = PolygonV;

    open spec fn view(&self) -> PolygonV {
        PolygonV { rings: self.rings@.map_values(|r: LineString| r@), srid: self.srid }
    }
}

impl View for MultiPolygon {
    type V = MultiPolygonV;

    open spec fn view(&self) -> MultiPolygonV {
        MultiPolygonV { polygons: self.polygons@.map_values(|p: Polygon| p@), srid: self.srid }
    }
}

/// The point count fits in the format's 32-bit count.
pub open spec fn line_fits(l: LineStringV) -> bool {
    l.points.len() <= u32::MAX
}

/// The ring count and each ring's point count fit in 32 bits.
pub open spec fn polygon_fits(p: PolygonV) -> bool {
    &&& p.rings.len() <= u32::MAX
    &&& forall|i: int| 0 <= i < p.rings.len() ==> line_fits(#[trigger] p.rings[i])
}

/// Every count in the multi-polygon fits in 32 bits.
pub open spec fn multi_polygon_fits(m: MultiPolygonV) -> bool {
    &&& m.polygons.len() <= u32::MAX
    &&& forall|i: int| 0 <= i < m.polygons.len() ==> polygon_fits(#[trigger] m.polygons[i])
}

/// The line fits the format, and every point shares the line's srid.
pub open spec fn line_wf(l: LineStringV) -> bool {
    &&& line_fits(l)
    &&& forall|i: int| 0 <= i < l.points.len() ==> (#[trigger] l.points[i]).srid == l.srid
}

/// Every ring is a well-formed line sharing the polygon's srid.
pub open spec fn polygon_wf(p: PolygonV) -> bool {
    &&& p.rings.len() <= u32::MAX
    &&& forall|i: int| 0 <= i < p.rings.len() ==> line_wf(#[trigger] p.rings[i]) && p.rings[i].srid == p.srid
}

/// Every polygon is well-formed; each one carries its own srid on the wire.
pub open spec fn multi_polygon_wf(m: MultiPolygonV) -> bool {
    &&& m.polygons.len() <= u32::MAX
    &&& forall|i: int| 0 <= i < m.polygons.len() ==> polygon_wf(#[trigger] m.polygons[i])
}

impl GeogPoint {
    /// A point from the bit patterns of its two coordinates.
    pub fn new(x: u64, y: u64, srid: Option<i32>) -> (r: GeogPoint)
        ensures
            r == (GeogPoint { x, y, srid }),
    {
        GeogPoint { x, y, srid }
    }
}

impl LineString {
    pub fn new(points: Vec<GeogPoint>, srid: Option<i32>) -> (r: LineString)
        ensures
            r@ == (LineStringV { points: points@, srid }),
    {
        LineString { points, srid }
    }
}

impl Polygon {
    pub fn new(rings: Vec<LineString>, srid: Option<i32>) -> (r: Polygon)
        ensures
            r.rings@ == rings@,
            r.srid == srid,
    {
        Polygon { rings, srid }
    }
}

impl MultiPolygon {
    pub fn new(polygons: Vec<Polygon>, srid: Option<i32>) -> (r: MultiPolygon)
        ensures
            r.polygons@ == polygons@,
            r.srid == srid,
    {
        MultiPolygon { polygons, srid }
    }
}

} // verus!
