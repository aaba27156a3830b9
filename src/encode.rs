//! Writing values in Extended Well-Known Binary, little-endian.

use vstd::prelude::*;
use crate::bytes::{push_u32, push_u64};
use crate::geometry::{
    line_fits, multi_polygon_fits, polygon_fits, GeogPoint, LineString, MultiPolygon, Polygon,
};
use crate::wire::{
    coords, coords_seq, encode_line, encode_multi_polygon, encode_point, encode_polygon, header,
    line_body, polygon_body, polygons_seq, rings_seq, KIND_LINE_STRING, KIND_MULTI_POLYGON, KIND_POINT,
    KIND_POLYGON, LITTLE_ENDIAN, SRID_FLAG,
};

verus! {

/// Whether a written column value is SQL NULL.
#[derive(Debug, Clone, Copy, PartialEq, Eq, Structural)]
pub enum IsNull {
    Yes,
    No,
}

fn push_header(out: &mut Vec<u8>, kind: u32, srid: Option<i32>)
    ensures
        final(out)@ == old(out)@ + header(kind, srid),
{
    let ghost start = out@;
    out.push(LITTLE_ENDIAN);
    match srid {
        Some(s) => {
            push_u32(out, kind | SRID_FLAG);
            push_u32(out, s as u32);
        },
        None => {
            push_u32(out, kind);
        },
    }
    assert(out@ =~= start + header(kind, srid));
}

fn push_coords(out: &mut Vec<u8>, p: &GeogPoint)
    ensures
        final(out)@ == old(out)@ + coords(*p),
{
    let ghost start = out@;
    push_u64(out, p.x);
    push_u64(out, p.y);
    assert(out@ =~= start + coords(*p));
}

fn push_line_body(out: &mut Vec<u8>, l: &LineString)
    requires
        line_fits(l@),
    ensures
        final(out)@ == old(out)@ + line_body(l@),
{
    let ghost start = out@;
    push_u32(out, l.points.len() as u32);
    let ghost mid = out@;
    let ghost pts = l.points@;
    let mut i: usize = 0;
    while i < l.points.len()
        invariant
            i <= pts.len(),
            pts == l.points@,
            out@ == mid + coords_seq(pts.take(i as int)),
        decreases pts.len() - i,
    {
        push_coords(out, &l.points[i]);
        assert(pts.take(i + 1).drop_last() =~= pts.take(i as int));
        i += 1;
    }
    assert(pts.take(i as int) =~= pts);
    assert(out@ =~= start + line_body(l@));
}

fn push_polygon_body(out: &mut Vec<u8>, p: &Polygon)
    requires
        polygon_fits(p@),
    ensures
        final(out)@ == old(out)@ + polygon_body(p@),
{
    let ghost start = out@;
    push_u32(out, p.rings.len() as u32);
    let ghost mid = out@;
    let ghost rs = p@.rings;
    let mut i: usize = 0;
    while i < p.rings.len()
        invariant
            i <= rs.len(),
            rs == p@.rings,
            rs.len() == p.rings@.len(),
            polygon_fits(p@),
            out@ == mid + rings_seq(rs.take(i as int)),
        decreases rs.len() - i,
    {
        assert(rs[i as int] == p.rings@[i as int]@);
        assert(line_fits(rs[i as int]));
        push_line_body(out, &p.rings[i]);
        assert(rs.take(i + 1).drop_last() =~= rs.take(i as int));
        i += 1;
    }
    assert(rs.take(i as int) =~= rs);
    assert(out@ =~= start + polygon_body(p@));
}

fn push_polygon(out: &mut Vec<u8>, p: &Polygon)
    requires
        polygon_fits(p@),
    ensures
        final(out)@ == old(out)@ + encode_polygon(p@),
{
    let ghost start = out@;
    push_header(out, KIND_POLYGON, p.srid);
    push_polygon_body(out, p);
    proof {
        reveal(encode_polygon);
    }
    assert(out@ =~= start + encode_polygon(p@));
}

impl GeogPoint {
    /// The point's encoding: header, then the two coordinates.
    pub fn encode(&self) -> (r: Vec<u8>)
        ensures
            r@ == encode_point(*self),
    {
        let mut out: Vec<u8> = Vec::new();
        push_header(&mut out, KIND_POINT, self.srid);
        push_coords(&mut out, self);
        assert(out@ =~= encode_point(*self));
        out
    }

    /// Appends the point's encoding to a column buffer; a point is never NULL.
    pub fn to_sql(&self, out: &mut Vec<u8>) -> (r: IsNull)
        ensures
            final(out)@ == old(out)@ + encode_point(*self),
            r == IsNull::No,
    {
        let ghost start = out@;
        push_header(out, KIND_POINT, self.srid);
        push_coords(out, self);
        assert(out@ =~= start + encode_point(*self));
        IsNull::No
    }
}

impl LineString {
    /// The line's encoding: header, point count, then the points.
    pub fn encode(&self) -> (r: Vec<u8>)
        requires
            line_fits(self@),
        ensures
            r@ == encode_line(self@),
    {
        let mut out: Vec<u8> = Vec::new();
        push_header(&mut out, KIND_LINE_STRING, self.srid);
        push_line_body(&mut out, self);
        assert(out@ =~= encode_line(self@));
        out
    }

    /// Appends the line's encoding to a column buffer; a line is never NULL.
    pub fn to_sql(&self, out: &mut Vec<u8>) -> (r: IsNull)
        requires
            line_fits(self@),
        ensures
            final(out)@ == old(out)@ + encode_line(self@),
            r == IsNull::No,
    {
        let bytes = self.encode();
        out.extend_from_slice(bytes.as_slice());
        IsNull::No
    }
}

impl Polygon {
    /// The polygon's encoding: header, ring count, then the rings.
    pub fn encode(&self) -> (r: Vec<u8>)
        requires
            polygon_fits(self@),
        ensures
            r@ == encode_polygon(self@),
    {
        let mut out: Vec<u8> = Vec::new();
        push_polygon(&mut out, self);
        assert(out@ =~= encode_polygon(self@));
        out
    }

    /// Appends the polygon's encoding to a column buffer; a polygon is never NULL.
    pub fn to_sql(&self, out: &mut Vec<u8>) -> (r: IsNull)
        requires
            polygon_fits(self@),
        ensures
            final(out)@ == old(out)@ + encode_polygon(self@),
            r == IsNull::No,
    {
        push_polygon(out, self);
        IsNull::No
    }
}

impl MultiPolygon {
    /// The multi-polygon's encoding: header, polygon count, then each polygon
    /// with a header of its own.
    pub fn encode(&self) -> (r: Vec<u8>)
        requires
            multi_polygon_fits(self@),
        ensures
            r@ == encode_multi_polygon(self@),
    {
        let mut out: Vec<u8> = Vec::new();
        push_header(&mut out, KIND_MULTI_POLYGON, self.srid);
        let ghost mid = out@;
        push_u32(&mut out, self.polygons.len() as u32);
        let ghost body = out@;
        let ghost ps = self@.polygons;
        let mut i: usize = 0;
        while i < self.polygons.len()
            invariant
                i <= ps.len(),
                ps == self@.polygons,
                ps.len() == self.polygons@.len(),
                multi_polygon_fits(self@),
                out@ == body + polygons_seq(ps.take(i as int)),
            decreases ps.len() - i,
        {
            assert(ps[i as int] == self.polygons@[i as int]@);
            assert(polygon_fits(ps[i as int]));
            push_polygon(&mut out, &self.polygons[i]);
            assert(ps.take(i + 1).drop_last() =~= ps.take(i as int));
            i += 1;
        }
        assert(ps.take(i as int) =~= ps);
        assert(out@ =~= encode_multi_polygon(self@));
        out
    }

    /// Appends the multi-polygon's encoding to a column buffer; it is never NULL.
    pub fn to_sql(&self, out: &mut Vec<u8>) -> (r: IsNull)
        requires
            multi_polygon_fits(self@),
        ensures
            final(out)@ == old(out)@ + encode_multi_polygon(self@),
            r == IsNull::No,
    {
        let bytes = self.encode();
        out.extend_from_slice(bytes.as_slice());
        IsNull::No
    }
}

} // verus!
