//! The Extended Well-Known Binary layout, stated as spec functions: how a value
//! is written, and how bytes are read back.

use vstd::prelude::*;
use crate::bytes::{lemma_i32_bits, lemma_u32_le_read, lemma_u64_le_read, u32_at, u32_le, u64_at, u64_le};
use crate::geometry::{line_wf, multi_polygon_wf, polygon_wf};
use crate::geometry::{GeogPoint, LineStringV, MultiPolygonV, PolygonV};

verus! {

pub const KIND_POINT: u32 = 1;
pub const KIND_LINE_STRING: u32 = 2;
pub const KIND_POLYGON: u32 = 3;
pub const KIND_MULTI_POLYGON: u32 = 6;
/// Set in the kind word when an srid follows it.
pub const SRID_FLAG: u32 = 0x2000_0000;
/// The marker byte of little-endian data; zero marks big-endian data.
pub const LITTLE_ENDIAN: u8 = 1;

/// The kind word written for `kind` with an optional srid.
pub open spec fn tag_of(kind: u32, srid: Option<i32>) -> u32 {
    if srid is Some { kind | SRID_FLAG } else { kind }
}

/// Byte-order marker, kind word, and the srid when there is one.
pub open spec fn header(kind: u32, srid: Option<i32>) -> Seq<u8> {
    let h = seq![LITTLE_ENDIAN] + u32_le(tag_of(kind, srid));
    match srid {
        Some(s) => h + u32_le(s as u32),
        None => h,
    }
}

/// The sixteen bytes of a point's coordinates.
pub open spec fn coords(p: GeogPoint) -> Seq<u8> {
    u64_le(p.x) + u64_le(p.y)
}

/// The coordinates of each point, in order.
pub open spec fn coords_seq(s: Seq<GeogPoint>) -> Seq<u8>
    decreases s.len(),
{
    if s.len() == 0 { seq![] } else { coords_seq(s.drop_last()) + coords(s.last()) }
}

/// A line's payload: point count, then the points.
pub open spec fn line_body(l: LineStringV) -> Seq<u8> {
    u32_le(l.points.len() as u32) + coords_seq(l.points)
}

/// The payloads of the rings, in order.
pub open spec fn rings_seq(s: Seq<LineStringV>) -> Seq<u8>
    decreases s.len(),
{
    if s.len() == 0 { seq![] } else { rings_seq(s.drop_last()) + line_body(s.last()) }
}

/// A polygon's payload: ring count, then the rings.
pub open spec fn polygon_body(p: PolygonV) -> Seq<u8> {
    u32_le(p.rings.len() as u32) + rings_seq(p.rings)
}

/// Each polygon with its own header, in order.
pub open spec fn polygons_seq(s: Seq<PolygonV>) -> Seq<u8>
    decreases s.len(),
{
    if s.len() == 0 { seq![] } else { polygons_seq(s.drop_last()) + encode_polygon(s.last()) }
}

/// A multi-polygon's payload: polygon count, then the polygons.
pub open spec fn multi_polygon_body(m: MultiPolygonV) -> Seq<u8> {
    u32_le(m.polygons.len() as u32) + polygons_seq(m.polygons)
}

pub open spec fn encode_point(p: GeogPoint) -> Seq<u8> {
    header(KIND_POINT, p.srid) + coords(p)
}

pub open spec fn encode_line(l: LineStringV) -> Seq<u8> {
    header(KIND_LINE_STRING, l.srid) + line_body(l)
}

#[verifier::opaque]
pub open spec fn encode_polygon(p: PolygonV) -> Seq<u8> {
    header(KIND_POLYGON, p.srid) + polygon_body(p)
}

pub open spec fn encode_multi_polygon(m: MultiPolygonV) -> Seq<u8> {
    header(KIND_MULTI_POLYGON, m.srid) + multi_polygon_body(m)
}

/// Reads a header of the given kind at `pos`: the byte order, the srid, and
/// where the payload starts. Absent when the bytes run out, the marker is
/// neither byte order, or the kind word is not `kind` (with or without the
/// srid flag).
pub open spec fn parse_header(b: Seq<u8>, pos: int, kind: u32) -> Option<(bool, Option<i32>, int)> {
    if pos + 5 > b.len() || (b[pos] != 0 && b[pos] != LITTLE_ENDIAN) {
        None
    } else {
        let be = b[pos] == 0;
        let tag = u32_at(b, pos + 1, be);
        if tag == kind {
            Some((be, None, pos + 5))
        } else if tag == kind | SRID_FLAG && pos + 9 <= b.len() {
            Some((be, Some(u32_at(b, pos + 5, be) as i32), pos + 9))
        } else {
            None
        }
    }
}

/// Reads one point's coordinates at `pos`.
pub open spec fn parse_coords(b: Seq<u8>, pos: int, be: bool, srid: Option<i32>) -> Option<(GeogPoint, int)> {
    if pos + 16 <= b.len() {
        Some((GeogPoint { x: u64_at(b, pos, be), y: u64_at(b, pos + 8, be), srid }, pos + 16))
    } else {
        None
    }
}

/// Reads `n` points' coordinates from `pos` on.
pub open spec fn parse_coords_seq(b: Seq<u8>, pos: int, be: bool, srid: Option<i32>, n: nat) -> Option<(Seq<GeogPoint>, int)>
    decreases n,
{
    if n == 0 {
        Some((seq![], pos))
    } else {
        match parse_coords_seq(b, pos, be, srid, (n - 1) as nat) {
            Some((s, p)) => match parse_coords(b, p, be, srid) {
                Some((q, e)) => Some((s.push(q), e)),
                None => None,
            },
            None => None,
        }
    }
}

/// Reads a line's payload at `pos`.
pub open spec fn parse_line_body(b: Seq<u8>, pos: int, be: bool, srid: Option<i32>) -> Option<(LineStringV, int)> {
    if pos + 4 <= b.len() {
        match parse_coords_seq(b, pos + 4, be, srid, u32_at(b, pos, be) as nat) {
            Some((s, e)) => Some((LineStringV { points: s, srid }, e)),
            None => None,
        }
    } else {
        None
    }
}

/// Reads `n` ring payloads from `pos` on.
pub open spec fn parse_rings_seq(b: Seq<u8>, pos: int, be: bool, srid: Option<i32>, n: nat) -> Option<(Seq<LineStringV>, int)>
    decreases n,
{
    if n == 0 {
        Some((seq![], pos))
    } else {
        match parse_rings_seq(b, pos, be, srid, (n - 1) as nat) {
            Some((s, p)) => match parse_line_body(b, p, be, srid) {
                Some((r, e)) => Some((s.push(r), e)),
                None => None,
            },
            None => None,
        }
    }
}

/// Reads a polygon's payload at `pos`.
pub open spec fn parse_polygon_body(b: Seq<u8>, pos: int, be: bool, srid: Option<i32>) -> Option<(PolygonV, int)> {
    if pos + 4 <= b.len() {
        match parse_rings_seq(b, pos + 4, be, srid, u32_at(b, pos, be) as nat) {
            Some((s, e)) => Some((PolygonV { rings: s, srid }, e)),
            None => None,
        }
    } else {
        None
    }
}

/// Reads a whole polygon, header included, at `pos`.
#[verifier::opaque]
pub open spec fn parse_polygon(b: Seq<u8>, pos: int) -> Option<(PolygonV, int)> {
    match parse_header(b, pos, KIND_POLYGON) {
        Some((be, srid, p)) => parse_polygon_body(b, p, be, srid),
        None => None,
    }
}

/// Reads `n` whole polygons from `pos` on.
pub open spec fn parse_polygons_seq(b: Seq<u8>, pos: int, n: nat) -> Option<(Seq<PolygonV>, int)>
    decreases n,
{
    if n == 0 {
        Some((seq![], pos))
    } else {
        match parse_polygons_seq(b, pos, (n - 1) as nat) {
            Some((s, p)) => match parse_polygon(b, p) {
                Some((q, e)) => Some((s.push(q), e)),
                None => None,
            },
            None => None,
        }
    }
}

/// Reads a multi-polygon's payload at `pos`.
pub open spec fn parse_multi_polygon_body(b: Seq<u8>, pos: int, be: bool, srid: Option<i32>) -> Option<(MultiPolygonV, int)> {
    if pos + 4 <= b.len() {
        match parse_polygons_seq(b, pos + 4, u32_at(b, pos, be) as nat) {
            Some((s, e)) => Some((MultiPolygonV { polygons: s, srid }, e)),
            None => None,
        }
    } else {
        None
    }
}

/// The value that fills `b` exactly, if the parse reached its end.
pub open spec fn whole<T>(r: Option<(T, int)>, b: Seq<u8>) -> Option<T> {
    match r {
        Some((v, e)) => if e == b.len() { Some(v) } else { None },
        None => None,
    }
}

/// The point that `b` encodes, if any.
pub open spec fn point_of(b: Seq<u8>) -> Option<GeogPoint> {
    match parse_header(b, 0, KIND_POINT) {
        Some((be, srid, p)) => whole(parse_coords(b, p, be, srid), b),
        None => None,
    }
}

/// The line string that `b` encodes, if any.
pub open spec fn line_of(b: Seq<u8>) -> Option<LineStringV> {
    match parse_header(b, 0, KIND_LINE_STRING) {
        Some((be, srid, p)) => whole(parse_line_body(b, p, be, srid), b),
        None => None,
    }
}

/// The polygon that `b` encodes, if any.
pub open spec fn polygon_of(b: Seq<u8>) -> Option<PolygonV> {
    whole(parse_polygon(b, 0), b)
}

/// The multi-polygon that `b` encodes, if any.
pub open spec fn multi_polygon_of(b: Seq<u8>) -> Option<MultiPolygonV> {
    match parse_header(b, 0, KIND_MULTI_POLYGON) {
        Some((be, srid, p)) => whole(parse_multi_polygon_body(b, p, be, srid), b),
        None => None,
    }
}

/// A header written for `kind` reads back as little-endian, with its srid,
/// wherever it stands.
pub proof fn lemma_parse_header(pre: Seq<u8>, kind: u32, srid: Option<i32>, rest: Seq<u8>)
    requires
        kind < SRID_FLAG,
    ensures
        parse_header(pre + header(kind, srid) + rest, pre.len() as int, kind)
            == Some((false, srid, pre.len() + header(kind, srid).len() as int)),
{
    let tag = tag_of(kind, srid);
    let n = pre.len() as int;
    let b = pre + header(kind, srid) + rest;
    assert(kind | 0x2000_0000u32 != kind) by (bit_vector)
        requires
            kind < 0x2000_0000u32,
    ;
    let lead = pre + seq![LITTLE_ENDIAN];
    match srid {
        Some(s) => {
            assert(b =~= lead + u32_le(tag) + (u32_le(s as u32) + rest));
            lemma_u32_le_read(lead, tag, u32_le(s as u32) + rest);
            assert(b =~= (lead + u32_le(tag)) + u32_le(s as u32) + rest);
            lemma_u32_le_read(lead + u32_le(tag), s as u32, rest);
            lemma_i32_bits(s);
        },
        None => {
            assert(b =~= lead + u32_le(tag) + rest);
            lemma_u32_le_read(lead, tag, rest);
        },
    }
    assert(b[n] == LITTLE_ENDIAN);
}

/// Points written in sequence read back as the same points.
pub proof fn lemma_parse_coords_seq(pre: Seq<u8>, s: Seq<GeogPoint>, suf: Seq<u8>, srid: Option<i32>)
    requires
        forall|i: int| 0 <= i < s.len() ==> (#[trigger] s[i]).srid == srid,
    ensures
        parse_coords_seq(pre + coords_seq(s) + suf, pre.len() as int, false, srid, s.len())
            == Some((s, pre.len() + coords_seq(s).len() as int)),
    decreases s.len(),
{
    if s.len() > 0 {
        let s0 = s.drop_last();
        let q = s.last();
        let c0 = coords_seq(s0);
        let b = pre + coords_seq(s) + suf;
        assert(b =~= pre + c0 + (coords(q) + suf));
        assert forall|i: int| 0 <= i < s0.len() implies (#[trigger] s0[i]).srid == srid by {
            assert(s0[i] == s[i]);
        }
        lemma_parse_coords_seq(pre, s0, coords(q) + suf, srid);
        assert(b =~= (pre + c0) + u64_le(q.x) + (u64_le(q.y) + suf));
        lemma_u64_le_read(pre + c0, q.x, u64_le(q.y) + suf);
        assert(b =~= (pre + c0 + u64_le(q.x)) + u64_le(q.y) + suf);
        lemma_u64_le_read(pre + c0 + u64_le(q.x), q.y, suf);
        assert(s[s.len() - 1].srid == srid);
        assert(s0.push(q) =~= s);
    }
}

/// A line's payload reads back as the same line.
pub proof fn lemma_parse_line_body(pre: Seq<u8>, l: LineStringV, suf: Seq<u8>)
    requires
        line_wf(l),
    ensures
        parse_line_body(pre + line_body(l) + suf, pre.len() as int, false, l.srid)
            == Some((l, pre.len() + line_body(l).len() as int)),
{
    let n = l.points.len() as u32;
    let b = pre + line_body(l) + suf;
    assert(b =~= pre + u32_le(n) + (coords_seq(l.points) + suf));
    lemma_u32_le_read(pre, n, coords_seq(l.points) + suf);
    assert(b =~= (pre + u32_le(n)) + coords_seq(l.points) + suf);
    lemma_parse_coords_seq(pre + u32_le(n), l.points, suf, l.srid);
}

/// Ring payloads written in sequence read back as the same rings.
pub proof fn lemma_parse_rings_seq(pre: Seq<u8>, s: Seq<LineStringV>, suf: Seq<u8>, srid: Option<i32>)
    requires
        forall|i: int| 0 <= i < s.len() ==> line_wf(#[trigger] s[i]) && s[i].srid == srid,
    ensures
        parse_rings_seq(pre + rings_seq(s) + suf, pre.len() as int, false, srid, s.len())
            == Some((s, pre.len() + rings_seq(s).len() as int)),
    decreases s.len(),
{
    if s.len() > 0 {
        let s0 = s.drop_last();
        let q = s.last();
        let c0 = rings_seq(s0);
        let b = pre + rings_seq(s) + suf;
        assert(b =~= pre + c0 + (line_body(q) + suf));
        assert forall|i: int| 0 <= i < s0.len() implies line_wf(#[trigger] s0[i]) && s0[i].srid == srid by {
            assert(s0[i] == s[i]);
        }
        lemma_parse_rings_seq(pre, s0, line_body(q) + suf, srid);
        assert(b =~= (pre + c0) + line_body(q) + suf);
        assert(line_wf(s[s.len() - 1]) && s[s.len() - 1].srid == srid);
        lemma_parse_line_body(pre + c0, q, suf);
        assert(s0.push(q) =~= s);
    }
}

/// A polygon's payload reads back as the same polygon.
pub proof fn lemma_parse_polygon_body(pre: Seq<u8>, p: PolygonV, suf: Seq<u8>)
    requires
        polygon_wf(p),
    ensures
        parse_polygon_body(pre + polygon_body(p) + suf, pre.len() as int, false, p.srid)
            == Some((p, pre.len() + polygon_body(p).len() as int)),
{
    let n = p.rings.len() as u32;
    let b = pre + polygon_body(p) + suf;
    assert(b =~= pre + u32_le(n) + (rings_seq(p.rings) + suf));
    lemma_u32_le_read(pre, n, rings_seq(p.rings) + suf);
    assert(b =~= (pre + u32_le(n)) + rings_seq(p.rings) + suf);
    lemma_parse_rings_seq(pre + u32_le(n), p.rings, suf, p.srid);
}

/// A whole polygon reads back as the same polygon.
pub proof fn lemma_parse_polygon(pre: Seq<u8>, p: PolygonV, suf: Seq<u8>)
    requires
        polygon_wf(p),
    ensures
        parse_polygon(pre + encode_polygon(p) + suf, pre.len() as int)
            == Some((p, pre.len() + encode_polygon(p).len() as int)),
{
    reveal(encode_polygon);
    reveal(parse_polygon);
    let h = header(KIND_POLYGON, p.srid);
    let b = pre + encode_polygon(p) + suf;
    assert(b =~= pre + h + (polygon_body(p) + suf));
    lemma_parse_header(pre, KIND_POLYGON, p.srid, polygon_body(p) + suf);
    assert(b =~= (pre + h) + polygon_body(p) + suf);
    lemma_parse_polygon_body(pre + h, p, suf);
}

/// Whole polygons written in sequence read back as the same polygons.
pub proof fn lemma_parse_polygons_seq(pre: Seq<u8>, s: Seq<PolygonV>, suf: Seq<u8>)
    requires
        forall|i: int| 0 <= i < s.len() ==> polygon_wf(#[trigger] s[i]),
    ensures
        parse_polygons_seq(pre + polygons_seq(s) + suf, pre.len() as int, s.len())
            == Some((s, pre.len() + polygons_seq(s).len() as int)),
    decreases s.len(),
{
    if s.len() > 0 {
        let s0 = s.drop_last();
        let q = s.last();
        let c0 = polygons_seq(s0);
        let b = pre + polygons_seq(s) + suf;
        assert(b =~= pre + c0 + (encode_polygon(q) + suf));
        assert forall|i: int| 0 <= i < s0.len() implies polygon_wf(#[trigger] s0[i]) by {
            assert(s0[i] == s[i]);
        }
        lemma_parse_polygons_seq(pre, s0, encode_polygon(q) + suf);
        assert(b =~= (pre + c0) + encode_polygon(q) + suf);
        assert(polygon_wf(s[s.len() - 1]));
        lemma_parse_polygon(pre + c0, q, suf);
        let p = pre.len() + c0.len() as int;
        assert(parse_polygons_seq(b, pre.len() as int, s0.len()) == Some((s0, p)));
        assert(parse_polygon(b, p) == Some((q, p + encode_polygon(q).len() as int)));
        assert(s0.push(q) =~= s);
        assert(polygons_seq(s) == c0 + encode_polygon(q));
        assert(parse_polygons_seq(b, pre.len() as int, s.len()) == Some((s0.push(q), p + encode_polygon(q).len() as int)));
    }
}

/// A multi-polygon's payload reads back as the same multi-polygon.
pub proof fn lemma_parse_multi_polygon_body(pre: Seq<u8>, m: MultiPolygonV, suf: Seq<u8>)
    requires
        multi_polygon_wf(m),
    ensures
        parse_multi_polygon_body(pre + multi_polygon_body(m) + suf, pre.len() as int, false, m.srid)
            == Some((m, pre.len() + multi_polygon_body(m).len() as int)),
{
    let n = m.polygons.len() as u32;
    let b = pre + multi_polygon_body(m) + suf;
    assert(b =~= pre + u32_le(n) + (polygons_seq(m.polygons) + suf));
    lemma_u32_le_read(pre, n, polygons_seq(m.polygons) + suf);
    assert(b =~= (pre + u32_le(n)) + polygons_seq(m.polygons) + suf);
    lemma_parse_polygons_seq(pre + u32_le(n), m.polygons, suf);
}

} // verus!
