//! Laws relating the encoder and the decoder.

use vstd::prelude::*;
use crate::bytes::{lemma_u64_le_read, u64_le};
use crate::geometry::{line_wf, multi_polygon_wf, polygon_wf, GeogPoint, LineStringV, MultiPolygonV, PolygonV};
use crate::wire::{
    coords, encode_line, encode_multi_polygon, encode_point, encode_polygon, header,
    lemma_parse_header, lemma_parse_line_body, lemma_parse_multi_polygon_body, lemma_parse_polygon,
    line_body, line_of, multi_polygon_body, multi_polygon_of, parse_polygon, point_of, polygon_of,
    KIND_LINE_STRING, KIND_MULTI_POLYGON, KIND_POINT, KIND_POLYGON, parse_coords, parse_coords_seq,
    parse_header, parse_line_body, parse_multi_polygon_body, parse_polygon_body, parse_polygons_seq,
    parse_rings_seq,
};

verus! {

/// Decoding the encoding of a point gives back the point, srid included.
pub proof fn law_point_round_trip(p: GeogPoint)
    ensures
        point_of(encode_point(p)) == Some(p),
{
    let h = header(KIND_POINT, p.srid);
    let b = encode_point(p);
    assert(b =~= Seq::<u8>::empty() + h + coords(p));
    lemma_parse_header(Seq::<u8>::empty(), KIND_POINT, p.srid, coords(p));
    assert(b =~= h + u64_le(p.x) + u64_le(p.y));
    lemma_u64_le_read(h, p.x, u64_le(p.y));
    assert(b =~= (h + u64_le(p.x)) + u64_le(p.y) + Seq::<u8>::empty());
    lemma_u64_le_read(h + u64_le(p.x), p.y, Seq::<u8>::empty());
}

/// Decoding the encoding of a well-formed line string gives back the line.
pub proof fn law_line_round_trip(l: LineStringV)
    requires
        line_wf(l),
    ensures
        line_of(encode_line(l)) == Some(l),
{
    let h = header(KIND_LINE_STRING, l.srid);
    let b = encode_line(l);
    assert(b =~= Seq::<u8>::empty() + h + line_body(l));
    lemma_parse_header(Seq::<u8>::empty(), KIND_LINE_STRING, l.srid, line_body(l));
    assert(b =~= h + line_body(l) + Seq::<u8>::empty());
    lemma_parse_line_body(h, l, Seq::<u8>::empty());
}

/// Decoding the encoding of a well-formed polygon gives back the polygon.
pub proof fn law_polygon_round_trip(p: PolygonV)
    requires
        polygon_wf(p),
    ensures
        polygon_of(encode_polygon(p)) == Some(p),
{
    let b = encode_polygon(p);
    assert(b =~= Seq::<u8>::empty() + b + Seq::<u8>::empty());
    lemma_parse_polygon(Seq::<u8>::empty(), p, Seq::<u8>::empty());
}

/// Decoding the encoding of a well-formed multi-polygon gives back the
/// multi-polygon, each member polygon with its own srid.
pub proof fn law_multi_polygon_round_trip(m: MultiPolygonV)
    requires
        multi_polygon_wf(m),
    ensures
        multi_polygon_of(encode_multi_polygon(m)) == Some(m),
{
    let h = header(KIND_MULTI_POLYGON, m.srid);
    let b = encode_multi_polygon(m);
    assert(b =~= Seq::<u8>::empty() + h + multi_polygon_body(m));
    lemma_parse_header(Seq::<u8>::empty(), KIND_MULTI_POLYGON, m.srid, multi_polygon_body(m));
    assert(b =~= h + multi_polygon_body(m) + Seq::<u8>::empty());
    lemma_parse_multi_polygon_body(h, m, Seq::<u8>::empty());
}

/// Empty input decodes to no value of any kind.
pub proof fn law_empty_input_rejected()
    ensures
        point_of(Seq::<u8>::empty()) is None,
        line_of(Seq::<u8>::empty()) is None,
        polygon_of(Seq::<u8>::empty()) is None,
        multi_polygon_of(Seq::<u8>::empty()) is None,
{
    reveal(parse_polygon);
}

/// `t` agrees with `b` on all of its bytes.
pub open spec fn is_prefix(t: Seq<u8>, b: Seq<u8>) -> bool {
    &&& t.len() <= b.len()
    &&& forall|i: int| 0 <= i < t.len() ==> t[i] == b[i]
}

proof fn lemma_header_prefix(t: Seq<u8>, b: Seq<u8>, pos: int, kind: u32)
    requires
        is_prefix(t, b),
        0 <= pos,
    ensures
        match parse_header(t, pos, kind) {
            Some((be, srid, e)) => pos <= e && parse_header(b, pos, kind) == Some((be, srid, e)),
            None => true,
        },
{
}

proof fn lemma_coords_seq_prefix(t: Seq<u8>, b: Seq<u8>, pos: int, be: bool, srid: Option<i32>, n: nat)
    requires
        is_prefix(t, b),
        0 <= pos,
    ensures
        match parse_coords_seq(t, pos, be, srid, n) {
            Some((v, e)) => pos <= e && parse_coords_seq(b, pos, be, srid, n) == Some((v, e)),
            None => true,
        },
    decreases n,
{
    if n > 0 {
        lemma_coords_seq_prefix(t, b, pos, be, srid, (n - 1) as nat);
        match parse_coords_seq(t, pos, be, srid, (n - 1) as nat) {
            Some((v, p)) => {
                assert(parse_coords(t, p, be, srid) is Some ==> parse_coords(b, p, be, srid) == parse_coords(t, p, be, srid));
            },
            None => {},
        }
    }
}

proof fn lemma_line_body_prefix(t: Seq<u8>, b: Seq<u8>, pos: int, be: bool, srid: Option<i32>)
    requires
        is_prefix(t, b),
        0 <= pos,
    ensures
        match parse_line_body(t, pos, be, srid) {
            Some((v, e)) => pos <= e && parse_line_body(b, pos, be, srid) == Some((v, e)),
            None => true,
        },
{
    if pos + 4 <= t.len() {
        assert(crate::bytes::u32_at(t, pos, be) == crate::bytes::u32_at(b, pos, be));
        lemma_coords_seq_prefix(t, b, pos + 4, be, srid, crate::bytes::u32_at(t, pos, be) as nat);
    }
}

proof fn lemma_rings_seq_prefix(t: Seq<u8>, b: Seq<u8>, pos: int, be: bool, srid: Option<i32>, n: nat)
    requires
        is_prefix(t, b),
        0 <= pos,
    ensures
        match parse_rings_seq(t, pos, be, srid, n) {
            Some((v, e)) => pos <= e && parse_rings_seq(b, pos, be, srid, n) == Some((v, e)),
            None => true,
        },
    decreases n,
{
    if n > 0 {
        lemma_rings_seq_prefix(t, b, pos, be, srid, (n - 1) as nat);
        match parse_rings_seq(t, pos, be, srid, (n - 1) as nat) {
            Some((v, p)) => lemma_line_body_prefix(t, b, p, be, srid),
            None => {},
        }
    }
}

proof fn lemma_polygon_prefix(t: Seq<u8>, b: Seq<u8>, pos: int)
    requires
        is_prefix(t, b),
        0 <= pos,
    ensures
        match parse_polygon(t, pos) {
            Some((v, e)) => pos <= e && parse_polygon(b, pos) == Some((v, e)),
            None => true,
        },
{
    reveal(parse_polygon);
    lemma_header_prefix(t, b, pos, KIND_POLYGON);
    match parse_header(t, pos, KIND_POLYGON) {
        Some((be, srid, p)) => {
            if p + 4 <= t.len() {
                assert(crate::bytes::u32_at(t, p, be) == crate::bytes::u32_at(b, p, be));
                lemma_rings_seq_prefix(t, b, p + 4, be, srid, crate::bytes::u32_at(t, p, be) as nat);
            }
            assert(parse_polygon_body(t, p, be, srid) is Some ==> parse_polygon_body(b, p, be, srid) == parse_polygon_body(t, p, be, srid));
        },
        None => {},
    }
}

proof fn lemma_polygons_seq_prefix(t: Seq<u8>, b: Seq<u8>, pos: int, n: nat)
    requires
        is_prefix(t, b),
        0 <= pos,
    ensures
        match parse_polygons_seq(t, pos, n) {
            Some((v, e)) => pos <= e && parse_polygons_seq(b, pos, n) == Some((v, e)),
            None => true,
        },
    decreases n,
{
    if n > 0 {
        lemma_polygons_seq_prefix(t, b, pos, (n - 1) as nat);
        match parse_polygons_seq(t, pos, (n - 1) as nat) {
            Some((v, p)) => lemma_polygon_prefix(t, b, p),
            None => {},
        }
    }
}

/// A strict prefix of a point's encoding decodes to no point.
pub proof fn law_truncated_point_rejected(p: GeogPoint, k: int)
    requires
        0 <= k < encode_point(p).len(),
    ensures
        point_of(encode_point(p).take(k)) is None,
{
    let b = encode_point(p);
    let t = b.take(k);
    law_point_round_trip(p);
    lemma_header_prefix(t, b, 0, KIND_POINT);
    match parse_header(t, 0, KIND_POINT) {
        Some((be, srid, q)) => {
            assert(parse_coords(t, q, be, srid) is Some ==> parse_coords(b, q, be, srid) == parse_coords(t, q, be, srid));
        },
        None => {},
    }
}

/// A strict prefix of a well-formed line string's encoding decodes to no line.
pub proof fn law_truncated_line_rejected(l: LineStringV, k: int)
    requires
        line_wf(l),
        0 <= k < encode_line(l).len(),
    ensures
        line_of(encode_line(l).take(k)) is None,
{
    let b = encode_line(l);
    let t = b.take(k);
    law_line_round_trip(l);
    lemma_header_prefix(t, b, 0, KIND_LINE_STRING);
    match parse_header(t, 0, KIND_LINE_STRING) {
        Some((be, srid, q)) => lemma_line_body_prefix(t, b, q, be, srid),
        None => {},
    }
}

/// A strict prefix of a well-formed polygon's encoding decodes to no polygon.
pub proof fn law_truncated_polygon_rejected(p: PolygonV, k: int)
    requires
        polygon_wf(p),
        0 <= k < encode_polygon(p).len(),
    ensures
        polygon_of(encode_polygon(p).take(k)) is None,
{
    let b = encode_polygon(p);
    let t = b.take(k);
    law_polygon_round_trip(p);
    lemma_polygon_prefix(t, b, 0);
}

/// A strict prefix of a well-formed multi-polygon's encoding decodes to no
/// multi-polygon.
pub proof fn law_truncated_multi_polygon_rejected(m: MultiPolygonV, k: int)
    requires
        multi_polygon_wf(m),
        0 <= k < encode_multi_polygon(m).len(),
    ensures
        multi_polygon_of(encode_multi_polygon(m).take(k)) is None,
{
    let b = encode_multi_polygon(m);
    let t = b.take(k);
    law_multi_polygon_round_trip(m);
    lemma_header_prefix(t, b, 0, KIND_MULTI_POLYGON);
    match parse_header(t, 0, KIND_MULTI_POLYGON) {
        Some((be, srid, q)) => {
            if q + 4 <= t.len() {
                assert(crate::bytes::u32_at(t, q, be) == crate::bytes::u32_at(b, q, be));
                lemma_polygons_seq_prefix(t, b, q + 4, crate::bytes::u32_at(t, q, be) as nat);
            }
            assert(parse_multi_polygon_body(t, q, be, srid) is Some
                ==> parse_multi_polygon_body(b, q, be, srid) == parse_multi_polygon_body(t, q, be, srid));
        },
        None => {},
    }
}

} // verus!
