use diesel_geography::decode::GeogError;
use diesel_geography::encode::IsNull;
use diesel_geography::geometry::{GeogPoint, LineString, MultiPolygon, Polygon};

fn pt(x: f64, y: f64, srid: Option<i32>) -> GeogPoint {
    GeogPoint::new(x.to_bits(), y.to_bits(), srid)
}

fn square(srid: Option<i32>) -> LineString {
    LineString::new(
        vec![pt(0.0, 0.0, srid), pt(1.0, 0.0, srid), pt(1.0, 1.0, srid), pt(0.0, 0.0, srid)],
        srid,
    )
}

#[test]
fn point_layout_with_srid() {
    let p = pt(-122.4194, 37.7749, Some(4326));
    let b = p.encode();
    assert_eq!(b.len(), 25);
    assert_eq!(b[0], 1);
    assert_eq!(u32::from_le_bytes([b[1], b[2], b[3], b[4]]), 0x2000_0001);
    assert_eq!(i32::from_le_bytes([b[5], b[6], b[7], b[8]]), 4326);
    let x = f64::from_le_bytes([b[9], b[10], b[11], b[12], b[13], b[14], b[15], b[16]]);
    let y = f64::from_le_bytes([b[17], b[18], b[19], b[20], b[21], b[22], b[23], b[24]]);
    assert_eq!(x, -122.4194);
    assert_eq!(y, 37.7749);
    assert_eq!(GeogPoint::decode(&b), Ok(p));
}

#[test]
fn point_coordinates_are_exact() {
    let p = pt(179.999999, -89.999999, None);
    let q = GeogPoint::decode(&p.encode()).unwrap();
    assert_eq!(f64::from_bits(q.x), 179.999999);
    assert_eq!(f64::from_bits(q.y), -89.999999);
    assert_eq!(q.srid, None);
}

#[test]
fn point_without_srid_layout() {
    let b = pt(1.0, 2.0, None).encode();
    assert_eq!(b.len(), 21);
    assert_eq!(&b[0..5], &[1, 1, 0, 0, 0]);
}

#[test]
fn negative_srid_survives() {
    let p = pt(3.5, -4.25, Some(-7));
    assert_eq!(GeogPoint::decode(&p.encode()), Ok(p));
}

#[test]
fn big_endian_point_decodes() {
    let mut b = vec![0u8, 0x20, 0, 0, 1];
    b.extend_from_slice(&4326i32.to_be_bytes());
    b.extend_from_slice(&(-122.4194f64).to_be_bytes());
    b.extend_from_slice(&37.7749f64.to_be_bytes());
    assert_eq!(GeogPoint::decode(&b), Ok(pt(-122.4194, 37.7749, Some(4326))));
}

#[test]
fn line_string_round_trip() {
    let l = square(Some(4326));
    let b = l.encode();
    assert_eq!(b.len(), 9 + 4 + 4 * 16);
    assert_eq!(u32::from_le_bytes([b[1], b[2], b[3], b[4]]), 0x2000_0002);
    assert_eq!(LineString::decode(&b), Ok(l));
}

#[test]
fn polygon_with_one_ring_round_trip() {
    let p = Polygon::new(vec![square(None)], None);
    let b = p.encode();
    assert_eq!(u32::from_le_bytes([b[5], b[6], b[7], b[8]]), 1);
    let q = Polygon::decode(&b).unwrap();
    assert_eq!(q.rings.len(), 1);
    assert_eq!(q.rings[0].points.len(), 4);
    assert_eq!(q, p);
}

#[test]
fn polygon_with_hole_and_srid_round_trip() {
    let p = Polygon::new(vec![square(Some(4326)), square(Some(4326))], Some(4326));
    assert_eq!(Polygon::decode(&p.encode()), Ok(p));
}

#[test]
fn empty_multi_polygon_round_trip() {
    let m = MultiPolygon::new(vec![], None);
    let b = m.encode();
    assert_eq!(b, vec![1, 6, 0, 0, 0, 0, 0, 0, 0]);
    let d = MultiPolygon::decode(&b).unwrap();
    assert!(d.polygons.is_empty());
    assert_eq!(d.srid, None);
}

#[test]
fn multi_polygon_members_keep_their_srid() {
    let m = MultiPolygon::new(
        vec![Polygon::new(vec![square(Some(4326))], Some(4326)), Polygon::new(vec![square(None)], None)],
        Some(4326),
    );
    assert_eq!(MultiPolygon::decode(&m.encode()), Ok(m));
}

#[test]
fn empty_input_is_a_decode_error() {
    assert_eq!(GeogPoint::decode(&[]), Err(GeogError::Decode));
    assert_eq!(LineString::decode(&[]), Err(GeogError::Decode));
    assert_eq!(Polygon::decode(&[]), Err(GeogError::Decode));
    assert_eq!(MultiPolygon::decode(&[]), Err(GeogError::Decode));
}

#[test]
fn absent_column_is_a_null_value_error() {
    assert_eq!(GeogPoint::from_sql(None), Err(GeogError::NullValue));
    assert_eq!(LineString::from_sql(None), Err(GeogError::NullValue));
    assert_eq!(Polygon::from_sql(None), Err(GeogError::NullValue));
    assert_eq!(MultiPolygon::from_sql(None), Err(GeogError::NullValue));
    assert_eq!(GeogPoint::from_sql(Some(&[])), Err(GeogError::Decode));
}

#[test]
fn present_column_decodes() {
    let p = pt(10.0, 20.0, Some(4326));
    let b = p.encode();
    assert_eq!(GeogPoint::from_sql(Some(&b)), Ok(p));
}

#[test]
fn truncated_buffers_are_rejected() {
    let b = pt(-122.4194, 37.7749, Some(4326)).encode();
    for k in 0..b.len() {
        assert_eq!(GeogPoint::decode(&b[..k]), Err(GeogError::Decode));
    }
    let pb = Polygon::new(vec![square(None)], None).encode();
    for k in 0..pb.len() {
        assert_eq!(Polygon::decode(&pb[..k]), Err(GeogError::Decode));
    }
}

#[test]
fn trailing_bytes_are_rejected() {
    let mut b = pt(1.0, 2.0, None).encode();
    b.push(0);
    assert_eq!(GeogPoint::decode(&b), Err(GeogError::Decode));
}

#[test]
fn kind_mismatch_is_rejected() {
    let b = pt(1.0, 2.0, Some(4326)).encode();
    assert_eq!(Polygon::decode(&b), Err(GeogError::Decode));
    assert_eq!(LineString::decode(&b), Err(GeogError::Decode));
    assert_eq!(MultiPolygon::decode(&b), Err(GeogError::Decode));
}

#[test]
fn bad_byte_order_marker_is_rejected() {
    let mut b = pt(1.0, 2.0, None).encode();
    b[0] = 2;
    assert_eq!(GeogPoint::decode(&b), Err(GeogError::Decode));
}

#[test]
fn point_count_beyond_payload_is_rejected() {
    let mut b = square(None).encode();
    b[5] = 5;
    assert_eq!(LineString::decode(&b), Err(GeogError::Decode));
}

#[test]
fn to_sql_appends_and_is_not_null() {
    let p = pt(1.0, 2.0, Some(4326));
    let mut out = vec![9u8];
    assert_eq!(p.to_sql(&mut out), IsNull::No);
    assert_eq!(out[0], 9);
    assert_eq!(&out[1..], &p.encode()[..]);
    let m = MultiPolygon::new(vec![], Some(4326));
    let mut out2 = Vec::new();
    assert_eq!(m.to_sql(&mut out2), IsNull::No);
    assert_eq!(out2, m.encode());
    let l = square(None);
    let mut out3 = Vec::new();
    assert_eq!(l.to_sql(&mut out3), IsNull::No);
    assert_eq!(LineString::decode(&out3), Ok(l));
    let q = Polygon::new(vec![], None);
    let mut out4 = Vec::new();
    assert_eq!(q.to_sql(&mut out4), IsNull::No);
    assert_eq!(Polygon::decode(&out4), Ok(q));
}
