//! Reading values back from Extended Well-Known Binary, in either byte order.

use vstd::prelude::*;
use crate::bytes::{read_u32, read_u64};
use crate::geometry::{GeogPoint, LineString, MultiPolygon, Polygon};
use crate::wire::{
    line_of, multi_polygon_of, parse_coords, parse_coords_seq, parse_header, parse_line_body,
    parse_multi_polygon_body, parse_polygon, parse_polygon_body, parse_polygons_seq,
    parse_rings_seq, point_of, polygon_of, KIND_LINE_STRING, KIND_MULTI_POLYGON, KIND_POINT,
    KIND_POLYGON, LITTLE_ENDIAN, SRID_FLAG,
};

verus! {

/// Why bytes could not be turned into a value.
#[derive(Debug, Clone, Copy, PartialEq, Eq, Structural)]
pub enum GeogError {
    /// No bytes at all where a value was required.
    NullValue,
    /// The bytes are not a well-formed encoding of the requested kind.
    Decode,
}

/// Once a sequence read fails, reading more items fails too.
proof fn lemma_coords_seq_none(b: Seq<u8>, pos: int, be: bool, srid: Option<i32>, i: nat, n: nat)
    requires
        i <= n,
        parse_coords_seq(b, pos, be, srid, i) is None,
    ensures
        parse_coords_seq(b, pos, be, srid, n) is None,
    decreases n - i,
{
    if i < n {
        lemma_coords_seq_none(b, pos, be, srid, i + 1, n);
    }
}

proof fn lemma_rings_seq_none(b: Seq<u8>, pos: int, be: bool, srid: Option<i32>, i: nat, n: nat)
    requires
        i <= n,
        parse_rings_seq(b, pos, be, srid, i) is None,
    ensures
        parse_rings_seq(b, pos, be, srid, n) is None,
    decreases n - i,
{
    if i < n {
        lemma_rings_seq_none(b, pos, be, srid, i + 1, n);
    }
}

proof fn lemma_polygons_seq_none(b: Seq<u8>, pos: int, i: nat, n: nat)
    requires
        i <= n,
        parse_polygons_seq(b, pos, i) is None,
    ensures
        parse_polygons_seq(b, pos, n) is None,
    decreases n - i,
{
    if i < n {
        lemma_polygons_seq_none(b, pos, i + 1, n);
    }
}

fn read_header(b: &[u8], pos: usize, kind: u32) -> (r: Option<(bool, Option<i32>, usize)>)
    ensures
        match r {
            Some((be, srid, e)) => parse_header(b@, pos as int, kind) == Some((be, srid, e as int))
                && e <= b@.len(),
            None => parse_header(b@, pos as int, kind) is None,
        },
{
    if pos >= b.len() || (b[pos] != 0 && b[pos] != LITTLE_ENDIAN) {
        return None;
    }
    let be = b[pos] == 0;
    let tag = match read_u32(b, pos + 1, be) {
        Some(t) => t,
        None => return None,
    };
    if tag == kind {
        Some((be, None, pos + 5))
    } else if tag == kind | SRID_FLAG {
        match read_u32(b, pos + 5, be) {
            Some(s) => Some((be, Some(s as i32), pos + 9)),
            None => None,
        }
    } else {
        None
    }
}

fn read_coords(b: &[u8], pos: usize, be: bool, srid: Option<i32>) -> (r: Option<(GeogPoint, usize)>)
    ensures
        match r {
            Some((p, e)) => parse_coords(b@, pos as int, be, srid) == Some((p, e as int)) && e <= b@.len(),
            None => parse_coords(b@, pos as int, be, srid) is None,
        },
{
    // Every position read below stays within the slice, whose length is a usize.
    let _len = b.len();
    let x = match read_u64(b, pos, be) {
        Some(v) => v,
        None => return None,
    };
    let y = match read_u64(b, pos + 8, be) {
        Some(v) => v,
        None => return None,
    };
    Some((GeogPoint { x, y, srid }, pos + 16))
}

fn read_coords_seq(b: &[u8], pos: usize, be: bool, srid: Option<i32>, n: u32) -> (r: Option<(Vec<GeogPoint>, usize)>)
    requires
        pos <= b@.len(),
    ensures
        match r {
            Some((v, e)) => parse_coords_seq(b@, pos as int, be, srid, n as nat) == Some((v@, e as int))
                && e <= b@.len(),
            None => parse_coords_seq(b@, pos as int, be, srid, n as nat) is None,
        },
{
    let mut v: Vec<GeogPoint> = Vec::new();
    let mut p = pos;
    let mut i: u32 = 0;
    while i < n
        invariant
            i <= n,
            p <= b@.len(),
            parse_coords_seq(b@, pos as int, be, srid, i as nat) == Some((v@, p as int)),
        decreases n - i,
    {
        match read_coords(b, p, be, srid) {
            Some((q, e)) => {
                v.push(q);
                p = e;
                i += 1;
            },
            None => {
                proof {
                    lemma_coords_seq_none(b@, pos as int, be, srid, (i + 1) as nat, n as nat);
                }
                return None;
            },
        }
    }
    Some((v, p))
}

fn read_line_body(b: &[u8], pos: usize, be: bool, srid: Option<i32>) -> (r: Option<(LineString, usize)>)
    requires
        pos <= b@.len(),
    ensures
        match r {
            Some((l, e)) => parse_line_body(b@, pos as int, be, srid) == Some((l@, e as int)) && e <= b@.len(),
            None => parse_line_body(b@, pos as int, be, srid) is None,
        },
{
    // Every position read below stays within the slice, whose length is a usize.
    let _len = b.len();
    let n = match read_u32(b, pos, be) {
        Some(n) => n,
        None => return None,
    };
    match read_coords_seq(b, pos + 4, be, srid, n) {
        Some((points, e)) => Some((LineString { points, srid }, e)),
        None => None,
    }
}

fn read_rings_seq(b: &[u8], pos: usize, be: bool, srid: Option<i32>, n: u32) -> (r: Option<(Vec<LineString>, usize)>)
    requires
        pos <= b@.len(),
    ensures
        match r {
            Some((v, e)) => parse_rings_seq(b@, pos as int, be, srid, n as nat)
                == Some((v@.map_values(|l: LineString| l@), e as int)) && e <= b@.len(),
            None => parse_rings_seq(b@, pos as int, be, srid, n as nat) is None,
        },
{
    let mut v: Vec<LineString> = Vec::new();
    let mut p = pos;
    let mut i: u32 = 0;
    while i < n
        invariant
            i <= n,
            p <= b@.len(),
            parse_rings_seq(b@, pos as int, be, srid, i as nat) == Some((v@.map_values(|l: LineString| l@), p as int)),
        decreases n - i,
    {
        match read_line_body(b, p, be, srid) {
            Some((l, e)) => {
                let ghost before = v@;
                v.push(l);
                assert(v@.map_values(|l: LineString| l@) =~= before.map_values(|l: LineString| l@).push(l@));
                p = e;
                i += 1;
            },
            None => {
                proof {
                    lemma_rings_seq_none(b@, pos as int, be, srid, (i + 1) as nat, n as nat);
                }
                return None;
            },
        }
    }
    Some((v, p))
}

fn read_polygon_body(b: &[u8], pos: usize, be: bool, srid: Option<i32>) -> (r: Option<(Polygon, usize)>)
    requires
        pos <= b@.len(),
    ensures
        match r {
            Some((q, e)) => parse_polygon_body(b@, pos as int, be, srid) == Some((q@, e as int)) && e <= b@.len(),
            None => parse_polygon_body(b@, pos as int, be, srid) is None,
        },
{
    // Every position read below stays within the slice, whose length is a usize.
    let _len = b.len();
    let n = match read_u32(b, pos, be) {
        Some(n) => n,
        None => return None,
    };
    match read_rings_seq(b, pos + 4, be, srid, n) {
        Some((rings, e)) => Some((Polygon { rings, srid }, e)),
        None => None,
    }
}

fn read_polygon(b: &[u8], pos: usize) -> (r: Option<(Polygon, usize)>)
    ensures
        match r {
            Some((q, e)) => parse_polygon(b@, pos as int) == Some((q@, e as int)) && e <= b@.len(),
            None => parse_polygon(b@, pos as int) is None,
        },
{
    proof {
        reveal(parse_polygon);
    }
    match read_header(b, pos, KIND_POLYGON) {
        Some((be, srid, p)) => read_polygon_body(b, p, be, srid),
        None => None,
    }
}

fn read_polygons_seq(b: &[u8], pos: usize, n: u32) -> (r: Option<(Vec<Polygon>, usize)>)
    requires
        pos <= b@.len(),
    ensures
        match r {
            Some((v, e)) => parse_polygons_seq(b@, pos as int, n as nat)
                == Some((v@.map_values(|q: Polygon| q@), e as int)) && e <= b@.len(),
            None => parse_polygons_seq(b@, pos as int, n as nat) is None,
        },
{
    let mut v: Vec<Polygon> = Vec::new();
    let mut p = pos;
    let mut i: u32 = 0;
    while i < n
        invariant
            i <= n,
            p <= b@.len(),
            parse_polygons_seq(b@, pos as int, i as nat) == Some((v@.map_values(|q: Polygon| q@), p as int)),
        decreases n - i,
    {
        match read_polygon(b, p) {
            Some((q, e)) => {
                let ghost before = v@;
                v.push(q);
                assert(v@.map_values(|q: Polygon| q@) =~= before.map_values(|q: Polygon| q@).push(q@));
                p = e;
                i += 1;
            },
            None => {
                proof {
                    lemma_polygons_seq_none(b@, pos as int, (i + 1) as nat, n as nat);
                }
                return None;
            },
        }
    }
    Some((v, p))
}

fn read_multi_polygon_body(b: &[u8], pos: usize, be: bool, srid: Option<i32>) -> (r: Option<(MultiPolygon, usize)>)
    requires
        pos <= b@.len(),
    ensures
        match r {
            Some((m, e)) => parse_multi_polygon_body(b@, pos as int, be, srid) == Some((m@, e as int))
                && e <= b@.len(),
            None => parse_multi_polygon_body(b@, pos as int, be, srid) is None,
        },
{
    // Every position read below stays within the slice, whose length is a usize.
    let _len = b.len();
    let n = match read_u32(b, pos, be) {
        Some(n) => n,
        None => return None,
    };
    match read_polygons_seq(b, pos + 4, n) {
        Some((polygons, e)) => Some((MultiPolygon { polygons, srid }, e)),
        None => None,
    }
}

impl GeogPoint {
    /// The point that `bytes` encode; any other bytes are a decode error.
    pub fn decode(bytes: &[u8]) -> (r: Result<GeogPoint, GeogError>)
        ensures
            r == (match point_of(bytes@) {
                Some(p) => Ok::<GeogPoint, GeogError>(p),
                None => Err(GeogError::Decode),
            }),
    {
        let len = bytes.len();
        match read_header(bytes, 0, KIND_POINT) {
            Some((be, srid, p)) => match read_coords(bytes, p, be, srid) {
                Some((q, e)) => if e == len { Ok(q) } else { Err(GeogError::Decode) },
                None => Err(GeogError::Decode),
            },
            None => Err(GeogError::Decode),
        }
    }

    /// A column value: absent bytes are a null-value error, present ones are decoded.
    pub fn from_sql(bytes: Option<&[u8]>) -> (r: Result<GeogPoint, GeogError>)
        ensures
            r == (match bytes {
                None => Err(GeogError::NullValue),
                Some(b) => match point_of(b@) {
                    Some(p) => Ok::<GeogPoint, GeogError>(p),
                    None => Err(GeogError::Decode),
                },
            }),
    {
        match bytes {
            None => Err(GeogError::NullValue),
            Some(b) => GeogPoint::decode(b),
        }
    }
}

impl LineString {
    /// The line string that `bytes` encode; any other bytes are a decode error.
    pub fn decode(bytes: &[u8]) -> (r: Result<LineString, GeogError>)
        ensures
            match r {
                Ok(l) => line_of(bytes@) == Some(l@),
                Err(e) => e == GeogError::Decode && line_of(bytes@) is None,
            },
    {
        let len = bytes.len();
        match read_header(bytes, 0, KIND_LINE_STRING) {
            Some((be, srid, p)) => match read_line_body(bytes, p, be, srid) {
                Some((l, e)) => if e == len { Ok(l) } else { Err(GeogError::Decode) },
                None => Err(GeogError::Decode),
            },
            None => Err(GeogError::Decode),
        }
    }

    /// A column value: absent bytes are a null-value error, present ones are decoded.
    pub fn from_sql(bytes: Option<&[u8]>) -> (r: Result<LineString, GeogError>)
        ensures
            match bytes {
                None => r == Err::<LineString, GeogError>(GeogError::NullValue),
                Some(b) => match r {
                    Ok(l) => line_of(b@) == Some(l@),
                    Err(e) => e == GeogError::Decode && line_of(b@) is None,
                },
            },
    {
        match bytes {
            None => Err(GeogError::NullValue),
            Some(b) => LineString::decode(b),
        }
    }
}

impl Polygon {
    /// The polygon that `bytes` encode; any other bytes are a decode error.
    pub fn decode(bytes: &[u8]) -> (r: Result<Polygon, GeogError>)
        ensures
            match r {
                Ok(q) => polygon_of(bytes@) == Some(q@),
                Err(e) => e == GeogError::Decode && polygon_of(bytes@) is None,
            },
    {
        let len = bytes.len();
        match read_polygon(bytes, 0) {
            Some((q, e)) => if e == len { Ok(q) } else { Err(GeogError::Decode) },
            None => Err(GeogError::Decode),
        }
    }

    /// A column value: absent bytes are a null-value error, present ones are decoded.
    pub fn from_sql(bytes: Option<&[u8]>) -> (r: Result<Polygon, GeogError>)
        ensures
            match bytes {
                None => r == Err::<Polygon, GeogError>(GeogError::NullValue),
                Some(b) => match r {
                    Ok(q) => polygon_of(b@) == Some(q@),
                    Err(e) => e == GeogError::Decode && polygon_of(b@) is None,
                },
            },
    {
        match bytes {
            None => Err(GeogError::NullValue),
            Some(b) => Polygon::decode(b),
        }
    }
}

impl MultiPolygon {
    /// The multi-polygon that `bytes` encode; any other bytes are a decode error.
    pub fn decode(bytes: &[u8]) -> (r: Result<MultiPolygon, GeogError>)
        ensures
            match r {
                Ok(m) => multi_polygon_of(bytes@) == Some(m@),
                Err(e) => e == GeogError::Decode && multi_polygon_of(bytes@) is None,
            },
    {
        let len = bytes.len();
        match read_header(bytes, 0, KIND_MULTI_POLYGON) {
            Some((be, srid, p)) => match read_multi_polygon_body(bytes, p, be, srid) {
                Some((m, e)) => if e == len { Ok(m) } else { Err(GeogError::Decode) },
                None => Err(GeogError::Decode),
            },
            None => Err(GeogError::Decode),
        }
    }

    /// A column value: absent bytes are a null-value error, present ones are decoded.
    pub fn from_sql(bytes: Option<&[u8]>) -> (r: Result<MultiPolygon, GeogError>)
        ensures
            match bytes {
                None => r == Err::<MultiPolygon, GeogError>(GeogError::NullValue),
                Some(b) => match r {
                    Ok(m) => multi_polygon_of(b@) == Some(m@),
                    Err(e) => e == GeogError::Decode && multi_polygon_of(b@) is None,
                },
            },
    {
        match bytes {
            None => Err(GeogError::NullValue),
            Some(b) => MultiPolygon::decode(b),
        }
    }
}

} // verus!
