//! Geography values (points, line strings, polygons, multi-polygons) and their
//! Extended Well-Known Binary form, with a verified encoder and decoder.

pub mod bytes;
pub mod geometry;
pub mod wire;
pub mod encode;
pub mod decode;
pub mod laws;
