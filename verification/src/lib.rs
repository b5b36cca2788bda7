//! A fixed-point software rasterizer.
//!
//! Triangles and lines given in integer screen coordinates are turned into
//! pixels of an RGBA image. Visibility is resolved by a per-pixel depth
//! buffer, colours come from a flat colour or from a texture image, and all
//! arithmetic is exact integer arithmetic: barycentric weights are kept as
//! numerators over a common denominator, and depths, texture coordinates and
//! light intensities are fixed-point numbers.

pub mod arith;
pub mod canvas;
pub mod color;
pub mod target;
pub mod geometry;
pub mod barycentric;
pub mod bbox;
pub mod triangle;
pub mod line;
pub mod project;
pub mod shade;
pub mod render;
