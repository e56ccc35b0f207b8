//! A software rasterizer core: screen-space triangles in fixed-point
//! coordinates, an edge-function coverage test, exact barycentric weights,
//! and a depth-buffered frame buffer with an append-only vertex and index store.

pub mod rasterizer;
pub mod triangle;
