//! The exact side of a progressive path tracer: the readers of its mesh
//! formats, the hierarchy of boxes and the search for the nearest hit, and
//! the bookkeeping of paths, of the sample accumulator and of the display.
//!
//! Scalars are held by their bit patterns. The library orders them and
//! chooses among them; arithmetic on them is the caller's, who hands in
//! functions where the library needs an answer.

pub mod bvh;
pub mod display;
pub mod endian;
pub mod eve;
pub mod geom;
pub mod image;
pub mod input;
pub mod mtl;
pub mod nearest;
pub mod number;
pub mod obj;
pub mod path;
pub mod ply;
pub mod render;
pub mod replay;
pub mod scalar;
pub mod shape;
pub mod stl;
pub mod text;
pub mod texture;
pub mod whole;
pub mod world;
