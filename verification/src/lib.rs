//! A minimal software-rendering toolkit.
//!
//! The crate combines a runtime-dimensioned matrix/vector algebra engine
//! working over `i64` elements (fractional quantities are carried in fixed
//! point, see [`la::SCALE`]), a Bresenham line rasterizer, a wireframe
//! rendering pipeline, a mesh text-format parser and an uncompressed
//! truecolor bitmap codec.

pub mod cg;
pub mod la;
pub mod obj;
pub mod render;
pub mod tga;
