//! A wireframe rasterizer for character terminals.
//!
//! Line segments between integer grid coordinates are traced onto a
//! fixed-size frame of characters, which is then laid out as text for a
//! terminal to print. Every executable function carries a contract that Verus
//! proves; the one call into the `bresenham` crate is stated in [`line`].

pub mod buffer;
pub mod canvas;
pub mod line;
pub mod shape;

pub use buffer::{Buffer, Frame};
pub use canvas::{Canvas, BACKGROUND, DRAWN};
pub use line::{line_points, within_limit, Coord2D, COORD_LIMIT};
pub use shape::Shape;
