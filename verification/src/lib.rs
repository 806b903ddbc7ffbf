//! A torus drawn in characters: a point cloud on the surface, rotated rigidly,
//! projected onto a character grid with a depth test and shaded by a glyph
//! ramp. All of it is integer arithmetic in fixed point.

pub mod angle;
pub mod fixed;
pub mod grid;
pub mod listing;
pub mod norm;
pub mod point;
pub mod raster;
pub mod shade;
pub mod spin;
pub mod text;
pub mod torus;

pub use crate::angle::Angle;
pub use crate::point::Point;
pub use crate::spin::Spin;
pub use crate::torus::Torus;
