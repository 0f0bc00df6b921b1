//! A flat-buffer, row-major 2D grid with verified coordinate arithmetic,
//! row operations and neighbourhood enumeration.

pub mod error;
pub mod grid;
pub mod model;

pub use error::Vec2DErr;
pub use grid::Vec2D;
