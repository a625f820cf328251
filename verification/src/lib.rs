//! Conversions between flat character indices and visual (row, column)
//! coordinates in a rope of text, aware of grapheme clusters, wide
//! characters and multi-character line endings.

pub mod graphemes;
pub mod lines;
pub mod mapping;
pub mod point;
pub mod position;
pub mod rope;
pub mod spans;

pub use mapping::{coords_at_pos, ensure_grapheme_boundary_prev, pos_at_coords, try_coords_at_pos};
pub use position::Position;
