//! Perimeter and Heron's-formula radicand of a triangle given by three
//! integer side lengths.
pub mod triangle;

pub use triangle::Triangle;
