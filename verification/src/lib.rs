//! Enumeration of the unlock patterns that visit every point of a 3x3 grid,
//! with the machinery to draw each of them as an SVG document.

pub mod graph;
pub mod search;
pub mod laws;
pub mod draw;
