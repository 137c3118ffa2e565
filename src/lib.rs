//! Procedural Mondrian-style compositions: a canvas is split into a binary
//! tree of rectangles, and each leaf rectangle is painted with a weighted
//! random palette colour inside a black border.
mod random;
pub mod rect;
pub mod tree;
pub mod paint;
pub mod color;
pub mod compose;
