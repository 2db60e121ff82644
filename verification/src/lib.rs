//! An edge-matching tiling puzzle: square tiles carrying half an insect on
//! each side are laid out on a square board so that every pair of touching
//! sides shows the two halves of one insect.

pub mod tile;
pub mod layout;
pub mod search;
pub mod laws;
pub mod puzzle;
pub mod render;
