//! A word-search puzzle generator: words are hidden on a square board along the
//! eight compass directions by a randomized, retrying search that prefers
//! crossings, and the rest of the board is filled with letters of an alphabet.

pub mod fill;
pub mod grid;
pub mod input;
pub mod laws;
pub mod layout;
pub mod placement;
pub mod puzzle;
pub mod random;
pub mod render;
pub mod search;
pub mod text;
