//! Cursor coordinates and the direction of a search.

use vstd::prelude::*;

verus! {

/// A cursor position in a document: `x` is a grapheme-cluster column within
/// row `y`. `x == row length` denotes the end-of-row cursor slot.
#[derive(Clone, Copy, Debug, Default, PartialEq, Eq, Structural)]
pub struct Position {
    pub x: usize,
    pub y: usize,
}

/// The direction in which a substring search walks a line or a document.
#[derive(Clone, Copy, Debug, PartialEq, Eq, Structural)]
pub enum SearchDirection {
    Forward,
    Backward,
}

} // verus!
