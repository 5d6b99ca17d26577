use vstd::prelude::*;

use crate::game::swap::Swap;

verus! {

/// A move: place a stone on the empty cell `square` (cells are numbered
/// 0 to 35, row by row), then exchange the quadrant pair `swap`.
#[derive(Debug, PartialEq, Eq, Structural, Clone, Copy)]
pub struct Action {
    pub square: u8,
    pub swap: Swap,
}

impl Action {
    /// Builds the action that places at `square` and then applies `swap`.
    pub fn new(square: u8, swap: Swap) -> (r: Action)
        ensures
            r.square == square,
            r.swap == swap,
    {
        Action { square, swap }
    }
}

} // verus!
