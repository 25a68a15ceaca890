//! Grid coordinates.

use vstd::prelude::*;

verus! {

/// A cell position on the grid: a column `x` and a row `y`.
#[derive(Clone, Copy, Debug, PartialEq, Eq, Hash, Structural)]
pub struct Coordinate {
    x: u32,
    y: u32,
}

impl View for Coordinate {
    type V = (nat, nat);

    /// The pair `(x, y)`.
    closed spec fn view(&self) -> (nat, nat) {
        (self.x as nat, self.y as nat)
    }
}

impl Coordinate {
    pub fn new(x: u32, y: u32) -> (c: Coordinate)
        ensures
            c@ == (x as nat, y as nat),
    {
        Coordinate { x: x, y: y }
    }

    pub fn get_x(&self) -> (x: u32)
        ensures
            x == self@.0,
    {
        self.x
    }

    pub fn get_y(&self) -> (y: u32)
        ensures
            y == self@.1,
    {
        self.y
    }
}

} // verus!
