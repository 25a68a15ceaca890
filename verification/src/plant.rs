//! The food counter that every grid cell owns.

use vstd::prelude::*;

verus! {

/// The amount of food growing on one cell.
pub struct Plant {
    amount: u32,
}

impl View for Plant {
    type V = nat;

    /// The number of food units on the cell.
    closed spec fn view(&self) -> nat {
        self.amount as nat
    }
}

impl Plant {
    /// A cell with nothing growing on it.
    pub fn new() -> (p: Plant)
        ensures
            p@ == 0,
    {
        Plant { amount: 0 }
    }

    pub fn get_amount(&self) -> (n: u32)
        ensures
            n == self@,
    {
        self.amount
    }

    /// Takes one unit away; an empty cell stays empty.
    pub fn decrease(&mut self)
        ensures
            final(self)@ == if old(self)@ > 0 { old(self)@ - 1 } else { 0 },
    {
        if self.amount > 0 {
            self.amount = self.amount - 1;
        }
    }

    /// Adds one unit.
    pub fn increase(&mut self)
        requires
            old(self)@ < u32::MAX,
        ensures
            final(self)@ == old(self)@ + 1,
    {
        self.amount = self.amount + 1;
    }
}

} // verus!
