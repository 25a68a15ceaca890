//! Compass directions and movement on a grid whose edges wrap around.

use vstd::arithmetic::div_mod::{lemma_fundamental_div_mod_converse, lemma_mod_bound};
use vstd::prelude::*;

verus! {

/// The number of compass directions.  They are numbered clockwise from the
/// north-west: NW, N, NE, E, SE, S, SW, W.
pub const DIRECTIONS: usize = 8;

/// The column offset of one step in `direction`: east is `+1`.
pub open spec fn dx(direction: nat) -> int {
    if direction == 2 || direction == 3 || direction == 4 {
        1
    } else if direction == 1 || direction == 5 {
        0
    } else {
        -1
    }
}

/// The row offset of one step in `direction`: south is `+1`.
pub open spec fn dy(direction: nat) -> int {
    if direction == 0 || direction == 1 || direction == 2 {
        -1
    } else if direction == 4 || direction == 5 || direction == 6 {
        1
    } else {
        0
    }
}

/// The position reached from `pos` by `delta` on an axis of `size` cells
/// whose two ends are joined.
pub open spec fn wrap(pos: int, delta: int, size: int) -> int {
    (pos + delta) % size
}

/// A step that stays between the edges is an ordinary step.
pub proof fn lemma_wrap_inside(pos: int, delta: int, size: int)
    requires
        0 <= pos + delta < size,
    ensures
        wrap(pos, delta, size) == pos + delta,
{
    lemma_fundamental_div_mod_converse(pos + delta, size, 0, pos + delta);
}

/// The grid is a torus: a step never leaves the axis, a step back from the
/// first cell lands on the last one, and a step forward from the last cell
/// lands on the first one.
pub proof fn lemma_toroidal_wraparound(pos: int, delta: int, size: int)
    requires
        size > 0,
    ensures
        0 <= wrap(pos, delta, size) < size,
        wrap(0, -1, size) == size - 1,
        wrap(size - 1, 1, size) == 0,
{
    lemma_mod_bound(pos + delta, size);
    lemma_fundamental_div_mod_converse(-1, size, -1, size - 1);
    lemma_fundamental_div_mod_converse(size, size, 1, 0);
}

} // verus!
