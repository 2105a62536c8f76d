use vstd::prelude::*;

use crate::model::{adjacent, Minesweeper};
use crate::pos_set::Position;

verus! {

/// Toggling a flag on the same cell twice restores the flag set exactly:
/// applying the toggle transition to a board whose flag set has already been
/// toggled once undoes the first toggle, whatever the cell's state.
pub proof fn lemma_toggle_flag_involutive(b: Minesweeper, b2: Minesweeper, p: Position)
    requires
        b2.game_over == b.game_over,
        b2.width == b.width,
        b2.height == b.height,
        b2.open_positions@ == b.open_positions@,
        b2.flagged_positions@ == b.spec_toggle(p),
    ensures
        b2.spec_toggle(p) == b.flagged_positions@,
{
    if !b.game_over && b.in_bounds(p) && !b.open_positions@.contains(p) {
        if b.flagged_positions@.contains(p) {
            assert(b2.spec_toggle(p) =~= b.flagged_positions@);
        } else {
            assert(b2.spec_toggle(p) =~= b.flagged_positions@);
        }
    }
}

/// What the cascade from a zero cell `p` reveals, exactly: `p` itself; only
/// openable cells; every openable neighbour of a revealed zero cell (the
/// region's border is included); and nothing farther — each revealed cell
/// other than `p` touches a revealed zero cell, so the cascade never steps
/// past the border.
pub proof fn lemma_reveals_characterization(b: Minesweeper, p: Position)
    requires
        b.is_zero_cell(p),
        b.spec_openable(p),
    ensures
        b.reveals(p).contains(p),
        forall|q: Position| #[trigger] b.reveals(p).contains(q) ==> b.spec_openable(q),
        forall|z: Position, r: Position|
            #[trigger] b.reveals(p).contains(z) && b.is_zero_cell(z) && #[trigger] adjacent(z, r)
                && b.spec_openable(r) ==> b.reveals(p).contains(r),
        forall|q: Position|
            #[trigger] b.reveals(p).contains(q) && q != p ==> exists|z: Position|
                b.reveals(p).contains(z) && b.is_zero_cell(z) && #[trigger] adjacent(z, q),
{
    assert(b.reach(p, p, 0));
    assert(b.reveals(p).contains(p));
    assert forall|q: Position| #[trigger] b.reveals(p).contains(q) implies b.spec_openable(q) by {
        let n = choose|n: nat| b.reach(p, q, n);
    }
    assert forall|z: Position, r: Position|
        #[trigger] b.reveals(p).contains(z) && b.is_zero_cell(z) && #[trigger] adjacent(z, r)
            && b.spec_openable(r) implies b.reveals(p).contains(r) by {
        let n = choose|n: nat| b.reach(p, z, n);
        if r != p {
            assert(b.reach(p, r, n + 1));
        }
    }
    assert forall|q: Position| #[trigger] b.reveals(p).contains(q) && q != p implies exists|
        z: Position,
    |
        b.reveals(p).contains(z) && b.is_zero_cell(z) && #[trigger] adjacent(z, q) by {
        let n = choose|n: nat| b.reach(p, q, n);
        let z = choose|z: Position|
            #[trigger] adjacent(z, q) && b.is_zero_cell(z) && b.reach(p, z, (n - 1) as nat);
        assert(b.reveals(p).contains(z));
    }
}

} // verus!
