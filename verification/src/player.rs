//! The viewer's state: a position in fixed-point world coordinates and a
//! facing angle, moved only through collision-checked steps.

use crate::grid::Grid;
use vstd::prelude::*;

verus! {

/// Position and facing of the viewer.
///
/// The angle is a fixed-point number of radians.  It is not normalised: it
/// grows and shrinks freely as the viewer turns, wrapping at the extremes of
/// its range.
#[derive(Clone, Copy, PartialEq, Eq, Structural, Debug)]
pub struct Player {
    pub x: i64,
    pub y: i64,
    pub angle: i64,
}

impl Player {
    /// Whether a step by `(sx, sy)` from the current position is blocked:
    /// the destination point lies in a wall.
    pub open spec fn step_blocked(self, g: Grid, sx: int, sy: int) -> bool {
        g.wall_at_spec(self.x + sx, self.y + sy)
    }

    /// The state after an attempted step by `(sx, sy)`: unchanged when the
    /// destination is a wall, translated to it otherwise.
    pub open spec fn after_move(self, g: Grid, sx: int, sy: int) -> Player {
        if self.step_blocked(g, sx, sy) {
            self
        } else {
            Player { x: (self.x + sx) as i64, y: (self.y + sy) as i64, angle: self.angle }
        }
    }

    /// Attempt to translate the player by `(sx, sy)`.
    ///
    /// The move is all-or-nothing: the single destination point is tested
    /// against the grid, and a blocked move leaves the state untouched.
    pub fn try_move(&mut self, g: &Grid, sx: i64, sy: i64) -> (moved: bool)
        requires
            g.wf(),
            i64::MIN <= old(self).x + sx <= i64::MAX,
            i64::MIN <= old(self).y + sy <= i64::MAX,
        ensures
            *final(self) == old(self).after_move(*g, sx as int, sy as int),
            moved == !old(self).step_blocked(*g, sx as int, sy as int),
            !moved ==> *final(self) == *old(self),
    {
        let nx = self.x + sx;
        let ny = self.y + sy;
        if g.wall_at(nx, ny) {
            false
        } else {
            self.x = nx;
            self.y = ny;
            true
        }
    }

    /// Turn by `delta` fixed-point radians.  Turning is always legal: no
    /// collision test, and the angle wraps at the ends of its range.
    pub fn rotate(&mut self, delta: i64)
        ensures
            final(self).angle == vstd::wrapping::i64_specs::wrapping_add(old(self).angle, delta),
            final(self).x == old(self).x,
            final(self).y == old(self).y,
    {
        self.angle = self.angle.wrapping_add(delta);
    }
}

/// A rejected move is stable: when the destination of a step is a wall, the
/// attempted move keeps the player exactly where it was, and repeating the
/// same attempt any number of times still does.
pub proof fn lemma_rejected_move_is_stable(p: Player, g: Grid, sx: int, sy: int)
    requires
        p.step_blocked(g, sx, sy),
    ensures
        p.after_move(g, sx, sy) == p,
        p.after_move(g, sx, sy).after_move(g, sx, sy) == p,
{
}

} // verus!
