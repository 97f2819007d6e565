//! The ray caster: marches a ray from grid line to grid line until it enters
//! a wall cell, and reports the hit distance and the orientation of the
//! crossed line.
//!
//! A marching step snaps the current point to the next vertical and the next
//! horizontal grid line in the direction of travel, nudged one coordinate
//! unit past the line so that the wall query lands inside the next cell, and
//! advances to whichever candidate is nearer.  Because the grid treats every
//! point outside the map as a wall, the march always terminates, and it does
//! so within one step per remaining row and column.

use crate::geom::{dist_sq, is_sqrt_floor, mag};
use crate::grid::Grid;
use crate::DIR_LIMIT;
use vstd::arithmetic::div_mod::{
    lemma_div_is_ordered, lemma_div_pos_is_pos, lemma_fundamental_div_mod,
    lemma_fundamental_div_mod_converse, lemma_div_nonincreasing,
};
use vstd::prelude::*;

verus! {

/// Which family of grid lines a ray's final step crossed: a vertical line
/// (an east- or west-facing wall edge) or a horizontal one.  Used by the
/// projector purely to pick a shade.
#[derive(Clone, Copy, PartialEq, Eq, Structural, Debug)]
pub enum Orientation {
    VerticalLine,
    HorizontalLine,
}

/// One cast ray: the distance from its origin to the wall hit, in
/// fixed-point units rounded down, and the orientation of the hit.
#[derive(Clone, Copy, PartialEq, Eq, Structural, Debug)]
pub struct Ray {
    pub dist: u64,
    pub orient: Orientation,
}

/// A usable ray direction: both components within `DIR_LIMIT`, not both
/// zero.  Only the ratio of the components matters to the march.
pub open spec fn dir_ok(dx: int, dy: int) -> bool {
    &&& -DIR_LIMIT <= dx <= DIR_LIMIT
    &&& -DIR_LIMIT <= dy <= DIR_LIMIT
    &&& (dx != 0 || dy != 0)
}

/// The coordinate of the next grid line above `w`, nudged one unit past it.
pub open spec fn snap_up(cell: int, w: int) -> int {
    (w / cell + 1) * cell + 1
}

/// The coordinate of the next grid line at or below `w`, nudged one unit
/// past it.
pub open spec fn snap_down(cell: int, w: int) -> int {
    (w / cell) * cell - 1
}

/// Snapping up lands one unit inside the next cell: strictly past `w`, at
/// most one cell away, and exactly one cell index further on.
pub proof fn lemma_snap_up(cell: int, w: int)
    requires
        2 <= cell,
        0 <= w,
    ensures
        w < snap_up(cell, w) <= w + cell + 1,
        snap_up(cell, w) / cell == w / cell + 1,
        0 < snap_up(cell, w),
{
    let q = w / cell;
    lemma_fundamental_div_mod(w, cell);
    lemma_div_pos_is_pos(w, cell);
    assert((q + 1) * cell == q * cell + cell) by (nonlinear_arith);
    assert(q * cell == cell * q) by (nonlinear_arith);
    lemma_fundamental_div_mod_converse(snap_up(cell, w), cell, q + 1, 1);
}

/// Snapping down lands one unit inside the previous cell: strictly before
/// `w`, at most one cell away, and exactly one cell index back.
pub proof fn lemma_snap_down(cell: int, w: int)
    requires
        2 <= cell,
        0 <= w,
    ensures
        w - cell <= snap_down(cell, w) < w,
        snap_down(cell, w) / cell == w / cell - 1,
        -1 <= snap_down(cell, w),
{
    let q = w / cell;
    lemma_fundamental_div_mod(w, cell);
    lemma_div_pos_is_pos(w, cell);
    assert(q * cell == cell * q) by (nonlinear_arith);
    assert(q * cell - 1 == (q - 1) * cell + (cell - 1)) by (nonlinear_arith);
    lemma_fundamental_div_mod_converse(snap_down(cell, w), cell, q - 1, cell - 1);
}

/// Snap a coordinate to the next grid line in the direction of travel,
/// upward when the direction component is non-negative, downward otherwise.
fn snap_axis(cell: i64, w: i64, d: i64) -> (r: i64)
    requires
        2 <= cell <= crate::COORD_LIMIT,
        0 <= w <= crate::COORD_LIMIT,
    ensures
        r == if d >= 0 {
            snap_up(cell as int, w as int)
        } else {
            snap_down(cell as int, w as int)
        },
{
    proof {
        lemma_fundamental_div_mod(w as int, cell as int);
        lemma_div_pos_is_pos(w as int, cell as int);
        lemma_div_nonincreasing(w as int, cell as int);
        if d >= 0 {
            lemma_snap_up(cell as int, w as int);
        } else {
            lemma_snap_down(cell as int, w as int);
        }
    }
    let q: i64 = ((w as u64) / (cell as u64)) as i64;
    if d >= 0 {
        (q + 1) * cell + 1
    } else {
        q * cell - 1
    }
}

/// How far the perpendicular coordinate moves while this axis runs from
/// `from` to `to`, for a ray of slope `num / den`: the magnitude of the run
/// times `|num| / |den|`, rounded toward zero, signed by `num`.
pub open spec fn cross_move(from: int, to: int, num: int, den: int) -> int {
    let m = mag(to - from) * mag(num) / mag(den);
    if num >= 0 {
        m
    } else {
        -m
    }
}

/// The cross move is no further than the run times the slope bound, and
/// never moves against the sign of `num`; with `num == 0` it is no move at
/// all.
pub proof fn lemma_cross_move_bounds(from: int, to: int, num: int, den: int)
    requires
        den != 0,
        mag(num) <= DIR_LIMIT,
        mag(to - from) <= crate::COORD_LIMIT + 1,
    ensures
        mag(cross_move(from, to, num, den)) <= (crate::COORD_LIMIT + 1) * DIR_LIMIT,
        num > 0 ==> cross_move(from, to, num, den) >= 0,
        num < 0 ==> cross_move(from, to, num, den) <= 0,
        num == 0 ==> cross_move(from, to, num, den) == 0,
{
    let run = mag(to - from);
    let m = run * mag(num) / mag(den);
    assert(run * mag(num) >= 0) by (nonlinear_arith)
        requires
            run >= 0,
            mag(num) >= 0,
    ;
    lemma_div_pos_is_pos(run * mag(num), mag(den));
    assert(run * mag(num) <= (crate::COORD_LIMIT + 1) * DIR_LIMIT) by (nonlinear_arith)
        requires
            0 <= run <= crate::COORD_LIMIT + 1,
            0 <= mag(num) <= DIR_LIMIT,
    ;
    lemma_div_nonincreasing(run * mag(num), mag(den));
    if num == 0 {
        assert(run * 0 == 0) by (nonlinear_arith);
        assert(m == 0) by {
            vstd::arithmetic::div_mod::lemma_div_of0(mag(den));
        }
    }
}

/// The perpendicular coordinate after the axis coordinate runs from `from`
/// to `to`, starting at `other`.
fn cross_step(other: i64, from: i64, to: i64, num: i64, den: i64) -> (r: i64)
    requires
        den != 0,
        -DIR_LIMIT <= num <= DIR_LIMIT,
        -DIR_LIMIT <= den <= DIR_LIMIT,
        -crate::COORD_LIMIT <= other <= crate::COORD_LIMIT,
        mag(to as int - from) <= crate::COORD_LIMIT + 1,
    ensures
        r == other + cross_move(from as int, to as int, num as int, den as int),
{
    proof {
        lemma_cross_move_bounds(from as int, to as int, num as int, den as int);
    }
    let run: u64 = if to >= from {
        (to - from) as u64
    } else {
        (from - to) as u64
    };
    let numu: u64 = if num >= 0 {
        num as u64
    } else {
        (-num) as u64
    };
    let denu: u64 = if den >= 0 {
        den as u64
    } else {
        (-den) as u64
    };
    proof {
        assert(run * numu <= (crate::COORD_LIMIT + 1) * DIR_LIMIT) by (nonlinear_arith)
            requires
                0 <= run <= crate::COORD_LIMIT + 1,
                0 <= numu <= DIR_LIMIT,
        ;
        lemma_div_pos_is_pos(run as int * numu as int, denu as int);
        lemma_div_nonincreasing(run as int * numu as int, denu as int);
    }
    let m: u64 = run * numu / denu;
    if num >= 0 {
        other + (m as i64)
    } else {
        other - (m as i64)
    }
}

/// A point strictly inside the map rectangle and not in a wall cell.
pub open spec fn open_at(g: Grid, px: int, py: int) -> bool {
    !g.wall_at_spec(px, py)
}

/// The candidate reached by stepping to the next vertical grid line, with
/// the perpendicular coordinate advanced along the ray's slope.
pub open spec fn x_step_target(g: Grid, px: int, py: int, dx: int, dy: int) -> (int, int) {
    let sx = if dx >= 0 {
        snap_up(g.cell as int, px)
    } else {
        snap_down(g.cell as int, px)
    };
    (sx, py + cross_move(px, sx, dy, dx))
}

/// The candidate reached by stepping to the next horizontal grid line.
pub open spec fn y_step_target(g: Grid, px: int, py: int, dx: int, dy: int) -> (int, int) {
    let sy = if dy >= 0 {
        snap_up(g.cell as int, py)
    } else {
        snap_down(g.cell as int, py)
    };
    (px + cross_move(py, sy, dx, dy), sy)
}

/// One marching step from a point inside the map: the nearer of the two
/// snap candidates, tagged with the orientation of the grid line it crosses.
/// An axis-aligned ray skips the candidate whose slope would be undefined;
/// a tie goes to the horizontal-line candidate.
pub open spec fn step_spec(g: Grid, px: int, py: int, dx: int, dy: int) -> ((int, int), Orientation) {
    if dx == 0 {
        (y_step_target(g, px, py, dx, dy), Orientation::HorizontalLine)
    } else if dy == 0 {
        (x_step_target(g, px, py, dx, dy), Orientation::VerticalLine)
    } else {
        let xt = x_step_target(g, px, py, dx, dy);
        let yt = y_step_target(g, px, py, dx, dy);
        if dist_sq(px, py, xt.0, xt.1) >= dist_sq(px, py, yt.0, yt.1) {
            (yt, Orientation::HorizontalLine)
        } else {
            (xt, Orientation::VerticalLine)
        }
    }
}

/// Grid lines remaining between coordinate `w` and the edge of the map in
/// the direction of `d`, counting the map edge itself.
pub open spec fn axis_rem(cell: int, count: int, w: int, d: int) -> int {
    if d > 0 {
        count - w / cell
    } else if d < 0 {
        w / cell + 1
    } else {
        0
    }
}

/// Upper bound on the marching steps left before the ray must leave the
/// map: remaining columns plus remaining rows in the direction of travel.
pub open spec fn measure(g: Grid, px: int, py: int, dx: int, dy: int) -> int {
    axis_rem(g.cell as int, g.cols as int, px, dx) + axis_rem(
        g.cell as int,
        g.rows as int,
        py,
        dy,
    )
}

/// A point inside the map sits in a cell index within range on both axes.
proof fn lemma_inside_cell(g: Grid, px: int, py: int)
    requires
        g.wf(),
        open_at(g, px, py),
    ensures
        0 <= px / (g.cell as int) < g.cols,
        0 <= py / (g.cell as int) < g.rows,
        0 <= px < g.width(),
        0 <= py < g.height(),
        g.cell <= crate::COORD_LIMIT,
{
    assert(g.cell <= g.rows * g.cell) by (nonlinear_arith)
        requires
            1 <= g.rows,
            2 <= g.cell,
    ;
    lemma_div_pos_is_pos(px, g.cell as int);
    lemma_div_pos_is_pos(py, g.cell as int);
    assert(g.cell as int * (g.cols as int) == g.cols as int * (g.cell as int)) by (nonlinear_arith);
    assert(g.cell as int * (g.rows as int) == g.rows as int * (g.cell as int)) by (nonlinear_arith);
    vstd::arithmetic::div_mod::lemma_multiply_divide_lt(px, g.cell as int, g.cols as int);
    vstd::arithmetic::div_mod::lemma_multiply_divide_lt(py, g.cell as int, g.rows as int);
}

/// From a point inside the map, the measure is at least one and at most one
/// per row and column of the map.
pub proof fn lemma_measure_bounds(g: Grid, px: int, py: int, dx: int, dy: int)
    requires
        g.wf(),
        dir_ok(dx, dy),
        open_at(g, px, py),
    ensures
        1 <= measure(g, px, py, dx, dy) <= g.rows + g.cols,
{
    lemma_inside_cell(g, px, py);
}

/// What one marching step does, seen from the point it starts at: it moves
/// weakly along the ray's direction on both axes, it strictly crosses a
/// grid line on the axis its orientation names, it stays within one step's
/// reach, and while it stays inside the map the measure strictly falls.
pub proof fn lemma_step_advances(g: Grid, px: int, py: int, dx: int, dy: int)
    requires
        g.wf(),
        dir_ok(dx, dy),
        open_at(g, px, py),
    ensures
        ({
            let (q, o) = step_spec(g, px, py, dx, dy);
            &&& dx > 0 ==> px <= q.0
            &&& dx < 0 ==> q.0 <= px
            &&& dx == 0 ==> q.0 == px
            &&& dy > 0 ==> py <= q.1
            &&& dy < 0 ==> q.1 <= py
            &&& dy == 0 ==> q.1 == py
            &&& o == Orientation::VerticalLine ==> dx != 0 && (dx > 0 ==> q.0 >= px + 1) && (dx
                < 0 ==> q.0 <= px - 1)
            &&& o == Orientation::HorizontalLine ==> dy != 0 && (dy > 0 ==> q.1 >= py + 1) && (dy
                < 0 ==> q.1 <= py - 1)
            &&& mag(q.0 - px) <= crate::STEP_LIMIT
            &&& mag(q.1 - py) <= crate::STEP_LIMIT
            &&& open_at(g, q.0, q.1) ==> measure(g, q.0, q.1, dx, dy) < measure(
                g,
                px,
                py,
                dx,
                dy,
            )
        }),
{
    lemma_inside_cell(g, px, py);
    let cell = g.cell as int;
    let (q, o) = step_spec(g, px, py, dx, dy);
    if dx != 0 {
        let xt = x_step_target(g, px, py, dx, dy);
        if dx > 0 {
            lemma_snap_up(cell, px);
        } else {
            lemma_snap_down(cell, px);
        }
        lemma_cross_move_bounds(px, xt.0, dy, dx);
    }
    if dy != 0 {
        let yt = y_step_target(g, px, py, dx, dy);
        if dy > 0 {
            lemma_snap_up(cell, py);
        } else {
            lemma_snap_down(cell, py);
        }
        lemma_cross_move_bounds(py, yt.1, dx, dy);
    }
    if dx == 0 {
        lemma_cross_move_bounds(py, q.1, dx, dy);
    }
    if dy == 0 && dx != 0 {
        lemma_cross_move_bounds(px, q.0, dy, dx);
    }
    if open_at(g, q.0, q.1) {
        lemma_inside_cell(g, q.0, q.1);
        if o == Orientation::VerticalLine {
            // the x axis crossed one grid line; the y cell index moved weakly along dy
            if dy > 0 {
                lemma_div_is_ordered(py, q.1, cell);
            } else if dy < 0 {
                lemma_div_is_ordered(q.1, py, cell);
            }
        } else {
            if dx > 0 {
                lemma_div_is_ordered(px, q.0, cell);
            } else if dx < 0 {
                lemma_div_is_ordered(q.0, px, cell);
            }
        }
    }
}

/// One marching step, executed exactly as `step_spec` describes it.
fn step(g: &Grid, px: i64, py: i64, dx: i64, dy: i64) -> (r: (i64, i64, Orientation))
    requires
        g.wf(),
        dir_ok(dx as int, dy as int),
        open_at(*g, px as int, py as int),
    ensures
        ({
            let (q, o) = step_spec(*g, px as int, py as int, dx as int, dy as int);
            r.0 == q.0 && r.1 == q.1 && r.2 == o
        }),
{
    proof {
        lemma_inside_cell(*g, px as int, py as int);
        lemma_step_advances(*g, px as int, py as int, dx as int, dy as int);
    }
    if dx == 0 {
        let sy = snap_axis(g.cell, py, dy);
        (px, sy, Orientation::HorizontalLine)
    } else if dy == 0 {
        let sx = snap_axis(g.cell, px, dx);
        (sx, py, Orientation::VerticalLine)
    } else {
        let sx = snap_axis(g.cell, px, dx);
        let sy = snap_axis(g.cell, py, dy);
        proof {
            if dx > 0 {
                lemma_snap_up(g.cell as int, px as int);
            } else {
                lemma_snap_down(g.cell as int, px as int);
            }
            if dy > 0 {
                lemma_snap_up(g.cell as int, py as int);
            } else {
                lemma_snap_down(g.cell as int, py as int);
            }
            lemma_cross_move_bounds(px as int, sx as int, dy as int, dx as int);
            lemma_cross_move_bounds(py as int, sy as int, dx as int, dy as int);
        }
        let yx = cross_step(py, px, sx, dy, dx);
        let xy = cross_step(px, py, sy, dx, dy);
        let d1 = crate::geom::dist_sq_fp(px, py, sx, yx);
        let d2 = crate::geom::dist_sq_fp(px, py, xy, sy);
        if d1 >= d2 {
            (xy, sy, Orientation::HorizontalLine)
        } else {
            (sx, yx, Orientation::VerticalLine)
        }
    }
}

/// The result of marching a ray for at most `fuel` steps: the first point
/// at which the march enters a wall, with the orientation of the crossing
/// step, or nothing if `fuel` runs out first.
pub open spec fn march(
    g: Grid,
    px: int,
    py: int,
    dx: int,
    dy: int,
    fuel: nat,
) -> Option<((int, int), Orientation)>
    decreases fuel,
{
    if fuel == 0 {
        None
    } else {
        let (q, o) = step_spec(g, px, py, dx, dy);
        if g.wall_at_spec(q.0, q.1) {
            Some((q, o))
        } else {
            march(g, q.0, q.1, dx, dy, (fuel - 1) as nat)
        }
    }
}

/// Fuel that always suffices: one step per row and per column of the map.
pub open spec fn fuel_budget(g: Grid) -> nat {
    (g.rows + g.cols) as nat
}

/// A march that succeeds within some fuel returns the same hit for any
/// larger fuel.
pub proof fn lemma_march_fuel_mono(g: Grid, px: int, py: int, dx: int, dy: int, f1: nat, f2: nat)
    requires
        f1 <= f2,
        march(g, px, py, dx, dy, f1).is_some(),
    ensures
        march(g, px, py, dx, dy, f2) == march(g, px, py, dx, dy, f1),
    decreases f1,
{
    let (q, o) = step_spec(g, px, py, dx, dy);
    if !g.wall_at_spec(q.0, q.1) {
        lemma_march_fuel_mono(g, q.0, q.1, dx, dy, (f1 - 1) as nat, (f2 - 1) as nat);
    }
}

/// What `cast` reports for a ray: the march from its origin finds a wall
/// within the fuel budget, the ray carries that hit's orientation, and its
/// distance is the integer square root of the squared origin-to-hit
/// distance.
pub open spec fn ray_matches(g: Grid, px: int, py: int, dx: int, dy: int, r: Ray) -> bool {
    &&& march(g, px, py, dx, dy, fuel_budget(g)).is_some()
    &&& ({
        let (q, o) = march(g, px, py, dx, dy, fuel_budget(g)).unwrap();
        &&& r.orient == o
        &&& is_sqrt_floor(dist_sq(px, py, q.0, q.1), r.dist as int)
    })
}

/// Cast one ray from an open point of the map.
///
/// The march always terminates, in at most one step per row and column of
/// the map, because every point outside the map counts as a wall; and the
/// hit lies strictly away from the origin, so the reported distance is at
/// least one unit.
pub fn cast(g: &Grid, px: i64, py: i64, dx: i64, dy: i64) -> (r: Ray)
    requires
        g.wf(),
        dir_ok(dx as int, dy as int),
        open_at(*g, px as int, py as int),
    ensures
        ray_matches(*g, px as int, py as int, dx as int, dy as int, r),
        r.dist >= 1,
{
    let ghost gx = px as int;
    let ghost gy = py as int;
    let mut cx = px;
    let mut cy = py;
    let ghost mut steps: int = 0;
    proof {
        lemma_measure_bounds(*g, gx, gy, dx as int, dy as int);
    }
    loop
        invariant
            g.wf(),
            dir_ok(dx as int, dy as int),
            open_at(*g, cx as int, cy as int),
            open_at(*g, gx, gy),
            gx == px as int && gy == py as int,
            0 <= steps,
            steps + measure(*g, cx as int, cy as int, dx as int, dy as int) <= measure(
                *g,
                gx,
                gy,
                dx as int,
                dy as int,
            ),
            forall|f: nat|
                #[trigger] march(*g, cx as int, cy as int, dx as int, dy as int, f) == march(
                    *g,
                    gx,
                    gy,
                    dx as int,
                    dy as int,
                    (steps + f) as nat,
                ),
            (dx as int) > 0 ==> gx <= cx as int,
            (dx as int) < 0 ==> cx as int <= gx,
            (dx as int) == 0 ==> cx as int == gx,
            (dy as int) > 0 ==> gy <= cy as int,
            (dy as int) < 0 ==> cy as int <= gy,
            (dy as int) == 0 ==> cy as int == gy,
        decreases measure(*g, cx as int, cy as int, dx as int, dy as int),
    {
        proof {
            lemma_step_advances(*g, cx as int, cy as int, dx as int, dy as int);
            lemma_inside_cell(*g, cx as int, cy as int);
        }
        let s = step(g, cx, cy, dx, dy);
        let nx = s.0;
        let ny = s.1;
        if g.wall_at(nx, ny) {
            proof {
                lemma_measure_bounds(*g, cx as int, cy as int, dx as int, dy as int);
                lemma_measure_bounds(*g, gx, gy, dx as int, dy as int);
                lemma_inside_cell(*g, gx, gy);
                assert(march(*g, cx as int, cy as int, dx as int, dy as int, 1nat).is_some());
                assert(march(*g, gx, gy, dx as int, dy as int, (steps + 1) as nat).is_some());
                lemma_march_fuel_mono(
                    *g,
                    gx,
                    gy,
                    dx as int,
                    dy as int,
                    (steps + 1) as nat,
                    fuel_budget(*g),
                );
                lemma_hit_is_apart(*g, gx, gy, cx as int, cy as int, dx as int, dy as int);
            }
            let d = crate::geom::dist_fp(px, py, nx, ny);
            proof {
                let dsq = dist_sq(gx, gy, nx as int, ny as int);
                assert(d >= 1) by (nonlinear_arith)
                    requires
                        (d as int) * (d as int) <= dsq,
                        dsq < (d as int + 1) * (d as int + 1),
                        1 <= dsq,
                        0 <= d,
                ;
            }
            return Ray { dist: d, orient: s.2 };
        }
        proof {
            assert forall|f: nat|
                #[trigger] march(*g, nx as int, ny as int, dx as int, dy as int, f) == march(
                    *g,
                    gx,
                    gy,
                    dx as int,
                    dy as int,
                    ((steps + 1) + f) as nat,
                ) by {
                let ff = (f + 1) as nat;
                assert(march(*g, cx as int, cy as int, dx as int, dy as int, ff) == march(
                    *g,
                    gx,
                    gy,
                    dx as int,
                    dy as int,
                    (steps + ff) as nat,
                ));
            }
            lemma_measure_bounds(*g, nx as int, ny as int, dx as int, dy as int);
            steps = steps + 1;
        }
        cx = nx;
        cy = ny;
    }
}

/// The step taken from `(cx, cy)` lands at least one unit away from the
/// origin `(gx, gy)` of a march that reached `(cx, cy)` moving along
/// `(dx, dy)`, so the squared hit distance is at least one.
proof fn lemma_hit_is_apart(g: Grid, gx: int, gy: int, cx: int, cy: int, dx: int, dy: int)
    requires
        g.wf(),
        dir_ok(dx, dy),
        open_at(g, cx, cy),
        dx > 0 ==> gx <= cx,
        dx < 0 ==> cx <= gx,
        dx == 0 ==> cx == gx,
        dy > 0 ==> gy <= cy,
        dy < 0 ==> cy <= gy,
        dy == 0 ==> cy == gy,
    ensures
        ({
            let (q, o) = step_spec(g, cx, cy, dx, dy);
            dist_sq(gx, gy, q.0, q.1) >= 1
        }),
{
    lemma_step_advances(g, cx, cy, dx, dy);
    let (q, o) = step_spec(g, cx, cy, dx, dy);
    if o == Orientation::VerticalLine {
        assert(mag(q.0 - gx) >= 1);
        assert((q.0 - gx) * (q.0 - gx) >= 1 && (q.1 - gy) * (q.1 - gy) >= 0) by (nonlinear_arith)
            requires
                mag(q.0 - gx) >= 1,
        ;
    } else {
        assert(mag(q.1 - gy) >= 1);
        assert((q.1 - gy) * (q.1 - gy) >= 1 && (q.0 - gx) * (q.0 - gx) >= 0) by (nonlinear_arith)
            requires
                mag(q.1 - gy) >= 1,
        ;
    }
}

/// A ray travelling due east or due west can only cross vertical grid
/// lines, so its hit is always tagged with the vertical orientation.
pub proof fn lemma_axis_ray_vertical(g: Grid, px: int, py: int, dx: int, fuel: nat)
    requires
        dx != 0,
        march(g, px, py, dx, 0, fuel).is_some(),
    ensures
        march(g, px, py, dx, 0, fuel).unwrap().1 == Orientation::VerticalLine,
    decreases fuel,
{
    let (q, o) = step_spec(g, px, py, dx, 0);
    if !g.wall_at_spec(q.0, q.1) {
        lemma_axis_ray_vertical(g, q.0, q.1, dx, (fuel - 1) as nat);
    }
}

/// A ray travelling due north or due south can only cross horizontal grid
/// lines, so its hit is always tagged with the horizontal orientation.
pub proof fn lemma_axis_ray_horizontal(g: Grid, px: int, py: int, dy: int, fuel: nat)
    requires
        dy != 0,
        march(g, px, py, 0, dy, fuel).is_some(),
    ensures
        march(g, px, py, 0, dy, fuel).unwrap().1 == Orientation::HorizontalLine,
    decreases fuel,
{
    let (q, o) = step_spec(g, px, py, 0, dy);
    if !g.wall_at_spec(q.0, q.1) {
        lemma_axis_ray_horizontal(g, q.0, q.1, dy, (fuel - 1) as nat);
    }
}

} // verus!
