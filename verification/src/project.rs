//! The projector: turns each cast ray into the vertical screen strip it
//! paints, by inverse-distance perspective projection.

use crate::ray::{Orientation, Ray};
use vstd::arithmetic::div_mod::{
    lemma_div_is_ordered_by_denominator, lemma_div_nonincreasing, lemma_div_pos_is_pos,
};
use vstd::prelude::*;

verus! {

/// The two tones a wall strip can take, chosen by the orientation of the
/// struck wall face.
#[derive(Clone, Copy, PartialEq, Eq, Structural, Debug)]
pub enum Shade {
    Light,
    Dark,
}

/// One screen column of the rendered view: the top of the wall strip, its
/// height, and its tone.  The strip is vertically centred; it may extend
/// past the viewport for very close walls, and the renderer clips it.
#[derive(Clone, Copy, PartialEq, Eq, Structural, Debug)]
pub struct Column {
    pub top: i64,
    pub height: i64,
    pub shade: Shade,
}

/// Projected strip height: wall height times the projection constant over
/// the hit distance, rounded down.  Closer walls render taller.
pub open spec fn height_spec(wall_h: int, proj: int, dist: int) -> int {
    (wall_h * proj) / dist
}

/// The tone for a hit orientation: vertical-line hits are lit, horizontal
/// ones darkened.
pub open spec fn shade_spec(o: Orientation) -> Shade {
    if o == Orientation::VerticalLine {
        Shade::Light
    } else {
        Shade::Dark
    }
}

/// The full projection of one ray.
pub open spec fn project_spec(r: Ray, wall_h: int, viewport_h: int, proj: int) -> Column {
    let h = height_spec(wall_h, proj, r.dist as int);
    Column {
        top: (viewport_h / 2 - h / 2) as i64,
        height: h as i64,
        shade: shade_spec(r.orient),
    }
}

/// Project one ray into its screen column.
pub fn project(r: Ray, wall_h: i64, viewport_h: i64, proj: i64) -> (c: Column)
    requires
        1 <= r.dist,
        0 <= wall_h,
        0 <= proj,
        0 <= viewport_h,
        wall_h * proj <= i64::MAX,
    ensures
        c == project_spec(r, wall_h as int, viewport_h as int, proj as int),
        c.height == height_spec(wall_h as int, proj as int, r.dist as int),
        c.top == viewport_h / 2 - c.height / 2,
        c.shade == shade_spec(r.orient),
{
    proof {
        assert(0 <= wall_h * proj) by (nonlinear_arith)
            requires
                0 <= wall_h,
                0 <= proj,
        ;
        lemma_div_pos_is_pos(wall_h * proj, r.dist as int);
        lemma_div_nonincreasing(wall_h * proj, r.dist as int);
        lemma_div_pos_is_pos(viewport_h as int, 2);
        lemma_div_nonincreasing(viewport_h as int, 2);
    }
    let num: i64 = wall_h * proj;
    let h: i64 = ((num as u64) / r.dist) as i64;
    proof {
        lemma_div_pos_is_pos(h as int, 2);
        lemma_div_nonincreasing(h as int, 2);
    }
    let top: i64 = ((viewport_h as u64) / 2) as i64 - ((h as u64) / 2) as i64;
    let shade = match r.orient {
        Orientation::VerticalLine => Shade::Light,
        Orientation::HorizontalLine => Shade::Dark,
    };
    Column { top, height: h, shade }
}

/// Project a whole fan of rays, in order: the `i`-th column is the
/// projection of the `i`-th ray.
pub fn render_columns(rays: &Vec<Ray>, wall_h: i64, viewport_h: i64, proj: i64) -> (cols: Vec<
    Column,
>)
    requires
        forall|i: int| 0 <= i < rays@.len() ==> (#[trigger] rays@[i]).dist >= 1,
        0 <= wall_h,
        0 <= proj,
        0 <= viewport_h,
        wall_h * proj <= i64::MAX,
    ensures
        cols@.len() == rays@.len(),
        forall|i: int|
            0 <= i < rays@.len() ==> #[trigger] cols@[i] == project_spec(
                rays@[i],
                wall_h as int,
                viewport_h as int,
                proj as int,
            ),
{
    let n = rays.len();
    let mut cols: Vec<Column> = Vec::new();
    let mut i: usize = 0;
    while i < n
        invariant
            n == rays@.len(),
            i <= n,
            forall|k: int| 0 <= k < rays@.len() ==> (#[trigger] rays@[k]).dist >= 1,
            0 <= wall_h,
            0 <= proj,
            0 <= viewport_h,
            wall_h * proj <= i64::MAX,
            cols@.len() == i,
            forall|k: int|
                0 <= k < i ==> #[trigger] cols@[k] == project_spec(
                    rays@[k],
                    wall_h as int,
                    viewport_h as int,
                    proj as int,
                ),
        decreases n - i,
    {
        let c = project(rays[i], wall_h, viewport_h, proj);
        cols.push(c);
        i = i + 1;
    }
    cols
}

/// Closer hits never render shorter strips: with the same wall height and
/// projection constant, a smaller hit distance gives a column at least as
/// tall.  (At full rational precision the relation is strict; the rounding
/// to whole units can only level it.)
pub proof fn lemma_closer_is_taller(wall_h: int, proj: int, d1: int, d2: int)
    requires
        0 <= wall_h,
        0 <= proj,
        1 <= d1 <= d2,
    ensures
        height_spec(wall_h, proj, d1) >= height_spec(wall_h, proj, d2),
{
    assert(0 <= wall_h * proj) by (nonlinear_arith)
        requires
            0 <= wall_h,
            0 <= proj,
    ;
    lemma_div_is_ordered_by_denominator(wall_h * proj, d1, d2);
}

} // verus!
