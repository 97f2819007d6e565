//! The ray fan: one ray per screen column, spread evenly across the field
//! of view, cast in left-to-right screen order.

use crate::grid::Grid;
use crate::ray::{cast, dir_ok, ray_matches, Ray};
use vstd::prelude::*;

verus! {

/// The angle of the fan's `i`-th ray: the left edge of the field of view
/// plus `i` equal increments of `fov / (n - 1)`, all in fixed-point radians.
pub open spec fn fan_angle(center: int, fov: int, n: int, i: int) -> int {
    center - fov / 2 + i * (fov / (n - 1))
}

/// The fan's angles in screen order: `n` angles evenly spaced across
/// `[center - fov/2, center + fov/2]`, both ends included.
pub fn ray_angles(center: i64, fov: i64, n: usize) -> (a: Vec<i64>)
    requires
        2 <= n <= 1000000,
        0 <= fov <= 4611686018427387904,
        -4611686018427387904 <= center <= 4611686018427387904,
    ensures
        a@.len() == n,
        forall|i: int| 0 <= i < n ==> a@[i] == fan_angle(center as int, fov as int, n as int, i),
{
    let gap: i64 = ((fov as u64) / ((n - 1) as u64)) as i64;
    let half: i64 = ((fov as u64) / 2) as i64;
    let start: i64 = center - half;
    proof {
        vstd::arithmetic::div_mod::lemma_div_pos_is_pos(fov as int, (n - 1) as int);
        vstd::arithmetic::div_mod::lemma_div_pos_is_pos(fov as int, 2);
        vstd::arithmetic::div_mod::lemma_div_nonincreasing(fov as int, (n - 1) as int);
        vstd::arithmetic::div_mod::lemma_div_nonincreasing(fov as int, 2);
    }
    let mut a: Vec<i64> = Vec::new();
    let mut i: usize = 0;
    while i < n
        invariant
            i <= n,
            2 <= n <= 1000000,
            0 <= fov <= 4611686018427387904,
            -4611686018427387904 <= center <= 4611686018427387904,
            0 <= gap <= fov,
            gap == fov as int / (n - 1),
            start == center - fov / 2,
            a@.len() == i,
            forall|j: int|
                0 <= j < i ==> a@[j] == fan_angle(center as int, fov as int, n as int, j),
        decreases n - i,
    {
        proof {
            let fv = fov as int;
            let m = (n - 1) as int;
            assert(0 <= i * gap <= m * gap) by (nonlinear_arith)
                requires
                    0 <= i <= m,
                    0 <= gap,
            ;
            assert(m * (fv / m) <= fv) by {
                vstd::arithmetic::div_mod::lemma_fundamental_div_mod(fv, m);
                assert(m * (fv / m) == fv - fv % m) by (nonlinear_arith)
                    requires
                        fv == m * (fv / m) + fv % m,
                ;
                vstd::arithmetic::div_mod::lemma_mod_bound(fv, m);
            }
        }
        a.push(start + (i as i64) * gap);
        i = i + 1;
    }
    a
}

/// Cast one ray per direction, in order: the `i`-th result is the ray for
/// the `i`-th direction, exactly as `cast` reports it.
pub fn cast_fan(g: &Grid, px: i64, py: i64, dirs: &Vec<(i64, i64)>) -> (rays: Vec<Ray>)
    requires
        g.wf(),
        !g.wall_at_spec(px as int, py as int),
        forall|i: int|
            0 <= i < dirs@.len() ==> dir_ok(#[trigger] dirs@[i].0 as int, dirs@[i].1 as int),
    ensures
        rays@.len() == dirs@.len(),
        forall|i: int|
            0 <= i < dirs@.len() ==> ray_matches(
                *g,
                px as int,
                py as int,
                dirs@[i].0 as int,
                dirs@[i].1 as int,
                #[trigger] rays@[i],
            ) && rays@[i].dist >= 1,
{
    let n = dirs.len();
    let mut rays: Vec<Ray> = Vec::new();
    let mut i: usize = 0;
    while i < n
        invariant
            g.wf(),
            !g.wall_at_spec(px as int, py as int),
            n == dirs@.len(),
            i <= n,
            forall|k: int|
                0 <= k < dirs@.len() ==> dir_ok(#[trigger] dirs@[k].0 as int, dirs@[k].1 as int),
            rays@.len() == i,
            forall|k: int|
                0 <= k < i ==> ray_matches(
                    *g,
                    px as int,
                    py as int,
                    dirs@[k].0 as int,
                    dirs@[k].1 as int,
                    #[trigger] rays@[k],
                ) && rays@[k].dist >= 1,
        decreases n - i,
    {
        let d = dirs[i];
        let r = cast(g, px, py, d.0, d.1);
        rays.push(r);
        i = i + 1;
    }
    rays
}

} // verus!
