//! Exact integer geometry helpers: magnitudes, squared distances, and an
//! integer square root used to turn squared distances into ray lengths.

use vstd::prelude::*;

verus! {

/// Magnitude of an integer.
pub open spec fn mag(x: int) -> int {
    if x < 0 {
        -x
    } else {
        x
    }
}

/// Squared Euclidean distance between two points.
pub open spec fn dist_sq(x1: int, y1: int, x2: int, y2: int) -> int {
    (x2 - x1) * (x2 - x1) + (y2 - y1) * (y2 - y1)
}

/// `r` is the integer square root of `n`: the largest integer whose square
/// does not exceed `n`.
pub open spec fn is_sqrt_floor(n: int, r: int) -> bool {
    &&& 0 <= r
    &&& r * r <= n
    &&& n < (r + 1) * (r + 1)
}

/// Integer square root by binary search on the root.
pub fn isqrt(n: u128) -> (r: u64)
    requires
        n < 85070591730234615865843651857942052864,
    ensures
        is_sqrt_floor(n as int, r as int),
{
    let mut lo: u64 = 0;
    let mut hi: u64 = 9223372036854775808;
    proof {
        assert(9223372036854775808int * 9223372036854775808int
            == 85070591730234615865843651857942052864int);
    }
    while lo + 1 < hi
        invariant
            lo < hi <= 9223372036854775808,
            (lo as int) * (lo as int) <= n as int,
            (n as int) < (hi as int) * (hi as int),
        decreases hi - lo,
    {
        let mid: u64 = lo + (hi - lo) / 2;
        proof {
            assert((mid as int) * (mid as int) <= 85070591730234615865843651857942052864int)
                by (nonlinear_arith)
                requires
                    0 <= mid <= 9223372036854775808u64,
            ;
        }
        let sq: u128 = (mid as u128) * (mid as u128);
        if sq <= n {
            lo = mid;
        } else {
            hi = mid;
        }
    }
    lo
}

/// Squared distance between two points whose separation along each axis is
/// at most `4611686018427387904` (so the squares fit comfortably).
pub fn dist_sq_fp(x1: i64, y1: i64, x2: i64, y2: i64) -> (r: u128)
    requires
        mag(x2 - x1) <= 4611686018427387904,
        mag(y2 - y1) <= 4611686018427387904,
    ensures
        r == dist_sq(x1 as int, y1 as int, x2 as int, y2 as int),
        r < 85070591730234615865843651857942052864,
{
    let dx: u64 = if x2 >= x1 {
        (x2 - x1) as u64
    } else {
        (x1 - x2) as u64
    };
    let dy: u64 = if y2 >= y1 {
        (y2 - y1) as u64
    } else {
        (y1 - y2) as u64
    };
    proof {
        assert(dx * dx == (x2 - x1) * (x2 - x1)) by (nonlinear_arith)
            requires
                dx == x2 - x1 || dx == x1 - x2,
        ;
        assert(dy * dy == (y2 - y1) * (y2 - y1)) by (nonlinear_arith)
            requires
                dy == y2 - y1 || dy == y1 - y2,
        ;
        assert(dx * dx <= 4611686018427387904int * 4611686018427387904int
            && dy * dy <= 4611686018427387904int * 4611686018427387904int) by (nonlinear_arith)
            requires
                0 <= dx <= 4611686018427387904,
                0 <= dy <= 4611686018427387904,
        ;
    }
    (dx as u128) * (dx as u128) + (dy as u128) * (dy as u128)
}

/// Euclidean distance between two points, rounded down to a whole number of
/// fixed-point units.
pub fn dist_fp(x1: i64, y1: i64, x2: i64, y2: i64) -> (d: u64)
    requires
        mag(x2 - x1) <= 4611686018427387904,
        mag(y2 - y1) <= 4611686018427387904,
    ensures
        is_sqrt_floor(dist_sq(x1 as int, y1 as int, x2 as int, y2 as int), d as int),
{
    let sq = dist_sq_fp(x1, y1, x2, y2);
    isqrt(sq)
}

} // verus!
