//! The distance between two coordinates.

use crate::grid::{GridPoint, UtmCoordinate};
use vstd::prelude::*;

verus! {

/// The square of the straight-line distance between two points, in square
/// metres.
pub open spec fn squared_range(a: GridPoint, b: GridPoint) -> nat {
    ((b.easting - a.easting) * (b.easting - a.easting) + (b.northing - a.northing) * (b.northing
        - a.northing)) as nat
}

/// Whether `root` is the square root of `n`, rounded down.
pub open spec fn is_floor_sqrt(n: nat, root: nat) -> bool {
    root * root <= n < (root + 1) * (root + 1)
}

/// The square root of `n`, rounded down.
pub open spec fn floor_sqrt(n: nat) -> nat {
    choose|root: nat| is_floor_sqrt(n, root)
}

/// The straight-line distance between two points, in whole metres: the
/// Euclidean distance, rounded down.
pub open spec fn range_metres(a: GridPoint, b: GridPoint) -> nat {
    floor_sqrt(squared_range(a, b))
}

/// A number has only one rounded-down square root.
pub proof fn lemma_floor_sqrt_unique(n: nat, first: nat, second: nat)
    requires
        is_floor_sqrt(n, first),
        is_floor_sqrt(n, second),
    ensures
        first == second,
{
    if first < second {
        assert((first + 1) * (first + 1) <= second * second) by (nonlinear_arith)
            requires
                first + 1 <= second,
        ;
    }
    if second < first {
        assert((second + 1) * (second + 1) <= first * first) by (nonlinear_arith)
            requires
                second + 1 <= first,
        ;
    }
}

/// Whatever passes for the rounded-down square root of `n` is `floor_sqrt(n)`.
pub proof fn lemma_floor_sqrt_is(n: nat, root: nat)
    requires
        is_floor_sqrt(n, root),
    ensures
        floor_sqrt(n) == root,
{
    lemma_floor_sqrt_unique(n, root, floor_sqrt(n));
}

/// The square root of `n`, rounded down.
pub fn integer_sqrt(n: u128) -> (root: u64)
    ensures
        root == floor_sqrt(n as nat),
        is_floor_sqrt(n as nat, root as nat),
{
    let mut low: u128 = 0;
    let mut high: u128 = 0x1_0000_0000_0000_0000;
    while high - low > 1
        invariant
            low < high <= 0x1_0000_0000_0000_0000,
            low * low <= n < high * high,
        decreases high - low,
    {
        let middle: u128 = low + (high - low) / 2;
        assert(middle * middle <= 0xffff_ffff_ffff_ffff * 0xffff_ffff_ffff_ffff)
            by (nonlinear_arith)
            requires
                middle <= 0xffff_ffff_ffff_ffff,
        ;
        if middle * middle <= n {
            low = middle;
        } else {
            high = middle;
        }
    }
    proof {
        lemma_floor_sqrt_is(n as nat, low as nat);
    }
    low as u64
}

/// The straight-line distance from `location` to `destination`, in whole
/// metres: the Euclidean distance, rounded down.
pub fn utm_range(location: UtmCoordinate, destination: UtmCoordinate) -> (range: u64)
    ensures
        range == range_metres(location@, destination@),
        is_floor_sqrt(squared_range(location@, destination@), range as nat),
{
    let x_diff: i128 = destination.easting as i128 - location.easting as i128;
    let y_diff: i128 = destination.northing as i128 - location.northing as i128;
    assert(0 <= x_diff * x_diff <= 0x1_0000_0000 * 0x1_0000_0000) by (nonlinear_arith)
        requires
            -0x1_0000_0000 <= x_diff <= 0x1_0000_0000,
    ;
    assert(0 <= y_diff * y_diff <= 0x1_0000_0000 * 0x1_0000_0000) by (nonlinear_arith)
        requires
            -0x1_0000_0000 <= y_diff <= 0x1_0000_0000,
    ;
    let squared: u128 = (x_diff * x_diff + y_diff * y_diff) as u128;
    integer_sqrt(squared)
}

/// The range from `a` to `b` is the range from `b` to `a`.
pub proof fn lemma_range_symmetric(a: UtmCoordinate, b: UtmCoordinate)
    ensures
        range_metres(a@, b@) == range_metres(b@, a@),
{
    let x_diff = b@.easting - a@.easting;
    let y_diff = b@.northing - a@.northing;
    assert(x_diff * x_diff == (-x_diff) * (-x_diff)) by (nonlinear_arith);
    assert(y_diff * y_diff == (-y_diff) * (-y_diff)) by (nonlinear_arith);
    assert(squared_range(a@, b@) == squared_range(b@, a@));
}

/// The range from a coordinate to itself is zero.
pub proof fn lemma_range_to_self(a: UtmCoordinate)
    ensures
        range_metres(a@, a@) == 0,
{
    assert(squared_range(a@, a@) == 0);
    assert(is_floor_sqrt(0, 0)) by (nonlinear_arith);
    lemma_floor_sqrt_is(0, 0);
}

} // verus!
