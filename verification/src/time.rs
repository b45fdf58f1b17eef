//! Time is counted in whole nanoseconds, as the media clock counts it.

use vstd::prelude::*;

verus! {

/// Nanoseconds in one second.
pub const SECOND: i64 = 1_000_000_000;

/// Nanoseconds in one millisecond.
pub const MILLI: i64 = 1_000_000;

/// The largest magnitude of a point in time or of a length of time: 2^60
/// nanoseconds, about thirty-six years. Sums of a few such values fit in `i64`.
pub const TIME_LIMIT: i64 = 1_152_921_504_606_846_976;

/// `t` lies within the limits that the arithmetic of this crate is proved for.
pub open spec fn in_time(t: int) -> bool {
    -TIME_LIMIT <= t <= TIME_LIMIT
}

/// The later of two points in time.
pub open spec fn later(a: int, b: int) -> int {
    if a >= b {
        a
    } else {
        b
    }
}

/// The earlier of two points in time.
pub open spec fn earlier(a: int, b: int) -> int {
    if a <= b {
        a
    } else {
        b
    }
}

/// The larger of `a` and `b`.
pub fn max_time(a: i64, b: i64) -> (r: i64)
    ensures
        r == later(a as int, b as int),
{
    if a >= b {
        a
    } else {
        b
    }
}

/// The smaller of `a` and `b`.
pub fn min_time(a: i64, b: i64) -> (r: i64)
    ensures
        r == earlier(a as int, b as int),
{
    if a <= b {
        a
    } else {
        b
    }
}

/// `a` divided by `b`, rounded down.
pub fn floor_div(a: i128, b: i128) -> (r: i128)
    requires
        0 < b,
        i128::MIN < a,
    ensures
        r == a as int / b as int,
{
    if a >= 0 {
        a / b
    } else {
        let up: i128 = -a / b;
        proof {
            vstd::arithmetic::div_mod::lemma_fundamental_div_mod(-(a as int), b as int);
        }
        if -a % b == 0 {
            proof {
                assert(a as int == b as int * -(up as int)) by (nonlinear_arith)
                    requires
                        -(a as int) == b as int * up as int,
                ;
                assert(a as int == -(up as int) * b as int) by (nonlinear_arith)
                    requires
                        a as int == b as int * -(up as int),
                ;
                vstd::arithmetic::div_mod::lemma_fundamental_div_mod_converse(
                    a as int,
                    b as int,
                    -(up as int),
                    0,
                );
            }
            -up
        } else {
            proof {
                let q = -(up as int) - 1;
                let m = b as int - (-(a as int)) % (b as int);
                assert(a as int == b as int * q + m) by (nonlinear_arith)
                    requires
                        -(a as int) == b as int * up as int + (-(a as int)) % (b as int),
                        q == -(up as int) - 1,
                        m == b as int - (-(a as int)) % (b as int),
                ;
                vstd::arithmetic::div_mod::lemma_fundamental_div_mod_converse(
                    a as int,
                    b as int,
                    q,
                    m,
                );
                assert(up <= -a) by (nonlinear_arith)
                    requires
                        -(a as int) == b as int * up as int + (-(a as int)) % (b as int),
                        (-(a as int)) % (b as int) >= 0,
                        b >= 1,
                        up >= 0,
                ;
            }
            -up - 1
        }
    }
}

} // verus!
