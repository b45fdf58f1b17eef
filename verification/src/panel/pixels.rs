//! Time along the timeline, as it is drawn.

use vstd::prelude::*;

use crate::time::{floor_div, in_time, later, SECOND};

verus! {

/// The smallest zoom.
pub const ZOOM_MIN: i64 = 20_000;

/// The largest zoom.
pub const ZOOM_MAX: i64 = 500_000;

/// One pixel.
pub const PIXEL: i64 = 1000;

/// No length on screen is longer.
pub const PIXEL_LIMIT: i64 = 0x0200_0000_0000;

/// A length is one that can be on screen.
pub open spec fn in_pixels(x: int) -> bool {
    -PIXEL_LIMIT <= x <= PIXEL_LIMIT
}

/// A zoom is within its limits.
pub open spec fn in_zoom(zoom: int) -> bool {
    ZOOM_MIN <= zoom <= ZOOM_MAX
}

/// How long some time is on screen.
pub open spec fn length_of(t: int, zoom: int) -> int {
    t * zoom / (SECOND as int)
}

/// The time at a distance from the beginning of the timeline; none lies before that.
pub open spec fn time_along(x: int, zoom: int) -> int {
    later(x * SECOND / zoom, 0)
}

/// How long some time is on screen.
pub fn px_of_time(t: i64, zoom: i64) -> (r: i64)
    requires
        in_time(t as int),
        in_zoom(zoom as int),
    ensures
        r == length_of(t as int, zoom as int),
        -0x4_0000_0000_0000 <= r <= 0x4_0000_0000_0000,
{
    proof {
        assert(-0x1000_0000_0000_0000 * 500_000 <= t * zoom <= 0x1000_0000_0000_0000 * 500_000)
            by (nonlinear_arith)
            requires
                -0x1000_0000_0000_0000 <= t <= 0x1000_0000_0000_0000,
                0 <= zoom <= 500_000,
        ;
    }
    floor_div(t as i128 * zoom as i128, 1_000_000_000) as i64
}

/// The time at a distance from the beginning of the timeline.
pub fn time_at_px(x: i64, zoom: i64) -> (r: i64)
    requires
        -4 * PIXEL_LIMIT <= x <= 4 * PIXEL_LIMIT,
        in_zoom(zoom as int),
    ensures
        r == time_along(x as int, zoom as int),
        0 <= r <= 440_000_000_000_000_000,
{
    if x <= 0 {
        proof {
            assert(x * SECOND / zoom as int <= 0) by (nonlinear_arith)
                requires
                    x <= 0,
                    zoom > 0,
                    SECOND == 1_000_000_000,
            ;
        }
        return 0;
    }
    proof {
        assert(0 <= x * SECOND <= 0x0800_0000_0000 * 1_000_000_000) by (nonlinear_arith)
            requires
                0 < x <= 0x0800_0000_0000,
                SECOND == 1_000_000_000,
        ;
        let n = x * SECOND;
        assert(0 <= n / (zoom as int) <= 440_000_000_000_000_000) by (nonlinear_arith)
            requires
                0 <= n <= 0x0800_0000_0000 * 1_000_000_000,
                zoom >= 20_000,
        ;
    }
    (x as i128 * 1_000_000_000 / zoom as i128) as i64
}

/// The pointer on the place where a time is drawn means that time, short of it by less
/// than what a thousandth of a pixel stands for.
pub proof fn law_pointer_finds_time(t: int, zoom: int)
    requires
        0 <= t,
        0 < zoom,
    ensures
        time_along(length_of(t, zoom), zoom) <= t,
        (t - time_along(length_of(t, zoom), zoom)) * zoom < SECOND + zoom,
{
    let x = t * zoom / (SECOND as int);
    assert(0 <= t * zoom) by (nonlinear_arith)
        requires
            0 <= t,
            0 < zoom,
    ;
    assert(x * SECOND <= t * zoom < (x + 1) * SECOND);
    let n = x * SECOND;
    let q = n / zoom;
    assert(q * zoom <= n < (q + 1) * zoom) by (nonlinear_arith)
        requires
            q == n / zoom,
            0 < zoom,
    ;
    assert(q <= t) by (nonlinear_arith)
        requires
            q * zoom <= n,
            n <= t * zoom,
            0 < zoom,
    ;
    assert(q >= 0) by (nonlinear_arith)
        requires
            n >= 0,
            n < (q + 1) * zoom,
            0 < zoom,
    ;
    assert((t - q) * zoom == t * zoom - q * zoom) by (nonlinear_arith);
    assert((q + 1) * zoom == q * zoom + zoom) by (nonlinear_arith);
}

/// Later times are drawn no further to the left.
pub proof fn law_time_is_drawn_in_order(a: int, b: int, zoom: int)
    requires
        a <= b,
        0 < zoom,
    ensures
        length_of(a, zoom) <= length_of(b, zoom),
{
    assert(a * zoom <= b * zoom) by (nonlinear_arith)
        requires
            a <= b,
            0 < zoom,
    ;
}

} // verus!
