//! Zooming and scrolling the timeline panel, its scrollbars and its ruler.

use vstd::prelude::*;

use crate::browse::TimelineUiState;
use crate::panel::pixels::{in_pixels, in_zoom, PIXEL, ZOOM_MAX, ZOOM_MIN};
use crate::time::{floor_div, later, max_time};
use crate::timeline::lanes::Timeline;
use crate::timeline::query::is_duration;
use crate::timeline::trim::held;

verus! {

/// A turn of the wheel by less than this does nothing.
pub const WHEEL_SLACK: i64 = 100;

/// No zoom, as a factor in millionths.
pub const NO_ZOOM: i64 = 1_000_000;

/// What the wheel did: a zoom factor in millionths, and how far it turned both ways.
#[derive(Debug, Clone, Copy)]
pub struct Wheel {
    pub zoom_factor: i64,
    pub dx: i64,
    pub dy: i64,
}

/// The rows do not fit: how high they are, and how much of that is shown.
#[derive(Debug, Clone, Copy)]
pub struct Heights {
    pub total: i64,
    pub available: i64,
}

fn clamp(t: i64, low: i64, high: i64) -> (r: i64)
    ensures
        r == held(t as int, low as int, high as int),
{
    if t < low {
        low
    } else if t > high {
        high
    } else {
        t
    }
}

/// The zoom after it has changed by a factor.
pub open spec fn zoomed(zoom: int, factor: int) -> int {
    held(zoom * factor / 1_000_000, ZOOM_MIN as int, ZOOM_MAX as int)
}

/// The scroll offset after the zoom has changed, such that what was under the pointer
/// stays there.
pub open spec fn scroll_kept(scroll: int, x: int, old_zoom: int, new_zoom: int) -> int {
    later((x + scroll) * new_zoom / old_zoom - x, 0)
}

/// The scroll offset after the wheel has turned.
pub open spec fn wheeled(scroll: int, d: int) -> int {
    if d > WHEEL_SLACK || d < -WHEEL_SLACK {
        later(scroll - d, 0)
    } else {
        scroll
    }
}

/// The panel after the wheel was used over it, with the pointer at `x` from the left of
/// the contents.
pub open spec fn wheel_used(ui: TimelineUiState, w: Wheel, x: int, h: Heights) -> TimelineUiState {
    if w.zoom_factor != NO_ZOOM {
        let zoom = zoomed(ui.zoom as int, w.zoom_factor as int);
        TimelineUiState {
            zoom: zoom as i64,
            scroll_offset: scroll_kept(ui.scroll_offset as int, x, ui.zoom as int, zoom) as i64,
            ..ui
        }
    } else {
        let across = wheeled(ui.scroll_offset as int, w.dx as int);
        let turned = w.dy > WHEEL_SLACK || w.dy < -WHEEL_SLACK;
        if h.total > h.available {
            TimelineUiState {
                scroll_offset: across as i64,
                vertical_scroll_offset: if turned {
                    held(
                        ui.vertical_scroll_offset - w.dy,
                        0,
                        later(h.total - h.available, 0),
                    ) as i64
                } else {
                    ui.vertical_scroll_offset
                },
                ..ui
            }
        } else {
            TimelineUiState { scroll_offset: wheeled(across, w.dy as int) as i64, ..ui }
        }
    }
}

/// Zooms or scrolls the panel.
pub fn handle_zoom_scroll(ui: &mut TimelineUiState, w: Wheel, x: i64, h: Heights)
    requires
        in_zoom(old(ui).zoom as int),
        in_pixels(old(ui).scroll_offset as int),
        in_pixels(old(ui).vertical_scroll_offset as int),
        in_pixels(x as int),
        in_pixels(w.dx as int),
        in_pixels(w.dy as int),
        in_pixels(h.total as int),
        in_pixels(h.available as int),
        0 <= w.zoom_factor <= 1_000_000_000_000,
    ensures
        *final(ui) == wheel_used(*old(ui), w, x as int, h),
        in_zoom(final(ui).zoom as int),
{
    if w.zoom_factor != NO_ZOOM {
        let old_zoom: i64 = ui.zoom;
        proof {
            assert(0 <= old_zoom * w.zoom_factor <= 500_000 * 1_000_000_000_000) by (
                nonlinear_arith)
                requires
                    0 <= old_zoom <= 500_000,
                    0 <= w.zoom_factor <= 1_000_000_000_000,
            ;
        }
        let new_zoom: i64 = clamp(
            (old_zoom as i128 * w.zoom_factor as i128 / 1_000_000) as i64,
            ZOOM_MIN,
            ZOOM_MAX,
        );
        let at: i64 = x + ui.scroll_offset;
        proof {
            let n = at * new_zoom;
            assert(-0x0400_0000_0000 * 500_000 <= n <= 0x0400_0000_0000 * 500_000) by (
                nonlinear_arith)
                requires
                    n == at * new_zoom,
                    -0x0400_0000_0000 <= at <= 0x0400_0000_0000,
                    0 <= new_zoom <= 500_000,
            ;
            assert(-0x0400_0000_0000 * 500_000 <= n / (old_zoom as int) <= 0x0400_0000_0000
                * 500_000) by (nonlinear_arith)
                requires
                    -0x0400_0000_0000 * 500_000 <= n <= 0x0400_0000_0000 * 500_000,
                    old_zoom >= 1,
            ;
        }
        let moved: i64 = floor_div(at as i128 * new_zoom as i128, old_zoom as i128) as i64;
        ui.zoom = new_zoom;
        ui.scroll_offset = max_time(moved - x, 0);
    } else {
        if w.dx > WHEEL_SLACK || w.dx < -WHEEL_SLACK {
            ui.scroll_offset = max_time(ui.scroll_offset - w.dx, 0);
        }
        if w.dy > WHEEL_SLACK || w.dy < -WHEEL_SLACK {
            if h.total > h.available {
                let max: i64 = max_time(h.total - h.available, 0);
                ui.vertical_scroll_offset = clamp(ui.vertical_scroll_offset - w.dy, 0, max);
            } else {
                ui.scroll_offset = max_time(ui.scroll_offset - w.dy, 0);
            }
        }
    }
}

/// What is under the pointer when the zoom changes stays under it, up to less than one
/// thousandth of a pixel, unless it would have to move before the beginning.
pub proof fn law_zoom_keeps_pointer(scroll: int, x: int, old_zoom: int, new_zoom: int)
    requires
        0 < old_zoom,
        0 < new_zoom,
        (x + scroll) * new_zoom / old_zoom >= x,
    ensures
        ({
            let s = scroll_kept(scroll, x, old_zoom, new_zoom);
            &&& (x + s) * old_zoom <= (x + scroll) * new_zoom
            &&& (x + scroll) * new_zoom < (x + s + 1) * old_zoom
        }),
{
    let n = (x + scroll) * new_zoom;
    let q = n / old_zoom;
    assert(q * old_zoom <= n < (q + 1) * old_zoom) by (nonlinear_arith)
        requires
            q == n / old_zoom,
            0 < old_zoom,
    ;
}

/// Neither zooming nor scrolling leaves the panel scrolled before the beginning.
pub proof fn law_scroll_not_before_start(ui: TimelineUiState, w: Wheel, x: int, h: Heights)
    requires
        ui.scroll_offset >= 0,
        ui.vertical_scroll_offset >= 0,
        in_pixels(ui.scroll_offset as int),
        in_pixels(ui.vertical_scroll_offset as int),
        in_pixels(w.dx as int),
        in_pixels(w.dy as int),
        in_pixels(h.total as int),
        in_pixels(h.available as int),
        w.zoom_factor == NO_ZOOM,
    ensures
        wheel_used(ui, w, x, h).scroll_offset >= 0,
        wheel_used(ui, w, x, h).vertical_scroll_offset >= 0,
{
}

/// The shortest thumb of a scrollbar.
pub const SHORTEST_THUMB: i64 = 20_000;

/// How long the thumb of a scrollbar is: the share of the whole that is shown, though
/// never less than a twentieth.
pub open spec fn thumb_length(shown: int, total: int) -> int {
    later(held(shown * shown / total, shown / 20, shown), SHORTEST_THUMB as int)
}

/// How far the thumb of a scrollbar is from its beginning.
pub open spec fn thumb_offset(shown: int, total: int, scroll: int) -> int {
    scroll * (shown - thumb_length(shown, total)) / later(total - shown, PIXEL as int)
}

/// The scroll offset for a pointer on a scrollbar.
pub open spec fn scroll_at(x: int, shown: int, farthest: int) -> int {
    held(x, 0, shown) * farthest / shown
}

/// The panel can be scrolled to this point at least.
pub const SHORTEST_SHOWN: i64 = 10_000_000_000;

/// The panel can be scrolled this far past the last clip.
pub const SHOWN_BEYOND: i64 = 5_000_000_000;

/// How far the panel can be scrolled in time.
pub fn shown_duration(timeline: &Timeline) -> (r: i64)
    requires
        timeline@.fits(),
    ensures
        exists|end: int| #[trigger]
            is_duration(timeline@.tracks(), end) && r == later(end, SHORTEST_SHOWN as int)
                + SHOWN_BEYOND,
{
    let end: i64 = timeline.timeline_duration();
    assert(is_duration(timeline@.tracks(), end as int));
    max_time(end, SHORTEST_SHOWN) + SHOWN_BEYOND
}

/// No scrollbar is longer.
pub const SCREEN_LIMIT: i64 = 1_000_000_000;

/// Where the thumb of a scrollbar is: how far from its beginning, and how long.
pub fn scrollbar_thumb(shown: i64, total: i64, scroll: i64) -> (r: (i64, i64))
    requires
        0 < shown <= SCREEN_LIMIT,
        0 < total <= 0x10_0000_0000_0000,
        in_pixels(scroll as int),
    ensures
        r.1 == thumb_length(shown as int, total as int),
        r.0 == thumb_offset(shown as int, total as int, scroll as int),
{
    proof {
        assert(0 <= shown * shown <= 1_000_000_000 * 1_000_000_000) by (nonlinear_arith)
            requires
                0 <= shown <= 1_000_000_000,
        ;
    }
    let share: i128 = shown as i128 * shown as i128 / total as i128;
    let low: i64 = shown / 20;
    let held_share: i64 = if share < low as i128 {
        low
    } else if share > shown as i128 {
        shown
    } else {
        share as i64
    };
    let length: i64 = max_time(held_share, SHORTEST_THUMB);
    let rest: i64 = max_time(total - shown, PIXEL);
    let free: i64 = shown - length;
    proof {
        lemma_offset_fits(scroll as int, free as int, rest as int, shown as int);
    }
    let offset: i64 = floor_div(scroll as i128 * free as i128, rest as i128) as i64;
    (offset, length)
}

proof fn lemma_offset_fits(scroll: int, free: int, rest: int, shown: int)
    requires
        in_pixels(scroll),
        -SHORTEST_THUMB <= free <= shown,
        0 < shown <= SCREEN_LIMIT,
        rest >= PIXEL,
    ensures
        i64::MIN <= scroll * free / rest <= i64::MAX,
        -0x0200_0000_0000 * 1_000_000_000 <= scroll * free <= 0x0200_0000_0000 * 1_000_000_000,
{
    let n = scroll * free;
    assert(-0x0200_0000_0000 * 1_000_000_000 <= n <= 0x0200_0000_0000 * 1_000_000_000) by (
        nonlinear_arith)
        requires
            n == scroll * free,
            -0x0200_0000_0000 <= scroll <= 0x0200_0000_0000,
            -1_000_000_000 <= free <= 1_000_000_000,
    ;
    assert(-0x4000_0000_0000_0000 <= n / rest <= 0x4000_0000_0000_0000) by (nonlinear_arith)
        requires
            -0x0200_0000_0000 * 1_000_000_000 <= n <= 0x0200_0000_0000 * 1_000_000_000,
            rest >= 1000,
    ;
}

/// The scroll offset for a pointer on a scrollbar.
pub fn scroll_from_pointer(x: i64, shown: i64, farthest: i64) -> (r: i64)
    requires
        0 < shown,
        0 <= farthest,
    ensures
        r == scroll_at(x as int, shown as int, farthest as int),
        0 <= r <= farthest,
{
    let at: i64 = clamp(x, 0, shown);
    proof {
        let n = at * farthest;
        assert(0 <= n <= shown * farthest) by (nonlinear_arith)
            requires
                n == at * farthest,
                0 <= at <= shown,
                0 <= farthest,
        ;
        assert(0 <= n / (shown as int) <= farthest) by (nonlinear_arith)
            requires
                0 <= n <= shown * farthest,
                0 < shown,
        ;
        assert(shown * farthest <= 0x7fff_ffff_ffff_ffff * 0x7fff_ffff_ffff_ffff) by (
            nonlinear_arith)
            requires
                0 < shown <= 0x7fff_ffff_ffff_ffff,
                0 <= farthest <= 0x7fff_ffff_ffff_ffff,
        ;
    }
    (at as i128 * farthest as i128 / shown as i128) as i64
}

/// At the ends of the scrollbar the panel is scrolled to its ends.
pub proof fn law_scrollbar_ends(shown: int, farthest: int)
    requires
        0 < shown,
        0 <= farthest,
    ensures
        scroll_at(0, shown, farthest) == 0,
        scroll_at(shown, shown, farthest) == farthest,
{
    assert(0 * farthest == 0) by (nonlinear_arith);
    assert((shown * farthest) / shown == farthest) by (nonlinear_arith)
        requires
            0 < shown,
    ;
}

/// The first second that the ruler marks.
pub open spec fn first_mark(scroll: int, zoom: int) -> int {
    later(scroll / zoom, 0)
}

/// The second after the last one that the ruler marks.
pub open spec fn end_mark(scroll: int, width: int, zoom: int) -> int {
    -(-(scroll + width) / zoom) + 1
}

/// Where the ruler marks a second.
pub open spec fn mark_at(left: int, s: int, zoom: int, scroll: int) -> int {
    left + s * zoom - scroll
}

/// The seconds that the ruler marks, in their order.
pub fn ruler_marks(scroll: i64, width: i64, zoom: i64) -> (r: Vec<i64>)
    requires
        in_zoom(zoom as int),
        in_pixels(scroll as int),
        in_pixels(width as int),
    ensures
        ({
            let a = first_mark(scroll as int, zoom as int);
            let b = end_mark(scroll as int, width as int, zoom as int);
            &&& r@.len() == later(b - a, 0)
            &&& forall|i: int| 0 <= i < r@.len() ==> #[trigger] r@[i] == a + i
        }),
{
    let first: i64 = max_time(floor_div(scroll as i128, zoom as i128) as i64, 0);
    let back: i64 = -(scroll + width);
    proof {
        assert(-0x0400_0000_0000 <= back as int / zoom as int <= 0x0400_0000_0000) by (
            nonlinear_arith)
            requires
                -0x0400_0000_0000 <= back <= 0x0400_0000_0000,
                zoom >= 1,
        ;
        assert(-0x0400_0000_0000 <= scroll as int / zoom as int <= 0x0400_0000_0000) by (
            nonlinear_arith)
            requires
                -0x0400_0000_0000 <= scroll <= 0x0400_0000_0000,
                zoom >= 1,
        ;
    }
    let end: i64 = -(floor_div(back as i128, zoom as i128) as i64) + 1;
    let mut out: Vec<i64> = Vec::new();
    let mut s: i64 = first;
    while s < end
        invariant
            0 <= first <= s,
            s <= end || s == first,
            end <= 0x0800_0000_0000,
            out@.len() == s - first,
            forall|i: int| 0 <= i < out@.len() ==> #[trigger] out@[i] == first + i,
        decreases end - s,
    {
        out.push(s);
        s += 1;
    }
    out
}

/// Every mark is on the ruler, or less than the length of a second beside it.
pub proof fn law_marks_are_near(left: int, scroll: int, width: int, zoom: int, s: int)
    requires
        0 < zoom,
        0 <= scroll,
        first_mark(scroll, zoom) <= s < end_mark(scroll, width, zoom),
    ensures
        left - zoom < mark_at(left, s, zoom, scroll) < left + width + zoom,
{
    let q = scroll / zoom;
    assert(q * zoom <= scroll < (q + 1) * zoom) by (nonlinear_arith)
        requires
            q == scroll / zoom,
            0 < zoom,
    ;
    let n = -(scroll + width);
    let k = n / zoom;
    assert(k * zoom <= n < (k + 1) * zoom) by (nonlinear_arith)
        requires
            k == n / zoom,
            0 < zoom,
    ;
    assert(s * zoom >= q * zoom) by (nonlinear_arith)
        requires
            s >= q,
            0 < zoom,
    ;
    assert((q + 1) * zoom == q * zoom + zoom) by (nonlinear_arith);
    assert((k + 1) * zoom == k * zoom + zoom) by (nonlinear_arith);
    assert(s * zoom <= -k * zoom) by (nonlinear_arith)
        requires
            s <= -k,
            0 < zoom,
    ;
    assert(-k * zoom == -(k * zoom)) by (nonlinear_arith);
}

/// The wheel zooms by its factor, in millionths, between a least and a greatest zoom.
pub proof fn law_zoom_stays_in_range(zoom: int, factor: int)
    requires
        0 <= zoom,
        0 <= factor,
    ensures
        20_000 <= zoomed(zoom, factor) <= 500_000,
        20_000_000_000 <= zoom * factor < 500_000_000_000 ==> zoomed(zoom, factor) * 1_000_000 <= zoom
            * factor < (zoomed(zoom, factor) + 1) * 1_000_000,
        zoom * factor >= 500_000_000_000 ==> zoomed(zoom, factor) == 500_000,
        zoom * factor < 20_000_000_000 ==> zoomed(zoom, factor) == 20_000,
{
}

/// A wheel that does not zoom moves the timeline the other way by as much as it turned,
/// but not before its beginning; a turn too small to count moves nothing. Up and down it
/// moves the tracks where they do not all fit, and along the timeline where they do.
pub proof fn law_wheel_moves_the_timeline(ui: TimelineUiState, w: Wheel, x: int, h: Heights)
    requires
        ui.scroll_offset >= 0,
        ui.vertical_scroll_offset >= 0,
        in_pixels(ui.scroll_offset as int),
        in_pixels(ui.vertical_scroll_offset as int),
        in_pixels(w.dx as int),
        in_pixels(w.dy as int),
        in_pixels(h.total as int),
        in_pixels(h.available as int),
        w.zoom_factor == 1_000_000,
        -100 <= w.dx <= 100 || -100 <= w.dy <= 100,
    ensures
        ({
            let r = wheel_used(ui, w, x, h);
            let across = -100 <= w.dy <= 100;
            let fits = h.total <= h.available;
            &&& r.zoom == ui.zoom
            &&& across && (w.dx > 100 || w.dx < -100) && w.dx <= ui.scroll_offset
                ==> r.scroll_offset == ui.scroll_offset - w.dx
            &&& across && w.dx > 100 && w.dx > ui.scroll_offset ==> r.scroll_offset == 0
            &&& across && -100 <= w.dx <= 100 ==> r == ui
            &&& fits ==> r.vertical_scroll_offset == ui.vertical_scroll_offset
            &&& fits && !across && w.dy <= ui.scroll_offset ==> r.scroll_offset == ui.scroll_offset
                - w.dy
            &&& !fits && !across ==> r.scroll_offset == ui.scroll_offset
                && r.vertical_scroll_offset <= h.total - h.available && (0
                <= ui.vertical_scroll_offset - w.dy <= h.total - h.available
                ==> r.vertical_scroll_offset == ui.vertical_scroll_offset - w.dy)
        }),
{
}

/// The thumb of the scrollbar begins at its beginning where nothing is scrolled, ends at
/// its end where all is, and is no longer than the bar unless the bar is very short.
pub proof fn law_thumb_goes_from_end_to_end(shown: int, total: int)
    requires
        20_000 <= shown,
        shown + 1000 <= total,
    ensures
        thumb_offset(shown, total, 0) == 0,
        thumb_offset(shown, total, total - shown) + thumb_length(shown, total) == shown,
        20_000 <= thumb_length(shown, total) <= shown,
{
    let len = thumb_length(shown, total);
    let way = shown - len;
    let all = total - shown;
    assert(0 * way == 0) by (nonlinear_arith);
    vstd::arithmetic::div_mod::lemma_div_basics(all);
    assert(all * way == way * all) by (nonlinear_arith);
    vstd::arithmetic::div_mod::lemma_div_multiples_vanish(way, all);
}

} // verus!
