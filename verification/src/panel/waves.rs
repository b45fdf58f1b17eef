//! Waveforms and thumbnails, as they are drawn on clips.

use vstd::prelude::*;

use crate::audio::sample::FULL_SCALE;
use crate::panel::pixels::PIXEL;
use crate::panel::view::SCREEN_LIMIT;
use crate::time::{floor_div, later};
use crate::timeline::trim::held;

verus! {

/// The place among `len` peaks of a position in a file that lasts `total`.
pub open spec fn peak_place(position: int, total: int, len: int) -> int {
    held(position * len / total, 0, len)
}

/// The part of the file that a clip shows does not end before it begins, as far as its
/// peaks tell.
pub open spec fn peaks_in_order(
    len: int,
    source_in: int,
    source_out: int,
    source_duration: Option<i64>,
) -> bool {
    source_duration matches Some(total) ==> total > 0 ==> peak_place(source_in, total as int, len)
        <= peak_place(source_out, total as int, len)
}

/// Whether a clip shows peaks that follow on one another.
pub fn has_peak_slice(
    len: usize,
    source_in: i64,
    source_out: i64,
    source_duration: Option<i64>,
) -> (r: bool)
    ensures
        r == peaks_in_order(len as int, source_in as int, source_out as int, source_duration),
{
    match source_duration {
        Some(total) => total <= 0 || find_peak(source_in, total, len) <= find_peak(
            source_out,
            total,
            len,
        ),
        None => true,
    }
}

/// Which peaks of a file a clip shows: from the first to before the second place. All,
/// where the file's duration is not known.
pub fn visible_peak_slice(
    len: usize,
    source_in: i64,
    source_out: i64,
    source_duration: Option<i64>,
) -> (r: (usize, usize))
    requires
        peaks_in_order(len as int, source_in as int, source_out as int, source_duration),
    ensures
        r.0 <= r.1 <= len,
        (r.0 as int, r.1 as int) == match source_duration {
            Some(total) => if total > 0 {
                (
                    peak_place(source_in as int, total as int, len as int),
                    peak_place(source_out as int, total as int, len as int),
                )
            } else {
                (0, len as int)
            },
            None => (0, len as int),
        },
{
    match source_duration {
        Some(total) => {
            if total > 0 {
                let start: usize = find_peak(source_in, total, len);
                let end: usize = find_peak(source_out, total, len);
                (start, end)
            } else {
                (0, len)
            }
        },
        None => (0, len),
    }
}

/// A clip whose source window is in order shows peaks that are.
pub proof fn law_window_has_peaks(
    len: int,
    source_in: int,
    source_out: int,
    source_duration: Option<i64>,
)
    requires
        0 <= len,
        source_in <= source_out,
    ensures
        peaks_in_order(len, source_in, source_out, source_duration),
{
    if let Some(total) = source_duration {
        if total > 0 {
            let a = source_in * len;
            let b = source_out * len;
            assert(a <= b) by (nonlinear_arith)
                requires
                    a == source_in * len,
                    b == source_out * len,
                    source_in <= source_out,
                    len >= 0,
            ;
            assert(a / (total as int) <= b / (total as int)) by (nonlinear_arith)
                requires
                    a <= b,
                    total > 0,
            ;
        }
    }
}

fn find_peak(position: i64, total: i64, len: usize) -> (r: usize)
    requires
        0 < total,
    ensures
        r == peak_place(position as int, total as int, len as int),
        r <= len,
{
    proof {
        assert(-0x8000_0000_0000_0000 * 0xffff_ffff_ffff_ffff <= position * len
            <= 0x8000_0000_0000_0000 * 0xffff_ffff_ffff_ffff) by (nonlinear_arith)
            requires
                -0x8000_0000_0000_0000 <= position <= 0x8000_0000_0000_0000,
                0 <= len <= 0xffff_ffff_ffff_ffff,
        ;
    }
    let at: i128 = floor_div(position as i128 * len as i128, total as i128);
    if at < 0 {
        0
    } else if at > len as i128 {
        len
    } else {
        at as usize
    }
}

/// How many bars of a waveform are drawn: one for each pixel at most, and one for each
/// peak at most.
pub open spec fn bar_count(width: int, peaks: int) -> int {
    let px = width / (PIXEL as int);
    later(
        if px < peaks {
            px
        } else {
            peaks
        },
        1,
    )
}

/// The peak that a bar shows.
pub open spec fn bar_peak(bar: int, bars: int, peaks: int) -> int {
    bar * peaks / bars
}

/// The peaks that the bars of a waveform show, in their order. None where there are no
/// peaks.
pub fn waveform_bars(width: i64, peaks: usize) -> (r: Vec<usize>)
    requires
        0 <= width <= SCREEN_LIMIT,
    ensures
        r@.len() == if peaks == 0 {
            0
        } else {
            bar_count(width as int, peaks as int)
        },
        forall|i: int|
            0 <= i < r@.len() ==> #[trigger] r@[i] == bar_peak(
                i,
                bar_count(width as int, peaks as int),
                peaks as int,
            ) && r@[i] < peaks,
{
    let mut out: Vec<usize> = Vec::new();
    if peaks == 0 {
        return out;
    }
    let px: usize = (width / PIXEL) as usize;
    let fewer: usize = if px < peaks {
        px
    } else {
        peaks
    };
    let bars: usize = if fewer < 1 {
        1
    } else {
        fewer
    };
    let mut i: usize = 0;
    while i < bars
        invariant
            i <= bars,
            0 < bars <= 1_000_000,
            0 < peaks,
            bars == bar_count(width as int, peaks as int),
            out@.len() == i,
            forall|k: int|
                0 <= k < i ==> #[trigger] out@[k] == bar_peak(k, bars as int, peaks as int)
                    && out@[k] < peaks,
        decreases bars - i,
    {
        proof {
            let n = i * peaks;
            assert(0 <= n <= 1_000_000 * 0xffff_ffff_ffff_ffff) by (nonlinear_arith)
                requires
                    n == i * peaks,
                    0 <= i <= 1_000_000,
                    0 <= peaks <= 0xffff_ffff_ffff_ffff,
            ;
            assert(n / (bars as int) < peaks) by (nonlinear_arith)
                requires
                    n == i * peaks,
                    0 <= i < bars,
                    0 < peaks,
            ;
            assert(0 <= n / (bars as int)) by (nonlinear_arith)
                requires
                    0 <= n,
                    0 < bars,
            ;
        }
        let at: u128 = i as u128 * peaks as u128 / bars as u128;
        out.push(at as usize);
        i += 1;
    }
    out
}

/// The size of a sample, whatever its sign.
pub open spec fn loudness(s: i32) -> int {
    if s < 0 {
        -(s as int)
    } else {
        s as int
    }
}

/// How far a bar reaches from the middle: as far as the sample is loud, and never less
/// than a pixel.
pub open spec fn bar_reach(loud: int, half_height: int) -> int {
    later(loud * half_height / (FULL_SCALE as int), PIXEL as int)
}

fn reach_of(loud: i64, half_height: i64) -> (r: i64)
    requires
        0 <= loud <= 0x8000_0000,
        0 <= half_height <= SCREEN_LIMIT,
    ensures
        r == bar_reach(loud as int, half_height as int),
{
    proof {
        assert(0 <= loud * half_height <= 0x8000_0000 * 1_000_000_000) by (nonlinear_arith)
            requires
                0 <= loud <= 0x8000_0000,
                0 <= half_height <= 1_000_000_000,
        ;
    }
    let at: i64 = loud * half_height / (FULL_SCALE as i64);
    if at >= PIXEL {
        at
    } else {
        PIXEL
    }
}

fn loud(s: i32) -> (r: i64)
    ensures
        r == loudness(s),
        0 <= r <= 0x8000_0000,
{
    let v: i64 = s as i64;
    if v < 0 {
        -v
    } else {
        v
    }
}

/// How far the bar of a peak reaches up and down from the middle: up by the louder of
/// its two samples, down by its lower one.
pub fn bar_extent(peak: (i32, i32), half_height: i64) -> (r: (i64, i64))
    requires
        0 <= half_height <= SCREEN_LIMIT,
    ensures
        r.0 == bar_reach(
            later(loudness(peak.1), loudness(peak.0)),
            half_height as int,
        ),
        r.1 == bar_reach(loudness(peak.0), half_height as int),
{
    let low: i64 = loud(peak.0);
    let high: i64 = loud(peak.1);
    let louder: i64 = if high >= low {
        high
    } else {
        low
    };
    (reach_of(louder, half_height), reach_of(low, half_height))
}

/// A bar never ends on the wrong side of the middle, and reaches up at least as far as
/// down.
pub proof fn law_bar_stands_on_middle(a: int, b: int, half_height: int)
    requires
        0 <= a <= b,
        0 <= half_height,
    ensures
        PIXEL <= bar_reach(a, half_height) <= bar_reach(b, half_height),
{
    assert(a * half_height <= b * half_height) by (nonlinear_arith)
        requires
            0 <= a <= b,
            0 <= half_height,
    ;
}

/// The most peaks that are drawn at once.
pub const MAX_PEAKS: usize = 2048;

/// How many peaks are drawn, and how many corners that takes: six for each bar, and six
/// for the ground.
pub fn waveform_vertices(peaks: usize) -> (r: (usize, u32))
    ensures
        r.0 == if peaks < MAX_PEAKS {
            peaks
        } else {
            MAX_PEAKS
        },
        r.1 == r.0 * 6 + 6,
{
    let n: usize = if peaks < MAX_PEAKS {
        peaks
    } else {
        MAX_PEAKS
    };
    (n, n as u32 * 6 + 6)
}

/// The part of a picture that is shown, in millionths of its width and height.
#[derive(Debug, Clone, Copy, PartialEq, Eq, Structural)]
pub struct Crop {
    pub left: i64,
    pub top: i64,
    pub right: i64,
    pub bottom: i64,
}

/// The whole of a picture.
pub const WHOLE: i64 = 1_000_000;

/// The margin on both sides where only `part` of `whole` is shown, in millionths.
pub open spec fn margin(part: int, whole: int) -> int {
    (WHOLE - WHOLE * part / whole) / 2
}

/// The middle of a picture in the shape of the place where it is drawn.
pub open spec fn cropped(tex_w: int, tex_h: int, w: int, h: int) -> Crop {
    if tex_w == 0 || tex_h == 0 || w == 0 || h == 0 {
        Crop { left: 0, top: 0, right: WHOLE, bottom: WHOLE }
    } else if w * tex_h > tex_w * h {
        let m = margin(tex_w * h, tex_h * w);
        Crop { left: 0, top: m as i64, right: WHOLE, bottom: (WHOLE - m) as i64 }
    } else {
        let m = margin(tex_h * w, tex_w * h);
        Crop { left: m as i64, top: 0, right: (WHOLE - m) as i64, bottom: WHOLE }
    }
}

proof fn lemma_margin(part: int, whole: int)
    requires
        0 <= part <= whole,
        0 < whole,
    ensures
        0 <= margin(part, whole) <= WHOLE / 2,
        0 <= WHOLE * part / whole <= WHOLE,
{
    assert(0 <= WHOLE * part / whole <= WHOLE) by (nonlinear_arith)
        requires
            WHOLE == 1_000_000,
            0 <= part <= whole,
            0 < whole,
    ;
}

fn find_margin(part: u128, whole: u128) -> (r: i64)
    requires
        part <= whole,
        0 < whole <= 0x1_0000_0000_0000_0000_0000,
    ensures
        r == margin(part as int, whole as int),
        0 <= r <= WHOLE / 2,
{
    proof {
        lemma_margin(part as int, whole as int);
    }
    let shown: u128 = 1_000_000 * part / whole;
    (WHOLE - shown as i64) / 2
}

/// The middle of a picture in the shape of the place where it is drawn.
pub fn center_crop_uv(tex_w: u32, tex_h: u32, w: u32, h: u32) -> (r: Crop)
    ensures
        r == cropped(tex_w as int, tex_h as int, w as int, h as int),
{
    if tex_w == 0 || tex_h == 0 || w == 0 || h == 0 {
        return Crop { left: 0, top: 0, right: WHOLE, bottom: WHOLE };
    }
    proof {
        assert(0 < w * tex_h <= 0xffff_ffff * 0xffff_ffff) by (nonlinear_arith)
            requires
                0 < w <= 0xffff_ffff,
                0 < tex_h <= 0xffff_ffff,
        ;
        assert(0 < tex_w * h <= 0xffff_ffff * 0xffff_ffff) by (nonlinear_arith)
            requires
                0 < tex_w <= 0xffff_ffff,
                0 < h <= 0xffff_ffff,
        ;
        assert(w * tex_h == tex_h * w) by (nonlinear_arith);
    }
    let wide: u128 = w as u128 * tex_h as u128;
    let high: u128 = tex_w as u128 * h as u128;
    if wide > high {
        let m: i64 = find_margin(high, wide);
        Crop { left: 0, top: m, right: WHOLE, bottom: WHOLE - m }
    } else {
        let m: i64 = find_margin(wide, high);
        Crop { left: m, top: 0, right: WHOLE - m, bottom: WHOLE }
    }
}

/// A crop lies within the picture, around its middle, and leaves one of its sides
/// whole.
pub proof fn law_crop_is_centred(tex_w: int, tex_h: int, w: int, h: int)
    requires
        0 <= tex_w,
        0 <= tex_h,
        0 <= w,
        0 <= h,
    ensures
        ({
            let c = cropped(tex_w, tex_h, w, h);
            &&& 0 <= c.left <= c.right <= WHOLE
            &&& 0 <= c.top <= c.bottom <= WHOLE
            &&& c.left + c.right == WHOLE
            &&& c.top + c.bottom == WHOLE
            &&& c.left == 0 || c.top == 0
        }),
{
    if !(tex_w == 0 || tex_h == 0 || w == 0 || h == 0) {
        assert(0 < w * tex_h) by (nonlinear_arith)
            requires
                0 < w,
                0 < tex_h,
        ;
        assert(0 < tex_w * h) by (nonlinear_arith)
            requires
                0 < tex_w,
                0 < h,
        ;
        assert(w * tex_h == tex_h * w) by (nonlinear_arith);
        if w * tex_h > tex_w * h {
            lemma_margin(tex_w * h, tex_h * w);
        } else {
            lemma_margin(tex_h * w, tex_w * h);
        }
    }
}

/// A bar of a waveform reaches as far from the middle as its sound is loud, with full
/// scale as far as there is room, but never less than a pixel; and the bars go through the
/// peaks from the first on, none beyond the last.
pub proof fn law_bars_are_as_high_as_loud(loud: int, half_height: int, bar: int, bars: int, peaks: int)
    requires
        0 <= loud,
        0 <= half_height,
        0 < bars <= peaks,
        0 <= bar < bars,
    ensures
        bar_reach(loud, half_height) > 1000 ==> bar_reach(loud, half_height) * FULL_SCALE <= loud
            * half_height < (bar_reach(loud, half_height) + 1) * FULL_SCALE,
        loud * half_height >= 1000 * FULL_SCALE ==> bar_reach(loud, half_height) >= 1000
            && bar_reach(loud, half_height) * FULL_SCALE <= loud * half_height,
        0 <= bar_peak(bar, bars, peaks) < peaks,
        bar_peak(0, bars, peaks) == 0,
        bar_peak(bar, bars, peaks) * bars <= bar * peaks < (bar_peak(bar, bars, peaks) + 1) * bars,
{
    let x = bar * peaks;
    vstd::arithmetic::div_mod::lemma_fundamental_div_mod(x, bars);
    vstd::arithmetic::div_mod::lemma_mod_bound(x, bars);
    let q = x / bars;
    assert(q * bars == bars * q && (q + 1) * bars == bars * q + bars) by (nonlinear_arith);
    assert(0 <= q < peaks) by (nonlinear_arith)
        requires
            x == bars * q + x % bars,
            0 <= x % bars < bars,
            x == bar * peaks,
            0 <= bar <= bars - 1,
            0 < peaks,
            0 < bars,
    ;
    assert(0 * peaks == 0) by (nonlinear_arith);
    vstd::arithmetic::div_mod::lemma_div_basics(bars);
    assert(loud * half_height >= 0) by (nonlinear_arith)
        requires
            0 <= loud,
            0 <= half_height,
    ;
}

/// A position in a file is as far along its peaks as it is along the file.
pub proof fn law_peaks_are_spread_over_the_file(position: int, total: int, len: int)
    requires
        0 <= position <= total,
        0 < total,
        0 <= len,
    ensures
        peak_place(position, total, len) * total <= position * len < (peak_place(
            position,
            total,
            len,
        ) + 1) * total,
        peak_place(0, total, len) == 0,
        peak_place(total, total, len) == len,
{
    let x = position * len;
    vstd::arithmetic::div_mod::lemma_fundamental_div_mod(x, total);
    vstd::arithmetic::div_mod::lemma_mod_bound(x, total);
    let q = x / total;
    assert(q * total == total * q && (q + 1) * total == total * q + total) by (nonlinear_arith);
    assert(0 <= q <= len) by (nonlinear_arith)
        requires
            x == total * q + x % total,
            0 <= x % total < total,
            x == position * len,
            0 <= position <= total,
            0 <= len,
            0 < total,
    ;
    assert(0 * len == 0) by (nonlinear_arith);
    vstd::arithmetic::div_mod::lemma_div_basics(total);
    assert(total * len == len * total) by (nonlinear_arith);
    vstd::arithmetic::div_mod::lemma_div_multiples_vanish(len, total);
}

/// What a crop shows has the proportions of the room, to within two millionths.
pub proof fn law_crop_has_the_proportions_of_the_room(tex_w: int, tex_h: int, w: int, h: int)
    requires
        0 < tex_w,
        0 < tex_h,
        0 < w,
        0 < h,
    ensures
        ({
            let c = cropped(tex_w, tex_h, w, h);
            let across = c.right - c.left;
            let down = c.bottom - c.top;
            &&& w * tex_h > tex_w * h ==> across == 1_000_000 && 1_000_000 * (tex_w * h) - tex_h * w
                < down * (tex_h * w) <= 1_000_000 * (tex_w * h) + tex_h * w
            &&& w * tex_h <= tex_w * h ==> down == 1_000_000 && 1_000_000 * (tex_h * w) - tex_w * h
                < across * (tex_w * h) <= 1_000_000 * (tex_h * w) + tex_w * h
        }),
{
    let a = tex_w * h;
    let b = tex_h * w;
    assert(a > 0 && b > 0) by (nonlinear_arith)
        requires
            a == tex_w * h,
            b == tex_h * w,
            0 < tex_w,
            0 < tex_h,
            0 < w,
            0 < h,
    ;
    assert(w * tex_h == b) by (nonlinear_arith)
        requires
            b == tex_h * w,
    ;
    if b > a {
        lemma_margin_left(a, b);
    } else {
        lemma_margin_left(b, a);
    }
}

proof fn lemma_margin_left(part: int, whole: int)
    requires
        0 < part <= whole,
    ensures
        0 <= margin(part, whole) <= 500_000,
        ({
            let left = 1_000_000 - 2 * margin(part, whole);
            1_000_000 * part - whole < left * whole <= 1_000_000 * part + whole
        }),
{
    let x = 1_000_000 * part;
    vstd::arithmetic::div_mod::lemma_fundamental_div_mod(x, whole);
    vstd::arithmetic::div_mod::lemma_mod_bound(x, whole);
    let q = x / whole;
    let m = (1_000_000 - q) / 2;
    let left = 1_000_000 - 2 * m;
    assert(0 <= q <= 1_000_000) by (nonlinear_arith)
        requires
            x == whole * q + x % whole,
            0 <= x % whole < whole,
            x == 1_000_000 * part,
            0 < part <= whole,
    ;
    assert(left == q || left == q + 1);
    assert(q * whole == whole * q && (q + 1) * whole == whole * q + whole) by (nonlinear_arith);
}

} // verus!
