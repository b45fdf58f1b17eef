//! Frame rates.

use vstd::prelude::*;

use crate::time::{in_time, SECOND};

verus! {

/// The rate of frames is taken over this long.
pub const FPS_WINDOW: i64 = 500_000_000;

/// Counts the frames of a window of time and smooths the rate, in thousandths of a frame
/// per second.
#[derive(Debug, Clone, Copy, PartialEq, Eq, Structural)]
pub struct FpsMeter {
    pub window_start: Option<i64>,
    pub frames: u32,
    pub rate: u128,
}

/// No rate is higher.
pub const TOP_RATE: u128 = 4_294_967_296_000_000_000_000;

/// So many frames in some time, as a rate in thousandths.
pub open spec fn rate_of(frames: int, elapsed: int) -> int {
    frames * (1000 * SECOND) / elapsed
}

/// The rate so far and the new one, mixed so many to ten; the new one alone where there
/// was none.
pub open spec fn smoothed(rate: int, new: int, kept_tenths: int) -> int {
    if rate == 0 {
        new
    } else {
        (rate * kept_tenths + new * (10 - kept_tenths)) / 10
    }
}

fn smooth(rate: u128, new: u128, kept_tenths: u128) -> (r: u128)
    requires
        rate <= TOP_RATE,
        new <= TOP_RATE,
        kept_tenths <= 10,
    ensures
        r == smoothed(rate as int, new as int, kept_tenths as int),
        r <= TOP_RATE,
{
    if rate == 0 {
        return new;
    }
    proof {
        assert(0 <= rate * kept_tenths <= TOP_RATE * kept_tenths) by (nonlinear_arith)
            requires
                0 <= rate <= TOP_RATE,
                0 <= kept_tenths,
        ;
        assert(0 <= new * (10 - kept_tenths) <= TOP_RATE * (10 - kept_tenths)) by (nonlinear_arith)
            requires
                0 <= new <= TOP_RATE,
                0 <= 10 - kept_tenths,
        ;
        assert(TOP_RATE * kept_tenths + TOP_RATE * (10 - kept_tenths) == TOP_RATE * 10)
            by (nonlinear_arith);
        assert(TOP_RATE * kept_tenths <= TOP_RATE * 10) by (nonlinear_arith)
            requires
                kept_tenths <= 10,
        ;
    }
    (rate * kept_tenths + new * (10 - kept_tenths)) / 10
}

impl FpsMeter {
    /// The rate is one that can come about.
    pub open spec fn wf(self) -> bool {
        self.rate <= TOP_RATE && (self.window_start matches Some(t) ==> in_time(t as int))
    }

    /// Nothing counted.
    pub fn new() -> (r: Self)
        ensures
            r == (FpsMeter { window_start: None, frames: 0, rate: 0 }),
            r.wf(),
    {
        FpsMeter { window_start: None, frames: 0, rate: 0 }
    }

    /// The meter after a frame at `now`, with windows of the given length. A window that
    /// is over gives its rate, of which a fifth goes into the rate so far.
    pub open spec fn counted(self, now: int, window: int) -> FpsMeter {
        let start = match self.window_start {
            Some(t) => t as int,
            None => now,
        };
        let frames = if self.window_start is None {
            1
        } else {
            self.frames + 1
        };
        if now - start >= window {
            FpsMeter {
                window_start: Some(now as i64),
                frames: 0,
                rate: smoothed(self.rate as int, rate_of(frames, now - start), 8) as u128,
            }
        } else {
            FpsMeter { window_start: Some(start as i64), frames: frames as u32, ..self }
        }
    }

    /// Counts a frame at `now`.
    pub fn update_video_fps(&mut self, now: i64, window: i64)
        requires
            old(self).wf(),
            old(self).frames < u32::MAX,
            in_time(now as int),
            0 < window,
        ensures
            *final(self) == old(self).counted(now as int, window as int),
            final(self).wf(),
    {
        if self.window_start.is_none() {
            self.window_start = Some(now);
            self.frames = 0;
        }
        self.frames = self.frames + 1;
        if let Some(start) = self.window_start {
            let elapsed: i64 = now - start;
            if elapsed >= window {
                let scaled: u128 = self.frames as u128 * 1_000_000_000_000;
                proof {
                    lemma_rate_bound(self.frames as int, elapsed as int);
                }
                self.rate = smooth(self.rate, scaled / elapsed as u128, 8);
                self.window_start = Some(now);
                self.frames = 0;
            }
        }
    }
}

proof fn lemma_rate_bound(frames: int, elapsed: int)
    requires
        0 <= frames <= u32::MAX,
        0 < elapsed,
    ensures
        0 <= rate_of(frames, elapsed) <= TOP_RATE,
        rate_of(frames, elapsed) == (frames * 1_000_000_000_000) / elapsed,
{
    let n = frames * 1_000_000_000_000;
    assert(0 <= n / elapsed <= n) by (nonlinear_arith)
        requires
            0 <= n,
            0 < elapsed,
    ;
}

/// The rate at which the window is drawn, after a pass that took `dt`: a tenth of the new
/// rate goes into the rate so far.
pub fn update_ui_fps(rate: u128, dt: i64) -> (r: u128)
    requires
        rate <= TOP_RATE,
    ensures
        r == if dt > 0 {
            smoothed(rate as int, rate_of(1, dt as int), 9)
        } else {
            rate as int
        },
        r <= TOP_RATE,
{
    if dt > 0 {
        proof {
            lemma_rate_bound(1, dt as int);
        }
        smooth(rate, 1_000_000_000_000 / dt as u128, 9)
    } else {
        rate
    }
}

/// A smoothed rate lies between the rate so far and the new one.
pub proof fn law_smoothing_stays_between(rate: int, new: int, kept_tenths: int)
    requires
        0 < rate,
        0 <= new,
        0 <= kept_tenths <= 10,
    ensures
        rate <= new ==> rate <= smoothed(rate, new, kept_tenths) <= new,
        new <= rate ==> new <= smoothed(rate, new, kept_tenths) <= rate,
{
    let k = kept_tenths;
    assert(rate * k + new * (10 - k) == 10 * new + k * (rate - new)) by (nonlinear_arith);
    assert(rate * k + new * (10 - k) == 10 * rate + (10 - k) * (new - rate)) by (nonlinear_arith);
    if rate <= new {
        assert(k * (rate - new) <= 0) by (nonlinear_arith)
            requires
                rate <= new,
                0 <= k,
        ;
        assert((10 - k) * (new - rate) >= 0) by (nonlinear_arith)
            requires
                rate <= new,
                k <= 10,
        ;
    }
    if new <= rate {
        assert(k * (rate - new) >= 0) by (nonlinear_arith)
            requires
                new <= rate,
                0 <= k,
        ;
        assert((10 - k) * (new - rate) <= 0) by (nonlinear_arith)
            requires
                new <= rate,
                k <= 10,
        ;
    }
}

/// The frame rate is what was counted in the window over how long the window lasted, in
/// thousandths: the first window sets it, and a window that is not over leaves it.
pub proof fn law_rate_is_frames_by_time(m: FpsMeter, start: i64, now: i64, window: i64)
    requires
        m.window_start == Some(start),
        m.rate == 0,
        0 < window,
        m.frames < 1000,
        start < now,
    ensures
        ({
            let r = m.counted(now as int, window as int);
            let elapsed = now - start;
            &&& elapsed >= window ==> r.frames == 0 && r.window_start == Some(now) && r.rate * elapsed
                <= (m.frames + 1) * 1_000_000_000_000 < (r.rate + 1) * elapsed
            &&& elapsed < window ==> r.rate == 0 && r.frames == m.frames + 1 && r.window_start
                == Some(start)
        }),
{
    let elapsed = now - start;
    if elapsed >= window {
        let x = (m.frames + 1) * 1_000_000_000_000;
        vstd::arithmetic::div_mod::lemma_fundamental_div_mod(x, elapsed);
        vstd::arithmetic::div_mod::lemma_mod_bound(x, elapsed);
        let q = x / elapsed;
        assert(0 <= q <= x) by (nonlinear_arith)
            requires
                x == elapsed * q + x % elapsed,
                0 <= x % elapsed < elapsed,
                0 <= x,
                0 < elapsed,
        ;
        assert(q * elapsed == elapsed * q && (q + 1) * elapsed == elapsed * q + elapsed)
            by (nonlinear_arith);
    }
}

} // verus!
