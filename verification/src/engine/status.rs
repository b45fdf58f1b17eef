//! Whether a pipeline delivers.

use vstd::prelude::*;

use crate::time::in_time;

verus! {

/// Without a frame for longer than this, a pipeline that drives the clock counts as
/// stalled.
pub const PIPELINE_STALL_THRESHOLD: i64 = 80_000_000;

/// Without a frame for longer than this, a picture is decoded on demand in the place of
/// those that do not come.
pub const FRAME_GAP_STALL: i64 = 120_000_000;

/// Without a frame for longer than this, a pipeline has stalled for long. The last picture
/// that it delivered stays on screen all the same.
pub const FRAME_GAP_LONG_STALL: i64 = 250_000_000;

/// Without a frame for longer than this, a pipeline is started anew.
pub const STALE_PIPELINE_THRESHOLD: i64 = 750_000_000;

/// A pipeline that has not delivered yet is given this long before a picture decoded on
/// demand takes its place.
pub const FORWARD_STARTUP_GRACE: i64 = 220_000_000;

/// The clock waits this long for the first frame of a pipeline.
pub const FORWARD_STARTUP_LONG_GRACE: i64 = 1_000_000_000;

/// A reverse pipeline that is not ready is made to play after this long.
pub const REVERSE_FORCE_PLAYING_AFTER: i64 = 500_000_000;

/// How far ahead of a cut the next clip's pipeline is started, at normal speed.
pub const SHADOW_LOOKAHEAD: i64 = 2_000_000_000;

/// Whether a pipeline delivers.
#[derive(Debug, Clone, Copy, PartialEq, Eq, Structural)]
pub enum PipelineStatus {
    StartingUp,
    Delivering,
    Stalled,
    LongStall,
}

impl PipelineStatus {
    /// The pipeline has stopped delivering.
    pub open spec fn stalled(self) -> bool {
        self == PipelineStatus::Stalled || self == PipelineStatus::LongStall
    }

    /// Whether the pipeline has stopped delivering.
    pub fn is_stalled(self) -> (r: bool)
        ensures
            r == self.stalled(),
    {
        match self {
            PipelineStatus::Stalled => true,
            PipelineStatus::LongStall => true,
            PipelineStatus::StartingUp => false,
            PipelineStatus::Delivering => false,
        }
    }
}

/// More than `gap` has passed since `last`, where there was a last time.
pub open spec fn overdue(last: Option<i64>, now: int, gap: int) -> bool {
    last matches Some(t) && now - t > gap
}

/// How a pipeline that has `started` to deliver stands, by its last frame.
pub open spec fn frame_status(started: bool, last: Option<i64>, now: int) -> PipelineStatus {
    if !started {
        PipelineStatus::StartingUp
    } else if overdue(last, now, FRAME_GAP_LONG_STALL as int) {
        PipelineStatus::LongStall
    } else if overdue(last, now, FRAME_GAP_STALL as int) {
        PipelineStatus::Stalled
    } else {
        PipelineStatus::Delivering
    }
}

/// The same by the stricter measure of the clock.
pub open spec fn clock_status(started: bool, last: Option<i64>, now: int) -> PipelineStatus {
    if !started {
        PipelineStatus::StartingUp
    } else if overdue(last, now, PIPELINE_STALL_THRESHOLD as int) {
        PipelineStatus::Stalled
    } else {
        PipelineStatus::Delivering
    }
}

/// A time, where there is one, lies within the limits.
pub open spec fn opt_in_time(t: Option<i64>) -> bool {
    t matches Some(x) ==> in_time(x as int)
}

/// Whether more than `gap` has passed since `last`.
pub fn is_overdue(last: Option<i64>, now: i64, gap: i64) -> (r: bool)
    requires
        opt_in_time(last),
        in_time(now as int),
    ensures
        r == overdue(last, now as int, gap as int),
{
    match last {
        Some(t) => now - t > gap,
        None => false,
    }
}

/// How a pipeline stands, by its last frame.
pub fn status_by_frame(started: bool, last: Option<i64>, now: i64) -> (r: PipelineStatus)
    requires
        opt_in_time(last),
        in_time(now as int),
    ensures
        r == frame_status(started, last, now as int),
{
    if !started {
        PipelineStatus::StartingUp
    } else if is_overdue(last, now, FRAME_GAP_LONG_STALL) {
        PipelineStatus::LongStall
    } else if is_overdue(last, now, FRAME_GAP_STALL) {
        PipelineStatus::Stalled
    } else {
        PipelineStatus::Delivering
    }
}

/// How a pipeline stands, by the stricter measure of the clock.
pub fn status_by_clock(started: bool, last: Option<i64>, now: i64) -> (r: PipelineStatus)
    requires
        opt_in_time(last),
        in_time(now as int),
    ensures
        r == clock_status(started, last, now as int),
{
    if !started {
        PipelineStatus::StartingUp
    } else if is_overdue(last, now, PIPELINE_STALL_THRESHOLD) {
        PipelineStatus::Stalled
    } else {
        PipelineStatus::Delivering
    }
}

/// A pipeline only gets worse while no frame comes.
pub proof fn law_status_worsens(last: Option<i64>, now: int, later_now: int)
    requires
        now <= later_now,
    ensures
        frame_status(true, last, now) == PipelineStatus::LongStall ==> frame_status(
            true,
            last,
            later_now,
        ) == PipelineStatus::LongStall,
        frame_status(true, last, now).stalled() ==> frame_status(true, last, later_now).stalled(),
        frame_status(true, last, now).stalled() ==> clock_status(true, last, now).stalled(),
{
}

/// More than the lookahead is left at a speed: the quotient of lookahead and speed is
/// exceeded. At speed 0 there is no telling when the end comes.
pub open spec fn beyond_lookahead(left: int, speed: int) -> bool {
    if speed > 0 {
        left * speed > SHADOW_LOOKAHEAD * 1000
    } else if speed < 0 {
        left * speed < SHADOW_LOOKAHEAD * 1000
    } else {
        false
    }
}

/// Less than the lookahead is left at a speed.
pub open spec fn within_lookahead(left: int, speed: int) -> bool {
    if speed > 0 {
        left * speed < SHADOW_LOOKAHEAD * 1000
    } else if speed < 0 {
        left * speed > SHADOW_LOOKAHEAD * 1000
    } else {
        true
    }
}

proof fn lemma_lookahead_product(left: i64, speed: i64)
    ensures
        -0x8000_0000_0000_0000 * 0x8000_0000_0000_0000 <= left * speed <= 0x8000_0000_0000_0000
            * 0x8000_0000_0000_0000,
{
    assert(-0x8000_0000_0000_0000 * 0x8000_0000_0000_0000 <= left * speed <= 0x8000_0000_0000_0000
        * 0x8000_0000_0000_0000) by (nonlinear_arith)
        requires
            -0x8000_0000_0000_0000 <= left <= 0x7fff_ffff_ffff_ffff,
            -0x8000_0000_0000_0000 <= speed <= 0x7fff_ffff_ffff_ffff,
    ;
}

/// Whether more than the lookahead is left.
pub fn is_beyond_lookahead(left: i64, speed: i64) -> (r: bool)
    ensures
        r == beyond_lookahead(left as int, speed as int),
{
    proof {
        lemma_lookahead_product(left, speed);
    }
    let scaled: i128 = left as i128 * speed as i128;
    if speed > 0 {
        scaled > 2_000_000_000_000
    } else if speed < 0 {
        scaled < 2_000_000_000_000
    } else {
        false
    }
}

/// Whether less than the lookahead is left.
pub fn is_within_lookahead(left: i64, speed: i64) -> (r: bool)
    ensures
        r == within_lookahead(left as int, speed as int),
{
    proof {
        lemma_lookahead_product(left, speed);
    }
    let scaled: i128 = left as i128 * speed as i128;
    if speed > 0 {
        scaled < 2_000_000_000_000
    } else if speed < 0 {
        scaled > 2_000_000_000_000
    } else {
        true
    }
}

} // verus!
