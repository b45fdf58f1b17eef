//! When a decoded frame is due. Points in time are in nanoseconds, speeds in
//! thousandths.

use vstd::prelude::*;

use crate::time::{floor_div, in_time, later, max_time};

verus! {

/// The slowest speed that a stream is paced at.
pub const SLOWEST: i64 = 10;

/// A delay of no more than this is not worth a sleep.
pub const SHORTEST_SLEEP: i64 = 1_000_000;

/// How far a stream runs in some time at a speed.
pub open spec fn run(elapsed: int, speed: int) -> int {
    elapsed * speed / 1000
}

/// How long a stream takes for some distance at a speed.
pub open spec fn takes(distance: int, speed: int) -> int {
    distance * 1000 / speed
}

/// Relates the position in a stream to the time of day: at `start_time` the stream is
/// at `start_pts`, and runs on at `speed`.
#[derive(Debug, Clone, Copy)]
pub struct StreamClock {
    pub start_time: i64,
    pub start_pts: Option<i64>,
    pub speed: i64,
}

impl StreamClock {
    /// The clock's speed is one that it can divide by, and its origin lies within the
    /// time limits.
    pub open spec fn wf(self) -> bool {
        &&& self.speed >= SLOWEST
        &&& in_time(self.start_time as int)
        &&& self.start_pts matches Some(p) ==> in_time(p as int)
    }

    /// The position in the stream at `now`.
    pub open spec fn position(self, now: int) -> Option<int> {
        match self.start_pts {
            Some(p) => Some(p + run(now - self.start_time, self.speed as int)),
            None => None,
        }
    }

    /// How long to wait, at `now`, until `pts` is due. Where no frame has set the
    /// origin yet, `pts` does.
    pub open spec fn wait(self, pts: int, now: int) -> int {
        let origin = match self.start_pts {
            Some(p) => p as int,
            None => pts,
        };
        takes(pts - origin, self.speed as int) - (now - self.start_time)
    }

    /// The clock that goes on from the position at `now` at another speed.
    pub open spec fn with_speed(self, speed: int, now: int) -> StreamClock {
        match self.position(now) {
            Some(p) => StreamClock {
                start_time: now as i64,
                start_pts: Some(p as i64),
                speed: later(speed, SLOWEST as int) as i64,
            },
            None => StreamClock { speed: later(speed, SLOWEST as int) as i64, ..self },
        }
    }

    /// A clock that starts at `now`, with no origin yet.
    pub fn new(speed: i64, now: i64) -> (r: Self)
        ensures
            r == (StreamClock {
                start_time: now,
                start_pts: None,
                speed: later(speed as int, SLOWEST as int) as i64,
            }),
            in_time(now as int) ==> r.wf(),
    {
        StreamClock { start_time: now, start_pts: None, speed: max_time(speed, SLOWEST) }
    }

    /// The stream is at `pts` now.
    pub fn reset(&mut self, pts: i64, now: i64)
        ensures
            *final(self) == (StreamClock { start_time: now, start_pts: Some(pts), ..*old(self) }),
            old(self).wf() && in_time(pts as int) && in_time(now as int) ==> final(self).wf(),
    {
        self.start_time = now;
        self.start_pts = Some(pts);
    }

    /// Goes on from the present position at another speed.
    pub fn set_speed(&mut self, new_speed: i64, now: i64)
        requires
            old(self).wf(),
            in_time(now as int),
            old(self).position(now as int) matches Some(p) ==> in_time(p),
        ensures
            *final(self) == old(self).with_speed(new_speed as int, now as int),
            final(self).wf(),
    {
        if let Some(start_pts) = self.start_pts {
            let elapsed: i64 = now - self.start_time;
            assert(-0x8000_0000_0000_0000 * 0x8000_0000_0000_0000 <= elapsed * self.speed
                <= 0x8000_0000_0000_0000 * 0x8000_0000_0000_0000) by (nonlinear_arith)
                requires
                    -0x8000_0000_0000_0000 <= elapsed <= 0x7fff_ffff_ffff_ffff,
                    -0x8000_0000_0000_0000 <= self.speed <= 0x7fff_ffff_ffff_ffff,
            ;
            let ran: i128 = floor_div(elapsed as i128 * self.speed as i128, 1000);
            let current: i64 = (start_pts as i128 + ran) as i64;
            self.start_pts = Some(current);
            self.start_time = now;
        }
        self.speed = max_time(new_speed, SLOWEST);
    }

    /// How long to sleep, at `now`, until `pts` is due; 0 where it is due, or nearly.
    pub fn delay(&mut self, pts: i64, now: i64) -> (r: i64)
        requires
            old(self).wf(),
            in_time(pts as int),
            in_time(now as int),
            in_time(old(self).wait(pts as int, now as int)),
        ensures
            r == if old(self).wait(pts as int, now as int) > SHORTEST_SLEEP {
                old(self).wait(pts as int, now as int)
            } else {
                0
            },
            *final(self) == (StreamClock {
                start_pts: Some(
                    match old(self).start_pts {
                        Some(p) => p,
                        None => pts,
                    },
                ),
                ..*old(self)
            }),
            final(self).wf(),
    {
        let start_pts: i64 = match self.start_pts {
            Some(p) => p,
            None => pts,
        };
        self.start_pts = Some(start_pts);
        let elapsed: i64 = now - self.start_time;
        let target: i128 = floor_div((pts - start_pts) as i128 * 1000, self.speed as i128);
        let diff: i64 = (target - elapsed as i128) as i64;
        if diff > SHORTEST_SLEEP {
            diff
        } else {
            0
        }
    }
}

/// A change of speed is seamless: at that moment the stream is where it was.
pub proof fn law_speed_change_is_seamless(c: StreamClock, speed: int, now: int)
    requires
        c.wf(),
        in_time(now),
        c.position(now) matches Some(p) ==> in_time(p),
    ensures
        c.with_speed(speed, now).position(now) == c.position(now),
{
    let s = c.with_speed(speed, now).speed as int;
    assert(0 * s == 0) by (nonlinear_arith);
}

/// After a reset the frame at the new origin is due at once.
pub proof fn law_origin_is_due(c: StreamClock, pts: i64, now: i64)
    requires
        c.speed >= SLOWEST,
    ensures
        (StreamClock { start_time: now, start_pts: Some(pts), ..c }).wait(pts as int, now as int)
            == 0,
{
    assert(takes(0, c.speed as int) == 0) by {
        vstd::arithmetic::div_mod::lemma_fundamental_div_mod_converse(
            0,
            c.speed as int,
            0,
            0,
        );
    }
}

/// At normal speed, a frame is due as long after the origin as it lies behind it.
pub proof fn law_normal_speed(c: StreamClock, pts: int, now: int)
    requires
        c.speed == 1000,
        c.start_pts is Some,
    ensures
        c.wait(pts, now) == (pts - c.start_pts->0) - (now - c.start_time),
        c.position(now) == Some(c.start_pts->0 + (now - c.start_time)),
{
}

/// How much of a clip is decoded at once for playback in reverse.
pub const GOP_WINDOW: i64 = 4_000_000_000;

/// The stretch to decode next for playback in reverse from `end` back.
pub open spec fn window_start(end: int) -> int {
    later(end - GOP_WINDOW, 0)
}

/// The stretch to decode next for playback in reverse, as its start; none once the
/// beginning has been reached.
pub fn next_reverse_window(current_end: i64) -> (r: Option<i64>)
    ensures
        match r {
            Some(start) => current_end > 0 && start == window_start(current_end as int),
            None => current_end <= 0,
        },
{
    if current_end > 0 {
        Some(max_time(current_end - GOP_WINDOW, 0))
    } else {
        None
    }
}

/// Each stretch lies directly before the one decoded last, is no longer than the
/// window, and brings playback nearer to the beginning.
pub proof fn law_reverse_windows_tile(end: int)
    requires
        end > 0,
    ensures
        0 <= window_start(end) < end,
        end - window_start(end) <= GOP_WINDOW,
        window_start(end) > 0 ==> end - window_start(end) == GOP_WINDOW,
{
}

/// How far behind the end of a stretch a frame may lie and still be kept.
pub const GOP_SLACK: i64 = 50_000_000;

/// Whether a frame of a stretch that ends at `end` is kept; the first that is not
/// ends the stretch.
pub fn in_reverse_window(pts: i64, end: i64) -> (r: bool)
    requires
        in_time(end as int),
    ensures
        r == (pts <= end + GOP_SLACK),
{
    pts <= end + GOP_SLACK
}

/// What a frame of a stretch is good for.
#[derive(Debug, Clone, Copy, PartialEq, Eq, Structural)]
pub enum GopDecision {
    Keep,
    Skip,
    Finish,
}

/// What becomes of a frame: those before the stretch are passed over, those within it are
/// kept, and the first one behind it ends it.
pub open spec fn gop_decided(pts: i64, start: i64, end: i64) -> GopDecision {
    if pts >= end {
        GopDecision::Finish
    } else if pts >= start {
        GopDecision::Keep
    } else {
        GopDecision::Skip
    }
}

/// Of the frames that come one after the other, the `i`-th is gathered: it is kept, and
/// none before it ended the stretch.
pub open spec fn is_gathered(pts: Seq<i64>, start: i64, end: i64, i: int) -> bool {
    &&& gop_decided(pts[i], start, end) == GopDecision::Keep
    &&& forall|j: int|
        0 <= j < i ==> gop_decided(#[trigger] pts[j], start, end) != GopDecision::Finish
}

/// Of frames that come in the order of the film, a stretch gathers exactly those that lie
/// within it.
pub proof fn law_stretch_gathers_its_frames(pts: Seq<i64>, start: i64, end: i64, i: int)
    requires
        forall|i: int, j: int|
            0 <= i < j < pts.len() ==> (#[trigger] pts[i]) <= (#[trigger] pts[j]),
        0 <= i < pts.len(),
    ensures
        is_gathered(pts, start, end, i) <==> start <= pts[i] < end,
{
}

/// Whether a frame between the seek point and the end of a stretch is kept.
pub fn gop_decision(pts: i64, start: i64, end: i64) -> (r: GopDecision)
    ensures
        r == gop_decided(pts, start, end),
{
    if pts >= end {
        GopDecision::Finish
    } else if pts >= start {
        GopDecision::Keep
    } else {
        GopDecision::Skip
    }
}

/// Paces frames that come in reverse order, stretch by stretch.
#[derive(Debug, Clone, Copy)]
pub struct ReversePacer {
    pub clock: StreamClock,
    pub last_pts: Option<i64>,
    pub gop_base: i64,
}

/// A frame this much later than the one before begins a new stretch.
pub const GOP_JUMP: i64 = 1_000_000;

impl ReversePacer {
    /// The frame at `pts` is the first of a stretch.
    pub open spec fn starts_stretch(self, pts: int) -> bool {
        self.last_pts matches Some(prev) ==> pts > prev + GOP_JUMP
    }

    /// The pacer's clock and positions are within the limits.
    pub open spec fn wf(self) -> bool {
        &&& self.clock.wf()
        &&& in_time(self.gop_base as int)
        &&& self.last_pts matches Some(p) ==> in_time(p as int)
    }

    /// The clock once the frame's stretch is known.
    pub open spec fn clock_for(self, pts: int, now: int) -> StreamClock {
        if self.starts_stretch(pts) {
            StreamClock { start_time: now as i64, start_pts: Some(0), ..self.clock }
        } else {
            self.clock
        }
    }

    /// How far the frame lies from the first one of its stretch.
    pub open spec fn distance(self, pts: int) -> int {
        if self.starts_stretch(pts) {
            0
        } else if self.gop_base >= pts {
            self.gop_base - pts
        } else {
            pts - self.gop_base
        }
    }

    /// A pacer before its first frame.
    pub fn new(speed: i64, now: i64) -> (r: Self)
        requires
            in_time(now as int),
        ensures
            r.clock == (StreamClock {
                start_time: now,
                start_pts: None,
                speed: later(speed as int, SLOWEST as int) as i64,
            }),
            r.last_pts is None,
            r.gop_base == 0,
            r.wf(),
    {
        ReversePacer { clock: StreamClock::new(speed, now), last_pts: None, gop_base: 0 }
    }

    /// How long to sleep before the frame at `pts` is handed on.
    pub fn pace(&mut self, pts: i64, now: i64) -> (r: i64)
        requires
            old(self).wf(),
            in_time(pts as int),
            in_time(now as int),
            in_time(old(self).distance(pts as int)),
            in_time(
                old(self).clock_for(pts as int, now as int).wait(
                    old(self).distance(pts as int),
                    now as int,
                ),
            ),
        ensures
            ({
                let c = old(self).clock_for(pts as int, now as int);
                let w = c.wait(old(self).distance(pts as int), now as int);
                r == if w > SHORTEST_SLEEP {
                    w
                } else {
                    0
                }
            }),
            final(self).last_pts == Some(pts),
            final(self).gop_base == if old(self).starts_stretch(pts as int) {
                pts
            } else {
                old(self).gop_base
            },
            final(self).clock.start_time == old(self).clock_for(
                pts as int,
                now as int,
            ).start_time,
            final(self).clock.speed == old(self).clock.speed,
            final(self).clock.start_pts == Some(
                match old(self).clock_for(pts as int, now as int).start_pts {
                    Some(p) => p,
                    None => old(self).distance(pts as int) as i64,
                },
            ),
            final(self).wf(),
    {
        let boundary = match self.last_pts {
            Some(prev) => pts > prev + GOP_JUMP,
            None => true,
        };
        if boundary {
            self.clock.reset(0, now);
            self.gop_base = pts;
        }
        let distance: i64 = if self.gop_base >= pts {
            self.gop_base - pts
        } else {
            pts - self.gop_base
        };
        let r = self.clock.delay(distance, now);
        self.last_pts = Some(pts);
        r
    }
}

/// The first frame of a stretch is handed on at once.
pub proof fn law_stretch_starts_at_once(p: ReversePacer, pts: i64, now: i64)
    requires
        p.wf(),
        p.starts_stretch(pts as int),
    ensures
        p.clock_for(pts as int, now as int).wait(p.distance(pts as int), now as int) == 0,
{
    law_origin_is_due(p.clock, 0, now);
}

/// Frames come at the speed of the stream: where a frame waits until it is due, as much of
/// the stream as lies between it and the first has run by then, to within one step; and
/// the position goes on as fast.
pub proof fn law_frames_come_at_speed(c: StreamClock, pts: int, now: int)
    requires
        c.speed > 0,
        c.start_pts is Some,
    ensures
        ({
            let due = now + c.wait(pts, now);
            let run = due - c.start_time;
            run * c.speed <= (pts - c.start_pts->0) * 1000 < (run + 1) * c.speed
        }),
        c.position(now) matches Some(p) && (p - c.start_pts->0) * 1000 <= (now - c.start_time)
            * c.speed < (p - c.start_pts->0 + 1) * 1000,
{
    let d = (pts - c.start_pts->0) * 1000;
    let speed = c.speed as int;
    vstd::arithmetic::div_mod::lemma_fundamental_div_mod(d, speed);
    vstd::arithmetic::div_mod::lemma_mod_bound(d, speed);
    let q = d / speed;
    assert(q * speed == speed * q && (q + 1) * speed == speed * q + speed) by (nonlinear_arith);
    let run = now + c.wait(pts, now) - c.start_time;
    assert(run == q);
}

/// A new speed is taken as it is, but no slower than a hundredth of the normal.
pub proof fn law_speed_is_taken(c: StreamClock, speed: i64, now: int)
    ensures
        speed >= 10 ==> c.with_speed(speed as int, now).speed == speed,
        speed < 10 ==> c.with_speed(speed as int, now).speed == 10,
{
}

/// Within a stretch that plays in reverse a frame waits as long as it is before the frame
/// that the stretch began with.
pub proof fn law_reverse_frame_waits_its_distance(p: ReversePacer, last: i64, pts: i64, now: int)
    requires
        p.last_pts == Some(last),
        pts <= last,
        last <= p.gop_base,
    ensures
        p.clock_for(pts as int, now) == p.clock,
        p.distance(pts as int) == p.gop_base - pts,
{
}

} // verus!
