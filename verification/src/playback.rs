//! The transport: whether and where playback runs.

use vstd::prelude::*;

use crate::time::{floor_div, in_time};

verus! {

/// Whether playback runs, and which way.
#[derive(Debug, Clone, Copy, PartialEq, Eq, Structural)]
pub enum PlaybackState {
    Stopped,
    Playing,
    PlayingReverse,
}

impl Default for PlaybackState {
    fn default() -> (r: Self)
        ensures
            r == PlaybackState::Stopped,
    {
        PlaybackState::Stopped
    }
}

/// The way that playback runs.
#[derive(Debug, Clone, Copy, PartialEq, Eq, Structural)]
pub enum PlaybackDirection {
    Forward,
    Reverse,
}

/// Normal speed. Speeds are counted in thousandths.
pub const NORMAL_SPEED: i64 = 1000;

/// The transport.
#[derive(Debug, Clone, Copy)]
pub struct Playback {
    pub state: PlaybackState,
    pub playhead: i64,
    pub speed: i64,
}

impl Default for Playback {
    fn default() -> (r: Self)
        ensures
            r == (Playback { state: PlaybackState::Stopped, playhead: 0, speed: NORMAL_SPEED }),
    {
        Playback { state: PlaybackState::Stopped, playhead: 0, speed: NORMAL_SPEED }
    }
}

/// How far the playhead goes in `dt` at a speed.
pub open spec fn distance(dt: int, speed: int) -> int {
    dt * speed / 1000
}

impl Playback {
    /// Where the playhead would be `dt` later, were there no ends.
    pub open spec fn unbounded(self, dt: int) -> int {
        match self.state {
            PlaybackState::Playing => self.playhead + distance(dt, self.speed as int),
            PlaybackState::PlayingReverse => self.playhead - distance(dt, self.speed as int),
            PlaybackState::Stopped => self.playhead as int,
        }
    }

    /// The transport `dt` later: it stops at the beginning and, where there is one,
    /// at the end.
    pub open spec fn advanced(self, dt: int, duration: int) -> Playback {
        let p = self.unbounded(dt);
        if p < 0 {
            Playback { playhead: 0, state: PlaybackState::Stopped, ..self }
        } else if duration > 0 && p >= duration {
            Playback { playhead: duration as i64, state: PlaybackState::Stopped, ..self }
        } else {
            Playback { playhead: p as i64, ..self }
        }
    }

    /// The way that playback runs, or would run.
    pub fn direction(&self) -> (r: PlaybackDirection)
        ensures
            r == if self.state == PlaybackState::PlayingReverse {
                PlaybackDirection::Reverse
            } else {
                PlaybackDirection::Forward
            },
    {
        match self.state {
            PlaybackState::PlayingReverse => PlaybackDirection::Reverse,
            PlaybackState::Playing | PlaybackState::Stopped => PlaybackDirection::Forward,
        }
    }

    /// Starts playback forward, or stops it.
    pub fn toggle_play(&mut self)
        ensures
            *final(self) == (Playback {
                state: if old(self).state == PlaybackState::Stopped {
                    PlaybackState::Playing
                } else {
                    PlaybackState::Stopped
                },
                ..*old(self)
            }),
    {
        self.state = match self.state {
            PlaybackState::Playing => PlaybackState::Stopped,
            PlaybackState::PlayingReverse => PlaybackState::Stopped,
            PlaybackState::Stopped => PlaybackState::Playing,
        };
    }

    /// Starts playback in reverse, or stops it where it runs in reverse.
    pub fn play_reverse(&mut self)
        ensures
            *final(self) == (Playback {
                state: if old(self).state == PlaybackState::PlayingReverse {
                    PlaybackState::Stopped
                } else {
                    PlaybackState::PlayingReverse
                },
                ..*old(self)
            }),
    {
        self.state = match self.state {
            PlaybackState::PlayingReverse => PlaybackState::Stopped,
            _ => PlaybackState::PlayingReverse,
        };
    }

    /// Stops playback.
    pub fn stop(&mut self)
        ensures
            *final(self) == (Playback { state: PlaybackState::Stopped, ..*old(self) }),
    {
        self.state = PlaybackState::Stopped;
    }

    /// Moves the playhead by `dt` of time at the current speed, and stops at the
    /// beginning and at the end.
    pub fn advance(&mut self, dt: i64, duration: i64)
        requires
            in_time(old(self).playhead as int),
            in_time(distance(dt as int, old(self).speed as int)),
        ensures
            *final(self) == old(self).advanced(dt as int, duration as int),
    {
        assert(-0x8000_0000_0000_0000 * 0x8000_0000_0000_0000 <= dt * self.speed
            <= 0x8000_0000_0000_0000 * 0x8000_0000_0000_0000) by (nonlinear_arith)
            requires
                -0x8000_0000_0000_0000 <= dt <= 0x7fff_ffff_ffff_ffff,
                -0x8000_0000_0000_0000 <= self.speed <= 0x7fff_ffff_ffff_ffff,
        ;
        let step: i64 = floor_div(dt as i128 * self.speed as i128, 1000) as i64;
        match self.state {
            PlaybackState::Playing => {
                self.playhead = self.playhead + step;
            },
            PlaybackState::PlayingReverse => {
                self.playhead = self.playhead - step;
            },
            PlaybackState::Stopped => {},
        }
        if self.playhead < 0 {
            self.playhead = 0;
            self.state = PlaybackState::Stopped;
        }
        if duration > 0 && self.playhead >= duration {
            self.playhead = duration;
            self.state = PlaybackState::Stopped;
        }
    }
}

/// The playhead never leaves the timeline, and playback goes on or stops: it never
/// starts or turns by itself.
pub proof fn law_advance_stays_on_timeline(p: Playback, dt: int, duration: int)
    requires
        in_time(p.unbounded(dt)),
        0 < duration <= i64::MAX,
    ensures
        0 <= p.advanced(dt, duration).playhead <= duration,
        p.advanced(dt, duration).state == p.state || p.advanced(dt, duration).state
            == PlaybackState::Stopped,
        p.advanced(dt, duration).speed == p.speed,
{
}

/// A stopped playhead on the timeline stays where it is.
pub proof fn law_stopped_stays(p: Playback, dt: int, duration: int)
    requires
        p.state == PlaybackState::Stopped,
        0 <= p.playhead < duration,
    ensures
        p.advanced(dt, duration) == p,
{
}

/// Playing back the time just played returns to where playback was, as long as no
/// end was met.
pub proof fn law_reverse_retraces(p: Playback, dt: int, duration: int)
    requires
        p.state == PlaybackState::Playing,
        0 <= p.playhead,
        0 <= p.unbounded(dt),
        in_time(p.unbounded(dt)),
        duration > p.unbounded(dt),
        duration > p.playhead,
    ensures
        ({
            let q = p.advanced(dt, duration);
            let back = (Playback { state: PlaybackState::PlayingReverse, ..q }).advanced(
                dt,
                duration,
            );
            back.playhead == p.playhead
        }),
{
}

/// Playback goes as far as the speed says, in thousandths of the normal, rounded down,
/// and the way it plays; at either end of the timeline it stops there.
pub proof fn law_advance_goes_at_speed(p: Playback, dt: int, duration: int)
    requires
        in_time(p.unbounded(dt)),
        p.state != PlaybackState::Stopped,
        0 <= p.playhead < duration <= i64::MAX,
        0 <= dt,
        0 < p.speed,
    ensures
        ({
            let q = p.advanced(dt, duration);
            let way = if p.state == PlaybackState::Playing {
                q.playhead - p.playhead
            } else {
                p.playhead - q.playhead
            };
            &&& q.state == p.state ==> 1000 * way <= dt * p.speed < 1000 * way + 1000
            &&& q.state != p.state ==> {
                &&& q.state == PlaybackState::Stopped
                &&& p.state == PlaybackState::Playing ==> q.playhead == duration && 1000 * way
                    <= dt * p.speed
                &&& p.state == PlaybackState::PlayingReverse ==> q.playhead == 0 && 1000 * way
                    <= dt * p.speed
            }
            &&& p.state == PlaybackState::Playing && p.playhead * 1000 + dt * p.speed >= duration
                * 1000 ==> q.state == PlaybackState::Stopped
            &&& p.state == PlaybackState::PlayingReverse && dt * p.speed >= (p.playhead + 1) * 1000
                ==> q.state == PlaybackState::Stopped
            &&& q.speed == p.speed
        }),
{
    let x = dt * p.speed;
    assert(x >= 0) by (nonlinear_arith)
        requires
            x == dt * p.speed,
            0 <= dt,
            0 < p.speed,
    ;
    assert(1000 * (x / 1000) <= x < 1000 * (x / 1000) + 1000);
}

} // verus!
