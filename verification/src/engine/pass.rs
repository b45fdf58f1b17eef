//! One pass of the editor: before it the playhead runs on, and after it what playback has
//! come to is noted.

use vstd::prelude::*;

use crate::browse::DebugUiState;
use crate::engine::fps::{rate_of, smoothed, update_ui_fps, TOP_RATE};
use crate::engine::slots::{plays, Command, PlaybackEngine};
use crate::ids::TimelineClipId;
use crate::playback::{distance, Playback, PlaybackState};
use crate::time::in_time;

verus! {

/// A playhead that goes back by more than this during forward playback has jumped.
pub const JUMP_SLACK: i64 = 50_000_000;

/// What a pass ends with.
#[derive(Debug, Clone, Copy, PartialEq, Eq, Structural)]
pub struct PassEnd {
    /// How far the playhead went back, where it jumped back during forward playback.
    pub jumped_back: Option<i64>,
    /// The window is drawn again at once.
    pub repaint: bool,
}

impl PlaybackEngine {
    /// Begins a pass at `now`, where the last one began at `last`: the playhead runs on
    /// by the time between, where the clock moves it, and the rate of passes is kept. The
    /// first pass has nothing to go by.
    pub fn begin_pass(
        &self,
        playback: &mut Playback,
        debug: &mut DebugUiState,
        last: Option<i64>,
        now: i64,
        duration: i64,
        grace: i64,
    )
        requires
            self.wf(),
            in_time(now as int),
            last matches Some(t) ==> in_time(t as int) && in_time(
                distance(now - t, old(playback).speed as int),
            ),
            in_time(old(playback).playhead as int),
            old(debug).ui_fps <= TOP_RATE,
        ensures
            *final(playback) == match last {
                Some(t) => if plays(old(playback).state) && !self.clock_held(
                    old(playback).state,
                    now as int,
                    grace as int,
                ) {
                    old(playback).advanced(now - t, duration as int)
                } else {
                    *old(playback)
                },
                None => *old(playback),
            },
            *final(debug) == (DebugUiState {
                ui_fps: match last {
                    Some(t) => if now > t {
                        smoothed(old(debug).ui_fps as int, rate_of(1, now - t), 9) as u128
                    } else {
                        old(debug).ui_fps
                    },
                    None => old(debug).ui_fps,
                },
                ..*old(debug)
            }),
            final(debug).ui_fps <= TOP_RATE,
    {
        if let Some(t) = last {
            let dt: i64 = now - t;
            if self.should_use_clock_advance(playback.state, now, grace) {
                playback.advance(dt, duration);
            }
            debug.ui_fps = update_ui_fps(debug.ui_fps, dt);
        }
    }

    /// The engine after a pass that leaves playback as it is.
    pub open spec fn noted(self, p: Playback) -> PlaybackEngine {
        PlaybackEngine {
            last_playhead_observed: p.playhead,
            last_is_playing: plays(p.state),
            last_playback_state: p.state,
            ..if self.last_is_playing && !plays(p.state) {
                self.stopped()
            } else {
                self
            }
        }
    }

    /// How far the playhead has gone back since the last pass.
    pub open spec fn gone_back(self, p: Playback) -> int {
        self.last_playhead_observed - p.playhead
    }

    /// Ends a pass: where playback has stopped, what was being prepared is dropped, and
    /// what playback has come to is noted.
    pub fn end_pass(&mut self, playback: &Playback, out: &mut Vec<Command>) -> (r: PassEnd)
        requires
            in_time(old(self).last_playhead_observed as int),
            in_time(playback.playhead as int),
        ensures
            *final(self) == old(self).noted(*playback),
            final(out)@ == if old(self).last_is_playing && !plays(playback.state) {
                old(out)@ + seq![
                    Command::StopAudioPreview,
                    Command::ClearRewindCache,
                    Command::ResetAudio,
                ]
            } else {
                old(out)@
            },
            r.repaint == plays(playback.state),
            r.jumped_back == if playback.state == PlaybackState::Playing && old(self).gone_back(
                *playback,
            ) > JUMP_SLACK {
                Some(old(self).gone_back(*playback) as i64)
            } else {
                None
            },
            old(self).wf() ==> final(self).wf(),
    {
        let playing = self.is_playing(playback.state);
        let back: i64 = self.last_playhead_observed - playback.playhead;
        if self.last_is_playing && !playing {
            self.handle_playback_stop_transition(out);
        }
        self.last_playhead_observed = playback.playhead;
        self.last_is_playing = playing;
        self.last_playback_state = playback.state;
        let jumped_back = if playback.state == PlaybackState::Playing && back > JUMP_SLACK {
            Some(back)
        } else {
            None
        };
        PassEnd { jumped_back, repaint: playing }
    }

    /// The clip that a pipeline plays: that of the forward one, where there is one.
    pub fn active_timeline_clip(&self) -> (r: Option<TimelineClipId>)
        ensures
            r == match self.forward {
                Some(f) => Some(f.timeline_clip),
                None => match self.reverse {
                    Some(v) => Some(v.timeline_clip),
                    None => None,
                },
            },
    {
        match self.forward {
            Some(f) => Some(f.timeline_clip),
            None => match self.reverse {
                Some(v) => Some(v.timeline_clip),
                None => None,
            },
        }
    }
}

/// That playback has stopped is noticed once: the passes after it find nothing to drop.
pub proof fn law_stop_is_noticed_once(e: PlaybackEngine, p: Playback)
    requires
        p.state == PlaybackState::Stopped,
    ensures
        !e.noted(p).last_is_playing,
        e.noted(p).noted(p) == e.noted(p),
{
}

} // verus!
