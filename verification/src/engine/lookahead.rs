//! Having the next clip's pipeline ready in time, and choosing among frames.

use vstd::prelude::*;

use crate::engine::forward::{clip_of, find_timeline_clip, NextClip, Polled};
use crate::engine::slots::{scene, Command, FrameRef, PendingPipeline, PlaybackEngine, ReverseShadowState, Scene, Source};
use crate::engine::status::{beyond_lookahead, is_beyond_lookahead};
use crate::ids::TimelineClipId;
use crate::playback::{Playback, PlaybackState};
use crate::time::{in_time, later, max_time};
use crate::timeline::clip::TimelineClip;
use crate::timeline::edit::PlayheadHit;
use crate::timeline::lanes::{Timeline, TimelineView};

verus! {

/// What is known of the clip after the one that plays.
#[derive(Debug, Clone, Copy)]
pub struct Ahead {
    pub next: NextClip,
    /// How much of the clip that plays is left.
    pub remaining: Option<i64>,
}

impl Scene {
    /// A pipeline for the clip that comes next is there, or being started.
    pub open spec fn shadow_covers(self, next: NextClip) -> bool {
        next.hit matches Some(hit) && ((self.engine.shadow matches Some(s) && s.timeline_clip
            == hit.clip.id) || (self.engine.pending_shadow matches Some(p) && p.timeline_clip
            == hit.clip.id))
    }

    /// The next clip's pipeline is started once the lookahead is reached.
    pub open spec fn shadow_prepared(self, ahead: Ahead, t: TimelineView, now: int) -> Scene {
        match self.engine.forward {
            None => self,
            Some(f) => if self.playback.state != PlaybackState::Playing || self.shadow_covers(
                ahead.next,
            ) || ahead.remaining is None || beyond_lookahead(
                ahead.remaining->0 as int,
                self.playback.speed as int,
            ) || ahead.next.hit is None || ahead.next.source is None {
                self
            } else {
                let hit = ahead.next.hit->0;
                let pending = PendingPipeline {
                    clip: ahead.next.source->0,
                    timeline_clip: hit.clip.id,
                    speed: self.playback.speed,
                    started_at: now as i64,
                };
                let audio_time = match clip_of(t, f.timeline_clip) {
                    Some(c) => c.end_at() as i64,
                    None => self.playback.playhead,
                };
                self.with(
                    PlaybackEngine { shadow: None, pending_shadow: Some(pending), ..self.engine },
                ).say(
                    Command::SpawnShadow { pending, source_time: hit.source_time, audio_time },
                )
            },
        }
    }

    /// A pipeline for the clip before is there, or being started.
    pub open spec fn reverse_shadow_covers(self, id: TimelineClipId) -> bool {
        (self.engine.reverse_shadow matches Some(s) && s.timeline_clip == id) || (
        self.engine.pending_reverse_shadow matches Some(p) && p.timeline_clip == id)
    }

    /// The reverse shadow pipeline that was being started stands, or is given up.
    pub open spec fn reverse_shadow_polled(self, polled: Polled) -> Scene {
        match self.engine.pending_reverse_shadow {
            None => self,
            Some(p) => match polled {
                Polled::Nothing => self,
                Polled::Failed => self.with(
                    PlaybackEngine { pending_reverse_shadow: None, ..self.engine },
                ),
                Polled::Built { handle, has_audio } => self.with(
                    PlaybackEngine {
                        pending_reverse_shadow: None,
                        reverse_shadow: Some(
                            ReverseShadowState {
                                handle,
                                clip: p.clip,
                                timeline_clip: p.timeline_clip,
                                first_frame_ready: false,
                                buffered_frame: None,
                            },
                        ),
                        ..self.engine
                    },
                ),
            },
        }
    }

    /// A reverse shadow pipeline is started for a clip.
    pub open spec fn reverse_shadow_spawned(
        self,
        hit: PlayheadHit,
        source: Source,
        now: int,
    ) -> Scene {
        let pending = PendingPipeline {
            clip: source,
            timeline_clip: hit.clip.id,
            speed: self.playback.speed,
            started_at: now as i64,
        };
        self.with(
            PlaybackEngine {
                reverse_shadow: None,
                pending_reverse_shadow: Some(pending),
                ..self.engine
            },
        ).say(Command::SpawnReverseShadow { pending, source_time: hit.source_time })
    }

    /// The pipeline of the clip before is started once the lookahead is reached.
    pub open spec fn reverse_shadow_prepared(
        self,
        previous: NextClip,
        t: TimelineView,
        now: int,
    ) -> Scene {
        match self.engine.reverse {
            None => self,
            Some(r) => match (clip_of(t, r.timeline_clip), previous.hit, previous.source) {
                (Some(c), Some(hit), Some(source)) => if self.playback.state
                    != PlaybackState::PlayingReverse || self.reverse_shadow_covers(hit.clip.id)
                    || beyond_lookahead(
                    later(self.playback.playhead - c.timeline_start, 0),
                    self.playback.speed as int,
                ) {
                    self
                } else {
                    self.reverse_shadow_spawned(hit, source, now)
                },
                _ => self,
            },
        }
    }

    /// While playback rests, a reverse pipeline is made ready for what is on.
    pub open spec fn reverse_shadow_for_rest(self, here: NextClip, now: int) -> Scene {
        match (here.hit, here.source) {
            (Some(hit), Some(source)) => if self.reverse_shadow_covers(hit.clip.id) {
                self
            } else {
                self.reverse_shadow_spawned(hit, source, now)
            },
            _ => self,
        }
    }
}

impl PlaybackEngine {
    /// Starts the next clip's pipeline once the lookahead is reached.
    pub fn manage_shadow_pipeline(
        &mut self,
        playback: &Playback,
        ahead: Ahead,
        timeline: &Timeline,
        now: i64,
        polled: Polled,
        out: &mut Vec<Command>,
    )
        requires
            timeline@.fits(),
        ensures
            scene(*final(self), *playback, final(out)@) == scene(
                *old(self),
                *playback,
                old(out)@,
            ).shadow_polled(polled).shadow_prepared(ahead, timeline@, now as int),
            old(self).wf() ==> final(self).wf(),
    {
        self.poll_pending_shadow_pipeline(polled, out, playback);
        if !(playback.state == PlaybackState::Playing) {
            return;
        }
        let fwd = match self.forward {
            Some(f) => f,
            None => {
                return;
            },
        };
        if let Some(s) = self.shadow {
            if let Some(hit) = ahead.next.hit {
                if s.timeline_clip == hit.clip.id {
                    return;
                }
            }
        }
        if let Some(p) = self.pending_shadow {
            if let Some(hit) = ahead.next.hit {
                if p.timeline_clip == hit.clip.id {
                    return;
                }
            }
        }
        let remaining: i64 = match ahead.remaining {
            Some(r) => r,
            None => {
                return;
            },
        };
        if is_beyond_lookahead(remaining, playback.speed) {
            return;
        }
        if let Some(hit) = ahead.next.hit {
            if let Some(source) = ahead.next.source {
                let audio_time: i64 = match find_timeline_clip(timeline, fwd.timeline_clip) {
                    Some(c) => c.end(),
                    None => playback.playhead,
                };
                let pending = PendingPipeline {
                    clip: source,
                    timeline_clip: hit.clip.id,
                    speed: playback.speed,
                    started_at: now,
                };
                self.shadow = None;
                self.pending_shadow = Some(pending);
                out.push(
                    Command::SpawnShadow { pending, source_time: hit.source_time, audio_time },
                );
            }
        }
    }

    /// Takes in what came of the reverse shadow pipeline that was being started.
    pub fn poll_pending_reverse_shadow(
        &mut self,
        polled: Polled,
        out: &Vec<Command>,
        playback: &Playback,
    )
        ensures
            scene(*final(self), *playback, out@) == scene(
                *old(self),
                *playback,
                out@,
            ).reverse_shadow_polled(polled),
            old(self).wf() ==> final(self).wf(),
    {
        if let Some(p) = self.pending_reverse_shadow {
            match polled {
                Polled::Nothing => {},
                Polled::Failed => {
                    self.pending_reverse_shadow = None;
                },
                Polled::Built { handle, has_audio } => {
                    self.pending_reverse_shadow = None;
                    self.reverse_shadow = Some(
                        ReverseShadowState {
                            handle,
                            clip: p.clip,
                            timeline_clip: p.timeline_clip,
                            first_frame_ready: false,
                            buffered_frame: None,
                        },
                    );
                },
            }
        }
    }

    fn spawn_reverse_shadow(
        &mut self,
        playback: &Playback,
        hit: PlayheadHit,
        source: Source,
        now: i64,
        out: &mut Vec<Command>,
    )
        ensures
            scene(*final(self), *playback, final(out)@) == scene(
                *old(self),
                *playback,
                old(out)@,
            ).reverse_shadow_spawned(hit, source, now as int),
            old(self).wf() ==> final(self).wf(),
    {
        let pending = PendingPipeline {
            clip: source,
            timeline_clip: hit.clip.id,
            speed: playback.speed,
            started_at: now,
        };
        self.reverse_shadow = None;
        self.pending_reverse_shadow = Some(pending);
        out.push(Command::SpawnReverseShadow { pending, source_time: hit.source_time });
    }

    fn covers_in_reverse(&self, id: TimelineClipId) -> (r: bool)
        ensures
            forall|p: Playback, out: Seq<Command>|
                r == (#[trigger] scene(*self, p, out)).reverse_shadow_covers(id),
    {
        if let Some(s) = self.reverse_shadow {
            if s.timeline_clip == id {
                return true;
            }
        }
        if let Some(p) = self.pending_reverse_shadow {
            if p.timeline_clip == id {
                return true;
            }
        }
        false
    }

    /// Starts the pipeline of the clip before once the lookahead is reached.
    pub fn manage_reverse_shadow_pipeline(
        &mut self,
        playback: &Playback,
        previous: NextClip,
        timeline: &Timeline,
        now: i64,
        polled: Polled,
        out: &mut Vec<Command>,
    )
        requires
            timeline@.fits(),
            in_time(playback.playhead as int),
        ensures
            scene(*final(self), *playback, final(out)@) == scene(
                *old(self),
                *playback,
                old(out)@,
            ).reverse_shadow_polled(polled).reverse_shadow_prepared(
                previous,
                timeline@,
                now as int,
            ),
            old(self).wf() ==> final(self).wf(),
    {
        self.poll_pending_reverse_shadow(polled, out, playback);
        if !(playback.state == PlaybackState::PlayingReverse) {
            return;
        }
        let rev = match self.reverse {
            Some(r) => r,
            None => {
                return;
            },
        };
        let hit = match previous.hit {
            Some(h) => h,
            None => {
                return;
            },
        };
        assert(scene(*self, *playback, out@).engine == *self);
        if self.covers_in_reverse(hit.clip.id) {
            return;
        }
        let tc = match find_timeline_clip(timeline, rev.timeline_clip) {
            Some(c) => c,
            None => {
                return;
            },
        };
        let elapsed: i64 = max_time(playback.playhead - tc.timeline_start, 0);
        if is_beyond_lookahead(elapsed, playback.speed) {
            return;
        }
        if let Some(source) = previous.source {
            self.spawn_reverse_shadow(playback, hit, source, now, out);
        }
    }

    /// While playback rests, makes a reverse pipeline ready for what is on.
    pub fn manage_reverse_shadow_for_stopped(
        &mut self,
        playback: &Playback,
        here: NextClip,
        now: i64,
        out: &mut Vec<Command>,
    )
        ensures
            scene(*final(self), *playback, final(out)@) == scene(
                *old(self),
                *playback,
                old(out)@,
            ).reverse_shadow_for_rest(here, now as int),
            old(self).wf() ==> final(self).wf(),
    {
        if let Some(hit) = here.hit {
            assert(scene(*self, *playback, out@).engine == *self);
            if self.covers_in_reverse(hit.clip.id) {
                return;
            }
            if let Some(source) = here.source {
                self.spawn_reverse_shadow(playback, hit, source, now, out);
            }
        }
    }
}

/// Frames up to this far from the playhead may be shown.
pub const PICK_SLACK: i64 = 50_000_000;

/// Where a frame belongs on the timeline, by the offset of its pipeline and the clip
/// that the pipeline plays.
pub open spec fn frame_place(pts: int, offset: Option<i64>, c: Option<TimelineClip>) -> int {
    let mapped = match offset {
        Some(o) => pts - o,
        None => pts,
    };
    match c {
        Some(c) => c.timeline_start + (mapped - c.source_in),
        None => mapped,
    }
}

/// Where some frames belong on the timeline.
pub open spec fn places(
    frames: Seq<FrameRef>,
    offset: Option<i64>,
    c: Option<TimelineClip>,
) -> Seq<int> {
    Seq::new(frames.len(), |i: int| frame_place(frames[i].pts as int, offset, c))
}

/// The last of the leading frames that do not lie too far ahead; the first of all where
/// it does.
pub open spec fn is_best_forward(places: Seq<int>, playhead: int, i: int) -> bool {
    &&& 0 <= i < places.len()
    &&& if places[0] > playhead + PICK_SLACK {
        i == 0
    } else {
        &&& forall|k: int| 0 <= k <= i ==> #[trigger] places[k] <= playhead + PICK_SLACK
        &&& i + 1 < places.len() ==> places[i + 1] > playhead + PICK_SLACK
    }
}

/// The last of the leading frames that do not lie too far behind; the last of all where
/// the first does.
pub open spec fn is_best_reverse(places: Seq<int>, playhead: int, i: int) -> bool {
    &&& 0 <= i < places.len()
    &&& if places[0] < playhead - PICK_SLACK {
        i == places.len() - 1
    } else {
        &&& forall|k: int| 0 <= k <= i ==> #[trigger] places[k] >= playhead - PICK_SLACK
        &&& i + 1 < places.len() ==> places[i + 1] < playhead - PICK_SLACK
    }
}

fn place_frame(pts: i64, offset: Option<i64>, c: Option<TimelineClip>) -> (r: i64)
    requires
        in_time(pts as int),
        crate::engine::slots::offset_fits(offset),
        c matches Some(c) ==> c.fits(),
    ensures
        r == frame_place(pts as int, offset, c),
{
    let mapped: i64 = match offset {
        Some(o) => pts - o,
        None => pts,
    };
    match c {
        Some(c) => c.timeline_start + (mapped - c.source_in),
        None => mapped,
    }
}

/// Which of the frames that came from the forward pipeline is shown.
pub fn pick_best_frame_for_playhead(
    frames: &Vec<FrameRef>,
    offset: Option<i64>,
    clip: Option<TimelineClip>,
    playhead: i64,
) -> (r: usize)
    requires
        frames@.len() > 0,
        forall|i: int| 0 <= i < frames@.len() ==> in_time((#[trigger] frames@[i]).pts as int),
        crate::engine::slots::offset_fits(offset),
        clip matches Some(c) ==> c.fits(),
        in_time(playhead as int),
    ensures
        is_best_forward(places(frames@, offset, clip), playhead as int, r as int),
{
    let ghost all = places(frames@, offset, clip);
    let mut best: usize = 0;
    let mut i: usize = 0;
    while i < frames.len()
        invariant_except_break
            frames@.len() > 0,
            forall|i: int| 0 <= i < frames@.len() ==> in_time((#[trigger] frames@[i]).pts as int),
            crate::engine::slots::offset_fits(offset),
            clip matches Some(c) ==> c.fits(),
            in_time(playhead as int),
            all == places(frames@, offset, clip),
            i <= frames.len(),
            best == if i > 0 {
                i - 1
            } else {
                0
            },
            forall|k: int| 0 <= k < i ==> #[trigger] all[k] <= playhead + PICK_SLACK,
        ensures
            is_best_forward(all, playhead as int, best as int),
        decreases frames.len() - i,
    {
        let pos: i64 = place_frame(frames[i].pts, offset, clip);
        assert(pos == all[i as int]);
        if pos <= playhead + PICK_SLACK {
            best = i;
        } else {
            break;
        }
        i += 1;
    }
    best
}

/// Which of the frames that came from the reverse pipeline is shown.
pub fn pick_best_reverse_frame_for_playhead(
    frames: &Vec<FrameRef>,
    offset: Option<i64>,
    clip: Option<TimelineClip>,
    playhead: i64,
) -> (r: usize)
    requires
        frames@.len() > 0,
        forall|i: int| 0 <= i < frames@.len() ==> in_time((#[trigger] frames@[i]).pts as int),
        crate::engine::slots::offset_fits(offset),
        clip matches Some(c) ==> c.fits(),
        in_time(playhead as int),
    ensures
        is_best_reverse(places(frames@, offset, clip), playhead as int, r as int),
{
    let ghost all = places(frames@, offset, clip);
    let mut best: usize = frames.len() - 1;
    let mut i: usize = 0;
    while i < frames.len()
        invariant_except_break
            frames@.len() > 0,
            forall|i: int| 0 <= i < frames@.len() ==> in_time((#[trigger] frames@[i]).pts as int),
            crate::engine::slots::offset_fits(offset),
            clip matches Some(c) ==> c.fits(),
            in_time(playhead as int),
            all == places(frames@, offset, clip),
            i <= frames.len(),
            best == if i > 0 {
                i - 1
            } else {
                frames.len() - 1
            },
            forall|k: int| 0 <= k < i ==> #[trigger] all[k] >= playhead - PICK_SLACK,
        ensures
            is_best_reverse(all, playhead as int, best as int),
        decreases frames.len() - i,
    {
        let pos: i64 = place_frame(frames[i].pts, offset, clip);
        assert(pos == all[i as int]);
        if pos >= playhead - PICK_SLACK {
            best = i;
        } else {
            break;
        }
        i += 1;
    }
    best
}

/// Where a position in a file lies on the timeline, by the clip that plays it; none
/// where the clip does not show that position.
pub fn find_timeline_hit_for_source_pts(clip: Option<TimelineClip>, pts: i64) -> (r: Option<i64>)
    requires
        clip matches Some(c) ==> c.fits(),
    ensures
        r == match clip {
            Some(c) => if c.source_in <= pts < c.source_out {
                Some((c.timeline_start + (pts - c.source_in)) as i64)
            } else {
                None
            },
            None => None,
        },
{
    match clip {
        Some(c) => {
            if pts >= c.source_in && pts < c.source_out {
                Some(c.timeline_start + (pts - c.source_in))
            } else {
                None
            }
        },
        None => None,
    }
}

/// The choice among forward frames is the only one that fits.
pub proof fn law_best_forward_unique(places: Seq<int>, playhead: int, i: int, j: int)
    requires
        is_best_forward(places, playhead, i),
        is_best_forward(places, playhead, j),
    ensures
        i == j,
{
    if places[0] <= playhead + PICK_SLACK {
        if i < j {
            assert(places[i + 1] <= playhead + PICK_SLACK);
        } else if j < i {
            assert(places[j + 1] <= playhead + PICK_SLACK);
        }
    }
}

/// The choice among reverse frames is the only one that fits.
pub proof fn law_best_reverse_unique(places: Seq<int>, playhead: int, i: int, j: int)
    requires
        is_best_reverse(places, playhead, i),
        is_best_reverse(places, playhead, j),
    ensures
        i == j,
{
    if places[0] >= playhead - PICK_SLACK {
        if i < j {
            assert(places[i + 1] >= playhead - PICK_SLACK);
        } else if j < i {
            assert(places[j + 1] >= playhead - PICK_SLACK);
        }
    }
}

} // verus!
