//! One look at the pipelines: which are dropped, started, or let take over.

use vstd::prelude::*;

use crate::engine::forward::{clip_of, find_timeline_clip, NextClip, Polled, Readiness};
use crate::engine::reverse::{speed_differs, speeds_differ, ReverseTuning};
use crate::engine::slots::{plays, scene, Command, ForwardPipelineState, FrameRef, PlaybackEngine, ReverseShadowState, Scene, ShadowPipelineState, Source};
use crate::engine::status::{is_overdue, overdue, STALE_PIPELINE_THRESHOLD};
use crate::ids::TimelineClipId;
use crate::playback::{Playback, PlaybackState};
use crate::time::in_time;
use crate::timeline::edit::PlayheadHit;
use crate::timeline::lanes::{Timeline, TimelineView};

verus! {

/// What a look at the pipelines goes by.
#[derive(Debug, Clone, Copy)]
pub struct Surroundings {
    pub now: i64,
    /// Where the pointer drags the playhead, while it does.
    pub scrubbing: Option<i64>,
    /// What is on at that point, or at the playhead.
    pub here: NextClip,
    /// Some sound is on at the playhead.
    pub has_audio: bool,
    /// How many sound sources play.
    pub source_count: usize,
    pub ready: Readiness,
    pub tuning: ReverseTuning,
    /// What came of the shadow pipelines that were being started.
    pub polled_shadow: Polled,
    pub polled_reverse_shadow: Polled,
    /// What the shadow pipelines that stand have delivered.
    pub shadow_frame: Option<FrameRef>,
    pub reverse_shadow_frame: Option<FrameRef>,
}

/// The pipeline's age goes up, as far as it can.
pub open spec fn older(age: u32) -> u32 {
    if age < u32::MAX {
        (age + 1) as u32
    } else {
        age
    }
}

impl Scene {
    /// The engine without the pipelines of a direction that playback does not go.
    pub open spec fn off_direction_dropped(self) -> Scene {
        let e = self.engine;
        let f = if self.playback.state != PlaybackState::Playing && e.forward is Some {
            PlaybackEngine { forward: None, shadow: None, pending_shadow: None, ..e }
        } else {
            e
        };
        if self.playback.state != PlaybackState::PlayingReverse {
            self.with(
                PlaybackEngine {
                    reverse: None,
                    pending_reverse: None,
                    reverse_shadow: None,
                    pending_reverse_shadow: None,
                    ..f
                },
            )
        } else {
            self.with(f)
        }
    }

    /// The shadow pipeline keeps its first frame.
    pub open spec fn shadow_framed(self, frame: Option<FrameRef>) -> Scene {
        self.with(
            PlaybackEngine {
                shadow: match self.engine.shadow {
                    Some(s) => if !s.first_frame_ready && frame is Some {
                        Some(
                            ShadowPipelineState {
                                first_frame_ready: true,
                                buffered_frame: frame,
                                ..s
                            },
                        )
                    } else {
                        Some(s)
                    },
                    None => None,
                },
                ..self.engine
            },
        )
    }

    /// The reverse shadow pipeline keeps its first frame.
    pub open spec fn reverse_shadow_framed(self, frame: Option<FrameRef>) -> Scene {
        self.with(
            PlaybackEngine {
                reverse_shadow: match self.engine.reverse_shadow {
                    Some(s) => if !s.first_frame_ready && frame is Some {
                        Some(
                            ReverseShadowState {
                                first_frame_ready: true,
                                buffered_frame: frame,
                                ..s
                            },
                        )
                    } else {
                        Some(s)
                    },
                    None => None,
                },
                ..self.engine
            },
        )
    }

    /// Whether the pointer drags the playhead is remembered.
    pub open spec fn scrubbing_noted(self, scrubbing: bool) -> Scene {
        self.with(PlaybackEngine { was_scrubbing: scrubbing, ..self.engine })
    }

    /// A look while playback rests: what is being prepared goes on.
    #[verifier::opaque]
    pub open spec fn at_rest(self, s: Surroundings) -> Scene {
        let polled = self.shadow_polled(s.polled_shadow).shadow_framed(
            s.shadow_frame,
        ).reverse_shadow_polled(s.polled_reverse_shadow).reverse_shadow_framed(
            s.reverse_shadow_frame,
        );
        let prepared = if s.scrubbing is None {
            polled.reverse_shadow_for_rest(s.here, s.now as int)
        } else {
            polled
        };
        prepared.scrubbing_noted(s.scrubbing is Some)
    }

    /// A look while nothing is on at the playhead.
    #[verifier::opaque]
    pub open spec fn in_gap(self, s: Surroundings) -> Scene {
        let had = self.engine.forward is Some || self.engine.reverse is Some;
        let cleared = self.with(
            PlaybackEngine {
                forward: None,
                pending_forward: None,
                reverse: None,
                last_decoded_frame: None,
                ..self.engine
            },
        ).say(Command::ClearTexture);
        let silenced = if had {
            cleared.say(Command::ResetAudio)
        } else {
            cleared
        };
        let sources = if had {
            0
        } else {
            s.source_count
        };
        let sounding = if self.playback.state == PlaybackState::Playing && s.scrubbing is None {
            if s.has_audio && sources == 0 {
                silenced.say(Command::StartAudioSources).shadow_polled(s.polled_shadow)
            } else if !s.has_audio && sources > 0 {
                silenced.say(Command::ClearMixer).say(Command::ResetAudio).shadow_polled(
                    s.polled_shadow,
                )
            } else {
                silenced.shadow_polled(s.polled_shadow)
            }
        } else {
            silenced
        };
        sounding.scrubbing_noted(s.scrubbing is Some)
    }

    /// A look while the pointer drags the playhead.
    pub open spec fn under_scrub(self) -> Scene {
        self.with(
            PlaybackEngine {
                forward: None,
                pending_forward: None,
                reverse: None,
                shadow: None,
                pending_shadow: None,
                was_scrubbing: true,
                ..self.engine
            },
        ).say(Command::ClearRewindCache).say(Command::ResetAudio)
    }

    /// The forward pipeline is a look older.
    pub open spec fn aged(self) -> Scene {
        match self.engine.forward {
            Some(f) => self.with(
                PlaybackEngine {
                    forward: Some(ForwardPipelineState { age: older(f.age), ..f }),
                    ..self.engine
                },
            ),
            None => self,
        }
    }

    /// A new forward pipeline is needed for the clip. One that is young is given time.
    pub open spec fn needs_forward(self, timeline_clip: TimelineClipId, source: Source) -> bool {
        match self.engine.forward {
            None => !(self.engine.pending_forward matches Some(p) && p.timeline_clip
                == timeline_clip && p.clip.clip == source.clip),
            Some(f) => f.age >= 2 && (f.timeline_clip != timeline_clip || f.clip != source),
        }
    }

    /// The forward pipeline runs at the speed of playback.
    pub open spec fn forward_speed_kept(self) -> Scene {
        match self.engine.forward {
            Some(f) => if speed_differs(self.playback.speed as int, f.speed as int) {
                self.with(
                    PlaybackEngine {
                        forward: Some(ForwardPipelineState { speed: self.playback.speed, ..f }),
                        ..self.engine
                    },
                ).say(
                    Command::UpdateSpeed { handle: f.handle, speed: self.playback.speed },
                ).say(Command::ResetAudio).say(Command::StartAudioSources)
            } else {
                self
            },
            None => self,
        }
    }

    /// Nothing of forward playback is left.
    pub open spec fn forward_dropped(self) -> Scene {
        self.with(
            PlaybackEngine {
                forward: None,
                pending_forward: None,
                shadow: None,
                pending_shadow: None,
                ..self.engine
            },
        )
    }

    /// Forward playback of a clip begins anew.
    pub open spec fn forward_restarted(
        self,
        hit: PlayheadHit,
        source: Source,
        t: TimelineView,
        now: int,
        polled: Polled,
    ) -> Scene {
        self.pipeline_started(
            hit.clip.id,
            source,
            hit.source_time as int,
            now,
            match clip_of(t, hit.clip.id) {
                Some(c) => Some(c.end_at() as i64),
                None => None,
            },
            polled,
        )
    }

    /// A look during forward playback of what is on.
    #[verifier::opaque]
    pub open spec fn forward_kept(
        self,
        hit: PlayheadHit,
        source: Source,
        t: TimelineView,
        s: Surroundings,
    ) -> Scene {
        let released = self.engine.was_scrubbing;
        let a = self.aged();
        let needs_new = a.needs_forward(hit.clip.id, source);
        let b = if needs_new {
            a
        } else {
            a.forward_speed_kept()
        };
        let stale = b.engine.forward matches Some(f) && overdue(
            f.last_frame_time,
            s.now as int,
            STALE_PIPELINE_THRESHOLD as int,
        );
        if stale && !needs_new {
            b.forward_dropped().say(Command::ResetAudio).forward_restarted(
                hit,
                source,
                t,
                s.now as int,
                s.polled_shadow,
            )
        } else if released || needs_new {
            if !released && b.engine.forward is None && b.shadow_is_for(hit.clip.id) {
                b.shadow_promoted(self.playback.playhead as int, hit, s.now as int)
            } else {
                let dropped = if released {
                    b.forward_dropped().say(Command::ResetAudio)
                } else {
                    b.forward_dropped()
                };
                dropped.forward_restarted(hit, source, t, s.now as int, s.polled_shadow)
            }
        } else {
            b
        }
    }

    /// A look during reverse playback of what is on.
    #[verifier::opaque]
    pub open spec fn reverse_kept_or_promoted(
        self,
        hit: PlayheadHit,
        source: Source,
        t: TimelineView,
        s: Surroundings,
    ) -> Scene {
        if self.engine.reverse is None && self.engine.pending_reverse is None
            && self.reverse_shadow_is_for(hit.clip.id) {
            self.reverse_shadow_promoted(s.now as int).activated(s.ready, s.now as int)
        } else {
            self.reverse_kept(
                hit.clip.id,
                source,
                hit.source_time as int,
                t,
                s.tuning,
                s.now as int,
            )
        }
    }

    /// One look at the pipelines.
    pub open spec fn managed(self, s: Surroundings, t: TimelineView) -> Scene {
        let d = self.activated(s.ready, s.now as int).off_direction_dropped();
        if !plays(self.playback.state) {
            d.at_rest(s)
        } else {
            match (s.here.hit, s.here.source) {
                (None, _) => d.in_gap(s),
                (Some(_), None) => d.scrubbing_noted(s.scrubbing is Some),
                (Some(hit), Some(source)) => if s.scrubbing is Some {
                    d.under_scrub()
                } else if self.playback.state == PlaybackState::Playing {
                    d.forward_kept(hit, source, t, s).scrubbing_noted(false)
                } else {
                    d.reverse_kept_or_promoted(hit, source, t, s).scrubbing_noted(false)
                },
            }
        }
    }
}

impl PlaybackEngine {
    fn drop_off_direction(&mut self, playback: &Playback, out: &Vec<Command>)
        requires
            old(self).wf(),
        ensures
            scene(*final(self), *playback, out@) == scene(
                *old(self),
                *playback,
                out@,
            ).off_direction_dropped(),
            final(self).wf(),
    {
        if !(playback.state == PlaybackState::Playing) && self.forward.is_some() {
            self.forward = None;
            self.shadow = None;
            self.pending_shadow = None;
        }
        if !(playback.state == PlaybackState::PlayingReverse) {
            self.reverse = None;
            self.pending_reverse = None;
            self.reverse_shadow = None;
            self.pending_reverse_shadow = None;
        }
    }

    fn manage_at_rest(&mut self, playback: &Playback, s: Surroundings, out: &mut Vec<Command>)
        requires
            old(self).wf(),
        ensures
            scene(*final(self), *playback, final(out)@) == scene(
                *old(self),
                *playback,
                old(out)@,
            ).at_rest(s),
            final(self).wf(),
    {
        reveal(Scene::at_rest);
        self.poll_pending_shadow_pipeline(s.polled_shadow, out, playback);
        self.poll_shadow_frame(s.shadow_frame);
        self.poll_pending_reverse_shadow(s.polled_reverse_shadow, out, playback);
        self.poll_reverse_shadow_frame(s.reverse_shadow_frame);
        if s.scrubbing.is_none() {
            self.manage_reverse_shadow_for_stopped(playback, s.here, s.now, out);
        }
        self.was_scrubbing = s.scrubbing.is_some();
    }

    fn manage_in_gap(&mut self, playback: &Playback, s: Surroundings, out: &mut Vec<Command>)
        requires
            old(self).wf(),
        ensures
            scene(*final(self), *playback, final(out)@) == scene(
                *old(self),
                *playback,
                old(out)@,
            ).in_gap(s),
            final(self).wf(),
    {
        reveal(Scene::in_gap);
        let had = self.forward.is_some() || self.reverse.is_some();
        self.forward = None;
        self.pending_forward = None;
        self.reverse = None;
        out.push(Command::ClearTexture);
        self.last_decoded_frame = None;
        if had {
            out.push(Command::ResetAudio);
        }
        let sources: usize = if had {
            0
        } else {
            s.source_count
        };
        if playback.state == PlaybackState::Playing && s.scrubbing.is_none() {
            if s.has_audio && sources == 0 {
                out.push(Command::StartAudioSources);
            } else if !s.has_audio && sources > 0 {
                out.push(Command::ClearMixer);
                out.push(Command::ResetAudio);
            }
            self.poll_pending_shadow_pipeline(s.polled_shadow, out, playback);
        }
        self.was_scrubbing = s.scrubbing.is_some();
    }

    fn restart_forward(
        &mut self,
        playback: &Playback,
        hit: PlayheadHit,
        source: Source,
        timeline: &Timeline,
        s: Surroundings,
        out: &mut Vec<Command>,
    )
        requires
            old(self).wf(),
            old(self).forward is None,
            timeline@.fits(),
            in_time(s.now as int),
            in_time(playback.playhead as int),
        ensures
            scene(*final(self), *playback, final(out)@) == scene(
                *old(self),
                *playback,
                old(out)@,
            ).forward_restarted(hit, source, timeline@, s.now as int, s.polled_shadow),
            final(self).wf(),
    {
        let end = match find_timeline_clip(timeline, hit.clip.id) {
            Some(c) => Some(c.end()),
            None => None,
        };
        self.start_pipeline(
            playback,
            hit.clip.id,
            source,
            hit.source_time,
            s.now,
            end,
            s.polled_shadow,
            out,
        );
    }

    fn manage_forward(
        &mut self,
        playback: &mut Playback,
        hit: PlayheadHit,
        source: Source,
        timeline: &Timeline,
        s: Surroundings,
        out: &mut Vec<Command>,
    )
        requires
            old(self).wf(),
            timeline@.fits(),
            in_time(s.now as int),
            in_time(old(playback).playhead as int),
        ensures
            scene(*final(self), *final(playback), final(out)@) == scene(
                *old(self),
                *old(playback),
                old(out)@,
            ).forward_kept(hit, source, timeline@, s),
            final(self).wf(),
    {
        reveal(Scene::forward_kept);
        let released = self.was_scrubbing;
        if let Some(f) = self.forward {
            let mut fwd = f;
            if fwd.age < u32::MAX {
                fwd.age = fwd.age + 1;
            }
            self.forward = Some(fwd);
        }
        let needs_new = match self.forward {
            None => match self.pending_forward {
                Some(p) => !(p.timeline_clip == hit.clip.id && p.clip.clip == source.clip),
                None => true,
            },
            Some(f) => f.age >= 2 && !(f.timeline_clip == hit.clip.id && f.clip == source),
        };
        if !needs_new {
            if let Some(f) = self.forward {
                if speeds_differ(playback.speed, f.speed) {
                    let mut fwd = f;
                    fwd.speed = playback.speed;
                    self.forward = Some(fwd);
                    out.push(Command::UpdateSpeed { handle: f.handle, speed: playback.speed });
                    out.push(Command::ResetAudio);
                    out.push(Command::StartAudioSources);
                }
            }
        }
        let stale = match self.forward {
            Some(f) => is_overdue(f.last_frame_time, s.now, STALE_PIPELINE_THRESHOLD),
            None => false,
        };
        if stale && !needs_new {
            self.forward = None;
            self.pending_forward = None;
            self.shadow = None;
            self.pending_shadow = None;
            out.push(Command::ResetAudio);
            self.restart_forward(playback, hit, source, timeline, s, out);
            return;
        }
        if released || needs_new {
            if !released && self.forward.is_none() {
                let playhead: i64 = playback.playhead;
                if self.promote_shadow_pipeline(playback, playhead, hit, s.now, out) {
                    return;
                }
            }
            self.forward = None;
            self.pending_forward = None;
            self.shadow = None;
            self.pending_shadow = None;
            if released {
                out.push(Command::ResetAudio);
            }
            self.restart_forward(playback, hit, source, timeline, s, out);
        }
    }

    fn manage_reverse(
        &mut self,
        playback: &Playback,
        hit: PlayheadHit,
        source: Source,
        timeline: &Timeline,
        s: Surroundings,
        out: &mut Vec<Command>,
    )
        requires
            old(self).wf(),
            timeline@.fits(),
            in_time(s.now as int),
            in_time(hit.source_time as int),
        ensures
            scene(*final(self), *playback, final(out)@) == scene(
                *old(self),
                *playback,
                old(out)@,
            ).reverse_kept_or_promoted(hit, source, timeline@, s),
            final(self).wf(),
    {
        reveal(Scene::reverse_kept_or_promoted);
        if self.reverse.is_none() && self.pending_reverse.is_none() && self.promote_reverse_shadow(
            playback,
            hit.clip.id,
            s.now,
            out,
        ) {
            self.try_activate_pipeline(s.ready, s.now, out, playback);
        } else {
            self.manage_reverse_pipeline(
                playback,
                hit.clip.id,
                source,
                hit.source_time,
                timeline,
                s.tuning,
                s.now,
                out,
            );
        }
    }

    fn manage_under_scrub(&mut self, playback: &Playback, out: &mut Vec<Command>)
        requires
            old(self).wf(),
        ensures
            scene(*final(self), *playback, final(out)@) == scene(
                *old(self),
                *playback,
                old(out)@,
            ).under_scrub(),
            final(self).wf(),
    {
        self.forward = None;
        self.pending_forward = None;
        self.reverse = None;
        self.shadow = None;
        self.pending_shadow = None;
        out.push(Command::ClearRewindCache);
        out.push(Command::ResetAudio);
        self.was_scrubbing = true;
    }

    /// Looks at the pipelines: drops those that playback has no use for, starts those
    /// that it needs, and lets one that was made ready take over.
    pub fn manage_pipeline(
        &mut self,
        playback: &mut Playback,
        timeline: &Timeline,
        s: Surroundings,
        out: &mut Vec<Command>,
    )
        requires
            old(self).wf(),
            timeline@.fits(),
            in_time(s.now as int),
            in_time(old(playback).playhead as int),
            s.here.hit matches Some(hit) ==> in_time(hit.source_time as int),
        ensures
            scene(*final(self), *final(playback), final(out)@) == scene(
                *old(self),
                *old(playback),
                old(out)@,
            ).managed(s, timeline@),
            final(self).wf(),
    {
        self.try_activate_pipeline(s.ready, s.now, out, playback);
        self.drop_off_direction(playback, out);
        if !self.is_playing(playback.state) {
            self.manage_at_rest(playback, s, out);
            return;
        }
        let hit = match s.here.hit {
            None => {
                self.manage_in_gap(playback, s, out);
                return;
            },
            Some(hit) => hit,
        };
        let source = match s.here.source {
            None => {
                self.was_scrubbing = s.scrubbing.is_some();
                return;
            },
            Some(source) => source,
        };
        if s.scrubbing.is_some() {
            self.manage_under_scrub(playback, out);
            return;
        }
        if playback.state == PlaybackState::Playing {
            self.manage_forward(playback, hit, source, timeline, s, out);
        } else {
            self.manage_reverse(playback, hit, source, timeline, s, out);
        }
        self.was_scrubbing = false;
    }
}

/// Forward playback leaves the pipelines of reverse playback and the transport alone.
proof fn lemma_forward_side(
    sc: Scene,
    hit: PlayheadHit,
    source: Source,
    t: TimelineView,
    s: Surroundings,
)
    ensures
        ({
            let after = sc.forward_kept(hit, source, t, s);
            &&& after.playback == sc.playback
            &&& after.engine.reverse == sc.engine.reverse
            &&& after.engine.pending_reverse == sc.engine.pending_reverse
        }),
{
    reveal(Scene::forward_kept);
    reveal(Scene::pipeline_started);
    reveal(Scene::shadow_promoted);
}

/// Reverse playback leaves the pipelines of forward playback and the transport alone.
proof fn lemma_reverse_side(
    sc: Scene,
    hit: PlayheadHit,
    source: Source,
    t: TimelineView,
    s: Surroundings,
)
    ensures
        ({
            let after = sc.reverse_kept_or_promoted(hit, source, t, s);
            &&& after.playback == sc.playback
            &&& sc.engine.forward is None ==> after.engine.forward is None
        }),
{
    reveal(Scene::reverse_kept_or_promoted);
    reveal(Scene::reverse_kept);
    reveal(Scene::reverse_shadow_promoted);
}

/// At rest and in a gap nothing plays that did not play before, and the transport is
/// left alone.
proof fn lemma_idle_sides(sc: Scene, s: Surroundings)
    ensures
        sc.at_rest(s).playback == sc.playback,
        sc.at_rest(s).engine.forward == sc.engine.forward,
        sc.at_rest(s).engine.reverse == sc.engine.reverse,
        sc.at_rest(s).engine.pending_reverse == sc.engine.pending_reverse,
        sc.in_gap(s).playback == sc.playback,
        sc.in_gap(s).engine.forward is None,
        sc.in_gap(s).engine.reverse is None,
        sc.in_gap(s).engine.pending_reverse == sc.engine.pending_reverse,
{
    reveal(Scene::at_rest);
    reveal(Scene::in_gap);
}

/// After a look at the pipelines, none runs in a direction that playback does not go.
pub proof fn law_no_pipeline_off_direction(sc: Scene, s: Surroundings, t: TimelineView)
    ensures
        ({
            let after = sc.managed(s, t).engine;
            &&& sc.playback.state != PlaybackState::Playing ==> after.forward is None
            &&& sc.playback.state != PlaybackState::PlayingReverse ==> after.reverse is None
                && after.pending_reverse is None
            &&& after.forward is None || after.reverse is None
        }),
{
    let d = sc.activated(s.ready, s.now as int).off_direction_dropped();
    lemma_idle_sides(d, s);
    if s.here.hit is Some && s.here.source is Some {
        lemma_forward_side(d, s.here.hit->0, s.here.source->0, t, s);
        lemma_reverse_side(d, s.here.hit->0, s.here.source->0, t, s);
    }
}

/// While the pointer drags the playhead over what is on, no pipeline plays.
pub proof fn law_no_pipeline_under_scrub(sc: Scene, s: Surroundings, t: TimelineView)
    requires
        s.scrubbing is Some,
        s.here.hit is Some,
        s.here.source is Some,
        plays(sc.playback.state),
    ensures
        sc.managed(s, t).engine.forward is None,
        sc.managed(s, t).engine.reverse is None,
{
}

/// Where a pipeline for what is on is already being started, none is started anew.
pub proof fn law_pending_is_awaited(sc: Scene, s: Surroundings, t: TimelineView)
    requires
        sc.playback.state == PlaybackState::Playing,
        sc.engine.forward is None,
        sc.engine.reverse is None,
        !sc.engine.was_scrubbing,
        s.scrubbing is None,
        s.here.hit is Some,
        s.here.source is Some,
        sc.engine.pending_forward is Some,
        sc.engine.pending_forward->0.timeline_clip == s.here.hit->0.clip.id,
        sc.engine.pending_forward->0.clip.clip == s.here.source->0.clip,
    ensures
        sc.managed(s, t).out == sc.out,
        sc.managed(s, t).engine.pending_forward == sc.engine.pending_forward,
{
    reveal(Scene::forward_kept);
}

/// A look at the pipelines never moves the playhead, nor starts, stops or turns
/// playback.
pub proof fn law_look_keeps_transport(sc: Scene, s: Surroundings, t: TimelineView)
    ensures
        sc.managed(s, t).playback == sc.playback,
{
    let d = sc.activated(s.ready, s.now as int).off_direction_dropped();
    lemma_idle_sides(d, s);
    if s.here.hit is Some && s.here.source is Some {
        lemma_forward_side(d, s.here.hit->0, s.here.source->0, t, s);
        lemma_reverse_side(d, s.here.hit->0, s.here.source->0, t, s);
    }
}

} // verus!
