//! Forward playback: starting pipelines, having the next clip's ready in time, and
//! following the frames that come.

use vstd::prelude::*;

use crate::engine::slots::{scene, Command, ForwardPipelineState, FrameOrigin, FrameRef, PendingPipeline, PlaybackEngine, ReversePipelineState, Scene, ShadowPipelineState, Shown, Source};
use crate::engine::status::{is_within_lookahead, opt_in_time, within_lookahead};
use crate::ids::TimelineClipId;
use crate::playback::Playback;
use crate::time::{in_time, later, max_time};
use crate::timeline::clip::TimelineClip;
use crate::timeline::edit::PlayheadHit;
use crate::timeline::lanes::{Timeline, TimelineView};
use crate::timeline::overlap::all_fit;

verus! {

/// The clip with the identifier, where it is on the timeline.
pub open spec fn clip_of(t: TimelineView, id: TimelineClipId) -> Option<TimelineClip> {
    match t.clip_place(id) {
        Some(p) => Some(t.clip_at(p)),
        None => None,
    }
}

/// The clip with the identifier, where it is on the timeline.
pub fn find_timeline_clip(timeline: &Timeline, id: TimelineClipId) -> (r: Option<TimelineClip>)
    ensures
        r == clip_of(timeline@, id),
        timeline@.fits() && r is Some ==> r->0.fits(),
{
    match timeline.find_clip(id) {
        Some((_, _, c)) => {
            proof {
                let p = timeline@.clip_place(id)->0;
                if timeline@.fits() {
                    assert(all_fit(timeline@.tracks()[p.0].clips));
                }
            }
            Some(*c)
        },
        None => None,
    }
}

/// Which pipelines have their first frame ready.
#[derive(Debug, Clone, Copy)]
pub struct Readiness {
    pub forward: bool,
    pub reverse: bool,
    /// A reverse pipeline is let play after this time even without a frame.
    pub force_reverse_after: i64,
}

/// What came of a pipeline that was being started.
#[derive(Debug, Clone, Copy, PartialEq, Eq, Structural)]
pub enum Polled {
    /// Nothing yet.
    Nothing,
    /// It failed.
    Failed,
    /// It stands; the flag says whether sound was started along with it.
    Built { handle: u64, has_audio: bool },
}

impl Scene {
    /// The forward pipeline plays once its first frame is ready.
    pub open spec fn forward_activated(self, ready: Readiness) -> Scene {
        match self.engine.forward {
            Some(f) => if !f.activated && ready.forward {
                self.with(
                    PlaybackEngine {
                        forward: Some(ForwardPipelineState { activated: true, ..f }),
                        ..self.engine
                    },
                ).say(Command::BeginPlaying(f.handle))
            } else {
                self
            },
            None => self,
        }
    }

    /// The reverse pipeline plays once its first frame is ready, or after some time.
    pub open spec fn reverse_activated(self, ready: Readiness, now: int) -> Scene {
        match self.engine.reverse {
            Some(r) => if !r.activated && (ready.reverse || now - r.started_at
                >= ready.force_reverse_after) {
                self.with(
                    PlaybackEngine {
                        reverse: Some(ReversePipelineState { activated: true, ..r }),
                        ..self.engine
                    },
                ).say(Command::BeginPlaying(r.handle))
            } else {
                self
            },
            None => self,
        }
    }

    /// Pipelines that are ready play.
    pub open spec fn activated(self, ready: Readiness, now: int) -> Scene {
        self.forward_activated(ready).reverse_activated(ready, now)
    }

    /// The shadow pipeline that was being started stands, or is given up.
    pub open spec fn shadow_polled(self, polled: Polled) -> Scene {
        match self.engine.pending_shadow {
            None => self,
            Some(p) => match polled {
                Polled::Nothing => self,
                Polled::Failed => self.with(
                    PlaybackEngine { pending_shadow: None, ..self.engine },
                ),
                Polled::Built { handle, has_audio } => self.with(
                    PlaybackEngine {
                        pending_shadow: None,
                        shadow: Some(
                            ShadowPipelineState {
                                handle,
                                clip: p.clip,
                                timeline_clip: p.timeline_clip,
                                first_frame_ready: false,
                                buffered_frame: None,
                                has_audio,
                            },
                        ),
                        ..self.engine
                    },
                ),
            },
        }
    }

    /// The forward pipeline that was being started stands, or is given up.
    pub open spec fn forward_polled(self, polled: Polled, ready: Readiness, now: int) -> Scene {
        match self.engine.pending_forward {
            None => self,
            Some(p) => match polled {
                Polled::Nothing => self,
                Polled::Failed => self.with(
                    PlaybackEngine { pending_forward: None, ..self.engine },
                ),
                Polled::Built { handle, has_audio } => self.with(
                    PlaybackEngine {
                        pending_forward: None,
                        forward: Some(
                            ForwardPipelineState {
                                handle,
                                clip: p.clip,
                                timeline_clip: p.timeline_clip,
                                pts_offset: None,
                                speed: p.speed,
                                frame_delivered: false,
                                activated: false,
                                started_at: p.started_at,
                                last_frame_time: None,
                                age: 0,
                            },
                        ),
                        ..self.engine
                    },
                ).activated(ready, now),
            },
        }
    }

    /// The shadow pipeline is for the clip.
    pub open spec fn shadow_is_for(self, id: TimelineClipId) -> bool {
        self.engine.shadow matches Some(s) && s.timeline_clip == id
    }

    /// The shadow pipeline takes over at `time`, which shows `hit`.
    #[verifier::opaque]
    pub open spec fn shadow_promoted(self, time: int, hit: PlayheadHit, now: int) -> Scene {
        match self.engine.shadow {
            None => self,
            Some(s) => {
                let fwd = ForwardPipelineState {
                    handle: s.handle,
                    clip: s.clip,
                    timeline_clip: s.timeline_clip,
                    pts_offset: None,
                    speed: self.playback.speed,
                    frame_delivered: s.buffered_frame is Some,
                    activated: true,
                    started_at: now as i64,
                    last_frame_time: if s.buffered_frame is Some {
                        Some(now as i64)
                    } else {
                        None
                    },
                    age: 0,
                };
                let started = self.with(
                    PlaybackEngine { shadow: None, forward: Some(fwd), ..self.engine },
                ).say(Command::BeginPlaying(s.handle)).at(time);
                let shown = match s.buffered_frame {
                    Some(frame) => started.with(
                        PlaybackEngine {
                            last_decoded_frame: Some(
                                Shown { pts: frame.pts, origin: FrameOrigin::Forward },
                            ),
                            ..started.engine
                        },
                    ).say(Command::ShowFrame(frame.frame)),
                    None => started.with(
                        PlaybackEngine { last_video_decode_request: None, ..started.engine },
                    ).say(
                        Command::ShowBridgeFrame {
                            clip: hit.clip.source_id,
                            source_time: hit.source_time,
                        },
                    ),
                };
                if s.has_audio {
                    shown.say(Command::PromoteShadowAudio(s.handle))
                } else {
                    shown.say(Command::ResetAudio).say(Command::StartAudioSources)
                }
            },
        }
    }

    /// A forward pipeline is started for a clip.
    #[verifier::opaque]
    pub open spec fn pipeline_started(
        self,
        timeline_clip: TimelineClipId,
        source: Source,
        source_time: int,
        now: int,
        clip_end: Option<i64>,
        polled: Polled,
    ) -> Scene {
        let pending = PendingPipeline {
            clip: source,
            timeline_clip,
            speed: self.playback.speed,
            started_at: now as i64,
        };
        let started = self.with(
            PlaybackEngine {
                pending_forward: Some(pending),
                last_video_decode_request: None,
                ..self.engine
            },
        ).say(Command::ResetAudio).say(
            Command::SpawnForward { pending, source_time: source_time as i64 },
        ).say(
            Command::ShowBridgeFrame { clip: source.clip, source_time: source_time as i64 },
        ).say(Command::StartAudioSources);
        if clip_end is Some && within_lookahead(
            clip_end->0 - self.playback.playhead,
            self.playback.speed as int,
        ) {
            started.shadow_polled(polled)
        } else {
            started
        }
    }
}

impl PlaybackEngine {
    /// Lets pipelines that are ready play.
    pub fn try_activate_pipeline(
        &mut self,
        ready: Readiness,
        now: i64,
        out: &mut Vec<Command>,
        playback: &Playback,
    )
        requires
            old(self).wf(),
            in_time(now as int),
        ensures
            scene(*final(self), *playback, final(out)@) == scene(
                *old(self),
                *playback,
                old(out)@,
            ).activated(ready, now as int),
            final(self).wf(),
    {
        if let Some(f) = self.forward {
            if !f.activated && ready.forward {
                let mut fwd = f;
                fwd.activated = true;
                self.forward = Some(fwd);
                out.push(Command::BeginPlaying(f.handle));
            }
        }
        if let Some(r) = self.reverse {
            if !r.activated {
                let force_activate = !ready.reverse && now - r.started_at
                    >= ready.force_reverse_after;
                if ready.reverse || force_activate {
                    let mut rev = r;
                    rev.activated = true;
                    self.reverse = Some(rev);
                    out.push(Command::BeginPlaying(r.handle));
                }
            }
        }
    }

    /// Takes in what came of the shadow pipeline that was being started.
    pub fn poll_pending_shadow_pipeline(
        &mut self,
        polled: Polled,
        out: &Vec<Command>,
        playback: &Playback,
    )
        ensures
            scene(*final(self), *playback, out@) == scene(
                *old(self),
                *playback,
                out@,
            ).shadow_polled(polled),
            old(self).wf() ==> final(self).wf(),
            final(self).forward == old(self).forward,
    {
        if let Some(p) = self.pending_shadow {
            match polled {
                Polled::Nothing => {},
                Polled::Failed => {
                    self.pending_shadow = None;
                },
                Polled::Built { handle, has_audio } => {
                    self.pending_shadow = None;
                    self.shadow = Some(
                        ShadowPipelineState {
                            handle,
                            clip: p.clip,
                            timeline_clip: p.timeline_clip,
                            first_frame_ready: false,
                            buffered_frame: None,
                            has_audio,
                        },
                    );
                },
            }
        }
    }

    /// Takes in what came of the forward pipeline that was being started.
    pub fn poll_pending_pipeline(
        &mut self,
        polled: Polled,
        ready: Readiness,
        now: i64,
        out: &mut Vec<Command>,
        playback: &Playback,
    )
        requires
            old(self).wf(),
            in_time(now as int),
        ensures
            scene(*final(self), *playback, final(out)@) == scene(
                *old(self),
                *playback,
                old(out)@,
            ).forward_polled(polled, ready, now as int),
            final(self).wf(),
    {
        if let Some(p) = self.pending_forward {
            match polled {
                Polled::Nothing => {},
                Polled::Failed => {
                    self.pending_forward = None;
                },
                Polled::Built { handle, has_audio } => {
                    self.pending_forward = None;
                    self.forward = Some(
                        ForwardPipelineState {
                            handle,
                            clip: p.clip,
                            timeline_clip: p.timeline_clip,
                            pts_offset: None,
                            speed: p.speed,
                            frame_delivered: false,
                            activated: false,
                            started_at: p.started_at,
                            last_frame_time: None,
                            age: 0,
                        },
                    );
                    self.try_activate_pipeline(ready, now, out, playback);
                },
            }
        }
    }

    /// Lets the shadow pipeline take over at `next_time`, where it is for the clip that
    /// is then on. Says whether it did.
    pub fn promote_shadow_pipeline(
        &mut self,
        playback: &mut Playback,
        next_time: i64,
        next_hit: PlayheadHit,
        now: i64,
        out: &mut Vec<Command>,
    ) -> (r: bool)
        requires
            old(self).wf(),
            in_time(now as int),
        ensures
            r == scene(*old(self), *old(playback), old(out)@).shadow_is_for(next_hit.clip.id),
            scene(*final(self), *final(playback), final(out)@) == if r {
                scene(*old(self), *old(playback), old(out)@).shadow_promoted(
                    next_time as int,
                    next_hit,
                    now as int,
                )
            } else {
                scene(*old(self), *old(playback), old(out)@)
            },
            final(self).wf(),
    {
        reveal(Scene::shadow_promoted);
        let shadow = match self.shadow {
            Some(s) => {
                if !(s.timeline_clip == next_hit.clip.id) {
                    return false;
                }
                s
            },
            None => {
                return false;
            },
        };
        self.shadow = None;
        out.push(Command::BeginPlaying(shadow.handle));
        self.forward = Some(
            ForwardPipelineState {
                handle: shadow.handle,
                clip: shadow.clip,
                timeline_clip: shadow.timeline_clip,
                pts_offset: None,
                speed: playback.speed,
                frame_delivered: shadow.buffered_frame.is_some(),
                activated: true,
                started_at: now,
                last_frame_time: if shadow.buffered_frame.is_some() {
                    Some(now)
                } else {
                    None
                },
                age: 0,
            },
        );
        playback.playhead = next_time;
        match shadow.buffered_frame {
            Some(frame) => {
                out.push(Command::ShowFrame(frame.frame));
                self.last_decoded_frame = Some(
                    Shown { pts: frame.pts, origin: FrameOrigin::Forward },
                );
            },
            None => {
                out.push(
                    Command::ShowBridgeFrame {
                        clip: next_hit.clip.source_id,
                        source_time: next_hit.source_time,
                    },
                );
                self.last_video_decode_request = None;
            },
        }
        if shadow.has_audio {
            out.push(Command::PromoteShadowAudio(shadow.handle));
        } else {
            out.push(Command::ResetAudio);
            out.push(Command::StartAudioSources);
        }
        true
    }

    /// Starts a forward pipeline for a clip, with sound, and shows what there is until
    /// its first frame comes.
    pub fn start_pipeline(
        &mut self,
        playback: &Playback,
        timeline_clip_id: TimelineClipId,
        source: Source,
        source_time: i64,
        now: i64,
        clip_end: Option<i64>,
        polled: Polled,
        out: &mut Vec<Command>,
    )
        requires
            old(self).wf(),
            old(self).forward is None,
            in_time(now as int),
            in_time(playback.playhead as int),
            opt_in_time(clip_end),
        ensures
            scene(*final(self), *playback, final(out)@) == scene(
                *old(self),
                *playback,
                old(out)@,
            ).pipeline_started(
                timeline_clip_id,
                source,
                source_time as int,
                now as int,
                clip_end,
                polled,
            ),
            final(self).wf(),
    {
        reveal(Scene::pipeline_started);
        out.push(Command::ResetAudio);
        let pending = PendingPipeline {
            clip: source,
            timeline_clip: timeline_clip_id,
            speed: playback.speed,
            started_at: now,
        };
        self.pending_forward = Some(pending);
        out.push(Command::SpawnForward { pending, source_time });
        out.push(Command::ShowBridgeFrame { clip: source.clip, source_time });
        self.last_video_decode_request = None;
        out.push(Command::StartAudioSources);
        if let Some(end) = clip_end {
            if is_within_lookahead(end - playback.playhead, playback.speed) {
                self.poll_pending_shadow_pipeline(polled, out, playback);
            }
        }
    }
}

/// What comes after the clip that plays.
#[derive(Debug, Clone, Copy)]
pub struct NextClip {
    /// What is on when the clip ends.
    pub hit: Option<PlayheadHit>,
    /// Its media file, where that is known.
    pub source: Option<Source>,
}

/// The playhead counts as at the end of a clip from this much before on.
pub const END_SLACK: i64 = 16_000_000;

/// How far the positions that a pipeline reports are from those of the file: as far as
/// its first frame was from what was expected at the playhead.
pub open spec fn offset_of(known: Option<i64>, pts: int, c: TimelineClip, playhead: int) -> int {
    match known {
        Some(o) => o as int,
        None => pts - (c.source_in + later(playhead - c.timeline_start, 0)),
    }
}

impl Scene {
    /// A forward frame is shown.
    pub open spec fn forward_shown(self, frame: FrameRef) -> Scene {
        self.with(
            PlaybackEngine {
                last_decoded_frame: Some(Shown { pts: frame.pts, origin: FrameOrigin::Forward }),
                ..self.engine
            },
        ).say(Command::ShowFrame(frame.frame))
    }

    /// Playback goes on with what comes after the clip that has just ended at `end`.
    pub open spec fn cut_to_next(
        self,
        end: int,
        next: NextClip,
        next_end: Option<i64>,
        now: int,
        polled: Polled,
    ) -> Scene {
        let over = self.at(end).with(PlaybackEngine { forward: None, ..self.engine });
        match next.hit {
            None => over.say(Command::ResetAudio),
            Some(hit) => if over.shadow_is_for(hit.clip.id) {
                over.shadow_promoted(end, hit, now)
            } else {
                match next.source {
                    Some(source) => over.pipeline_started(
                        hit.clip.id,
                        source,
                        hit.source_time as int,
                        now,
                        next_end,
                        polled,
                    ),
                    None => over,
                }
            },
        }
    }

    /// A frame has come from the forward pipeline, which plays clip `c` of the
    /// timeline.
    pub open spec fn forward_frame(
        self,
        f: ForwardPipelineState,
        c: TimelineClip,
        frame: FrameRef,
        next: NextClip,
        next_end: Option<i64>,
        now: int,
        polled: Polled,
    ) -> Scene {
        let shown = self.forward_shown(frame);
        let p = self.playback.playhead as int;
        let offset = offset_of(f.pts_offset, frame.pts as int, c, p);
        let mapped = frame.pts - offset;
        let known = ForwardPipelineState { pts_offset: Some(offset as i64), ..f };
        if mapped >= c.source_out {
            if p >= c.end_at() - END_SLACK && f.age >= 2 {
                shown.cut_to_next(c.end_at(), next, next_end, now, polled)
            } else {
                shown.with(
                    PlaybackEngine {
                        forward: Some(
                            ForwardPipelineState { last_frame_time: Some(now as i64), ..known },
                        ),
                        ..shown.engine
                    },
                )
            }
        } else if c.source_in <= mapped {
            let moved = if f.frame_delivered {
                shown
            } else {
                shown.at(c.timeline_start + (mapped - c.source_in))
            };
            moved.with(
                PlaybackEngine {
                    forward: Some(
                        ForwardPipelineState {
                            frame_delivered: true,
                            last_frame_time: Some(now as i64),
                            ..known
                        },
                    ),
                    ..moved.engine
                },
            ).say(Command::CountFrame)
        } else {
            shown.with(
                PlaybackEngine {
                    forward: Some(
                        ForwardPipelineState { last_frame_time: Some(now as i64), ..known },
                    ),
                    ..shown.engine
                },
            ).say(Command::CountFrame)
        }
    }

    /// A frame has come from the forward pipeline.
    pub open spec fn forward_frame_applied(
        self,
        frame: FrameRef,
        t: TimelineView,
        next: NextClip,
        now: int,
        polled: Polled,
    ) -> Scene {
        match self.engine.forward {
            None => self.forward_shown(frame).say(Command::CountFrame),
            Some(f) => match clip_of(t, f.timeline_clip) {
                None => self.forward_shown(frame).with(
                    PlaybackEngine {
                        forward: Some(
                            ForwardPipelineState { last_frame_time: Some(now as i64), ..f },
                        ),
                        ..self.forward_shown(frame).engine
                    },
                ).say(Command::CountFrame),
                Some(c) => self.forward_frame(f, c, frame, next, next_end_of(t, next), now, polled),
            },
        }
    }
}

/// Where the clip that comes next ends.
pub open spec fn next_end_of(t: TimelineView, next: NextClip) -> Option<i64> {
    match next.hit {
        Some(hit) => match clip_of(t, hit.clip.id) {
            Some(c) => Some(c.end_at() as i64),
            None => None,
        },
        None => None,
    }
}

/// The forward pipeline has reached the end of its clip, and playback goes on with what
/// comes next.
pub open spec fn at_cut(s: Scene, frame: FrameRef, t: TimelineView) -> bool {
    s.engine.forward matches Some(f) && (clip_of(t, f.timeline_clip) matches Some(c) && frame.pts
        - offset_of(f.pts_offset, frame.pts as int, c, s.playback.playhead as int) >= c.source_out
        && s.playback.playhead >= c.end_at() - END_SLACK && f.age >= 2)
}

impl PlaybackEngine {
    /// Shows a frame of the forward pipeline and follows it with the playhead: to its
    /// moment where it is the first, and to the next clip where this one is at its end.
    /// Says whether the clip goes on.
    pub fn apply_pipeline_frame(
        &mut self,
        playback: &mut Playback,
        frame: FrameRef,
        timeline: &Timeline,
        next: NextClip,
        now: i64,
        polled: Polled,
        out: &mut Vec<Command>,
    ) -> (r: bool)
        requires
            old(self).wf(),
            timeline@.fits(),
            in_time(old(playback).playhead as int),
            in_time(frame.pts as int),
            in_time(now as int),
        ensures
            scene(*final(self), *final(playback), final(out)@) == scene(
                *old(self),
                *old(playback),
                old(out)@,
            ).forward_frame_applied(frame, timeline@, next, now as int, polled),
            r == !at_cut(scene(*old(self), *old(playback), old(out)@), frame, timeline@),
            final(self).wf(),
    {
        self.last_decoded_frame = Some(Shown { pts: frame.pts, origin: FrameOrigin::Forward });
        out.push(Command::ShowFrame(frame.frame));
        let mut fwd = match self.forward {
            None => {
                out.push(Command::CountFrame);
                return true;
            },
            Some(f) => f,
        };
        if let Some(tc) = find_timeline_clip(timeline, fwd.timeline_clip) {
            let expected: i64 = tc.source_in + max_time(playback.playhead - tc.timeline_start, 0);
            let offset: i64 = match fwd.pts_offset {
                Some(offset) => offset,
                None => frame.pts - expected,
            };
            fwd.pts_offset = Some(offset);
            let mapped: i64 = frame.pts - offset;
            if mapped >= tc.source_out {
                let end: i64 = tc.end();
                if playback.playhead >= end - END_SLACK && fwd.age >= 2 {
                    playback.playhead = end;
                    self.forward = None;
                    self.go_on_with(playback, end, next, timeline, now, polled, out);
                    return false;
                }
                fwd.last_frame_time = Some(now);
                self.forward = Some(fwd);
                return true;
            }
            if mapped >= tc.source_in {
                if !fwd.frame_delivered {
                    playback.playhead = tc.timeline_start + (mapped - tc.source_in);
                }
                fwd.frame_delivered = true;
            }
        }
        fwd.last_frame_time = Some(now);
        self.forward = Some(fwd);
        out.push(Command::CountFrame);
        true
    }

    /// Goes on with what comes after the clip that has just ended.
    fn go_on_with(
        &mut self,
        playback: &mut Playback,
        end: i64,
        next: NextClip,
        timeline: &Timeline,
        now: i64,
        polled: Polled,
        out: &mut Vec<Command>,
    )
        requires
            old(self).wf(),
            old(self).forward is None,
            old(playback).playhead == end,
            in_time(end as int),
            in_time(now as int),
            timeline@.fits(),
        ensures
            scene(*final(self), *final(playback), final(out)@) == scene(
                *old(self),
                *old(playback),
                old(out)@,
            ).cut_to_next(
                end as int,
                next,
                next_end_of(timeline@, next),
                now as int,
                polled,
            ),
            final(self).wf(),
    {
        match next.hit {
            None => {
                out.push(Command::ResetAudio);
            },
            Some(hit) => {
                if self.promote_shadow_pipeline(playback, end, hit, now, out) {
                    return;
                }
                if let Some(source) = next.source {
                    let next_end = match find_timeline_clip(timeline, hit.clip.id) {
                        Some(c) => Some(c.end()),
                        None => None,
                    };
                    self.start_pipeline(
                        playback,
                        hit.clip.id,
                        source,
                        hit.source_time,
                        now,
                        next_end,
                        polled,
                        out,
                    );
                }
            },
        }
    }
}

/// The first frame of a pipeline stands for what the clip shows at the playhead, wherever
/// its positions begin; a frame that comes so much later in the stream stands for what
/// the clip shows so much later.
pub proof fn law_first_frame_calibrates(pts: int, later_pts: int, c: TimelineClip, playhead: int)
    requires
        c.covers(playhead),
        i64::MIN <= offset_of(None, pts, c, playhead) <= i64::MAX,
    ensures
        ({
            let offset = offset_of(None, pts, c, playhead);
            &&& pts - offset == c.source_at(playhead)
            &&& later_pts - offset_of(Some(offset as i64), later_pts, c, playhead) == c.source_at(
                playhead,
            ) + (later_pts - pts)
        }),
{
}

/// A cut to a clip that was prepared leaves no gap: the pipeline that waits takes over at
/// the end of the clip before, and its first frame is shown at once.
pub proof fn law_prepared_cut_has_no_gap(
    s: Scene,
    end: int,
    next: NextClip,
    next_end: Option<i64>,
    now: int,
    polled: Polled,
)
    requires
        s.engine.shadow is Some,
        s.engine.shadow->0.buffered_frame is Some,
        next.hit is Some,
        next.hit->0.clip.id == s.engine.shadow->0.timeline_clip,
    ensures
        ({
            let after = s.cut_to_next(end, next, next_end, now, polled);
            let waiting = s.engine.shadow->0;
            &&& after.engine.forward matches Some(f) && f.handle == waiting.handle
                && f.frame_delivered
            &&& after.engine.shadow is None
            &&& after.out.contains(Command::BeginPlaying(waiting.handle))
            &&& after.out.contains(Command::ShowFrame(waiting.buffered_frame->0.frame))
            &&& after.playback == s.at(end).playback
        }),
{
    reveal(Scene::shadow_promoted);
    let after = s.cut_to_next(end, next, next_end, now, polled);
    let n = s.out.len() as int;
    assert(after.out[n] == Command::BeginPlaying(s.engine.shadow->0.handle));
    assert(after.out[n + 1] == Command::ShowFrame(s.engine.shadow->0.buffered_frame->0.frame));
}

} // verus!
