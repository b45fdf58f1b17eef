//! What has come from the pipelines and the decoders is taken in.

use vstd::prelude::*;

use crate::engine::forward::{clip_of, find_timeline_clip, NextClip, Polled, Readiness};
use crate::engine::lookahead::{is_best_forward, is_best_reverse, law_best_forward_unique, law_best_reverse_unique, pick_best_frame_for_playhead, pick_best_reverse_frame_for_playhead, places};
use crate::engine::rewind_cache::{best_for, trimmed, RewindCache, RewindCacheEntry, TRIM_SLACK};
use crate::engine::slots::{plays, scene, Command, FrameOrigin, FrameRef, PendingPipeline, PlaybackEngine, Scene, Shown};
use crate::playback::{Playback, PlaybackState};
use crate::time::{in_time, TIME_LIMIT};
use crate::timeline::clip::TimelineClip;
use crate::timeline::lanes::{Timeline, TimelineView};

verus! {

impl Scene {
    /// Reverse playback is served from the kept frames: the pictures ahead of the
    /// playhead go, and the best of the rest is shown.
    pub open spec fn cache_served(self, best: Option<RewindCacheEntry>) -> Scene {
        match best {
            None => self,
            Some(e) => self.with(
                PlaybackEngine {
                    last_decoded_frame: Some(
                        Shown { pts: e.source_pts, origin: FrameOrigin::Cache },
                    ),
                    ..self.engine
                },
            ).say(Command::ShowFrame(e.frame)),
        }
    }

    /// A reverse pipeline delivers while the kept frames are shown: they go, and the
    /// pipeline is started anew from where the playhead has come to.
    pub open spec fn cache_given_up(self, here: NextClip, now: int) -> Scene {
        let dropped = self.with(
            PlaybackEngine { reverse: None, pending_reverse: None, ..self.engine },
        );
        match (here.hit, here.source) {
            (Some(hit), Some(source)) => {
                let pending = PendingPipeline {
                    clip: source,
                    timeline_clip: hit.clip.id,
                    speed: self.playback.speed,
                    started_at: now as i64,
                };
                dropped.with(
                    PlaybackEngine { pending_reverse: Some(pending), ..dropped.engine },
                ).say(Command::SpawnReverse { pending, source_time: hit.source_time })
            },
            _ => dropped,
        }
    }
}

impl PlaybackEngine {
    /// Serves reverse playback from the kept frames, until the pipeline delivers. Says
    /// whether a picture was shown.
    pub fn serve_from_cache(
        &mut self,
        playback: &Playback,
        cache: &mut RewindCache,
        pipeline_delivered: bool,
        here: NextClip,
        now: i64,
        out: &mut Vec<Command>,
    ) -> (r: bool)
        requires
            old(self).wf(),
            old(cache).wf(),
            playback.playhead + TRIM_SLACK <= i64::MAX,
            in_time(now as int),
        ensures
            final(cache)@ == if pipeline_delivered {
                Seq::<RewindCacheEntry>::empty()
            } else {
                trimmed(old(cache)@, playback.playhead as int)
            },
            final(cache).wf(),
            scene(*final(self), *playback, final(out)@) == if pipeline_delivered {
                scene(*old(self), *playback, old(out)@).cache_given_up(here, now as int)
            } else {
                scene(*old(self), *playback, old(out)@).cache_served(
                    best_for(
                        trimmed(old(cache)@, playback.playhead as int),
                        playback.playhead as int,
                    ),
                )
            },
            r == (!pipeline_delivered && best_for(
                trimmed(old(cache)@, playback.playhead as int),
                playback.playhead as int,
            ) is Some),
            final(self).wf(),
    {
        if pipeline_delivered {
            cache.clear();
            self.reverse = None;
            self.pending_reverse = None;
            if let Some(hit) = here.hit {
                if let Some(source) = here.source {
                    let pending = PendingPipeline {
                        clip: source,
                        timeline_clip: hit.clip.id,
                        speed: playback.speed,
                        started_at: now,
                    };
                    self.pending_reverse = Some(pending);
                    out.push(Command::SpawnReverse { pending, source_time: hit.source_time });
                }
            }
            return false;
        }
        cache.trim_above(playback.playhead);
        match cache.best_entry_for_playhead(playback.playhead) {
            Some(entry) => {
                out.push(Command::ShowFrame(entry.frame));
                self.last_decoded_frame = Some(
                    Shown { pts: entry.source_pts, origin: FrameOrigin::Cache },
                );
                true
            },
            None => false,
        }
    }
}

/// What has come since the last look.
#[derive(Debug)]
pub struct Incoming {
    /// The last picture that was decoded on demand.
    pub fallback: Option<u64>,
    /// The first frame of the shadow pipeline.
    pub shadow_frame: Option<FrameRef>,
    /// The frames of the forward pipeline, in their order.
    pub forward: Vec<FrameRef>,
    /// The frames of the reverse pipeline, in their order.
    pub reverse: Vec<FrameRef>,
    /// A sound preview has come.
    pub snippet: bool,
}

/// What taking it in goes by.
#[derive(Debug, Clone, Copy)]
pub struct PollContext {
    pub now: i64,
    pub scrubbing: bool,
    /// What is on at the playhead.
    pub here: NextClip,
    /// What is on where the clip that plays forward ends.
    pub next: NextClip,
    /// What is on before the clip that plays in reverse.
    pub previous: NextClip,
    /// How near its start a clip that plays in reverse counts as over.
    pub boundary: i64,
    pub ready: Readiness,
    /// What came of the shadow pipeline that was being started.
    pub polled_shadow: Polled,
}

/// The positions of some frames lie within the limits.
pub open spec fn frames_in_time(frames: Seq<FrameRef>) -> bool {
    forall|i: int| 0 <= i < frames.len() ==> in_time((#[trigger] frames[i]).pts as int)
}

/// The frame that is shown of those that came from a forward pipeline.
pub open spec fn best_forward(
    frames: Seq<FrameRef>,
    offset: Option<i64>,
    c: Option<TimelineClip>,
    playhead: int,
) -> FrameRef {
    frames[choose|i: int| is_best_forward(places(frames, offset, c), playhead, i)]
}

/// The frame that is shown of those that came from a reverse pipeline.
pub open spec fn best_reverse(
    frames: Seq<FrameRef>,
    offset: Option<i64>,
    c: Option<TimelineClip>,
    playhead: int,
) -> FrameRef {
    frames[choose|i: int| is_best_reverse(places(frames, offset, c), playhead, i)]
}

impl Scene {
    /// A picture that was decoded on demand is shown, where it has its place.
    pub open spec fn fallback_taken(
        self,
        fallback: Option<u64>,
        scrubbing: bool,
        cache_is_empty: bool,
        now: int,
    ) -> Scene {
        if fallback is Some && self.engine.fallback_shown(
            self.playback.state,
            scrubbing,
            cache_is_empty,
            now,
        ) {
            self.say(Command::ShowFrame(fallback->0))
        } else {
            self
        }
    }

    /// One of the frames of the forward pipeline is shown and followed.
    pub open spec fn forward_taken(
        self,
        frames: Seq<FrameRef>,
        t: TimelineView,
        x: PollContext,
    ) -> Scene {
        match self.engine.forward {
            Some(f) if frames.len() > 0 => self.forward_frame_applied(
                best_forward(
                    frames,
                    f.pts_offset,
                    clip_of(t, f.timeline_clip),
                    self.playback.playhead as int,
                ),
                t,
                x.next,
                x.now as int,
                x.polled_shadow,
            ),
            _ => self,
        }
    }

    /// One of the frames of the reverse pipeline is shown and followed.
    pub open spec fn reverse_taken(
        self,
        frames: Seq<FrameRef>,
        t: TimelineView,
        x: PollContext,
    ) -> Scene {
        match self.engine.reverse {
            Some(r) if frames.len() > 0 => self.reverse_frame_applied(
                best_reverse(
                    frames,
                    r.pts_offset,
                    clip_of(t, r.timeline_clip),
                    self.playback.playhead as int,
                ),
                t,
                x.previous,
                x.boundary as int,
                x.ready,
                x.now as int,
            ),
            _ => self,
        }
    }

    /// Reverse playback is shown from the frames that were kept.
    pub open spec fn cache_active(self, kept: Seq<RewindCacheEntry>) -> bool {
        self.playback.state == PlaybackState::PlayingReverse && kept.len() > 0
    }

    /// Playback in reverse goes on, from the kept frames or from the pipeline.
    pub open spec fn reverse_side_taken(
        self,
        frames: Seq<FrameRef>,
        kept: Seq<RewindCacheEntry>,
        t: TimelineView,
        x: PollContext,
    ) -> Scene {
        if !self.cache_active(kept) {
            self.reverse_taken(frames, t, x)
        } else if frames.len() > 0 {
            self.cache_given_up(x.here, x.now as int)
        } else {
            self.cache_served(
                best_for(
                    trimmed(kept, self.playback.playhead as int),
                    self.playback.playhead as int,
                ),
            )
        }
    }

    /// A sound preview is played, unless playback runs.
    pub open spec fn snippet_taken(self, snippet: bool) -> Scene {
        if snippet && !plays(self.playback.state) {
            self.say(Command::ResetAudio).say(Command::PlaySnippet)
        } else {
            self
        }
    }

    /// What has come is taken in as far as the frames of the forward pipeline.
    pub open spec fn forward_side_polled(
        self,
        i: Incoming,
        kept: Seq<RewindCacheEntry>,
        t: TimelineView,
        x: PollContext,
    ) -> Scene {
        self.fallback_taken(
            i.fallback,
            x.scrubbing,
            kept.len() == 0,
            x.now as int,
        ).shadow_framed(i.shadow_frame).forward_taken(i.forward@, t, x)
    }

    /// What has come is taken in.
    pub open spec fn polled(
        self,
        i: Incoming,
        kept: Seq<RewindCacheEntry>,
        t: TimelineView,
        x: PollContext,
    ) -> Scene {
        self.forward_side_polled(i, kept, t, x).reverse_side_taken(
            i.reverse@,
            kept,
            t,
            x,
        ).snippet_taken(i.snippet)
    }

    /// The frames that are kept after what has come was taken in.
    pub open spec fn kept_after(
        self,
        i: Incoming,
        kept: Seq<RewindCacheEntry>,
        t: TimelineView,
        x: PollContext,
    ) -> Seq<RewindCacheEntry> {
        let s = self.forward_side_polled(i, kept, t, x);
        if !s.cache_active(kept) {
            kept
        } else if i.reverse@.len() > 0 {
            Seq::empty()
        } else {
            trimmed(kept, s.playback.playhead as int)
        }
    }

    /// A new picture is on screen once what has come is taken in.
    pub open spec fn picture_came(
        self,
        i: Incoming,
        kept: Seq<RewindCacheEntry>,
        t: TimelineView,
        x: PollContext,
    ) -> bool {
        let s = self.forward_side_polled(i, kept, t, x);
        ||| i.fallback is Some && self.engine.fallback_shown(
            self.playback.state,
            x.scrubbing,
            kept.len() == 0,
            x.now as int,
        )
        ||| i.forward@.len() > 0
        ||| if s.cache_active(kept) {
            i.reverse@.len() == 0 && best_for(
                trimmed(kept, s.playback.playhead as int),
                s.playback.playhead as int,
            ) is Some
        } else {
            i.reverse@.len() > 0
        }
    }
}

/// A frame of the forward pipeline leaves the playhead where a clip can be.
proof fn lemma_forward_playhead(s: Scene, frame: FrameRef, t: TimelineView, x: PollContext)
    requires
        t.fits(),
        in_time(s.playback.playhead as int),
        in_time(frame.pts as int),
        s.engine.wf(),
        s.engine.forward matches Some(f) ==> (clip_of(t, f.timeline_clip) matches Some(c)
            ==> c.fits()),
    ensures
        -3 * TIME_LIMIT <= s.forward_frame_applied(
            frame,
            t,
            x.next,
            x.now as int,
            x.polled_shadow,
        ).playback.playhead <= 3 * TIME_LIMIT,
        s.forward_frame_applied(
            frame,
            t,
            x.next,
            x.now as int,
            x.polled_shadow,
        ).playback.state == s.playback.state,
        s.forward_frame_applied(
            frame,
            t,
            x.next,
            x.now as int,
            x.polled_shadow,
        ).engine.reverse == s.engine.reverse,
{
    reveal(Scene::shadow_promoted);
    reveal(Scene::pipeline_started);
}

impl PlaybackEngine {
    /// Shows and follows one of the frames of the forward pipeline.
    fn take_forward(
        &mut self,
        playback: &mut Playback,
        frames: &Vec<FrameRef>,
        timeline: &Timeline,
        x: PollContext,
        out: &mut Vec<Command>,
    )
        requires
            old(self).wf(),
            timeline@.fits(),
            in_time(old(playback).playhead as int),
            in_time(x.now as int),
            frames_in_time(frames@),
            old(self).forward is None ==> frames@.len() == 0,
        ensures
            scene(*final(self), *final(playback), final(out)@) == scene(
                *old(self),
                *old(playback),
                old(out)@,
            ).forward_taken(frames@, timeline@, x),
            final(self).wf(),
            -3 * TIME_LIMIT <= final(playback).playhead <= 3 * TIME_LIMIT,
            frames@.len() == 0 ==> *final(playback) == *old(playback),
            final(playback).state == old(playback).state,
            final(self).reverse == old(self).reverse,
    {
        if frames.len() == 0 {
            return;
        }
        if let Some(f) = self.forward {
            let clip = find_timeline_clip(timeline, f.timeline_clip);
            let best: usize = pick_best_frame_for_playhead(
                frames,
                f.pts_offset,
                clip,
                playback.playhead,
            );
            let frame = frames[best];
            proof {
                let all = places(frames@, f.pts_offset, clip);
                let p = playback.playhead as int;
                law_best_forward_unique(
                    all,
                    p,
                    best as int,
                    choose|i: int| is_best_forward(all, p, i),
                );
                lemma_forward_playhead(
                    scene(*self, *playback, out@),
                    frame,
                    timeline@,
                    x,
                );
            }
            let _ = self.apply_pipeline_frame(
                playback,
                frame,
                timeline,
                x.next,
                x.now,
                x.polled_shadow,
                out,
            );
        }
    }

    /// Shows and follows one of the frames of the reverse pipeline.
    fn take_reverse(
        &mut self,
        playback: &mut Playback,
        frames: &Vec<FrameRef>,
        timeline: &Timeline,
        x: PollContext,
        out: &mut Vec<Command>,
    )
        requires
            old(self).wf(),
            timeline@.fits(),
            frames@.len() > 0 ==> in_time(old(playback).playhead as int),
            in_time(x.now as int),
            frames_in_time(frames@),
            old(self).reverse is None ==> frames@.len() == 0,
        ensures
            scene(*final(self), *final(playback), final(out)@) == scene(
                *old(self),
                *old(playback),
                old(out)@,
            ).reverse_taken(frames@, timeline@, x),
            final(self).wf(),
    {
        if frames.len() == 0 {
            return;
        }
        if let Some(r) = self.reverse {
            let clip = find_timeline_clip(timeline, r.timeline_clip);
            let best: usize = pick_best_reverse_frame_for_playhead(
                frames,
                r.pts_offset,
                clip,
                playback.playhead,
            );
            let frame = frames[best];
            proof {
                let all = places(frames@, r.pts_offset, clip);
                let p = playback.playhead as int;
                law_best_reverse_unique(
                    all,
                    p,
                    best as int,
                    choose|i: int| is_best_reverse(all, p, i),
                );
            }
            let _ = self.apply_reverse_pipeline_frame(
                playback,
                frame,
                timeline,
                x.previous,
                x.boundary,
                x.ready,
                x.now,
                out,
            );
        }
    }

    /// Takes in what has come from the pipelines and the decoders. Frames come only from
    /// pipelines that run, and those run in one direction only. Says whether there is a
    /// new picture.
    pub fn poll_pipeline_frames(
        &mut self,
        playback: &mut Playback,
        cache: &mut RewindCache,
        incoming: &Incoming,
        timeline: &Timeline,
        x: PollContext,
        out: &mut Vec<Command>,
    ) -> (r: bool)
        requires
            old(self).wf(),
            old(cache).wf(),
            timeline@.fits(),
            in_time(old(playback).playhead as int),
            in_time(x.now as int),
            frames_in_time(incoming.forward@),
            frames_in_time(incoming.reverse@),
            old(self).forward is None || old(self).reverse is None,
            old(self).forward is None ==> incoming.forward@.len() == 0,
            old(self).reverse is None ==> incoming.reverse@.len() == 0,
        ensures
            scene(*final(self), *final(playback), final(out)@) == scene(
                *old(self),
                *old(playback),
                old(out)@,
            ).polled(*incoming, old(cache)@, timeline@, x),
            final(cache)@ == scene(*old(self), *old(playback), old(out)@).kept_after(
                *incoming,
                old(cache)@,
                timeline@,
                x,
            ),
            r == scene(*old(self), *old(playback), old(out)@).picture_came(
                *incoming,
                old(cache)@,
                timeline@,
                x,
            ),
            final(self).wf(),
            final(cache).wf(),
    {
        let ghost before = scene(*self, *playback, out@);
        let mut received = false;
        if let Some(picture) = incoming.fallback {
            if self.shows_fallback(playback.state, x.scrubbing, cache.is_empty(), x.now) {
                out.push(Command::ShowFrame(picture));
                received = true;
            }
        }
        self.poll_shadow_frame(incoming.shadow_frame);
        assert(scene(*self, *playback, out@) == before.fallback_taken(
            incoming.fallback,
            x.scrubbing,
            cache@.len() == 0,
            x.now as int,
        ).shadow_framed(incoming.shadow_frame));
        self.take_forward(playback, &incoming.forward, timeline, x, out);
        if incoming.forward.len() > 0 {
            received = true;
        }
        assert(scene(*self, *playback, out@) == before.forward_side_polled(
            *incoming,
            cache@,
            timeline@,
            x,
        ));
        if playback.state == PlaybackState::PlayingReverse && !cache.is_empty() {
            let shown = self.serve_from_cache(
                &*playback,
                cache,
                incoming.reverse.len() > 0,
                x.here,
                x.now,
                out,
            );
            received = received || shown;
        } else {
            self.take_reverse(playback, &incoming.reverse, timeline, x, out);
            if incoming.reverse.len() > 0 {
                received = true;
            }
        }
        if incoming.snippet && !self.is_playing(playback.state) {
            out.push(Command::ResetAudio);
            out.push(Command::PlaySnippet);
        }
        received
    }
}

/// A sound preview never breaks into playback.
pub proof fn law_no_snippet_in_playback(s: Scene, snippet: bool)
    requires
        plays(s.playback.state),
    ensures
        s.snippet_taken(snippet) == s,
{
}

/// The frame that is shown from the kept ones does not lie ahead of the playhead, and is
/// one that is kept on.
pub proof fn law_cache_shows_what_it_keeps(kept: Seq<RewindCacheEntry>, playhead: int)
    ensures
        best_for(trimmed(kept, playhead), playhead) matches Some(e) ==> e.timeline_pos <= playhead
            + crate::engine::rewind_cache::SHOW_SLACK && trimmed(kept, playhead).contains(e),
{
    crate::engine::rewind_cache::law_best_not_ahead(trimmed(kept, playhead), playhead);
}

} // verus!
