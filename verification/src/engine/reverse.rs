//! Reverse playback.

use vstd::prelude::*;

use crate::engine::forward::{clip_of, find_timeline_clip, offset_of, NextClip, Polled, Readiness};
use crate::engine::slots::{scene, Command, FrameOrigin, FrameRef, PendingPipeline, PlaybackEngine, ReversePipelineState, Scene, Shown, Source};
use crate::engine::status::{is_overdue, overdue, FRAME_GAP_LONG_STALL};
use crate::ids::TimelineClipId;
use crate::playback::{Playback, PlaybackState};
use crate::text::chars_of;
use crate::time::{in_time, later, max_time, MILLI};
use crate::timeline::clip::TimelineClip;
use crate::timeline::lanes::{Timeline, TimelineView};

verus! {

/// A letter of the English alphabet in lower case; any other character as it is.
pub open spec fn ascii_lower(c: char) -> char {
    if c == 'M' {
        'm'
    } else if c == 'P' {
        'p'
    } else if c == 'E' {
        'e'
    } else if c == 'G' {
        'g'
    } else if c == 'O' {
        'o'
    } else if c == 'V' {
        'v'
    } else {
        c
    }
}

/// `ext` is the word, whatever the case of its letters.
pub open spec fn is_word(ext: Seq<char>, word: Seq<char>) -> bool {
    ext.len() == word.len() && forall|i: int|
        0 <= i < ext.len() ==> ascii_lower(#[trigger] ext[i]) == word[i]
}

fn lower(c: char) -> (r: char)
    ensures
        r == ascii_lower(c),
{
    match c {
        'M' => 'm',
        'P' => 'p',
        'E' => 'e',
        'G' => 'g',
        'O' => 'o',
        'V' => 'v',
        _ => c,
    }
}

/// Whether `ext` is the word, whatever the case of its letters. The words in question
/// are made of the letters m, p, e, g, o and v and of digits.
fn matches_word(ext: &str, word: &str) -> (r: bool)
    ensures
        r == is_word(ext@, word@),
{
    let e = chars_of(ext);
    let w = chars_of(word);
    if e.len() != w.len() {
        return false;
    }
    let mut i: usize = 0;
    while i < e.len()
        invariant
            i <= e.len(),
            e.len() == w.len(),
            e@ == ext@,
            w@ == word@,
            forall|k: int| 0 <= k < i ==> ascii_lower(#[trigger] ext@[k]) == word@[k],
        decreases e.len() - i,
    {
        if lower(e[i]) != w[i] {
            assert(ascii_lower(ext@[i as int]) != word@[i as int]);
            return false;
        }
        i += 1;
    }
    true
}

/// Files whose frames lie far apart.
pub open spec fn low_rate_mpeg(ext: Seq<char>) -> bool {
    is_word(ext, "mpg"@) || is_word(ext, "mpeg"@)
}

/// How near to the start of a clip reverse playback goes on to the clip before.
pub open spec fn boundary_threshold(ext: Seq<char>) -> int {
    if low_rate_mpeg(ext) {
        400_000_000
    } else {
        120_000_000
    }
}

/// How near to the start of a clip reverse playback goes on to the clip before, by the
/// extension of the file.
pub fn reverse_boundary_threshold(ext: &str) -> (r: i64)
    ensures
        r == boundary_threshold(ext@),
{
    if matches_word(ext, "mpg") || matches_word(ext, "mpeg") {
        400_000_000
    } else {
        120_000_000
    }
}

/// Whether a file is decoded for reverse playback without the media framework.
pub fn should_use_cpu_reverse(ext: &str) -> (r: bool)
    ensures
        r == (is_word(ext@, "mp4"@) || is_word(ext@, "mov"@) || is_word(ext@, "m4v"@)
            || low_rate_mpeg(ext@)),
{
    matches_word(ext, "mp4") || matches_word(ext, "mov") || matches_word(ext, "m4v")
        || matches_word(ext, "mpg") || matches_word(ext, "mpeg")
}

/// What reverse playback goes by: how long a pipeline may take to start, and how near
/// to the start of a clip it goes on to the clip before.
#[derive(Debug, Clone, Copy)]
pub struct ReverseTuning {
    pub startup_timeout: i64,
    pub boundary: i64,
}

/// The least time that a reverse pipeline is given to start.
pub const LEAST_STARTUP_TIMEOUT: i64 = 1_500_000_000;

/// A reverse pipeline does not deliver: it did not start in time, or stopped.
pub open spec fn reverse_stuck(r: ReversePipelineState, startup_timeout: int, now: int) -> bool {
    (r.last_frame_time is None && now - r.started_at > later(
        startup_timeout,
        LEAST_STARTUP_TIMEOUT as int,
    )) || overdue(r.last_frame_time, now, FRAME_GAP_LONG_STALL as int)
}

/// The speeds differ by more than a hundredth.
pub open spec fn speed_differs(a: int, b: int) -> bool {
    a - b > 10 || b - a > 10
}

/// Whether the speeds differ by more than a hundredth.
pub fn speeds_differ(a: i64, b: i64) -> (r: bool)
    ensures
        r == speed_differs(a as int, b as int),
{
    let d: i128 = a as i128 - b as i128;
    d > 10 || d < -10
}

impl Scene {
    /// The reverse pipeline runs at the speed of playback.
    pub open spec fn reverse_speed_kept(self) -> Scene {
        match self.engine.reverse {
            Some(r) => if speed_differs(self.playback.speed as int, r.speed as int) {
                self.with(
                    PlaybackEngine {
                        reverse: Some(ReversePipelineState { speed: self.playback.speed, ..r }),
                        ..self.engine
                    },
                ).say(Command::UpdateSpeed { handle: r.handle, speed: self.playback.speed })
            } else {
                self
            },
            None => self,
        }
    }

    /// A new reverse pipeline is needed for the clip.
    pub open spec fn needs_reverse(
        self,
        timeline_clip: TimelineClipId,
        source: Source,
        startup_timeout: int,
        now: int,
    ) -> bool {
        &&& !(self.engine.pending_reverse matches Some(p) && p.timeline_clip == timeline_clip
            && p.clip.clip == source.clip)
        &&& self.engine.reverse matches Some(r) ==> r.timeline_clip != timeline_clip || r.clip
            != source || reverse_stuck(r, startup_timeout, now)
    }

    /// A reverse pipeline is started for a clip, and what there is of its picture is
    /// shown.
    pub open spec fn reverse_spawned(
        self,
        timeline_clip: TimelineClipId,
        source: Source,
        source_time: int,
        now: int,
    ) -> Scene {
        let pending = PendingPipeline {
            clip: source,
            timeline_clip,
            speed: self.playback.speed,
            started_at: now as i64,
        };
        self.with(PlaybackEngine { pending_reverse: Some(pending), ..self.engine }).say(
            Command::SpawnReverse { pending, source_time: source_time as i64 },
        ).say(Command::ShowBridgeFrame { clip: source.clip, source_time: source_time as i64 })
    }

    /// Reverse playback of a clip is kept going.
    #[verifier::opaque]
    pub open spec fn reverse_kept(
        self,
        timeline_clip: TimelineClipId,
        source: Source,
        source_time: int,
        t: TimelineView,
        tuning: ReverseTuning,
        now: int,
    ) -> Scene {
        let kept = self.reverse_speed_kept();
        if !kept.needs_reverse(timeline_clip, source, tuning.startup_timeout as int, now) {
            kept
        } else if kept.engine.reverse is None && (clip_of(t, timeline_clip) matches Some(c)
            && source_time - c.source_in < tuning.boundary) {
            kept
        } else {
            kept.with(PlaybackEngine { reverse: None, ..kept.engine }).reverse_spawned(
                timeline_clip,
                source,
                source_time,
                now,
            )
        }
    }

    /// The reverse pipeline that was being started stands, or is given up.
    pub open spec fn reverse_polled(self, polled: Polled, ready: Readiness, now: int) -> Scene {
        match self.engine.pending_reverse {
            None => self,
            Some(p) => match polled {
                Polled::Nothing => self,
                Polled::Failed => self.with(
                    PlaybackEngine { pending_reverse: None, ..self.engine },
                ),
                Polled::Built { handle, has_audio } => self.with(
                    PlaybackEngine {
                        pending_reverse: None,
                        reverse: Some(
                            ReversePipelineState {
                                handle,
                                clip: p.clip,
                                timeline_clip: p.timeline_clip,
                                pts_offset: None,
                                speed: p.speed,
                                activated: false,
                                started_at: p.started_at,
                                last_frame_time: None,
                            },
                        ),
                        ..self.engine
                    },
                ).activated(ready, now),
            },
        }
    }

    /// The reverse shadow pipeline is for the clip.
    pub open spec fn reverse_shadow_is_for(self, id: TimelineClipId) -> bool {
        self.engine.reverse_shadow matches Some(s) && s.timeline_clip == id
    }

    /// The reverse shadow pipeline takes over.
    #[verifier::opaque]
    pub open spec fn reverse_shadow_promoted(self, now: int) -> Scene {
        match self.engine.reverse_shadow {
            None => self,
            Some(s) => {
                let rev = ReversePipelineState {
                    handle: s.handle,
                    clip: s.clip,
                    timeline_clip: s.timeline_clip,
                    pts_offset: None,
                    speed: self.playback.speed,
                    activated: s.buffered_frame is Some,
                    started_at: now as i64,
                    last_frame_time: if s.buffered_frame is Some {
                        Some(now as i64)
                    } else {
                        None
                    },
                };
                let taken = self.with(
                    PlaybackEngine { reverse_shadow: None, reverse: Some(rev), ..self.engine },
                );
                match s.buffered_frame {
                    Some(frame) => taken.with(
                        PlaybackEngine {
                            last_decoded_frame: Some(
                                Shown { pts: frame.pts, origin: FrameOrigin::Reverse },
                            ),
                            ..taken.engine
                        },
                    ).say(Command::ShowFrame(frame.frame)),
                    None => taken,
                }
            },
        }
    }

    /// Reverse playback has come to the start of a clip: it stops at the beginning of
    /// the timeline, and otherwise goes on with the clip before.
    pub open spec fn cut_to_previous(
        self,
        start: int,
        previous: NextClip,
        ready: Readiness,
        now: int,
    ) -> Scene {
        let before = later(start - MILLI, 0);
        let over = self.at(before).with(
            PlaybackEngine { reverse: None, ..self.engine },
        ).say(Command::ResetAudio);
        if before <= 0 {
            Scene {
                playback: Playback {
                    playhead: 0,
                    state: PlaybackState::Stopped,
                    ..over.playback
                },
                ..over
            }
        } else {
            match previous.hit {
                None => over,
                Some(hit) => if over.reverse_shadow_is_for(hit.clip.id) {
                    over.reverse_shadow_promoted(now).activated(ready, now)
                } else {
                    match previous.source {
                        Some(source) => over.reverse_spawned(
                            hit.clip.id,
                            source,
                            hit.source_time as int,
                            now,
                        ),
                        None => over,
                    }
                },
            }
        }
    }

    /// A reverse frame was on screen before.
    pub open spec fn reverse_was_shown(self) -> bool {
        self.engine.last_decoded_frame matches Some(s) && s.origin == FrameOrigin::Reverse
    }

    /// A reverse frame is shown.
    pub open spec fn reverse_shown(self, frame: FrameRef) -> Scene {
        self.with(
            PlaybackEngine {
                last_decoded_frame: Some(Shown { pts: frame.pts, origin: FrameOrigin::Reverse }),
                ..self.engine
            },
        ).say(Command::ShowFrame(frame.frame))
    }

    /// A frame has come from the reverse pipeline, which plays clip `c`.
    pub open spec fn reverse_frame(
        self,
        r: ReversePipelineState,
        c: TimelineClip,
        frame: FrameRef,
        previous: NextClip,
        boundary: int,
        ready: Readiness,
        now: int,
    ) -> Scene {
        let p = self.playback.playhead as int;
        let offset = offset_of(r.pts_offset, frame.pts as int, c, p);
        let mapped = frame.pts - offset;
        let shown = self.reverse_shown(frame).with(
            PlaybackEngine {
                reverse: Some(
                    ReversePipelineState {
                        pts_offset: Some(offset as i64),
                        last_frame_time: Some(now as i64),
                        ..r
                    },
                ),
                ..self.reverse_shown(frame).engine
            },
        );
        if c.source_in <= mapped < c.source_out {
            let place = c.timeline_start + (mapped - c.source_in);
            let moved = if !self.reverse_was_shown() || place <= p {
                shown.at(place)
            } else {
                shown
            };
            if mapped - c.source_in <= boundary && self.reverse_was_shown() {
                moved.cut_to_previous(c.timeline_start as int, previous, ready, now)
            } else {
                moved.say(Command::CountFrame)
            }
        } else if mapped < c.source_in {
            shown.cut_to_previous(c.timeline_start as int, previous, ready, now)
        } else {
            shown.say(Command::CountFrame)
        }
    }

    /// A frame has come from the reverse pipeline.
    pub open spec fn reverse_frame_applied(
        self,
        frame: FrameRef,
        t: TimelineView,
        previous: NextClip,
        boundary: int,
        ready: Readiness,
        now: int,
    ) -> Scene {
        match self.engine.reverse {
            None => self.reverse_shown(frame).say(Command::CountFrame),
            Some(r) => match clip_of(t, r.timeline_clip) {
                None => self.reverse_shown(frame).with(
                    PlaybackEngine {
                        reverse: Some(
                            ReversePipelineState { last_frame_time: Some(now as i64), ..r },
                        ),
                        ..self.reverse_shown(frame).engine
                    },
                ).say(Command::CountFrame),
                Some(c) => self.reverse_frame(r, c, frame, previous, boundary, ready, now),
            },
        }
    }
}

impl PlaybackEngine {
    fn spawn_reverse(
        &mut self,
        playback: &Playback,
        timeline_clip_id: TimelineClipId,
        source: Source,
        source_time: i64,
        now: i64,
        out: &mut Vec<Command>,
    )
        requires
            old(self).wf(),
            in_time(now as int),
        ensures
            scene(*final(self), *playback, final(out)@) == scene(
                *old(self),
                *playback,
                old(out)@,
            ).reverse_spawned(timeline_clip_id, source, source_time as int, now as int),
            final(self).wf(),
    {
        let pending = PendingPipeline {
            clip: source,
            timeline_clip: timeline_clip_id,
            speed: playback.speed,
            started_at: now,
        };
        self.pending_reverse = Some(pending);
        out.push(Command::SpawnReverse { pending, source_time });
        out.push(Command::ShowBridgeFrame { clip: source.clip, source_time });
    }

    /// Keeps reverse playback of a clip going: at the right speed, and with a new
    /// pipeline where the one that runs is for another clip, or stuck. Near the start of
    /// a clip none is started.
    pub fn manage_reverse_pipeline(
        &mut self,
        playback: &Playback,
        timeline_clip_id: TimelineClipId,
        source: Source,
        source_time: i64,
        timeline: &Timeline,
        tuning: ReverseTuning,
        now: i64,
        out: &mut Vec<Command>,
    )
        requires
            old(self).wf(),
            timeline@.fits(),
            in_time(now as int),
            in_time(source_time as int),
        ensures
            scene(*final(self), *playback, final(out)@) == scene(
                *old(self),
                *playback,
                old(out)@,
            ).reverse_kept(
                timeline_clip_id,
                source,
                source_time as int,
                timeline@,
                tuning,
                now as int,
            ),
            final(self).wf(),
    {
        reveal(Scene::reverse_kept);
        let speed: i64 = playback.speed;
        if let Some(r) = self.reverse {
            if speeds_differ(speed, r.speed) {
                let mut rev = r;
                rev.speed = speed;
                self.reverse = Some(rev);
                out.push(Command::UpdateSpeed { handle: r.handle, speed });
            }
        }
        if let Some(p) = self.pending_reverse {
            if p.timeline_clip == timeline_clip_id && p.clip.clip == source.clip {
                return;
            }
        }
        match self.reverse {
            Some(rev) => {
                let timeout: i64 = max_time(tuning.startup_timeout, LEAST_STARTUP_TIMEOUT);
                let timed_out = rev.last_frame_time.is_none() && now - rev.started_at > timeout;
                let stuck = timed_out || is_overdue(
                    rev.last_frame_time,
                    now,
                    FRAME_GAP_LONG_STALL,
                );
                if rev.timeline_clip == timeline_clip_id && rev.clip == source && !stuck {
                    return;
                }
            },
            None => {
                if let Some(tc) = find_timeline_clip(timeline, timeline_clip_id) {
                    if source_time - tc.source_in < tuning.boundary {
                        return;
                    }
                }
            },
        }
        self.reverse = None;
        self.spawn_reverse(playback, timeline_clip_id, source, source_time, now, out);
    }

    /// Takes in what came of the reverse pipeline that was being started.
    pub fn poll_pending_reverse_pipeline(
        &mut self,
        polled: Polled,
        ready: Readiness,
        now: i64,
        out: &mut Vec<Command>,
        playback: &Playback,
    )
        requires
            old(self).wf(),
            in_time(now as int),
        ensures
            scene(*final(self), *playback, final(out)@) == scene(
                *old(self),
                *playback,
                old(out)@,
            ).reverse_polled(polled, ready, now as int),
            final(self).wf(),
    {
        if let Some(p) = self.pending_reverse {
            match polled {
                Polled::Nothing => {},
                Polled::Failed => {
                    self.pending_reverse = None;
                },
                Polled::Built { handle, has_audio } => {
                    self.pending_reverse = None;
                    self.reverse = Some(
                        ReversePipelineState {
                            handle,
                            clip: p.clip,
                            timeline_clip: p.timeline_clip,
                            pts_offset: None,
                            speed: p.speed,
                            activated: false,
                            started_at: p.started_at,
                            last_frame_time: None,
                        },
                    );
                    self.try_activate_pipeline(ready, now, out, playback);
                },
            }
        }
    }

    /// Lets the reverse shadow pipeline take over, where it is for the clip. Says
    /// whether it did.
    pub fn promote_reverse_shadow(
        &mut self,
        playback: &Playback,
        timeline_clip_id: TimelineClipId,
        now: i64,
        out: &mut Vec<Command>,
    ) -> (r: bool)
        requires
            old(self).wf(),
            in_time(now as int),
        ensures
            r == scene(*old(self), *playback, old(out)@).reverse_shadow_is_for(timeline_clip_id),
            scene(*final(self), *playback, final(out)@) == if r {
                scene(*old(self), *playback, old(out)@).reverse_shadow_promoted(now as int)
            } else {
                scene(*old(self), *playback, old(out)@)
            },
            final(self).wf(),
    {
        reveal(Scene::reverse_shadow_promoted);
        let shadow = match self.reverse_shadow {
            Some(s) => {
                if !(s.timeline_clip == timeline_clip_id) {
                    return false;
                }
                s
            },
            None => {
                return false;
            },
        };
        self.reverse_shadow = None;
        self.reverse = Some(
            ReversePipelineState {
                handle: shadow.handle,
                clip: shadow.clip,
                timeline_clip: shadow.timeline_clip,
                pts_offset: None,
                speed: playback.speed,
                activated: shadow.buffered_frame.is_some(),
                started_at: now,
                last_frame_time: if shadow.buffered_frame.is_some() {
                    Some(now)
                } else {
                    None
                },
            },
        );
        if let Some(frame) = shadow.buffered_frame {
            out.push(Command::ShowFrame(frame.frame));
            self.last_decoded_frame = Some(
                Shown { pts: frame.pts, origin: FrameOrigin::Reverse },
            );
        }
        true
    }

    /// Goes on with the clip before the one whose start has been reached.
    fn go_back_to(
        &mut self,
        playback: &mut Playback,
        start: i64,
        previous: NextClip,
        ready: Readiness,
        now: i64,
        out: &mut Vec<Command>,
    )
        requires
            old(self).wf(),
            in_time(start as int),
            in_time(now as int),
        ensures
            scene(*final(self), *final(playback), final(out)@) == scene(
                *old(self),
                *old(playback),
                old(out)@,
            ).cut_to_previous(start as int, previous, ready, now as int),
            final(self).wf(),
    {
        let before: i64 = max_time(start - MILLI, 0);
        playback.playhead = before;
        self.reverse = None;
        out.push(Command::ResetAudio);
        if before <= 0 {
            playback.playhead = 0;
            playback.state = PlaybackState::Stopped;
        } else if let Some(hit) = previous.hit {
            if self.promote_reverse_shadow(playback, hit.clip.id, now, out) {
                self.try_activate_pipeline(ready, now, out, playback);
            } else if let Some(source) = previous.source {
                self.spawn_reverse(playback, hit.clip.id, source, hit.source_time, now, out);
            }
        }
    }

    /// Shows a frame of the reverse pipeline and follows it with the playhead, which
    /// never runs ahead again once it follows; near the start of the clip playback goes
    /// on with the clip before. Says whether the clip goes on.
    pub fn apply_reverse_pipeline_frame(
        &mut self,
        playback: &mut Playback,
        frame: FrameRef,
        timeline: &Timeline,
        previous: NextClip,
        boundary: i64,
        ready: Readiness,
        now: i64,
        out: &mut Vec<Command>,
    ) -> (r: bool)
        requires
            old(self).wf(),
            timeline@.fits(),
            in_time(old(playback).playhead as int),
            in_time(frame.pts as int),
            in_time(now as int),
        ensures
            scene(*final(self), *final(playback), final(out)@) == scene(
                *old(self),
                *old(playback),
                old(out)@,
            ).reverse_frame_applied(
                frame,
                timeline@,
                previous,
                boundary as int,
                ready,
                now as int,
            ),
            r == !at_reverse_cut(
                scene(*old(self), *old(playback), old(out)@),
                frame,
                timeline@,
                boundary as int,
            ),
            final(self).wf(),
    {
        let was_shown = match self.last_decoded_frame {
            Some(s) => s.origin == FrameOrigin::Reverse,
            None => false,
        };
        self.last_decoded_frame = Some(Shown { pts: frame.pts, origin: FrameOrigin::Reverse });
        out.push(Command::ShowFrame(frame.frame));
        let mut rev = match self.reverse {
            None => {
                out.push(Command::CountFrame);
                return true;
            },
            Some(r) => r,
        };
        rev.last_frame_time = Some(now);
        let tc = match find_timeline_clip(timeline, rev.timeline_clip) {
            None => {
                self.reverse = Some(rev);
                out.push(Command::CountFrame);
                return true;
            },
            Some(c) => c,
        };
        let expected: i64 = tc.source_in + max_time(playback.playhead - tc.timeline_start, 0);
        let offset: i64 = match rev.pts_offset {
            Some(offset) => offset,
            None => frame.pts - expected,
        };
        rev.pts_offset = Some(offset);
        self.reverse = Some(rev);
        let mapped: i64 = frame.pts - offset;
        if mapped >= tc.source_in && mapped < tc.source_out {
            let place: i64 = tc.timeline_start + (mapped - tc.source_in);
            if !was_shown || place <= playback.playhead {
                playback.playhead = place;
            }
            if mapped - tc.source_in <= boundary && was_shown {
                self.go_back_to(playback, tc.timeline_start, previous, ready, now, out);
                return false;
            }
        } else if mapped < tc.source_in {
            self.go_back_to(playback, tc.timeline_start, previous, ready, now, out);
            return false;
        }
        out.push(Command::CountFrame);
        true
    }
}

/// The reverse pipeline has come to the start of its clip.
pub open spec fn at_reverse_cut(
    s: Scene,
    frame: FrameRef,
    t: TimelineView,
    boundary: int,
) -> bool {
    s.engine.reverse matches Some(r) && (clip_of(t, r.timeline_clip) matches Some(c) && {
        let mapped = frame.pts - offset_of(
            r.pts_offset,
            frame.pts as int,
            c,
            s.playback.playhead as int,
        );
        mapped < c.source_in || (mapped < c.source_out && mapped - c.source_in <= boundary
            && s.reverse_was_shown())
    })
}

/// Once reverse playback follows its frames, the playhead never moves forward.
pub proof fn law_reverse_never_moves_forward(
    s: Scene,
    frame: FrameRef,
    t: TimelineView,
    previous: NextClip,
    boundary: int,
    ready: Readiness,
    now: int,
)
    requires
        s.reverse_was_shown(),
        s.playback.playhead >= 0,
        t.fits(),
        in_time(s.playback.playhead as int),
        in_time(frame.pts as int),
        s.engine.wf(),
        s.engine.reverse matches Some(r) ==> (clip_of(t, r.timeline_clip) matches Some(c)
            ==> c.fits() && 0 <= c.timeline_start <= s.playback.playhead),
    ensures
        0 <= s.reverse_frame_applied(
            frame,
            t,
            previous,
            boundary,
            ready,
            now,
        ).playback.playhead <= s.playback.playhead,
{
    reveal(Scene::reverse_shadow_promoted);
}

} // verus!
