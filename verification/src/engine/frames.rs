//! Which picture is shown, when the clock moves the playhead, and what is asked of the
//! decoders that work on demand.

use vstd::prelude::*;

use crate::engine::forward::NextClip;
use crate::engine::slots::{plays, FrameOrigin, PlaybackEngine, Request};
use crate::engine::status::{
    clock_status, frame_status, PipelineStatus, FORWARD_STARTUP_GRACE, PIPELINE_STALL_THRESHOLD,
};
use crate::ids::ClipId;
use crate::playback::{Playback, PlaybackState};
use crate::time::{in_time, SECOND};
use crate::timeline::edit::PlayheadHit;

verus! {

impl PlaybackEngine {
    /// How the forward pipeline stands, by its last frame.
    pub open spec fn forward_status(self, now: int) -> Option<PipelineStatus> {
        match self.forward {
            Some(f) => Some(frame_status(f.frame_delivered, f.last_frame_time, now)),
            None => None,
        }
    }

    /// How the reverse pipeline stands, by its last frame.
    pub open spec fn reverse_status(self, now: int) -> Option<PipelineStatus> {
        match self.reverse {
            Some(r) => Some(frame_status(r.last_frame_time is Some, r.last_frame_time, now)),
            None => None,
        }
    }

    /// How the forward pipeline stands, by the measure of the clock.
    pub open spec fn forward_clock(self, now: int) -> Option<PipelineStatus> {
        match self.forward {
            Some(f) => Some(clock_status(f.frame_delivered, f.last_frame_time, now)),
            None => None,
        }
    }

    /// How the reverse pipeline stands, by the measure of the clock.
    pub open spec fn reverse_clock(self, now: int) -> Option<PipelineStatus> {
        match self.reverse {
            Some(r) => Some(clock_status(r.last_frame_time is Some, r.last_frame_time, now)),
            None => None,
        }
    }

    /// The forward pipeline has not delivered yet, though it has had its time.
    pub open spec fn forward_late(self, now: int) -> bool {
        self.forward matches Some(f) && !f.frame_delivered && now - f.started_at
            > FORWARD_STARTUP_GRACE
    }

    /// The reverse pipeline has not delivered yet, though it has had its time.
    pub open spec fn reverse_late(self, now: int) -> bool {
        self.reverse matches Some(r) && r.last_frame_time is None && now - r.started_at
            > FORWARD_STARTUP_GRACE
    }

    /// A picture decoded on demand has its place on screen: no pipeline of the present
    /// direction delivers, or is still given time to, or playback rests, or the pointer
    /// drags the playhead.
    pub open spec fn fallback_wanted(
        self,
        state: PlaybackState,
        scrubbing: bool,
        now: int,
    ) -> bool {
        ||| scrubbing
        ||| match state {
            PlaybackState::Stopped => true,
            PlaybackState::Playing => self.forward_late(now) || (self.forward_status(
                now,
            ) matches Some(s) ==> s.stalled()),
            PlaybackState::PlayingReverse => self.reverse_late(now) || (self.reverse_status(
                now,
            ) matches Some(s) ==> s.stalled()),
        }
    }

    /// The picture on screen came from a pipeline, or from the frames kept for reverse
    /// playback, and stays there. However long a pipeline stalls, its last picture is not
    /// overwritten; only where another pipeline is started does it make way.
    pub open spec fn picture_held(
        self,
        state: PlaybackState,
        cache_is_empty: bool,
        now: int,
    ) -> bool {
        self.last_decoded_frame matches Some(shown) && match shown.origin {
            FrameOrigin::Forward => !(state == PlaybackState::Playing && self.forward_status(now)
                == Some(PipelineStatus::StartingUp)),
            FrameOrigin::Reverse => !(state == PlaybackState::PlayingReverse
                && self.reverse_status(now) == Some(PipelineStatus::StartingUp)),
            FrameOrigin::Cache => state == PlaybackState::PlayingReverse && !cache_is_empty,
        }
    }

    /// A picture decoded on demand is shown.
    pub open spec fn fallback_shown(
        self,
        state: PlaybackState,
        scrubbing: bool,
        cache_is_empty: bool,
        now: int,
    ) -> bool {
        self.fallback_wanted(state, scrubbing, now) && !self.picture_held(
            state,
            cache_is_empty,
            now,
        )
    }

    /// Whether a picture decoded on demand is shown.
    pub fn shows_fallback(
        &self,
        state: PlaybackState,
        scrubbing: bool,
        cache_is_empty: bool,
        now: i64,
    ) -> (r: bool)
        requires
            self.wf(),
            in_time(now as int),
        ensures
            r == self.fallback_shown(state, scrubbing, cache_is_empty, now as int),
    {
        let is_forward = state == PlaybackState::Playing;
        let is_reverse = state == PlaybackState::PlayingReverse;
        let mut forward_stalled = false;
        let mut forward_given_up = false;
        if let Some(f) = self.forward {
            let status = f.status(now);
            let late = !f.frame_delivered && now - f.started_at > FORWARD_STARTUP_GRACE;
            forward_stalled = is_forward && (late || status.is_stalled());
            forward_given_up = is_forward && status == PipelineStatus::StartingUp;
        }
        let mut reverse_stalled = false;
        let mut reverse_given_up = false;
        if let Some(v) = self.reverse {
            let status = v.status(now);
            let late = v.last_frame_time.is_none() && now - v.started_at > FORWARD_STARTUP_GRACE;
            reverse_stalled = is_reverse && (late || status.is_stalled());
            reverse_given_up = is_reverse && status == PipelineStatus::StartingUp;
        }
        let wanted = (is_forward && (self.forward.is_none() || forward_stalled)) || (is_reverse && (
        self.reverse.is_none() || reverse_stalled)) || state == PlaybackState::Stopped
            || scrubbing;
        let held = match self.last_decoded_frame {
            None => false,
            Some(shown) => match shown.origin {
                FrameOrigin::Forward => !forward_given_up,
                FrameOrigin::Reverse => !reverse_given_up,
                FrameOrigin::Cache => is_reverse && !cache_is_empty,
            },
        };
        wanted && !held
    }

    /// The clock waits for a pipeline of the present direction, which is still starting
    /// or has stalled: the playhead does not run on past the pictures that there are.
    pub open spec fn clock_held(self, state: PlaybackState, now: int, grace: int) -> bool {
        ||| state == PlaybackState::PlayingReverse && (self.reverse_clock(now) matches Some(s) && s
            != PipelineStatus::Delivering)
        ||| state == PlaybackState::Playing && (self.forward matches Some(f) && !f.frame_delivered
            && now - f.started_at <= grace)
        ||| state == PlaybackState::Playing && self.forward_clock(now) == Some(
            PipelineStatus::Stalled,
        )
    }

    /// Whether the clock moves the playhead: while playback runs, unless it waits for a
    /// pipeline.
    pub fn should_use_clock_advance(&self, state: PlaybackState, now: i64, grace: i64) -> (r: bool)
        requires
            self.wf(),
            in_time(now as int),
        ensures
            r == (plays(state) && !self.clock_held(state, now as int, grace as int)),
    {
        match state {
            PlaybackState::Stopped => false,
            PlaybackState::Playing => match self.forward {
                Some(f) => {
                    let starting = !f.frame_delivered && now - f.started_at <= grace;
                    !starting && !(f.stall_status(now) == PipelineStatus::Stalled)
                },
                None => true,
            },
            PlaybackState::PlayingReverse => match self.reverse {
                Some(v) => v.stall_status(now) == PipelineStatus::Delivering,
                None => true,
            },
        }
    }
}

/// While frames come at most as far apart as a stall takes, the clock never waits.
pub proof fn law_clock_runs_with_frames(
    e: PlaybackEngine,
    state: PlaybackState,
    now: int,
    grace: int,
)
    requires
        state == PlaybackState::Playing ==> (e.forward matches Some(f) && f.frame_delivered && (
        f.last_frame_time matches Some(t) && now - t <= PIPELINE_STALL_THRESHOLD)),
        state == PlaybackState::PlayingReverse ==> (e.reverse matches Some(r) && (
        r.last_frame_time matches Some(t) && now - t <= PIPELINE_STALL_THRESHOLD)),
    ensures
        !e.clock_held(state, now, grace),
{
}

/// While a pipeline delivers in the present direction and nothing is scrubbed, its
/// picture is never replaced by one decoded on demand.
pub proof fn law_delivering_is_undisturbed(
    e: PlaybackEngine,
    state: PlaybackState,
    now: int,
)
    requires
        (state == PlaybackState::Playing && e.forward_status(now) == Some(
            PipelineStatus::Delivering,
        )) || (state == PlaybackState::PlayingReverse && e.reverse_status(now) == Some(
            PipelineStatus::Delivering,
        )),
    ensures
        !e.fallback_wanted(state, false, now),
{
}

/// The last picture of a pipeline stays on screen while it stalls, however long: it is
/// never overwritten by one decoded on demand.
pub proof fn law_stalled_picture_stays(
    e: PlaybackEngine,
    state: PlaybackState,
    cache_is_empty: bool,
    now: int,
)
    requires
        e.last_decoded_frame is Some,
        match e.last_decoded_frame->0.origin {
            FrameOrigin::Forward => state == PlaybackState::Playing && (e.forward_status(
                now,
            ) matches Some(s) && s.stalled()),
            FrameOrigin::Reverse => state == PlaybackState::PlayingReverse && (e.reverse_status(
                now,
            ) matches Some(s) && s.stalled()),
            FrameOrigin::Cache => false,
        },
    ensures
        !e.fallback_shown(state, false, cache_is_empty, now),
{
}

/// A pipeline that never delivers does not keep a picture decoded on demand out: once it
/// has had its time, that is shown, unless the screen holds one of the other direction.
pub proof fn law_late_pipeline_is_bridged(
    e: PlaybackEngine,
    state: PlaybackState,
    cache_is_empty: bool,
    now: int,
)
    requires
        match state {
            PlaybackState::Playing => e.forward_late(now),
            PlaybackState::PlayingReverse => e.reverse_late(now),
            PlaybackState::Stopped => false,
        },
        e.last_decoded_frame matches Some(shown) ==> shown.origin == if state
            == PlaybackState::Playing {
            FrameOrigin::Forward
        } else {
            FrameOrigin::Reverse
        },
    ensures
        e.fallback_shown(state, false, cache_is_empty, now),
{
}

/// A time at so many per second, rounded to the nearest whole number, halves away from 0.
pub open spec fn bucket_of(time: int, rate: int) -> int {
    if time >= 0 {
        (2 * time * rate + SECOND) / (2 * SECOND)
    } else {
        -((-2 * time * rate + SECOND) / (2 * SECOND))
    }
}

/// Hover previews for each second of a file.
pub const HOVER_AUDIO_BUCKET_RATE: i64 = 2;

/// Scrub previews for each second of a file.
pub const SCRUB_AUDIO_BUCKET_RATE: i64 = 10;

/// Pictures on demand for each second of a file.
pub const VIDEO_DECODE_BUCKET_RATE: i64 = 60;

/// The bucket of a moment.
pub(crate) fn bucket(time: i64, rate: i64) -> (r: i64)
    requires
        in_time(time as int),
        0 < rate <= 60,
    ensures
        r == bucket_of(time as int, rate as int),
{
    proof {
        assert(-60 * 0x1000_0000_0000_0000 <= time * rate <= 60 * 0x1000_0000_0000_0000)
            by (nonlinear_arith)
            requires
                -0x1000_0000_0000_0000 <= time <= 0x1000_0000_0000_0000,
                0 < rate <= 60,
        ;
        assert(2 * time * rate == 2 * (time * rate)) by (nonlinear_arith);
        assert(-2 * time * rate == -2 * (time * rate)) by (nonlinear_arith);
        assert(time >= 0 ==> time * rate >= 0) by (nonlinear_arith)
            requires
                rate > 0,
        ;
        assert(time < 0 ==> time * rate <= 0) by (nonlinear_arith)
            requires
                rate > 0,
        ;
    }
    let p: i128 = time as i128 * rate as i128;
    if time >= 0 {
        ((2 * p + 1_000_000_000) / 2_000_000_000) as i64
    } else {
        (-((-2 * p + 1_000_000_000) / 2_000_000_000)) as i64
    }
}

/// What is asked of the decoder that works on demand.
#[derive(Debug, Clone, Copy, PartialEq, Eq, Structural)]
pub enum PictureOrder {
    /// Nothing.
    Nothing,
    /// Show what the scrub cache holds for the moment.
    ShowCached { clip: ClipId, source_time: i64 },
    /// Decode the moment; small and fast where the pointer drags the playhead.
    Decode { clip: ClipId, source_time: i64, scrubbing: bool },
}

/// What an order for a picture goes by.
#[derive(Debug, Clone, Copy)]
pub struct PictureNeed {
    pub scrubbing: bool,
    /// What is on at the playhead, or where the pointer drags it.
    pub here: NextClip,
    /// The scrub cache holds a picture for that moment.
    pub cached: bool,
    pub now: i64,
}

impl PlaybackEngine {
    /// A pipeline runs and has not stalled in the present direction: it provides the
    /// pictures.
    pub open spec fn pipeline_provides(self, state: PlaybackState, now: int) -> bool {
        ||| self.forward_clock(now) matches Some(s) && !(state == PlaybackState::Playing
            && s.stalled())
        ||| self.reverse_clock(now) matches Some(s) && !(state == PlaybackState::PlayingReverse
            && s.stalled())
    }

    /// The picture of the moment is called for: playback runs, or the playhead is
    /// dragged, or it was moved while playback rested.
    pub open spec fn picture_called_for(self, p: Playback, scrubbing: bool) -> bool {
        plays(p.state) || scrubbing || p.playhead != self.last_playhead_observed
    }

    /// The order, and what is remembered of it.
    pub open spec fn picture_order(self, p: Playback, n: PictureNeed) -> (
        PictureOrder,
        Option<Request>,
    ) {
        let last = self.last_video_decode_request;
        if self.pipeline_provides(p.state, n.now as int) || !self.picture_called_for(
            p,
            n.scrubbing,
        ) {
            (PictureOrder::Nothing, last)
        } else {
            match n.here.hit {
                None => (PictureOrder::Nothing, None),
                Some(hit) => {
                    let wanted = Request {
                        clip: hit.clip.source_id,
                        bucket: bucket_of(
                            hit.source_time as int,
                            VIDEO_DECODE_BUCKET_RATE as int,
                        ) as i64,
                    };
                    if n.scrubbing && n.cached {
                        (
                            PictureOrder::ShowCached {
                                clip: hit.clip.source_id,
                                source_time: hit.source_time,
                            },
                            last,
                        )
                    } else if n.here.source is None || last == Some(wanted) {
                        (PictureOrder::Nothing, last)
                    } else {
                        (
                            PictureOrder::Decode {
                                clip: hit.clip.source_id,
                                source_time: hit.source_time,
                                scrubbing: n.scrubbing,
                            },
                            Some(wanted),
                        )
                    }
                },
            }
        }
    }

    /// Orders a picture of the moment where no pipeline provides one. The same moment is
    /// not ordered twice in a row.
    pub fn update_playback_frame(&mut self, playback: &Playback, n: PictureNeed) -> (r:
        PictureOrder)
        requires
            old(self).wf(),
            in_time(n.now as int),
            n.here.hit matches Some(hit) ==> in_time(hit.source_time as int),
        ensures
            r == old(self).picture_order(*playback, n).0,
            *final(self) == (PlaybackEngine {
                last_video_decode_request: old(self).picture_order(*playback, n).1,
                ..*old(self)
            }),
    {
        let state = playback.state;
        let forward_provides = match self.forward {
            Some(f) => !(state == PlaybackState::Playing && f.stall_status(n.now).is_stalled()),
            None => false,
        };
        let reverse_provides = match self.reverse {
            Some(v) => !(state == PlaybackState::PlayingReverse && v.stall_status(
                n.now,
            ).is_stalled()),
            None => false,
        };
        if forward_provides || reverse_provides {
            return PictureOrder::Nothing;
        }
        let is_active = !(state == PlaybackState::Stopped);
        let moved_at_rest = !is_active && playback.playhead != self.last_playhead_observed;
        if !is_active && !n.scrubbing && !moved_at_rest {
            return PictureOrder::Nothing;
        }
        let hit = match n.here.hit {
            None => {
                self.last_video_decode_request = None;
                return PictureOrder::Nothing;
            },
            Some(hit) => hit,
        };
        if n.scrubbing && n.cached {
            return PictureOrder::ShowCached {
                clip: hit.clip.source_id,
                source_time: hit.source_time,
            };
        }
        if n.here.source.is_none() {
            return PictureOrder::Nothing;
        }
        let wanted = Request {
            clip: hit.clip.source_id,
            bucket: bucket(hit.source_time, VIDEO_DECODE_BUCKET_RATE),
        };
        if self.last_video_decode_request == Some(wanted) {
            return PictureOrder::Nothing;
        }
        self.last_video_decode_request = Some(wanted);
        PictureOrder::Decode {
            clip: hit.clip.source_id,
            source_time: hit.source_time,
            scrubbing: n.scrubbing,
        }
    }
}

/// What is asked of the sound preview.
#[derive(Debug, Clone, Copy, PartialEq, Eq, Structural)]
pub enum SoundOrder {
    Nothing,
    Stop,
    Preview { clip: ClipId, time: i64 },
}

/// What the sound of a hovered thumbnail goes by.
#[derive(Debug, Clone, Copy)]
pub struct HoverNeed {
    /// There is a sound card.
    pub has_output: bool,
    pub playing: bool,
    pub scrubbing: bool,
    pub hovered: Option<ClipId>,
    /// Where along the thumbnail the pointer is, in millionths.
    pub place: Option<i64>,
    /// The thumbnail has pictures to scrub through.
    pub has_preview: bool,
    /// How long the file is, where it is known to have sound and a duration.
    pub sounding: Option<i64>,
}

/// What the sound under a dragged playhead goes by.
#[derive(Debug, Clone, Copy)]
pub struct ScrubNeed {
    /// There is a sound card.
    pub has_output: bool,
    pub scrubbing: bool,
    /// The pointer is on a thumbnail, which has its own sound.
    pub hovering: bool,
    /// The clip that sounds where the playhead is dragged.
    pub hit: Option<PlayheadHit>,
    /// The media file of that clip is known and has sound.
    pub sounds: bool,
}

/// The moment of the file that the pointer is at.
pub open spec fn hover_time(place: int, duration: int) -> int {
    let t = if place < 0 {
        0
    } else if place > 1_000_000 {
        1_000_000
    } else {
        place
    };
    t * duration / 1_000_000
}

fn hovered_moment(place: i64, duration: i64) -> (r: i64)
    requires
        0 <= duration,
        in_time(duration as int),
    ensures
        r == hover_time(place as int, duration as int),
        0 <= r <= duration,
{
    let t: i64 = if place < 0 {
        0
    } else if place > 1_000_000 {
        1_000_000
    } else {
        place
    };
    proof {
        assert(0 <= t * duration <= 1_000_000 * duration) by (nonlinear_arith)
            requires
                0 <= t <= 1_000_000,
                0 <= duration,
        ;
    }
    (t as i128 * duration as i128 / 1_000_000) as i64
}

impl PlaybackEngine {
    /// The order for the sound of a hovered thumbnail, and what is remembered of it.
    pub open spec fn hover_order(self, n: HoverNeed) -> (SoundOrder, Option<Request>) {
        let last = self.last_hover_audio_request;
        if !n.has_output {
            (SoundOrder::Nothing, last)
        } else {
        match (n.hovered, n.place) {
            (Some(clip), Some(place)) => match n.sounding {
                Some(duration) => {
                    let time = hover_time(place as int, duration as int);
                    let wanted = Request {
                        clip,
                        bucket: bucket_of(time, HOVER_AUDIO_BUCKET_RATE as int) as i64,
                    };
                    if !n.has_preview || last == Some(wanted) {
                        (SoundOrder::Nothing, last)
                    } else {
                        (SoundOrder::Preview { clip, time: time as i64 }, Some(wanted))
                    }
                },
                None => (SoundOrder::Nothing, last),
            },
            _ => if !n.playing && !n.scrubbing {
                (
                    if last is Some {
                        SoundOrder::Stop
                    } else {
                        SoundOrder::Nothing
                    },
                    None,
                )
            } else {
                (SoundOrder::Nothing, last)
            },
        }
        }
    }

    /// Orders the sound under the pointer, once for each half second; ends it when the
    /// pointer leaves.
    pub fn update_hover_audio(&mut self, n: HoverNeed) -> (r: SoundOrder)
        requires
            n.sounding matches Some(d) ==> 0 <= d && in_time(d as int),
        ensures
            r == old(self).hover_order(n).0,
            *final(self) == (PlaybackEngine {
                last_hover_audio_request: old(self).hover_order(n).1,
                ..*old(self)
            }),
    {
        if !n.has_output {
            return SoundOrder::Nothing;
        }
        let (clip, place) = match (n.hovered, n.place) {
            (Some(clip), Some(place)) => (clip, place),
            _ => {
                if !n.playing && !n.scrubbing {
                    let had = self.last_hover_audio_request.is_some();
                    self.last_hover_audio_request = None;
                    if had {
                        return SoundOrder::Stop;
                    }
                }
                return SoundOrder::Nothing;
            },
        };
        let duration: i64 = match n.sounding {
            Some(d) => d,
            None => {
                return SoundOrder::Nothing;
            },
        };
        if !n.has_preview {
            return SoundOrder::Nothing;
        }
        let time: i64 = hovered_moment(place, duration);
        let wanted = Request { clip, bucket: bucket(time, HOVER_AUDIO_BUCKET_RATE) };
        if self.last_hover_audio_request == Some(wanted) {
            return SoundOrder::Nothing;
        }
        self.last_hover_audio_request = Some(wanted);
        SoundOrder::Preview { clip, time }
    }

    /// The order for the sound under a dragged playhead, and what is remembered of it.
    pub open spec fn scrub_order(self, n: ScrubNeed) -> (SoundOrder, Option<Request>) {
        let last = self.last_scrub_audio_request;
        match n.hit {
            Some(h) => {
                let wanted = Request {
                    clip: h.clip.source_id,
                    bucket: bucket_of(
                        h.source_time as int,
                        SCRUB_AUDIO_BUCKET_RATE as int,
                    ) as i64,
                };
                if !n.has_output || !n.scrubbing || n.hovering || !n.sounds || last == Some(
                    wanted,
                ) {
                    (SoundOrder::Nothing, last)
                } else {
                    (
                        SoundOrder::Preview { clip: h.clip.source_id, time: h.source_time },
                        Some(wanted),
                    )
                }
            },
            None => (SoundOrder::Nothing, last),
        }
    }

    /// Orders the sound under a dragged playhead, once for each tenth of a second.
    pub fn update_timeline_scrub_audio(&mut self, n: ScrubNeed) -> (r: SoundOrder)
        requires
            n.hit matches Some(h) ==> in_time(h.source_time as int),
        ensures
            r == old(self).scrub_order(n).0,
            *final(self) == (PlaybackEngine {
                last_scrub_audio_request: old(self).scrub_order(n).1,
                ..*old(self)
            }),
    {
        if !n.has_output || !n.scrubbing || n.hovering {
            return SoundOrder::Nothing;
        }
        let h = match n.hit {
            None => {
                return SoundOrder::Nothing;
            },
            Some(h) => h,
        };
        if !n.sounds {
            return SoundOrder::Nothing;
        }
        let wanted = Request {
            clip: h.clip.source_id,
            bucket: bucket(h.source_time, SCRUB_AUDIO_BUCKET_RATE),
        };
        if self.last_scrub_audio_request == Some(wanted) {
            return SoundOrder::Nothing;
        }
        self.last_scrub_audio_request = Some(wanted);
        SoundOrder::Preview { clip: h.clip.source_id, time: h.source_time }
    }
}

/// The same moment is not ordered twice in a row.
pub proof fn law_no_repeated_orders(
    e: PlaybackEngine,
    p: Playback,
    n: PictureNeed,
    h: HoverNeed,
    s: ScrubNeed,
)
    ensures
        ({
            let again = PlaybackEngine {
                last_video_decode_request: e.picture_order(p, n).1,
                ..e
            };
            e.picture_order(p, n).0 is Decode ==> again.picture_order(p, n).0
                == PictureOrder::Nothing
        }),
        ({
            let again = PlaybackEngine { last_hover_audio_request: e.hover_order(h).1, ..e };
            again.hover_order(h).0 == SoundOrder::Nothing
        }),
        ({
            let again = PlaybackEngine { last_scrub_audio_request: e.scrub_order(s).1, ..e };
            again.scrub_order(s).0 == SoundOrder::Nothing
        }),
{
}

} // verus!
