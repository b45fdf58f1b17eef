//! What the engine holds: the pipelines that run, those being started, and what was
//! asked for last.

use vstd::prelude::*;

use crate::engine::status::{clock_status, frame_status, opt_in_time, status_by_clock, status_by_frame, PipelineStatus};
use crate::ids::{ClipId, TimelineClipId};
use crate::playback::{Playback, PlaybackState};
use crate::time::{in_time, TIME_LIMIT};

verus! {

/// A media file as a pipeline reads it: the file, and a number that stands for its
/// path.
#[derive(Debug, Clone, Copy, PartialEq, Eq, Structural)]
pub struct Source {
    pub clip: ClipId,
    pub path: u64,
}

/// A decoded frame: a number that stands for its picture, and its position in the
/// file.
#[derive(Debug, Clone, Copy, PartialEq, Eq, Structural)]
pub struct FrameRef {
    pub frame: u64,
    pub pts: i64,
}

/// Where the picture on screen came from.
#[derive(Debug, Clone, Copy, PartialEq, Eq, Structural)]
pub enum FrameOrigin {
    Forward,
    Reverse,
    Cache,
}

/// A request for a moment of a media file; near moments share a bucket.
#[derive(Debug, Clone, Copy, PartialEq, Eq, Structural)]
pub struct Request {
    pub clip: ClipId,
    pub bucket: i64,
}

/// The picture on screen: its position in the file, and where it came from.
#[derive(Debug, Clone, Copy, PartialEq, Eq, Structural)]
pub struct Shown {
    pub pts: i64,
    pub origin: FrameOrigin,
}

/// The distance between the positions that a pipeline reports and those of the file is
/// one that can come about.
pub open spec fn offset_fits(offset: Option<i64>) -> bool {
    offset matches Some(o) ==> -4 * TIME_LIMIT <= o <= 4 * TIME_LIMIT
}

/// A pipeline that plays forward.
#[derive(Debug, Clone, Copy, PartialEq, Eq, Structural)]
pub struct ForwardPipelineState {
    pub handle: u64,
    pub clip: Source,
    pub timeline_clip: TimelineClipId,
    pub pts_offset: Option<i64>,
    pub speed: i64,
    pub frame_delivered: bool,
    pub activated: bool,
    pub started_at: i64,
    pub last_frame_time: Option<i64>,
    pub age: u32,
}

impl ForwardPipelineState {
    /// The times that the pipeline holds lie within the limits.
    pub open spec fn wf(self) -> bool {
        &&& opt_in_time(self.last_frame_time)
        &&& in_time(self.started_at as int)
        &&& offset_fits(self.pts_offset)
    }

    /// How the pipeline stands, by its last frame.
    pub fn status(&self, now: i64) -> (r: PipelineStatus)
        requires
            self.wf(),
            in_time(now as int),
        ensures
            r == frame_status(self.frame_delivered, self.last_frame_time, now as int),
    {
        status_by_frame(self.frame_delivered, self.last_frame_time, now)
    }

    /// How the pipeline stands, by the stricter measure of the clock.
    pub fn stall_status(&self, now: i64) -> (r: PipelineStatus)
        requires
            self.wf(),
            in_time(now as int),
        ensures
            r == clock_status(self.frame_delivered, self.last_frame_time, now as int),
    {
        status_by_clock(self.frame_delivered, self.last_frame_time, now)
    }
}

/// A pipeline that is ready for the next clip of forward playback.
#[derive(Debug, Clone, Copy, PartialEq, Eq, Structural)]
pub struct ShadowPipelineState {
    pub handle: u64,
    pub clip: Source,
    pub timeline_clip: TimelineClipId,
    pub first_frame_ready: bool,
    pub buffered_frame: Option<FrameRef>,
    /// Sound pipelines were started along with it.
    pub has_audio: bool,
}

/// A pipeline that plays in reverse.
#[derive(Debug, Clone, Copy, PartialEq, Eq, Structural)]
pub struct ReversePipelineState {
    pub handle: u64,
    pub clip: Source,
    pub timeline_clip: TimelineClipId,
    pub pts_offset: Option<i64>,
    pub speed: i64,
    pub activated: bool,
    pub started_at: i64,
    pub last_frame_time: Option<i64>,
}

impl ReversePipelineState {
    /// The times that the pipeline holds lie within the limits.
    pub open spec fn wf(self) -> bool {
        &&& opt_in_time(self.last_frame_time)
        &&& in_time(self.started_at as int)
        &&& offset_fits(self.pts_offset)
    }

    /// How the pipeline stands, by its last frame.
    pub fn status(&self, now: i64) -> (r: PipelineStatus)
        requires
            self.wf(),
            in_time(now as int),
        ensures
            r == frame_status(self.last_frame_time is Some, self.last_frame_time, now as int),
    {
        status_by_frame(self.last_frame_time.is_some(), self.last_frame_time, now)
    }

    /// How the pipeline stands, by the stricter measure of the clock.
    pub fn stall_status(&self, now: i64) -> (r: PipelineStatus)
        requires
            self.wf(),
            in_time(now as int),
        ensures
            r == clock_status(self.last_frame_time is Some, self.last_frame_time, now as int),
    {
        status_by_clock(self.last_frame_time.is_some(), self.last_frame_time, now)
    }
}

/// A pipeline that is ready for the next clip of reverse playback.
#[derive(Debug, Clone, Copy, PartialEq, Eq, Structural)]
pub struct ReverseShadowState {
    pub handle: u64,
    pub clip: Source,
    pub timeline_clip: TimelineClipId,
    pub first_frame_ready: bool,
    pub buffered_frame: Option<FrameRef>,
}

/// A pipeline that is being started.
#[derive(Debug, Clone, Copy, PartialEq, Eq, Structural)]
pub struct PendingPipeline {
    pub clip: Source,
    pub timeline_clip: TimelineClipId,
    pub speed: i64,
    pub started_at: i64,
}

/// What is to be done with pipelines, pictures and sound.
#[derive(Debug, Clone, Copy, PartialEq, Eq, Structural)]
pub enum Command {
    /// End the sound preview.
    StopAudioPreview,
    /// Drop all sound sources and empty the sound card's buffer.
    ResetAudio,
    /// Drop all sound sources.
    ClearMixer,
    /// Start sound sources for the clips at the playhead.
    StartAudioSources,
    /// Let the sound sources that were started with a shadow pipeline play.
    PromoteShadowAudio(u64),
    /// Let a pipeline play.
    BeginPlaying(u64),
    /// Change the speed of a pipeline.
    UpdateSpeed { handle: u64, speed: i64 },
    /// Start a pipeline for forward playback.
    SpawnForward { pending: PendingPipeline, source_time: i64 },
    /// Start a pipeline for the next clip of forward playback, with sound for the
    /// clips at `audio_time`.
    SpawnShadow { pending: PendingPipeline, source_time: i64, audio_time: i64 },
    /// Start a pipeline for reverse playback.
    SpawnReverse { pending: PendingPipeline, source_time: i64 },
    /// Start a pipeline for the next clip of reverse playback.
    SpawnReverseShadow { pending: PendingPipeline, source_time: i64 },
    /// Show a frame.
    ShowFrame(u64),
    /// Show what the scrub cache holds for the moment, if anything.
    ShowBridgeFrame { clip: ClipId, source_time: i64 },
    /// Show nothing.
    ClearTexture,
    /// Drop the frames that were kept for reverse playback.
    ClearRewindCache,
    /// A frame was shown: it counts for the frame rate.
    CountFrame,
    /// Play the sound preview that has come.
    PlaySnippet,
}

/// The engine.
#[derive(Debug, Clone, Copy, PartialEq, Eq, Structural)]
pub struct PlaybackEngine {
    pub forward: Option<ForwardPipelineState>,
    pub pending_forward: Option<PendingPipeline>,
    pub shadow: Option<ShadowPipelineState>,
    pub pending_shadow: Option<PendingPipeline>,
    pub reverse: Option<ReversePipelineState>,
    pub pending_reverse: Option<PendingPipeline>,
    pub reverse_shadow: Option<ReverseShadowState>,
    pub pending_reverse_shadow: Option<PendingPipeline>,
    pub last_video_decode_request: Option<Request>,
    pub last_hover_audio_request: Option<Request>,
    pub last_scrub_audio_request: Option<Request>,
    pub was_scrubbing: bool,
    pub last_is_playing: bool,
    pub last_playback_state: PlaybackState,
    pub last_decoded_frame: Option<Shown>,
    pub last_playhead_observed: i64,
}

/// The engine, the transport, and what has been commanded so far.
#[verifier::ext_equal]
pub struct Scene {
    pub engine: PlaybackEngine,
    pub playback: Playback,
    pub out: Seq<Command>,
}

/// The engine, the transport and the commands as one.
pub open spec fn scene(engine: PlaybackEngine, playback: Playback, out: Seq<Command>) -> Scene {
    Scene { engine, playback, out }
}

impl Scene {
    /// One more command.
    pub open spec fn say(self, c: Command) -> Scene {
        Scene { out: self.out.push(c), ..self }
    }

    /// Another engine.
    pub open spec fn with(self, engine: PlaybackEngine) -> Scene {
        Scene { engine, ..self }
    }

    /// The playhead elsewhere.
    pub open spec fn at(self, playhead: int) -> Scene {
        Scene { playback: Playback { playhead: playhead as i64, ..self.playback }, ..self }
    }
}

/// Playback runs, either way.
pub open spec fn plays(state: PlaybackState) -> bool {
    state == PlaybackState::Playing || state == PlaybackState::PlayingReverse
}

impl PlaybackEngine {
    /// The times that the engine holds lie within the limits.
    pub open spec fn wf(self) -> bool {
        &&& self.forward matches Some(f) ==> f.wf()
        &&& self.reverse matches Some(r) ==> r.wf()
        &&& self.pending_forward matches Some(p) ==> in_time(p.started_at as int)
        &&& self.pending_reverse matches Some(p) ==> in_time(p.started_at as int)
        &&& in_time(self.last_playhead_observed as int)
    }

    /// The engine before anything has happened.
    pub open spec fn idle() -> PlaybackEngine {
        PlaybackEngine {
            forward: None,
            pending_forward: None,
            shadow: None,
            pending_shadow: None,
            reverse: None,
            pending_reverse: None,
            reverse_shadow: None,
            pending_reverse_shadow: None,
            last_video_decode_request: None,
            last_hover_audio_request: None,
            last_scrub_audio_request: None,
            was_scrubbing: false,
            last_is_playing: false,
            last_playback_state: PlaybackState::Stopped,
            last_decoded_frame: None,
            last_playhead_observed: 0,
        }
    }

    /// Nothing runs and nothing is being started.
    pub open spec fn is_quiet(self) -> bool {
        &&& self.forward is None
        &&& self.pending_forward is None
        &&& self.shadow is None
        &&& self.pending_shadow is None
        &&& self.reverse is None
        &&& self.pending_reverse is None
        &&& self.reverse_shadow is None
        &&& self.pending_reverse_shadow is None
    }

    /// The engine before anything has happened.
    pub fn new() -> (r: Self)
        ensures
            r == PlaybackEngine::idle(),
            r.wf(),
            r.is_quiet(),
    {
        PlaybackEngine {
            forward: None,
            pending_forward: None,
            shadow: None,
            pending_shadow: None,
            reverse: None,
            pending_reverse: None,
            reverse_shadow: None,
            pending_reverse_shadow: None,
            last_video_decode_request: None,
            last_hover_audio_request: None,
            last_scrub_audio_request: None,
            was_scrubbing: false,
            last_is_playing: false,
            last_playback_state: PlaybackState::Stopped,
            last_decoded_frame: None,
            last_playhead_observed: 0,
        }
    }

    /// Whether playback runs, either way.
    pub fn is_playing(&self, state: PlaybackState) -> (r: bool)
        ensures
            r == plays(state),
    {
        match state {
            PlaybackState::Playing => true,
            PlaybackState::PlayingReverse => true,
            PlaybackState::Stopped => false,
        }
    }

    /// When the forward pipeline last delivered.
    pub fn last_pipeline_frame_time(&self) -> (r: Option<i64>)
        ensures
            r == match self.forward {
                Some(f) => f.last_frame_time,
                None => None,
            },
    {
        match self.forward {
            Some(f) => f.last_frame_time,
            None => None,
        }
    }

    /// The forward pipeline has delivered.
    pub open spec fn delivered(self) -> bool {
        self.forward matches Some(f) && f.frame_delivered
    }

    /// Whether the forward pipeline has delivered.
    pub fn pipeline_frame_delivered(&self) -> (r: bool)
        ensures
            r == self.delivered(),
    {
        match self.forward {
            Some(f) => f.frame_delivered,
            None => false,
        }
    }

    /// The engine once playback has stopped.
    pub open spec fn stopped(self) -> PlaybackEngine {
        PlaybackEngine {
            last_hover_audio_request: None,
            last_scrub_audio_request: None,
            last_video_decode_request: None,
            last_decoded_frame: None,
            shadow: None,
            pending_shadow: None,
            reverse_shadow: None,
            pending_reverse_shadow: None,
            pending_forward: None,
            pending_reverse: None,
            ..self
        }
    }

    /// Playback has stopped: what was being prepared is dropped.
    pub fn handle_playback_stop_transition(&mut self, out: &mut Vec<Command>)
        ensures
            *final(self) == old(self).stopped(),
            final(out)@ == old(out)@ + seq![
                Command::StopAudioPreview,
                Command::ClearRewindCache,
                Command::ResetAudio,
            ],
            old(self).wf() ==> final(self).wf(),
    {
        out.push(Command::StopAudioPreview);
        self.last_hover_audio_request = None;
        self.last_scrub_audio_request = None;
        self.last_video_decode_request = None;
        self.last_decoded_frame = None;
        self.shadow = None;
        self.pending_shadow = None;
        self.reverse_shadow = None;
        self.pending_reverse_shadow = None;
        self.pending_forward = None;
        self.pending_reverse = None;
        out.push(Command::ClearRewindCache);
        out.push(Command::ResetAudio);
        assert(out@ =~= old(out)@ + seq![
            Command::StopAudioPreview,
            Command::ClearRewindCache,
            Command::ResetAudio,
        ]);
    }

    /// Playback turns round.
    pub open spec fn turns(previous: PlaybackState, current: PlaybackState) -> bool {
        (previous == PlaybackState::Playing && current == PlaybackState::PlayingReverse) || (
        previous == PlaybackState::PlayingReverse && current == PlaybackState::Playing)
    }

    /// The engine once playback has turned round.
    pub open spec fn turned(self) -> PlaybackEngine {
        PlaybackEngine { forward: None, reverse: None, ..self.stopped() }
    }

    /// What is commanded when playback turns round. Frames kept for reverse playback
    /// go when it turns forward.
    pub open spec fn turn_commands(current: PlaybackState) -> Seq<Command> {
        if current == PlaybackState::Playing {
            seq![Command::ClearRewindCache, Command::StopAudioPreview, Command::ResetAudio]
        } else {
            seq![Command::StopAudioPreview, Command::ResetAudio]
        }
    }

    /// The state of playback has changed: where it turned round, everything that runs
    /// is dropped.
    pub fn handle_playback_state_transition(
        &mut self,
        previous: PlaybackState,
        current: PlaybackState,
        out: &mut Vec<Command>,
    )
        ensures
            *final(self) == if PlaybackEngine::turns(previous, current) {
                old(self).turned()
            } else {
                *old(self)
            },
            final(out)@ == if PlaybackEngine::turns(previous, current) {
                old(out)@ + PlaybackEngine::turn_commands(current)
            } else {
                old(out)@
            },
            old(self).wf() ==> final(self).wf(),
    {
        let forward_to_reverse = previous == PlaybackState::Playing && current
            == PlaybackState::PlayingReverse;
        let reverse_to_forward = previous == PlaybackState::PlayingReverse && current
            == PlaybackState::Playing;
        if forward_to_reverse || reverse_to_forward {
            self.forward = None;
            self.pending_forward = None;
            self.reverse = None;
            self.pending_reverse = None;
            self.shadow = None;
            self.pending_shadow = None;
            self.reverse_shadow = None;
            self.pending_reverse_shadow = None;
            if reverse_to_forward {
                out.push(Command::ClearRewindCache);
            }
            out.push(Command::StopAudioPreview);
            self.last_hover_audio_request = None;
            self.last_scrub_audio_request = None;
            self.last_video_decode_request = None;
            self.last_decoded_frame = None;
            out.push(Command::ResetAudio);
            assert(out@ =~= old(out)@ + PlaybackEngine::turn_commands(current));
        }
    }

    /// A frame, where one came, is kept by the shadow pipeline that waits for its
    /// first.
    pub fn poll_shadow_frame(&mut self, frame: Option<FrameRef>)
        ensures
            *final(self) == (PlaybackEngine {
                shadow: match old(self).shadow {
                    Some(s) => if !s.first_frame_ready && frame is Some {
                        Some(
                            ShadowPipelineState {
                                first_frame_ready: true,
                                buffered_frame: frame,
                                ..s
                            },
                        )
                    } else {
                        Some(s)
                    },
                    None => None,
                },
                ..*old(self)
            }),
    {
        if let Some(s) = self.shadow {
            if !s.first_frame_ready && frame.is_some() {
                let mut ready = s;
                ready.first_frame_ready = true;
                ready.buffered_frame = frame;
                self.shadow = Some(ready);
            }
        }
    }

    /// A frame, where one came, is kept by the reverse shadow pipeline that waits for
    /// its first.
    pub fn poll_reverse_shadow_frame(&mut self, frame: Option<FrameRef>)
        ensures
            *final(self) == (PlaybackEngine {
                reverse_shadow: match old(self).reverse_shadow {
                    Some(s) => if !s.first_frame_ready && frame is Some {
                        Some(
                            ReverseShadowState {
                                first_frame_ready: true,
                                buffered_frame: frame,
                                ..s
                            },
                        )
                    } else {
                        Some(s)
                    },
                    None => None,
                },
                ..*old(self)
            }),
    {
        if let Some(s) = self.reverse_shadow {
            if !s.first_frame_ready && frame.is_some() {
                let mut ready = s;
                ready.first_frame_ready = true;
                ready.buffered_frame = frame;
                self.reverse_shadow = Some(ready);
            }
        }
    }
}

impl Default for PlaybackEngine {
    fn default() -> (r: Self)
        ensures
            r == PlaybackEngine::idle(),
    {
        PlaybackEngine::new()
    }
}

/// When playback turns round nothing runs on.
pub proof fn law_turning_leaves_nothing_running(e: PlaybackEngine)
    ensures
        e.turned().is_quiet(),
{
}

/// When playback stops, nothing that was being prepared is left: only the pipelines
/// that played are, and they go with the next look at the pipelines.
pub proof fn law_stop_leaves_nothing_prepared(e: PlaybackEngine)
    ensures
        (PlaybackEngine { forward: None, reverse: None, ..e.stopped() }).is_quiet(),
        e.stopped().forward == e.forward,
        e.stopped().reverse == e.reverse,
{
}

/// Playback turns where it goes on the other way without a stop; then all that sounds is
/// silenced, and on turning forward the frames kept for reverse are dropped too.
pub proof fn law_turning_silences(previous: PlaybackState, current: PlaybackState)
    ensures
        PlaybackEngine::turns(previous, current) <==> previous != current && previous
            != PlaybackState::Stopped && current != PlaybackState::Stopped,
        PlaybackEngine::turn_commands(current).contains(Command::ResetAudio),
        PlaybackEngine::turn_commands(current).contains(Command::StopAudioPreview),
        current == PlaybackState::Playing ==> PlaybackEngine::turn_commands(current).contains(
            Command::ClearRewindCache,
        ),
        current == PlaybackState::PlayingReverse ==> !PlaybackEngine::turn_commands(
            current,
        ).contains(Command::ClearRewindCache),
{
    let all = PlaybackEngine::turn_commands(current);
    assert(all[all.len() - 1] == Command::ResetAudio);
    assert(all[all.len() - 2] == Command::StopAudioPreview);
    if current == PlaybackState::Playing {
        assert(all[0] == Command::ClearRewindCache);
    }
}

} // verus!
