//! Decisions of the decoding threads: what to route where, what to skip, when to go
//! on and when to stop.

use vstd::prelude::*;

use crate::text::chars_of;
use crate::time::{in_time, later, max_time, SECOND};

verus! {

/// A stream of a media file.
#[derive(Debug)]
pub struct StreamProbe {
    pub index: usize,
    pub medium: String,
    pub codec: String,
}

/// What is known of a media file.
#[derive(Debug)]
pub struct MediaMetadata {
    pub duration: Option<i64>,
    pub resolution: Option<(u32, u32)>,
    pub codec: Option<String>,
    pub has_video: bool,
}

/// The first picture stream of a file, as it was discovered.
#[derive(Debug)]
pub struct VideoInfo {
    pub width: u32,
    pub height: u32,
    pub codec: Option<String>,
}

impl MediaMetadata {
    /// Nothing is known.
    pub fn unknown() -> (r: Self)
        ensures
            r.duration is None,
            r.resolution is None,
            r.codec is None,
            !r.has_video,
    {
        MediaMetadata { duration: None, resolution: None, codec: None, has_video: false }
    }

    /// What was discovered. A size counts only where both sides are there.
    pub fn discovered(duration: Option<i64>, video: Option<VideoInfo>) -> (r: Self)
        ensures
            r.duration == duration,
            r.has_video == (video is Some),
            match video {
                Some(v) => r.codec == v.codec && r.resolution == if v.width > 0 && v.height > 0 {
                    Some((v.width, v.height))
                } else {
                    None
                },
                None => r.codec is None && r.resolution is None,
            },
    {
        match video {
            Some(v) => {
                let resolution = if v.width > 0 && v.height > 0 {
                    Some((v.width, v.height))
                } else {
                    None
                };
                MediaMetadata { duration, resolution, codec: v.codec, has_video: true }
            },
            None => MediaMetadata { duration, resolution: None, codec: None, has_video: false },
        }
    }
}

/// What a probe of a file's header gave.
#[derive(Debug)]
pub struct ProbeResult {
    pub duration: Option<i64>,
    pub resolution: Option<(u32, u32)>,
    pub codec: Option<String>,
}

/// A duration counted in microseconds, in nanoseconds; none where the header gives
/// none.
pub fn duration_from_micros(micros: i64) -> (r: Option<i64>)
    requires
        in_time(micros * 1000),
    ensures
        r == if micros > 0 {
            Some((micros * 1000) as i64)
        } else {
            None
        },
{
    if micros > 0 {
        Some(micros * 1000)
    } else {
        None
    }
}

/// A point in time as a seek wants it: whole microseconds, never before the
/// beginning.
pub fn seek_micros(time: i64) -> (r: i64)
    ensures
        r == later(time as int, 0) / 1000,
{
    max_time(time, 0) / 1000
}

/// So many buffers are kept for reuse.
pub const POOL_LIMIT: usize = 8;

/// Buffers that came back from the screen, for reuse.
#[derive(Debug)]
pub struct BufferPool {
    pub buffers: Vec<Vec<u8>>,
}

impl BufferPool {
    /// No more than the limit is kept.
    pub open spec fn wf(self) -> bool {
        self.buffers@.len() <= POOL_LIMIT
    }

    /// An empty pool.
    pub fn new() -> (r: Self)
        ensures
            r.buffers@ == Seq::<Vec<u8>>::empty(),
            r.wf(),
    {
        BufferPool { buffers: Vec::new() }
    }

    /// Keeps a buffer, or lets it go where enough are kept.
    pub fn give_back(&mut self, buf: Vec<u8>)
        ensures
            final(self).buffers@ == if old(self).buffers@.len() < POOL_LIMIT {
                old(self).buffers@.push(buf)
            } else {
                old(self).buffers@
            },
            old(self).wf() ==> final(self).wf(),
    {
        if self.buffers.len() < POOL_LIMIT {
            self.buffers.push(buf);
        }
    }

    /// The buffer that came back last, emptied; a new one where there is none.
    pub fn take(&mut self) -> (r: Vec<u8>)
        ensures
            r@ == Seq::<u8>::empty(),
            final(self).buffers@ == if old(self).buffers@.len() > 0 {
                old(self).buffers@.drop_last()
            } else {
                old(self).buffers@
            },
            old(self).wf() ==> final(self).wf(),
    {
        match self.buffers.pop() {
            Some(b) => {
                let mut buf = b;
                buf.clear();
                buf
            },
            None => Vec::new(),
        }
    }
}

impl Default for BufferPool {
    fn default() -> (r: Self)
        ensures
            r.buffers@ == Seq::<Vec<u8>>::empty(),
            r.wf(),
    {
        BufferPool::new()
    }
}

/// A start this near to the beginning needs no seek.
pub const START_SLACK: i64 = 10_000_000;

/// Frames up to this much before the start are still shown.
pub const SKIP_SLACK: i64 = 20_000_000;

/// Lets frames pass once the start has been reached.
#[derive(Debug, Clone, Copy)]
pub struct SkipGate {
    pub skipping: bool,
    pub start: i64,
}

/// What becomes of a frame that arrives.
#[derive(Debug, Clone, Copy, PartialEq, Eq, Structural)]
pub enum GateDecision {
    /// It lies before the start.
    Drop,
    /// It is the first to pass: the clock starts with it.
    Open,
    /// It passes.
    Pass,
}

impl SkipGate {
    /// What becomes of a frame that lasts until `end`.
    pub open spec fn decision(self, end: int) -> GateDecision {
        if !self.skipping {
            GateDecision::Pass
        } else if end < self.start - SKIP_SLACK {
            GateDecision::Drop
        } else {
            GateDecision::Open
        }
    }

    /// Its state after that frame.
    pub open spec fn after(self, end: int) -> SkipGate {
        SkipGate { skipping: self.decision(end) == GateDecision::Drop, ..self }
    }

    /// A gate that is shut where the start lies behind the beginning.
    pub fn new(start: i64) -> (r: Self)
        ensures
            r == (SkipGate { skipping: start > START_SLACK, start }),
    {
        SkipGate { skipping: start > START_SLACK, start }
    }

    /// Decides on a frame that lasts until `end` (for a picture: that is shown at
    /// `end`).
    pub fn offer(&mut self, end: i64) -> (r: GateDecision)
        requires
            in_time(old(self).start as int),
        ensures
            r == old(self).decision(end as int),
            *final(self) == old(self).after(end as int),
    {
        if self.skipping {
            if end < self.start - SKIP_SLACK {
                return GateDecision::Drop;
            }
            self.skipping = false;
            return GateDecision::Open;
        }
        GateDecision::Pass
    }
}

/// Once a frame has passed, all that follow pass.
pub proof fn law_gate_stays_open(g: SkipGate, end: int, next: int)
    requires
        g.decision(end) != GateDecision::Drop,
    ensures
        g.after(end).decision(next) == GateDecision::Pass,
{
}

/// Keeps track of where sound frames lie that do not say so themselves.
#[derive(Debug, Clone, Copy)]
pub struct SoundPosition {
    pub next: Option<i64>,
}

/// How long `samples` last at a rate; nothing where the rate is not known.
pub open spec fn samples_last(samples: int, rate: int) -> int {
    if rate > 0 {
        samples * SECOND / rate
    } else {
        0
    }
}

impl SoundPosition {
    /// Where the frame lies and how long it lasts. Without a position of its own it
    /// follows the one before; the first then lies at the beginning.
    pub fn place(&mut self, own: Option<i64>, samples: u32, rate: u32) -> (r: (i64, i64))
        requires
            own matches Some(p) ==> in_time(p as int),
            old(self).next matches Some(p) ==> in_time(p as int),
        ensures
            r.0 == match own {
                Some(p) => p,
                None => match old(self).next {
                    Some(p) => p,
                    None => 0,
                },
            },
            r.1 == samples_last(samples as int, rate as int),
            final(self).next == Some((r.0 + r.1) as i64),
    {
        let pts: i64 = match own {
            Some(p) => p,
            None => match self.next {
                Some(p) => p,
                None => 0,
            },
        };
        proof {
            if rate > 0 {
                assert(0 <= samples * SECOND / (rate as int) <= samples * SECOND) by (nonlinear_arith)
                    requires
                        rate >= 1,
                        0 <= samples * SECOND,
                ;
            }
        }
        let duration: i64 = if rate > 0 {
            (samples as u64 * 1_000_000_000 / rate as u64) as i64
        } else {
            0
        };
        self.next = Some(pts + duration);
        (pts, duration)
    }
}

/// Where a packet or a pad goes.
#[derive(Debug, Clone, Copy, PartialEq, Eq, Structural)]
pub enum Route {
    Video,
    Audio,
    Nowhere,
}

/// Where a packet goes: to the decoder of its stream, if that is wanted.
pub fn route_packet(stream: usize, video: Option<usize>, audio: Option<usize>) -> (r: Route)
    ensures
        r == if video == Some(stream) {
            Route::Video
        } else if audio == Some(stream) {
            Route::Audio
        } else {
            Route::Nowhere
        },
{
    if let Some(v) = video {
        if v == stream {
            return Route::Video;
        }
    }
    if let Some(a) = audio {
        if a == stream {
            return Route::Audio;
        }
    }
    Route::Nowhere
}

/// `name` begins with `prefix`.
pub open spec fn begins_with(name: Seq<char>, prefix: Seq<char>) -> bool {
    name.len() >= prefix.len() && name.take(prefix.len() as int) == prefix
}

/// Whether `name` begins with `prefix`.
pub fn starts_with(name: &str, prefix: &str) -> (r: bool)
    ensures
        r == begins_with(name@, prefix@),
{
    let n = chars_of(name);
    let p = chars_of(prefix);
    if n.len() < p.len() {
        return false;
    }
    let mut i: usize = 0;
    while i < p.len()
        invariant
            i <= p.len(),
            p.len() <= n.len(),
            n@ == name@,
            p@ == prefix@,
            forall|k: int| 0 <= k < i ==> n[k] == p[k],
        decreases p.len() - i,
    {
        if n[i] != p[i] {
            assert(name@.take(prefix@.len() as int)[i as int] == n[i as int]);
            return false;
        }
        i += 1;
    }
    assert(name@.take(prefix@.len() as int) =~= prefix@);
    true
}

/// Where the pad of a decoder goes by its media type, as far as that is wanted and
/// not linked yet.
pub fn route_pad(name: &str, video_open: bool, audio_open: bool) -> (r: Route)
    ensures
        r == if begins_with(name@, "video/"@) {
            if video_open {
                Route::Video
            } else {
                Route::Nowhere
            }
        } else if begins_with(name@, "audio/"@) && audio_open {
            Route::Audio
        } else {
            Route::Nowhere
        },
{
    if starts_with(name, "video/") {
        if video_open {
            Route::Video
        } else {
            Route::Nowhere
        }
    } else if starts_with(name, "audio/") && audio_open {
        Route::Audio
    } else {
        Route::Nowhere
    }
}

/// What is done to a pipeline before it plays: a seek, a change of rate.
#[derive(Debug, Clone, Copy, PartialEq, Eq, Structural)]
pub struct PrerollPlan {
    pub seek_to: Option<i64>,
    pub rate: Option<i64>,
}

/// What is to be done before playback from `start` at `speed`: a seek unless it is
/// the beginning, a change of rate unless it is the normal one.
pub fn preroll_plan(start: i64, speed: i64) -> (r: PrerollPlan)
    ensures
        r.seek_to == if start > START_SLACK {
            Some(start)
        } else {
            None
        },
        r.rate == if speed > 1010 || speed < 990 {
            Some(speed)
        } else {
            None
        },
{
    PrerollPlan {
        seek_to: if start > START_SLACK {
            Some(start)
        } else {
            None
        },
        rate: if speed > 1010 || speed < 990 {
            Some(speed)
        } else {
            None
        },
    }
}

/// What the message bus of a pipeline said.
#[derive(Debug, Clone, Copy, PartialEq, Eq, Structural)]
pub enum BusEvent {
    TimedOut,
    AsyncDone,
    Error,
    Other,
}

/// Whether to go on waiting for a pipeline.
#[derive(Debug, Clone, Copy, PartialEq, Eq, Structural)]
pub enum WaitStep {
    Ready,
    Failed,
    KeepWaiting,
}

/// Whether a pipeline is ready. One that says nothing for the whole time is taken to
/// be.
pub fn wait_step(event: BusEvent) -> (r: WaitStep)
    ensures
        r == match event {
            BusEvent::TimedOut | BusEvent::AsyncDone => WaitStep::Ready,
            BusEvent::Error => WaitStep::Failed,
            BusEvent::Other => WaitStep::KeepWaiting,
        },
{
    match event {
        BusEvent::TimedOut => WaitStep::Ready,
        BusEvent::AsyncDone => WaitStep::Ready,
        BusEvent::Error => WaitStep::Failed,
        BusEvent::Other => WaitStep::KeepWaiting,
    }
}

/// What happened to a thread that hands frames from a sink to the player.
#[derive(Debug, Clone, Copy, PartialEq, Eq, Structural)]
pub enum BridgeEvent {
    /// It was told to stop.
    Stop,
    /// No sample came in time; the flag says whether the stream is at its end.
    NoSample { at_end: bool },
    /// A sample came without data that can be read.
    Unreadable,
    /// A sample came.
    Sample,
    /// A frame could not be handed on: nobody takes it any more.
    ReceiverGone,
}

/// What the thread does then.
#[derive(Debug, Clone, Copy, PartialEq, Eq, Structural)]
pub enum BridgeStep {
    Exit,
    PullAgain,
    HandOn,
}

/// What a thread that hands frames on does. When muted, samples are thrown away.
pub fn bridge_step(event: BridgeEvent, muted: bool) -> (r: BridgeStep)
    ensures
        r == match event {
            BridgeEvent::Stop | BridgeEvent::ReceiverGone => BridgeStep::Exit,
            BridgeEvent::NoSample { at_end } => if at_end {
                BridgeStep::Exit
            } else {
                BridgeStep::PullAgain
            },
            BridgeEvent::Unreadable => BridgeStep::PullAgain,
            BridgeEvent::Sample => if muted {
                BridgeStep::PullAgain
            } else {
                BridgeStep::HandOn
            },
        },
{
    match event {
        BridgeEvent::Stop => BridgeStep::Exit,
        BridgeEvent::ReceiverGone => BridgeStep::Exit,
        BridgeEvent::NoSample { at_end } => {
            if at_end {
                BridgeStep::Exit
            } else {
                BridgeStep::PullAgain
            }
        },
        BridgeEvent::Unreadable => BridgeStep::PullAgain,
        BridgeEvent::Sample => {
            if muted {
                BridgeStep::PullAgain
            } else {
                BridgeStep::HandOn
            }
        },
    }
}

/// Sound is muted below normal speed.
pub fn is_muted(speed: i64) -> (r: bool)
    ensures
        r == (speed < 990),
{
    speed < 990
}

/// How many milliseconds to wait for a sample of sound.
pub fn sound_poll_ms(muted: bool) -> (r: u64)
    ensures
        r == if muted {
            50u64
        } else {
            8u64
        },
{
    if muted {
        50
    } else {
        8
    }
}

/// So much of a file is read ahead of its first use.
pub const PREWARM_BYTES: usize = 16_777_216;

/// Whether to go on reading a file ahead, after `read` more bytes came on top of
/// `total`.
pub fn prewarm_more(total: usize, read: usize) -> (r: Option<usize>)
    requires
        total < PREWARM_BYTES,
        read <= 4_194_304,
    ensures
        r == if read == 0 || total + read >= PREWARM_BYTES {
            None
        } else {
            Some((total + read) as usize)
        },
{
    if read == 0 {
        return None;
    }
    let sum: usize = total + read;
    if sum >= PREWARM_BYTES {
        None
    } else {
        Some(sum)
    }
}

/// A file path as a locator.
pub open spec fn file_url(path: Seq<char>) -> Seq<char> {
    "file://"@ + path
}

/// The locator of an absolute path.
pub fn url_from_path(path: &str) -> (r: String)
    ensures
        r@ == file_url(path@),
{
    let mut out = String::new();
    out.append("file://");
    out.append(path);
    assert(out@ =~= file_url(path@));
    out
}

/// Sound before the start is dropped, but for a fiftieth of a second, until the first that
/// is not; that one starts the clock.
pub proof fn law_gate_drops_what_lies_before(g: SkipGate, end: int)
    requires
        g.skipping,
    ensures
        end < g.start - 20_000_000 ==> g.decision(end) == GateDecision::Drop && g.after(end)
            == g,
        end >= g.start - 20_000_000 ==> g.decision(end) == GateDecision::Open && !g.after(
            end,
        ).skipping,
{
}

/// Samples last as long as the rate says, in nanoseconds, rounded down.
pub proof fn law_samples_last(samples: int, rate: int)
    requires
        0 <= samples,
        0 < rate,
    ensures
        samples_last(samples, rate) * rate <= samples * 1_000_000_000 < (samples_last(samples, rate)
            + 1) * rate,
{
    let x = samples * 1_000_000_000;
    vstd::arithmetic::div_mod::lemma_fundamental_div_mod(x, rate);
    vstd::arithmetic::div_mod::lemma_mod_bound(x, rate);
    let q = x / rate;
    assert(q * rate == rate * q && (q + 1) * rate == rate * q + rate) by (nonlinear_arith);
}

} // verus!
