//! Which decoded frames are wanted: after a seek, for a thumbnail, and for a strip of
//! preview pictures.

use vstd::prelude::*;

use crate::media::frame::RgbaFrame;
use crate::time::{in_time, later, max_time};

verus! {

/// Two frames this close together count as one position, and a frame this little
/// before the target counts as on it.
pub const SAME_POSITION: i64 = 1_000;

/// So many frames are looked at after a seek.
pub const SEEK_FRAME_LIMIT: u32 = 180;

/// So many frames in a row without progress end the search.
pub const STAGNANT_LIMIT: u32 = 4;

/// The search for a position after a seek.
#[derive(Debug, Clone, Copy)]
pub struct SeekScan {
    pub target: i64,
    pub last_pts: Option<i64>,
    pub stagnant: u32,
    pub seen: u32,
}

/// What becomes of a frame that the search comes upon.
#[derive(Debug, Clone, Copy, PartialEq, Eq, Structural)]
pub enum SeekDecision {
    /// It is the frame sought.
    Take,
    /// It is before the target: it will do if nothing better comes.
    Remember,
}

/// Where a seek goes: never before the beginning.
pub open spec fn seek_target(time: int) -> int {
    later(time, 0)
}

impl SeekScan {
    /// The frame is at the position of the one before.
    pub open spec fn repeats(self, pts: int) -> bool {
        self.last_pts matches Some(last) && -SAME_POSITION < pts - last < SAME_POSITION
    }

    /// The search after a frame at `pts`.
    pub open spec fn after(self, pts: int) -> SeekScan {
        if self.repeats(pts) {
            SeekScan {
                stagnant: (self.stagnant + 1) as u32,
                seen: (self.seen + 1) as u32,
                ..self
            }
        } else {
            SeekScan {
                stagnant: 0,
                last_pts: Some(pts as i64),
                seen: (self.seen + 1) as u32,
                ..self
            }
        }
    }

    /// A search for `time`.
    pub fn new(time: i64) -> (r: Self)
        ensures
            r == (SeekScan {
                target: seek_target(time as int) as i64,
                last_pts: None,
                stagnant: 0,
                seen: 0,
            }),
    {
        SeekScan { target: max_time(time, 0), last_pts: None, stagnant: 0, seen: 0 }
    }

    /// Whether another frame is to be looked at.
    pub fn wants_more(&self) -> (r: bool)
        ensures
            r == (self.seen < SEEK_FRAME_LIMIT),
    {
        self.seen < SEEK_FRAME_LIMIT
    }

    /// Decides on the frame at `pts`. A stream whose position does not advance is
    /// taken as it is.
    pub fn offer(&mut self, pts: i64) -> (r: SeekDecision)
        requires
            old(self).seen < SEEK_FRAME_LIMIT,
            old(self).stagnant <= old(self).seen,
            in_time(pts as int),
            old(self).last_pts matches Some(p) ==> in_time(p as int),
        ensures
            *final(self) == old(self).after(pts as int),
            r == if final(self).stagnant >= STAGNANT_LIMIT || pts + SAME_POSITION
                >= old(self).target {
                SeekDecision::Take
            } else {
                SeekDecision::Remember
            },
            final(self).stagnant <= final(self).seen,
    {
        let repeats = match self.last_pts {
            Some(last) => -SAME_POSITION < pts - last && pts - last < SAME_POSITION,
            None => false,
        };
        if repeats {
            self.stagnant = self.stagnant + 1;
        } else {
            self.stagnant = 0;
            self.last_pts = Some(pts);
        }
        self.seen = self.seen + 1;
        if self.stagnant >= STAGNANT_LIMIT {
            return SeekDecision::Take;
        }
        if pts + SAME_POSITION >= self.target {
            return SeekDecision::Take;
        }
        SeekDecision::Remember
    }
}

/// The search after some frames.
pub open spec fn searched(scan: SeekScan, frames: Seq<int>) -> SeekScan
    decreases frames.len(),
{
    if frames.len() == 0 {
        scan
    } else {
        searched(scan, frames.drop_last()).after(frames.last())
    }
}

/// A search gives up after so many frames, wherever they lie.
pub proof fn law_seek_gives_up(scan: SeekScan, frames: Seq<int>)
    requires
        scan.seen == 0,
        frames.len() <= SEEK_FRAME_LIMIT,
    ensures
        searched(scan, frames).seen == frames.len(),
        frames.len() == SEEK_FRAME_LIMIT ==> !(searched(scan, frames).seen < SEEK_FRAME_LIMIT),
    decreases frames.len(),
{
    if frames.len() > 0 {
        law_seek_gives_up(scan, frames.drop_last());
    }
}

/// A stream whose position stands still is not searched on: after so many frames at the
/// place of the first of them, the next is taken.
pub proof fn law_stuck_stream_is_taken(scan: SeekScan, pts: i64, n: nat)
    requires
        !scan.repeats(pts as int),
        n <= STAGNANT_LIMIT,
        scan.seen + n < u32::MAX,
    ensures
        searched(scan, Seq::new(n + 1, |i: int| pts as int)).stagnant == n,
        n == STAGNANT_LIMIT ==> searched(scan, Seq::new(n + 1, |i: int| pts as int)).stagnant
            >= STAGNANT_LIMIT,
    decreases n,
{
    let all = Seq::new(n + 1, |i: int| pts as int);
    if n == 0 {
        assert(all.drop_last() =~= Seq::<int>::empty());
        reveal_with_fuel(searched, 2);
    } else {
        let less = (n - 1) as nat;
        law_stuck_stream_is_taken(scan, pts, less);
        lemma_place_is_kept(scan, pts, less);
        assert(all.drop_last() =~= Seq::new(less + 1, |i: int| pts as int));
    }
}

proof fn lemma_place_is_kept(scan: SeekScan, pts: i64, n: nat)
    requires
        !scan.repeats(pts as int),
    ensures
        searched(scan, Seq::new(n + 1, |i: int| pts as int)).last_pts == Some(pts),
    decreases n,
{
    let all = Seq::new(n + 1, |i: int| pts as int);
    if n == 0 {
        assert(all.drop_last() =~= Seq::<int>::empty());
        reveal_with_fuel(searched, 2);
    } else {
        lemma_place_is_kept(scan, pts, (n - 1) as nat);
        assert(all.drop_last() =~= Seq::new(((n - 1) as nat) + 1, |i: int| pts as int));
    }
}

/// So many packets are read for one frame.
pub const FRAME_ATTEMPTS: u32 = 5000;

/// So many packets are read for one stretch of playback in reverse.
pub const GOP_ATTEMPTS: u32 = 50000;

/// How many packets may still be read.
#[derive(Debug, Clone, Copy)]
pub struct ReadBudget {
    pub attempts: u32,
    pub limit: u32,
}

impl ReadBudget {
    /// Nothing read yet.
    pub fn new(limit: u32) -> (r: Self)
        ensures
            r == (ReadBudget { attempts: 0, limit }),
    {
        ReadBudget { attempts: 0, limit }
    }

    /// Whether another packet may be read; it then counts.
    pub fn try_read(&mut self) -> (r: bool)
        requires
            old(self).limit < u32::MAX,
        ensures
            r == (old(self).attempts <= old(self).limit),
            *final(self) == if r {
                ReadBudget { attempts: (old(self).attempts + 1) as u32, ..*old(self) }
            } else {
                *old(self)
            },
    {
        if self.attempts > self.limit {
            return false;
        }
        self.attempts = self.attempts + 1;
        true
    }
}

/// What came of reading a packet and handing it to the decoder.
#[derive(Debug, Clone, Copy, PartialEq, Eq, Structural)]
pub enum ReadEvent {
    /// A packet of another stream.
    OtherStream,
    /// A packet that the decoder refused.
    Refused,
    /// A packet that gave no frame yet.
    NoFrame,
    /// A packet that gave a frame.
    Frame,
    /// The end of the file.
    EndOfFile,
    /// The file could not be read.
    Failed,
}

/// What to do about it.
#[derive(Debug, Clone, Copy, PartialEq, Eq, Structural)]
pub enum ReadStep {
    /// Read the next packet.
    ReadOn,
    /// Use the frame.
    UseFrame,
    /// Take what the decoder still holds, then stop.
    Drain,
    /// Stop with nothing.
    GiveUp,
}

/// What to do after an attempt to read a frame.
pub fn read_step(event: ReadEvent) -> (r: ReadStep)
    ensures
        r == match event {
            ReadEvent::OtherStream | ReadEvent::Refused | ReadEvent::NoFrame => ReadStep::ReadOn,
            ReadEvent::Frame => ReadStep::UseFrame,
            ReadEvent::EndOfFile => ReadStep::Drain,
            ReadEvent::Failed => ReadStep::GiveUp,
        },
{
    match event {
        ReadEvent::OtherStream => ReadStep::ReadOn,
        ReadEvent::Refused => ReadStep::ReadOn,
        ReadEvent::NoFrame => ReadStep::ReadOn,
        ReadEvent::Frame => ReadStep::UseFrame,
        ReadEvent::EndOfFile => ReadStep::Drain,
        ReadEvent::Failed => ReadStep::GiveUp,
    }
}

/// The pixel at place `i` is nearly black.
pub open spec fn is_dark(pixels: Seq<u8>, i: int) -> bool {
    pixels[i * 4] + pixels[i * 4 + 1] + pixels[i * 4 + 2] < 30
}

/// How many of the first `n` samples, `step` pixels apart, are nearly black.
pub open spec fn dark_samples(pixels: Seq<u8>, step: int, n: nat) -> nat
    decreases n,
{
    if n == 0 {
        0
    } else {
        dark_samples(pixels, step, (n - 1) as nat) + if is_dark(pixels, (n - 1) * step) {
            1nat
        } else {
            0nat
        }
    }
}

/// Every how many pixels one is sampled: about two hundred in all.
pub open spec fn sample_step(total: int) -> int {
    if total / 200 >= 1 {
        total / 200
    } else {
        1
    }
}

/// How many pixels are sampled.
pub open spec fn sample_count(total: int) -> int {
    (total + sample_step(total) - 1) / sample_step(total)
}

/// More than nine in ten of the sampled pixels are nearly black. An empty picture is.
pub open spec fn mostly_black(f: RgbaFrame) -> bool {
    let total = f.width * f.height;
    let n = sample_count(total);
    total == 0 || dark_samples(f.pixels@, sample_step(total), n as nat) * 100 > 90 * n
}

/// Whether a picture is so dark that it makes no good thumbnail.
#[verifier::spinoff_prover]
pub fn is_mostly_black(f: &RgbaFrame) -> (r: bool)
    requires
        f.is_whole(),
    ensures
        r == mostly_black(*f),
{
    let ghost total = f.width * f.height;
    let len: usize = f.pixels.len();
    assert(len == total * 4);
    let count: usize = len / 4;
    if count == 0 {
        return true;
    }
    let step: usize = if count / 200 >= 1 {
        count / 200
    } else {
        1
    };
    let n: usize = (count + step - 1) / step;
    let mut dark: usize = 0;
    let mut j: usize = 0;
    proof {
        vstd::arithmetic::div_mod::lemma_fundamental_div_mod(total + step - 1, step as int);
        assert(n >= 1) by (nonlinear_arith)
            requires
                total + step - 1 == step * n + (total + step - 1) % (step as int),
                (total + step - 1) % (step as int) < step,
                total >= 1,
                step >= 1,
        ;
    }
    while j < n
        invariant
            total == f.width * f.height,
            f.pixels.len() == total * 4,
            0 < step <= total,
            j <= n,
            dark <= j,
            dark == dark_samples(f.pixels@, step as int, j as nat),
            total + step - 1 == step * n + (total + step - 1) % (step as int),
            0 <= (total + step - 1) % (step as int),
        decreases n - j,
    {
        proof {
            assert(0 <= j * step < total) by (nonlinear_arith)
                requires
                    0 <= j < n,
                    total + step - 1 == step * n + (total + step - 1) % (step as int),
                    0 <= (total + step - 1) % (step as int),
                    step > 0,
            ;
        }
        let p: usize = j * step * 4;
        let sum: u32 = f.pixels[p] as u32 + f.pixels[p + 1] as u32 + f.pixels[p + 2] as u32;
        if sum < 30 {
            dark = dark + 1;
        }
        j = j + 1;
    }
    dark as u128 * 100 > 90 * n as u128
}

/// How many moments are tried for a thumbnail before the last resort.
pub const THUMBNAIL_TRIES: u32 = 7;

/// The moment that is tried for a thumbnail at the `k`-th try, from 0; the last
/// resort is one second in.
pub open spec fn thumbnail_time(k: int) -> int {
    if k == 0 {
        500_000_000
    } else if k == 1 {
        1_000_000_000
    } else if k == 2 {
        2_000_000_000
    } else if k == 3 {
        0
    } else if k == 4 {
        40_000_000
    } else if k == 5 {
        250_000_000
    } else if k == 6 {
        5_000_000_000
    } else {
        1_000_000_000
    }
}

/// The search for a thumbnail that is not mostly black.
#[derive(Debug, Clone, Copy)]
pub struct ThumbnailSearch {
    pub tried: u32,
}

/// What comes of a try.
#[derive(Debug)]
pub enum ThumbnailStep {
    /// The search is over, with or without a picture.
    Done(Option<RgbaFrame>),
    /// The next moment is to be tried.
    TryNext,
}

impl ThumbnailSearch {
    /// A search before its first try.
    pub fn new() -> (r: Self)
        ensures
            r.tried == 0,
    {
        ThumbnailSearch { tried: 0 }
    }

    /// The moment to decode next.
    pub fn next_time(&self) -> (r: i64)
        ensures
            r == thumbnail_time(self.tried as int),
    {
        match self.tried {
            0 => 500_000_000,
            1 => 1_000_000_000,
            2 => 2_000_000_000,
            3 => 0,
            4 => 40_000_000,
            5 => 250_000_000,
            6 => 5_000_000_000,
            _ => 1_000_000_000,
        }
    }

    /// Takes in what the moment showed. The first picture that is not mostly black is
    /// the thumbnail; at the last resort whatever comes is.
    pub fn offer(&mut self, frame: Option<RgbaFrame>) -> (r: ThumbnailStep)
        requires
            old(self).tried <= THUMBNAIL_TRIES,
            frame matches Some(f) ==> f.is_whole(),
        ensures
            if old(self).tried == THUMBNAIL_TRIES {
                r == ThumbnailStep::Done(frame) && *final(self) == *old(self)
            } else if frame is Some && !mostly_black(frame->0) {
                r == ThumbnailStep::Done(frame) && *final(self) == *old(self)
            } else {
                r == ThumbnailStep::TryNext && final(self).tried == old(self).tried + 1
            },
    {
        if self.tried == THUMBNAIL_TRIES {
            return ThumbnailStep::Done(frame);
        }
        match frame {
            Some(f) => {
                if !is_mostly_black(&f) {
                    return ThumbnailStep::Done(Some(f));
                }
            },
            None => {},
        }
        self.tried = self.tried + 1;
        ThumbnailStep::TryNext
    }
}

impl Default for ThumbnailSearch {
    fn default() -> (r: Self)
        ensures
            r.tried == 0,
    {
        ThumbnailSearch::new()
    }
}

/// A frame this little before a target counts as having reached it.
pub const TARGET_SLACK: i64 = 1_000_000;

/// A strip of pictures, evenly spread over a file, that is filled while the file is
/// decoded once from the beginning.
#[derive(Debug, Clone, Copy)]
pub struct FrameTargets {
    pub count: usize,
    pub duration: i64,
    pub next: usize,
}

impl FrameTargets {
    /// A frame at `pts` has reached the `i`-th of the evenly spread targets.
    pub open spec fn reached(self, i: int, pts: int) -> bool {
        (pts + TARGET_SLACK) * self.count >= i * self.duration
    }

    /// There is a picture to take, and the file lasts.
    pub open spec fn wf(self) -> bool {
        &&& self.next <= self.count
        &&& self.count >= 1
        &&& 0 < self.duration
        &&& in_time(self.duration as int)
    }

    /// A strip of `count` pictures, at least one; none where the file does not last.
    pub fn plan(duration: Option<i64>, count: usize) -> (r: Option<Self>)
        requires
            duration matches Some(d) ==> in_time(d as int),
        ensures
            match r {
                Some(t) => duration == Some(t.duration) && t.duration > 0 && t.next == 0 && t.count
                    == if count >= 1 {
                    count
                } else {
                    1
                } && t.wf(),
                None => duration matches Some(d) ==> d <= 0,
            },
    {
        match duration {
            Some(d) => {
                if d > 0 {
                    let n: usize = if count >= 1 {
                        count
                    } else {
                        1
                    };
                    Some(FrameTargets { count: n, duration: d, next: 0 })
                } else {
                    None
                }
            },
            None => None,
        }
    }

    /// Whether all pictures have been taken.
    pub fn is_done(&self) -> (r: bool)
        ensures
            r == (self.next >= self.count),
    {
        self.next >= self.count
    }

    /// Takes in the frame at `pts`: it is the picture for all targets from the first
    /// result up to, but not including, the second.
    pub fn offer(&mut self, pts: i64) -> (r: (usize, usize))
        requires
            old(self).wf(),
            in_time(pts as int),
        ensures
            r.0 == old(self).next,
            r.1 == final(self).next,
            r.0 <= r.1 <= old(self).count,
            forall|i: int| r.0 <= i < r.1 ==> old(self).reached(i, pts as int),
            r.1 == old(self).count || !old(self).reached(r.1 as int, pts as int),
            *final(self) == (FrameTargets { next: r.1, ..*old(self) }),
            final(self).wf(),
    {
        let from: usize = self.next;
        let mut to: usize = from;
        while to < self.count
            invariant_except_break
                self.wf(),
                in_time(pts as int),
                from <= to <= self.count,
                forall|i: int| from <= i < to ==> self.reached(i, pts as int),
            ensures
                from <= to <= self.count,
                forall|i: int| from <= i < to ==> self.reached(i, pts as int),
                to == self.count || !self.reached(to as int, pts as int),
            decreases self.count - to,
        {
            proof {
                lemma_small_product(pts + TARGET_SLACK, self.count as int);
                lemma_small_product(self.duration as int, to as int);
                assert(to * self.duration == self.duration * to) by (nonlinear_arith);
            }
            if (pts as i128 + TARGET_SLACK as i128) * (self.count as i128) >= to as i128
                * self.duration as i128 {
                to = to + 1;
            } else {
                break;
            }
        }
        self.next = to;
        (from, to)
    }
}

/// A time times a count fits in 128 bits.
pub proof fn lemma_small_product(a: int, b: int)
    requires
        -0x2000_0000_0000_0000 <= a <= 0x2000_0000_0000_0000,
        0 <= b <= 0xffff_ffff_ffff_ffff,
    ensures
        -0x2000_0000_0000_0000 * 0xffff_ffff_ffff_ffff <= a * b <= 0x2000_0000_0000_0000
            * 0xffff_ffff_ffff_ffff,
{
    assert(-0x2000_0000_0000_0000 * 0xffff_ffff_ffff_ffff <= a * b <= 0x2000_0000_0000_0000
        * 0xffff_ffff_ffff_ffff) by (nonlinear_arith)
        requires
            -0x2000_0000_0000_0000 <= a <= 0x2000_0000_0000_0000,
            0 <= b <= 0xffff_ffff_ffff_ffff,
    ;
}

/// A frame that has reached a target has reached all before it: no picture is passed
/// over.
pub proof fn law_targets_in_order(t: FrameTargets, i: int, j: int, pts: int)
    requires
        t.wf(),
        i <= j,
        t.reached(j, pts),
    ensures
        t.reached(i, pts),
{
    assert(i * t.duration <= j * t.duration) by (nonlinear_arith)
        requires
            i <= j,
            0 < t.duration,
    ;
}

/// The first target is the beginning: the first frame of a file reaches it.
pub proof fn law_first_target_is_beginning(t: FrameTargets, pts: int)
    requires
        t.wf(),
        pts >= 0,
    ensures
        t.reached(0, pts),
{
    assert((pts + TARGET_SLACK) * t.count >= 0) by (nonlinear_arith)
        requires
            pts >= 0,
            t.count >= 1,
    ;
}

proof fn lemma_dark_count(pixels: Seq<u8>, step: int, n: nat)
    ensures
        dark_samples(pixels, step, n) <= n,
        (forall|i: int| 0 <= i < n ==> is_dark(pixels, #[trigger] (i * step))) ==> dark_samples(
            pixels,
            step,
            n,
        ) == n,
        (forall|i: int| 0 <= i < n ==> !is_dark(pixels, #[trigger] (i * step))) ==> dark_samples(
            pixels,
            step,
            n,
        ) == 0,
    decreases n,
{
    if n > 0 {
        lemma_dark_count(pixels, step, (n - 1) as nat);
        assert(is_dark(pixels, (n - 1) * step) == is_dark(pixels, (n - 1) * step));
    }
}

/// A picture all of whose pixels are black is mostly black, and one that has no dark pixel
/// is not.
pub proof fn law_black_is_told_from_bright(f: RgbaFrame)
    requires
        f.width * f.height > 0,
        f.pixels@.len() == f.width * f.height * 4,
    ensures
        (forall|i: int| 0 <= i < f.pixels@.len() ==> #[trigger] f.pixels@[i] == 0) ==> mostly_black(f),
        (forall|i: int|
            0 <= i < f.width * f.height ==> (#[trigger] f.pixels@[i * 4]) + f.pixels@[i * 4 + 1]
                + f.pixels@[i * 4 + 2] >= 30) ==> !mostly_black(f),
{
    let total = f.width * f.height;
    let step = sample_step(total);
    let n = sample_count(total);
    vstd::arithmetic::div_mod::lemma_fundamental_div_mod(total + step - 1, step);
    vstd::arithmetic::div_mod::lemma_mod_bound(total + step - 1, step);
    let rest = (total + step - 1) % step;
    assert(n >= 1) by (nonlinear_arith)
        requires
            total + step - 1 == step * n + rest,
            rest < step,
            0 < step,
            1 <= total,
    ;
    lemma_dark_count(f.pixels@, step, n as nat);
    assert forall|i: int| 0 <= i < n implies 0 <= #[trigger] (i * step) < total by {
        assert(0 <= i * step <= total - 1) by (nonlinear_arith)
            requires
                0 <= i <= n - 1,
                total + step - 1 == step * n + rest,
                0 <= rest,
                0 < step,
        ;
    }
    if forall|i: int| 0 <= i < f.pixels@.len() ==> #[trigger] f.pixels@[i] == 0 {
        assert forall|i: int| 0 <= i < n implies is_dark(f.pixels@, #[trigger] (i * step)) by {
            let j = i * step;
            assert(f.pixels@[j * 4] == 0 && f.pixels@[j * 4 + 1] == 0 && f.pixels@[j * 4 + 2] == 0);
        }
    }
    if forall|i: int|
        0 <= i < f.width * f.height ==> (#[trigger] f.pixels@[i * 4]) + f.pixels@[i * 4 + 1]
            + f.pixels@[i * 4 + 2] >= 30 {
        assert forall|i: int| 0 <= i < n implies !is_dark(f.pixels@, #[trigger] (i * step)) by {
            let j = i * step;
            assert(f.pixels@[j * 4] + f.pixels@[j * 4 + 1] + f.pixels@[j * 4 + 2] >= 30);
        }
    }
}

/// The moments at which pictures are taken of a file lie one behind the other, as far
/// apart as there are to be pictures: the `i`-th is reached from a thousandth of a second
/// before `i` shares of the duration on.
pub proof fn law_targets_are_evenly_spread(t: FrameTargets, i: int, pts: int)
    requires
        t.wf(),
    ensures
        pts * t.count >= i * t.duration ==> t.reached(i, pts),
        (pts + 1_000_000) * t.count < i * t.duration ==> !t.reached(i, pts),
        t.reached(i, pts) <==> (pts + 1_000_000) * t.count >= i * t.duration,
{
    assert((pts + 1_000_000) * t.count >= pts * t.count) by (nonlinear_arith)
        requires
            t.count >= 1,
    ;
}

} // verus!
