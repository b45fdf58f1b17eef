//! Waveform peaks, folding channels into one, and planning which part of a sound to
//! decode.

use vstd::prelude::*;

use crate::audio::mixer::sum_at;
use crate::audio::feed::{resample_linear, resampled, resampled_len};
use crate::audio::sample::{decode_plane, decoded_as, SampleFormat};
use crate::time::{floor_div, in_time, later, max_time, SECOND};

verus! {

/// The lowest of some samples.
pub open spec fn lowest(s: Seq<i32>) -> i32
    decreases s.len(),
{
    if s.len() <= 1 {
        s[0]
    } else {
        let m = lowest(s.drop_last());
        if s.last() < m {
            s.last()
        } else {
            m
        }
    }
}

/// The highest of some samples.
pub open spec fn highest(s: Seq<i32>) -> i32
    decreases s.len(),
{
    if s.len() <= 1 {
        s[0]
    } else {
        let m = highest(s.drop_last());
        if s.last() > m {
            s.last()
        } else {
            m
        }
    }
}

/// A waveform is drawn from so many peaks.
pub const WAVEFORM_PEAKS: usize = 512;

/// How many samples go into one peak.
pub open spec fn samples_per_peak(total: int, wanted: int) -> int {
    if total / wanted >= 1 {
        total / wanted
    } else {
        1
    }
}

/// How many peaks there are: no more than wanted, and none without samples.
pub open spec fn peak_count(total: int, wanted: int) -> int {
    let per = samples_per_peak(total, wanted);
    let all = (total + per - 1) / per;
    if all < wanted {
        all
    } else {
        wanted
    }
}

/// The samples that go into the `k`-th peak.
pub open spec fn peak_samples(s: Seq<i32>, per: int, k: int) -> Seq<i32> {
    let end = k * per + per;
    s.subrange(
        k * per,
        if end < s.len() {
            end
        } else {
            s.len() as int
        },
    )
}

/// The lowest and the highest sample of each stretch.
pub open spec fn peaks(s: Seq<i32>, wanted: int) -> Seq<(i32, i32)> {
    if wanted == 0 || s.len() == 0 {
        Seq::empty()
    } else {
        let per = samples_per_peak(s.len() as int, wanted);
        Seq::new(
            peak_count(s.len() as int, wanted) as nat,
            |k: int|
                (lowest(peak_samples(s, per, k)), highest(peak_samples(s, per, k))),
        )
    }
}

/// No sample lies outside the peak that it goes into, and both ends of a peak are samples
/// of it.
pub proof fn law_peak_holds_samples(s: Seq<i32>, i: int)
    requires
        0 <= i < s.len(),
    ensures
        lowest(s) <= s[i] <= highest(s),
        s.contains(lowest(s)),
        s.contains(highest(s)),
    decreases s.len(),
{
    if s.len() == 1 {
        assert(s[0] == lowest(s));
    } else {
        let init = s.drop_last();
        law_peak_holds_samples(
            init,
            if i < s.len() - 1 {
                i
            } else {
                0
            },
        );
        let a = choose|a: int| 0 <= a < init.len() && init[a] == lowest(init);
        let b = choose|b: int| 0 <= b < init.len() && init[b] == highest(init);
        assert(s[a] == lowest(init) && s[b] == highest(init));
        assert(s[s.len() - 1] == s.last());
    }
}

/// The lowest and the highest of the samples from `from` to `to`.
fn extremes(s: &Vec<i32>, from: usize, to: usize) -> (r: (i32, i32))
    requires
        from < to <= s.len(),
    ensures
        r.0 == lowest(s@.subrange(from as int, to as int)),
        r.1 == highest(s@.subrange(from as int, to as int)),
{
    let mut low: i32 = s[from];
    let mut high: i32 = s[from];
    let mut i: usize = from + 1;
    while i < to
        invariant
            from < i <= to <= s.len(),
            low == lowest(s@.subrange(from as int, i as int)),
            high == highest(s@.subrange(from as int, i as int)),
        decreases to - i,
    {
        let v: i32 = s[i];
        let ghost next = s@.subrange(from as int, i + 1);
        assert(next.drop_last() =~= s@.subrange(from as int, i as int));
        if v < low {
            low = v;
        }
        if v > high {
            high = v;
        }
        i += 1;
    }
    (low, high)
}

/// The peaks that a waveform is drawn from.
pub fn waveform_peaks(samples: &Vec<i32>, num_peaks: usize) -> (r: Vec<(i32, i32)>)
    ensures
        r@ == peaks(samples@, num_peaks as int),
{
    let mut out: Vec<(i32, i32)> = Vec::new();
    if num_peaks == 0 || samples.len() == 0 {
        return out;
    }
    let total: usize = samples.len();
    let per: usize = if total / num_peaks >= 1 {
        total / num_peaks
    } else {
        1
    };
    let ghost n = peak_count(total as int, num_peaks as int);
    let ghost all = (total + per - 1) / per as int;
    proof {
        vstd::arithmetic::div_mod::lemma_fundamental_div_mod(total + per - 1, per as int);
        assert(all >= 1) by (nonlinear_arith)
            requires
                total + per - 1 == per * all + (total + per - 1) % (per as int),
                (total + per - 1) % (per as int) < per,
                total >= 1,
                per >= 1,
        ;
    }
    let mut start: usize = 0;
    assert(0 * per == 0) by (nonlinear_arith);
    while start < total && out.len() < num_peaks
        invariant
            total == samples.len(),
            num_peaks > 0,
            0 < per <= total,
            per == samples_per_peak(total as int, num_peaks as int),
            all == (total + per - 1) / per as int,
            n == peak_count(total as int, num_peaks as int),
            total + per - 1 == per * all + (total + per - 1) % (per as int),
            0 <= (total + per - 1) % (per as int) < per,
            start <= total,
            start < total ==> start == out.len() * per,
            start >= total ==> out.len() == all,
            out.len() <= n,
            out@ == peaks(samples@, num_peaks as int).take(out.len() as int),
        decreases total - start,
    {
        let ghost k = out.len() as int;
        proof {
            assert(k < all) by (nonlinear_arith)
                requires
                    k * per < total,
                    total + per - 1 == per * all + (total + per - 1) % (per as int),
                    0 <= (total + per - 1) % (per as int) < per,
                    per > 0,
            ;
            assert((k + 1) * per == k * per + per) by (nonlinear_arith);
            if k * per + per >= total {
                assert(k + 1 >= all) by (nonlinear_arith)
                    requires
                        (k + 1) * per >= total,
                        total + per - 1 == per * all + (total + per - 1) % (per as int),
                        0 <= (total + per - 1) % (per as int) < per,
                        per > 0,
                ;
            }
        }
        let end: usize = if per < total - start {
            start + per
        } else {
            total
        };
        let pair = extremes(samples, start, end);
        proof {
            assert(samples@.subrange(start as int, end as int) == peak_samples(
                samples@,
                per as int,
                k,
            ));
        }
        out.push(pair);
        assert(peaks(samples@, num_peaks as int).take(k + 1) =~= peaks(
            samples@,
            num_peaks as int,
        ).take(k).push(peaks(samples@, num_peaks as int)[k]));
        start = end;
    }
    assert(out.len() == n);
    assert(peaks(samples@, num_peaks as int).take(n) =~= peaks(samples@, num_peaks as int));
    out
}

/// How the samples of several channels lie in memory.
#[derive(Debug, Clone, Copy, PartialEq, Eq, Structural)]
pub enum Layout {
    /// One after the other, sample by sample, in one plane.
    Packed,
    /// Each channel in a plane of its own.
    Planar,
}

/// The `i`-th sample of a channel; silence where it is missing.
pub open spec fn channel_sample(
    planes: Seq<Seq<i32>>,
    layout: Layout,
    channels: int,
    i: int,
    ch: int,
) -> int {
    match layout {
        Layout::Packed => if planes.len() > 0 && i * channels + ch < planes[0].len() {
            planes[0][i * channels + ch] as int
        } else {
            0
        },
        Layout::Planar => if ch < planes.len() && i < planes[ch].len() {
            planes[ch][i] as int
        } else {
            0
        },
    }
}

/// The sum of the `i`-th samples of the first `n` channels.
pub open spec fn channel_sum(
    planes: Seq<Seq<i32>>,
    layout: Layout,
    channels: int,
    i: int,
    n: nat,
) -> int
    decreases n,
{
    if n == 0 {
        0
    } else {
        channel_sum(planes, layout, channels, i, (n - 1) as nat) + channel_sample(
            planes,
            layout,
            channels,
            i,
            n - 1,
        )
    }
}

/// The mean of all channels, rounded down.
pub open spec fn folded_at(planes: Seq<Seq<i32>>, layout: Layout, channels: nat, i: int) -> int {
    channel_sum(planes, layout, channels as int, i, channels) / if channels >= 1 {
        channels as int
    } else {
        1
    }
}

/// The contents of some planes.
pub open spec fn plane_views(v: Seq<Vec<i32>>) -> Seq<Seq<i32>> {
    Seq::new(v.len(), |i: int| v[i]@)
}

fn channel_value(planes: &Vec<Vec<i32>>, layout: Layout, channels: usize, i: usize, ch: usize) -> (r:
    i32)
    requires
        i * channels + ch <= usize::MAX,
    ensures
        r == channel_sample(plane_views(planes@), layout, channels as int, i as int, ch as int),
{
    match layout {
        Layout::Packed => {
            proof {
                assert(i * channels >= 0) by (nonlinear_arith)
                    requires
                        i >= 0,
                        channels >= 0,
                ;
            }
            let p: usize = i * channels + ch;
            if planes.len() > 0 && p < planes[0].len() {
                planes[0][p]
            } else {
                0
            }
        },
        Layout::Planar => {
            if ch < planes.len() && i < planes[ch].len() {
                planes[ch][i]
            } else {
                0
            }
        },
    }
}

/// Folds the channels of a sound into one.
pub fn fold_channels(
    planes: &Vec<Vec<i32>>,
    layout: Layout,
    channels: usize,
    sample_count: usize,
) -> (r: Vec<i32>)
    requires
        sample_count * channels + channels <= usize::MAX,
    ensures
        r@.len() == sample_count,
        forall|i: int|
            0 <= i < sample_count ==> #[trigger] r@[i] == folded_at(
                plane_views(planes@),
                layout,
                channels as nat,
                i,
            ),
{
    let ghost views = plane_views(planes@);
    let mut out: Vec<i32> = Vec::new();
    let mut i: usize = 0;
    while i < sample_count
        invariant
            i <= sample_count,
            sample_count * channels + channels <= usize::MAX,
            views == plane_views(planes@),
            out@.len() == i,
            forall|k: int|
                0 <= k < i ==> #[trigger] out@[k] == folded_at(views, layout, channels as nat, k),
        decreases sample_count - i,
    {
        let mut sum: i128 = 0;
        let mut ch: usize = 0;
        proof {
            assert(i * channels <= sample_count * channels) by (nonlinear_arith)
                requires
                    0 <= i <= sample_count,
                    0 <= channels,
            ;
        }
        while ch < channels
            invariant
                ch <= channels,
                i * channels + channels <= usize::MAX,
                views == plane_views(planes@),
                sum == channel_sum(views, layout, channels as int, i as int, ch as nat),
                -0x8000_0000 * ch <= sum <= 0x7fff_ffff * ch,
            decreases channels - ch,
        {
            sum = sum + channel_value(planes, layout, channels, i, ch) as i128;
            ch += 1;
        }
        let d: i128 = if channels >= 1 {
            channels as i128
        } else {
            1
        };
        proof {
            assert(-0x8000_0000 <= sum as int / d as int <= 0x7fff_ffff) by (nonlinear_arith)
                requires
                    d >= 1,
                    -0x8000_0000 * d <= sum <= 0x7fff_ffff * d,
            ;
        }
        out.push(floor_div(sum, d) as i32);
        i += 1;
    }
    out
}

/// The samples that the bytes of all planes hold.
pub open spec fn decoded_planes(planes: Seq<Vec<u8>>, format: SampleFormat) -> Seq<Seq<i32>> {
    Seq::new(planes.len(), |i: int| decoded_as(planes[i]@, format))
}

/// The sound that the bytes of some planes hold, folded into one channel: the mean of all
/// channels. What is missing or cannot be read is silence.
pub open spec fn mono_of(
    planes: Seq<Vec<u8>>,
    format: SampleFormat,
    layout: Layout,
    channels: nat,
    sample_count: nat,
) -> Seq<i32> {
    Seq::new(
        sample_count,
        |i: int| folded_at(decoded_planes(planes, format), layout, channels, i) as i32,
    )
}

/// The sound that the bytes of some planes hold, folded into one channel.
pub fn extract_mono_samples(
    planes: &Vec<Vec<u8>>,
    format: SampleFormat,
    layout: Layout,
    channels: usize,
    sample_count: usize,
) -> (r: Vec<i32>)
    requires
        sample_count * channels + channels <= usize::MAX,
    ensures
        r@ == mono_of(planes@, format, layout, channels as nat, sample_count as nat),
{
    let mut decoded: Vec<Vec<i32>> = Vec::new();
    let mut k: usize = 0;
    while k < planes.len()
        invariant
            k <= planes@.len(),
            decoded@.len() == k,
            forall|j: int|
                0 <= j < k ==> (#[trigger] decoded@[j])@ == decoded_as(planes@[j]@, format),
        decreases planes@.len() - k,
    {
        decoded.push(decode_plane(&planes[k], format));
        k += 1;
    }
    assert(plane_views(decoded@) =~= decoded_planes(planes@, format));
    let r = fold_channels(&decoded, layout, channels, sample_count);
    assert(r@ =~= mono_of(planes@, format, layout, channels as nat, sample_count as nat));
    r
}

/// A sound that cannot be read is silence, as long as it would have been.
pub proof fn law_unreadable_is_silent(
    planes: Seq<Vec<u8>>,
    layout: Layout,
    channels: nat,
    sample_count: nat,
    i: int,
)
    requires
        0 <= i < sample_count,
    ensures
        mono_of(planes, SampleFormat::Other, layout, channels, sample_count)[i] == 0,
{
    let empty = decoded_planes(planes, SampleFormat::Other);
    lemma_nothing_sums_to_nothing(empty, layout, channels as int, i, channels);
}

proof fn lemma_nothing_sums_to_nothing(
    planes: Seq<Seq<i32>>,
    layout: Layout,
    channels: int,
    i: int,
    n: nat,
)
    requires
        forall|k: int| 0 <= k < planes.len() ==> (#[trigger] planes[k]).len() == 0,
        0 <= i,
        0 <= channels,
    ensures
        channel_sum(planes, layout, channels, i, n) == 0,
    decreases n,
{
    if n > 0 {
        lemma_nothing_sums_to_nothing(planes, layout, channels, i, (n - 1) as nat);
        assert(i * channels >= 0) by (nonlinear_arith)
            requires
                0 <= i,
                0 <= channels,
        ;
    }
}

/// A sound of one channel is not changed by folding.
pub proof fn law_one_channel_is_kept(plane: Vec<u8>, format: SampleFormat, layout: Layout)
    ensures
        mono_of(
            seq![plane],
            format,
            layout,
            1,
            decoded_as(plane@, format).len(),
        ) == decoded_as(plane@, format),
{
    let planes = decoded_planes(seq![plane], format);
    assert(planes[0] == decoded_as(plane@, format));
    assert forall|i: int| 0 <= i < planes[0].len() implies folded_at(planes, layout, 1, i)
        == planes[0][i] by {
        reveal_with_fuel(channel_sum, 2);
        assert(channel_sample(planes, layout, 1, i, 0) == planes[0][i]);
        assert(folded_at(planes, layout, 1, i) == channel_sum(planes, layout, 1, i, 1) / 1);
    }
    assert(mono_of(seq![plane], format, layout, 1, planes[0].len()) =~= planes[0]);
}

/// A gap of less than this is decoded through rather than sought past.
pub const SEQUENTIAL_GAP: i64 = 1_000_000_000;

/// Remembers where the last decoded part of a sound ended.
#[derive(Debug, Clone, Copy)]
pub struct SoundCursor {
    pub last_end: Option<i64>,
}

/// How to get at a part of a sound: whether to seek, and how many samples to throw
/// away.
#[derive(Debug, Clone, Copy, PartialEq, Eq, Structural)]
pub struct RangePlan {
    pub start: i64,
    pub duration: i64,
    pub seek: bool,
    pub skip: u64,
}

impl SoundCursor {
    /// The part follows closely on the last one.
    pub open spec fn follows(self, start: int) -> bool {
        self.last_end matches Some(end) && end <= start && start - end < SEQUENTIAL_GAP
    }

    /// How to get at the part of `duration` from `start`; none where nothing is asked
    /// for.
    pub fn plan(&self, start_seconds: i64, duration_seconds: i64, rate: u32) -> (r: Option<
        RangePlan,
    >)
        requires
            self.last_end matches Some(e) ==> in_time(e as int),
            in_time(start_seconds as int),
        ensures
            match r {
                None => duration_seconds <= 0,
                Some(p) => duration_seconds > 0 && p.duration == duration_seconds && p.start
                    == later(start_seconds as int, 0) && p.seek == !self.follows(p.start as int)
                    && p.skip == if p.seek {
                    0
                } else {
                    (p.start - self.last_end->0) * rate / (SECOND as int)
                },
            },
    {
        if duration_seconds <= 0 {
            return None;
        }
        let start: i64 = max_time(start_seconds, 0);
        match self.last_end {
            Some(end) => {
                if end <= start && start - end < SEQUENTIAL_GAP {
                    let gap: u64 = (start - end) as u64;
                    proof {
                        assert(0 <= gap * rate <= 1_000_000_000 * 0xffff_ffff) by (nonlinear_arith)
                            requires
                                0 <= gap <= 1_000_000_000,
                                0 <= rate <= 0xffff_ffff,
                        ;
                    }
                    return Some(
                        RangePlan {
                            start,
                            duration: duration_seconds,
                            seek: false,
                            skip: gap * rate as u64 / 1_000_000_000,
                        },
                    );
                }
            },
            None => {},
        }
        Some(RangePlan { start, duration: duration_seconds, seek: true, skip: 0 })
    }

    /// A planned part has been decoded: what it gives at the rate `dst`. The next part
    /// can follow where this one ends.
    pub fn finish(&mut self, plan: RangePlan, decoded: &Vec<i32>, rate: u32, dst: u32) -> (r: Vec<
        i32,
    >)
        requires
            rate > 0,
            in_time(plan.start + lasting(plan.kept(decoded@).len() as int, rate as int)),
            in_time(lasting(plan.kept(decoded@).len() as int, rate as int)),
            resampled_len(plan.kept(decoded@).len() as int, rate as int, dst as int) <= usize::MAX,
        ensures
            r@ == at_rate(plan.kept(decoded@), rate as int, dst as int),
            final(self).last_end == Some(
                (plan.start + lasting(plan.kept(decoded@).len() as int, rate as int)) as i64,
            ),
    {
        let kept = plan.trim(decoded);
        self.last_end = Some(plan.start + lasting_time(kept.len(), rate));
        bring_to_rate(kept, rate, dst)
    }

    /// The decoder was sent to a point.
    pub fn seek_to(&mut self, start: i64)
        ensures
            final(self).last_end == Some(start),
    {
        self.last_end = Some(start);
    }

    /// The samples that came next have been decoded: what they give at the rate `dst`.
    /// The next part can follow where they end.
    pub fn finish_chunk(&mut self, decoded: Vec<i32>, rate: u32, dst: u32) -> (r: Vec<i32>)
        requires
            rate > 0,
            in_time(or_nought(old(self).last_end)),
            in_time(lasting(decoded@.len() as int, rate as int)),
            resampled_len(decoded@.len() as int, rate as int, dst as int) <= usize::MAX,
        ensures
            r@ == at_rate(decoded@, rate as int, dst as int),
            final(self).last_end == Some(
                (or_nought(old(self).last_end) + lasting(decoded@.len() as int, rate as int)) as i64,
            ),
    {
        let from: i64 = match self.last_end {
            Some(t) => t,
            None => 0,
        };
        self.last_end = Some(from + lasting_time(decoded.len(), rate));
        bring_to_rate(decoded, rate, dst)
    }
}

/// How long some samples last.
pub open spec fn lasting(samples: int, rate: int) -> int {
    samples * SECOND / rate
}

fn lasting_time(samples: usize, rate: u32) -> (r: i64)
    requires
        rate > 0,
        in_time(lasting(samples as int, rate as int)),
    ensures
        r == lasting(samples as int, rate as int),
{
    proof {
        assert(0 <= samples * 1_000_000_000 <= 0xffff_ffff_ffff_ffff * 1_000_000_000)
            by (nonlinear_arith)
            requires
                0 <= samples <= 0xffff_ffff_ffff_ffff,
        ;
    }
    (samples as u128 * 1_000_000_000 / rate as u128) as i64
}

/// Samples at another rate; as they are where the rate is the same.
pub open spec fn at_rate(s: Seq<i32>, src: int, dst: int) -> Seq<i32> {
    if src != dst && s.len() > 0 {
        resampled(s, src, dst)
    } else {
        s
    }
}

fn bring_to_rate(samples: Vec<i32>, src: u32, dst: u32) -> (r: Vec<i32>)
    requires
        resampled_len(samples@.len() as int, src as int, dst as int) <= usize::MAX,
    ensures
        r@ == at_rate(samples@, src as int, dst as int),
{
    if src != dst && samples.len() > 0 {
        resample_linear(&samples, src, dst)
    } else {
        samples
    }
}

/// How many samples make up some time; none where there is none.
pub fn chunk_samples(duration: i64, rate: u32) -> (r: Option<u128>)
    ensures
        r == if duration <= 0 {
            None
        } else {
            Some((duration * rate / (SECOND as int)) as u128)
        },
{
    if duration <= 0 {
        return None;
    }
    proof {
        let n = duration * rate;
        assert(0 <= n <= 0x7fff_ffff_ffff_ffff * 0xffff_ffff) by (nonlinear_arith)
            requires
                n == duration * rate,
                0 <= duration <= 0x7fff_ffff_ffff_ffff,
                0 <= rate <= 0xffff_ffff,
        ;
    }
    Some(duration as u128 * rate as u128 / 1_000_000_000)
}

/// The part that begins where the last one ended is decoded without a seek, and nothing
/// of it is thrown away.
pub proof fn law_parts_follow(end: i64, rate: u32)
    requires
        0 <= end,
    ensures
        (SoundCursor { last_end: Some(end) }).follows(later(end as int, 0)),
        (later(end as int, 0) - end) * rate / (SECOND as int) == 0,
{
    assert(0 * rate == 0) by (nonlinear_arith);
}

impl RangePlan {
    /// `decoded` samples, less those to be thrown away, last for the whole part. Where the
    /// rate is 0, any number of samples lasts for ever, and none lasts for no time that can
    /// be told.
    pub open spec fn enough(self, decoded: int, rate: int) -> bool {
        let kept = if decoded > self.skip {
            decoded - self.skip
        } else {
            0
        };
        if rate == 0 {
            kept > 0
        } else {
            kept * SECOND >= self.duration * rate
        }
    }

    /// Whether enough has been decoded.
    pub fn is_enough(&self, decoded: usize, rate: u32) -> (r: bool)
        requires
            0 <= self.duration,
        ensures
            r == self.enough(decoded as int, rate as int),
    {
        let d: u128 = decoded as u128;
        let kept: u128 = if d > self.skip as u128 {
            d - self.skip as u128
        } else {
            0
        };
        proof {
            assert(0 <= self.duration * rate <= 0x7fff_ffff_ffff_ffff * 0xffff_ffff)
                by (nonlinear_arith)
                requires
                    0 <= self.duration <= 0x7fff_ffff_ffff_ffff,
                    0 <= rate <= 0xffff_ffff,
            ;
        }
        if rate == 0 {
            return kept > 0;
        }
        kept * 1_000_000_000 >= self.duration as u128 * rate as u128
    }

    /// What is left once the samples to be thrown away are gone.
    pub open spec fn kept(self, decoded: Seq<i32>) -> Seq<i32> {
        if decoded.len() > self.skip {
            decoded.skip(self.skip as int)
        } else if self.skip > 0 {
            Seq::<i32>::empty()
        } else {
            decoded
        }
    }

    /// What is left once the samples to be thrown away are gone.
    pub fn trim(&self, decoded: &Vec<i32>) -> (r: Vec<i32>)
        ensures
            r@ == self.kept(decoded@),
    {
        let mut out: Vec<i32> = Vec::new();
        let from: usize = if (decoded.len() as u64) < self.skip {
            decoded.len()
        } else {
            self.skip as usize
        };
        let mut i: usize = from;
        while i < decoded.len()
            invariant
                from <= i <= decoded.len(),
                out@ == decoded@.subrange(from as int, i as int),
            decreases decoded.len() - i,
        {
            out.push(decoded[i]);
            i += 1;
            assert(out@ =~= decoded@.subrange(from as int, i as int));
        }
        proof {
            if decoded@.len() > self.skip {
                assert(out@ =~= decoded@.skip(self.skip as int));
            } else if self.skip > 0 {
                assert(out@ =~= Seq::<i32>::empty());
            } else {
                assert(out@ =~= decoded@);
            }
        }
        out
    }
}

/// The part of a stream's sound that is wanted, from `start` up to `end`.
#[derive(Debug, Clone, Copy, PartialEq, Eq, Structural)]
pub struct SoundRange {
    pub start: i64,
    pub end: i64,
}

/// `t`, or nought where it is not known.
pub open spec fn or_nought(t: Option<i64>) -> int {
    match t {
        Some(x) => x as int,
        None => 0,
    }
}

impl SoundRange {
    /// The part that begins at `start`, but not before the stream does. There is none
    /// without a length.
    pub fn new(start: i64, duration: i64) -> (r: Option<Self>)
        requires
            in_time(start as int),
            in_time(duration as int),
        ensures
            r is Some <==> duration > 0,
            r matches Some(part) ==> part.start == later(start as int, 0) && part.end
                == later(start as int, 0) + duration,
    {
        if duration <= 0 {
            return None;
        }
        let from: i64 = max_time(start, 0);
        Some(SoundRange { start: from, end: from + duration })
    }

    /// Whether a buffer at `pts` that lasts for `length` is the last that is needed.
    pub fn is_reached(&self, pts: Option<i64>, length: Option<i64>) -> (r: bool)
        requires
            pts matches Some(t) ==> in_time(t as int),
            length matches Some(t) ==> in_time(t as int),
        ensures
            r == (or_nought(pts) + or_nought(length) >= self.end),
    {
        let at: i64 = match pts {
            Some(t) => t,
            None => 0,
        };
        let lasts: i64 = match length {
            Some(t) => t,
            None => 0,
        };
        at + lasts >= self.end
    }
}

/// The peaks of a waveform: no more than were wanted, each the least and the greatest of
/// its own stretch of the sound, the stretches as long as one another and one behind the
/// other from the beginning; no sample of a stretch is beyond its peak.
pub proof fn law_peaks_hold_their_stretches(s: Seq<i32>, wanted: int, k: int, i: int)
    requires
        0 < wanted,
        0 < s.len(),
        0 <= k < peaks(s, wanted).len(),
    ensures
        ({
            let all = peaks(s, wanted);
            let per = if (s.len() as int) / wanted >= 1 {
                (s.len() as int) / wanted
            } else {
                1
            };
            &&& 1 <= all.len() <= wanted
            &&& s.len() < wanted ==> all.len() == s.len()
            &&& k * per < s.len()
            &&& k * per <= i < (k + 1) * per && i < s.len() ==> all[k].0 <= s[i] <= all[k].1
            &&& exists|j: int|
                k * per <= j < (k + 1) * per && j < s.len() && #[trigger] s[j] == all[k].0
            &&& exists|j: int|
                k * per <= j < (k + 1) * per && j < s.len() && #[trigger] s[j] == all[k].1
        }),
{
    let n = s.len() as int;
    let per = samples_per_peak(n, wanted);
    let count = peak_count(n, wanted);
    let full = (n + per - 1) / per;
    vstd::arithmetic::div_mod::lemma_fundamental_div_mod(n + per - 1, per);
    vstd::arithmetic::div_mod::lemma_mod_bound(n + per - 1, per);
    let rest = (n + per - 1) % per;
    assert(k * per <= n - 1) by (nonlinear_arith)
        requires
            k <= full - 1,
            n + per - 1 == per * full + rest,
            0 <= rest,
            0 < per,
    ;
    assert(full >= 1) by (nonlinear_arith)
        requires
            n + per - 1 == per * full + rest,
            rest < per,
            0 < per,
            1 <= n,
    ;
    assert((k + 1) * per == k * per + per) by (nonlinear_arith);
    assert(k * per >= 0) by (nonlinear_arith)
        requires
            0 <= k,
            0 < per,
    ;
    if n < wanted {
        vstd::arithmetic::div_mod::lemma_basic_div(n, wanted);
        assert(per == 1);
    }
    let part = peak_samples(s, per, k);
    law_peak_holds_samples(part, 0);
    if k * per <= i < (k + 1) * per && i < n {
        assert(part[i - k * per] == s[i]);
        law_peak_holds_samples(part, i - k * per);
    }
    let a = choose|a: int| 0 <= a < part.len() && part[a] == lowest(part);
    let b = choose|b: int| 0 <= b < part.len() && part[b] == highest(part);
    assert(s[k * per + a] == part[a]);
    assert(s[k * per + b] == part[b]);
}

proof fn lemma_planar_sum(planes: Seq<Seq<i32>>, i: int, n: nat)
    requires
        0 <= i,
        n <= planes.len(),
    ensures
        channel_sum(planes, Layout::Planar, planes.len() as int, i, n) == sum_at(
            planes.take(n as int),
            i,
        ),
    decreases n,
{
    if n > 0 {
        lemma_planar_sum(planes, i, (n - 1) as nat);
        assert(planes.take(n as int).drop_last() =~= planes.take(n - 1));
    }
}

/// Sound of several channels is folded into their mean, rounded down: all channels count
/// and count alike.
pub proof fn law_mono_is_the_mean(planes: Seq<Seq<i32>>, i: int)
    requires
        0 < planes.len(),
        0 <= i,
    ensures
        ({
            let m = folded_at(planes, Layout::Planar, planes.len(), i);
            m * planes.len() <= sum_at(planes, i) < (m + 1) * planes.len()
        }),
{
    lemma_planar_sum(planes, i, planes.len());
    assert(planes.take(planes.len() as int) =~= planes);
    let sum = sum_at(planes, i);
    let n = planes.len() as int;
    vstd::arithmetic::div_mod::lemma_fundamental_div_mod(sum, n);
    vstd::arithmetic::div_mod::lemma_mod_bound(sum, n);
    let m = sum / n;
    assert(m * n == n * m && (m + 1) * n == n * m + n) by (nonlinear_arith);
}

proof fn lemma_packed_sum(
    plane: Seq<i32>,
    planes: Seq<Seq<i32>>,
    channels: int,
    i: int,
    n: nat,
)
    requires
        n <= channels,
        planes.len() == channels,
        forall|ch: int|
            0 <= ch < channels ==> i < (#[trigger] planes[ch]).len() && i * channels + ch
                < plane.len() && planes[ch][i] == plane[i * channels + ch],
    ensures
        channel_sum(seq![plane], Layout::Packed, channels, i, n) == channel_sum(
            planes,
            Layout::Planar,
            channels,
            i,
            n,
        ),
    decreases n,
{
    if n > 0 {
        lemma_packed_sum(plane, planes, channels, i, (n - 1) as nat);
        assert(i < planes[n - 1].len());
    }
}

/// Sound folds the same whether its channels lie one after the other, sample by sample, or
/// each in a plane of its own.
pub proof fn law_layout_does_not_matter(plane: Seq<i32>, planes: Seq<Seq<i32>>, i: int)
    requires
        0 <= i,
        forall|ch: int|
            0 <= ch < planes.len() ==> i < (#[trigger] planes[ch]).len() && i * planes.len() + ch
                < plane.len() && planes[ch][i] == plane[i * planes.len() + ch],
    ensures
        folded_at(seq![plane], Layout::Packed, planes.len(), i) == folded_at(
            planes,
            Layout::Planar,
            planes.len(),
            i,
        ),
{
    lemma_packed_sum(plane, planes, planes.len() as int, i, planes.len());
}

/// Of what was decoded as much is left out as is to be skipped, from the beginning, and
/// all that follows is kept; and it is enough as soon as what is kept lasts as long as was
/// wanted.
pub proof fn law_skipped_sound_is_left_out(p: RangePlan, decoded: Seq<i32>, rate: int, i: int)
    requires
        0 < rate,
        0 <= p.duration,
    ensures
        p.skip <= decoded.len() ==> p.kept(decoded).len() == decoded.len() - p.skip,
        p.skip > decoded.len() ==> p.kept(decoded).len() == 0,
        0 <= i < p.kept(decoded).len() ==> p.kept(decoded)[i] == decoded[i + p.skip],
        p.skip <= decoded.len() ==> (p.enough(decoded.len() as int, rate) <==> (decoded.len()
            - p.skip) * 1_000_000_000 >= p.duration * rate),
{
}

/// Samples last as long as the rate says, in nanoseconds, rounded down; sound that is
/// already at the rate that is wanted is left as it is.
pub proof fn law_sound_lasts_by_its_rate(samples: int, rate: int, s: Seq<i32>, dst: int)
    requires
        0 <= samples,
        0 < rate,
        0 < dst,
    ensures
        lasting(samples, rate) * rate <= samples * 1_000_000_000 < (lasting(samples, rate) + 1)
            * rate,
        at_rate(s, rate, rate) == s,
        rate != dst && s.len() > 0 ==> at_rate(s, rate, dst) == resampled(s, rate, dst),
{
    let x = samples * 1_000_000_000;
    vstd::arithmetic::div_mod::lemma_fundamental_div_mod(x, rate);
    vstd::arithmetic::div_mod::lemma_mod_bound(x, rate);
    let q = x / rate;
    assert(q * rate == rate * q && (q + 1) * rate == rate * q + rate) by (nonlinear_arith);
}

/// Decoding goes on without a seek exactly where the part that is wanted begins less than
/// a second behind the end of the last.
pub proof fn law_near_parts_follow(cursor: SoundCursor, start: int)
    ensures
        cursor.follows(start) <==> (cursor.last_end matches Some(end) && 0 <= start - end
            < 1_000_000_000),
{
}

} // verus!
