//! Mixing the sound of several clips.

use vstd::prelude::*;

use crate::audio::analysis::{extract_mono_samples, mono_of, Layout};
use crate::audio::ring::{drained, new_ring, occupied_len, pop_available, push_slice, queued, received, room, sent, AudioConsumer, AudioProducer, SOURCE_RING_SIZE};
use crate::audio::sample::{decode_samples, decoded, spread, spread_channels, SampleFormat, FULL_SCALE};

verus! {

/// How many samples are mixed at once.
pub const MIX_BUF_MAX: usize = 4096;

/// The sound of one clip: the reading end of its ring, and a number that stands for
/// its decoder.
pub struct AudioSource {
    pub consumer: AudioConsumer,
    pub handle: u64,
}

/// Mixes the sound of several clips into one stream.
pub struct AudioMixer {
    pub sources: Vec<AudioSource>,
}

/// A sample held within full scale.
pub open spec fn limited(v: int) -> int {
    if v < -FULL_SCALE {
        -FULL_SCALE
    } else if v > FULL_SCALE {
        FULL_SCALE as int
    } else {
        v
    }
}

/// The sum of the `i`-th samples of those that have one.
pub open spec fn sum_at(taken: Seq<Seq<i32>>, i: int) -> int
    decreases taken.len(),
{
    if taken.len() == 0 {
        0
    } else {
        sum_at(taken.drop_last(), i) + if i < taken.last().len() {
            taken.last()[i] as int
        } else {
            0
        }
    }
}

/// `n` mixed samples: at each place the sum, held within full scale.
pub open spec fn mixed(taken: Seq<Seq<i32>>, n: nat) -> Seq<i32> {
    Seq::new(n, |i: int| limited(sum_at(taken, i)) as i32)
}

/// One more source adds its own sample at each place, and nothing where it has none,
/// however many sources there are already.
pub proof fn law_source_adds_its_samples(taken: Seq<Seq<i32>>, s: Seq<i32>, i: int)
    ensures
        sum_at(Seq::<Seq<i32>>::empty(), i) == 0,
        i < s.len() ==> sum_at(taken.push(s), i) == sum_at(taken, i) + s[i],
        s.len() <= i ==> sum_at(taken.push(s), i) == sum_at(taken, i),
{
    assert(taken.push(s).drop_last() =~= taken);
}

proof fn lemma_sum_of_two(a: Seq<Seq<i32>>, b: Seq<Seq<i32>>, i: int)
    ensures
        sum_at(a + b, i) == sum_at(a, i) + sum_at(b, i),
    decreases b.len(),
{
    if b.len() == 0 {
        assert(a + b =~= a);
    } else {
        assert((a + b).drop_last() =~= a + b.drop_last());
        lemma_sum_of_two(a, b.drop_last(), i);
    }
}

/// Sound mixes the same in whatever groups it is mixed, and the order of the groups does
/// not matter.
pub proof fn law_mix_in_any_order(a: Seq<Seq<i32>>, b: Seq<Seq<i32>>, n: nat)
    ensures
        forall|i: int| #[trigger] sum_at(a + b, i) == sum_at(a, i) + sum_at(b, i),
        mixed(a + b, n) == mixed(b + a, n),
{
    assert forall|i: int| #[trigger] sum_at(a + b, i) == sum_at(a, i) + sum_at(b, i) by {
        lemma_sum_of_two(a, b, i);
    }
    assert forall|i: int| 0 <= i < n implies mixed(a + b, n)[i] == mixed(b + a, n)[i] by {
        lemma_sum_of_two(a, b, i);
        lemma_sum_of_two(b, a, i);
    }
    assert(mixed(a + b, n) =~= mixed(b + a, n));
}

/// Two sources that change places leave the mix as it is.
pub proof fn law_mix_ignores_places(taken: Seq<Seq<i32>>, j: int, k: int, n: nat)
    requires
        0 <= j < k < taken.len(),
    ensures
        mixed(taken.update(j, taken[k]).update(k, taken[j]), n) == mixed(taken, n),
{
    let a = taken.take(j);
    let b = taken.subrange(j + 1, k);
    let c = taken.skip(k + 1);
    let x = seq![taken[j]];
    let y = seq![taken[k]];
    let swapped = taken.update(j, taken[k]).update(k, taken[j]);
    assert(taken =~= a + x + b + y + c);
    assert(swapped =~= a + y + b + x + c);
    assert forall|i: int| sum_at(swapped, i) == sum_at(taken, i) by {
        lemma_sum_of_two(a + x + b + y, c, i);
        lemma_sum_of_two(a + x + b, y, i);
        lemma_sum_of_two(a + x, b, i);
        lemma_sum_of_two(a, x, i);
        lemma_sum_of_two(a + y + b + x, c, i);
        lemma_sum_of_two(a + y + b, x, i);
        lemma_sum_of_two(a + y, b, i);
        lemma_sum_of_two(a, y, i);
    }
    assert(mixed(swapped, n) =~= mixed(taken, n));
}

/// A mixed sample is the sum of what all the sources have at its place, each counted
/// once, and where that is beyond full scale, full scale of the same sign.
pub proof fn law_mix_is_the_sum_of_all(taken: Seq<Seq<i32>>, n: nat, i: int)
    requires
        0 <= i < n,
    ensures
        mixed(taken, n).len() == n,
        ({
            let sum = taken.fold_left(
                0int,
                |acc: int, s: Seq<i32>|
                    if i < s.len() {
                        acc + s[i]
                    } else {
                        acc
                    },
            );
            &&& -FULL_SCALE <= sum <= FULL_SCALE ==> mixed(taken, n)[i] == sum
            &&& sum > FULL_SCALE ==> mixed(taken, n)[i] == FULL_SCALE
            &&& sum < -FULL_SCALE ==> mixed(taken, n)[i] == -FULL_SCALE
        }),
{
    lemma_sum_is_fold(taken, i);
}

proof fn lemma_sum_is_fold(taken: Seq<Seq<i32>>, i: int)
    ensures
        sum_at(taken, i) == taken.fold_left(
            0int,
            |acc: int, s: Seq<i32>|
                if i < s.len() {
                    acc + s[i]
                } else {
                    acc
                },
        ),
    decreases taken.len(),
{
    if taken.len() > 0 {
        lemma_sum_is_fold(taken.drop_last(), i);
    }
}

/// The contents of some blocks of samples.
pub open spec fn blocks(v: Seq<Vec<i32>>) -> Seq<Seq<i32>> {
    Seq::new(v.len(), |i: int| v[i]@)
}

/// Mixes what was taken from the sources into `n` samples.
pub fn mix_block(taken: &Vec<Vec<i32>>, n: usize) -> (r: Vec<i32>)
    ensures
        r@ == mixed(blocks(taken@), n as nat),
{
    let ghost all = blocks(taken@);
    let mut out: Vec<i32> = Vec::new();
    let mut i: usize = 0;
    while i < n
        invariant
            i <= n,
            all == blocks(taken@),
            out@ == mixed(all, n as nat).take(i as int),
        decreases n - i,
    {
        let mut sum: i128 = 0;
        let mut k: usize = 0;
        while k < taken.len()
            invariant
                k <= taken.len(),
                all == blocks(taken@),
                sum == sum_at(all.take(k as int), i as int),
                -0x8000_0000 * k <= sum <= 0x7fff_ffff * k,
            decreases taken.len() - k,
        {
            assert(all.take(k + 1).drop_last() =~= all.take(k as int));
            assert(all.take(k + 1).last() == taken[k as int]@);
            if i < taken[k].len() {
                sum = sum + taken[k][i] as i128;
            }
            k += 1;
        }
        assert(all.take(k as int) =~= all);
        let v: i32 = if sum < -(FULL_SCALE as i128) {
            -FULL_SCALE
        } else if sum > FULL_SCALE as i128 {
            FULL_SCALE
        } else {
            sum as i32
        };
        out.push(v);
        assert(mixed(all, n as nat).take(i + 1) =~= mixed(all, n as nat).take(i as int).push(
            mixed(all, n as nat)[i as int],
        ));
        i += 1;
    }
    assert(mixed(all, n as nat).take(n as int) =~= mixed(all, n as nat));
    out
}

/// What a tick of the mixer did: from each source no more than the length of the
/// block was taken, in turn and without loss, and all of it where no more waited; the
/// block is the mix of what was taken, and no longer than the most that was.
pub open spec fn ticked(
    before: Seq<AudioSource>,
    after: Seq<AudioSource>,
    taken: Seq<Seq<i32>>,
    block: Seq<i32>,
) -> bool {
    &&& after.len() == before.len()
    &&& taken.len() == before.len()
    &&& block.len() <= MIX_BUF_MAX
    &&& block == mixed(taken, block.len())
    &&& block.len() == 0 || exists|k: int|
        0 <= k < taken.len() && (#[trigger] taken[k]).len() == block.len()
    &&& forall|k: int|
        0 <= k < before.len() ==> {
            &&& (#[trigger] after[k]).handle == before[k].handle
            &&& taken[k].len() <= block.len()
            &&& drained(before[k].consumer, taken[k], after[k].consumer)
            &&& taken[k].len() == block.len() || queued(after[k].consumer) == Seq::<
                i32,
            >::empty() || block.len() == 0
        }
}

/// The block is as long as the longest queue asks for, up to the limit.
pub open spec fn long_enough(before: Seq<AudioSource>, block: Seq<i32>) -> bool {
    forall|k: int|
        0 <= k < before.len() ==> block.len() >= queued((#[trigger] before[k]).consumer).len()
            || block.len() == MIX_BUF_MAX
}

impl AudioMixer {
    /// A mixer without sources.
    pub fn new() -> (r: Self)
        ensures
            r.sources@ == Seq::<AudioSource>::empty(),
    {
        AudioMixer { sources: Vec::new() }
    }

    /// Both ends of a ring between a decoder and the mixer.
    pub fn create_source_producer() -> (r: (AudioProducer, AudioConsumer))
        ensures
            sent(r.0) == Seq::<i32>::empty(),
            room(r.0) == SOURCE_RING_SIZE,
            queued(r.1) == Seq::<i32>::empty(),
            received(r.1) == Seq::<i32>::empty(),
    {
        new_ring(SOURCE_RING_SIZE)
    }

    /// Adds the sound of a clip.
    pub fn add_source(&mut self, handle: u64, consumer: AudioConsumer)
        ensures
            final(self).sources@ == old(self).sources@.push(AudioSource { consumer, handle }),
    {
        self.sources.push(AudioSource { consumer, handle });
    }

    /// How many clips are mixed.
    pub fn source_count(&self) -> (r: usize)
        ensures
            r == self.sources@.len(),
    {
        self.sources.len()
    }

    /// Drops all sources.
    pub fn clear(&mut self)
        ensures
            final(self).sources@ == Seq::<AudioSource>::empty(),
    {
        self.sources.clear();
    }

    /// Drops all sources and takes over others.
    pub fn replace_sources(&mut self, new_sources: Vec<AudioSource>)
        ensures
            final(self).sources@ == new_sources@,
    {
        self.sources = new_sources;
    }

    /// How many samples wait at the source where most wait.
    fn most_available(&mut self) -> (r: usize)
        ensures
            final(self).sources@.len() == old(self).sources@.len(),
            forall|k: int|
                0 <= k < old(self).sources@.len() ==> {
                    &&& (#[trigger] final(self).sources@[k]).handle == old(self).sources@[k].handle
                    &&& queued(old(self).sources@[k].consumer).is_prefix_of(
                        queued(final(self).sources@[k].consumer),
                    )
                    &&& received(final(self).sources@[k].consumer) == received(
                        old(self).sources@[k].consumer,
                    )
                    &&& queued(final(self).sources@[k].consumer).len() <= r
                },
            r == 0 || exists|k: int|
                0 <= k < final(self).sources@.len() && queued(
                    (#[trigger] final(self).sources@[k]).consumer,
                ).len() == r,
    {
        let mut most: usize = 0;
        let mut i: usize = 0;
        let ghost before = self.sources@;
        let ghost mut at: int = 0;
        while i < self.sources.len()
            invariant
                i <= self.sources.len(),
                self.sources@.len() == before.len(),
                most == 0 || 0 <= at < i && queued(self.sources@[at].consumer).len() == most,
                forall|k: int|
                    0 <= k < i ==> {
                        &&& (#[trigger] self.sources@[k]).handle == before[k].handle
                        &&& queued(before[k].consumer).is_prefix_of(
                            queued(self.sources@[k].consumer),
                        )
                        &&& received(self.sources@[k].consumer) == received(before[k].consumer)
                        &&& queued(self.sources@[k].consumer).len() <= most
                    },
                forall|k: int| i <= k < before.len() ==> #[trigger] self.sources@[k] == before[k],
            decreases self.sources.len() - i,
        {
            let n: usize = occupied_len(&mut self.sources[i].consumer);
            if n > most {
                most = n;
                proof {
                    at = i as int;
                }
            }
            i += 1;
        }
        proof {
            if most != 0 {
                assert(queued(self.sources@[at].consumer).len() == most);
            }
        }
        most
    }

    /// Takes what waits at the sources, up to the limit, and mixes it into one block.
    pub fn mix_tick(&mut self) -> (r: Vec<i32>)
        ensures
            exists|taken: Seq<Seq<i32>>| #[trigger]
                ticked(old(self).sources@, final(self).sources@, taken, r@),
            long_enough(old(self).sources@, r@),
    {
        let ghost before = self.sources@;
        let most: usize = self.most_available();
        let ghost seen = self.sources@;
        let n: usize = if most < MIX_BUF_MAX {
            most
        } else {
            MIX_BUF_MAX
        };
        let mut taken: Vec<Vec<i32>> = Vec::new();
        let mut i: usize = 0;
        while i < self.sources.len()
            invariant
                i <= self.sources.len(),
                taken.len() == i,
                n <= MIX_BUF_MAX,
                self.sources@.len() == before.len(),
                seen.len() == before.len(),
                forall|k: int|
                    0 <= k < before.len() ==> {
                        &&& (#[trigger] seen[k]).handle == before[k].handle
                        &&& queued(before[k].consumer).is_prefix_of(queued(seen[k].consumer))
                        &&& received(seen[k].consumer) == received(before[k].consumer)
                    },
                forall|k: int|
                    0 <= k < i ==> {
                        &&& (#[trigger] self.sources@[k]).handle == before[k].handle
                        &&& taken[k]@.len() <= n
                        &&& drained(before[k].consumer, taken[k]@, self.sources@[k].consumer)
                        &&& drained(seen[k].consumer, taken[k]@, self.sources@[k].consumer)
                        &&& taken[k]@.len() == n || queued(self.sources@[k].consumer) == Seq::<
                            i32,
                        >::empty()
                    },
                forall|k: int| i <= k < before.len() ==> #[trigger] self.sources@[k] == seen[k],
            decreases self.sources.len() - i,
        {
            let ghost was = self.sources@[i as int];
            assert(was == seen[i as int]);
            let block = pop_available(&mut self.sources[i].consumer, n);
            taken.push(block);
            i += 1;
        }
        let out = mix_block(&taken, n);
        proof {
            let t = blocks(taken@);
            assert forall|k: int| 0 <= k < before.len() implies out@.len() >= queued(
                (#[trigger] before[k]).consumer,
            ).len() || out@.len() == MIX_BUF_MAX by {
                assert(queued(before[k].consumer).is_prefix_of(queued(seen[k].consumer)));
                assert(queued(seen[k].consumer).len() <= most);
            }
            if n > 0 {
                let k = choose|k: int|
                    0 <= k < seen.len() && queued((#[trigger] seen[k]).consumer).len() == most;
                assert(drained(seen[k].consumer, taken[k]@, self.sources@[k].consumer));
                assert(t[k].len() == out@.len());
            }
            assert(ticked(before, self.sources@, t, out@));
        }
        out
    }
}

impl Default for AudioMixer {
    fn default() -> (r: Self)
        ensures
            r.sources@ == Seq::<AudioSource>::empty(),
    {
        AudioMixer::new()
    }
}

/// As many of `samples` went into the ring as there was room for, from the first on.
pub open spec fn pushed(
    before: AudioProducer,
    after: AudioProducer,
    samples: Seq<i32>,
    n: int,
) -> bool {
    &&& 0 <= n <= samples.len()
    &&& sent(after) == sent(before) + samples.take(n)
    &&& n == samples.len() || n >= room(before)
}

/// Hands a mixed block to the sound card. What the ring has no room for is lost.
pub fn push_block(out: &mut AudioProducer, block: &Vec<i32>) -> (n: usize)
    ensures
        pushed(*old(out), *final(out), block@, n as int),
{
    push_slice(out, block)
}

/// Hands decoded sound, four bytes a sample, to a ring: each sample once for every
/// channel.
pub fn push_audio_from_buffer(data: &Vec<u8>, channels: u16, out: &mut AudioProducer) -> (n: usize)
    ensures
        pushed(*old(out), *final(out), spread(decoded(data@), channels as int), n as int),
{
    let samples = decode_samples(data);
    let buf = spread_channels(&samples, channels);
    push_slice(out, &buf)
}

/// Hands resampled sound, four bytes a sample and no more than `samples` of them, to a
/// ring: each sample once for every channel.
pub fn push_resampled_f32(data: &Vec<u8>, samples: usize, channels: u16, out: &mut AudioProducer) -> (n:
    usize)
    ensures
        pushed(
            *old(out),
            *final(out),
            spread(
                decoded(data@).take(
                    if samples < decoded(data@).len() {
                        samples as int
                    } else {
                        decoded(data@).len() as int
                    },
                ),
                channels as int,
            ),
            n as int,
        ),
{
    let mut read = decode_samples(data);
    if samples < read.len() {
        read.truncate(samples);
    }
    assert(read@ =~= decoded(data@).take(
        if samples < decoded(data@).len() {
            samples as int
        } else {
            decoded(data@).len() as int
        },
    ));
    let buf = spread_channels(&read, channels);
    push_slice(out, &buf)
}

/// Hands the sound of a decoded frame to a ring: its channels folded into one, and each
/// sample once for every channel that goes out.
pub fn push_audio_samples_manual(
    planes: &Vec<Vec<u8>>,
    format: SampleFormat,
    layout: Layout,
    channels: usize,
    sample_count: usize,
    output_channels: u16,
    out: &mut AudioProducer,
) -> (n: usize)
    requires
        sample_count * channels + channels <= usize::MAX,
    ensures
        pushed(
            *old(out),
            *final(out),
            spread(
                mono_of(planes@, format, layout, channels as nat, sample_count as nat),
                output_channels as int,
            ),
            n as int,
        ),
{
    let mono = extract_mono_samples(planes, format, layout, channels, sample_count);
    let buf = spread_channels(&mono, output_channels);
    push_slice(out, &buf)
}

/// Full scale is never exceeded.
pub proof fn law_mix_stays_in_scale(taken: Seq<Seq<i32>>, n: nat, i: int)
    requires
        0 <= i < n,
    ensures
        -FULL_SCALE <= mixed(taken, n)[i] <= FULL_SCALE,
{
}

/// One source that is within full scale is heard as it is.
pub proof fn law_mix_of_one(s: Seq<i32>)
    requires
        forall|i: int| 0 <= i < s.len() ==> -FULL_SCALE <= #[trigger] s[i] <= FULL_SCALE,
    ensures
        mixed(seq![s], s.len()) == s,
{
    let taken = seq![s];
    assert forall|i: int| 0 <= i < s.len() implies #[trigger] mixed(taken, s.len())[i] == s[i] by {
        assert(taken.drop_last() =~= Seq::<Seq<i32>>::empty());
        assert(sum_at(taken.drop_last(), i) == 0);
        assert(sum_at(taken, i) == s[i]);
    }
    assert(mixed(taken, s.len()) =~= s);
}

/// A tick of the mixer takes from every source what it plays of it and no more: what was
/// taken has been received, and together with what still waits it begins with all that
/// waited before.
pub proof fn law_tick_takes_from_every_source(
    before: Seq<AudioSource>,
    after: Seq<AudioSource>,
    taken: Seq<Seq<i32>>,
    block: Seq<i32>,
    k: int,
    i: int,
)
    requires
        ticked(before, after, taken, block),
        0 <= k < before.len(),
        0 <= i < block.len(),
    ensures
        after[k].handle == before[k].handle,
        received(after[k].consumer) == received(before[k].consumer) + taken[k],
        queued(before[k].consumer).is_prefix_of(taken[k] + queued(after[k].consumer)),
        taken[k].len() < block.len() ==> queued(after[k].consumer).len() == 0,
        -FULL_SCALE <= sum_at(taken, i) <= FULL_SCALE ==> block[i] == sum_at(taken, i),
{
    assert(after[k].handle == after[k].handle);
}

/// Sound that there is room for is handed on whole; of more, the beginning is handed on
/// and nothing is handed on twice or out of order.
pub proof fn law_pushed_sound_keeps_its_order(
    before: AudioProducer,
    after: AudioProducer,
    samples: Seq<i32>,
    n: int,
)
    requires
        pushed(before, after, samples, n),
    ensures
        samples.len() <= room(before) ==> sent(after) == sent(before) + samples,
        sent(after).len() == sent(before).len() + n,
        forall|i: int|
            0 <= i < n ==> #[trigger] sent(after)[sent(before).len() + i] == samples[i],
        n < samples.len() ==> n >= room(before),
{
    if samples.len() <= room(before) {
        assert(samples.take(samples.len() as int) =~= samples);
    }
}

} // verus!
