//! Sound on its way to the sound card: queueing, fading, resampling and folding down
//! to one channel.

use vstd::prelude::*;

use crate::audio::ring::{push_slice, queued, received, room, sent, try_pop, try_push, AudioConsumer, AudioProducer};
use crate::audio::sample::{law_spread_len, law_spread_one, spread, spread_channels};
use crate::time::floor_div;

verus! {

/// The items of `all` whose flag is set, in order.
pub open spec fn chosen(all: Seq<i32>, flags: Seq<bool>) -> Seq<i32>
    decreases all.len(),
{
    if all.len() == 0 {
        Seq::empty()
    } else if flags[all.len() - 1] {
        chosen(all.drop_last(), flags).push(all.last())
    } else {
        chosen(all.drop_last(), flags)
    }
}

/// All items are chosen where all flags are set.
proof fn lemma_chosen_all(all: Seq<i32>, flags: Seq<bool>)
    requires
        flags.len() >= all.len(),
        forall|i: int| 0 <= i < all.len() ==> flags[i],
    ensures
        chosen(all, flags) == all,
    decreases all.len(),
{
    if all.len() > 0 {
        lemma_chosen_all(all.drop_last(), flags);
        assert(all.drop_last().push(all.last()) =~= all);
    } else {
        assert(chosen(all, flags) =~= all);
    }
}

proof fn lemma_chosen_same(all: Seq<i32>, a: Seq<bool>, b: Seq<bool>)
    requires
        a.len() >= all.len(),
        b.len() >= all.len(),
        forall|i: int| 0 <= i < all.len() ==> a[i] == b[i],
    ensures
        chosen(all, a) == chosen(all, b),
    decreases all.len(),
{
    if all.len() > 0 {
        lemma_chosen_same(all.drop_last(), a, b);
    }
}

/// What queueing does to a ring: the samples, each once for every channel, go in one
/// by one, and each that finds no room is left out. Where there is room for all, none
/// is.
pub open spec fn enqueued(
    before: AudioProducer,
    after: AudioProducer,
    all: Seq<i32>,
    flags: Seq<bool>,
) -> bool {
    &&& flags.len() == all.len()
    &&& sent(after) == sent(before) + chosen(all, flags)
    &&& forall|i: int| 0 <= i < all.len() && i < room(before) ==> flags[i]
}

/// How many channels the sound card has, at least one.
pub open spec fn at_least_one(channels: u16) -> int {
    if channels <= 1 {
        1
    } else {
        channels as int
    }
}

/// Queues samples for every channel of the sound card.
pub fn enqueue_samples(producer: &mut AudioProducer, samples: &Vec<i32>, channels: u16)
    ensures
        exists|flags: Seq<bool>| #[trigger]
            enqueued(
                *old(producer),
                *final(producer),
                spread(samples@, at_least_one(channels)),
                flags,
            ),
        room(*old(producer)) >= samples@.len() * at_least_one(channels) ==> sent(*final(producer))
            == sent(*old(producer)) + spread(samples@, at_least_one(channels)),
{
    let ghost start = sent(*producer);
    let ghost free = room(*producer);
    if channels <= 1 {
        let n: usize = push_slice(producer, samples);
        proof {
            law_spread_one(samples@);
            let flags = Seq::new(samples@.len(), |i: int| i < n);
            assert(samples@.take(n as int) == chosen(samples@, flags)) by {
                lemma_chosen_prefix(samples@, n as int);
            }
            assert(enqueued(
                *old(producer),
                *producer,
                spread(samples@, at_least_one(channels)),
                flags,
            ));
            if free >= samples@.len() {
                assert(samples@.take(n as int) =~= samples@);
            }
        }
        return;
    }
    let all = spread_channels(samples, channels);
    let ghost mut flags: Seq<bool> = Seq::empty();
    let mut i: usize = 0;
    assert(start + chosen(all@.take(0), flags) =~= start);
    while i < all.len()
        invariant
            i <= all.len(),
            flags.len() == i,
            free == room(*old(producer)),
            start == sent(*old(producer)),
            sent(*producer) == start + chosen(all@.take(i as int), flags),
            i < free ==> room(*producer) == free - i,
            forall|k: int| 0 <= k < i && k < free ==> flags[k],
        decreases all.len() - i,
    {
        let ghost before = flags;
        let ok = try_push(producer, all[i]);
        proof {
            flags = flags.push(ok);
            assert(all@.take(i + 1).drop_last() =~= all@.take(i as int));
            lemma_chosen_same(all@.take(i as int), before, flags);
            assert(sent(*producer) =~= start + chosen(all@.take(i + 1), flags));
        }
        i += 1;
    }
    proof {
        assert(all@.take(i as int) =~= all@);
        assert(enqueued(
            *old(producer),
            *producer,
            spread(samples@, at_least_one(channels)),
            flags,
        ));
        law_spread_len(samples@, channels as int);
        if free >= samples@.len() * channels {
            lemma_chosen_all(all@, flags);
        }
    }
}

proof fn lemma_chosen_prefix(all: Seq<i32>, n: int)
    requires
        0 <= n <= all.len(),
    ensures
        chosen(all, Seq::new(all.len(), |i: int| i < n)) == all.take(n),
{
    let flags = Seq::new(all.len(), |i: int| i < n);
    lemma_chosen_prefix_from(all, n, flags);
}

proof fn lemma_chosen_prefix_from(all: Seq<i32>, n: int, flags: Seq<bool>)
    requires
        flags.len() >= all.len(),
        forall|i: int| 0 <= i < all.len() ==> flags[i] == (i < n),
        0 <= n,
    ensures
        chosen(all, flags) == all.take(
            if n <= all.len() {
                n
            } else {
                all.len() as int
            },
        ),
    decreases all.len(),
{
    if all.len() > 0 {
        lemma_chosen_prefix_from(all.drop_last(), n, flags);
        let m = if n <= all.len() {
            n
        } else {
            all.len() as int
        };
        assert(chosen(all, flags) =~= all.take(m));
    } else {
        assert(chosen(all, flags) =~= all.take(0));
    }
}

/// What was played came out of the ring where it is flagged, in order and nothing else,
/// and is silence elsewhere. What was known to wait comes first.
pub open spec fn played(
    before: AudioConsumer,
    after: AudioConsumer,
    samples: Seq<i32>,
    flags: Seq<bool>,
) -> bool {
    &&& flags.len() == samples.len()
    &&& received(after) == received(before) + chosen(samples, flags)
    &&& forall|i: int| 0 <= i < samples.len() && !flags[i] ==> #[trigger] samples[i] == 0
    &&& forall|i: int|
        0 <= i < samples.len() && i < queued(before).len() ==> #[trigger] flags[i]
    &&& forall|i: int|
        0 <= i < samples.len() && i < queued(before).len() ==> #[trigger] samples[i] == queued(
            before,
        )[i]
}

/// What the sound card plays next: `n` samples, silence where none waits.
pub fn fill_output(consumer: &mut AudioConsumer, n: usize) -> (r: Vec<i32>)
    ensures
        r@.len() == n,
        exists|flags: Seq<bool>| #[trigger] played(*old(consumer), *final(consumer), r@, flags),
        n <= queued(*old(consumer)).len() ==> queued(*final(consumer)) == queued(
            *old(consumer),
        ).skip(n as int),
{
    let ghost start = queued(*consumer);
    let ghost had = received(*consumer);
    let ghost mut flags: Seq<bool> = Seq::empty();
    assert(start.skip(0) =~= start);
    let mut out: Vec<i32> = Vec::new();
    assert(had + chosen(out@, flags) =~= had);
    while out.len() < n
        invariant
            out.len() <= n,
            flags.len() == out.len(),
            out.len() <= start.len() ==> queued(*consumer) == start.skip(out.len() as int),
            received(*consumer) == had + chosen(out@, flags),
            forall|i: int| 0 <= i < out.len() && !flags[i] ==> #[trigger] out@[i] == 0,
            forall|i: int| 0 <= i < out.len() && i < start.len() ==> #[trigger] flags[i],
            forall|i: int|
                0 <= i < out.len() && i < start.len() ==> #[trigger] out@[i] == start[i],
        decreases n - out.len(),
    {
        let ghost q = queued(*consumer);
        let ghost before = out@;
        let ghost marked = flags;
        let popped: Option<i32> = try_pop(consumer);
        let s: i32 = match popped {
            Some(s) => s,
            None => 0,
        };
        proof {
            if out.len() < start.len() {
                assert(start.skip(out.len() as int)[0] == start[out.len() as int]);
                assert(q.drop_first() =~= start.skip(out.len() + 1));
                assert(popped == Some(start[out.len() as int]));
            }
        }
        out.push(s);
        proof {
            flags = flags.push(popped is Some);
            assert(out@.drop_last() =~= before);
            lemma_chosen_same(before, marked, flags);
            assert(received(*consumer) =~= had + chosen(out@, flags));
        }
    }
    assert(played(*old(consumer), *consumer, out@, flags));
    out
}

/// How many samples a fade takes: a hundredth of a second, and no more than half.
pub open spec fn fade_length(rate: int, len: int) -> int {
    let n = if rate / 100 >= 1 {
        rate / 100
    } else {
        1
    };
    if n < len / 2 {
        n
    } else {
        len / 2
    }
}

/// Samples faded in at the beginning and out at the end.
pub open spec fn faded(s: Seq<i32>, rate: int) -> Seq<i32> {
    let f = fade_length(rate, s.len() as int);
    Seq::new(
        s.len(),
        |k: int|
            if k < f {
                (s[k] * k / f) as i32
            } else if k >= s.len() - f {
                (s[k] * (s.len() - 1 - k) / f) as i32
            } else {
                s[k]
            },
    )
}

/// A part of a sample is no larger than the sample.
proof fn lemma_part(s: int, k: int, f: int)
    requires
        0 <= k < f,
        -0x8000_0000 <= s <= 0x7fff_ffff,
    ensures
        -0x8000_0000 <= s * k / f <= 0x7fff_ffff,
{
    assert(-0x8000_0000 <= s * k / f <= 0x7fff_ffff) by (nonlinear_arith)
        requires
            0 <= k < f,
            -0x8000_0000 <= s <= 0x7fff_ffff,
    ;
}

fn part(s: i32, k: usize, f: usize) -> (r: i32)
    requires
        k < f,
    ensures
        r == s * k / (f as int),
{
    proof {
        lemma_part(s as int, k as int, f as int);
        assert(-0x8000_0000 * 0xffff_ffff_ffff_ffff <= s * k <= 0x7fff_ffff
            * 0xffff_ffff_ffff_ffff) by (nonlinear_arith)
            requires
                0 <= k <= 0xffff_ffff_ffff_ffff,
                -0x8000_0000 <= s <= 0x7fff_ffff,
        ;
    }
    floor_div(s as i128 * k as i128, f as i128) as i32
}

/// Fades a snippet in and out, so that it does not click.
pub fn apply_fade(samples: &Vec<i32>, rate: u32) -> (r: Vec<i32>)
    ensures
        r@ == faded(samples@, rate as int),
{
    let len: usize = samples.len();
    let hundredth: usize = (rate / 100) as usize;
    let wanted: usize = if hundredth >= 1 {
        hundredth
    } else {
        1
    };
    let f: usize = if wanted < len / 2 {
        wanted
    } else {
        len / 2
    };
    let mut out: Vec<i32> = Vec::new();
    let mut k: usize = 0;
    while k < len
        invariant
            len == samples.len(),
            k <= len,
            f == fade_length(rate as int, len as int),
            2 * f <= len,
            out@ == faded(samples@, rate as int).take(k as int),
        decreases len - k,
    {
        let s: i32 = samples[k];
        let v: i32 = if k < f {
            part(s, k, f)
        } else if k >= len - f {
            part(s, len - 1 - k, f)
        } else {
            s
        };
        out.push(v);
        assert(faded(samples@, rate as int).take(k + 1) =~= faded(samples@, rate as int).take(
            k as int,
        ).push(faded(samples@, rate as int)[k as int]));
        k += 1;
    }
    assert(faded(samples@, rate as int).take(len as int) =~= faded(samples@, rate as int));
    out
}

/// A faded snippet begins and ends in silence.
pub proof fn law_fade_ends_in_silence(s: Seq<i32>, rate: int)
    requires
        s.len() >= 2,
        rate >= 0,
    ensures
        faded(s, rate)[0] == 0,
        faded(s, rate)[s.len() - 1] == 0,
{
    let f = fade_length(rate, s.len() as int);
    assert(f >= 1);
    assert(0int / f == 0) by (nonlinear_arith)
        requires
            f >= 1,
    ;
    assert(s[0] * 0 == 0);
}

/// How many samples come out of a change of rate.
pub open spec fn resampled_len(len: int, src: int, dst: int) -> int {
    if src == 0 || dst == 0 {
        0
    } else {
        len * dst / src
    }
}

/// The place `i` of a sequence, or its last place.
pub open spec fn at_most_last(s: Seq<i32>, i: int) -> int {
    if i < s.len() {
        s[i] as int
    } else {
        s.last() as int
    }
}

/// The sample at place `i` after a change of rate: on the line between the two samples
/// around it.
pub open spec fn resampled_at(s: Seq<i32>, src: int, dst: int, i: int) -> int {
    let place = i * src / dst;
    let rest = i * src % dst;
    let a = at_most_last(s, place);
    let b = at_most_last(s, place + 1);
    a + (b - a) * rest / dst
}

/// The samples after a change of rate.
pub open spec fn resampled(s: Seq<i32>, src: int, dst: int) -> Seq<i32> {
    Seq::new(
        resampled_len(s.len() as int, src, dst) as nat,
        |i: int| resampled_at(s, src, dst, i) as i32,
    )
}

fn clamped_at(s: &Vec<i32>, i: u128) -> (r: i32)
    requires
        s@.len() > 0,
    ensures
        r == at_most_last(s@, i as int),
{
    if i < s.len() as u128 {
        s[i as usize]
    } else {
        s[s.len() - 1]
    }
}

/// Changes the rate of samples from `src` to `dst` per second.
pub fn resample_linear(input: &Vec<i32>, src: u32, dst: u32) -> (r: Vec<i32>)
    requires
        resampled_len(input@.len() as int, src as int, dst as int) <= usize::MAX,
    ensures
        r@ == resampled(input@, src as int, dst as int),
{
    let ghost (s, d) = (src as int, dst as int);
    let mut out: Vec<i32> = Vec::new();
    if input.len() == 0 || src == 0 || dst == 0 {
        proof {
            if src != 0 && dst != 0 {
                assert(0 * d == 0) by (nonlinear_arith);
                vstd::arithmetic::div_mod::lemma_div_of0(s);
            }
            assert(out@ =~= resampled(input@, s, d));
        }
        return out;
    }
    proof {
        assert(0 <= input@.len() * d <= 0xffff_ffff_ffff_ffff * 0xffff_ffff) by (nonlinear_arith)
            requires
                0 <= input@.len() <= 0xffff_ffff_ffff_ffff,
                0 <= d <= 0xffff_ffff,
        ;
    }
    let n: usize = (input.len() as u128 * dst as u128 / src as u128) as usize;
    let mut i: usize = 0;
    while i < n
        invariant
            i <= n,
            input@.len() > 0,
            src > 0,
            dst > 0,
            (s, d) == (src as int, dst as int),
            n == resampled_len(input@.len() as int, s, d),
            out@ == resampled(input@, s, d).take(i as int),
        decreases n - i,
    {
        proof {
            assert(0 <= i * s <= 0xffff_ffff_ffff_ffff * 0xffff_ffff) by (nonlinear_arith)
                requires
                    0 <= i <= 0xffff_ffff_ffff_ffff,
                    0 <= s <= 0xffff_ffff,
            ;
        }
        let pos: u128 = i as u128 * src as u128;
        let place: u128 = pos / dst as u128;
        let rest: u128 = pos % dst as u128;
        let a: i32 = clamped_at(input, place);
        let b: i32 = clamped_at(input, place + 1);
        proof {
            lemma_between(a as int, b as int, rest as int, d);
            assert(-0x1_0000_0000 * 0xffff_ffff <= (b - a) * rest <= 0x1_0000_0000 * 0xffff_ffff)
                by (nonlinear_arith)
                requires
                    -0x1_0000_0000 <= b - a <= 0x1_0000_0000,
                    0 <= rest <= 0xffff_ffff,
            ;
        }
        let step: i128 = floor_div((b as i128 - a as i128) * rest as i128, dst as i128);
        out.push((a as i128 + step) as i32);
        assert(resampled(input@, s, d).take(i + 1) =~= resampled(input@, s, d).take(
            i as int,
        ).push(resampled(input@, s, d)[i as int]));
        i += 1;
    }
    assert(resampled(input@, s, d).take(n as int) =~= resampled(input@, s, d));
    out
}

/// A point on the line between two samples lies between them.
proof fn lemma_between(a: int, b: int, k: int, d: int)
    requires
        0 <= k < d,
    ensures
        a <= b ==> a <= a + (b - a) * k / d <= b,
        b <= a ==> b <= a + (b - a) * k / d <= a,
{
    assert(a <= b ==> 0 <= (b - a) * k / d <= b - a) by (nonlinear_arith)
        requires
            0 <= k < d,
    ;
    assert(b <= a ==> b - a <= (b - a) * k / d <= 0) by (nonlinear_arith)
        requires
            0 <= k < d,
    ;
}

/// A change to the same rate changes nothing.
pub proof fn law_same_rate(s: Seq<i32>, rate: int)
    requires
        rate > 0,
    ensures
        resampled(s, rate, rate) == s,
{
    vstd::arithmetic::div_mod::lemma_div_by_multiple(s.len() as int, rate);
    assert forall|i: int| 0 <= i < s.len() implies #[trigger] resampled_at(s, rate, rate, i)
        == s[i] by {
        vstd::arithmetic::div_mod::lemma_fundamental_div_mod_converse(i * rate, rate, i, 0);
        let a = at_most_last(s, i);
        let b = at_most_last(s, i + 1);
        assert((b - a) * 0 == 0);
        vstd::arithmetic::div_mod::lemma_div_of0(rate);
    }
    assert(resampled(s, rate, rate) =~= s);
}

/// A resampled sound never goes beyond what it was made of.
pub proof fn law_resampled_within(s: Seq<i32>, src: int, dst: int, i: int)
    requires
        s.len() > 0,
        src > 0,
        dst > 0,
        i >= 0,
    ensures
        ({
            let a = at_most_last(s, i * src / dst);
            let b = at_most_last(s, i * src / dst + 1);
            let v = resampled_at(s, src, dst, i);
            (a <= v <= b) || (b <= v <= a)
        }),
{
    lemma_between(
        at_most_last(s, i * src / dst),
        at_most_last(s, i * src / dst + 1),
        i * src % dst,
        dst,
    );
}

/// A fade leaves the middle as it is, rises evenly over the first hundredth of a second,
/// or half of the sound where that is shorter, and falls as it rose: sound that runs
/// backwards fades to the same, backwards.
pub proof fn law_fade_rises_and_falls_evenly(s: Seq<i32>, rate: int, k: int)
    requires
        rate >= 0,
        0 <= k < s.len(),
    ensures
        ({
            let n = s.len() as int;
            let f = if rate < 200 {
                if n < 4 {
                    n / 2
                } else {
                    1
                }
            } else if rate / 100 < n / 2 {
                rate / 100
            } else {
                n / 2
            };
            let v = faded(s, rate);
            &&& v.len() == s.len()
            &&& f <= k < n - f ==> v[k] == s[k]
            &&& k < f ==> v[k] * f <= s[k] * k < (v[k] + 1) * f
            &&& faded(s.reverse(), rate)[n - 1 - k] == v[k]
        }),
{
    let n = s.len() as int;
    let f = fade_length(rate, n);
    let back = s.reverse();
    assert(back[n - 1 - k] == s[k]);
    if k < f {
        let x = s[k] * k;
        vstd::arithmetic::div_mod::lemma_fundamental_div_mod(x, f);
        vstd::arithmetic::div_mod::lemma_mod_bound(x, f);
        let q = x / f;
        assert(-0x8000_0000 <= q <= 0x7fff_ffff) by (nonlinear_arith)
            requires
                x == f * q + x % f,
                0 <= x % f < f,
                x == s[k] * k,
                0 <= k < f,
                -0x8000_0000 <= s[k] <= 0x7fff_ffff,
        ;
        assert(q * f == f * q && (q + 1) * f == f * q + f) by (nonlinear_arith);
    }
}

/// Each resampled sample lies on the line between the two samples around its moment, as
/// far along as the moment is, rounded down; beyond the last sample that one stays.
pub proof fn law_resampled_lies_on_the_line(s: Seq<i32>, src: int, dst: int, i: int, place: int)
    requires
        0 < s.len(),
        0 < src,
        0 < dst,
        0 <= i,
        0 <= place,
        place * dst <= i * src < (place + 1) * dst,
    ensures
        ({
            let v = resampled_at(s, src, dst, i);
            let rest = i * src - place * dst;
            &&& place + 1 < s.len() ==> (v - s[place]) * dst <= (s[place + 1] - s[place]) * rest < (v
                - s[place] + 1) * dst
            &&& place + 1 >= s.len() ==> v == s.last()
        }),
{
    let x = i * src;
    let rest = x - place * dst;
    assert((place + 1) * dst == place * dst + dst) by (nonlinear_arith);
    assert(place * dst == dst * place) by (nonlinear_arith);
    vstd::arithmetic::div_mod::lemma_fundamental_div_mod_converse(x, dst, place, rest);
    let a = at_most_last(s, place);
    let b = at_most_last(s, place + 1);
    let y = (b - a) * rest;
    vstd::arithmetic::div_mod::lemma_fundamental_div_mod(y, dst);
    vstd::arithmetic::div_mod::lemma_mod_bound(y, dst);
    let q = y / dst;
    assert(q * dst == dst * q && (q + 1) * dst == dst * q + dst) by (nonlinear_arith);
    if place + 1 >= s.len() {
        assert(y == 0) by (nonlinear_arith)
            requires
                y == (b - a) * rest,
                b == a,
        ;
        assert(0int / dst == 0) by {
            vstd::arithmetic::div_mod::lemma_div_basics(dst);
        }
    }
}

/// Resampled sound lasts as long as it did, but for less than a sample.
pub proof fn law_resampled_lasts_as_long(s: Seq<i32>, src: int, dst: int)
    requires
        0 < src,
        0 < dst,
    ensures
        resampled(s, src, dst).len() * src <= s.len() * dst < (resampled(s, src, dst).len() + 1)
            * src,
{
    let x = s.len() * dst;
    vstd::arithmetic::div_mod::lemma_fundamental_div_mod(x, src);
    vstd::arithmetic::div_mod::lemma_mod_bound(x, src);
    let q = x / src;
    assert(x >= 0) by (nonlinear_arith)
        requires
            x == s.len() * dst,
            0 < dst,
    ;
    vstd::arithmetic::div_mod::lemma_div_pos_is_pos(x, src);
    assert(q * src == src * q && (q + 1) * src == src * q + src) by (nonlinear_arith);
}

proof fn lemma_all_chosen(all: Seq<i32>, flags: Seq<bool>)
    requires
        flags.len() >= all.len(),
        forall|i: int| 0 <= i < all.len() ==> #[trigger] flags[i],
    ensures
        chosen(all, flags) == all,
    decreases all.len(),
{
    if all.len() > 0 {
        lemma_all_chosen(all.drop_last(), flags);
        assert(all.drop_last().push(all.last()) =~= all);
    } else {
        assert(chosen(all, flags) =~= all);
    }
}

/// Sound that there is room for is all handed on, in its order.
pub proof fn law_sound_with_room_is_handed_on(
    before: AudioProducer,
    after: AudioProducer,
    all: Seq<i32>,
    flags: Seq<bool>,
)
    requires
        enqueued(before, after, all, flags),
        all.len() <= room(before),
    ensures
        sent(after) == sent(before) + all,
{
    assert forall|i: int| 0 <= i < all.len() implies #[trigger] flags[i] by {}
    lemma_all_chosen(all, flags);
}

/// Where enough sound waits, the sound card plays the first of it, in its order and
/// without a gap, and has received just that.
pub proof fn law_waiting_sound_is_played(
    before: AudioConsumer,
    after: AudioConsumer,
    samples: Seq<i32>,
    flags: Seq<bool>,
)
    requires
        played(before, after, samples, flags),
        samples.len() <= queued(before).len(),
    ensures
        samples == queued(before).take(samples.len() as int),
        received(after) == received(before) + samples,
{
    assert forall|i: int| 0 <= i < samples.len() implies #[trigger] flags[i] by {}
    lemma_all_chosen(samples, flags);
    assert forall|i: int| 0 <= i < samples.len() implies samples[i] == queued(before)[i] by {
        assert(flags[i]);
        assert(samples[i] == samples[i]);
    }
    assert(samples =~= queued(before).take(samples.len() as int));
}

} // verus!
