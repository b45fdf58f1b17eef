//! Samples as whole numbers: 2^24 stands for full scale.

use vstd::arithmetic::power2::pow2;
use vstd::prelude::*;


verus! {

/// Full scale.
pub const FULL_SCALE: i32 = 16_777_216;

/// The loudest sample that can be held.
pub const LOUDEST: i32 = 2_147_483_647;

/// The exponent field of a single-precision number in binary notation.
pub open spec fn exponent_of(bits: u32) -> int {
    bits as int / 0x80_0000 % 256
}

/// The fraction field of a single-precision number in binary notation.
pub open spec fn fraction_of(bits: u32) -> int {
    bits as int % 0x80_0000
}

/// The magnitude, in units of a sample and rounded down, of the single-precision
/// number with the bits; no larger than the loudest sample. What is not a number
/// counts as silence.
pub open spec fn magnitude_of(bits: u32) -> int {
    let e = exponent_of(bits);
    let f = fraction_of(bits);
    if e == 255 && f != 0 {
        0
    } else {
        let m = if e == 0 {
            f
        } else {
            f + 0x80_0000
        };
        let x = if e == 0 {
            1
        } else {
            e
        };
        if x >= 134 {
            LOUDEST as int
        } else if x >= 126 {
            m * pow2((x - 126) as nat)
        } else {
            m / (pow2((126 - x) as nat) as int)
        }
    }
}

/// The sample that a single-precision number stands for.
pub open spec fn sample_of(bits: u32) -> int {
    if bits >= 0x8000_0000 {
        -magnitude_of(bits)
    } else {
        magnitude_of(bits)
    }
}

fn two_to(n: u32) -> (r: u64)
    requires
        n <= 24,
    ensures
        r == pow2(n as nat),
        0 < r <= 0x100_0000,
{
    let mut k: u32 = 0;
    let mut v: u64 = 1;
    proof {
        vstd::arithmetic::power2::lemma2_to64();
    }
    while k < n
        invariant
            k <= n <= 24,
            v == pow2(k as nat),
            v <= 0x100_0000,
            pow2(24) == 0x100_0000,
        decreases n - k,
    {
        proof {
            vstd::arithmetic::power2::lemma_pow2_unfold((k + 1) as nat);
            if k + 1 < 24 {
                vstd::arithmetic::power2::lemma_pow2_strictly_increases((k + 1) as nat, 24);
            }
        }
        v = v * 2;
        k = k + 1;
    }
    proof {
        vstd::arithmetic::power2::lemma_pow2_pos(n as nat);
    }
    v
}

/// The sample that a single-precision number stands for.
pub fn sample_from_bits(bits: u32) -> (r: i32)
    ensures
        r == sample_of(bits),
{
    let e: u32 = bits / 0x80_0000 % 256;
    let f: u32 = bits % 0x80_0000;
    let magnitude: i32 = if e == 255 && f != 0 {
        0
    } else {
        let m: u32 = if e == 0 {
            f
        } else {
            f + 0x80_0000
        };
        let x: u32 = if e == 0 {
            1
        } else {
            e
        };
        if x >= 134 {
            LOUDEST
        } else if x >= 126 {
            let p: u64 = two_to(x - 126);
            proof {
                vstd::arithmetic::power2::lemma2_to64();
                if x - 126 < 7 {
                    vstd::arithmetic::power2::lemma_pow2_strictly_increases((x - 126) as nat, 7);
                }
                assert(0 <= m * p <= 0xff_ffff * 128) by (nonlinear_arith)
                    requires
                        0 <= m <= 0xff_ffff,
                        0 <= p <= 128,
                ;
            }
            (m as u64 * p) as i32
        } else if 126 - x <= 24 {
            let p: u64 = two_to(126 - x);
            proof {
                assert(0 <= m / (p as u32) <= m) by (nonlinear_arith)
                    requires
                        0 < p <= 0x100_0000,
                ;
                assert(m as int / (p as int) <= m) by (nonlinear_arith)
                    requires
                        0 < p,
                        0 <= m,
                ;
            }
            (m as u64 / p) as i32
        } else {
            proof {
                vstd::arithmetic::power2::lemma2_to64();
                vstd::arithmetic::power2::lemma_pow2_strictly_increases(24, (126 - x) as nat);
                vstd::arithmetic::div_mod::lemma_basic_div(
                    m as int,
                    pow2((126 - x) as nat) as int,
                );
            }
            0
        }
    };
    if bits >= 0x8000_0000 {
        -magnitude
    } else {
        magnitude
    }
}

/// Four bytes as a number, the lowest first.
pub open spec fn word_of(b: Seq<u8>, i: int) -> u32 {
    (b[i * 4] + b[i * 4 + 1] * 0x100 + b[i * 4 + 2] * 0x1_0000 + b[i * 4 + 3] * 0x100_0000) as u32
}

/// The samples that bytes hold, four bytes each; what is left over does not count.
pub open spec fn decoded(b: Seq<u8>) -> Seq<i32> {
    Seq::new((b.len() / 4) as nat, |i: int| sample_of(word_of(b, i)) as i32)
}

/// The samples that bytes hold, four bytes each.
pub fn decode_samples(data: &Vec<u8>) -> (r: Vec<i32>)
    ensures
        r@ == decoded(data@),
{
    let n: usize = data.len() / 4;
    let mut out: Vec<i32> = Vec::new();
    let mut i: usize = 0;
    while i < n
        invariant
            n == data.len() / 4,
            i <= n,
            out@ == decoded(data@).take(i as int),
        decreases n - i,
    {
        let p: usize = i * 4;
        let word: u32 = data[p] as u32 + data[p + 1] as u32 * 0x100 + data[p + 2] as u32 * 0x1_0000
            + data[p + 3] as u32 * 0x100_0000;
        assert(word == word_of(data@, i as int));
        out.push(sample_from_bits(word));
        assert(decoded(data@).take(i + 1) =~= decoded(data@).take(i as int).push(
            decoded(data@)[i as int],
        ));
        i += 1;
    }
    assert(decoded(data@).take(n as int) =~= decoded(data@));
    out
}

/// What the bytes of a sound stand for.
#[derive(Debug, Clone, Copy, PartialEq, Eq, Structural)]
pub enum SampleFormat {
    /// Single-precision numbers.
    F32,
    /// Whole numbers of two bytes.
    I16,
    /// Something that cannot be read.
    Other,
}

/// Two bytes as a number with a sign, the lower first.
pub open spec fn short_of(b: Seq<u8>, i: int) -> int {
    let n = b[i * 2] + b[i * 2 + 1] * 0x100;
    if n >= 0x8000 {
        n - 0x1_0000
    } else {
        n
    }
}

/// The samples that bytes hold, two bytes each: 2^15 is full scale. What is left over
/// does not count.
pub open spec fn decoded_shorts(b: Seq<u8>) -> Seq<i32> {
    Seq::new((b.len() / 2) as nat, |i: int| (short_of(b, i) * 512) as i32)
}

/// The samples that the bytes of a plane hold; none where they cannot be read.
pub open spec fn decoded_as(b: Seq<u8>, format: SampleFormat) -> Seq<i32> {
    match format {
        SampleFormat::F32 => decoded(b),
        SampleFormat::I16 => decoded_shorts(b),
        SampleFormat::Other => Seq::empty(),
    }
}

fn decode_shorts(data: &Vec<u8>) -> (r: Vec<i32>)
    ensures
        r@ == decoded_shorts(data@),
{
    let n: usize = data.len() / 2;
    let mut out: Vec<i32> = Vec::new();
    let mut i: usize = 0;
    while i < n
        invariant
            n == data.len() / 2,
            i <= n,
            out@ == decoded_shorts(data@).take(i as int),
        decreases n - i,
    {
        let p: usize = i * 2;
        let pair: i32 = data[p] as i32 + data[p + 1] as i32 * 0x100;
        let short: i32 = if pair >= 0x8000 {
            pair - 0x1_0000
        } else {
            pair
        };
        out.push(short * 512);
        assert(decoded_shorts(data@).take(i + 1) =~= decoded_shorts(data@).take(i as int).push(
            decoded_shorts(data@)[i as int],
        ));
        i += 1;
    }
    assert(decoded_shorts(data@).take(n as int) =~= decoded_shorts(data@));
    out
}

/// The samples that the bytes of a plane hold.
pub fn decode_plane(data: &Vec<u8>, format: SampleFormat) -> (r: Vec<i32>)
    ensures
        r@ == decoded_as(data@, format),
{
    match format {
        SampleFormat::F32 => decode_samples(data),
        SampleFormat::I16 => decode_shorts(data),
        SampleFormat::Other => Vec::new(),
    }
}

/// Each sample repeated for every channel.
pub open spec fn spread(samples: Seq<i32>, channels: int) -> Seq<i32>
    decreases samples.len(),
{
    if samples.len() == 0 {
        Seq::empty()
    } else {
        spread(samples.drop_last(), channels) + Seq::new(
            channels as nat,
            |i: int| samples.last(),
        )
    }
}

/// Each sample repeated for every channel.
pub fn spread_channels(samples: &Vec<i32>, channels: u16) -> (r: Vec<i32>)
    ensures
        r@ == spread(samples@, channels as int),
{
    let mut out: Vec<i32> = Vec::new();
    let mut i: usize = 0;
    assert(samples@.take(0) =~= Seq::<i32>::empty());
    while i < samples.len()
        invariant
            i <= samples.len(),
            out@ == spread(samples@.take(i as int), channels as int),
        decreases samples.len() - i,
    {
        let s: i32 = samples[i];
        let ghost before = out@;
        let mut c: u16 = 0;
        while c < channels
            invariant
                c <= channels,
                out@ == before + Seq::new(c as nat, |i: int| s),
            decreases channels - c,
        {
            out.push(s);
            c += 1;
            assert(out@ =~= before + Seq::new(c as nat, |i: int| s));
        }
        assert(samples@.take(i + 1).drop_last() =~= samples@.take(i as int));
        assert(out@ =~= before + Seq::new(channels as nat, |j: int| samples@.take(i + 1).last()));
        i += 1;
    }
    assert(samples@.take(i as int) =~= samples@);
    out
}

/// For one channel the samples are what they were; for none nothing is left.
pub proof fn law_spread_one(samples: Seq<i32>)
    ensures
        spread(samples, 1) == samples,
        spread(samples, 0) == Seq::<i32>::empty(),
    decreases samples.len(),
{
    if samples.len() > 0 {
        law_spread_one(samples.drop_last());
        assert(spread(samples, 1) =~= samples);
        assert(spread(samples, 0) =~= Seq::<i32>::empty());
    }
}

/// There is one sample for each channel of each sample.
pub proof fn law_spread_len(samples: Seq<i32>, channels: int)
    requires
        channels >= 0,
    ensures
        spread(samples, channels).len() == samples.len() * channels,
    decreases samples.len(),
{
    if samples.len() > 0 {
        law_spread_len(samples.drop_last(), channels);
        assert(samples.len() * channels == (samples.len() - 1) * channels + channels)
            by (nonlinear_arith);
    } else {
        assert(0 * channels == 0) by (nonlinear_arith);
    }
}

/// Sound that goes to several channels is each sample once for every channel.
pub proof fn law_spread_repeats_each(samples: Seq<i32>, channels: int, i: int, j: int)
    requires
        0 <= i < samples.len(),
        0 <= j < channels,
    ensures
        0 <= i * channels + j < spread(samples, channels).len(),
        spread(samples, channels)[i * channels + j] == samples[i],
    decreases samples.len(),
{
    let init = samples.drop_last();
    law_spread_len(init, channels);
    law_spread_len(samples, channels);
    assert(0 <= i * channels) by (nonlinear_arith)
        requires
            0 <= i,
            0 <= channels,
    ;
    if i < init.len() {
        law_spread_repeats_each(init, channels, i, j);
    } else {
        assert(init.len() * channels == i * channels) by (nonlinear_arith)
            requires
                init.len() == i,
        ;
    }
}

/// A sample of two bytes is the number that they make, the first byte the lesser, with
/// the upper half of the range below nought, and is scaled so that the range is full
/// scale.
pub proof fn law_short_samples_are_scaled(b: Seq<u8>, i: int)
    requires
        0 <= i,
        2 * i + 1 < b.len(),
    ensures
        ({
            let v = decoded_shorts(b)[i];
            let n = b[2 * i] + 256 * b[2 * i + 1];
            &&& n < 32768 ==> v == 512 * n
            &&& n >= 32768 ==> v == 512 * (n - 65536)
            &&& -FULL_SCALE <= v < FULL_SCALE
        }),
        decoded_shorts(b).len() == b.len() / 2,
{
    assert(i * 2 == 2 * i);
}

/// A sample with the sign bit set is the negative of the one without it.
pub proof fn law_sign_bit_negates(bits: u32)
    requires
        bits < 0x8000_0000,
    ensures
        sample_of((bits + 0x8000_0000) as u32) == -sample_of(bits),
        sample_of(bits) >= 0,
{
    let up = (bits + 0x8000_0000) as u32;
    assert(up as int / 0x80_0000 % 256 == bits as int / 0x80_0000 % 256);
    assert(up as int % 0x80_0000 == bits as int % 0x80_0000);
    let e = exponent_of(bits);
    if 126 <= e && e < 134 {
        vstd::arithmetic::power2::lemma_pow2_pos((e - 126) as nat);
        let m = fraction_of(bits) + 0x80_0000;
        let p = pow2((e - 126) as nat);
        assert(m * p >= 0) by (nonlinear_arith)
            requires
                m >= 0,
                p > 0,
        ;
    } else if e < 126 {
        let x = if e == 0 {
            1
        } else {
            e
        };
        let p = pow2((126 - x) as nat) as int;
        vstd::arithmetic::power2::lemma_pow2_pos((126 - x) as nat);
        let m = if e == 0 {
            fraction_of(bits)
        } else {
            fraction_of(bits) + 0x80_0000
        };
        vstd::arithmetic::div_mod::lemma_div_pos_is_pos(m, p);
    }
}

/// From half of full scale on, one more in the exponent is twice as loud; and just below
/// full scale a sample is what its digits say.
pub proof fn law_exponent_doubles(bits: u32)
    requires
        126 <= exponent_of(bits) < 133,
        bits < 0x8000_0000,
    ensures
        sample_of((bits + 0x80_0000) as u32) == 2 * sample_of(bits),
        exponent_of(bits) == 126 ==> sample_of(bits) == bits % 0x80_0000 + 0x80_0000,
{
    let up = (bits + 0x80_0000) as u32;
    let e = exponent_of(bits);
    assert(exponent_of(up) == e + 1);
    assert(fraction_of(up) == fraction_of(bits));
    assert(up < 0x8000_0000);
    let n = (e - 126) as nat;
    vstd::arithmetic::power2::lemma_pow2_unfold((n + 1) as nat);
    let m = fraction_of(bits) + 0x80_0000;
    let p = pow2(n) as int;
    assert(m * (2 * p) == 2 * (m * p)) by (nonlinear_arith);
    if e == 126 {
        vstd::arithmetic::power2::lemma2_to64();
    }
}

/// Below half of full scale, one less in the exponent is half as loud, rounded down.
pub proof fn law_exponent_halves(bits: u32)
    requires
        1 <= exponent_of(bits) < 126,
        bits < 0x8000_0000,
    ensures
        sample_of(bits) == sample_of((bits + 0x80_0000) as u32) / 2,
{
    let up = (bits + 0x80_0000) as u32;
    let e = exponent_of(bits);
    assert(exponent_of(up) == e + 1);
    assert(fraction_of(up) == fraction_of(bits));
    assert(up < 0x8000_0000);
    let n = (126 - e) as nat;
    let m = fraction_of(bits) + 0x80_0000;
    vstd::arithmetic::power2::lemma_pow2_unfold(n);
    vstd::arithmetic::power2::lemma_pow2_pos((n - 1) as nat);
    let p = pow2((n - 1) as nat) as int;
    assert(pow2(n) == 2 * p);
    vstd::arithmetic::div_mod::lemma_div_denominator(m, p, 2);
    assert(p * 2 == 2 * p);
    assert(magnitude_of(bits) == m / (pow2(n) as int));
    if e == 125 {
        vstd::arithmetic::power2::lemma2_to64();
        assert(n == 1);
        assert(magnitude_of(up) == m * pow2(0));
        assert(m * pow2(0) == m) by (nonlinear_arith)
            requires
                pow2(0) == 1,
        ;
    } else {
        assert(magnitude_of(up) == m / p);
    }
}

} // verus!
