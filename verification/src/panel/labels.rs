//! The texts on the panels.

use vstd::prelude::*;

use crate::engine::fps::TOP_RATE;
use crate::text::{decimal, push_decimal, push_two_digits, two_digits};
use crate::time::{in_time, SECOND};

verus! {

/// How many bytes a character takes.
pub open spec fn byte_len(c: char) -> nat {
    if (c as u32) < 0x80 {
        1
    } else if (c as u32) < 0x800 {
        2
    } else if (c as u32) < 0x10000 {
        3
    } else {
        4
    }
}

/// How many bytes a text takes.
pub open spec fn bytes_of(s: Seq<char>) -> nat
    decreases s.len(),
{
    if s.len() == 0 {
        0
    } else {
        bytes_of(s.drop_last()) + byte_len(s.last())
    }
}

/// `n` characters take so many bytes.
pub open spec fn cut_at(s: Seq<char>, bytes: nat, n: int) -> bool {
    0 <= n <= s.len() && bytes_of(s.take(n)) == bytes
}

/// A text of more than `limit` bytes is cut after `kept` bytes, and three dots follow.
pub open spec fn is_shortened(s: Seq<char>, r: Seq<char>, limit: nat, kept: nat) -> bool {
    if bytes_of(s) > limit {
        exists|n: int| #[trigger] cut_at(s, kept, n) && r == s.take(n) + seq!['.', '.', '.']
    } else {
        r == s
    }
}

fn char_bytes(c: char) -> (r: usize)
    ensures
        r == byte_len(c),
        1 <= r <= 4,
{
    let n: u32 = c as u32;
    if n < 0x80 {
        1
    } else if n < 0x800 {
        2
    } else if n < 0x10000 {
        3
    } else {
        4
    }
}

proof fn lemma_bytes_grow(s: Seq<char>, n: int)
    requires
        0 <= n <= s.len(),
    ensures
        bytes_of(s.take(n)) <= bytes_of(s),
    decreases s.len() - n,
{
    if n < s.len() {
        lemma_bytes_grow(s, n + 1);
        assert(s.take(n + 1).drop_last() =~= s.take(n));
    } else {
        assert(s.take(n) =~= s);
    }
}

proof fn lemma_bytes_increase(s: Seq<char>, n: int, m: int)
    requires
        0 <= n < m <= s.len(),
    ensures
        bytes_of(s.take(n)) < bytes_of(s.take(m)),
    decreases m - n,
{
    assert(s.take(m).drop_last() =~= s.take(m - 1));
    if n < m - 1 {
        lemma_bytes_increase(s, n, m - 1);
    }
}

/// A text can be shortened: where it is cut the cut falls between two characters.
pub open spec fn can_cut(s: Seq<char>, limit: nat, kept: nat) -> bool {
    bytes_of(s) > limit ==> exists|n: int| #[trigger] cut_at(s, kept, n)
}

/// Whether a text can be shortened.
pub fn can_shorten(s: &str, limit: usize, kept: usize) -> (r: bool)
    requires
        bytes_of(s@) <= usize::MAX,
    ensures
        r == can_cut(s@, limit as nat, kept as nat),
{
    try_shorten(s, limit, kept).is_some()
}

/// The text, cut after `kept` bytes where it takes more than `limit`.
pub fn shorten(s: &str, limit: usize, kept: usize) -> (r: String)
    requires
        bytes_of(s@) <= usize::MAX,
        can_cut(s@, limit as nat, kept as nat),
    ensures
        is_shortened(s@, r@, limit as nat, kept as nat),
{
    match try_shorten(s, limit, kept) {
        Some(t) => t,
        None => String::new(),
    }
}

fn try_shorten(s: &str, limit: usize, kept: usize) -> (r: Option<String>)
    requires
        bytes_of(s@) <= usize::MAX,
    ensures
        match r {
            Some(t) => is_shortened(s@, t@, limit as nat, kept as nat),
            None => bytes_of(s@) > limit && forall|n: int| !#[trigger] cut_at(s@, kept as nat, n),
        },
{
    let mut out = String::new();
    let mut bytes: usize = 0;
    let mut cut: bool = kept == 0;
    let ghost mut at: int = 0;
    let mut open: bool = kept != 0;
    assert(s@.take(0) =~= Seq::<char>::empty());
    for c in it: s.chars()
        invariant
            it.seq() == s@,
            bytes_of(s@) <= usize::MAX,
            0 <= it.index() <= s@.len(),
            bytes == bytes_of(s@.take(it.index())),
            cut ==> cut_at(s@, kept as nat, at) && at <= it.index() && out@ == s@.take(at),
            open ==> out@ == s@.take(it.index()) && bytes < kept,
            cut ==> !open,
            !cut && !open ==> bytes > kept && forall|n: int|
                0 <= n <= it.index() ==> !#[trigger] cut_at(s@, kept as nat, n),
            open ==> forall|n: int|
                0 <= n <= it.index() ==> !#[trigger] cut_at(s@, kept as nat, n),
    {
        proof {
            let more = s@.take(it.index() + 1);
            assert(more.drop_last() =~= s@.take(it.index()));
            assert(more.last() == c);
            lemma_bytes_grow(s@, it.index() + 1);
        }
        bytes = bytes + char_bytes(c);
        if open {
            out.push(c);
            assert(out@ =~= s@.take(it.index() + 1));
            if bytes == kept {
                cut = true;
                open = false;
                proof {
                    at = it.index() + 1;
                }
            } else if bytes > kept {
                open = false;
            }
        }
    }
    assert(s@.take(s@.len() as int) =~= s@);
    if bytes <= limit {
        return Some(copy_text(s));
    }
    if cut {
        out.push('.');
        out.push('.');
        out.push('.');
        assert(out@ =~= s@.take(at) + seq!['.', '.', '.']);
        return Some(out);
    }
    None
}

fn copy_text(s: &str) -> (r: String)
    ensures
        r@ == s@,
{
    let mut out = String::new();
    out.append(s);
    assert(out@ =~= s@);
    out
}

/// A cut falls at one place only.
pub proof fn law_cut_is_unique(s: Seq<char>, bytes: nat, n: int, m: int)
    requires
        cut_at(s, bytes, n),
        cut_at(s, bytes, m),
    ensures
        n == m,
{
    if n < m {
        lemma_bytes_increase(s, n, m);
    } else if m < n {
        lemma_bytes_increase(s, m, n);
    }
}

/// Minutes and seconds.
pub open spec fn clock(seconds: nat) -> Seq<char> {
    decimal(seconds / 60) + seq![':'] + two_digits(seconds % 60)
}

/// Appends minutes and seconds.
pub fn push_clock(out: &mut String, seconds: u64)
    ensures
        final(out)@ == old(out)@ + clock(seconds as nat),
{
    push_decimal(out, seconds / 60);
    out.push(':');
    push_two_digits(out, seconds % 60);
    assert(out@ =~= old(out)@ + clock(seconds as nat));
}

/// The mark of a second on the ruler.
pub fn ruler_label(second: u64) -> (r: String)
    ensures
        r@ == clock(second as nat),
{
    let mut out = String::new();
    push_clock(&mut out, second);
    assert(out@ =~= clock(second as nat));
    out
}

/// The size of a picture.
pub open spec fn size_text(w: u32, h: u32) -> Seq<char> {
    decimal(w as nat) + seq!['x'] + decimal(h as nat)
}

/// The line under a thumbnail: how long the file is, in whole seconds, and how large its
/// picture is, as far as that is known.
pub open spec fn meta_line(duration: Option<i64>, resolution: Option<(u32, u32)>) -> Seq<char> {
    let d = match duration {
        Some(d) => clock((d as int / SECOND as int) as nat),
        None => Seq::empty(),
    };
    match resolution {
        Some((w, h)) => if duration is Some {
            d + seq![' ', ' '] + size_text(w, h)
        } else {
            size_text(w, h)
        },
        None => d,
    }
}

/// The line under a thumbnail.
pub fn thumbnail_line(duration: Option<i64>, resolution: Option<(u32, u32)>) -> (r: String)
    requires
        duration matches Some(d) ==> d >= 0,
    ensures
        r@ == meta_line(duration, resolution),
{
    let mut out = String::new();
    if let Some(d) = duration {
        push_clock(&mut out, (d / SECOND) as u64);
    }
    if let Some((w, h)) = resolution {
        if duration.is_some() {
            out.push(' ');
            out.push(' ');
        }
        push_decimal(&mut out, w as u64);
        out.push('x');
        push_decimal(&mut out, h as u64);
    }
    assert(out@ =~= meta_line(duration, resolution));
    out
}

/// Frames per second of the time code.
pub const TIMECODE_RATE: i64 = 24;

/// The time code: minutes, seconds and frames.
pub open spec fn timecode(t: int) -> Seq<char> {
    let seconds = t / SECOND as int;
    decimal((seconds / 60) as nat) + seq![':'] + two_digits((seconds % 60) as nat) + seq!['.']
        + two_digits(((t % SECOND as int) * TIMECODE_RATE / SECOND as int) as nat)
}

/// The time code.
pub fn timecode_text(t: i64) -> (r: String)
    requires
        0 <= t,
    ensures
        r@ == timecode(t as int),
{
    let seconds: i64 = t / SECOND;
    let frames: i64 = t % SECOND * TIMECODE_RATE / SECOND;
    let mut out = String::new();
    push_decimal(&mut out, (seconds / 60) as u64);
    out.push(':');
    push_two_digits(&mut out, (seconds % 60) as u64);
    out.push('.');
    push_two_digits(&mut out, frames as u64);
    assert(out@ =~= timecode(t as int));
    out
}

/// A quotient, rounded to the nearest whole number; one that lies halfway between two
/// goes to the even one.
pub open spec fn nearest(n: int, d: int) -> int {
    let whole = n / d;
    let twice = 2 * (n % d);
    if twice < d || (twice == d && whole % 2 == 0) {
        whole
    } else {
        whole + 1
    }
}

/// A quotient, rounded to the nearest whole number.
pub fn rounded_quotient(n: u128, d: u128) -> (r: u128)
    requires
        0 < d <= 0xffff_ffff,
    ensures
        r == nearest(n as int, d as int),
        r <= n + 1,
{
    proof {
        assert(n / d <= n) by (nonlinear_arith)
            requires
                d > 0,
        ;
        assert(d >= 2 ==> n / d < 0xffff_ffff_ffff_ffff_ffff_ffff_ffff_ffff) by (nonlinear_arith)
            requires
                d > 0,
        ;
    }
    let whole: u128 = n / d;
    let twice: u128 = 2 * (n % d);
    if twice < d || (twice == d && whole % 2 == 0) {
        whole
    } else {
        whole + 1
    }
}

/// The time at which a clip would be put down: minutes, and seconds to a tenth.
pub open spec fn drop_label(t: int) -> Seq<char> {
    let minute = 60 * SECOND;
    let tenths = nearest(t % minute, SECOND / 10);
    decimal((t / minute) as nat) + seq![':'] + two_digits((tenths / 10) as nat) + seq!['.']
        + decimal((tenths % 10) as nat)
}

/// The time at which a clip would be put down.
pub fn drop_time_text(t: i64) -> (r: String)
    requires
        0 <= t,
    ensures
        r@ == drop_label(t as int),
{
    let minute: i64 = 60_000_000_000;
    let tenths: u128 = rounded_quotient((t % minute) as u128, 100_000_000);
    let mut out = String::new();
    push_decimal(&mut out, (t / minute) as u64);
    out.push(':');
    push_two_digits(&mut out, (tenths / 10) as u64);
    out.push('.');
    push_decimal(&mut out, (tenths % 10) as u64);
    assert(out@ =~= drop_label(t as int));
    out
}

/// Seconds to a hundredth.
pub open spec fn seconds_label(t: int) -> Seq<char> {
    let hundredths = nearest(t, SECOND / 100);
    decimal((hundredths / 100) as nat) + seq!['.'] + two_digits((hundredths % 100) as nat)
        + seq!['s']
}

/// Seconds to a hundredth.
pub fn seconds_text(t: i64) -> (r: String)
    requires
        0 <= t,
        in_time(t as int),
    ensures
        r@ == seconds_label(t as int),
{
    let hundredths: u128 = rounded_quotient(t as u128, 10_000_000);
    let mut out = String::new();
    push_decimal(&mut out, (hundredths / 100) as u64);
    out.push('.');
    push_two_digits(&mut out, (hundredths % 100) as u64);
    out.push('s');
    assert(out@ =~= seconds_label(t as int));
    out
}

/// A rate in thousandths, to a tenth.
pub open spec fn rate_label(rate: int) -> Seq<char> {
    let tenths = nearest(rate, 100);
    decimal((tenths / 10) as nat) + seq!['.'] + decimal((tenths % 10) as nat)
}

/// A rate in thousandths, to a tenth.
pub fn rate_text(rate: u128) -> (r: String)
    requires
        rate <= TOP_RATE,
    ensures
        r@ == rate_label(rate as int),
{
    let tenths: u128 = rounded_quotient(rate, 100);
    let mut out = String::new();
    push_decimal(&mut out, (tenths / 10) as u64);
    out.push('.');
    push_decimal(&mut out, (tenths % 10) as u64);
    assert(out@ =~= rate_label(rate as int));
    out
}

/// A time code is read in minutes, seconds below sixty and frames below twenty-four, and
/// is the last frame that begins no later than the moment.
pub proof fn law_timecode_is_the_frame(t: int)
    requires
        0 <= t,
    ensures
        exists|m: int, s: int, f: int|
            0 <= m && 0 <= s < 60 && 0 <= f < 24 && ((m * 60 + s) * 24 + f) * 1_000_000_000 <= t * 24
                < ((m * 60 + s) * 24 + f + 1) * 1_000_000_000 && #[trigger] timecode(t)
                == #[trigger] decimal(m as nat) + seq![':'] + #[trigger] two_digits(s as nat)
                + seq!['.'] + #[trigger] two_digits(f as nat),
{
    let seconds = t / 1_000_000_000;
    let rest = t % 1_000_000_000;
    let m = seconds / 60;
    let s = seconds % 60;
    let f = rest * 24 / 1_000_000_000;
    assert(t == seconds * 1_000_000_000 + rest);
    assert(seconds == m * 60 + s);
    assert(timecode(t) == decimal(m as nat) + seq![':'] + two_digits(s as nat) + seq!['.']
        + two_digits(f as nat));
}

/// A clock is read in minutes and in seconds below sixty, which together are the seconds.
pub proof fn law_clock_is_the_seconds(n: nat)
    ensures
        exists|m: int, s: int|
            0 <= m && 0 <= s < 60 && m * 60 + s == n && #[trigger] clock(n) == #[trigger] decimal(
                m as nat,
            ) + seq![':'] + #[trigger] two_digits(s as nat),
{
    let m = (n / 60) as int;
    let s = (n % 60) as int;
    assert(clock(n) == decimal(m as nat) + seq![':'] + two_digits(s as nat));
}

/// A rounded quotient is no further from the true one than half; halfway it is even.
pub proof fn law_rounding_is_to_the_nearest(n: int, d: int)
    requires
        0 < d,
    ensures
        -d <= 2 * (nearest(n, d) * d - n) <= d,
        2 * (nearest(n, d) * d - n) == d || 2 * (nearest(n, d) * d - n) == -d ==> nearest(n, d) % 2
            == 0,
{
    vstd::arithmetic::div_mod::lemma_fundamental_div_mod(n, d);
    vstd::arithmetic::div_mod::lemma_mod_bound(n, d);
    let whole = n / d;
    let rest = n % d;
    assert(whole * d == d * whole && (whole + 1) * d == d * whole + d) by (nonlinear_arith);
}

/// A length in seconds is written with two places, to the nearest hundredth; a rate with
/// one, to the nearest tenth.
pub proof fn law_labels_are_rounded(t: int, rate: int)
    requires
        0 <= t,
        0 <= rate,
    ensures
        exists|s: int, h: int|
            0 <= s && 0 <= h < 100 && -10_000_000 <= 2 * ((s * 100 + h) * 10_000_000 - t)
                <= 10_000_000 && #[trigger] seconds_label(t) == #[trigger] decimal(s as nat)
                + seq!['.'] + #[trigger] two_digits(h as nat) + seq!['s'],
        exists|w: int, x: int|
            0 <= w && 0 <= x < 10 && -100 <= 2 * ((w * 10 + x) * 100 - rate) <= 100
                && #[trigger] rate_label(rate) == #[trigger] decimal(w as nat) + seq!['.']
                + #[trigger] decimal(x as nat),
{
    let n = nearest(t, 10_000_000);
    law_rounding_is_to_the_nearest(t, 10_000_000);
    assert(seconds_label(t) == decimal((n / 100) as nat) + seq!['.'] + two_digits((n % 100) as nat)
        + seq!['s']);
    assert((n / 100) * 100 + n % 100 == n);
    let k = nearest(rate, 100);
    law_rounding_is_to_the_nearest(rate, 100);
    assert(rate_label(rate) == decimal((k / 10) as nat) + seq!['.'] + decimal((k % 10) as nat));
    assert((k / 10) * 10 + k % 10 == k);
}

/// A drop is labelled in minutes and in seconds with one place, to the nearest tenth.
pub proof fn law_drop_label_is_rounded(t: int)
    requires
        0 <= t,
    ensures
        exists|m: int, s: int, x: int|
            0 <= m && 0 <= s <= 60 && 0 <= x < 10 && -100_000_000 <= 2 * ((m * 600 + s * 10 + x)
                * 100_000_000 - t) <= 100_000_000 && #[trigger] drop_label(t) == #[trigger] decimal(
                m as nat,
            ) + seq![':'] + #[trigger] two_digits(s as nat) + seq!['.'] + #[trigger] decimal(
                x as nat,
            ),
{
    let minute: int = 60_000_000_000;
    let m = t / minute;
    let rest = t % minute;
    let n = nearest(rest, 100_000_000);
    law_rounding_is_to_the_nearest(rest, 100_000_000);
    let s = n / 10;
    let x = n % 10;
    assert(t == m * minute + rest);
    assert(drop_label(t) == decimal(m as nat) + seq![':'] + two_digits(s as nat) + seq!['.']
        + decimal(x as nat));
    assert(s * 10 + x == n);
}

} // verus!
