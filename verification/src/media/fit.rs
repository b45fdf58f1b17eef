//! How large a picture is made to fit a given size.

use vstd::prelude::*;

verus! {

/// `n / d` rounded to the nearest whole number, halves up.
pub open spec fn rounded(n: int, d: int) -> int {
    (2 * n + d) / (2 * d)
}

/// The largest even number up to `n`, and at least 2.
pub open spec fn even_from(n: int) -> int {
    if n < 2 {
        2
    } else {
        n - n % 2
    }
}

/// The smaller of two numbers.
pub open spec fn lesser(a: int, b: int) -> int {
    if a <= b {
        a
    } else {
        b
    }
}

/// The width and height that a picture is scaled to: as large as fits, in
/// proportion, in even numbers.
pub open spec fn fitted(src_w: int, src_h: int, max_w: int, max_h: int) -> (int, int) {
    if src_w == 0 || src_h == 0 {
        (max_w, max_h)
    } else if max_w * src_h <= max_h * src_w {
        (
            lesser(even_from(max_w), max_w),
            lesser(even_from(rounded(src_h * max_w, src_w)), max_h),
        )
    } else {
        (
            lesser(even_from(rounded(src_w * max_h, src_h)), max_w),
            lesser(even_from(max_h), max_h),
        )
    }
}

proof fn lemma_product(a: u32, b: u32)
    ensures
        0 <= a * b <= 0xffff_fffe_0000_0001,
{
    assert(0 <= a * b <= 0xffff_ffff * 0xffff_ffff) by (nonlinear_arith)
        requires
            0 <= a <= 0xffff_ffff,
            0 <= b <= 0xffff_ffff,
    ;
}

/// A side that is scaled by no more than `limit / other_src` comes out no larger than
/// `limit`.
proof fn lemma_rounded_within(n: int, d: int, limit: int)
    requires
        0 < d,
        0 <= n <= limit * d,
    ensures
        0 <= rounded(n, d) <= limit,
{
    assert((2 * n + d) / (2 * d) <= limit && (2 * n + d) / (2 * d) >= 0) by (nonlinear_arith)
        requires
            0 < d,
            0 <= n <= limit * d,
    ;
}

fn even_from_exec(n: u32) -> (r: u32)
    ensures
        r == even_from(n as int),
{
    if n < 2 {
        2
    } else {
        n - n % 2
    }
}

fn smaller(a: u32, b: u32) -> (r: u32)
    ensures
        r == lesser(a as int, b as int),
{
    if a <= b {
        a
    } else {
        b
    }
}

fn scaled_side(src: u32, max: u32, other_src: u32, limit: u32) -> (r: u32)
    requires
        other_src > 0,
        src * max <= limit * other_src,
    ensures
        r == rounded(src * max, other_src as int),
        r <= limit,
{
    proof {
        lemma_product(src, max);
        lemma_rounded_within(src * max, other_src as int, limit as int);
    }
    let n: u128 = src as u128 * max as u128;
    let d: u128 = other_src as u128;
    ((2 * n + d) / (2 * d)) as u32
}

/// The width and height that a picture is scaled to so that it fits.
pub fn fit_dimensions(src_w: u32, src_h: u32, max_w: u32, max_h: u32) -> (r: (u32, u32))
    ensures
        r.0 == fitted(src_w as int, src_h as int, max_w as int, max_h as int).0,
        r.1 == fitted(src_w as int, src_h as int, max_w as int, max_h as int).1,
{
    if src_w == 0 || src_h == 0 {
        return (max_w, max_h);
    }
    proof {
        lemma_product(max_w, src_h);
        lemma_product(max_h, src_w);
        assert(src_h * max_w == max_w * src_h) by (nonlinear_arith);
        assert(src_w * max_h == max_h * src_w) by (nonlinear_arith);
    }
    if max_w as u64 * src_h as u64 <= max_h as u64 * src_w as u64 {
        let h: u32 = scaled_side(src_h, max_w, src_w, max_h);
        (smaller(even_from_exec(max_w), max_w), smaller(even_from_exec(h), max_h))
    } else {
        let w: u32 = scaled_side(src_w, max_h, src_h, max_w);
        (smaller(even_from_exec(w), max_w), smaller(even_from_exec(max_h), max_h))
    }
}

/// A fitted picture is never larger than asked for, is empty only where nothing was
/// asked for, and has even sides wherever two pixels fit.
pub proof fn law_fitted_fits(src_w: u32, src_h: u32, max_w: u32, max_h: u32)
    ensures
        ({
            let (w, h) = fitted(src_w as int, src_h as int, max_w as int, max_h as int);
            &&& 0 <= w <= max_w
            &&& 0 <= h <= max_h
            &&& max_w > 0 ==> w > 0
            &&& max_h > 0 ==> h > 0
            &&& src_w > 0 && src_h > 0 && max_w >= 2 && max_h >= 2 ==> w % 2 == 0 && h % 2 == 0
        }),
{
    if src_w > 0 && src_h > 0 {
        assert(src_h * max_w == max_w * src_h) by (nonlinear_arith);
        assert(src_w * max_h == max_h * src_w) by (nonlinear_arith);
        lemma_product(max_w, src_h);
        lemma_product(max_h, src_w);
        if max_w * src_h <= max_h * src_w {
            lemma_rounded_within(src_h * max_w, src_w as int, max_h as int);
        } else {
            lemma_rounded_within(src_w * max_h, src_h as int, max_w as int);
        }
    }
}

/// A picture is fitted with its proportions: the side that limits it is as long as it may
/// be, but for one where that is odd, and the other is what the proportions make it, to
/// within two.
pub proof fn law_fitted_keeps_proportions(src_w: int, src_h: int, max_w: int, max_h: int)
    requires
        0 < src_w,
        0 < src_h,
        2 <= max_w,
        2 <= max_h,
    ensures
        ({
            let (w, h) = fitted(src_w, src_h, max_w, max_h);
            &&& max_w * src_h <= max_h * src_w ==> {
                &&& max_w - 1 <= w <= max_w
                &&& -2 * src_w <= h * src_w - src_h * max_w <= 2 * src_w
            }
            &&& max_w * src_h > max_h * src_w ==> {
                &&& max_h - 1 <= h <= max_h
                &&& -2 * src_h <= w * src_h - src_w * max_h <= 2 * src_h
            }
        }),
{
    if max_w * src_h <= max_h * src_w {
        lemma_side(src_h * max_w, src_w, max_h);
        assert(src_h * max_w == max_w * src_h) by (nonlinear_arith);
    } else {
        assert(src_w * max_h <= max_w * src_h) by (nonlinear_arith)
            requires
                max_w * src_h > max_h * src_w,
        ;
        lemma_side(src_w * max_h, src_h, max_w);
    }
}

proof fn lemma_side(n: int, d: int, most: int)
    requires
        0 < d,
        0 <= n,
        2 <= most,
        n <= most * d,
    ensures
        ({
            let r = lesser(even_from(rounded(n, d)), most);
            -2 * d <= r * d - n <= 2 * d
        }),
{
    let q = rounded(n, d);
    let a = 2 * n + d;
    vstd::arithmetic::div_mod::lemma_fundamental_div_mod(a, 2 * d);
    vstd::arithmetic::div_mod::lemma_mod_bound(a, 2 * d);
    let rest = a % (2 * d);
    assert(2 * d * q == 2 * (q * d)) by (nonlinear_arith);
    assert(q <= most) by (nonlinear_arith)
        requires
            2 * n + d == 2 * (q * d) + rest,
            0 <= rest,
            n <= most * d,
            0 < d,
    ;
    let r = lesser(even_from(q), most);
    if q >= 2 {
        assert(r == q || r == q - 1);
        assert((q - 1) * d == q * d - d) by (nonlinear_arith);
    } else {
        assert(r == 2);
        assert(q * d <= d) by (nonlinear_arith)
            requires
                q <= 1,
                0 < d,
        ;
    }
}

} // verus!
