//! Pictures in memory: packing rows, letterboxing, and making buffers the expected
//! size.

use vstd::prelude::*;

use crate::media::fit::{fit_dimensions, fitted, law_fitted_fits};

verus! {

/// A picture of `width` by `height` pixels, four bytes each: red, green, blue and
/// opacity, row by row.
#[derive(Debug)]
pub struct RgbaFrame {
    pub width: u32,
    pub height: u32,
    pub pixels: Vec<u8>,
}

/// A decoded picture and when it is shown, in nanoseconds.
#[derive(Debug)]
pub struct DecodedFrame {
    pub pts: i64,
    pub width: u32,
    pub height: u32,
    pub rgba_data: Vec<u8>,
}

/// The bytes of a picture.
pub open spec fn frame_bytes(width: int, height: int) -> int {
    width * height * 4
}

impl RgbaFrame {
    /// The picture has as many bytes as its size asks for.
    pub open spec fn is_whole(self) -> bool {
        self.pixels@.len() == frame_bytes(self.width as int, self.height as int)
    }
}

/// All rows of a picture of `w` by `h` lie within `len` bytes, `stride` bytes apart.
pub open spec fn rows_fit(len: int, stride: int, w: int, h: int) -> bool {
    forall|y: int| 0 <= y < h ==> #[trigger] (y * stride) + w * 4 <= len
}

/// The byte at place `k` of a picture of `tw` by `th` in whose middle a picture of
/// `w` by `h` stands; around it, and in rows that the data does not hold, is 0.
pub open spec fn boxed_byte(
    data: Seq<u8>,
    stride: int,
    w: int,
    h: int,
    tw: int,
    th: int,
    k: int,
) -> u8 {
    let row = k / (tw * 4);
    let col = k % (tw * 4);
    let top = (th - h) / 2;
    let left = (tw - w) / 2 * 4;
    if top <= row < top + h && (row - top) * stride + w * 4 <= data.len() && left <= col < left + w
        * 4 {
        data[(row - top) * stride + (col - left)]
    } else {
        0
    }
}

/// The picture of `w` by `h` in the middle of one of `tw` by `th`.
pub open spec fn boxed(
    data: Seq<u8>,
    stride: int,
    w: int,
    h: int,
    tw: int,
    th: int,
) -> Seq<u8> {
    Seq::new(
        frame_bytes(tw, th) as nat,
        |k: int| boxed_byte(data, stride, w, h, tw, th, k),
    )
}

/// `n` zero bytes.
pub open spec fn zeros(n: int) -> Seq<u8> {
    Seq::new(n as nat, |i: int| 0u8)
}

fn push_zeros(out: &mut Vec<u8>, n: usize)
    ensures
        final(out)@ == old(out)@ + zeros(n as int),
{
    let mut i: usize = 0;
    while i < n
        invariant
            i <= n,
            out@ == old(out)@ + zeros(i as int),
        decreases n - i,
    {
        out.push(0u8);
        i += 1;
        assert(out@ =~= old(out)@ + zeros(i as int));
    }
    assert(old(out)@ + zeros(0) =~= old(out)@);
}

fn push_bytes(out: &mut Vec<u8>, data: &Vec<u8>, from: usize, n: usize)
    requires
        from + n <= data.len(),
    ensures
        final(out)@ == old(out)@ + data@.subrange(from as int, from + n),
{
    let mut i: usize = 0;
    while i < n
        invariant
            i <= n,
            from + n <= data.len(),
            out@ == old(out)@ + data@.subrange(from as int, from + i),
        decreases n - i,
    {
        out.push(data[from + i]);
        i += 1;
        assert(out@ =~= old(out)@ + data@.subrange(from as int, from + i));
    }
    assert(old(out)@ + data@.subrange(from as int, from as int) =~= old(out)@);
}

/// The row that stands at place `y` of the boxed picture.
spec fn boxed_row(data: Seq<u8>, stride: int, w: int, h: int, tw: int, th: int, y: int) -> Seq<
    u8,
> {
    let top = (th - h) / 2;
    let left = (tw - w) / 2;
    if top <= y < top + h && (y - top) * stride + w * 4 <= data.len() {
        let from = (y - top) * stride;
        zeros(left * 4) + data.subrange(from, from + w * 4) + zeros((tw - w - left) * 4)
    } else {
        zeros(tw * 4)
    }
}

proof fn lemma_boxed_row(
    data: Seq<u8>,
    stride: int,
    w: int,
    h: int,
    tw: int,
    th: int,
    y: int,
    c: int,
)
    requires
        0 <= w <= tw,
        0 < tw,
        0 <= h <= th,
        0 <= y < th,
        0 <= c < tw * 4,
        0 <= stride,
    ensures
        boxed_row(data, stride, w, h, tw, th, y).len() == tw * 4,
        boxed_row(data, stride, w, h, tw, th, y)[c] == boxed_byte(
            data,
            stride,
            w,
            h,
            tw,
            th,
            y * (tw * 4) + c,
        ),
{
    let k = y * (tw * 4) + c;
    vstd::arithmetic::div_mod::lemma_fundamental_div_mod_converse(k, tw * 4, y, c);
    let top = (th - h) / 2;
    if top <= y < top + h {
        assert((y - top) * stride >= 0) by (nonlinear_arith)
            requires
                y >= top,
                stride >= 0,
        ;
    }
}

/// Whether all rows of a picture lie within the data.
fn rows_in(len: usize, stride: usize, w: u32, h: u32) -> (r: bool)
    requires
        h * stride + w * 4 <= usize::MAX,
        0 < w,
    ensures
        r == rows_fit(len as int, stride as int, w as int, h as int),
{
    if h == 0 {
        return true;
    }
    proof {
        assert((h - 1) * stride + stride == h * stride) by (nonlinear_arith);
        assert forall|y: int| 0 <= y < h implies #[trigger] (y * stride) <= (h - 1) * stride by {
            assert(y * stride <= (h - 1) * stride) by (nonlinear_arith)
                requires
                    0 <= y <= h - 1,
                    0 <= stride,
            ;
        }
        assert((h - 1) * stride >= 0) by (nonlinear_arith)
            requires
                h >= 1,
        ;
    }
    let end: usize = (h - 1) as usize * stride + w as usize * 4;
    if end <= len {
        true
    } else {
        assert((h - 1) * stride + w * 4 > len);
        false
    }
}

/// Puts a picture of `w` by `h`, whose rows lie `stride` bytes apart in `data`, in
/// the middle of one of `tw` by `th`. Rows that the data does not hold are left out.
#[verifier::spinoff_prover]
fn paint(data: &Vec<u8>, stride: usize, w: u32, h: u32, tw: u32, th: u32) -> (r: RgbaFrame)
    requires
        0 < w <= tw,
        0 < h <= th,
        frame_bytes(tw as int, th as int) <= u32::MAX,
        h * stride + w * 4 <= usize::MAX,
    ensures
        r.width == tw,
        r.height == th,
        r.pixels@ == boxed(
            data@,
            stride as int,
            w as int,
            h as int,
            tw as int,
            th as int,
        ),
        r.is_whole(),
{
    let ghost (sw, sh, stw, sth, ss) = (w as int, h as int, tw as int, th as int, stride as int);
    proof {
        assert(tw * 4 <= frame_bytes(stw, sth)) by (nonlinear_arith)
            requires
                frame_bytes(stw, sth) == stw * sth * 4,
                sth >= 1,
                stw >= 1,
                stw == tw,
        ;
    }
    let top: u32 = (th - h) / 2;
    let left: u32 = (tw - w) / 2;
    let mut out: Vec<u8> = Vec::new();
    let mut y: u32 = 0;
    while y < th
        invariant
            0 < w <= tw,
            0 < h <= th,
            tw * 4 <= u32::MAX,
            (sw, sh, stw, sth, ss) == (w as int, h as int, tw as int, th as int, stride as int),
            top == (th - h) / 2,
            left == (tw - w) / 2,
            h * stride + w * 4 <= usize::MAX,
            y <= th,
            out@.len() == y * (stw * 4),
            forall|k: int|
                0 <= k < out@.len() ==> #[trigger] out@[k] == boxed_byte(
                    data@,
                    ss,
                    sw,
                    sh,
                    stw,
                    sth,
                    k,
                ),
        decreases th - y,
    {
        let ghost before = out@;
        let mut painted = false;
        if y >= top && y < top + h {
            proof {
                let m = y - top;
                assert(m * ss <= h * stride && m * ss >= 0) by (nonlinear_arith)
                    requires
                        0 <= m <= h,
                        ss == stride,
                        0 <= ss,
                ;
            }
            let from: usize = (y - top) as usize * stride;
            if from + w as usize * 4 <= data.len() {
                push_zeros(&mut out, left as usize * 4);
                push_bytes(&mut out, data, from, w as usize * 4);
                push_zeros(&mut out, (tw - w - left) as usize * 4);
                painted = true;
            }
        }
        if !painted {
            push_zeros(&mut out, tw as usize * 4);
        }
        proof {
            let row = boxed_row(data@, ss, sw, sh, stw, sth, y as int);
            assert(out@ =~= before + row);
            lemma_boxed_row(data@, ss, sw, sh, stw, sth, y as int, 0);
            assert((y + 1) * (stw * 4) == y * (stw * 4) + stw * 4) by (nonlinear_arith);
            assert forall|k: int| 0 <= k < out@.len() implies #[trigger] out@[k] == boxed_byte(
                data@,
                ss,
                sw,
                sh,
                stw,
                sth,
                k,
            ) by {
                if k >= before.len() {
                    lemma_boxed_row(data@, ss, sw, sh, stw, sth, y as int, k - before.len());
                } else {
                    assert(out@[k] == before[k]);
                }
            }
        }
        y += 1;
    }
    proof {
        assert(th * (stw * 4) == frame_bytes(stw, sth)) by (nonlinear_arith)
            requires
                frame_bytes(stw, sth) == stw * sth * 4,
                th == sth,
        ;
        assert(out@ =~= boxed(data@, ss, sw, sh, stw, sth));
    }
    RgbaFrame { width: tw, height: th, pixels: out }
}

/// What a scaled picture of `w` by `h` becomes in one of `tw` by `th`.
pub open spec fn is_boxed(
    f: RgbaFrame,
    data: Seq<u8>,
    stride: int,
    w: u32,
    h: u32,
    tw: u32,
    th: u32,
) -> bool {
    &&& f.width == tw
    &&& f.height == th
    &&& f.pixels@ == boxed(data, stride, w as int, h as int, tw as int, th as int)
    &&& f.is_whole()
}

/// Puts a scaled picture in the middle of one of `tw` by `th`. Gives none where a row
/// is missing.
pub fn letterbox(data: &Vec<u8>, stride: usize, w: u32, h: u32, tw: u32, th: u32) -> (r: Option<
    RgbaFrame,
>)
    requires
        0 < w <= tw,
        0 < h <= th,
        frame_bytes(tw as int, th as int) <= u32::MAX,
        h * stride + w * 4 <= usize::MAX,
    ensures
        match r {
            Some(f) => rows_fit(data@.len() as int, stride as int, w as int, h as int) && is_boxed(
                f,
                data@,
                stride as int,
                w,
                h,
                tw,
                th,
            ),
            None => !rows_fit(data@.len() as int, stride as int, w as int, h as int),
        },
{
    if !rows_in(data.len(), stride, w, h) {
        return None;
    }
    Some(paint(data, stride, w, h, tw, th))
}

/// Puts a scaled picture in the middle of one of `tw` by `th`. Where it fills the
/// whole, a missing row means no picture; where it does not, missing rows stay empty.
pub fn letterbox_streamed(
    data: &Vec<u8>,
    stride: usize,
    w: u32,
    h: u32,
    tw: u32,
    th: u32,
) -> (r: Option<RgbaFrame>)
    requires
        0 < w <= tw,
        0 < h <= th,
        frame_bytes(tw as int, th as int) <= u32::MAX,
        h * stride + w * 4 <= usize::MAX,
    ensures
        match r {
            Some(f) => is_boxed(f, data@, stride as int, w, h, tw, th) && (w != tw || h != th
                || rows_fit(data@.len() as int, stride as int, w as int, h as int)),
            None => w == tw && h == th && !rows_fit(
                data@.len() as int,
                stride as int,
                w as int,
                h as int,
            ),
        },
{
    if tw == w && th == h && !rows_in(data.len(), stride, w, h) {
        return None;
    }
    Some(paint(data, stride, w, h, tw, th))
}

/// The size that a picture is to be scaled to; none where there is nothing to scale
/// or nothing to scale to.
pub fn plan_scale(src_w: u32, src_h: u32, tw: u32, th: u32) -> (r: Option<(u32, u32)>)
    ensures
        match r {
            Some((w, h)) => src_w > 0 && src_h > 0 && tw > 0 && th > 0 && (w as int, h as int)
                == fitted(src_w as int, src_h as int, tw as int, th as int) && 0 < w <= tw && 0 < h
                <= th,
            None => src_w == 0 || src_h == 0 || tw == 0 || th == 0,
        },
{
    if src_w == 0 || src_h == 0 {
        return None;
    }
    proof {
        law_fitted_fits(src_w, src_h, tw, th);
    }
    let (w, h) = fit_dimensions(src_w, src_h, tw, th);
    if w == 0 || h == 0 {
        return None;
    }
    Some((w, h))
}

/// What a scaler was made for: source size and pixel format, and target size.
#[derive(Debug, Clone, Copy, PartialEq, Eq, Structural)]
pub struct ScalerKey {
    pub src_w: u32,
    pub src_h: u32,
    pub src_format: u32,
    pub out_width: u32,
    pub out_height: u32,
}

/// Whether a new scaler is needed.
pub fn needs_rebuild(current: Option<ScalerKey>, wanted: ScalerKey) -> (r: bool)
    ensures
        r == (current != Some(wanted)),
{
    match current {
        Some(k) => !(k == wanted),
        None => true,
    }
}

/// The data cut off, or filled up with zeros, at `n` bytes.
pub open spec fn sized(data: Seq<u8>, n: int) -> Seq<u8> {
    if data.len() >= n {
        data.take(n)
    } else {
        data + zeros(n - data.len())
    }
}

/// The data cut off, or filled up with zeros, at `n` bytes.
pub fn fit_bytes(data: &Vec<u8>, n: usize) -> (r: Vec<u8>)
    ensures
        r@ == sized(data@, n as int),
        r@.len() == n,
{
    let mut out: Vec<u8> = Vec::new();
    if data.len() >= n {
        push_bytes(&mut out, data, 0, n);
        assert(out@ =~= data@.take(n as int));
    } else {
        push_bytes(&mut out, data, 0, data.len());
        push_zeros(&mut out, n - data.len());
        assert(out@ =~= data@ + zeros(n - data@.len()));
    }
    out
}

/// The bytes that a picture has; none where that is more than the machine can hold.
pub fn expected_size(w: u32, h: u32) -> (r: Option<usize>)
    ensures
        match r {
            Some(n) => n == frame_bytes(w as int, h as int),
            None => frame_bytes(w as int, h as int) > usize::MAX,
        },
{
    proof {
        assert(0 <= w * h <= 0xffff_ffff * 0xffff_ffff) by (nonlinear_arith)
            requires
                0 <= w <= 0xffff_ffff,
                0 <= h <= 0xffff_ffff,
        ;
    }
    let n: u128 = w as u128 * h as u128 * 4;
    if n <= usize::MAX as u128 {
        Some(n as usize)
    } else {
        None
    }
}

/// Makes a decoded picture of what a sink handed over, cut or filled to its size.
pub fn frame_from_sink(pts: i64, w: u32, h: u32, data: &Vec<u8>) -> (r: DecodedFrame)
    requires
        frame_bytes(w as int, h as int) <= usize::MAX,
    ensures
        r.pts == pts,
        r.width == w,
        r.height == h,
        r.rgba_data@ == sized(data@, frame_bytes(w as int, h as int)),
{
    let n: usize = match expected_size(w, h) {
        Some(n) => n,
        None => 0,
    };
    DecodedFrame { pts, width: w, height: h, rgba_data: fit_bytes(data, n) }
}

/// A picture that is already the wanted size, with no gaps between its rows, comes
/// out as it is.
pub proof fn law_letterbox_same_size(data: Seq<u8>, w: int, h: int)
    requires
        0 < w,
        0 < h,
        data.len() == frame_bytes(w, h),
    ensures
        boxed(data, w * 4, w, h, w, h) == data,
{
    let b = boxed(data, w * 4, w, h, w, h);
    assert forall|k: int| 0 <= k < data.len() implies #[trigger] b[k] == data[k] by {
        let row = k / (w * 4);
        let col = k % (w * 4);
        vstd::arithmetic::div_mod::lemma_fundamental_div_mod(k, w * 4);
        assert(row * (w * 4) == (w * 4) * row) by (nonlinear_arith);
        assert(0 <= row < h) by (nonlinear_arith)
            requires
                0 <= k < w * h * 4,
                0 < w,
                0 < h,
                k == (w * 4) * row + col,
                0 <= col < w * 4,
        ;
        assert(row * (w * 4) + w * 4 <= data.len()) by (nonlinear_arith)
            requires
                0 <= row < h,
                data.len() == w * h * 4,
                0 < w,
        ;
    }
    assert(b =~= data);
}

/// A picture is put in the middle of a larger one: each of its pixels stands as far from
/// its top and its left as it did, below and right of a margin of half of what is over,
/// and all around it is black.
pub proof fn law_picture_stands_in_the_middle(
    data: Seq<u8>,
    stride: int,
    w: int,
    h: int,
    tw: int,
    th: int,
    x: int,
    y: int,
    c: int,
)
    requires
        0 < w <= tw,
        0 < h <= th,
        w * 4 <= stride,
        data.len() >= stride * h,
        0 <= x < tw,
        0 <= y < th,
        0 <= c < 4,
    ensures
        ({
            let top = (th - h) / 2;
            let left = (tw - w) / 2;
            let k = (y * tw + x) * 4 + c;
            let r = boxed(data, stride, w, h, tw, th);
            &&& 0 <= k < r.len()
            &&& top <= y < top + h && left <= x < left + w ==> r[k] == data[(y - top) * stride + (x
                - left) * 4 + c]
            &&& !(top <= y < top + h && left <= x < left + w) ==> r[k] == 0
        }),
{
    let top = (th - h) / 2;
    let left = (tw - w) / 2;
    let k = (y * tw + x) * 4 + c;
    let row = tw * 4;
    let col = x * 4 + c;
    assert(k == row * y + col) by (nonlinear_arith)
        requires
            k == (y * tw + x) * 4 + c,
            row == tw * 4,
            col == x * 4 + c,
    ;
    assert(row * y == y * row) by (nonlinear_arith);
    vstd::arithmetic::div_mod::lemma_fundamental_div_mod_converse(k, row, y, col);
    assert(frame_bytes(tw, th) == row * th) by (nonlinear_arith)
        requires
            row == tw * 4,
            frame_bytes(tw, th) == tw * th * 4,
    ;
    assert(row * y + row <= row * th) by (nonlinear_arith)
        requires
            y + 1 <= th,
            0 < row,
    ;
    assert(0 <= row * y) by (nonlinear_arith)
        requires
            0 <= y,
            0 < row,
    ;
    if top <= y < top + h {
        assert((y - top) * stride + stride <= stride * h) by (nonlinear_arith)
            requires
                y - top + 1 <= h,
                0 < stride,
        ;
    }
}

/// A buffer that is made the expected size keeps what there is room for, from the
/// beginning, and is black behind it.
pub proof fn law_sized_buffer_keeps_its_beginning(data: Seq<u8>, n: int, i: int)
    requires
        0 <= i < n,
    ensures
        sized(data, n).len() == n,
        i < data.len() ==> sized(data, n)[i] == data[i],
        i >= data.len() ==> sized(data, n)[i] == 0,
        data.len() == n ==> sized(data, n) == data,
{
    if data.len() == n {
        assert(sized(data, n) =~= data);
    }
}

} // verus!
