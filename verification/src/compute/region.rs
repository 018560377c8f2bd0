//! Rectangular regions of interleaved images: copying one out, writing one
//! back, and shifting a whole image by a whole number of pixels.
//!
//! The element type is left generic: these operations only move samples.
use vstd::prelude::*;

use crate::ai::preprocess::normalize::{hwc_at, lemma_hwc_bound, lemma_hwc_onto, lemma_hwc_unique};

verus! {

/// Whether (`x`, `y`) lies in the `w` by `h` rectangle at (`x0`, `y0`).
pub open spec fn in_rect(x0: int, y0: int, w: int, h: int, x: int, y: int) -> bool {
    x0 <= x < x0 + w && y0 <= y < y0 + h
}

/// `out` is the `rw` by `rh` region at (`x0`, `y0`) of the `img_w`-wide image `src`.
pub open spec fn is_region_of<T>(
    out: Seq<T>,
    src: Seq<T>,
    img_w: int,
    ch: int,
    x0: int,
    y0: int,
    rw: int,
    rh: int,
) -> bool {
    &&& out.len() == rh * rw * ch
    &&& forall|y: int, x: int, c: int|
        #![trigger hwc_at(rw, ch, y, x, c)]
        0 <= y < rh && 0 <= x < rw && 0 <= c < ch ==> out[hwc_at(rw, ch, y, x, c)] == src[hwc_at(
            img_w,
            ch,
            y0 + y,
            x0 + x,
            c,
        )]
}

proof fn lemma_bound_in_image(img_w: int, img_h: int, ch: int, x0: int, y0: int, y: int, x: int, c: int)
    requires
        0 <= x0,
        0 <= y0,
        0 <= y,
        0 <= x,
        0 <= c < ch,
        x0 + x < img_w,
        y0 + y < img_h,
    ensures
        0 <= hwc_at(img_w, ch, y0 + y, x0 + x, c) < img_h * img_w * ch,
{
    lemma_hwc_bound(img_h, img_w, ch, y0 + y, x0 + x, c);
}

/// Copies the `rw` by `rh` region at (`x0`, `y0`) out of an `img_w` by `img_h`
/// image with `ch` samples per pixel.
pub fn extract_region<T: Copy>(
    pixels: &[T],
    img_w: usize,
    img_h: usize,
    ch: usize,
    x0: usize,
    y0: usize,
    rw: usize,
    rh: usize,
) -> (out: Vec<T>)
    requires
        pixels@.len() >= img_h * img_w * ch,
        img_w * img_h <= usize::MAX,
        x0 + rw <= img_w,
        y0 + rh <= img_h,
    ensures
        is_region_of(out@, pixels@, img_w as int, ch as int, x0 as int, y0 as int, rw as int, rh as int),
{
    let ghost src = pixels@;
    let ghost wi = rw as int;
    let ghost chi = ch as int;
    let mut out: Vec<T> = Vec::new();
    let mut y: usize = 0;
    while y < rh
        invariant
            src == pixels@,
            wi == rw,
            chi == ch,
            pixels@.len() >= img_h * img_w * ch,
            img_w * img_h <= usize::MAX,
            x0 + rw <= img_w,
            y0 + rh <= img_h,
            y <= rh,
            out@.len() == y * wi * chi,
            forall|y1: int, x1: int, c1: int|
                #![trigger hwc_at(wi, chi, y1, x1, c1)]
                0 <= y1 < rh && 0 <= x1 < rw && 0 <= c1 < ch && hwc_at(wi, chi, y1, x1, c1) < out@.len()
                    ==> out@[hwc_at(wi, chi, y1, x1, c1)] == src[hwc_at(
                    img_w as int,
                    chi,
                    y0 + y1,
                    x0 + x1,
                    c1,
                )],
        decreases rh - y,
    {
        let mut x: usize = 0;
        while x < rw
            invariant
                src == pixels@,
                wi == rw,
                chi == ch,
                pixels@.len() >= img_h * img_w * ch,
                img_w * img_h <= usize::MAX,
                x0 + rw <= img_w,
                y0 + rh <= img_h,
                y < rh,
                x <= rw,
                out@.len() == (y * wi + x) * chi,
                forall|y1: int, x1: int, c1: int|
                    #![trigger hwc_at(wi, chi, y1, x1, c1)]
                    0 <= y1 < rh && 0 <= x1 < rw && 0 <= c1 < ch && hwc_at(wi, chi, y1, x1, c1) < out@.len()
                        ==> out@[hwc_at(wi, chi, y1, x1, c1)] == src[hwc_at(
                        img_w as int,
                        chi,
                        y0 + y1,
                        x0 + x1,
                        c1,
                    )],
            decreases rw - x,
        {
            let mut c: usize = 0;
            while c < ch
                invariant
                    src == pixels@,
                    wi == rw,
                    chi == ch,
                    pixels@.len() >= img_h * img_w * ch,
                    img_w * img_h <= usize::MAX,
                    x0 + rw <= img_w,
                    y0 + rh <= img_h,
                    y < rh,
                    x < rw,
                    c <= ch,
                    out@.len() == (y * wi + x) * chi + c,
                    forall|y1: int, x1: int, c1: int|
                        #![trigger hwc_at(wi, chi, y1, x1, c1)]
                        0 <= y1 < rh && 0 <= x1 < rw && 0 <= c1 < ch && hwc_at(wi, chi, y1, x1, c1) < out@.len()
                            ==> out@[hwc_at(wi, chi, y1, x1, c1)] == src[hwc_at(
                            img_w as int,
                            chi,
                            y0 + y1,
                            x0 + x1,
                            c1,
                        )],
                decreases ch - c,
            {
                proof {
                    lemma_bound_in_image(
                        img_w as int,
                        img_h as int,
                        chi,
                        x0 as int,
                        y0 as int,
                        y as int,
                        x as int,
                        c as int,
                    );
                    assert(pixels@.len() == pixels.len());
                    assert((y0 + y) * img_w + (x0 + x) < img_h * img_w) by (nonlinear_arith)
                        requires
                            y0 + y < img_h,
                            x0 + x < img_w,
                    ;
                    assert(img_h * img_w == img_w * img_h) by (nonlinear_arith);
                }
                let v = pixels[((y0 + y) * img_w + (x0 + x)) * ch + c];
                let ghost before = out@;
                out.push(v);
                proof {
                    assert forall|y1: int, x1: int, c1: int|
                        #![trigger hwc_at(wi, chi, y1, x1, c1)]
                        0 <= y1 < rh && 0 <= x1 < rw && 0 <= c1 < ch && hwc_at(wi, chi, y1, x1, c1) < out@.len()
                            implies out@[hwc_at(wi, chi, y1, x1, c1)] == src[hwc_at(
                            img_w as int,
                            chi,
                            y0 + y1,
                            x0 + x1,
                            c1,
                        )] by {
                        if hwc_at(wi, chi, y1, x1, c1) == before.len() {
                            lemma_hwc_unique(wi, chi, y1, x1, c1, y as int, x as int, c as int);
                        } else {
                            assert(out@[hwc_at(wi, chi, y1, x1, c1)] == before[hwc_at(wi, chi, y1, x1, c1)]);
                        }
                    }
                }
                c = c + 1;
            }
            assert((y * wi + x) * chi + chi == (y * wi + x + 1) * chi) by (nonlinear_arith);
            x = x + 1;
        }
        assert((y * wi + wi) * chi == (y + 1) * wi * chi) by (nonlinear_arith);
        y = y + 1;
    }
    proof {
        assert forall|y1: int, x1: int, c1: int|
            #![trigger hwc_at(wi, chi, y1, x1, c1)]
            0 <= y1 < rh && 0 <= x1 < rw && 0 <= c1 < ch implies out@[hwc_at(wi, chi, y1, x1, c1)] == src[hwc_at(
                img_w as int,
                chi,
                y0 + y1,
                x0 + x1,
                c1,
            )] by {
            lemma_hwc_bound(rh as int, wi, chi, y1, x1, c1);
        }
        assert(out@.len() == rh * rw * ch) by (nonlinear_arith)
            requires
                out@.len() == rh * wi * chi,
                wi == rw,
                chi == ch,
        ;
    }
    out
}

/// The sample at (`y`, `x`, `c`) of the image shifted right by `dx` and down by
/// `dy`: the source sample it came from, or `fill` where it came from outside.
pub open spec fn shifted_sample<T>(src: Seq<T>, w: int, h: int, ch: int, dx: int, dy: int, fill: T, y: int, x: int, c: int) -> T {
    if 0 <= x - dx < w && 0 <= y - dy < h {
        src[hwc_at(w, ch, y - dy, x - dx, c)]
    } else {
        fill
    }
}

/// `out` is the `w` by `h` image `src` shifted by (`dx`, `dy`), uncovered samples set to `fill`.
pub open spec fn is_shift_of<T>(out: Seq<T>, src: Seq<T>, w: int, h: int, ch: int, dx: int, dy: int, fill: T) -> bool {
    &&& out.len() == h * w * ch
    &&& forall|y: int, x: int, c: int|
        #![trigger hwc_at(w, ch, y, x, c)]
        0 <= y < h && 0 <= x < w && 0 <= c < ch ==> out[hwc_at(w, ch, y, x, c)] == shifted_sample(
            src,
            w,
            h,
            ch,
            dx,
            dy,
            fill,
            y,
            x,
            c,
        )
}

fn copy_all<T: Copy>(pixels: &[T]) -> (out: Vec<T>)
    ensures
        out@ == pixels@,
{
    let mut out: Vec<T> = Vec::new();
    let mut i: usize = 0;
    while i < pixels.len()
        invariant
            i <= pixels@.len(),
            out@ == pixels@.take(i as int),
        decreases pixels@.len() - i,
    {
        out.push(pixels[i]);
        assert(pixels@.take(i + 1) =~= pixels@.take(i as int).push(pixels@[i as int]));
        i = i + 1;
    }
    assert(pixels@.take(pixels@.len() as int) =~= pixels@);
    out
}

/// Shifts a `w` by `h` image by whole pixels, `dx` to the right and `dy` down;
/// samples shifted in from outside are `fill`. A zero shift copies the buffer as is.
pub fn translate_pixels<T: Copy>(pixels: &[T], w: usize, h: usize, ch: usize, dx: isize, dy: isize, fill: T) -> (out: Vec<T>)
    requires
        dx != 0 || dy != 0 ==> pixels@.len() >= h * w * ch && w * h <= usize::MAX,
    ensures
        dx == 0 && dy == 0 ==> out@ == pixels@,
        !(dx == 0 && dy == 0) ==> is_shift_of(out@, pixels@, w as int, h as int, ch as int, dx as int, dy as int, fill),
{
    if dx == 0 && dy == 0 {
        return copy_all(pixels);
    }
    let ghost src = pixels@;
    let ghost wi = w as int;
    let ghost hi = h as int;
    let ghost chi = ch as int;
    let mut out: Vec<T> = Vec::new();
    let mut y: usize = 0;
    assert(0 * wi * chi == 0) by (nonlinear_arith);
    while y < h
        invariant
            src == pixels@,
            wi == w,
            hi == h,
            chi == ch,
            pixels@.len() >= h * w * ch,
            w * h <= usize::MAX,
            y <= h,
            out@.len() == y * wi * chi,
            forall|y1: int, x1: int, c1: int|
                #![trigger hwc_at(wi, chi, y1, x1, c1)]
                0 <= y1 < h && 0 <= x1 < w && 0 <= c1 < ch && hwc_at(wi, chi, y1, x1, c1) < out@.len()
                    ==> out@[hwc_at(wi, chi, y1, x1, c1)] == shifted_sample(src, wi, hi, chi, dx as int, dy as int, fill, y1, x1, c1),
        decreases h - y,
    {
        let mut x: usize = 0;
        while x < w
            invariant
                src == pixels@,
                wi == w,
                hi == h,
                chi == ch,
                pixels@.len() >= h * w * ch,
                w * h <= usize::MAX,
                y < h,
                x <= w,
                out@.len() == (y * wi + x) * chi,
                forall|y1: int, x1: int, c1: int|
                    #![trigger hwc_at(wi, chi, y1, x1, c1)]
                    0 <= y1 < h && 0 <= x1 < w && 0 <= c1 < ch && hwc_at(wi, chi, y1, x1, c1) < out@.len()
                        ==> out@[hwc_at(wi, chi, y1, x1, c1)] == shifted_sample(src, wi, hi, chi, dx as int, dy as int, fill, y1, x1, c1),
            decreases w - x,
        {
            let sx: i128 = x as i128 - dx as i128;
            let sy: i128 = y as i128 - dy as i128;
            let inside = sx >= 0 && sy >= 0 && sx < w as i128 && sy < h as i128;
            let mut c: usize = 0;
            while c < ch
                invariant
                    src == pixels@,
                    wi == w,
                    hi == h,
                    chi == ch,
                    pixels@.len() >= h * w * ch,
                    w * h <= usize::MAX,
                    y < h,
                    x < w,
                    c <= ch,
                    sx == x - dx,
                    sy == y - dy,
                    inside == (0 <= sx < w && 0 <= sy < h),
                    out@.len() == (y * wi + x) * chi + c,
                    forall|y1: int, x1: int, c1: int|
                        #![trigger hwc_at(wi, chi, y1, x1, c1)]
                        0 <= y1 < h && 0 <= x1 < w && 0 <= c1 < ch && hwc_at(wi, chi, y1, x1, c1) < out@.len()
                            ==> out@[hwc_at(wi, chi, y1, x1, c1)] == shifted_sample(src, wi, hi, chi, dx as int, dy as int, fill, y1, x1, c1),
                decreases ch - c,
            {
                let v = if inside {
                    let sxu = sx as usize;
                    let syu = sy as usize;
                    proof {
                        lemma_hwc_bound(hi, wi, chi, syu as int, sxu as int, c as int);
                        assert(pixels@.len() == pixels.len());
                        assert(syu * w + sxu < h * w) by (nonlinear_arith)
                            requires
                                syu < h,
                                sxu < w,
                        ;
                        assert(h * w == w * h) by (nonlinear_arith);
                    }
                    pixels[(syu * w + sxu) * ch + c]
                } else {
                    fill
                };
                let ghost before = out@;
                out.push(v);
                proof {
                    assert forall|y1: int, x1: int, c1: int|
                        #![trigger hwc_at(wi, chi, y1, x1, c1)]
                        0 <= y1 < h && 0 <= x1 < w && 0 <= c1 < ch && hwc_at(wi, chi, y1, x1, c1) < out@.len()
                            implies out@[hwc_at(wi, chi, y1, x1, c1)] == shifted_sample(src, wi, hi, chi, dx as int, dy as int, fill, y1, x1, c1) by {
                        if hwc_at(wi, chi, y1, x1, c1) == before.len() {
                            lemma_hwc_unique(wi, chi, y1, x1, c1, y as int, x as int, c as int);
                        } else {
                            assert(out@[hwc_at(wi, chi, y1, x1, c1)] == before[hwc_at(wi, chi, y1, x1, c1)]);
                        }
                    }
                }
                c = c + 1;
            }
            assert((y * wi + x) * chi + chi == (y * wi + x + 1) * chi) by (nonlinear_arith);
            x = x + 1;
        }
        assert((y * wi + wi) * chi == (y + 1) * wi * chi) by (nonlinear_arith);
        y = y + 1;
    }
    proof {
        assert forall|y1: int, x1: int, c1: int|
            #![trigger hwc_at(wi, chi, y1, x1, c1)]
            0 <= y1 < h && 0 <= x1 < w && 0 <= c1 < ch implies out@[hwc_at(wi, chi, y1, x1, c1)] == shifted_sample(src, wi, hi, chi, dx as int, dy as int, fill, y1, x1, c1) by {
            lemma_hwc_bound(hi, wi, chi, y1, x1, c1);
        }
        assert(out@.len() == h * w * ch) by (nonlinear_arith)
            requires
                out@.len() == hi * wi * chi,
                wi == w,
                hi == h,
                chi == ch,
        ;
    }
    out
}

/// The row of the pixel that sample position `i` belongs to.
pub open spec fn row_of(i: int, img_w: int, ch: int) -> int {
    (i / ch) / img_w
}

/// The column of the pixel that sample position `i` belongs to.
pub open spec fn col_of(i: int, img_w: int, ch: int) -> int {
    (i / ch) % img_w
}

/// The channel of sample position `i`.
pub open spec fn channel_of(i: int, ch: int) -> int {
    i % ch
}

/// Position `i` of an `img_w` by `img_h` image is a sample of the `rw` by `rh`
/// rectangle at (`x0`, `y0`).
pub open spec fn in_region(i: int, img_w: int, img_h: int, ch: int, x0: int, y0: int, rw: int, rh: int) -> bool {
    &&& 0 <= i < img_h * img_w * ch
    &&& in_rect(x0, y0, rw, rh, col_of(i, img_w, ch), row_of(i, img_w, ch))
}

/// The sample of `region` that belongs at position `i` of the image.
pub open spec fn region_sample<T>(region: Seq<T>, i: int, img_w: int, ch: int, x0: int, y0: int, rw: int) -> T {
    region[hwc_at(rw, ch, row_of(i, img_w, ch) - y0, col_of(i, img_w, ch) - x0, channel_of(i, ch))]
}

/// Decomposing the position of a sample gives the sample back.
proof fn lemma_position_decomposes(img_w: int, img_h: int, ch: int, y: int, x: int, c: int)
    requires
        0 <= y < img_h,
        0 <= x < img_w,
        0 <= c < ch,
    ensures
        row_of(hwc_at(img_w, ch, y, x, c), img_w, ch) == y,
        col_of(hwc_at(img_w, ch, y, x, c), img_w, ch) == x,
        channel_of(hwc_at(img_w, ch, y, x, c), ch) == c,
{
    let i = hwc_at(img_w, ch, y, x, c);
    lemma_hwc_bound(img_h, img_w, ch, y, x, c);
    lemma_hwc_onto(img_h, img_w, ch, i);
    lemma_hwc_unique(img_w, ch, (i / ch) / img_w, (i / ch) % img_w, i % ch, y, x, c);
}

/// Writing back a region just copied out of an image changes nothing: every
/// position takes the value it already had.
pub proof fn lemma_region_write_back<T>(
    src: Seq<T>,
    out: Seq<T>,
    img_w: int,
    img_h: int,
    ch: int,
    x0: int,
    y0: int,
    rw: int,
    rh: int,
)
    requires
        0 <= x0,
        0 <= y0,
        0 <= rw,
        0 <= rh,
        x0 + rw <= img_w,
        y0 + rh <= img_h,
        0 <= ch,
        is_region_of(out, src, img_w, ch, x0, y0, rw, rh),
    ensures
        forall|i: int|
            0 <= i < src.len() ==> (if in_region(i, img_w, img_h, ch, x0, y0, rw, rh) {
                #[trigger] region_sample(out, i, img_w, ch, x0, y0, rw)
            } else {
                src[i]
            }) == src[i],
{
    assert forall|i: int| 0 <= i < src.len() implies (if in_region(i, img_w, img_h, ch, x0, y0, rw, rh) {
        #[trigger] region_sample(out, i, img_w, ch, x0, y0, rw)
    } else {
        src[i]
    }) == src[i] by {
        if in_region(i, img_w, img_h, ch, x0, y0, rw, rh) {
            lemma_hwc_onto(img_h, img_w, ch, i);
            let yy = row_of(i, img_w, ch) - y0;
            let xx = col_of(i, img_w, ch) - x0;
            let cc = channel_of(i, ch);
            assert(out[hwc_at(rw, ch, yy, xx, cc)] == src[hwc_at(img_w, ch, y0 + yy, x0 + xx, cc)]);
        }
    }
}

/// Writes the `rw` by `rh` region `region` into the image at (`x0`, `y0`): every
/// sample of the rectangle takes the region's sample, every other position keeps
/// its value.
pub fn write_region<T: Copy>(
    dst: &mut Vec<T>,
    img_w: usize,
    img_h: usize,
    ch: usize,
    x0: usize,
    y0: usize,
    rw: usize,
    rh: usize,
    region: &[T],
)
    requires
        old(dst)@.len() >= img_h * img_w * ch,
        img_w * img_h <= usize::MAX,
        x0 + rw <= img_w,
        y0 + rh <= img_h,
        region@.len() >= rh * rw * ch,
        rh * rw <= usize::MAX,
    ensures
        final(dst)@.len() == old(dst)@.len(),
        forall|i: int|
            0 <= i < old(dst)@.len() ==> #[trigger] final(dst)@[i] == if in_region(
                i,
                img_w as int,
                img_h as int,
                ch as int,
                x0 as int,
                y0 as int,
                rw as int,
                rh as int,
            ) {
                region_sample(region@, i, img_w as int, ch as int, x0 as int, y0 as int, rw as int)
            } else {
                old(dst)@[i]
            },
{
    let ghost iw = img_w as int;
    let ghost ih = img_h as int;
    let ghost chi = ch as int;
    let ghost orig = dst@;
    let ghost n = rw as int * chi;
    let mut y: usize = 0;
    while y < rh
        invariant
            iw == img_w,
            ih == img_h,
            chi == ch,
            n == rw * ch,
            orig == old(dst)@,
            dst@.len() == orig.len(),
            orig.len() >= img_h * img_w * ch,
            img_w * img_h <= usize::MAX,
            x0 + rw <= img_w,
            y0 + rh <= img_h,
            region@.len() >= rh * rw * ch,
            rh * rw <= usize::MAX,
            y <= rh,
            forall|i: int|
                0 <= i < orig.len() ==> #[trigger] dst@[i] == if in_region(i, iw, ih, chi, x0 as int, y0 as int, rw as int, rh as int)
                    && hwc_at(rw as int, chi, row_of(i, iw, chi) - y0, col_of(i, iw, chi) - x0, channel_of(i, chi))
                    < y * n {
                    region_sample(region@, i, iw, chi, x0 as int, y0 as int, rw as int)
                } else {
                    orig[i]
                },
        decreases rh - y,
    {
        assert(y * n == (y * rw + 0) * chi) by (nonlinear_arith)
            requires
                n == rw * chi,
        ;
        let mut x: usize = 0;
        while x < rw
            invariant
                iw == img_w,
                ih == img_h,
                chi == ch,
                n == rw * ch,
                orig == old(dst)@,
                dst@.len() == orig.len(),
                orig.len() >= img_h * img_w * ch,
                img_w * img_h <= usize::MAX,
                x0 + rw <= img_w,
                y0 + rh <= img_h,
                region@.len() >= rh * rw * ch,
                rh * rw <= usize::MAX,
                y < rh,
                x <= rw,
                forall|i: int|
                    0 <= i < orig.len() ==> #[trigger] dst@[i] == if in_region(i, iw, ih, chi, x0 as int, y0 as int, rw as int, rh as int)
                        && hwc_at(rw as int, chi, row_of(i, iw, chi) - y0, col_of(i, iw, chi) - x0, channel_of(i, chi))
                        < (y * rw + x) * chi {
                        region_sample(region@, i, iw, chi, x0 as int, y0 as int, rw as int)
                    } else {
                        orig[i]
                    },
            decreases rw - x,
        {
            let mut c: usize = 0;
            while c < ch
                invariant
                    iw == img_w,
                    ih == img_h,
                    chi == ch,
                    n == rw * ch,
                    orig == old(dst)@,
                    dst@.len() == orig.len(),
                    orig.len() >= img_h * img_w * ch,
                    img_w * img_h <= usize::MAX,
                    x0 + rw <= img_w,
                    y0 + rh <= img_h,
                    region@.len() >= rh * rw * ch,
                    rh * rw <= usize::MAX,
                    y < rh,
                    x < rw,
                    c <= ch,
                    forall|i: int|
                        0 <= i < orig.len() ==> #[trigger] dst@[i] == if in_region(i, iw, ih, chi, x0 as int, y0 as int, rw as int, rh as int)
                            && hwc_at(rw as int, chi, row_of(i, iw, chi) - y0, col_of(i, iw, chi) - x0, channel_of(i, chi))
                            < (y * rw + x) * chi + c {
                            region_sample(region@, i, iw, chi, x0 as int, y0 as int, rw as int)
                        } else {
                            orig[i]
                        },
                decreases ch - c,
            {
                let ghost p = hwc_at(iw, chi, (y0 + y) as int, (x0 + x) as int, c as int);
                let ghost q = hwc_at(rw as int, chi, y as int, x as int, c as int);
                proof {
                    lemma_hwc_bound(ih, iw, chi, (y0 + y) as int, (x0 + x) as int, c as int);
                    lemma_hwc_bound(rh as int, rw as int, chi, y as int, x as int, c as int);
                    lemma_position_decomposes(iw, ih, chi, (y0 + y) as int, (x0 + x) as int, c as int);
                    assert(dst@.len() == dst.len());
                    assert(region@.len() == region.len());
                    assert((y0 + y) * img_w + (x0 + x) < img_h * img_w) by (nonlinear_arith)
                        requires
                            y0 + y < img_h,
                            x0 + x < img_w,
                    ;
                    assert(img_h * img_w == img_w * img_h) by (nonlinear_arith);
                    assert(y * rw + x < rh * rw) by (nonlinear_arith)
                        requires
                            y < rh,
                            x < rw,
                    ;
                    assert((y * rw + x) * ch <= (y * rw + x) * ch + c);
                    assert(rh * rw * ch >= 0) by (nonlinear_arith);
                }
                let v = region[(y * rw + x) * ch + c];
                let ghost before = dst@;
                dst.set(((y0 + y) * img_w + (x0 + x)) * ch + c, v);
                proof {
                    assert forall|i: int|
                        0 <= i < orig.len() implies #[trigger] dst@[i] == if in_region(i, iw, ih, chi, x0 as int, y0 as int, rw as int, rh as int)
                            && hwc_at(rw as int, chi, row_of(i, iw, chi) - y0, col_of(i, iw, chi) - x0, channel_of(i, chi))
                            < (y * rw + x) * chi + c + 1 {
                            region_sample(region@, i, iw, chi, x0 as int, y0 as int, rw as int)
                        } else {
                            orig[i]
                        } by {
                        if i == p {
                            assert(dst@[i] == v);
                        } else {
                            assert(dst@[i] == before[i]);
                            if in_region(i, iw, ih, chi, x0 as int, y0 as int, rw as int, rh as int) {
                                let yy = row_of(i, iw, chi) - y0;
                                let xx = col_of(i, iw, chi) - x0;
                                let cc = channel_of(i, chi);
                                lemma_hwc_onto(ih, iw, chi, i);
                                if hwc_at(rw as int, chi, yy, xx, cc) == q {
                                    lemma_hwc_unique(rw as int, chi, yy, xx, cc, y as int, x as int, c as int);
                                }
                            }
                        }
                    }
                }
                c = c + 1;
            }
            assert((y * rw + x) * chi + chi == (y * rw + x + 1) * chi) by (nonlinear_arith);
            x = x + 1;
        }
        assert((y * rw + rw) * chi == (y + 1) * n) by (nonlinear_arith)
            requires
                n == rw * chi,
        ;
        y = y + 1;
    }
    proof {
        assert forall|i: int| 0 <= i < orig.len() implies #[trigger] dst@[i] == if in_region(
            i,
            iw,
            ih,
            chi,
            x0 as int,
            y0 as int,
            rw as int,
            rh as int,
        ) {
            region_sample(region@, i, iw, chi, x0 as int, y0 as int, rw as int)
        } else {
            orig[i]
        } by {
            if in_region(i, iw, ih, chi, x0 as int, y0 as int, rw as int, rh as int) {
                lemma_hwc_onto(ih, iw, chi, i);
                lemma_hwc_bound(rh as int, rw as int, chi, row_of(i, iw, chi) - y0, col_of(i, iw, chi) - x0, channel_of(i, chi));
                assert(rh * rw * chi == rh * n) by (nonlinear_arith)
                    requires
                        n == rw * chi,
                ;
            }
        }
    }
}

} // verus!
