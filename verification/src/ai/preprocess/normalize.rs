//! Sample layouts: interleaved (height, width, channel) and planar
//! (channel, height, width), the layout of a single-image NCHW tensor.
//!
//! The element type is left generic: a change of layout only moves samples.
use vstd::arithmetic::div_mod::{lemma_fundamental_div_mod, lemma_fundamental_div_mod_converse};
use vstd::prelude::*;

verus! {

/// The position of sample (`y`, `x`, `c`) in an interleaved buffer.
pub open spec fn hwc_at(w: int, ch: int, y: int, x: int, c: int) -> int {
    (y * w + x) * ch + c
}

/// The position of sample (`c`, `y`, `x`) in a planar buffer.
pub open spec fn chw_at(h: int, w: int, c: int, y: int, x: int) -> int {
    (c * h + y) * w + x
}

/// `planar` holds the samples of the interleaved `src`, plane by plane.
pub open spec fn is_planar_of<T>(planar: Seq<T>, src: Seq<T>, h: int, w: int, ch: int) -> bool {
    &&& planar.len() == ch * h * w
    &&& forall|c: int, y: int, x: int|
        #![trigger chw_at(h, w, c, y, x)]
        0 <= c < ch && 0 <= y < h && 0 <= x < w ==> planar[chw_at(h, w, c, y, x)] == src[hwc_at(w, ch, y, x, c)]
}

/// `inter` holds the samples of the planar `src`, pixel by pixel.
pub open spec fn is_interleaved_of<T>(inter: Seq<T>, src: Seq<T>, h: int, w: int, ch: int) -> bool {
    &&& inter.len() == h * w * ch
    &&& forall|y: int, x: int, c: int|
        #![trigger hwc_at(w, ch, y, x, c)]
        0 <= c < ch && 0 <= y < h && 0 <= x < w ==> inter[hwc_at(w, ch, y, x, c)] == src[chw_at(h, w, c, y, x)]
}

/// Two positions `q * d + r` with `0 <= r < d` are equal only for equal `q` and `r`.
proof fn lemma_mixed_radix_unique(d: int, q1: int, r1: int, q2: int, r2: int)
    requires
        d > 0,
        0 <= r1 < d,
        0 <= r2 < d,
        q1 * d + r1 == q2 * d + r2,
    ensures
        q1 == q2,
        r1 == r2,
{
    lemma_fundamental_div_mod_converse(q1 * d + r1, d, q1, r1);
    lemma_fundamental_div_mod_converse(q2 * d + r2, d, q2, r2);
}

proof fn lemma_chw_unique(h: int, w: int, c1: int, y1: int, x1: int, c2: int, y2: int, x2: int)
    requires
        0 <= y1 < h,
        0 <= x1 < w,
        0 <= y2 < h,
        0 <= x2 < w,
        chw_at(h, w, c1, y1, x1) == chw_at(h, w, c2, y2, x2),
    ensures
        c1 == c2 && y1 == y2 && x1 == x2,
{
    assert((c1 * h + y1) * w == w * (c1 * h + y1)) by (nonlinear_arith);
    assert((c2 * h + y2) * w == w * (c2 * h + y2)) by (nonlinear_arith);
    lemma_mixed_radix_unique(w, c1 * h + y1, x1, c2 * h + y2, x2);
    lemma_mixed_radix_unique(h, c1, y1, c2, y2);
}

/// Distinct samples of an interleaved buffer lie at distinct positions.
pub proof fn lemma_hwc_unique(w: int, ch: int, y1: int, x1: int, c1: int, y2: int, x2: int, c2: int)
    requires
        0 <= x1 < w,
        0 <= c1 < ch,
        0 <= x2 < w,
        0 <= c2 < ch,
        hwc_at(w, ch, y1, x1, c1) == hwc_at(w, ch, y2, x2, c2),
    ensures
        c1 == c2 && y1 == y2 && x1 == x2,
{
    lemma_mixed_radix_unique(ch, y1 * w + x1, c1, y2 * w + x2, c2);
    lemma_mixed_radix_unique(w, y1, x1, y2, x2);
}

proof fn lemma_chw_bound(h: int, w: int, ch: int, c: int, y: int, x: int)
    requires
        0 <= c < ch,
        0 <= y < h,
        0 <= x < w,
    ensures
        0 <= chw_at(h, w, c, y, x) < ch * h * w,
{
    assert(0 <= (c * h + y) * w + x < ch * h * w) by (nonlinear_arith)
        requires
            0 <= c < ch,
            0 <= y < h,
            0 <= x < w,
    ;
}

/// Every sample of an interleaved `h` by `w` image lies below `h * w * ch`.
pub proof fn lemma_hwc_bound(h: int, w: int, ch: int, y: int, x: int, c: int)
    requires
        0 <= c < ch,
        0 <= y < h,
        0 <= x < w,
    ensures
        0 <= hwc_at(w, ch, y, x, c) < h * w * ch,
{
    assert(0 <= (y * w + x) * ch + c < h * w * ch) by (nonlinear_arith)
        requires
            0 <= c < ch,
            0 <= y < h,
            0 <= x < w,
    ;
}

/// Rearranges an interleaved `height` by `width` image with `ch` samples per
/// pixel into planes, one per channel.
pub fn hwc_to_nchw<T: Copy>(pixels: &[T], height: usize, width: usize, ch: usize) -> (planar: Vec<T>)
    requires
        pixels@.len() >= height * width * ch,
        height * width <= usize::MAX,
    ensures
        is_planar_of(planar@, pixels@, height as int, width as int, ch as int),
{
    let ghost h = height as int;
    let ghost w = width as int;
    let ghost chi = ch as int;
    let ghost src = pixels@;
    let mut out: Vec<T> = Vec::new();
    let mut c: usize = 0;
    while c < ch
        invariant
            src == pixels@,
            h == height,
            w == width,
            chi == ch,
            pixels@.len() >= height * width * ch,
            height * width <= usize::MAX,
            c <= ch,
            out@.len() == c * h * w,
            forall|c1: int, y1: int, x1: int|
                #![trigger chw_at(h, w, c1, y1, x1)]
                0 <= c1 < chi && 0 <= y1 < h && 0 <= x1 < w && chw_at(h, w, c1, y1, x1) < out@.len() ==> out@[chw_at(
                    h,
                    w,
                    c1,
                    y1,
                    x1,
                )] == src[hwc_at(w, chi, y1, x1, c1)],
        decreases ch - c,
    {
        let mut y: usize = 0;
        while y < height
            invariant
                src == pixels@,
                h == height,
                w == width,
                chi == ch,
                pixels@.len() >= height * width * ch,
            height * width <= usize::MAX,
                c < ch,
                y <= height,
                out@.len() == (c * h + y) * w,
                forall|c1: int, y1: int, x1: int|
                    #![trigger chw_at(h, w, c1, y1, x1)]
                    0 <= c1 < chi && 0 <= y1 < h && 0 <= x1 < w && chw_at(h, w, c1, y1, x1) < out@.len()
                        ==> out@[chw_at(h, w, c1, y1, x1)] == src[hwc_at(w, chi, y1, x1, c1)],
            decreases height - y,
        {
            let mut x: usize = 0;
            while x < width
                invariant
                    src == pixels@,
                    h == height,
                    w == width,
                    chi == ch,
                    pixels@.len() >= height * width * ch,
            height * width <= usize::MAX,
                    c < ch,
                    y < height,
                    x <= width,
                    out@.len() == (c * h + y) * w + x,
                    forall|c1: int, y1: int, x1: int|
                        #![trigger chw_at(h, w, c1, y1, x1)]
                        0 <= c1 < chi && 0 <= y1 < h && 0 <= x1 < w && chw_at(h, w, c1, y1, x1) < out@.len()
                            ==> out@[chw_at(h, w, c1, y1, x1)] == src[hwc_at(w, chi, y1, x1, c1)],
                decreases width - x,
            {
                proof {
                    lemma_hwc_bound(h, w, chi, y as int, x as int, c as int);
                    assert(pixels@.len() == pixels.len());
                    assert(y * width + x < height * width) by (nonlinear_arith)
                        requires
                            y < height,
                            x < width,
                    ;
                }
                let v = pixels[(y * width + x) * ch + c];
                let ghost before = out@;
                out.push(v);
                proof {
                    assert forall|c1: int, y1: int, x1: int|
                        #![trigger chw_at(h, w, c1, y1, x1)]
                        0 <= c1 < chi && 0 <= y1 < h && 0 <= x1 < w && chw_at(h, w, c1, y1, x1) < out@.len()
                            implies out@[chw_at(h, w, c1, y1, x1)] == src[hwc_at(w, chi, y1, x1, c1)] by {
                        if chw_at(h, w, c1, y1, x1) == before.len() {
                            lemma_chw_unique(h, w, c1, y1, x1, c as int, y as int, x as int);
                        } else {
                            assert(out@[chw_at(h, w, c1, y1, x1)] == before[chw_at(h, w, c1, y1, x1)]);
                        }
                    }
                }
                x = x + 1;
            }
            assert((c * h + y) * w + w == (c * h + y + 1) * w) by (nonlinear_arith);
            y = y + 1;
        }
        assert((c * h + h) * w == (c + 1) * h * w) by (nonlinear_arith);
        c = c + 1;
    }
    proof {
        assert forall|c1: int, y1: int, x1: int|
            #![trigger chw_at(h, w, c1, y1, x1)]
            0 <= c1 < chi && 0 <= y1 < h && 0 <= x1 < w implies out@[chw_at(h, w, c1, y1, x1)] == src[hwc_at(
                w,
                chi,
                y1,
                x1,
                c1,
            )] by {
            lemma_chw_bound(h, w, chi, c1, y1, x1);
        }
    }
    out
}

/// Rearranges a planar image (one plane per channel) into interleaved pixels.
pub fn nchw_to_hwc<T: Copy>(planar: &[T], height: usize, width: usize, ch: usize) -> (inter: Vec<T>)
    requires
        planar@.len() >= ch * height * width,
        height * width * ch <= usize::MAX,
    ensures
        is_interleaved_of(inter@, planar@, height as int, width as int, ch as int),
{
    let ghost h = height as int;
    let ghost w = width as int;
    let ghost chi = ch as int;
    let ghost src = planar@;
    let mut out: Vec<T> = Vec::new();
    let mut y: usize = 0;
    while y < height
        invariant
            src == planar@,
            h == height,
            w == width,
            chi == ch,
            planar@.len() >= ch * height * width,
            height * width * ch <= usize::MAX,
            y <= height,
            out@.len() == y * w * chi,
            forall|y1: int, x1: int, c1: int|
                #![trigger hwc_at(w, chi, y1, x1, c1)]
                0 <= c1 < chi && 0 <= y1 < h && 0 <= x1 < w && hwc_at(w, chi, y1, x1, c1) < out@.len()
                    ==> out@[hwc_at(w, chi, y1, x1, c1)] == src[chw_at(h, w, c1, y1, x1)],
        decreases height - y,
    {
        let mut x: usize = 0;
        while x < width
            invariant
                src == planar@,
                h == height,
                w == width,
                chi == ch,
                planar@.len() >= ch * height * width,
                height * width * ch <= usize::MAX,
                y < height,
                x <= width,
                out@.len() == (y * w + x) * chi,
                forall|y1: int, x1: int, c1: int|
                    #![trigger hwc_at(w, chi, y1, x1, c1)]
                    0 <= c1 < chi && 0 <= y1 < h && 0 <= x1 < w && hwc_at(w, chi, y1, x1, c1) < out@.len()
                        ==> out@[hwc_at(w, chi, y1, x1, c1)] == src[chw_at(h, w, c1, y1, x1)],
            decreases width - x,
        {
            let mut c: usize = 0;
            while c < ch
                invariant
                    src == planar@,
                    h == height,
                    w == width,
                    chi == ch,
                    planar@.len() >= ch * height * width,
                    height * width * ch <= usize::MAX,
                    y < height,
                    x < width,
                    c <= ch,
                    out@.len() == (y * w + x) * chi + c,
                    forall|y1: int, x1: int, c1: int|
                        #![trigger hwc_at(w, chi, y1, x1, c1)]
                        0 <= c1 < chi && 0 <= y1 < h && 0 <= x1 < w && hwc_at(w, chi, y1, x1, c1) < out@.len()
                            ==> out@[hwc_at(w, chi, y1, x1, c1)] == src[chw_at(h, w, c1, y1, x1)],
                decreases ch - c,
            {
                proof {
                    lemma_chw_bound(h, w, chi, c as int, y as int, x as int);
                    assert(planar@.len() == planar.len());
                    assert(c * height + y < ch * height) by (nonlinear_arith)
                        requires
                            c < ch,
                            y < height,
                    ;
                    assert(ch * height <= ch * height * width) by (nonlinear_arith)
                        requires
                            x < width,
                    ;
                    assert((c * height + y) * width <= (c * height + y) * width + x);
                }
                let v = planar[(c * height + y) * width + x];
                let ghost before = out@;
                out.push(v);
                proof {
                    assert forall|y1: int, x1: int, c1: int|
                        #![trigger hwc_at(w, chi, y1, x1, c1)]
                        0 <= c1 < chi && 0 <= y1 < h && 0 <= x1 < w && hwc_at(w, chi, y1, x1, c1) < out@.len()
                            implies out@[hwc_at(w, chi, y1, x1, c1)] == src[chw_at(h, w, c1, y1, x1)] by {
                        if hwc_at(w, chi, y1, x1, c1) == before.len() {
                            lemma_hwc_unique(w, chi, y1, x1, c1, y as int, x as int, c as int);
                        } else {
                            assert(out@[hwc_at(w, chi, y1, x1, c1)] == before[hwc_at(w, chi, y1, x1, c1)]);
                        }
                    }
                }
                c = c + 1;
            }
            assert((y * w + x) * chi + chi == (y * w + x + 1) * chi) by (nonlinear_arith);
            x = x + 1;
        }
        assert((y * w + w) * chi == (y + 1) * w * chi) by (nonlinear_arith);
        y = y + 1;
    }
    proof {
        assert forall|y1: int, x1: int, c1: int|
            #![trigger hwc_at(w, chi, y1, x1, c1)]
            0 <= c1 < chi && 0 <= y1 < h && 0 <= x1 < w implies out@[hwc_at(w, chi, y1, x1, c1)] == src[chw_at(
                h,
                w,
                c1,
                y1,
                x1,
            )] by {
            lemma_hwc_bound(h, w, chi, y1, x1, c1);
        }
        assert(out@.len() == h * w * chi);
    }
    out
}

/// Every position below `h * w * ch` is the interleaved position of one sample.
pub proof fn lemma_hwc_onto(h: int, w: int, ch: int, i: int)
    requires
        0 <= i < h * w * ch,
        h > 0,
        w > 0,
        ch > 0,
    ensures
        0 <= (i / ch) / w < h,
        0 <= (i / ch) % w < w,
        0 <= i % ch < ch,
        i == hwc_at(w, ch, (i / ch) / w, (i / ch) % w, i % ch),
{
    lemma_fundamental_div_mod(i, ch);
    lemma_fundamental_div_mod(i / ch, w);
    let p = i / ch;
    assert(0 <= i % ch < ch) by {
        vstd::arithmetic::div_mod::lemma_mod_bound(i, ch);
    }
    assert(0 <= p % w < w) by {
        vstd::arithmetic::div_mod::lemma_mod_bound(p, w);
    }
    assert(0 <= p < h * w) by (nonlinear_arith)
        requires
            i == ch * p + i % ch,
            0 <= i % ch < ch,
            0 <= i < h * w * ch,
            ch > 0,
    ;
    assert(0 <= p / w < h) by (nonlinear_arith)
        requires
            p == w * (p / w) + p % w,
            0 <= p % w < w,
            0 <= p < h * w,
            w > 0,
    ;
    assert(i == (w * (p / w) + p % w) * ch + i % ch) by (nonlinear_arith)
        requires
            i == ch * p + i % ch,
            p == w * (p / w) + p % w,
    ;
    assert(hwc_at(w, ch, p / w, p % w, i % ch) == ((p / w) * w + p % w) * ch + i % ch);
    assert((p / w) * w == w * (p / w)) by (nonlinear_arith);
}

/// Rearranging into planes and back gives the interleaved samples back.
pub proof fn lemma_layout_roundtrip<T>(src: Seq<T>, planar: Seq<T>, back: Seq<T>, h: int, w: int, ch: int)
    requires
        h >= 0,
        w >= 0,
        ch >= 0,
        src.len() >= h * w * ch,
        is_planar_of(planar, src, h, w, ch),
        is_interleaved_of(back, planar, h, w, ch),
    ensures
        back == src.take(h * w * ch),
{
    if h > 0 && w > 0 && ch > 0 {
        assert forall|i: int| 0 <= i < back.len() implies back[i] == src.take(h * w * ch)[i] by {
            lemma_hwc_onto(h, w, ch, i);
            let y = (i / ch) / w;
            let x = (i / ch) % w;
            let c = i % ch;
            assert(back[hwc_at(w, ch, y, x, c)] == planar[chw_at(h, w, c, y, x)]);
            assert(planar[chw_at(h, w, c, y, x)] == src[hwc_at(w, ch, y, x, c)]);
        }
        assert(back =~= src.take(h * w * ch));
    } else {
        assert(h * w * ch == 0) by (nonlinear_arith)
            requires
                h == 0 || w == 0 || ch == 0,
        ;
        assert(back =~= src.take(h * w * ch));
    }
}

} // verus!
