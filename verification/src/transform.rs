//! Deterministic per-pixel transforms over [`PixelBuffer`]: greyscale-luma
//! reduction with a configurable alpha remap, contrast compression into the
//! bright band, uniform alpha fading, and glow whitening.
//!
//! All arithmetic is integer arithmetic; each formula reproduces the pipeline's
//! pinned constants exactly (including the deliberately non-standard blue
//! weight of the luma reduction, and truncation toward zero).

use vstd::prelude::*;

use crate::pixel::{Pixel, PixelBuffer};

verus! {

/// The greyscale value of a pixel: `min(r*299/1000 + g*587/1000 + b*144/1000, 255)`,
/// each term truncated separately. The blue weight 144 (not the standard 114)
/// is a pinned constant of the pipeline.
pub open spec fn luma(p: Pixel) -> int {
    let v = p.r * 299 / 1000 + p.g * 587 / 1000 + p.b * 144 / 1000;
    if v > 255 {
        255
    } else {
        v
    }
}

/// The per-family alpha remap applied by the greyscale pass, a function of the
/// pixel's greyscale value `l` and its original alpha `a`.
#[derive(Clone, Copy, PartialEq, Eq, Structural, Debug)]
pub enum AlphaCurve {
    /// `max(0, a/255 - 0.75) * 4 * 255`: keeps only the nearly-opaque core.
    Job,
    /// `clamp(l*4 - 512, 0, 255)` where `a > 200`, else fully transparent.
    Tribe,
    /// `255 - clamp(l*30 - 2048, 0, 255)` where `a > 240`, else fully transparent.
    Shop,
}

pub open spec fn clamp_255(v: int) -> int {
    if v < 0 {
        0
    } else if v > 255 {
        255
    } else {
        v
    }
}

pub open spec fn curve_alpha(c: AlphaCurve, l: int, a: int) -> int {
    match c {
        AlphaCurve::Job => if 4 * a >= 765 {
            4 * a - 765
        } else {
            0
        },
        AlphaCurve::Tribe => if a > 200 {
            clamp_255(4 * l - 512)
        } else {
            0
        },
        AlphaCurve::Shop => if a > 240 {
            255 - clamp_255(30 * l - 2048)
        } else {
            0
        },
    }
}

/// The greyscale value of `p`, as executable code.
pub fn luma_of(p: Pixel) -> (r: u8)
    ensures
        r == luma(p),
{
    let v: u32 = (p.r as u32) * 299 / 1000 + (p.g as u32) * 587 / 1000 + (p.b as u32) * 144
        / 1000;
    if v > 255 {
        255
    } else {
        v as u8
    }
}

pub fn curve_alpha_of(c: AlphaCurve, l: u8, a: u8) -> (r: u8)
    ensures
        r == curve_alpha(c, l as int, a as int),
{
    match c {
        AlphaCurve::Job => {
            let v: u32 = 4 * (a as u32);
            if v >= 765 {
                (v - 765) as u8
            } else {
                0
            }
        },
        AlphaCurve::Tribe => {
            if a > 200 {
                let v: u32 = 4 * (l as u32);
                if v <= 512 {
                    0
                } else if v - 512 > 255 {
                    255
                } else {
                    (v - 512) as u8
                }
            } else {
                0
            }
        },
        AlphaCurve::Shop => {
            if a > 240 {
                let v: u32 = 30 * (l as u32);
                let c: u32 = if v <= 2048 {
                    0
                } else if v - 2048 > 255 {
                    255
                } else {
                    v - 2048
                };
                (255 - c) as u8
            } else {
                0
            }
        },
    }
}

/// What one pixel becomes under the first pass of [`prepare`]: colour set to
/// the greyscale value, alpha remapped through the curve; pixels with alpha
/// zero are untouched.
pub open spec fn pass1_pixel(c: AlphaCurve, p: Pixel) -> Pixel {
    if p.a == 0 {
        p
    } else {
        Pixel {
            r: luma(p) as u8,
            g: luma(p) as u8,
            b: luma(p) as u8,
            a: curve_alpha(c, luma(p), p.a as int) as u8,
        }
    }
}

/// The running minimum of the greyscale values of the first `n` pixels with
/// alpha above zero, starting from 255.
pub open spec fn min_luma_upto(s: Seq<Pixel>, n: int) -> int
    decreases n,
{
    if n <= 0 {
        255
    } else if s[n - 1].a > 0 && luma(s[n - 1]) < min_luma_upto(s, n - 1) {
        luma(s[n - 1])
    } else {
        min_luma_upto(s, n - 1)
    }
}

/// The running maximum of the greyscale values of the first `n` pixels with
/// alpha above zero, starting from 0.
pub open spec fn max_luma_upto(s: Seq<Pixel>, n: int) -> int
    decreases n,
{
    if n <= 0 {
        0
    } else if s[n - 1].a > 0 && luma(s[n - 1]) > max_luma_upto(s, n - 1) {
        luma(s[n - 1])
    } else {
        max_luma_upto(s, n - 1)
    }
}

/// The rescaled band value: `223 + 32*(l - lo) / (hi - lo)`, or 223 for a flat
/// image (`hi == lo`), in which case the scale is treated as one.
pub open spec fn band_value(l: int, lo: int, hi: int) -> int {
    if hi == lo {
        223
    } else {
        223 + 32 * (l - lo) / (hi - lo)
    }
}

/// What one pixel of the input becomes under [`prepare`], given the greyscale
/// extremes `lo` and `hi` of the whole input.
pub open spec fn prepare_pixel(c: AlphaCurve, p: Pixel, lo: int, hi: int) -> Pixel {
    if p.a == 0 {
        p
    } else {
        let l = luma(p);
        let a2 = curve_alpha(c, l, p.a as int);
        if a2 > 0 {
            let v = band_value(l, lo, hi);
            Pixel { r: v as u8, g: v as u8, b: v as u8, a: a2 as u8 }
        } else {
            Pixel { r: l as u8, g: l as u8, b: l as u8, a: a2 as u8 }
        }
    }
}

/// Greyscale-luma reduction with alpha remap and contrast compression.
///
/// First pass: every pixel with alpha above zero has its colour channels set to
/// its greyscale value and its alpha remapped through `c`, while the running
/// minimum and maximum greyscale values over those pixels are tracked. Second
/// pass: every pixel whose remapped alpha is above zero has its channels
/// rescaled into the band `[223, 255]`.
pub fn prepare(buf: &mut PixelBuffer, c: AlphaCurve)
    requires
        old(buf).wf(),
    ensures
        final(buf).wf(),
        final(buf).width == old(buf).width,
        final(buf).height == old(buf).height,
        forall|i: int|
            0 <= i < old(buf)@.len() ==> final(buf)@[i] == prepare_pixel(
                c,
                old(buf)@[i],
                min_luma_upto(old(buf)@, old(buf)@.len() as int),
                max_luma_upto(old(buf)@, old(buf)@.len() as int),
            ),
{
    let ghost s0 = buf@;
    let n: usize = buf.pixels.len();
    let mut lo: u8 = 255;
    let mut hi: u8 = 0;
    let mut i: usize = 0;
    while i < n
        invariant
            buf.pixels@.len() == n,
            s0.len() == n,
            buf.width == old(buf).width,
            buf.height == old(buf).height,
            buf.wf(),
            i <= n,
            lo == min_luma_upto(s0, i as int),
            hi == max_luma_upto(s0, i as int),
            forall|j: int| #![trigger buf@[j]] i <= j < n ==> buf@[j] == s0[j],
            forall|j: int| #![trigger buf@[j]] 0 <= j < i ==> buf@[j] == pass1_pixel(c, s0[j]),
        decreases n - i,
    {
        let p = buf.pixels[i];
        proof {
            assert(buf@[i as int] == s0[i as int]);
            reveal_with_fuel(min_luma_upto, 2);
            reveal_with_fuel(max_luma_upto, 2);
            assert(min_luma_upto(s0, i as int + 1) == (if s0[i as int].a > 0 && luma(s0[i as int])
                < min_luma_upto(s0, i as int) {
                luma(s0[i as int])
            } else {
                min_luma_upto(s0, i as int)
            }));
            assert(max_luma_upto(s0, i as int + 1) == (if s0[i as int].a > 0 && luma(s0[i as int])
                > max_luma_upto(s0, i as int) {
                luma(s0[i as int])
            } else {
                max_luma_upto(s0, i as int)
            }));
            lemma_luma_bounds(s0[i as int]);
        }
        if p.a > 0 {
            let l = luma_of(p);
            let a2 = curve_alpha_of(c, l, p.a);
            buf.pixels.set(i, Pixel { r: l, g: l, b: l, a: a2 });
            if l < lo {
                lo = l;
            }
            if l > hi {
                hi = l;
            }
        }
        i = i + 1;
    }
    proof {
        assert forall|j: int| #![auto] 0 <= j < n && s0[j].a > 0 implies min_luma_upto(
            s0,
            n as int,
        ) <= luma(s0[j]) <= max_luma_upto(s0, n as int) by {
            lemma_luma_extremes(s0, n as int, j);
        }
    }
    let mut i: usize = 0;
    while i < n
        invariant
            buf.pixels@.len() == n,
            s0.len() == n,
            buf.width == old(buf).width,
            buf.height == old(buf).height,
            buf.wf(),
            i <= n,
            lo == min_luma_upto(s0, n as int),
            hi == max_luma_upto(s0, n as int),
            forall|j: int| #![trigger buf@[j]] i <= j < n ==> buf@[j] == pass1_pixel(c, s0[j]),
            forall|j: int|
                #![trigger buf@[j]]
                0 <= j < i ==> buf@[j] == prepare_pixel(c, s0[j], lo as int, hi as int),
            forall|j: int| #![auto] 0 <= j < n && s0[j].a > 0 ==> lo <= luma(s0[j]) <= hi,
        decreases n - i,
    {
        let p = buf.pixels[i];
        proof {
            assert(buf@[i as int] == pass1_pixel(c, s0[i as int]));
            lemma_luma_bounds(s0[i as int]);
        }
        if p.a > 0 {
            proof {
                if s0[i as int].a == 0 {
                    assert(buf@[i as int] == s0[i as int]);
                    assert(false);
                }
                assert(p.r as int == luma(s0[i as int]));
            }
            let v: u8 = if hi == lo {
                223
            } else {
                let d: u32 = (p.r - lo) as u32;
                let sc: u32 = (hi - lo) as u32;
                proof {
                    lemma_band_in_range(p.r as int, lo as int, hi as int);
                }
                (223 + 32 * d / sc) as u8
            };
            buf.pixels.set(i, Pixel { r: v, g: v, b: v, a: p.a });
            proof {
                assert(buf@[i as int] == prepare_pixel(c, s0[i as int], lo as int, hi as int));
            }
        } else {
            proof {
                assert(buf@[i as int] == prepare_pixel(c, s0[i as int], lo as int, hi as int));
            }
        }
        i = i + 1;
    }
}

/// Every greyscale value lies in `[0, 255]`.
pub proof fn lemma_luma_bounds(p: Pixel)
    ensures
        0 <= luma(p) <= 255,
{
}

/// A pixel with alpha above zero among the first `n` has its greyscale value
/// between the running extremes over those `n` pixels.
pub proof fn lemma_luma_extremes(s: Seq<Pixel>, n: int, j: int)
    requires
        0 <= j < n <= s.len(),
        s[j].a > 0,
    ensures
        min_luma_upto(s, n) <= luma(s[j]) <= max_luma_upto(s, n),
    decreases n,
{
    if j < n - 1 {
        lemma_luma_extremes(s, n - 1, j);
    }
}

/// `32*(l - lo)` divided by `hi - lo` lies in `[0, 32]` whenever `lo <= l <= hi`
/// and `lo < hi`.
pub proof fn lemma_band_in_range(l: int, lo: int, hi: int)
    requires
        lo <= l <= hi,
        lo < hi,
    ensures
        0 <= 32 * (l - lo) / (hi - lo) <= 32,
        l == lo ==> 32 * (l - lo) / (hi - lo) == 0,
        l == hi ==> 32 * (l - lo) / (hi - lo) == 32,
{
    assert(0 <= 32 * (l - lo) / (hi - lo) <= 32) by (nonlinear_arith)
        requires
            lo <= l <= hi,
            lo < hi,
    ;
    if l == hi {
        assert(32 * (hi - lo) / (hi - lo) == 32) by (nonlinear_arith)
            requires
                lo < hi,
        ;
    }
}


/// How strongly a faded variant keeps its alpha: the pipeline derives one
/// variant at 8/10 of the original alpha and one at 3/10.
#[derive(Clone, Copy, PartialEq, Eq, Structural, Debug)]
pub enum Fade {
    /// Alpha scaled to `a * 8 / 10` (truncated).
    Light,
    /// Alpha scaled to `a * 3 / 10` (truncated).
    Heavy,
}

pub open spec fn fade_alpha(f: Fade, a: int) -> int {
    match f {
        Fade::Light => a * 4 / 5,
        Fade::Heavy => a * 3 / 10,
    }
}

pub open spec fn fade_pixel(f: Fade, p: Pixel) -> Pixel {
    Pixel { r: p.r, g: p.g, b: p.b, a: fade_alpha(f, p.a as int) as u8 }
}

/// Uniform alpha fading: every pixel keeps its colour and has its alpha scaled
/// down by the fade's fixed factor, truncating toward zero.
pub fn fade(buf: &mut PixelBuffer, f: Fade)
    requires
        old(buf).wf(),
    ensures
        final(buf).wf(),
        final(buf).width == old(buf).width,
        final(buf).height == old(buf).height,
        forall|i: int| 0 <= i < old(buf)@.len() ==> final(buf)@[i] == fade_pixel(f, old(buf)@[i]),
{
    let ghost s0 = buf@;
    let n: usize = buf.pixels.len();
    let mut i: usize = 0;
    while i < n
        invariant
            buf.pixels@.len() == n,
            s0.len() == n,
            buf.width == old(buf).width,
            buf.height == old(buf).height,
            buf.wf(),
            i <= n,
            forall|j: int| #![trigger buf@[j]] i <= j < n ==> buf@[j] == s0[j],
            forall|j: int| #![trigger buf@[j]] 0 <= j < i ==> buf@[j] == fade_pixel(f, s0[j]),
        decreases n - i,
    {
        let p = buf.pixels[i];
        proof {
            assert(buf@[i as int] == s0[i as int]);
        }
        let a2: u8 = match f {
            Fade::Light => ((p.a as u32) * 4 / 5) as u8,
            Fade::Heavy => ((p.a as u32) * 3 / 10) as u8,
        };
        buf.pixels.set(i, Pixel { r: p.r, g: p.g, b: p.b, a: a2 });
        proof {
            assert(buf@[i as int] == fade_pixel(f, s0[i as int]));
        }
        i = i + 1;
    }
}

pub open spec fn glow_pixel(p: Pixel) -> Pixel {
    Pixel {
        r: 255,
        g: 255,
        b: 255,
        a: if 4 * p.a > 255 {
            255
        } else {
            (4 * p.a) as u8
        },
    }
}

/// Glow whitening: every pixel is forced to pure white with alpha
/// `min(a * 4, 255)`. Applied to a blurred copy of the base icon, this is the
/// pipeline's cheap bloom approximation.
pub fn glow_whiten(buf: &mut PixelBuffer)
    requires
        old(buf).wf(),
    ensures
        final(buf).wf(),
        final(buf).width == old(buf).width,
        final(buf).height == old(buf).height,
        forall|i: int| 0 <= i < old(buf)@.len() ==> final(buf)@[i] == glow_pixel(old(buf)@[i]),
{
    let ghost s0 = buf@;
    let n: usize = buf.pixels.len();
    let mut i: usize = 0;
    while i < n
        invariant
            buf.pixels@.len() == n,
            s0.len() == n,
            buf.width == old(buf).width,
            buf.height == old(buf).height,
            buf.wf(),
            i <= n,
            forall|j: int| #![trigger buf@[j]] i <= j < n ==> buf@[j] == s0[j],
            forall|j: int| #![trigger buf@[j]] 0 <= j < i ==> buf@[j] == glow_pixel(s0[j]),
        decreases n - i,
    {
        let p = buf.pixels[i];
        proof {
            assert(buf@[i as int] == s0[i as int]);
        }
        let v: u32 = 4 * (p.a as u32);
        let a2: u8 = if v > 255 {
            255
        } else {
            v as u8
        };
        buf.pixels.set(i, Pixel { r: 255, g: 255, b: 255, a: a2 });
        proof {
            assert(buf@[i as int] == glow_pixel(s0[i as int]));
        }
        i = i + 1;
    }
}


/// The feathered distance falloff applied to a neighbour's alpha at squared
/// distance `d2` within the 5x5 border window: the full alpha at distance two
/// or less, and `alpha * (3 - sqrt(d2))` beyond it, with the two factors held
/// as the pipeline's single-precision values in 22-bit fixed point
/// (3204163/4194304 for squared distance 5, 719629/4194304 for 8).
pub open spec fn falloff_alpha(a: int, d2: int) -> int {
    if d2 <= 4 {
        a
    } else if d2 == 5 {
        a * 3204163 / 4194304
    } else {
        a * 719629 / 4194304
    }
}

/// The running maximum of the falloff-weighted alphas over the first `k` of
/// the 25 offsets `(dx, dy)` in `[-2, 2] x [-2, 2]` around `(x, y)`, column
/// major, skipping offsets that fall outside the image.
pub open spec fn border_alpha_upto(
    s: Seq<Pixel>,
    w: int,
    h: int,
    x: int,
    y: int,
    k: int,
) -> int
    decreases k,
{
    if k <= 0 {
        0
    } else {
        let dx = (k - 1) / 5 - 2;
        let dy = (k - 1) % 5 - 2;
        let prev = border_alpha_upto(s, w, h, x, y, k - 1);
        if 0 <= x + dx < w && 0 <= y + dy < h {
            let v = falloff_alpha(s[(y + dy) * w + (x + dx)].a as int, dx * dx + dy * dy);
            if v > prev {
                v
            } else {
                prev
            }
        } else {
            prev
        }
    }
}

/// The border layer's alpha at `(x, y)`: the maximum falloff-weighted alpha
/// over the whole 5x5 neighbourhood.
pub open spec fn border_alpha(s: Seq<Pixel>, w: int, h: int, x: int, y: int) -> int {
    border_alpha_upto(s, w, h, x, y, 25)
}

/// The near-black border layer derived from an image: flat colour (12, 12, 12)
/// under the dilated, feathered alpha.
pub open spec fn border_layer_seq(s: Seq<Pixel>, w: int, h: int) -> Seq<Pixel> {
    Seq::new(
        (w * h) as nat,
        |i: int| Pixel { r: 12, g: 12, b: 12, a: border_alpha(s, w, h, i % w, i / w) as u8 },
    )
}

pub fn falloff_of(a: u8, d2: u32) -> (r: u8)
    ensures
        r == falloff_alpha(a as int, d2 as int),
        a == 0 ==> r == 0,
{
    if d2 <= 4 {
        a
    } else if d2 == 5 {
        ((a as u64) * 3204163 / 4194304) as u8
    } else {
        ((a as u64) * 719629 / 4194304) as u8
    }
}

/// A linear pixel index splits into a column `i % w` and a row `i / w`.
pub proof fn lemma_linear_index(w: int, h: int, i: int)
    requires
        w >= 0,
        h >= 0,
        0 <= i < w * h,
    ensures
        w > 0,
        h > 0,
        0 <= i % w < w,
        0 <= i / w < h,
        (i / w) * w + i % w == i,
{
    assert(w > 0 && h > 0) by (nonlinear_arith)
        requires
            w >= 0,
            h >= 0,
            0 <= i < w * h,
    ;
    assert(0 <= i % w < w && 0 <= i / w < h && (i / w) * w + i % w == i) by (nonlinear_arith)
        requires
            w > 0,
            h > 0,
            0 <= i < w * h,
    ;
}

/// On an image whose alphas are all zero, the border layer's alpha is zero.
pub proof fn lemma_border_alpha_zero(s: Seq<Pixel>, w: int, h: int, x: int, y: int, k: int)
    requires
        s.len() == w * h,
        forall|i: int| 0 <= i < s.len() ==> s[i].a == 0,
    ensures
        border_alpha_upto(s, w, h, x, y, k) == 0,
    decreases k,
{
    if k > 0 {
        lemma_border_alpha_zero(s, w, h, x, y, k - 1);
        let dx = (k - 1) / 5 - 2;
        let dy = (k - 1) % 5 - 2;
        if 0 <= x + dx < w && 0 <= y + dy < h {
            crate::pixel::lemma_grid_index(w, h, x + dx, y + dy);
            assert(s[(y + dy) * w + (x + dx)].a == 0);
        }
    }
}

/// Border synthesis: a new near-black layer whose alpha at each pixel is the
/// maximum, over the 5x5 neighbourhood, of the neighbour's alpha under the
/// feathered distance falloff; the original image is then alpha-composited on
/// top of that layer.
///
/// The last three clauses state the fixed points: a fully opaque image is
/// unchanged, a fully transparent image becomes the transparent near-black
/// canvas, and that canvas itself is unchanged.
pub fn add_border(icon: &mut PixelBuffer)
    requires
        old(icon).wf(),
    ensures
        final(icon).wf(),
        final(icon).width == old(icon).width,
        final(icon).height == old(icon).height,
        final(icon)@ == crate::raster::overlay_of(
            border_layer_seq(old(icon)@, old(icon).width as int, old(icon).height as int),
            old(icon).width as int,
            old(icon).height as int,
            old(icon)@,
            old(icon).width as int,
            old(icon).height as int,
            0,
            0,
        ),
        forall|x: int, y: int|
            old(icon).in_bounds(x, y) && old(icon).pix(x, y).a == 255 ==> final(icon).pix(x, y)
                == old(icon).pix(x, y),
        forall|x: int, y: int|
            old(icon).in_bounds(x, y) && old(icon).pix(x, y).a == 0 ==> final(icon).pix(x, y)
                == (Pixel {
                r: 12,
                g: 12,
                b: 12,
                a: border_alpha(
                    old(icon)@,
                    old(icon).width as int,
                    old(icon).height as int,
                    x,
                    y,
                ) as u8,
            }),
        (forall|i: int| 0 <= i < old(icon)@.len() ==> old(icon)@[i].a == 255) ==> final(icon)@
            =~= old(icon)@,
        (forall|i: int| 0 <= i < old(icon)@.len() ==> old(icon)@[i].a == 0) ==> (forall|i: int|
            0 <= i < final(icon)@.len() ==> final(icon)@[i] == (Pixel { r: 12, g: 12, b: 12, a: 0 })),
        (forall|i: int|
            0 <= i < old(icon)@.len() ==> old(icon)@[i] == (Pixel { r: 12, g: 12, b: 12, a: 0 }))
            ==> final(icon)@ =~= old(icon)@,
{
    let ghost s0 = icon@;
    let w = icon.width;
    let h = icon.height;
    proof {
        vstd::std_specs::vec::axiom_spec_len(&icon.pixels);
    }
    let mut layer = PixelBuffer::new(w, h);
    let mut y: u32 = 0;
    while y < h
        invariant
            icon.wf(),
            icon.width == w,
            icon.height == h,
            icon@ == s0,
            layer.wf(),
            layer.width == w,
            layer.height == h,
            y <= h,
            forall|x2: int, y2: int|
                #![trigger layer.pix(x2, y2)]
                0 <= x2 < w && 0 <= y2 < y ==> layer.pix(x2, y2) == (Pixel {
                    r: 12,
                    g: 12,
                    b: 12,
                    a: border_alpha(s0, w as int, h as int, x2, y2) as u8,
                }),
        decreases h - y,
    {
        let mut x: u32 = 0;
        while x < w
            invariant
                icon.wf(),
                icon.width == w,
                icon.height == h,
                icon@ == s0,
                layer.wf(),
                layer.width == w,
                layer.height == h,
                y < h,
                x <= w,
                forall|x2: int, y2: int|
                    #![trigger layer.pix(x2, y2)]
                    0 <= x2 < w && 0 <= y2 < y ==> layer.pix(x2, y2) == (Pixel {
                        r: 12,
                        g: 12,
                        b: 12,
                        a: border_alpha(s0, w as int, h as int, x2, y2) as u8,
                    }),
                forall|x2: int|
                    #![trigger layer.pix(x2, y as int)]
                    0 <= x2 < x ==> layer.pix(x2, y as int) == (Pixel {
                        r: 12,
                        g: 12,
                        b: 12,
                        a: border_alpha(s0, w as int, h as int, x2, y as int) as u8,
                    }),
            decreases w - x,
        {
            let mut m: u8 = 0;
            let mut k: u32 = 0;
            while k < 25
                invariant
                    icon.wf(),
                    icon.width == w,
                    icon.height == h,
                    icon@ == s0,
                    x < w,
                    y < h,
                    k <= 25,
                    m == border_alpha_upto(s0, w as int, h as int, x as int, y as int, k as int),
                decreases 25 - k,
            {
                let dx: i64 = (k as i64) / 5 - 2;
                let dy: i64 = (k as i64) % 5 - 2;
                let px: i64 = (x as i64) + dx;
                let py: i64 = (y as i64) + dy;
                proof {
                    assert(-2 <= dx <= 2 && -2 <= dy <= 2);
                    assert(dx * dx + dy * dy <= 8 && dx * dx >= 0 && dy * dy >= 0)
                        by (nonlinear_arith)
                        requires
                            -2 <= dx <= 2,
                            -2 <= dy <= 2,
                    ;
                }
                if 0 <= px && px < w as i64 && 0 <= py && py < h as i64 {
                    let a = icon.get(px as u32, py as u32).a;
                    let d2: u32 = ((dx * dx) + (dy * dy)) as u32;
                    let v = falloff_of(a, d2);
                    if v > m {
                        m = v;
                    }
                }
                k = k + 1;
            }
            proof {
                lemma_border_alpha_bound(s0, w as int, h as int, x as int, y as int, 25);
            }
            layer.set(x, y, Pixel { r: 12, g: 12, b: 12, a: m });
            x = x + 1;
        }
        y = y + 1;
    }
    proof {
        assert(layer@ =~= border_layer_seq(s0, w as int, h as int)) by {
            assert forall|i: int| 0 <= i < layer@.len() implies layer@[i] == border_layer_seq(
                s0,
                w as int,
                h as int,
            )[i] by {
                lemma_linear_index(w as int, h as int, i);
                assert(layer.pix(i % (w as int), i / (w as int)) == layer@[i]);
            }
        }
    }
    let ghost layer0 = layer;
    crate::raster::overlay_at(&mut layer, icon, 0, 0);
    let ghost lay = layer;
    *icon = layer;
    proof {
        let fw = w as int;
        let fh = h as int;
        assert forall|x: int, y2: int|
            old(icon).in_bounds(x, y2) && old(icon).pix(x, y2).a == 0 implies final(icon).pix(
            x,
            y2,
        ) == (Pixel {
            r: 12,
            g: 12,
            b: 12,
            a: border_alpha(s0, fw, fh, x, y2) as u8,
        }) by {
            lemma_grid_index_full(fw, fh, x, y2);
            assert(lay.pix(x, y2) == layer0.pix(x, y2));
            assert(layer0.pix(x, y2) == (Pixel {
                r: 12,
                g: 12,
                b: 12,
                a: border_alpha(s0, fw, fh, x, y2) as u8,
            }));
        }
        assert forall|x: int, y2: int|
            old(icon).in_bounds(x, y2) && old(icon).pix(x, y2).a == 255 implies final(icon).pix(
            x,
            y2,
        ) == old(icon).pix(x, y2) by {
            lemma_grid_index_full(fw, fh, x, y2);
            assert(lay.pix(x, y2) == old(icon).pix(x, y2));
        }
        if forall|i: int| 0 <= i < s0.len() ==> s0[i].a == 255 {
            assert forall|i: int| 0 <= i < final(icon)@.len() implies final(icon)@[i] == s0[i] by {
                lemma_linear_index(fw, fh, i);
                let x = i % fw;
                let y2 = i / fw;
                assert(s0[i].a == 255);
                assert(old(icon).pix(x, y2) == s0[i]);
                assert(lay.pix(x, y2) == old(icon).pix(x, y2));
                assert(final(icon)@[i] == final(icon).pix(x, y2));
            }
        }
        if forall|i: int| 0 <= i < s0.len() ==> s0[i].a == 0 {
            assert forall|i: int| 0 <= i < final(icon)@.len() implies final(icon)@[i] == (Pixel {
                r: 12,
                g: 12,
                b: 12,
                a: 0,
            }) by {
                lemma_linear_index(fw, fh, i);
                let x = i % fw;
                let y2 = i / fw;
                assert(s0[i].a == 0);
                assert(old(icon).pix(x, y2) == s0[i]);
                assert(lay.pix(x, y2) == layer0.pix(x, y2));
                lemma_border_alpha_zero(s0, fw, fh, x, y2, 25);
                assert(final(icon)@[i] == final(icon).pix(x, y2));
            }
        }
        if forall|i: int| 0 <= i < s0.len() ==> s0[i] == (Pixel { r: 12, g: 12, b: 12, a: 0 }) {
            assert forall|i: int| 0 <= i < final(icon)@.len() implies final(icon)@[i] == s0[i] by {
                lemma_linear_index(fw, fh, i);
                let x = i % fw;
                let y2 = i / fw;
                assert(s0[i] == (Pixel { r: 12, g: 12, b: 12, a: 0 }));
                assert(old(icon).pix(x, y2) == s0[i]);
                assert(lay.pix(x, y2) == layer0.pix(x, y2));
                lemma_border_alpha_zero(s0, fw, fh, x, y2, 25);
                assert(final(icon)@[i] == final(icon).pix(x, y2));
            }
        }
    }
}

/// A grid coordinate's linear index is in range, and the pixel there is the
/// grid pixel.
proof fn lemma_grid_index_full(w: int, h: int, x: int, y: int)
    requires
        0 <= x < w,
        0 <= y < h,
    ensures
        0 <= y * w + x < w * h,
        (y * w + x) % w == x,
        (y * w + x) / w == y,
{
    crate::pixel::lemma_grid_index(w, h, x, y);
    assert((y * w + x) % w == x && (y * w + x) / w == y) by (nonlinear_arith)
        requires
            0 <= x < w,
            0 <= y < h,
    ;
}

/// The border alpha is at most 255.
pub proof fn lemma_border_alpha_bound(s: Seq<Pixel>, w: int, h: int, x: int, y: int, k: int)
    ensures
        0 <= border_alpha_upto(s, w, h, x, y, k) <= 255,
    decreases k,
{
    if k > 0 {
        lemma_border_alpha_bound(s, w, h, x, y, k - 1);
    }
}


/// The remapped alpha always lies in `[0, 255]`.
pub proof fn lemma_curve_alpha_bounds(c: AlphaCurve, l: int, a: int)
    requires
        0 <= l <= 255,
        0 <= a <= 255,
    ensures
        0 <= curve_alpha(c, l, a) <= 255,
{
}

/// Law: after [`prepare`], every pixel whose remapped alpha is above zero is
/// grey, with its channel value inside the band `[223, 255]`.
pub proof fn lemma_prepare_band(s: Seq<Pixel>, c: AlphaCurve)
    ensures
        forall|i: int|
            #![trigger prepare_pixel(c, s[i], min_luma_upto(s, s.len() as int), max_luma_upto(s, s.len() as int))]
            0 <= i < s.len() && prepare_pixel(
                c,
                s[i],
                min_luma_upto(s, s.len() as int),
                max_luma_upto(s, s.len() as int),
            ).a > 0 ==> {
                let q = prepare_pixel(
                    c,
                    s[i],
                    min_luma_upto(s, s.len() as int),
                    max_luma_upto(s, s.len() as int),
                );
                223 <= q.r <= 255 && q.g == q.r && q.b == q.r
            },
{
    let lo = min_luma_upto(s, s.len() as int);
    let hi = max_luma_upto(s, s.len() as int);
    assert forall|i: int|
        0 <= i < s.len() && prepare_pixel(c, s[i], lo, hi).a > 0 implies {
        let q = prepare_pixel(c, s[i], lo, hi);
        223 <= q.r <= 255 && q.g == q.r && q.b == q.r
    } by {
        let p = s[i];
        if p.a > 0 {
            let l = luma(p);
            lemma_luma_bounds(p);
            lemma_curve_alpha_bounds(c, l, p.a as int);
            let a2 = curve_alpha(c, l, p.a as int);
            if a2 > 0 {
                lemma_luma_extremes(s, s.len() as int, i);
                if lo < hi {
                    lemma_band_in_range(l, lo, hi);
                }
            }
        }
    }
}

/// Law: after [`prepare`], the band is tight. Given a pixel that attains the
/// greyscale minimum and keeps alpha above zero, its channel value is exactly
/// 223; given one that attains the maximum, its channel value is exactly 255,
/// or 223 when the input's greyscale values were flat.
pub proof fn lemma_prepare_extremes(s: Seq<Pixel>, c: AlphaCurve, imin: int, imax: int)
    requires
        0 <= imin < s.len(),
        s[imin].a > 0,
        luma(s[imin]) == min_luma_upto(s, s.len() as int),
        curve_alpha(c, luma(s[imin]), s[imin].a as int) > 0,
        0 <= imax < s.len(),
        s[imax].a > 0,
        luma(s[imax]) == max_luma_upto(s, s.len() as int),
        curve_alpha(c, luma(s[imax]), s[imax].a as int) > 0,
    ensures
        ({
            let lo = min_luma_upto(s, s.len() as int);
            let hi = max_luma_upto(s, s.len() as int);
            prepare_pixel(c, s[imin], lo, hi).a > 0 && prepare_pixel(c, s[imin], lo, hi).r == 223
                && prepare_pixel(c, s[imax], lo, hi).a > 0 && (lo < hi ==> prepare_pixel(
                c,
                s[imax],
                lo,
                hi,
            ).r == 255) && (lo == hi ==> prepare_pixel(c, s[imax], lo, hi).r == 223)
        }),
{
    let lo = min_luma_upto(s, s.len() as int);
    let hi = max_luma_upto(s, s.len() as int);
    lemma_luma_bounds(s[imin]);
    lemma_luma_bounds(s[imax]);
    lemma_curve_alpha_bounds(c, luma(s[imin]), s[imin].a as int);
    lemma_curve_alpha_bounds(c, luma(s[imax]), s[imax].a as int);
    lemma_luma_extremes(s, s.len() as int, imin);
    lemma_luma_extremes(s, s.len() as int, imax);
    if lo < hi {
        lemma_band_in_range(luma(s[imin]), lo, hi);
        lemma_band_in_range(luma(s[imax]), lo, hi);
    }
}

} // verus!
