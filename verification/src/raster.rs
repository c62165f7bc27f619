//! Trusted boundary to the `image` crate: alpha-composited overlay and
//! Catmull-Rom resampling over [`PixelBuffer`] values.

use vstd::prelude::*;

use crate::pixel::{Pixel, PixelBuffer};

verus! {

/// The pixels of `top` alpha-composited over `bottom` at offset `(x, y)`:
/// the name of what `image::imageops::overlay` computes.
pub uninterp spec fn overlay_of(
    bottom: Seq<Pixel>,
    bw: int,
    bh: int,
    top: Seq<Pixel>,
    tw: int,
    th: int,
    x: int,
    y: int,
) -> Seq<Pixel>;

/// Relies on `image::imageops::overlay` with `Rgba<u8>` pixels: composites
/// `top` over `bottom` in place at offset `(x, y)`, clipped to `bottom`'s
/// bounds. Its `Rgba::blend` leaves a bottom pixel unchanged when the top
/// pixel's alpha is 0, and replaces it outright when that alpha is 255.
#[verifier::external_body]
pub fn overlay_at(bottom: &mut PixelBuffer, top: &PixelBuffer, x: u32, y: u32)
    requires
        old(bottom).wf(),
        top.wf(),
    ensures
        final(bottom).wf(),
        final(bottom).width == old(bottom).width,
        final(bottom).height == old(bottom).height,
        final(bottom)@ == overlay_of(
            old(bottom)@,
            old(bottom).width as int,
            old(bottom).height as int,
            top@,
            top.width as int,
            top.height as int,
            x as int,
            y as int,
        ),
        forall|px: int, py: int|
            old(bottom).in_bounds(px, py) && !(x <= px < x + top.width && y <= py < y
                + top.height) ==> final(bottom).pix(px, py) == old(bottom).pix(px, py),
        forall|px: int, py: int|
            old(bottom).in_bounds(px, py) && x <= px < x + top.width && y <= py < y + top.height
                && top.pix(px - x, py - y).a == 0 ==> final(bottom).pix(px, py) == old(
                bottom,
            ).pix(px, py),
        forall|px: int, py: int|
            old(bottom).in_bounds(px, py) && x <= px < x + top.width && y <= py < y + top.height
                && top.pix(px - x, py - y).a == 255 ==> final(bottom).pix(px, py) == top.pix(
                px - x,
                py - y,
            ),
{
    let mut img = image::RgbaImage::from_raw(
        bottom.width,
        bottom.height,
        bottom.pixels.iter().flat_map(|p| [p.r, p.g, p.b, p.a]).collect(),
    ).unwrap();
    let timg = image::RgbaImage::from_raw(
        top.width,
        top.height,
        top.pixels.iter().flat_map(|p| [p.r, p.g, p.b, p.a]).collect(),
    ).unwrap();
    image::imageops::overlay(&mut img, &timg, x as i64, y as i64);
    bottom.pixels = img.into_raw().chunks_exact(4).map(
        |c| Pixel { r: c[0], g: c[1], b: c[2], a: c[3] },
    ).collect();
}

/// The pixels of the Catmull-Rom resampling of a `w` x `h` image to `nw` x `nh`:
/// the name of what `image::imageops::resize` with `FilterType::CatmullRom`
/// computes.
pub uninterp spec fn resize_catmull_of(
    src: Seq<Pixel>,
    w: int,
    h: int,
    nw: int,
    nh: int,
) -> Seq<Pixel>;

/// Relies on `image::imageops::resize` with the Catmull-Rom filter: returns a
/// new `nw` x `nh` image resampled from the input.
#[verifier::external_body]
pub fn resize_catmull(src: &PixelBuffer, nw: u32, nh: u32) -> (r: PixelBuffer)
    requires
        src.wf(),
        src.width >= 1,
        src.height >= 1,
        nw >= 1,
        nh >= 1,
    ensures
        r.wf(),
        r.width == nw,
        r.height == nh,
        r@ == resize_catmull_of(src@, src.width as int, src.height as int, nw as int, nh as int),
{
    let img = image::RgbaImage::from_raw(
        src.width,
        src.height,
        src.pixels.iter().flat_map(|p| [p.r, p.g, p.b, p.a]).collect(),
    ).unwrap();
    let out = image::imageops::resize(&img, nw, nh, image::imageops::FilterType::CatmullRom);
    let pixels = out.into_raw().chunks_exact(4).map(
        |c| Pixel { r: c[0], g: c[1], b: c[2], a: c[3] },
    ).collect();
    PixelBuffer { width: nw, height: nh, pixels }
}

} // verus!
