//! Pixel-transform behaviour: the pinned luma weights, the alpha curves, the
//! fade factors, glow whitening, border synthesis and recentering.

use texkit::pixel::{Pixel, PixelBuffer};
use texkit::transform::{add_border, fade, glow_whiten, luma_of, prepare, AlphaCurve, Fade};

fn px(r: u8, g: u8, b: u8, a: u8) -> Pixel {
    Pixel { r, g, b, a }
}

fn buf(width: u32, height: u32, pixels: Vec<Pixel>) -> PixelBuffer {
    assert_eq!(pixels.len(), (width * height) as usize);
    PixelBuffer { width, height, pixels }
}

#[test]
fn luma_uses_pinned_weights() {
    // 0.299 / 0.587 / 0.144, each term truncated, summed, clamped at 255.
    assert_eq!(luma_of(px(255, 255, 255, 255)), 255); // 76 + 149 + 36 = 261 -> 255
    assert_eq!(luma_of(px(100, 100, 100, 255)), 101); // 29 + 58 + 14
    assert_eq!(luma_of(px(255, 0, 0, 255)), 76);
    assert_eq!(luma_of(px(0, 255, 0, 255)), 149);
    assert_eq!(luma_of(px(0, 0, 255, 255)), 36); // the non-standard blue weight
    assert_eq!(luma_of(px(0, 0, 0, 255)), 0);
}

#[test]
fn prepare_rescales_into_bright_band() {
    // Two pixels with distinct lumas: after prepare, min channel is 223 and
    // max is 255.
    let mut b = buf(2, 1, vec![px(0, 0, 0, 255), px(255, 255, 255, 255)]);
    prepare(&mut b, AlphaCurve::Job);
    assert_eq!(b.pixels[0], px(223, 223, 223, 255)); // job curve: 4*255-765 = 255
    assert_eq!(b.pixels[1], px(255, 255, 255, 255));
}

#[test]
fn prepare_flat_image_lands_on_band_floor() {
    let mut b = buf(1, 1, vec![px(200, 200, 200, 255)]);
    prepare(&mut b, AlphaCurve::Job);
    assert_eq!(b.pixels[0].r, 223);
    assert_eq!(b.pixels[0].g, 223);
    assert_eq!(b.pixels[0].b, 223);
}

#[test]
fn job_alpha_curve_keeps_only_nearly_opaque() {
    // alpha' = max(0, a/255 - 0.75) * 4 * 255 = max(0, 4a - 765)
    let mut b = buf(3, 1, vec![px(10, 10, 10, 191), px(10, 10, 10, 192), px(10, 10, 10, 255)]);
    prepare(&mut b, AlphaCurve::Job);
    assert_eq!(b.pixels[0].a, 0);
    assert_eq!(b.pixels[1].a, 3);
    assert_eq!(b.pixels[2].a, 255);
}

#[test]
fn tribe_alpha_curve_thresholds_on_alpha_and_luma() {
    // alpha' = clamp(luma*4 - 512, 0, 255) where a > 200, else 0.
    let mut b = buf(2, 1, vec![px(150, 150, 150, 200), px(150, 150, 150, 201)]);
    // luma(150,150,150) = 44 + 88 + 21 = 153; 153*4 - 512 = 100.
    prepare(&mut b, AlphaCurve::Tribe);
    assert_eq!(b.pixels[0].a, 0);
    assert_eq!(b.pixels[1].a, 100);
}

#[test]
fn shop_alpha_curve_inverts_brightness() {
    // alpha' = 255 - clamp(luma*30 - 2048, 0, 255) where a > 240, else 0.
    let mut b = buf(2, 1, vec![px(100, 100, 100, 255), px(100, 100, 100, 240)]);
    // luma = 101; 101*30 - 2048 = 982 -> clamped 255 -> alpha 0.
    prepare(&mut b, AlphaCurve::Shop);
    assert_eq!(b.pixels[0].a, 0);
    assert_eq!(b.pixels[1].a, 0);
    let mut c = buf(1, 1, vec![px(70, 70, 70, 255)]);
    // luma(70,70,70) = 20 + 41 + 10 = 71; 71*30 - 2048 = 82; alpha = 173.
    prepare(&mut c, AlphaCurve::Shop);
    assert_eq!(c.pixels[0].a, 173);
}

#[test]
fn fade_scales_alpha_truncating() {
    // A pixel with alpha 200: the 0.8 fade gives 160, the 0.3 fade gives 60.
    let mut b = buf(1, 1, vec![px(9, 8, 7, 200)]);
    fade(&mut b, Fade::Light);
    assert_eq!(b.pixels[0], px(9, 8, 7, 160));
    let mut c = buf(1, 1, vec![px(9, 8, 7, 200)]);
    fade(&mut c, Fade::Heavy);
    assert_eq!(c.pixels[0], px(9, 8, 7, 60));
    // Truncation, not rounding: alpha 3 at 0.8 is 2 (12/5 truncated).
    let mut d = buf(1, 1, vec![px(0, 0, 0, 3)]);
    fade(&mut d, Fade::Light);
    assert_eq!(d.pixels[0].a, 2);
}

#[test]
fn glow_whitens_and_quadruples_alpha() {
    let mut b = buf(2, 1, vec![px(1, 2, 3, 50), px(1, 2, 3, 100)]);
    glow_whiten(&mut b);
    assert_eq!(b.pixels[0], px(255, 255, 255, 200));
    assert_eq!(b.pixels[1], px(255, 255, 255, 255)); // min(400, 255)
}

#[test]
fn border_feathers_alpha_by_distance() {
    // A single opaque pixel at the centre of a 7x7 canvas: the border layer
    // gets full alpha within distance 2, the feathered values at squared
    // distances 5 and 8, and the original pixel is kept on top.
    let mut pixels = vec![px(0, 0, 0, 0); 49];
    pixels[3 * 7 + 3] = px(200, 100, 50, 255);
    let mut b = buf(7, 7, pixels);
    add_border(&mut b);
    assert_eq!(b.pixels[3 * 7 + 3], px(200, 100, 50, 255)); // opaque top kept
    assert_eq!(b.pixels[3 * 7 + 1].a, 255); // distance 2
    assert_eq!(b.pixels[1 * 7 + 2].a, 194); // squared distance 5: 255*3204163/4194304
    assert_eq!(b.pixels[1 * 7 + 1].a, 43); // squared distance 8: 255*719629/4194304
    assert_eq!(b.pixels[0], px(12, 12, 12, 0)); // out of reach, near-black
    assert_eq!(b.pixels[1 * 7 + 1].r, 12);
}

#[test]
fn border_is_fixed_point_on_fully_opaque() {
    let pixels: Vec<Pixel> = (0..16).map(|i| px(i as u8 * 3, 7, 100, 255)).collect();
    let b0 = buf(4, 4, pixels);
    let mut b = b0.duplicate();
    add_border(&mut b);
    assert_eq!(b.pixels, b0.pixels);
}

#[test]
fn border_settles_fully_transparent_after_one_pass() {
    let mut b = buf(3, 3, vec![px(50, 60, 70, 0); 9]);
    add_border(&mut b);
    assert!(b.pixels.iter().all(|p| *p == px(12, 12, 12, 0)));
    let snapshot = b.pixels.clone();
    add_border(&mut b);
    assert_eq!(b.pixels, snapshot);
}

#[test]
fn center_translates_content_to_middle() {
    // One content pixel at the top-left of a 5x5 canvas moves to the centre.
    let mut pixels = vec![px(0, 0, 0, 0); 25];
    pixels[0] = px(1, 2, 3, 255);
    let mut b = buf(5, 5, pixels);
    texkit::center::center(&mut b, false);
    assert_eq!(b.pixels[2 * 5 + 2], px(1, 2, 3, 255));
    assert_eq!(b.pixels[0], px(0, 0, 0, 0));
}

#[test]
fn center_vertical_only_keeps_columns() {
    let mut pixels = vec![px(0, 0, 0, 0); 25];
    pixels[0] = px(1, 2, 3, 255);
    let mut b = buf(5, 5, pixels);
    texkit::center::center(&mut b, true);
    assert_eq!(b.pixels[2 * 5 + 0], px(1, 2, 3, 255));
}

#[test]
fn center_is_idempotent_on_unclipped_content() {
    let mut pixels = vec![px(0, 0, 0, 0); 49];
    pixels[1 * 7 + 2] = px(1, 2, 3, 255);
    pixels[2 * 7 + 3] = px(4, 5, 6, 200);
    let mut once = buf(7, 7, pixels);
    texkit::center::center(&mut once, false);
    let mut twice = once.duplicate();
    texkit::center::center(&mut twice, false);
    assert_eq!(once.pixels, twice.pixels);
}

#[test]
fn center_drops_pixels_below_threshold() {
    // Alpha 50 is not content; the canvas is scanned for alpha above 50.
    let mut pixels = vec![px(0, 0, 0, 0); 9];
    pixels[0] = px(1, 1, 1, 50);
    let mut b = buf(3, 3, pixels);
    texkit::center::center(&mut b, false);
    // No content: the sentinel offsets empty the canvas.
    assert!(b.pixels.iter().all(|p| p.a == 0));
}

#[test]
fn sub_region_copies_the_window() {
    let pixels: Vec<Pixel> = (0..12).map(|i| px(i as u8, 0, 0, 255)).collect();
    let b = buf(4, 3, pixels);
    let s = b.sub_region(1, 1, 2, 2);
    assert_eq!(s.width, 2);
    assert_eq!(s.height, 2);
    assert_eq!(s.pixels[0], px(5, 0, 0, 255));
    assert_eq!(s.pixels[3], px(10, 0, 0, 255));
}

#[test]
fn resize_resamples_to_target_dimensions() {
    // Catmull-Rom resampling through the raster boundary: a solid image stays
    // solid and the dimensions change.
    let b = buf(2, 2, vec![px(100, 150, 200, 255); 4]);
    let r = texkit::raster::resize_catmull(&b, 4, 4);
    assert_eq!(r.width, 4);
    assert_eq!(r.height, 4);
    assert_eq!(r.pixels.len(), 16);
    assert_eq!(r.pixels[5], px(100, 150, 200, 255));
}

#[test]
fn overlay_composites_top_over_bottom() {
    let mut bottom = buf(2, 2, vec![px(10, 20, 30, 255); 4]);
    let top = buf(1, 1, vec![px(200, 0, 0, 255)]);
    texkit::raster::overlay_at(&mut bottom, &top, 1, 0);
    assert_eq!(bottom.pixels[1], px(200, 0, 0, 255));
    assert_eq!(bottom.pixels[0], px(10, 20, 30, 255));
    let transparent = buf(1, 1, vec![px(99, 99, 99, 0)]);
    texkit::raster::overlay_at(&mut bottom, &transparent, 0, 0);
    assert_eq!(bottom.pixels[0], px(10, 20, 30, 255));
}
