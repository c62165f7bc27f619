//! Per-asset-family icon recipes: the fixed id ranges, game paths, role colour
//! table, composite-descriptor construction, and the family-specific pixel
//! steps (corner cutouts, frames, masks) that the extraction pipelines apply.

use vstd::prelude::*;
use vstd::string::StringSliceAdditionalSpecFns;

use crate::composite::{Blend, ColorOption, Layer, Modifier, OptionOrStatic, Path, Tex};
use crate::pixel::{Pixel, PixelBuffer};
use crate::text::{dec_digits, dec_padded, push_dec, push_dec_padded, push_lit};

verus! {

/// The game path of a numeric icon id:
/// `ui/icon/{id/1000 :03}000/{id :06}_hr1.tex`.
pub open spec fn icon_path_spec(id: int) -> Seq<u8> {
    ("ui/icon/").spec_bytes() + dec_padded(id / 1000, 3) + ("000/").spec_bytes() + dec_padded(
        id,
        6,
    ) + ("_hr1.tex").spec_bytes()
}

/// The game path of a numeric icon id, as UTF-8 bytes.
pub fn icon_path(id: u64) -> (r: Vec<u8>)
    ensures
        r@ == icon_path_spec(id as int),
{
    let mut out: Vec<u8> = Vec::new();
    push_lit(&mut out, "ui/icon/");
    push_dec_padded(&mut out, id / 1000, 3);
    push_lit(&mut out, "000/");
    push_dec_padded(&mut out, id, 6);
    push_lit(&mut out, "_hr1.tex");
    out
}

/// Whether one layer of a per-id composite has the expected shape: name
/// `Layer{idx}`, mod path `{dir}/{idx}.tex`, normal blend, and either a single
/// colour modifier naming the colour option or no modifier at all.
pub open spec fn comp_layer_ok(l: Layer, dir: Seq<u8>, copt: Option<Vec<u8>>, idx: int) -> bool {
    &&& l.name@ == ("Layer").spec_bytes() + dec_digits(idx)
    &&& (l.path matches Path::Mod(p) && p@ == dir + ("/").spec_bytes() + dec_digits(idx) + (
    ".tex").spec_bytes())
    &&& (l.blend matches Blend::Normal)
    &&& match copt {
        Some(c) => l.modifiers@.len() == 1 && (l.modifiers@[0] matches Modifier::Color { value }
            && (value matches OptionOrStatic::Option(co) && co.0@ == c@)),
        None => l.modifiers@.len() == 0,
    }
}

/// Build the composite descriptor for a per-id output directory: one layer per
/// texture index, colour-modified where a colour option is named, built
/// bottom-up and reversed so index 0 of the result is the topmost layer.
pub fn comp_layers(local_dir: &Vec<u8>, colors: &Vec<Option<Vec<u8>>>) -> (r: Tex)
    ensures
        r.layers@.len() == colors@.len(),
        forall|i: int|
            0 <= i < colors@.len() ==> comp_layer_ok(
                #[trigger] r.layers@[i],
                local_dir@,
                colors@[colors@.len() - 1 - i],
                colors@.len() - 1 - i,
            ),
{
    let n: usize = colors.len();
    let mut layers: Vec<Layer> = Vec::new();
    let mut k: usize = 0;
    while k < n
        invariant
            colors@.len() == n,
            k <= n,
            layers@.len() == k,
            forall|i: int|
                0 <= i < k ==> comp_layer_ok(
                    #[trigger] layers@[i],
                    local_dir@,
                    colors@[n - 1 - i],
                    n - 1 - i,
                ),
        decreases n - k,
    {
        let idx: usize = n - 1 - k;
        let mut name: Vec<u8> = Vec::new();
        push_lit(&mut name, "Layer");
        push_dec(&mut name, idx as u64);
        let mut path: Vec<u8> = Vec::new();
        crate::text::push_bytes(&mut path, local_dir);
        push_lit(&mut path, "/");
        push_dec(&mut path, idx as u64);
        push_lit(&mut path, ".tex");
        let modifiers: Vec<Modifier> = match &colors[idx] {
            Some(c) => {
                let mut ms: Vec<Modifier> = Vec::new();
                ms.push(
                    Modifier::Color {
                        value: OptionOrStatic::Option(ColorOption(crate::text::clone_bytes(c))),
                    },
                );
                ms
            },
            None => Vec::new(),
        };
        let layer = Layer { name, path: Path::Mod(path), modifiers, blend: Blend::Normal };
        layers.push(layer);
        k = k + 1;
    }
    Tex { layers }
}

/// The role colour option of a job icon index, for indexes 1 through 45: the
/// class and job rows, the crafter and gatherer rows, and the three non-job
/// slots (chocobo, carbuncle, free slot) under "No Job Color".
pub open spec fn job_role_spec(i: int) -> Seq<u8> {
    if i == 1 || i == 19 {
        ("Pld Color").spec_bytes()
    } else if i == 2 || i == 20 {
        ("Mnk Color").spec_bytes()
    } else if i == 3 || i == 21 {
        ("War Color").spec_bytes()
    } else if i == 4 || i == 22 {
        ("Drg Color").spec_bytes()
    } else if i == 5 || i == 23 {
        ("Brd Color").spec_bytes()
    } else if i == 6 || i == 24 {
        ("Whm Color").spec_bytes()
    } else if i == 7 || i == 25 {
        ("Blm Color").spec_bytes()
    } else if i == 8 {
        ("Crp Color").spec_bytes()
    } else if i == 9 {
        ("Bsm Color").spec_bytes()
    } else if i == 10 {
        ("Arm Color").spec_bytes()
    } else if i == 11 {
        ("Gsm Color").spec_bytes()
    } else if i == 12 {
        ("Ltw Color").spec_bytes()
    } else if i == 13 {
        ("Wvr Color").spec_bytes()
    } else if i == 14 {
        ("Alc Color").spec_bytes()
    } else if i == 15 {
        ("Cul Color").spec_bytes()
    } else if i == 16 {
        ("Min Color").spec_bytes()
    } else if i == 17 {
        ("Bot Color").spec_bytes()
    } else if i == 18 {
        ("Fsh Color").spec_bytes()
    } else if i == 26 || i == 27 {
        ("Smn Color").spec_bytes()
    } else if i == 28 {
        ("Sch Color").spec_bytes()
    } else if i == 29 || i == 30 {
        ("Nin Color").spec_bytes()
    } else if i == 31 {
        ("Mch Color").spec_bytes()
    } else if i == 32 {
        ("Drk Color").spec_bytes()
    } else if i == 33 {
        ("Ast Color").spec_bytes()
    } else if i == 34 {
        ("Sam Color").spec_bytes()
    } else if i == 35 {
        ("Rdm Color").spec_bytes()
    } else if i == 36 {
        ("Blu Color").spec_bytes()
    } else if i == 37 {
        ("Gnb Color").spec_bytes()
    } else if i == 38 {
        ("Dnc Color").spec_bytes()
    } else if i == 39 {
        ("Rpr Color").spec_bytes()
    } else if i == 40 {
        ("Sge Color").spec_bytes()
    } else if i == 41 {
        ("Vpr Color").spec_bytes()
    } else if i == 42 {
        ("Pct Color").spec_bytes()
    } else {
        ("No Job Color").spec_bytes()
    }
}

/// The role colour option of a job icon index, or `None` outside 1..=45.
pub fn job_color_role(i: u64) -> (r: Option<Vec<u8>>)
    ensures
        match r {
            Some(s) => 1 <= i <= 45 && s@ == job_role_spec(i as int),
            None => !(1 <= i <= 45),
        },
{
    if i < 1 || i > 45 {
        return None;
    }
    let s: Vec<u8> = if i == 1 || i == 19 {
        crate::text::lit_bytes("Pld Color")
    } else if i == 2 || i == 20 {
        crate::text::lit_bytes("Mnk Color")
    } else if i == 3 || i == 21 {
        crate::text::lit_bytes("War Color")
    } else if i == 4 || i == 22 {
        crate::text::lit_bytes("Drg Color")
    } else if i == 5 || i == 23 {
        crate::text::lit_bytes("Brd Color")
    } else if i == 6 || i == 24 {
        crate::text::lit_bytes("Whm Color")
    } else if i == 7 || i == 25 {
        crate::text::lit_bytes("Blm Color")
    } else if i == 8 {
        crate::text::lit_bytes("Crp Color")
    } else if i == 9 {
        crate::text::lit_bytes("Bsm Color")
    } else if i == 10 {
        crate::text::lit_bytes("Arm Color")
    } else if i == 11 {
        crate::text::lit_bytes("Gsm Color")
    } else if i == 12 {
        crate::text::lit_bytes("Ltw Color")
    } else if i == 13 {
        crate::text::lit_bytes("Wvr Color")
    } else if i == 14 {
        crate::text::lit_bytes("Alc Color")
    } else if i == 15 {
        crate::text::lit_bytes("Cul Color")
    } else if i == 16 {
        crate::text::lit_bytes("Min Color")
    } else if i == 17 {
        crate::text::lit_bytes("Bot Color")
    } else if i == 18 {
        crate::text::lit_bytes("Fsh Color")
    } else if i == 26 || i == 27 {
        crate::text::lit_bytes("Smn Color")
    } else if i == 28 {
        crate::text::lit_bytes("Sch Color")
    } else if i == 29 || i == 30 {
        crate::text::lit_bytes("Nin Color")
    } else if i == 31 {
        crate::text::lit_bytes("Mch Color")
    } else if i == 32 {
        crate::text::lit_bytes("Drk Color")
    } else if i == 33 {
        crate::text::lit_bytes("Ast Color")
    } else if i == 34 {
        crate::text::lit_bytes("Sam Color")
    } else if i == 35 {
        crate::text::lit_bytes("Rdm Color")
    } else if i == 36 {
        crate::text::lit_bytes("Blu Color")
    } else if i == 37 {
        crate::text::lit_bytes("Gnb Color")
    } else if i == 38 {
        crate::text::lit_bytes("Dnc Color")
    } else if i == 39 {
        crate::text::lit_bytes("Rpr Color")
    } else if i == 40 {
        crate::text::lit_bytes("Sge Color")
    } else if i == 41 {
        crate::text::lit_bytes("Vpr Color")
    } else if i == 42 {
        crate::text::lit_bytes("Pct Color")
    } else {
        crate::text::lit_bytes("No Job Color")
    };
    Some(s)
}

/// The job-icon id families: content, party list, macro and nameplate icons
/// all share the per-job index `i`.
pub fn job_icon_ids(i: u64) -> (r: (u64, u64, u64, u64))
    requires
        1 <= i <= 99,
    ensures
        r.0 == 62000 + i,
        r.1 == 62100 + i,
        r.2 == 62800 + i,
        r.3 == 62225 + i,
{
    (62000 + i, 62100 + i, 62800 + i, 62225 + i)
}

/// The sprite-sheet cell origin of job index `i`: twelve 40-pixel cells per
/// row with a 2-pixel inset, rows starting at 700.
pub fn sheet_cell_origin(i: u64) -> (r: (u32, u32))
    requires
        1 <= i <= 99,
    ensures
        r.0 == ((i - 1) % 12) * 40 + 2,
        r.1 == 700 + ((i - 1) / 12) * 40 + 2,
{
    let col: u64 = (i - 1) % 12;
    let row: u64 = (i - 1) / 12;
    (((col * 40) + 2) as u32, (700 + row * 40 + 2) as u32)
}

/// Whether a job role takes part in the sprite-sheet ("font") accumulators:
/// every role but "No Job Color" does.
pub fn font_sheet_eligible(role: &Vec<u8>) -> (r: bool)
    ensures
        r <==> role@ != ("No Job Color").spec_bytes(),
{
    !crate::text::eq_lit(role, "No Job Color")
}

/// The alpha mask for the font sheets: black rows over the two icon bands
/// (four rows of 20-pixel cells from 180, four rows of 40-pixel cells from
/// 700), white everywhere else, fully opaque.
pub open spec fn font_mask_pixel(y: int) -> Pixel {
    if (180 <= y < 260) || (700 <= y < 860) {
        Pixel { r: 0, g: 0, b: 0, a: 255 }
    } else {
        Pixel { r: 255, g: 255, b: 255, a: 255 }
    }
}

/// Build the 512 x 1024 font-sheet alpha mask.
pub fn font_mask() -> (r: PixelBuffer)
    ensures
        r.wf(),
        r.width == 512,
        r.height == 1024,
        forall|x: int, y: int| r.in_bounds(x, y) ==> r.pix(x, y) == font_mask_pixel(y),
{
    let mut buf = PixelBuffer::new(512, 1024);
    let mut y: u32 = 0;
    while y < 1024
        invariant
            buf.wf(),
            buf.width == 512,
            buf.height == 1024,
            y <= 1024,
            forall|x2: int, y2: int|
                #![trigger buf.pix(x2, y2)]
                0 <= x2 < 512 && 0 <= y2 < y ==> buf.pix(x2, y2) == font_mask_pixel(y2),
        decreases 1024 - y,
    {
        let p: Pixel = if (180 <= y && y < 260) || (700 <= y && y < 860) {
            Pixel { r: 0, g: 0, b: 0, a: 255 }
        } else {
            Pixel { r: 255, g: 255, b: 255, a: 255 }
        };
        let mut x: u32 = 0;
        while x < 512
            invariant
                buf.wf(),
                buf.width == 512,
                buf.height == 1024,
                y < 1024,
                x <= 512,
                p == font_mask_pixel(y as int),
                forall|x2: int, y2: int|
                    #![trigger buf.pix(x2, y2)]
                    0 <= x2 < 512 && 0 <= y2 < y ==> buf.pix(x2, y2) == font_mask_pixel(y2),
                forall|x2: int|
                    #![trigger buf.pix(x2, y as int)]
                    0 <= x2 < x ==> buf.pix(x2, y as int) == font_mask_pixel(y as int),
            decreases 512 - x,
        {
            buf.set(x, y, p);
            x = x + 1;
        }
        y = y + 1;
    }
    buf
}


/// Whether a silver-bordered icon cell is zeroed by the frame cutout: the
/// six-pixel band on every edge, and a small diagonal notch in each of the
/// four inner corners.
pub open spec fn silver_cut(w: int, x: int, y: int) -> bool {
    ||| y < 6
    ||| y >= w - 6
    ||| x < 6
    ||| x >= w - 6
    ||| (6 <= x && 6 <= y && (x - 6) + (y - 6) <= 3)
    ||| (x <= w - 7 && 6 <= y && ((w - 7) - x) + (y - 6) <= 3)
    ||| (6 <= x && y <= w - 7 && (x - 6) + ((w - 7) - y) <= 3)
    ||| (x <= w - 7 && y <= w - 7 && ((w - 7) - x) + ((w - 7) - y) <= 3)
}

/// Zero the silver-bordered frame region of a square icon: the six-pixel edge
/// band and the four inner corner notches become fully transparent black.
pub fn silver_frame(icon: &mut PixelBuffer)
    requires
        old(icon).wf(),
        old(icon).width == old(icon).height,
        old(icon).width >= 13,
    ensures
        final(icon).wf(),
        final(icon).width == old(icon).width,
        final(icon).height == old(icon).height,
        forall|x: int, y: int|
            old(icon).in_bounds(x, y) ==> final(icon).pix(x, y) == (if silver_cut(
                old(icon).width as int,
                x,
                y,
            ) {
                Pixel { r: 0, g: 0, b: 0, a: 0 }
            } else {
                old(icon).pix(x, y)
            }),
{
    let w = icon.width;
    let mut y: u32 = 0;
    while y < w
        invariant
            icon.wf(),
            icon.width == w,
            icon.height == w,
            w >= 13,
            y <= w,
            forall|x2: int, y2: int|
                #![trigger final(icon).pix(x2, y2)]
                0 <= x2 < w && 0 <= y2 < w && y2 < y ==> icon.pix(x2, y2) == (if silver_cut(
                    w as int,
                    x2,
                    y2,
                ) {
                    Pixel { r: 0, g: 0, b: 0, a: 0 }
                } else {
                    old(icon).pix(x2, y2)
                }),
            forall|x2: int, y2: int|
                #![trigger icon.pix(x2, y2)]
                0 <= x2 < w && y <= y2 < w ==> icon.pix(x2, y2) == old(icon).pix(x2, y2),
            forall|x2: int, y2: int|
                #![trigger icon.pix(x2, y2)]
                0 <= x2 < w && 0 <= y2 < y ==> icon.pix(x2, y2) == (if silver_cut(
                    w as int,
                    x2,
                    y2,
                ) {
                    Pixel { r: 0, g: 0, b: 0, a: 0 }
                } else {
                    old(icon).pix(x2, y2)
                }),
        decreases w - y,
    {
        let mut x: u32 = 0;
        while x < w
            invariant
                icon.wf(),
                icon.width == w,
                icon.height == w,
                w >= 13,
                y < w,
                x <= w,
                forall|x2: int, y2: int|
                    #![trigger icon.pix(x2, y2)]
                    0 <= x2 < w && y <= y2 < w && !(y2 == y && x2 < x) ==> icon.pix(x2, y2) == old(
                        icon,
                    ).pix(x2, y2),
                forall|x2: int, y2: int|
                    #![trigger icon.pix(x2, y2)]
                    0 <= x2 < w && 0 <= y2 < y ==> icon.pix(x2, y2) == (if silver_cut(
                        w as int,
                        x2,
                        y2,
                    ) {
                        Pixel { r: 0, g: 0, b: 0, a: 0 }
                    } else {
                        old(icon).pix(x2, y2)
                    }),
                forall|x2: int|
                    #![trigger icon.pix(x2, y as int)]
                    0 <= x2 < x ==> icon.pix(x2, y as int) == (if silver_cut(
                        w as int,
                        x2,
                        y as int,
                    ) {
                        Pixel { r: 0, g: 0, b: 0, a: 0 }
                    } else {
                        old(icon).pix(x2, y as int)
                    }),
            decreases w - x,
        {
            let cut: bool = if y < 6 || (y as u64) + 6 >= w as u64 || x < 6 || (x as u64) + 6
                >= w as u64 {
                true
            } else {
                let dl: u32 = x - 6;
                let dr: u32 = (w - 7) - x;
                let dt: u32 = y - 6;
                let db: u32 = (w - 7) - y;
                let dl = dl as u64;
                let dr = dr as u64;
                let dt = dt as u64;
                let db = db as u64;
                dl + dt <= 3 || dr + dt <= 3 || dl + db <= 3 || dr + db <= 3
            };
            proof {
                assert(cut == silver_cut(w as int, x as int, y as int));
            }
            if cut {
                icon.set(x, y, Pixel { r: 0, g: 0, b: 0, a: 0 });
            }
            x = x + 1;
        }
        y = y + 1;
    }
}

/// The shop-icon inset: the central 32 x 32 region of the source icon placed
/// at (4, 4) on a fresh 40 x 40 canvas.
pub fn shop_inset(icon: &PixelBuffer) -> (r: PixelBuffer)
    requires
        icon.wf(),
        icon.width >= 36,
        icon.height >= 36,
    ensures
        r.wf(),
        r.width == 40,
        r.height == 40,
        forall|x: int, y: int|
            0 <= x < 40 && 0 <= y < 40 && !(4 <= x < 36 && 4 <= y < 36) ==> #[trigger] r.pix(x, y)
                == (Pixel { r: 0, g: 0, b: 0, a: 0 }),
        forall|x: int, y: int|
            4 <= x < 36 && 4 <= y < 36 && icon.pix(x, y).a == 255 ==> #[trigger] r.pix(x, y)
                == icon.pix(x, y),
        forall|x: int, y: int|
            4 <= x < 36 && 4 <= y < 36 && icon.pix(x, y).a == 0 ==> #[trigger] r.pix(x, y) == (
            Pixel { r: 0, g: 0, b: 0, a: 0 }),
{
    let sub = icon.sub_region(4, 4, 32, 32);
    let mut out = PixelBuffer::new(40, 40);
    crate::raster::overlay_at(&mut out, &sub, 4, 4);
    proof {
        assert forall|x: int, y: int|
            4 <= x < 36 && 4 <= y < 36 && icon.pix(x, y).a == 255 implies #[trigger] out.pix(x, y)
            == icon.pix(x, y) by {
            assert(sub.pix(x - 4, y - 4) == icon.pix(x, y));
        }
        assert forall|x: int, y: int|
            4 <= x < 36 && 4 <= y < 36 && icon.pix(x, y).a == 0 implies #[trigger] out.pix(x, y)
            == (Pixel { r: 0, g: 0, b: 0, a: 0 }) by {
            assert(sub.pix(x - 4, y - 4) == icon.pix(x, y));
        }
    }
    out
}

/// What one pixel becomes under the menu-icon threshold: bright pixels (red
/// above 100 and green above 70) become pure opaque white, every other pixel
/// with alpha becomes fully transparent, and already-transparent pixels are
/// kept.
pub open spec fn menu_mask_pixel(p: Pixel) -> Pixel {
    if p.a > 0 {
        if p.r > 100 && p.g > 70 {
            Pixel { r: 255, g: 255, b: 255, a: 255 }
        } else {
            Pixel { r: p.r, g: p.g, b: p.b, a: 0 }
        }
    } else {
        p
    }
}

/// Apply the menu-icon brightness threshold to every pixel.
pub fn menu_mask(buf: &mut PixelBuffer)
    requires
        old(buf).wf(),
    ensures
        final(buf).wf(),
        final(buf).width == old(buf).width,
        final(buf).height == old(buf).height,
        forall|i: int|
            0 <= i < old(buf)@.len() ==> final(buf)@[i] == menu_mask_pixel(old(buf)@[i]),
{
    let ghost s0 = buf@;
    let n: usize = buf.pixels.len();
    let mut i: usize = 0;
    while i < n
        invariant
            buf.pixels@.len() == n,
            s0.len() == n,
            buf.width == old(buf).width,
            buf.height == old(buf).height,
            buf.wf(),
            i <= n,
            forall|j: int| #![trigger buf@[j]] i <= j < n ==> buf@[j] == s0[j],
            forall|j: int| #![trigger buf@[j]] 0 <= j < i ==> buf@[j] == menu_mask_pixel(s0[j]),
        decreases n - i,
    {
        let p = buf.pixels[i];
        proof {
            assert(buf@[i as int] == s0[i as int]);
        }
        if p.a > 0 {
            if p.r > 100 && p.g > 70 {
                buf.pixels.set(i, Pixel { r: 255, g: 255, b: 255, a: 255 });
            } else {
                buf.pixels.set(i, Pixel { r: p.r, g: p.g, b: p.b, a: 0 });
            }
        }
        proof {
            assert(buf@[i as int] == menu_mask_pixel(s0[i as int]));
        }
        i = i + 1;
    }
}

/// What one pixel becomes under the menu-icon greyscale pass: pixels with
/// alpha have their colour channels set to the greyscale value, keeping alpha.
pub open spec fn menu_grey_pixel(p: Pixel) -> Pixel {
    if p.a > 0 {
        Pixel {
            r: crate::transform::luma(p) as u8,
            g: crate::transform::luma(p) as u8,
            b: crate::transform::luma(p) as u8,
            a: p.a,
        }
    } else {
        p
    }
}

/// Grey out every pixel with alpha, keeping its alpha: the menu recipe's final
/// pass after the border is added.
pub fn menu_grey(buf: &mut PixelBuffer)
    requires
        old(buf).wf(),
    ensures
        final(buf).wf(),
        final(buf).width == old(buf).width,
        final(buf).height == old(buf).height,
        forall|i: int|
            0 <= i < old(buf)@.len() ==> final(buf)@[i] == menu_grey_pixel(old(buf)@[i]),
{
    let ghost s0 = buf@;
    let n: usize = buf.pixels.len();
    let mut i: usize = 0;
    while i < n
        invariant
            buf.pixels@.len() == n,
            s0.len() == n,
            buf.width == old(buf).width,
            buf.height == old(buf).height,
            buf.wf(),
            i <= n,
            forall|j: int| #![trigger buf@[j]] i <= j < n ==> buf@[j] == s0[j],
            forall|j: int| #![trigger buf@[j]] 0 <= j < i ==> buf@[j] == menu_grey_pixel(s0[j]),
        decreases n - i,
    {
        let p = buf.pixels[i];
        proof {
            assert(buf@[i as int] == s0[i as int]);
        }
        if p.a > 0 {
            let l = crate::transform::luma_of(p);
            buf.pixels.set(i, Pixel { r: l, g: l, b: l, a: p.a });
        }
        proof {
            assert(buf@[i as int] == menu_grey_pixel(s0[i as int]));
        }
        i = i + 1;
    }
}

/// A menu-background cell: opaque white except a five-pixel diagonal cut in
/// each corner of the 80 x 80 canvas.
pub open spec fn menu_bg_pixel(x: int, y: int) -> Pixel {
    let cx = if x < 40 {
        x
    } else {
        79 - x
    };
    let cy = if y < 40 {
        y
    } else {
        79 - y
    };
    if cx + cy <= 5 {
        Pixel { r: 0, g: 0, b: 0, a: 0 }
    } else {
        Pixel { r: 255, g: 255, b: 255, a: 255 }
    }
}

/// Build the 80 x 80 menu-icon background: opaque white with the four corners
/// cut on the diagonal.
pub fn menu_background() -> (r: PixelBuffer)
    ensures
        r.wf(),
        r.width == 80,
        r.height == 80,
        forall|x: int, y: int| r.in_bounds(x, y) ==> r.pix(x, y) == menu_bg_pixel(x, y),
{
    let mut buf = PixelBuffer::new(80, 80);
    let mut y: u32 = 0;
    while y < 80
        invariant
            buf.wf(),
            buf.width == 80,
            buf.height == 80,
            y <= 80,
            forall|x2: int, y2: int|
                #![trigger buf.pix(x2, y2)]
                0 <= x2 < 80 && 0 <= y2 < y ==> buf.pix(x2, y2) == menu_bg_pixel(x2, y2),
        decreases 80 - y,
    {
        let mut x: u32 = 0;
        while x < 80
            invariant
                buf.wf(),
                buf.width == 80,
                buf.height == 80,
                y < 80,
                x <= 80,
                forall|x2: int, y2: int|
                    #![trigger buf.pix(x2, y2)]
                    0 <= x2 < 80 && 0 <= y2 < y ==> buf.pix(x2, y2) == menu_bg_pixel(x2, y2),
                forall|x2: int|
                    #![trigger buf.pix(x2, y as int)]
                    0 <= x2 < x ==> buf.pix(x2, y as int) == menu_bg_pixel(x2, y as int),
            decreases 80 - x,
        {
            let cx: u32 = if x < 40 {
                x
            } else {
                79 - x
            };
            let cy: u32 = if y < 40 {
                y
            } else {
                79 - y
            };
            let p: Pixel = if cx + cy <= 5 {
                Pixel { r: 0, g: 0, b: 0, a: 0 }
            } else {
                Pixel { r: 255, g: 255, b: 255, a: 255 }
            };
            buf.set(x, y, p);
            x = x + 1;
        }
        y = y + 1;
    }
    buf
}

/// Shrink a font sheet's lower icon band into its small variant: the 512 x 324
/// band starting at row 700 is resampled to 256 x 162 and composited back at
/// (0, 180).
pub fn sheet_make_small(img: &mut PixelBuffer)
    requires
        old(img).wf(),
        old(img).width == 512,
        old(img).height == 1024,
    ensures
        final(img).wf(),
        final(img).width == 512,
        final(img).height == 1024,
        final(img)@ == crate::raster::overlay_of(
            old(img)@,
            512,
            1024,
            crate::raster::resize_catmull_of(
                Seq::new((512 * 324) as nat, |i: int| old(img).pix(i % 512, 700 + i / 512)),
                512,
                324,
                256,
                162,
            ),
            256,
            162,
            0,
            180,
        ),
{
    let sub = img.sub_region(0, 700, 512, 324);
    proof {
        assert(sub@ =~= Seq::new(
            (512 * 324) as nat,
            |i: int| old(img).pix(i % 512, 700 + i / 512),
        )) by {
            assert forall|i: int| 0 <= i < 512 * 324 implies sub@[i] == old(img).pix(
                i % 512,
                700 + i / 512,
            ) by {
                crate::transform::lemma_linear_index(512, 324, i);
                assert(sub.pix(i % 512, i / 512) == sub@[i]);
            }
        }
    }
    let small = crate::raster::resize_catmull(&sub, 256, 162);
    crate::raster::overlay_at(img, &small, 0, 180);
}

/// The text-colour remap applied to interface layout text nodes when a colour
/// theme is applied: the standard palette indexes collapse onto 7001, every
/// other index is kept.
pub open spec fn uld_color_spec(c: int) -> int {
    if (1 <= c <= 7) || c == 50 || c == 51 || c == 55 {
        7001
    } else {
        c
    }
}

pub fn uld_text_color(c: u32) -> (r: u32)
    ensures
        r == uld_color_spec(c as int),
{
    if (1 <= c && c <= 7) || c == 50 || c == 51 || c == 55 {
        7001
    } else {
        c
    }
}

} // verus!
