//! Bounding-box recentering: content (pixels with alpha above 50) is
//! translated so its tight bounding box is centered on the vertical axis, and
//! on the horizontal axis too unless `vertical_only`. Pixels shifted out of
//! the canvas are dropped.

use vstd::prelude::*;

use crate::pixel::{lemma_grid_index, Pixel, PixelBuffer};

verus! {

/// Content for the recentering pass: alpha above 50.
pub open spec fn content_at(s: Seq<Pixel>, w: int, h: int, x: int, y: int) -> bool {
    0 <= x < w && 0 <= y < h && s[y * w + x].a > 50
}

pub open spec fn col_has(s: Seq<Pixel>, w: int, h: int, x: int) -> bool {
    exists|y: int| content_at(s, w, h, x, y)
}

pub open spec fn row_has(s: Seq<Pixel>, w: int, h: int, y: int) -> bool {
    exists|x: int| content_at(s, w, h, x, y)
}

pub open spec fn has_content(s: Seq<Pixel>, w: int, h: int) -> bool {
    exists|x: int, y: int| content_at(s, w, h, x, y)
}

/// The leftmost content column, or 9999 on an empty region (the scan's
/// sentinel; the buffer is required to be narrower than the sentinel).
pub open spec fn min_col(s: Seq<Pixel>, w: int, h: int) -> int {
    if has_content(s, w, h) {
        choose|x: int| col_has(s, w, h, x) && forall|x2: int| col_has(s, w, h, x2) ==> x <= x2
    } else {
        9999
    }
}

pub open spec fn max_col(s: Seq<Pixel>, w: int, h: int) -> int {
    if has_content(s, w, h) {
        choose|x: int| col_has(s, w, h, x) && forall|x2: int| col_has(s, w, h, x2) ==> x >= x2
    } else {
        0
    }
}

pub open spec fn min_row(s: Seq<Pixel>, w: int, h: int) -> int {
    if has_content(s, w, h) {
        choose|y: int| row_has(s, w, h, y) && forall|y2: int| row_has(s, w, h, y2) ==> y <= y2
    } else {
        9999
    }
}

pub open spec fn max_row(s: Seq<Pixel>, w: int, h: int) -> int {
    if has_content(s, w, h) {
        choose|y: int| row_has(s, w, h, y) && forall|y2: int| row_has(s, w, h, y2) ==> y >= y2
    } else {
        0
    }
}

/// Division by two truncating toward zero, as the scan's signed division does.
pub open spec fn half_trunc(a: int) -> int {
    if a >= 0 {
        a / 2
    } else {
        -((-a) / 2)
    }
}

pub open spec fn abs_of(a: int) -> int {
    if a >= 0 {
        a
    } else {
        -a
    }
}

/// The horizontal translation: half the slack between the canvas and the
/// content box, or zero when only vertical centering is asked for.
pub open spec fn center_ox(s: Seq<Pixel>, w: int, h: int, vertical_only: bool) -> int {
    if vertical_only {
        0
    } else {
        half_trunc(w - (max_col(s, w, h) + min_col(s, w, h)))
    }
}

pub open spec fn center_oy(s: Seq<Pixel>, w: int, h: int) -> int {
    half_trunc(h - (max_row(s, w, h) + min_row(s, w, h)))
}

/// One pixel of the recentered image: the source pixel shifted by the offset
/// where the target cell lies in the copy window, transparent black elsewhere.
pub open spec fn center_pixel(
    s: Seq<Pixel>,
    w: int,
    h: int,
    ox: int,
    oy: int,
    x: int,
    y: int,
) -> Pixel {
    if abs_of(ox) <= x < w - abs_of(ox) && abs_of(oy) <= y < h - abs_of(oy) {
        s[(y - oy) * w + (x - ox)]
    } else {
        Pixel { r: 0, g: 0, b: 0, a: 0 }
    }
}

/// The recentered image.
pub open spec fn center_seq(s: Seq<Pixel>, w: int, h: int, vertical_only: bool) -> Seq<Pixel> {
    let ox = center_ox(s, w, h, vertical_only);
    let oy = center_oy(s, w, h);
    Seq::new((w * h) as nat, |i: int| center_pixel(s, w, h, ox, oy, i % w, i / w))
}

/// A column that has content left of every other content column is the
/// leftmost one.
pub proof fn lemma_min_col_is(s: Seq<Pixel>, w: int, h: int, x0: int)
    requires
        col_has(s, w, h, x0),
        forall|x2: int| col_has(s, w, h, x2) ==> x0 <= x2,
    ensures
        min_col(s, w, h) == x0,
{
    let y0 = choose|y: int| content_at(s, w, h, x0, y);
    assert(has_content(s, w, h));
    let x = choose|x: int|
        col_has(s, w, h, x) && forall|x2: int| col_has(s, w, h, x2) ==> x <= x2;
    assert(col_has(s, w, h, x) && forall|x2: int| col_has(s, w, h, x2) ==> x <= x2) by {
        assert(exists|x: int|
            col_has(s, w, h, x) && forall|x2: int| col_has(s, w, h, x2) ==> x <= x2) by {
            assert(col_has(s, w, h, x0) && forall|x2: int| col_has(s, w, h, x2) ==> x0 <= x2);
        }
    }
    assert(x <= x0);
    assert(x0 <= x);
}

pub proof fn lemma_max_col_is(s: Seq<Pixel>, w: int, h: int, x0: int)
    requires
        col_has(s, w, h, x0),
        forall|x2: int| col_has(s, w, h, x2) ==> x0 >= x2,
    ensures
        max_col(s, w, h) == x0,
{
    assert(has_content(s, w, h)) by {
        let y0 = choose|y: int| content_at(s, w, h, x0, y);
        assert(content_at(s, w, h, x0, y0));
    }
    let x = choose|x: int|
        col_has(s, w, h, x) && forall|x2: int| col_has(s, w, h, x2) ==> x >= x2;
    assert(col_has(s, w, h, x) && forall|x2: int| col_has(s, w, h, x2) ==> x >= x2) by {
        assert(exists|x: int|
            col_has(s, w, h, x) && forall|x2: int| col_has(s, w, h, x2) ==> x >= x2) by {
            assert(col_has(s, w, h, x0) && forall|x2: int| col_has(s, w, h, x2) ==> x0 >= x2);
        }
    }
    assert(x >= x0);
    assert(x0 >= x);
}

pub proof fn lemma_min_row_is(s: Seq<Pixel>, w: int, h: int, y0: int)
    requires
        row_has(s, w, h, y0),
        forall|y2: int| row_has(s, w, h, y2) ==> y0 <= y2,
    ensures
        min_row(s, w, h) == y0,
{
    assert(has_content(s, w, h)) by {
        let x0 = choose|x: int| content_at(s, w, h, x, y0);
        assert(content_at(s, w, h, x0, y0));
    }
    let y = choose|y: int|
        row_has(s, w, h, y) && forall|y2: int| row_has(s, w, h, y2) ==> y <= y2;
    assert(row_has(s, w, h, y) && forall|y2: int| row_has(s, w, h, y2) ==> y <= y2) by {
        assert(exists|y: int|
            row_has(s, w, h, y) && forall|y2: int| row_has(s, w, h, y2) ==> y <= y2) by {
            assert(row_has(s, w, h, y0) && forall|y2: int| row_has(s, w, h, y2) ==> y0 <= y2);
        }
    }
    assert(y <= y0);
    assert(y0 <= y);
}

pub proof fn lemma_max_row_is(s: Seq<Pixel>, w: int, h: int, y0: int)
    requires
        row_has(s, w, h, y0),
        forall|y2: int| row_has(s, w, h, y2) ==> y0 >= y2,
    ensures
        max_row(s, w, h) == y0,
{
    assert(has_content(s, w, h)) by {
        let x0 = choose|x: int| content_at(s, w, h, x, y0);
        assert(content_at(s, w, h, x0, y0));
    }
    let y = choose|y: int|
        row_has(s, w, h, y) && forall|y2: int| row_has(s, w, h, y2) ==> y >= y2;
    assert(row_has(s, w, h, y) && forall|y2: int| row_has(s, w, h, y2) ==> y >= y2) by {
        assert(exists|y: int|
            row_has(s, w, h, y) && forall|y2: int| row_has(s, w, h, y2) ==> y >= y2) by {
            assert(row_has(s, w, h, y0) && forall|y2: int| row_has(s, w, h, y2) ==> y0 >= y2);
        }
    }
    assert(y >= y0);
    assert(y0 >= y);
}


/// Whether column `x` holds any content.
pub fn col_scan(buf: &PixelBuffer, x: u32) -> (r: bool)
    requires
        buf.wf(),
        x < buf.width,
    ensures
        r <==> col_has(buf@, buf.width as int, buf.height as int, x as int),
{
    let h = buf.height;
    let mut y: u32 = 0;
    while y < h
        invariant
            buf.wf(),
            buf.height == h,
            x < buf.width,
            y <= h,
            forall|y2: int|
                0 <= y2 < y ==> !content_at(buf@, buf.width as int, h as int, x as int, y2),
        decreases h - y,
    {
        if buf.get(x, y).a > 50 {
            proof {
                lemma_grid_index(buf.width as int, h as int, x as int, y as int);
                assert(content_at(buf@, buf.width as int, h as int, x as int, y as int));
            }
            return true;
        }
        proof {
            lemma_grid_index(buf.width as int, h as int, x as int, y as int);
        }
        y = y + 1;
    }
    false
}

/// Whether row `y` holds any content.
pub fn row_scan(buf: &PixelBuffer, y: u32) -> (r: bool)
    requires
        buf.wf(),
        y < buf.height,
    ensures
        r <==> row_has(buf@, buf.width as int, buf.height as int, y as int),
{
    let w = buf.width;
    let mut x: u32 = 0;
    while x < w
        invariant
            buf.wf(),
            buf.width == w,
            y < buf.height,
            x <= w,
            forall|x2: int|
                0 <= x2 < x ==> !content_at(buf@, w as int, buf.height as int, x2, y as int),
        decreases w - x,
    {
        if buf.get(x, y).a > 50 {
            proof {
                lemma_grid_index(w as int, buf.height as int, x as int, y as int);
                assert(content_at(buf@, w as int, buf.height as int, x as int, y as int));
            }
            return true;
        }
        proof {
            lemma_grid_index(w as int, buf.height as int, x as int, y as int);
        }
        x = x + 1;
    }
    false
}

fn first_col(buf: &PixelBuffer) -> (r: Option<u32>)
    requires
        buf.wf(),
    ensures
        match r {
            Some(x) => col_has(buf@, buf.width as int, buf.height as int, x as int) && x
                < buf.width && forall|x2: int|
                0 <= x2 < x ==> !col_has(buf@, buf.width as int, buf.height as int, x2),
            None => forall|x2: int| !col_has(buf@, buf.width as int, buf.height as int, x2),
        },
{
    let w = buf.width;
    let mut x: u32 = 0;
    while x < w
        invariant
            buf.wf(),
            buf.width == w,
            x <= w,
            forall|x2: int|
                0 <= x2 < x ==> !col_has(buf@, w as int, buf.height as int, x2),
        decreases w - x,
    {
        if col_scan(buf, x) {
            return Some(x);
        }
        x = x + 1;
    }
    proof {
        assert forall|x2: int| !col_has(buf@, w as int, buf.height as int, x2) by {
            if col_has(buf@, w as int, buf.height as int, x2) {
                let yy = choose|y: int| content_at(buf@, w as int, buf.height as int, x2, y);
            }
        }
    }
    None
}

fn last_col(buf: &PixelBuffer) -> (r: Option<u32>)
    requires
        buf.wf(),
    ensures
        match r {
            Some(x) => col_has(buf@, buf.width as int, buf.height as int, x as int) && x
                < buf.width && forall|x2: int|
                col_has(buf@, buf.width as int, buf.height as int, x2) ==> x2 <= x,
            None => forall|x2: int| !col_has(buf@, buf.width as int, buf.height as int, x2),
        },
{
    let w = buf.width;
    let mut x: u32 = w;
    while x > 0
        invariant
            buf.wf(),
            buf.width == w,
            x <= w,
            forall|x2: int|
                x <= x2 ==> !col_has(buf@, w as int, buf.height as int, x2),
        decreases x,
    {
        if col_scan(buf, x - 1) {
            return Some(x - 1);
        }
        x = x - 1;
        proof {
            assert forall|x2: int| x <= x2 implies !col_has(
                buf@,
                w as int,
                buf.height as int,
                x2,
            ) by {
                if col_has(buf@, w as int, buf.height as int, x2) {
                    let yy = choose|y: int|
                        content_at(buf@, w as int, buf.height as int, x2, y);
                }
            }
        }
    }
    None
}

fn first_row(buf: &PixelBuffer) -> (r: Option<u32>)
    requires
        buf.wf(),
    ensures
        match r {
            Some(y) => row_has(buf@, buf.width as int, buf.height as int, y as int) && y
                < buf.height && forall|y2: int|
                0 <= y2 < y ==> !row_has(buf@, buf.width as int, buf.height as int, y2),
            None => forall|y2: int| !row_has(buf@, buf.width as int, buf.height as int, y2),
        },
{
    let h = buf.height;
    let mut y: u32 = 0;
    while y < h
        invariant
            buf.wf(),
            buf.height == h,
            y <= h,
            forall|y2: int|
                0 <= y2 < y ==> !row_has(buf@, buf.width as int, h as int, y2),
        decreases h - y,
    {
        if row_scan(buf, y) {
            return Some(y);
        }
        y = y + 1;
    }
    proof {
        assert forall|y2: int| !row_has(buf@, buf.width as int, h as int, y2) by {
            if row_has(buf@, buf.width as int, h as int, y2) {
                let xx = choose|x: int| content_at(buf@, buf.width as int, h as int, x, y2);
            }
        }
    }
    None
}

fn last_row(buf: &PixelBuffer) -> (r: Option<u32>)
    requires
        buf.wf(),
    ensures
        match r {
            Some(y) => row_has(buf@, buf.width as int, buf.height as int, y as int) && y
                < buf.height && forall|y2: int|
                row_has(buf@, buf.width as int, buf.height as int, y2) ==> y2 <= y,
            None => forall|y2: int| !row_has(buf@, buf.width as int, buf.height as int, y2),
        },
{
    let h = buf.height;
    let mut y: u32 = h;
    while y > 0
        invariant
            buf.wf(),
            buf.height == h,
            y <= h,
            forall|y2: int|
                y <= y2 ==> !row_has(buf@, buf.width as int, h as int, y2),
        decreases y,
    {
        if row_scan(buf, y - 1) {
            return Some(y - 1);
        }
        y = y - 1;
        proof {
            assert forall|y2: int| y <= y2 implies !row_has(
                buf@,
                buf.width as int,
                h as int,
                y2,
            ) by {
                if row_has(buf@, buf.width as int, h as int, y2) {
                    let xx = choose|x: int|
                        content_at(buf@, buf.width as int, h as int, x, y2);
                }
            }
        }
    }
    None
}

/// The content bounding box, or `None` when the image has no content. The
/// bounds returned are exactly the spec-level extremes.
pub fn content_box(buf: &PixelBuffer) -> (r: Option<(u32, u32, u32, u32)>)
    requires
        buf.wf(),
    ensures
        ({
            let s = buf@;
            let w = buf.width as int;
            let h = buf.height as int;
            match r {
                Some(b) => has_content(s, w, h) && b.0 == min_col(s, w, h) && b.1 == min_row(
                    s,
                    w,
                    h,
                ) && b.2 == max_col(s, w, h) && b.3 == max_row(s, w, h) && b.0 < buf.width && b.1
                    < buf.height && b.2 < buf.width && b.3 < buf.height,
                None => !has_content(s, w, h),
            }
        }),
{
    let ghost s = buf@;
    let ghost gw = buf.width as int;
    let ghost gh = buf.height as int;
    let mnx = match first_col(buf) {
        Some(x) => x,
        None => {
            proof {
                if has_content(s, gw, gh) {
                    let (xx, yy) = choose|x: int, y: int| content_at(s, gw, gh, x, y);
                    assert(col_has(s, gw, gh, xx));
                }
            }
            return None;
        },
    };
    proof {
        lemma_min_col_is(s, gw, gh, mnx as int);
        assert(has_content(s, gw, gh)) by {
            let yy = choose|y: int| content_at(s, gw, gh, mnx as int, y);
            assert(content_at(s, gw, gh, mnx as int, yy));
        }
    }
    let mxx = match last_col(buf) {
        Some(x) => x,
        None => {
            proof {
                assert(false);
            }
            return None;
        },
    };
    proof {
        lemma_max_col_is(s, gw, gh, mxx as int);
    }
    let mny = match first_row(buf) {
        Some(y) => y,
        None => {
            proof {
                let yy = choose|y: int| content_at(s, gw, gh, mnx as int, y);
                assert(row_has(s, gw, gh, yy));
                assert(false);
            }
            return None;
        },
    };
    proof {
        lemma_min_row_is(s, gw, gh, mny as int);
    }
    let mxy = match last_row(buf) {
        Some(y) => y,
        None => {
            proof {
                let yy = choose|y: int| content_at(s, gw, gh, mnx as int, y);
                assert(row_has(s, gw, gh, yy));
                assert(false);
            }
            return None;
        },
    };
    proof {
        lemma_max_row_is(s, gw, gh, mxy as int);
    }
    Some((mnx, mny, mxx, mxy))
}


/// Recenter the image: translate the content so its bounding box is centered
/// vertically, and horizontally too unless `vertical_only`; pixels shifted
/// outside the canvas are dropped, vacated cells become transparent black.
pub fn center(buf: &mut PixelBuffer, vertical_only: bool)
    requires
        old(buf).wf(),
        old(buf).width <= 9999,
        old(buf).height <= 9999,
    ensures
        final(buf).wf(),
        final(buf).width == old(buf).width,
        final(buf).height == old(buf).height,
        final(buf)@ == center_seq(old(buf)@, old(buf).width as int, old(buf).height as int, vertical_only),
{
    let ghost s = buf@;
    let ghost gw = buf.width as int;
    let ghost gh = buf.height as int;
    let w = buf.width;
    let h = buf.height;
    let bb = content_box(buf);
    let (mnx, mny, mxx, mxy): (u32, u32, u32, u32) = match bb {
        Some(b) => b,
        None => (9999, 9999, 0, 0),
    };
    proof {
        assert(mnx as int == min_col(s, gw, gh));
        assert(mny as int == min_row(s, gw, gh));
        assert(mxx as int == max_col(s, gw, gh));
        assert(mxy as int == max_row(s, gw, gh));
        assert(mnx <= 9999 && mny <= 9999 && mxx <= 9999 && mxy <= 9999);
    }
    let sx: u32 = mxx + mnx;
    let sy: u32 = mxy + mny;
    let (oxn, oxm): (bool, u32) = if vertical_only {
        (false, 0)
    } else if w >= sx {
        (false, (w - sx) / 2)
    } else {
        (true, (sx - w) / 2)
    };
    let (oyn, oym): (bool, u32) = if h >= sy {
        (false, (h - sy) / 2)
    } else {
        (true, (sy - h) / 2)
    };
    let ghost ox = center_ox(s, gw, gh, vertical_only);
    let ghost oy = center_oy(s, gw, gh);
    proof {
        assert(ox == (if oxn { -(oxm as int) } else { oxm as int }));
        assert(oy == (if oyn { -(oym as int) } else { oym as int }));
        assert(abs_of(ox) == oxm as int);
        assert(abs_of(oy) == oym as int);
        vstd::std_specs::vec::axiom_spec_len(&buf.pixels);
    }
    let xhi: u32 = if w >= oxm {
        w - oxm
    } else {
        0
    };
    let yhi: u32 = if h >= oym {
        h - oym
    } else {
        0
    };
    let mut out = PixelBuffer::new(w, h);
    let mut x: u32 = oxm;
    while x < xhi
        invariant
            buf.wf(),
            buf.width == w,
            buf.height == h,
            buf@ == s,
            out.wf(),
            out.width == w,
            out.height == h,
            w <= 9999,
            h <= 9999,
            gw == w as int,
            gh == h as int,
            abs_of(ox) == oxm as int,
            abs_of(oy) == oym as int,
            oxm <= 10000,
            oym <= 10000,
            xhi as int == (if gw >= oxm as int { gw - oxm } else { 0 }),
            yhi as int == (if gh >= oym as int { gh - oym } else { 0 }),
            oxm <= x,
            x <= xhi || x == oxm,
            oxn ==> ox == -(oxm as int),
            !oxn ==> ox == oxm as int,
            oyn ==> oy == -(oym as int),
            !oyn ==> oy == oym as int,
            forall|px: int, py: int|
                #![trigger out.pix(px, py)]
                0 <= px < w && 0 <= py < h && !(px < x && oxm <= px && oym <= py < yhi) ==> out.pix(
                    px,
                    py,
                ) == (Pixel { r: 0, g: 0, b: 0, a: 0 }),
            forall|px: int, py: int|
                #![trigger out.pix(px, py)]
                oxm <= px < x && oym <= py < yhi ==> out.pix(px, py) == center_pixel(
                    s,
                    gw,
                    gh,
                    ox,
                    oy,
                    px,
                    py,
                ),
        decreases xhi - x,
    {
        let mut y: u32 = oym;
        while y < yhi
            invariant
                buf.wf(),
                buf.width == w,
                buf.height == h,
                buf@ == s,
                out.wf(),
                out.width == w,
                out.height == h,
                w <= 9999,
                h <= 9999,
                gw == w as int,
                gh == h as int,
                abs_of(ox) == oxm as int,
                abs_of(oy) == oym as int,
                oxm <= 10000,
                oym <= 10000,
                xhi as int == (if gw >= oxm as int { gw - oxm } else { 0 }),
                yhi as int == (if gh >= oym as int { gh - oym } else { 0 }),
                oxm <= x < xhi,
                oym <= y,
                y <= yhi || y == oym,
                oxn ==> ox == -(oxm as int),
                !oxn ==> ox == oxm as int,
                oyn ==> oy == -(oym as int),
                !oyn ==> oy == oym as int,
                forall|px: int, py: int|
                    #![trigger out.pix(px, py)]
                    0 <= px < w && 0 <= py < h && !((px < x && oxm <= px && oym <= py < yhi) || (
                    px == x && oym <= py < y)) ==> out.pix(px, py) == (Pixel {
                        r: 0,
                        g: 0,
                        b: 0,
                        a: 0,
                    }),
                forall|px: int, py: int|
                    #![trigger out.pix(px, py)]
                    (oxm <= px < x && oym <= py < yhi) || (px == x && oym <= py < y) ==> out.pix(
                        px,
                        py,
                    ) == center_pixel(s, gw, gh, ox, oy, px, py),
            decreases yhi - y,
        {
            let srcx: u32 = if oxn {
                x + oxm
            } else {
                x - oxm
            };
            let srcy: u32 = if oyn {
                y + oym
            } else {
                y - oym
            };
            let p = buf.get(srcx, srcy);
            proof {
                assert(srcx as int == x - ox);
                assert(srcy as int == y - oy);
                assert(center_pixel(s, gw, gh, ox, oy, x as int, y as int) == s[(y - oy) * gw + (
                x - ox)]);
            }
            out.set(x, y, p);
            y = y + 1;
        }
        x = x + 1;
    }
    *buf = out;
    proof {
        assert forall|i: int| 0 <= i < gw * gh implies final(buf)@[i] == center_seq(
            s,
            gw,
            gh,
            vertical_only,
        )[i] by {
            crate::transform::lemma_linear_index(gw, gh, i);
            assert(final(buf).pix(i % gw, i / gw) == final(buf)@[i]);
        }
        assert(final(buf)@ =~= center_seq(s, gw, gh, vertical_only));
    }
}


proof fn lemma_min_col_from(s: Seq<Pixel>, w: int, h: int, x0: int)
    requires
        0 <= x0,
        col_has(s, w, h, x0),
    ensures
        col_has(s, w, h, min_col(s, w, h)),
        forall|x2: int| col_has(s, w, h, x2) ==> min_col(s, w, h) <= x2,
    decreases x0,
{
    if exists|x2: int| 0 <= x2 < x0 && col_has(s, w, h, x2) {
        let x2 = choose|x2: int| 0 <= x2 < x0 && col_has(s, w, h, x2);
        lemma_min_col_from(s, w, h, x2);
    } else {
        assert forall|x2: int| col_has(s, w, h, x2) implies x0 <= x2 by {
            if x2 < x0 {
                let yy = choose|y: int| content_at(s, w, h, x2, y);
                assert(0 <= x2 < x0 && col_has(s, w, h, x2));
                assert(false);
            }
        }
        lemma_min_col_is(s, w, h, x0);
    }
}

proof fn lemma_max_col_from(s: Seq<Pixel>, w: int, h: int, x0: int)
    requires
        x0 < w,
        col_has(s, w, h, x0),
    ensures
        col_has(s, w, h, max_col(s, w, h)),
        forall|x2: int| col_has(s, w, h, x2) ==> x2 <= max_col(s, w, h),
    decreases w - x0,
{
    if exists|x2: int| x0 < x2 < w && col_has(s, w, h, x2) {
        let x2 = choose|x2: int| x0 < x2 < w && col_has(s, w, h, x2);
        lemma_max_col_from(s, w, h, x2);
    } else {
        assert forall|x2: int| col_has(s, w, h, x2) implies x2 <= x0 by {
            if x2 > x0 {
                let yy = choose|y: int| content_at(s, w, h, x2, y);
                assert(x0 < x2 < w && col_has(s, w, h, x2));
                assert(false);
            }
        }
        lemma_max_col_is(s, w, h, x0);
    }
}

proof fn lemma_min_row_from(s: Seq<Pixel>, w: int, h: int, y0: int)
    requires
        0 <= y0,
        row_has(s, w, h, y0),
    ensures
        row_has(s, w, h, min_row(s, w, h)),
        forall|y2: int| row_has(s, w, h, y2) ==> min_row(s, w, h) <= y2,
    decreases y0,
{
    if exists|y2: int| 0 <= y2 < y0 && row_has(s, w, h, y2) {
        let y2 = choose|y2: int| 0 <= y2 < y0 && row_has(s, w, h, y2);
        lemma_min_row_from(s, w, h, y2);
    } else {
        assert forall|y2: int| row_has(s, w, h, y2) implies y0 <= y2 by {
            if y2 < y0 {
                let xx = choose|x: int| content_at(s, w, h, x, y2);
                assert(0 <= y2 < y0 && row_has(s, w, h, y2));
                assert(false);
            }
        }
        lemma_min_row_is(s, w, h, y0);
    }
}

proof fn lemma_max_row_from(s: Seq<Pixel>, w: int, h: int, y0: int)
    requires
        y0 < h,
        row_has(s, w, h, y0),
    ensures
        row_has(s, w, h, max_row(s, w, h)),
        forall|y2: int| row_has(s, w, h, y2) ==> y2 <= max_row(s, w, h),
    decreases h - y0,
{
    if exists|y2: int| y0 < y2 < h && row_has(s, w, h, y2) {
        let y2 = choose|y2: int| y0 < y2 < h && row_has(s, w, h, y2);
        lemma_max_row_from(s, w, h, y2);
    } else {
        assert forall|y2: int| row_has(s, w, h, y2) implies y2 <= y0 by {
            if y2 > y0 {
                let xx = choose|x: int| content_at(s, w, h, x, y2);
                assert(y0 < y2 < h && row_has(s, w, h, y2));
                assert(false);
            }
        }
        lemma_max_row_is(s, w, h, y0);
    }
}

/// The content bounds of an image with content are grounded: the extremes hold
/// content and bound every content column and row.
pub proof fn lemma_bounds_grounded(s: Seq<Pixel>, w: int, h: int)
    requires
        has_content(s, w, h),
    ensures
        col_has(s, w, h, min_col(s, w, h)),
        col_has(s, w, h, max_col(s, w, h)),
        row_has(s, w, h, min_row(s, w, h)),
        row_has(s, w, h, max_row(s, w, h)),
        forall|x2: int| col_has(s, w, h, x2) ==> min_col(s, w, h) <= x2 <= max_col(s, w, h),
        forall|y2: int| row_has(s, w, h, y2) ==> min_row(s, w, h) <= y2 <= max_row(s, w, h),
{
    let (x0, y0) = choose|x: int, y: int| content_at(s, w, h, x, y);
    assert(content_at(s, w, h, x0, y0));
    assert(col_has(s, w, h, x0));
    assert(row_has(s, w, h, y0));
    lemma_min_col_from(s, w, h, x0);
    lemma_max_col_from(s, w, h, x0);
    lemma_min_row_from(s, w, h, y0);
    lemma_max_row_from(s, w, h, y0);
}

/// Law: recentering on both axes is a fixed point. For an image with content
/// whose shifted bounding box stays inside the copy window (no content pixel
/// is clipped), recentering a second time changes nothing.
pub proof fn lemma_center_idempotent(s: Seq<Pixel>, w: int, h: int)
    requires
        s.len() == w * h,
        0 < w <= 9999,
        0 < h <= 9999,
        has_content(s, w, h),
        abs_of(center_ox(s, w, h, false)) <= min_col(s, w, h) + center_ox(s, w, h, false),
        max_col(s, w, h) + center_ox(s, w, h, false) < w - abs_of(center_ox(s, w, h, false)),
        abs_of(center_oy(s, w, h)) <= min_row(s, w, h) + center_oy(s, w, h),
        max_row(s, w, h) + center_oy(s, w, h) < h - abs_of(center_oy(s, w, h)),
    ensures
        center_seq(center_seq(s, w, h, false), w, h, false) == center_seq(s, w, h, false),
{
    lemma_bounds_grounded(s, w, h);
    let mnx = min_col(s, w, h);
    let mxx = max_col(s, w, h);
    let mny = min_row(s, w, h);
    let mxy = max_row(s, w, h);
    let ox = center_ox(s, w, h, false);
    let oy = center_oy(s, w, h);
    let r = center_seq(s, w, h, false);
    assert(r.len() == w * h);
    assert forall|x: int, y: int| 0 <= x < w && 0 <= y < h implies r[y * w + x] == center_pixel(
        s,
        w,
        h,
        ox,
        oy,
        x,
        y,
    ) by {
        crate::pixel::lemma_grid_coords(w, h, x, y);
    }
    // Content of the recentered image is exactly the shifted content.
    assert forall|x: int, y: int| content_at(r, w, h, x, y) implies abs_of(ox) <= x < w - abs_of(
        ox,
    ) && abs_of(oy) <= y < h - abs_of(oy) && content_at(s, w, h, x - ox, y - oy) by {
        assert(r[y * w + x] == center_pixel(s, w, h, ox, oy, x, y));
    }
    // The shifted extremes carry content in the recentered image.
    let ymn = choose|y: int| content_at(s, w, h, mnx, y);
    assert(content_at(s, w, h, mnx, ymn));
    assert(row_has(s, w, h, ymn));
    assert(content_at(r, w, h, mnx + ox, ymn + oy)) by {
        assert(r[(ymn + oy) * w + (mnx + ox)] == center_pixel(s, w, h, ox, oy, mnx + ox, ymn + oy));
        assert(center_pixel(s, w, h, ox, oy, mnx + ox, ymn + oy) == s[ymn * w + mnx]);
    }
    let ymx = choose|y: int| content_at(s, w, h, mxx, y);
    assert(content_at(s, w, h, mxx, ymx));
    assert(row_has(s, w, h, ymx));
    assert(content_at(r, w, h, mxx + ox, ymx + oy)) by {
        assert(r[(ymx + oy) * w + (mxx + ox)] == center_pixel(s, w, h, ox, oy, mxx + ox, ymx + oy));
    }
    let xmn = choose|x: int| content_at(s, w, h, x, mny);
    assert(content_at(s, w, h, xmn, mny));
    assert(col_has(s, w, h, xmn));
    assert(content_at(r, w, h, xmn + ox, mny + oy)) by {
        assert(r[(mny + oy) * w + (xmn + ox)] == center_pixel(s, w, h, ox, oy, xmn + ox, mny + oy));
    }
    let xmx = choose|x: int| content_at(s, w, h, x, mxy);
    assert(content_at(s, w, h, xmx, mxy));
    assert(col_has(s, w, h, xmx));
    assert(content_at(r, w, h, xmx + ox, mxy + oy)) by {
        assert(r[(mxy + oy) * w + (xmx + ox)] == center_pixel(s, w, h, ox, oy, xmx + ox, mxy + oy));
    }
    // The recentered bounding box is the shifted one.
    assert(col_has(r, w, h, mnx + ox));
    assert forall|x2: int| col_has(r, w, h, x2) implies mnx + ox <= x2 by {
        let y2 = choose|y: int| content_at(r, w, h, x2, y);
        assert(content_at(s, w, h, x2 - ox, y2 - oy));
        assert(col_has(s, w, h, x2 - ox));
    }
    lemma_min_col_is(r, w, h, mnx + ox);
    assert(col_has(r, w, h, mxx + ox));
    assert forall|x2: int| col_has(r, w, h, x2) implies x2 <= mxx + ox by {
        let y2 = choose|y: int| content_at(r, w, h, x2, y);
        assert(content_at(s, w, h, x2 - ox, y2 - oy));
        assert(col_has(s, w, h, x2 - ox));
    }
    lemma_max_col_is(r, w, h, mxx + ox);
    assert(row_has(r, w, h, mny + oy));
    assert forall|y2: int| row_has(r, w, h, y2) implies mny + oy <= y2 by {
        let x2 = choose|x: int| content_at(r, w, h, x, y2);
        assert(content_at(s, w, h, x2 - ox, y2 - oy));
        assert(row_has(s, w, h, y2 - oy));
    }
    lemma_min_row_is(r, w, h, mny + oy);
    assert(row_has(r, w, h, mxy + oy));
    assert forall|y2: int| row_has(r, w, h, y2) implies y2 <= mxy + oy by {
        let x2 = choose|x: int| content_at(r, w, h, x, y2);
        assert(content_at(s, w, h, x2 - ox, y2 - oy));
        assert(row_has(s, w, h, y2 - oy));
    }
    lemma_max_row_is(r, w, h, mxy + oy);
    // A second pass computes zero offsets.
    assert(center_ox(r, w, h, false) == 0) by {
        lemma_half_trunc_recenter(w, mxx + mnx);
    }
    assert(center_oy(r, w, h) == 0) by {
        lemma_half_trunc_recenter(h, mxy + mny);
    }
    // With zero offsets the copy is the identity.
    let r2 = center_seq(r, w, h, false);
    assert forall|i: int| 0 <= i < w * h implies r2[i] == r[i] by {
        crate::transform::lemma_linear_index(w, h, i);
        assert(r2[i] == center_pixel(r, w, h, 0, 0, i % w, i / w));
    }
    assert(r2 =~= r);
}

/// Half the slack, applied once, leaves no further slack to halve: recentering
/// by `half_trunc(d)` leaves a remainder whose truncated half is zero.
proof fn lemma_half_trunc_recenter(w: int, sx: int)
    requires
        0 <= sx,
    ensures
        half_trunc(w - (sx + 2 * half_trunc(w - sx))) == 0,
{
    let d = w - sx;
    if d >= 0 {
        assert(d == 2 * (d / 2) + d % 2 && 0 <= d % 2 < 2) by (nonlinear_arith)
            requires
                d >= 0,
        ;
    } else {
        let e = -d;
        assert(e == 2 * (e / 2) + e % 2 && 0 <= e % 2 < 2) by (nonlinear_arith)
            requires
                e > 0,
        ;
        assert(w - (sx + 2 * half_trunc(d)) == -(e % 2));
        if e % 2 == 1 {
            assert(half_trunc(-1) == 0);
        }
    }
}

} // verus!
