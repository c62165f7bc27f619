//! The sprite-sheet ("font") accumulators for job icons: per colour-option
//! canvases of 512 x 1024 into which each job's 36-pixel icons are composited
//! at a fixed grid cell, and the composite descriptor that stacks every
//! accumulated canvas under a shared game-native base with an alpha mask.

use vstd::prelude::*;
use vstd::string::StringSliceAdditionalSpecFns;

use crate::composite::{
    Blend, ColorOption, Layer, MaskOption, Modifier, OptionOrStatic, Path, Tex,
};
use crate::pixel::{Pixel, PixelBuffer};
use crate::raster::{overlay_at, overlay_of};
use crate::text::{dec_digits, push_dec, push_lit};

verus! {

/// One canvas of a colour bucket, and whether the colour option tints it.
pub struct SheetLayer {
    pub use_color: bool,
    pub img: PixelBuffer,
}

/// All canvases of one colour bucket.
pub struct SheetEntry {
    pub color: Vec<u8>,
    pub layers: Vec<SheetLayer>,
}

/// Every canvas of every bucket is a well-formed 512 x 1024 image, with the
/// same number of canvases per bucket.
pub open spec fn stack_wf(es: Seq<SheetEntry>, nlayers: int) -> bool {
    forall|k: int|
        0 <= k < es.len() ==> (#[trigger] es[k]).layers@.len() == nlayers && (forall|m: int|
            0 <= m < nlayers ==> (#[trigger] es[k].layers@[m]).img.wf()
                && es[k].layers@[m].img.width == 512 && es[k].layers@[m].img.height == 1024)
}

/// The first bucket holding the colour, or the number of buckets when none
/// does.
pub open spec fn first_color_index(es: Seq<SheetEntry>, c: Seq<u8>) -> int
    decreases es.len(),
{
    if es.len() == 0 {
        0
    } else if es[0].color@ == c {
        0
    } else {
        1 + first_color_index(es.drop_first(), c)
    }
}

proof fn lemma_first_color_at(es: Seq<SheetEntry>, c: Seq<u8>, i: int)
    requires
        0 <= i <= es.len(),
        forall|j: int| 0 <= j < i ==> (#[trigger] es[j]).color@ != c,
        i < es.len() ==> es[i].color@ == c,
    ensures
        first_color_index(es, c) == i,
    decreases es.len(),
{
    if es.len() > 0 {
        if i == 0 {
        } else {
            assert(es[0].color@ != c);
            assert forall|j: int| 0 <= j < i - 1 implies (#[trigger] es.drop_first()[j]).color@
                != c by {
                assert(es.drop_first()[j] == es[j + 1]);
            }
            if i - 1 < es.drop_first().len() {
                assert(es.drop_first()[i - 1] == es[i]);
            }
            lemma_first_color_at(es.drop_first(), c, i - 1);
        }
    }
}

/// A fully transparent 512 x 1024 canvas.
pub open spec fn blank_canvas() -> Seq<Pixel> {
    Seq::new((512 * 1024) as nat, |i: int| Pixel { r: 0, g: 0, b: 0, a: 0 })
}

/// What a bucket's canvases look like after one icon set is composited in:
/// each canvas is the previous one (or a blank canvas for a new bucket) with
/// the matching icon alpha-composited at `(x, y)`.
pub open spec fn bucket_updated(
    before: Seq<Pixel>,
    img: &PixelBuffer,
    x: int,
    y: int,
) -> Seq<Pixel> {
    overlay_of(before, 512, 1024, img@, img.width as int, img.height as int, x, y)
}

/// The first bucket holding the colour, or the bucket count when none does.
fn find_bucket(entries: &Vec<SheetEntry>, color: &Vec<u8>) -> (r: usize)
    ensures
        r as int == first_color_index(entries@, color@),
        r <= entries@.len(),
        r < entries@.len() ==> entries@[r as int].color@ == color@,
{
    let n: usize = entries.len();
    let mut k: usize = 0;
    while k < n
        invariant
            entries@.len() == n,
            k <= n,
            forall|j: int| 0 <= j < k ==> (#[trigger] entries@[j]).color@ != color@,
        decreases n - k,
    {
        if crate::text::bytes_eq(&entries[k].color, color) {
            proof {
                lemma_first_color_at(entries@, color@, k as int);
            }
            return k;
        }
        k = k + 1;
    }
    proof {
        lemma_first_color_at(entries@, color@, n as int);
    }
    n
}

proof fn lemma_flat_pairs_push(es: Seq<SheetEntry>, k: int)
    requires
        0 <= k < es.len(),
    ensures
        flat_pairs(es.take(k + 1)).len() == flat_pairs(es.take(k)).len() + es[k].layers@.len(),
        forall|i: int|
            0 <= i < flat_pairs(es.take(k)).len() ==> flat_pairs(es.take(k + 1))[i] == flat_pairs(
                es.take(k),
            )[i],
        forall|m: int|
            0 <= m < es[k].layers@.len() ==> flat_pairs(es.take(k + 1))[flat_pairs(
                es.take(k),
            ).len() + m] == (es[k].color@, es[k].layers@[m].use_color),
{
    assert(es.take(k + 1).drop_last() =~= es.take(k));
    assert(es.take(k + 1).last() == es[k]);
}

/// What one accumulation step does to a stack: the first bucket of the colour
/// (created with blank canvases and the given tint flags when the colour is
/// new) has icon `m` composited onto canvas `m` at `(x, y)`; every other
/// bucket is untouched.
pub open spec fn stack_add_post(
    before: Seq<SheetEntry>,
    after: Seq<SheetEntry>,
    color: Seq<u8>,
    flags: Seq<bool>,
    imgs: Seq<PixelBuffer>,
    x: int,
    y: int,
) -> bool {
    let k = first_color_index(before, color);
    if k < before.len() {
        &&& after.len() == before.len()
        &&& (forall|j: int| 0 <= j < before.len() && j != k ==> after[j] == before[j])
        &&& after[k].color@ == before[k].color@
        &&& after[k].layers@.len() == flags.len()
        &&& (forall|m: int|
            0 <= m < flags.len() ==> (#[trigger] after[k].layers@[m]).use_color
                == before[k].layers@[m].use_color && after[k].layers@[m].img@ == bucket_updated(
                before[k].layers@[m].img@,
                &imgs[m],
                x,
                y,
            ))
    } else {
        &&& after.len() == before.len() + 1
        &&& (forall|j: int| 0 <= j < before.len() ==> after[j] == before[j])
        &&& after[before.len() as int].color@ == color
        &&& after[before.len() as int].layers@.len() == flags.len()
        &&& (forall|m: int|
            0 <= m < flags.len() ==> (#[trigger] after[before.len() as int].layers@[m]).use_color
                == flags[m] && after[before.len() as int].layers@[m].img@ == bucket_updated(
                blank_canvas(),
                &imgs[m],
                x,
                y,
            ))
    }
}

/// The step relation depends on the icons only through their pixels and
/// dimensions: images with equal views and sizes give the same step.
pub proof fn lemma_stack_add_post_same_images(
    before: Seq<SheetEntry>,
    after: Seq<SheetEntry>,
    color: Seq<u8>,
    flags: Seq<bool>,
    imgs1: Seq<PixelBuffer>,
    imgs2: Seq<PixelBuffer>,
    x: int,
    y: int,
)
    requires
        stack_add_post(before, after, color, flags, imgs1, x, y),
        imgs1.len() >= flags.len(),
        imgs2.len() >= flags.len(),
        forall|m: int|
            0 <= m < flags.len() ==> (#[trigger] imgs1[m])@ == imgs2[m]@ && imgs1[m].width
                == imgs2[m].width && imgs1[m].height == imgs2[m].height,
    ensures
        stack_add_post(before, after, color, flags, imgs2, x, y),
{
    let k = first_color_index(before, color);
    if k < before.len() {
        assert forall|m: int| 0 <= m < flags.len() implies (#[trigger] after[k].layers@[m]).use_color
            == before[k].layers@[m].use_color && after[k].layers@[m].img@ == bucket_updated(
            before[k].layers@[m].img@,
            &imgs2[m],
            x,
            y,
        ) by {
            assert(after[k].layers@[m].img@ == bucket_updated(
                before[k].layers@[m].img@,
                &imgs1[m],
                x,
                y,
            ));
            assert(imgs1[m]@ == imgs2[m]@);
            assert(bucket_updated(before[k].layers@[m].img@, &imgs1[m], x, y) == bucket_updated(
                before[k].layers@[m].img@,
                &imgs2[m],
                x,
                y,
            ));
        }
    } else {
        assert forall|m: int| 0 <= m < flags.len() implies (#[trigger] after[before.len() as int].layers@[m]).use_color
            == flags[m] && after[before.len() as int].layers@[m].img@ == bucket_updated(
            blank_canvas(),
            &imgs2[m],
            x,
            y,
        ) by {
            assert(after[before.len() as int].layers@[m].img@ == bucket_updated(
                blank_canvas(),
                &imgs1[m],
                x,
                y,
            ));
            assert(imgs1[m]@ == imgs2[m]@);
            assert(bucket_updated(blank_canvas(), &imgs1[m], x, y) == bucket_updated(
                blank_canvas(),
                &imgs2[m],
                x,
                y,
            ));
        }
    }
}

/// Composite one icon set into the bucket of the given colour: the bucket is
/// created with blank canvases and the given tint flags if it does not exist,
/// and every canvas `m` gets `imgs[m]` composited at `(x, y)`. Other buckets
/// are untouched.
pub fn stack_add(
    entries: &mut Vec<SheetEntry>,
    color: &Vec<u8>,
    flags: &Vec<bool>,
    imgs: &Vec<PixelBuffer>,
    x: u32,
    y: u32,
)
    requires
        stack_wf(old(entries)@, flags@.len() as int),
        imgs@.len() == flags@.len(),
        forall|m: int| 0 <= m < imgs@.len() ==> (#[trigger] imgs@[m]).wf(),
    ensures
        stack_wf(final(entries)@, flags@.len() as int),
        stack_add_post(old(entries)@, final(entries)@, color@, flags@, imgs@, x as int, y as int),
{
    let ghost es = entries@;
    let nl: usize = flags.len();
    let n: usize = entries.len();
    let k: usize = find_bucket(entries, color);
    if k < n {
        let e = entries.remove(k);
        let mut new_layers: Vec<SheetLayer> = Vec::new();
        let mut m: usize = 0;
        while m < nl
            invariant
                stack_wf(es, nl as int),
                es.len() == n,
                k < n,
                e == es[k as int],
                imgs@.len() == nl,
                forall|m2: int| 0 <= m2 < nl ==> (#[trigger] imgs@[m2]).wf(),
                m <= nl,
                new_layers@.len() == m,
                forall|m2: int|
                    0 <= m2 < m ==> (#[trigger] new_layers@[m2]).use_color
                        == es[k as int].layers@[m2].use_color && new_layers@[m2].img@
                        == bucket_updated(
                        es[k as int].layers@[m2].img@,
                        &imgs@[m2],
                        x as int,
                        y as int,
                    ) && new_layers@[m2].img.wf() && new_layers@[m2].img.width == 512
                        && new_layers@[m2].img.height == 1024,
            decreases nl - m,
        {
            let mut img = e.layers[m].img.duplicate();
            overlay_at(&mut img, &imgs[m], x, y);
            new_layers.push(SheetLayer { use_color: e.layers[m].use_color, img });
            m = m + 1;
        }
        let e2 = SheetEntry { color: e.color, layers: new_layers };
        entries.insert(k, e2);
        proof {
            assert forall|j: int| 0 <= j < n && j != k implies final(entries)@[j] == es[j] by {
                assert(final(entries)@ == es.remove(k as int).insert(k as int, final(entries)@[k as int]));
            }
        }
    } else {
        let mut new_layers: Vec<SheetLayer> = Vec::new();
        let mut m: usize = 0;
        while m < nl
            invariant
                flags@.len() == nl,
                imgs@.len() == nl,
                forall|m2: int| 0 <= m2 < nl ==> (#[trigger] imgs@[m2]).wf(),
                m <= nl,
                new_layers@.len() == m,
                forall|m2: int|
                    0 <= m2 < m ==> (#[trigger] new_layers@[m2]).use_color == flags@[m2]
                        && new_layers@[m2].img@ == bucket_updated(
                        blank_canvas(),
                        &imgs@[m2],
                        x as int,
                        y as int,
                    ) && new_layers@[m2].img.wf() && new_layers@[m2].img.width == 512
                        && new_layers@[m2].img.height == 1024,
            decreases nl - m,
        {
            let mut img = PixelBuffer::new(512, 1024);
            proof {
                assert(img@ =~= blank_canvas()) by {
                    assert forall|i: int| 0 <= i < 512 * 1024 implies img@[i] == blank_canvas()[i]
                        by {
                        crate::transform::lemma_linear_index(512, 1024, i);
                        assert(img.pix(i % 512, i / 512) == img@[i]);
                    }
                }
            }
            overlay_at(&mut img, &imgs[m], x, y);
            new_layers.push(SheetLayer { use_color: flags[m], img });
            m = m + 1;
        }
        entries.push(SheetEntry { color: crate::text::clone_bytes(color), layers: new_layers });
    }
}

/// The four sprite-sheet accumulators of the job-icon recipe, one per visual
/// variant.
pub struct FontSheets {
    /// Two canvases: the glow layer (tinted) and the base icon layer.
    pub glow: Vec<SheetEntry>,
    /// One canvas: the bordered icon layer (tinted).
    pub border: Vec<SheetEntry>,
    /// Three canvases: square backdrop (tinted), bordered icon (tinted),
    /// faded icon.
    pub square: Vec<SheetEntry>,
    /// Three canvases: rounded backdrop (tinted), bordered icon (tinted),
    /// faded icon.
    pub rounded: Vec<SheetEntry>,
}

pub open spec fn font_sheets_wf(s: FontSheets) -> bool {
    stack_wf(s.glow@, 2) && stack_wf(s.border@, 1) && stack_wf(s.square@, 3) && stack_wf(
        s.rounded@,
        3,
    )
}

impl FontSheets {
    /// Empty accumulators.
    pub fn new() -> (r: FontSheets)
        ensures
            font_sheets_wf(r),
            r.glow@.len() == 0,
            r.border@.len() == 0,
            r.square@.len() == 0,
            r.rounded@.len() == 0,
    {
        FontSheets { glow: Vec::new(), border: Vec::new(), square: Vec::new(), rounded: Vec::new() }
    }

    /// Accumulate one job's 36-pixel icon variants into its role colour's
    /// buckets at the job's grid cell: the glow stack gets the tinted glow
    /// over the plain icon, the border stack the tinted bordered icon, and the
    /// square and rounded stacks their tinted backdrop, the tinted bordered
    /// icon, and the plain faded icon. A job whose role is "No Job Color" (a
    /// non-job slot) is excluded: nothing changes.
    pub fn add_job(
        &mut self,
        role: &Vec<u8>,
        x: u32,
        y: u32,
        icon: &PixelBuffer,
        border: &PixelBuffer,
        glow: &PixelBuffer,
        faded: &PixelBuffer,
        square: &PixelBuffer,
        rounded: &PixelBuffer,
    )
        requires
            font_sheets_wf(*old(self)),
            icon.wf(),
            border.wf(),
            glow.wf(),
            faded.wf(),
            square.wf(),
            rounded.wf(),
        ensures
            font_sheets_wf(*final(self)),
            role@ == ("No Job Color").spec_bytes() ==> *final(self) == *old(self),
            role@ != ("No Job Color").spec_bytes() ==> {
                &&& stack_add_post(
                    old(self).glow@,
                    final(self).glow@,
                    role@,
                    seq![true, false],
                    seq![*glow, *icon],
                    x as int,
                    y as int,
                )
                &&& stack_add_post(
                    old(self).border@,
                    final(self).border@,
                    role@,
                    seq![true],
                    seq![*border],
                    x as int,
                    y as int,
                )
                &&& stack_add_post(
                    old(self).square@,
                    final(self).square@,
                    role@,
                    seq![true, true, false],
                    seq![*square, *border, *faded],
                    x as int,
                    y as int,
                )
                &&& stack_add_post(
                    old(self).rounded@,
                    final(self).rounded@,
                    role@,
                    seq![true, true, false],
                    seq![*rounded, *border, *faded],
                    x as int,
                    y as int,
                )
            },
    {
        if !crate::recipes::font_sheet_eligible(role) {
            return ;
        }
        let ghost pre = *self;
        let mut imgs: Vec<PixelBuffer> = Vec::new();
        imgs.push(glow.duplicate());
        imgs.push(icon.duplicate());
        let mut flags: Vec<bool> = Vec::new();
        flags.push(true);
        flags.push(false);
        stack_add(&mut self.glow, role, &flags, &imgs, x, y);
        proof {
            assert(flags@ =~= seq![true, false]);
            lemma_stack_add_post_same_images(
                pre.glow@,
                self.glow@,
                role@,
                flags@,
                imgs@,
                seq![*glow, *icon],
                x as int,
                y as int,
            );
        }
        let mut imgs: Vec<PixelBuffer> = Vec::new();
        imgs.push(border.duplicate());
        let mut flags: Vec<bool> = Vec::new();
        flags.push(true);
        stack_add(&mut self.border, role, &flags, &imgs, x, y);
        proof {
            assert(flags@ =~= seq![true]);
            lemma_stack_add_post_same_images(
                pre.border@,
                self.border@,
                role@,
                flags@,
                imgs@,
                seq![*border],
                x as int,
                y as int,
            );
        }
        let mut imgs: Vec<PixelBuffer> = Vec::new();
        imgs.push(square.duplicate());
        imgs.push(border.duplicate());
        imgs.push(faded.duplicate());
        let mut flags: Vec<bool> = Vec::new();
        flags.push(true);
        flags.push(true);
        flags.push(false);
        stack_add(&mut self.square, role, &flags, &imgs, x, y);
        proof {
            assert(flags@ =~= seq![true, true, false]);
            lemma_stack_add_post_same_images(
                pre.square@,
                self.square@,
                role@,
                flags@,
                imgs@,
                seq![*square, *border, *faded],
                x as int,
                y as int,
            );
        }
        let mut imgs: Vec<PixelBuffer> = Vec::new();
        imgs.push(rounded.duplicate());
        imgs.push(border.duplicate());
        imgs.push(faded.duplicate());
        let mut flags: Vec<bool> = Vec::new();
        flags.push(true);
        flags.push(true);
        flags.push(false);
        stack_add(&mut self.rounded, role, &flags, &imgs, x, y);
        proof {
            assert(flags@ =~= seq![true, true, false]);
            lemma_stack_add_post_same_images(
                pre.rounded@,
                self.rounded@,
                role@,
                flags@,
                imgs@,
                seq![*rounded, *border, *faded],
                x as int,
                y as int,
            );
        }
    }
}

/// The flattened (colour, tinted) pairs of an accumulator, bucket-major.
pub open spec fn flat_pairs(es: Seq<SheetEntry>) -> Seq<(Seq<u8>, bool)>
    decreases es.len(),
{
    if es.len() == 0 {
        Seq::empty()
    } else {
        flat_pairs(es.drop_last()) + Seq::new(
            es.last().layers@.len(),
            |m: int| (es.last().color@, es.last().layers@[m].use_color),
        )
    }
}

/// Whether a font-sheet layer has the expected shape for flattened index
/// `idx` and pair `pair`: name `Layer{idx}`, mod path `{dir}/{idx}.tex`,
/// normal blend, and a colour modifier naming the bucket's colour exactly
/// when the canvas is tinted.
pub open spec fn font_layer_ok(l: Layer, dir: Seq<u8>, pair: (Seq<u8>, bool), idx: int) -> bool {
    &&& l.name@ == ("Layer").spec_bytes() + dec_digits(idx)
    &&& (l.path matches Path::Mod(p) && p@ == dir + ("/").spec_bytes() + dec_digits(idx) + (
    ".tex").spec_bytes())
    &&& (l.blend matches Blend::Normal)
    &&& if pair.1 {
        l.modifiers@.len() == 1 && (l.modifiers@[0] matches Modifier::Color { value } && (
        value matches OptionOrStatic::Option(co) && co.0@ == pair.0))
    } else {
        l.modifiers@.len() == 0
    }
}

/// Whether the bottom layer of a font-sheet composite is the shared
/// game-native base: named "Game", referencing the game path, normal blend,
/// and an alpha mask on the mod-local mask texture with a static cull point of
/// one half.
pub open spec fn game_layer_ok(l: Layer, game_path: Seq<u8>) -> bool {
    &&& l.name@ == ("Game").spec_bytes()
    &&& (l.path matches Path::Game(p) && p@ == game_path)
    &&& (l.blend matches Blend::Normal)
    &&& l.modifiers@.len() == 1
    &&& (l.modifiers@[0] matches Modifier::AlphaMask { path, cull_point } && (
    path matches Path::Mod(mp) && mp@ == ("common/font/fonticon_mask.tex").spec_bytes()) && (
    cull_point matches OptionOrStatic::Static(v) && v == 500))
}

/// Build the composite descriptor of one font sheet: one layer per flattened
/// canvas, and the game-native base layer under them all; built bottom-up and
/// reversed, so index 0 is the game layer and index `i >= 1` is flattened
/// canvas `n - i`.
pub fn font_sheet_comp(entries: &Vec<SheetEntry>, local_dir: &Vec<u8>, game_path: &Vec<u8>) -> (r:
    Tex)
    ensures
        ({
            let pairs = flat_pairs(entries@);
            &&& r.layers@.len() == pairs.len() + 1
            &&& game_layer_ok(r.layers@[0], game_path@)
            &&& (forall|i: int|
                1 <= i < r.layers@.len() ==> font_layer_ok(
                    #[trigger] r.layers@[i],
                    local_dir@,
                    pairs[pairs.len() - i],
                    pairs.len() - i,
                ))
        }),
{
    let mut pairs: Vec<(Vec<u8>, bool)> = Vec::new();
    let n: usize = entries.len();
    let mut k: usize = 0;
    while k < n
        invariant
            entries@.len() == n,
            k <= n,
            pairs@.len() == flat_pairs(entries@.take(k as int)).len(),
            forall|i: int|
                0 <= i < pairs@.len() ==> (#[trigger] pairs@[i]).0@ == flat_pairs(
                    entries@.take(k as int),
                )[i].0 && pairs@[i].1 == flat_pairs(entries@.take(k as int))[i].1,
        decreases n - k,
    {
        let e = &entries[k];
        let nl: usize = e.layers.len();
        let mut m: usize = 0;
        while m < nl
            invariant
                entries@.len() == n,
                k < n,
                e == &entries@[k as int],
                e.layers@.len() == nl,
                m <= nl,
                pairs@.len() == flat_pairs(entries@.take(k as int)).len() + m,
                forall|i: int|
                    0 <= i < flat_pairs(entries@.take(k as int)).len() ==> (
                    #[trigger] pairs@[i]).0@ == flat_pairs(entries@.take(k as int))[i].0
                        && pairs@[i].1 == flat_pairs(entries@.take(k as int))[i].1,
                forall|m2: int|
                    0 <= m2 < m ==> (#[trigger] pairs@[flat_pairs(entries@.take(k as int)).len()
                        + m2]).0@ == entries@[k as int].color@ && pairs@[flat_pairs(
                        entries@.take(k as int),
                    ).len() + m2].1 == entries@[k as int].layers@[m2].use_color,
            decreases nl - m,
        {
            pairs.push((crate::text::clone_bytes(&e.color), e.layers[m].use_color));
            m = m + 1;
        }
        proof {
            lemma_flat_pairs_push(entries@, k as int);
            assert forall|i: int| 0 <= i < pairs@.len() implies (#[trigger] pairs@[i]).0@
                == flat_pairs(entries@.take(k as int + 1))[i].0 && pairs@[i].1 == flat_pairs(
                entries@.take(k as int + 1),
            )[i].1 by {
                if i < flat_pairs(entries@.take(k as int)).len() {
                    assert(flat_pairs(entries@.take(k as int + 1))[i] == flat_pairs(
                        entries@.take(k as int),
                    )[i]);
                } else {
                    assert(flat_pairs(entries@.take(k as int + 1))[i] == (
                    entries@[k as int].color@,
                    entries@[k as int].layers@[i - flat_pairs(
                        entries@.take(k as int),
                    ).len()].use_color,
                    ));
                }
            }
        }
        k = k + 1;
    }
    proof {
        assert(entries@.take(n as int) =~= entries@);
    }
    let np: usize = pairs.len();
    let mut layers: Vec<Layer> = Vec::new();
    let mut mask_path: Vec<u8> = Vec::new();
    push_lit(&mut mask_path, "common/font/fonticon_mask.tex");
    let mut game_mods: Vec<Modifier> = Vec::new();
    game_mods.push(
        Modifier::AlphaMask {
            path: Path::Mod(mask_path),
            cull_point: OptionOrStatic::Static(500),
        },
    );
    let game_layer = Layer {
        name: crate::text::lit_bytes("Game"),
        path: Path::Game(crate::text::clone_bytes(game_path)),
        modifiers: game_mods,
        blend: Blend::Normal,
    };
    layers.push(game_layer);
    let mut k: usize = 0;
    while k < np
        invariant
            pairs@.len() == np,
            forall|i: int|
                0 <= i < np ==> (#[trigger] pairs@[i]).0@ == flat_pairs(entries@)[i].0
                    && pairs@[i].1 == flat_pairs(entries@)[i].1,
            np == flat_pairs(entries@).len(),
            k <= np,
            layers@.len() == k + 1,
            game_layer_ok(layers@[0], game_path@),
            forall|i: int|
                1 <= i < k + 1 ==> font_layer_ok(
                    #[trigger] layers@[i],
                    local_dir@,
                    flat_pairs(entries@)[np - i],
                    np - i,
                ),
        decreases np - k,
    {
        let idx: usize = np - 1 - k;
        let mut name: Vec<u8> = Vec::new();
        push_lit(&mut name, "Layer");
        push_dec(&mut name, idx as u64);
        let mut path: Vec<u8> = Vec::new();
        crate::text::push_bytes(&mut path, local_dir);
        push_lit(&mut path, "/");
        push_dec(&mut path, idx as u64);
        push_lit(&mut path, ".tex");
        let modifiers: Vec<Modifier> = if pairs[idx].1 {
            let mut ms: Vec<Modifier> = Vec::new();
            ms.push(
                Modifier::Color {
                    value: OptionOrStatic::Option(
                        ColorOption(crate::text::clone_bytes(&pairs[idx].0)),
                    ),
                },
            );
            ms
        } else {
            Vec::new()
        };
        layers.push(Layer { name, path: Path::Mod(path), modifiers, blend: Blend::Normal });
        k = k + 1;
    }
    Tex { layers }
}

} // verus!
