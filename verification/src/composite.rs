//! The composite-descriptor data model: a named, ordered stack of layers, each
//! referencing a texture by path and carrying blend mode and modifiers, plus
//! the deterministic JSON serialization of the whole descriptor.
//!
//! Layer index 0 is the topmost visual layer; builders construct bottom-up and
//! reverse before serialization. Fractional modifier parameters are carried in
//! per-mille (thousandths), and serialized as their exact short decimal.

use vstd::prelude::*;
use vstd::string::StringSliceAdditionalSpecFns;

use crate::text::{dec_digits, dec_padded, push_dec, push_dec_padded, push_lit};

verus! {

/// A texture reference, resolved by the external compositor.
pub enum Path {
    /// A mod-local packed texture, by relative path.
    Mod(Vec<u8>),
    /// A game-native texture, by game path.
    Game(Vec<u8>),
    /// Another option's texture, by option and sub-option name.
    Option(Vec<u8>, Vec<u8>),
}

/// The blend mode of a layer: stored and serialized, never interpreted here.
pub enum Blend {
    Normal,
    Multiply,
    Screen,
    Overlay,
    HardLight,
    SoftLightPhotoshop,
}

/// A named option setting referenced by modifiers; the associated type is the
/// static value the modifier takes when it is not an option lookup.
pub trait OptionSetting {
    type Value;
}

/// A flat colour option, by name; its static value is an RGBA colour with
/// per-mille channels.
pub struct ColorOption(pub Vec<u8>);

/// An RGBA colour with each channel in thousandths of full intensity.
pub struct ColorValue {
    pub r: u32,
    pub g: u32,
    pub b: u32,
    pub a: u32,
}

impl OptionSetting for ColorOption {
    type Value = ColorValue;
}

/// An alpha-mask cull point option, by name; its static value is a cull point
/// in thousandths.
pub struct MaskOption(pub Vec<u8>);

impl OptionSetting for MaskOption {
    type Value = u32;
}

/// A modifier parameter: either a static value or a named option lookup,
/// resolved at apply-time outside this library.
pub enum OptionOrStatic<T: OptionSetting> {
    Option(T),
    Static(T::Value),
}

/// A per-layer modifier.
pub enum Modifier {
    /// Culls pixels based on the red channel of the mask texture.
    AlphaMask { path: Path, cull_point: OptionOrStatic<MaskOption> },
    /// Culls pixels based on the red channel of the mask texture, then
    /// stretches the alpha channel of the texture.
    AlphaMaskAlphaStretch { path: Path, cull_point: OptionOrStatic<MaskOption> },
    /// Multiplies the colour channels of the texture by the colour.
    Color { value: OptionOrStatic<ColorOption> },
}

/// One layer of a composite: a cosmetic name, the texture reference, its
/// modifiers, and the blend mode.
pub struct Layer {
    pub name: Vec<u8>,
    pub path: Path,
    pub modifiers: Vec<Modifier>,
    pub blend: Blend,
}

/// A composite descriptor: the ordered layer stack, topmost first.
pub struct Tex {
    pub layers: Vec<Layer>,
}

/// A lower-case hexadecimal digit.
pub open spec fn hex_digit(n: int) -> u8 {
    if n < 10 {
        (48 + n) as u8
    } else {
        (87 + n) as u8
    }
}

/// The JSON escape of one byte: quote and backslash escaped, the five named
/// control escapes, `\u00XY` for other control bytes, everything else verbatim.
pub open spec fn escape_byte(b: u8) -> Seq<u8> {
    if b == 34 {
        seq![92u8, 34u8]
    } else if b == 92 {
        seq![92u8, 92u8]
    } else if b == 8 {
        seq![92u8, 98u8]
    } else if b == 9 {
        seq![92u8, 116u8]
    } else if b == 10 {
        seq![92u8, 110u8]
    } else if b == 12 {
        seq![92u8, 102u8]
    } else if b == 13 {
        seq![92u8, 114u8]
    } else if b < 32 {
        seq![92u8, 117u8, 48u8, 48u8, hex_digit(b as int / 16), hex_digit(b as int % 16)]
    } else {
        seq![b]
    }
}

pub open spec fn escape_bytes(s: Seq<u8>) -> Seq<u8>
    decreases s.len(),
{
    if s.len() == 0 {
        Seq::empty()
    } else {
        escape_bytes(s.drop_last()) + escape_byte(s.last())
    }
}

/// A JSON string: quoted and escaped.
pub open spec fn json_string(s: Seq<u8>) -> Seq<u8> {
    seq![34u8] + escape_bytes(s) + seq![34u8]
}

/// Append the JSON string form of a byte string.
pub fn push_json_string(out: &mut Vec<u8>, s: &Vec<u8>)
    ensures
        final(out)@ == old(out)@ + json_string(s@),
{
    out.push(34);
    let n: usize = s.len();
    let mut i: usize = 0;
    while i < n
        invariant
            s@.len() == n,
            i <= n,
            out@ =~= old(out)@ + seq![34u8] + escape_bytes(s@.take(i as int)),
        decreases n - i,
    {
        let b = s[i];
        if b == 34 {
            out.push(92);
            out.push(34);
        } else if b == 92 {
            out.push(92);
            out.push(92);
        } else if b == 8 {
            out.push(92);
            out.push(98);
        } else if b == 9 {
            out.push(92);
            out.push(116);
        } else if b == 10 {
            out.push(92);
            out.push(110);
        } else if b == 12 {
            out.push(92);
            out.push(102);
        } else if b == 13 {
            out.push(92);
            out.push(114);
        } else if b < 32 {
            out.push(92);
            out.push(117);
            out.push(48);
            out.push(48);
            let hi = b / 16;
            let lo = b % 16;
            out.push(if hi < 10 {
                48 + hi
            } else {
                87 + hi
            });
            out.push(if lo < 10 {
                48 + lo
            } else {
                87 + lo
            });
        } else {
            out.push(b);
        }
        proof {
            assert(s@.take(i as int + 1).drop_last() =~= s@.take(i as int));
            assert(s@.take(i as int + 1).last() == s@[i as int]);
            assert(out@ =~= old(out)@ + seq![34u8] + escape_bytes(s@.take(i as int + 1)));
        }
        i = i + 1;
    }
    out.push(34);
    proof {
        assert(s@.take(n as int) =~= s@);
        assert(out@ =~= old(out)@ + json_string(s@));
    }
}

/// A per-mille value as its decimal: the whole part, a point, and the fraction
/// with trailing zeros removed, or `.0` for a whole value. This is the short
/// decimal the descriptor format uses for fractional parameters.
pub open spec fn per_mille_json(n: int) -> Seq<u8> {
    let whole = dec_digits(n / 1000);
    let f = n % 1000;
    if f == 0 {
        whole + seq![46u8, 48u8]
    } else if f % 100 == 0 {
        whole + seq![46u8] + dec_digits(f / 100)
    } else if f % 10 == 0 {
        whole + seq![46u8] + dec_padded(f / 10, 2)
    } else {
        whole + seq![46u8] + dec_padded(f, 3)
    }
}

/// Append the short decimal of a per-mille value.
pub fn push_per_mille(out: &mut Vec<u8>, n: u32)
    ensures
        final(out)@ == old(out)@ + per_mille_json(n as int),
{
    push_dec(out, (n / 1000) as u64);
    out.push(46);
    let f: u32 = n % 1000;
    if f == 0 {
        out.push(48);
        proof {
            assert(final(out)@ =~= old(out)@ + per_mille_json(n as int));
        }
    } else if f % 100 == 0 {
        push_dec(out, (f / 100) as u64);
        proof {
            assert(final(out)@ =~= old(out)@ + per_mille_json(n as int));
        }
    } else if f % 10 == 0 {
        push_dec_padded(out, (f / 10) as u64, 2);
        proof {
            assert(final(out)@ =~= old(out)@ + per_mille_json(n as int));
        }
    } else {
        push_dec_padded(out, f as u64, 3);
        proof {
            assert(final(out)@ =~= old(out)@ + per_mille_json(n as int));
        }
    }
}

/// The JSON of a texture reference, as its tagged-union encoding.
pub open spec fn path_json(p: Path) -> Seq<u8> {
    match p {
        Path::Mod(s) => ("{\"Mod\":").spec_bytes() + json_string(s@) + ("}").spec_bytes(),
        Path::Game(s) => ("{\"Game\":").spec_bytes() + json_string(s@) + ("}").spec_bytes(),
        Path::Option(a, b) => ("{\"Option\":[").spec_bytes() + json_string(a@) + (
        ",").spec_bytes() + json_string(b@) + ("]}").spec_bytes(),
    }
}

pub fn push_path_json(out: &mut Vec<u8>, p: &Path)
    ensures
        final(out)@ == old(out)@ + path_json(*p),
{
    match p {
        Path::Mod(s) => {
            push_lit(out, "{\"Mod\":");
            push_json_string(out, s);
            push_lit(out, "}");
        },
        Path::Game(s) => {
            push_lit(out, "{\"Game\":");
            push_json_string(out, s);
            push_lit(out, "}");
        },
        Path::Option(a, b) => {
            push_lit(out, "{\"Option\":[");
            push_json_string(out, a);
            push_lit(out, ",");
            push_json_string(out, b);
            push_lit(out, "]}");
        },
    }
    proof {
        assert(final(out)@ =~= old(out)@ + path_json(*p));
    }
}

/// The JSON of a blend mode: its bare variant name.
pub open spec fn blend_json(b: Blend) -> Seq<u8> {
    match b {
        Blend::Normal => ("\"Normal\"").spec_bytes(),
        Blend::Multiply => ("\"Multiply\"").spec_bytes(),
        Blend::Screen => ("\"Screen\"").spec_bytes(),
        Blend::Overlay => ("\"Overlay\"").spec_bytes(),
        Blend::HardLight => ("\"HardLight\"").spec_bytes(),
        Blend::SoftLightPhotoshop => ("\"SoftLightPhotoshop\"").spec_bytes(),
    }
}

pub fn push_blend_json(out: &mut Vec<u8>, b: &Blend)
    ensures
        final(out)@ == old(out)@ + blend_json(*b),
{
    match b {
        Blend::Normal => push_lit(out, "\"Normal\""),
        Blend::Multiply => push_lit(out, "\"Multiply\""),
        Blend::Screen => push_lit(out, "\"Screen\""),
        Blend::Overlay => push_lit(out, "\"Overlay\""),
        Blend::HardLight => push_lit(out, "\"HardLight\""),
        Blend::SoftLightPhotoshop => push_lit(out, "\"SoftLightPhotoshop\""),
    }
}

/// The JSON of a mask parameter.
pub open spec fn oos_mask_json(o: OptionOrStatic<MaskOption>) -> Seq<u8> {
    match o {
        OptionOrStatic::Option(m) => ("{\"Option\":").spec_bytes() + json_string(m.0@) + (
        "}").spec_bytes(),
        OptionOrStatic::Static(v) => ("{\"Static\":").spec_bytes() + per_mille_json(v as int) + (
        "}").spec_bytes(),
    }
}

pub fn push_oos_mask_json(out: &mut Vec<u8>, o: &OptionOrStatic<MaskOption>)
    ensures
        final(out)@ == old(out)@ + oos_mask_json(*o),
{
    match o {
        OptionOrStatic::Option(m) => {
            push_lit(out, "{\"Option\":");
            push_json_string(out, &m.0);
            push_lit(out, "}");
        },
        OptionOrStatic::Static(v) => {
            push_lit(out, "{\"Static\":");
            push_per_mille(out, *v);
            push_lit(out, "}");
        },
    }
    proof {
        assert(final(out)@ =~= old(out)@ + oos_mask_json(*o));
    }
}

/// The JSON of a colour parameter.
pub open spec fn oos_color_json(o: OptionOrStatic<ColorOption>) -> Seq<u8> {
    match o {
        OptionOrStatic::Option(c) => ("{\"Option\":").spec_bytes() + json_string(c.0@) + (
        "}").spec_bytes(),
        OptionOrStatic::Static(v) => ("{\"Static\":[").spec_bytes() + per_mille_json(v.r as int)
            + (",").spec_bytes() + per_mille_json(v.g as int) + (",").spec_bytes()
            + per_mille_json(v.b as int) + (",").spec_bytes() + per_mille_json(v.a as int) + (
        "]}").spec_bytes(),
    }
}

pub fn push_oos_color_json(out: &mut Vec<u8>, o: &OptionOrStatic<ColorOption>)
    ensures
        final(out)@ == old(out)@ + oos_color_json(*o),
{
    match o {
        OptionOrStatic::Option(c) => {
            push_lit(out, "{\"Option\":");
            push_json_string(out, &c.0);
            push_lit(out, "}");
        },
        OptionOrStatic::Static(v) => {
            push_lit(out, "{\"Static\":[");
            push_per_mille(out, v.r);
            push_lit(out, ",");
            push_per_mille(out, v.g);
            push_lit(out, ",");
            push_per_mille(out, v.b);
            push_lit(out, ",");
            push_per_mille(out, v.a);
            push_lit(out, "]}");
        },
    }
    proof {
        assert(final(out)@ =~= old(out)@ + oos_color_json(*o));
    }
}

/// The JSON of a modifier, as its tagged-union encoding.
pub open spec fn modifier_json(m: Modifier) -> Seq<u8> {
    match m {
        Modifier::AlphaMask { path, cull_point } => ("{\"AlphaMask\":{\"path\":").spec_bytes()
            + path_json(path) + (",\"cull_point\":").spec_bytes() + oos_mask_json(cull_point) + (
        "}}").spec_bytes(),
        Modifier::AlphaMaskAlphaStretch { path, cull_point } => (
        "{\"AlphaMaskAlphaStretch\":{\"path\":").spec_bytes() + path_json(path) + (
        ",\"cull_point\":").spec_bytes() + oos_mask_json(cull_point) + ("}}").spec_bytes(),
        Modifier::Color { value } => ("{\"Color\":{\"value\":").spec_bytes() + oos_color_json(
            value,
        ) + ("}}").spec_bytes(),
    }
}

pub fn push_modifier_json(out: &mut Vec<u8>, m: &Modifier)
    ensures
        final(out)@ == old(out)@ + modifier_json(*m),
{
    match m {
        Modifier::AlphaMask { path, cull_point } => {
            push_lit(out, "{\"AlphaMask\":{\"path\":");
            push_path_json(out, path);
            push_lit(out, ",\"cull_point\":");
            push_oos_mask_json(out, cull_point);
            push_lit(out, "}}");
        },
        Modifier::AlphaMaskAlphaStretch { path, cull_point } => {
            push_lit(out, "{\"AlphaMaskAlphaStretch\":{\"path\":");
            push_path_json(out, path);
            push_lit(out, ",\"cull_point\":");
            push_oos_mask_json(out, cull_point);
            push_lit(out, "}}");
        },
        Modifier::Color { value } => {
            push_lit(out, "{\"Color\":{\"value\":");
            push_oos_color_json(out, value);
            push_lit(out, "}}");
        },
    }
    proof {
        assert(final(out)@ =~= old(out)@ + modifier_json(*m));
    }
}

/// A comma-separated JSON list of modifiers.
pub open spec fn modifiers_json(ms: Seq<Modifier>) -> Seq<u8>
    decreases ms.len(),
{
    if ms.len() == 0 {
        Seq::empty()
    } else if ms.len() == 1 {
        modifier_json(ms[0])
    } else {
        modifiers_json(ms.drop_last()) + seq![44u8] + modifier_json(ms.last())
    }
}

pub fn push_modifiers_json(out: &mut Vec<u8>, ms: &Vec<Modifier>)
    ensures
        final(out)@ == old(out)@ + modifiers_json(ms@),
{
    let n: usize = ms.len();
    let mut i: usize = 0;
    while i < n
        invariant
            ms@.len() == n,
            i <= n,
            out@ =~= old(out)@ + modifiers_json(ms@.take(i as int)),
        decreases n - i,
    {
        if i > 0 {
            out.push(44);
        }
        push_modifier_json(out, &ms[i]);
        proof {
            assert(ms@.take(i as int + 1).drop_last() =~= ms@.take(i as int));
            assert(ms@.take(i as int + 1).last() == ms@[i as int]);
            assert(out@ =~= old(out)@ + modifiers_json(ms@.take(i as int + 1)));
        }
        i = i + 1;
    }
    proof {
        assert(ms@.take(n as int) =~= ms@);
    }
}

/// The JSON of one layer: name, path, modifiers and blend, in that order.
pub open spec fn layer_json(l: Layer) -> Seq<u8> {
    ("{\"name\":").spec_bytes() + json_string(l.name@) + (",\"path\":").spec_bytes() + path_json(
        l.path,
    ) + (",\"modifiers\":[").spec_bytes() + modifiers_json(l.modifiers@) + (
    "],\"blend\":").spec_bytes() + blend_json(l.blend) + ("}").spec_bytes()
}

#[verifier::rlimit(60)]
pub fn push_layer_json(out: &mut Vec<u8>, l: &Layer)
    ensures
        final(out)@ == old(out)@ + layer_json(*l),
{
    push_lit(out, "{\"name\":");
    push_json_string(out, &l.name);
    push_lit(out, ",\"path\":");
    push_path_json(out, &l.path);
    push_lit(out, ",\"modifiers\":[");
    push_modifiers_json(out, &l.modifiers);
    push_lit(out, "],\"blend\":");
    push_blend_json(out, &l.blend);
    push_lit(out, "}");
    proof {
        assert(final(out)@ =~= old(out)@ + layer_json(*l));
    }
}

/// A comma-separated JSON list of layers.
pub open spec fn layers_json(ls: Seq<Layer>) -> Seq<u8>
    decreases ls.len(),
{
    if ls.len() == 0 {
        Seq::empty()
    } else if ls.len() == 1 {
        layer_json(ls[0])
    } else {
        layers_json(ls.drop_last()) + seq![44u8] + layer_json(ls.last())
    }
}

/// The JSON of a whole composite descriptor.
pub open spec fn tex_json(t: Tex) -> Seq<u8> {
    ("{\"layers\":[").spec_bytes() + layers_json(t.layers@) + ("]}").spec_bytes()
}

/// Serialize a composite descriptor to its JSON text, as UTF-8 bytes.
pub fn tex_comp_json(t: &Tex) -> (r: Vec<u8>)
    ensures
        r@ == tex_json(*t),
{
    let mut out: Vec<u8> = Vec::new();
    push_lit(&mut out, "{\"layers\":[");
    let n: usize = t.layers.len();
    let mut i: usize = 0;
    while i < n
        invariant
            t.layers@.len() == n,
            i <= n,
            out@ =~= ("{\"layers\":[").spec_bytes() + layers_json(t.layers@.take(i as int)),
        decreases n - i,
    {
        if i > 0 {
            out.push(44);
        }
        push_layer_json(&mut out, &t.layers[i]);
        proof {
            assert(t.layers@.take(i as int + 1).drop_last() =~= t.layers@.take(i as int));
            assert(t.layers@.take(i as int + 1).last() == t.layers@[i as int]);
            assert(out@ =~= ("{\"layers\":[").spec_bytes() + layers_json(
                t.layers@.take(i as int + 1),
            ));
        }
        i = i + 1;
    }
    push_lit(&mut out, "]}");
    proof {
        assert(t.layers@.take(n as int) =~= t.layers@);
        assert(out@ =~= tex_json(*t));
    }
    out
}

} // verus!
