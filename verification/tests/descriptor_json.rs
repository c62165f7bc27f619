//! The composite descriptor's JSON serialization: tagged-union encoding, field
//! order, string escaping and the short-decimal parameters; and the per-id
//! descriptor builder's reversal and modifiers.

use texkit::composite::{
    tex_comp_json, Blend, ColorOption, Layer, Modifier, OptionOrStatic, Path, Tex,
};
use texkit::recipes::comp_layers;

fn bytes(s: &str) -> Vec<u8> {
    s.as_bytes().to_vec()
}

#[test]
fn descriptor_json_matches_the_format() {
    let t = Tex {
        layers: vec![
            Layer {
                name: bytes("Game"),
                path: Path::Game(bytes("common/font/fonticon_ps5.tex")),
                modifiers: vec![Modifier::AlphaMask {
                    path: Path::Mod(bytes("common/font/fonticon_mask.tex")),
                    cull_point: OptionOrStatic::Static(500),
                }],
                blend: Blend::Normal,
            },
            Layer {
                name: bytes("Layer0"),
                path: Path::Mod(bytes("x/y/0.tex")),
                modifiers: vec![Modifier::Color {
                    value: OptionOrStatic::Option(ColorOption(bytes("Tank Color"))),
                }],
                blend: Blend::Normal,
            },
        ],
    };
    let json = String::from_utf8(tex_comp_json(&t)).unwrap();
    let expected = String::new()
        + "{\"layers\":["
        + "{\"name\":\"Game\",\"path\":{\"Game\":\"common/font/fonticon_ps5.tex\"},"
        + "\"modifiers\":[{\"AlphaMask\":{\"path\":{\"Mod\":\"common/font/fonticon_mask.tex\"},"
        + "\"cull_point\":{\"Static\":0.5}}}],\"blend\":\"Normal\"},"
        + "{\"name\":\"Layer0\",\"path\":{\"Mod\":\"x/y/0.tex\"},"
        + "\"modifiers\":[{\"Color\":{\"value\":{\"Option\":\"Tank Color\"}}}],"
        + "\"blend\":\"Normal\"}"
        + "]}";
    assert_eq!(json, expected);
}

#[test]
fn descriptor_json_is_valid_json() {
    let t = Tex {
        layers: vec![Layer {
            name: bytes("a \"quoted\" name\n"),
            path: Path::Option(bytes("opt"), bytes("sub")),
            modifiers: vec![],
            blend: Blend::SoftLightPhotoshop,
        }],
    };
    let json_bytes = tex_comp_json(&t);
    let parsed: serde_json::Value = serde_json::from_slice(&json_bytes).unwrap();
    assert_eq!(parsed["layers"][0]["name"], "a \"quoted\" name\n");
    assert_eq!(parsed["layers"][0]["path"]["Option"][0], "opt");
    assert_eq!(parsed["layers"][0]["blend"], "SoftLightPhotoshop");
}

#[test]
fn mask_static_serializes_as_short_decimal() {
    let mut out: Vec<u8> = Vec::new();
    texkit::composite::push_per_mille(&mut out, 500);
    assert_eq!(String::from_utf8(out).unwrap(), "0.5");
    let mut out: Vec<u8> = Vec::new();
    texkit::composite::push_per_mille(&mut out, 300);
    assert_eq!(String::from_utf8(out).unwrap(), "0.3");
    let mut out: Vec<u8> = Vec::new();
    texkit::composite::push_per_mille(&mut out, 1000);
    assert_eq!(String::from_utf8(out).unwrap(), "1.0");
    let mut out: Vec<u8> = Vec::new();
    texkit::composite::push_per_mille(&mut out, 125);
    assert_eq!(String::from_utf8(out).unwrap(), "0.125");
    let mut out: Vec<u8> = Vec::new();
    texkit::composite::push_per_mille(&mut out, 50);
    assert_eq!(String::from_utf8(out).unwrap(), "0.05");
}

#[test]
fn comp_layers_builds_reversed_stack() {
    // Construction order is bottom-up: colour layer first, untinted overlay
    // second; the descriptor lists them topmost first.
    let colors = vec![Some(bytes("Tank Color")), None];
    let t = comp_layers(&bytes("p/q"), &colors);
    assert_eq!(t.layers.len(), 2);
    assert_eq!(t.layers[0].name, bytes("Layer1"));
    assert!(t.layers[0].modifiers.is_empty());
    match &t.layers[0].path {
        Path::Mod(p) => assert_eq!(p, &bytes("p/q/1.tex")),
        _ => panic!("expected a mod path"),
    }
    assert_eq!(t.layers[1].name, bytes("Layer0"));
    assert_eq!(t.layers[1].modifiers.len(), 1);
    match &t.layers[1].modifiers[0] {
        Modifier::Color { value: OptionOrStatic::Option(ColorOption(c)) } => {
            assert_eq!(c, &bytes("Tank Color"));
        },
        _ => panic!("expected a colour option modifier"),
    }
}
