//! The vector-document splitter: the bare-texture case, the layer-ordering
//! case, path validation, fragment inlining and the `rect` patch.

use texkit::splitter::{split_svgs, SplitError};

fn split(doc: &str) -> Result<Vec<texkit::splitter::SvgResult>, SplitError> {
    split_svgs(&doc.as_bytes().to_vec())
}

fn text_of(v: &[u8]) -> String {
    String::from_utf8(v.to_vec()).unwrap()
}

#[test]
fn single_layer_no_color_is_bare() {
    // One path, one option with a sub-option, one unlabelled colour group:
    // exactly one output with a single layer and no colour option, the bare
    // texture case.
    let r = split(
        "<svg width=\"8\" height=\"8\"><g label=\"a/b\"><g label=\"color:main\">\
         <g label=\"\"><rect width=\"8\" height=\"8\"/></g></g></g></svg>",
    )
    .unwrap();
    assert_eq!(r.len(), 1);
    assert_eq!(r[0].path, b"a/b".to_vec());
    assert_eq!(
        r[0].option,
        Some((b"color".to_vec(), b"main".to_vec()))
    );
    assert_eq!(r[0].layers.len(), 1);
    assert!(r[0].layers[0].0.is_none());
    assert!(!r[0].needs_descriptor());
    let doc = text_of(&r[0].layers[0].1);
    assert!(doc.starts_with("<svg"));
    assert!(doc.contains("<rect width=\"8\" height=\"8\">"));
    assert!(doc.ends_with("</svg>"));
}

#[test]
fn tinted_then_plain_layers_keep_document_order() {
    // Two colour groups, "Tint" then "": layer 0 of the accumulated list is
    // the earliest colour in document order, so the descriptor built from the
    // reversed list puts the plain layer first.
    let r = split(
        "<svg><g label=\"a/b\"><g label=\"color:main\">\
         <g label=\"Tint\"><rect/></g><g label=\"\"><circle/></g></g></g></svg>",
    )
    .unwrap();
    assert_eq!(r.len(), 1);
    assert_eq!(r[0].layers.len(), 2);
    assert_eq!(r[0].layers[0].0, Some(b"Tint".to_vec()));
    assert!(r[0].layers[1].0.is_none());
    assert!(r[0].needs_descriptor());
    let colors: Vec<Option<Vec<u8>>> = r[0].layers.iter().map(|l| l.0.clone()).collect();
    let t = texkit::recipes::comp_layers(&b"a/b/color/main".to_vec(), &colors);
    // Post-reversal: index 0 is the plain (no-modifier) layer, index 1 the
    // tinted one.
    assert!(t.layers[0].modifiers.is_empty());
    assert_eq!(t.layers[1].modifiers.len(), 1);
}

#[test]
fn traversal_path_is_rejected() {
    let r = split(
        "<svg><g label=\"a/./b\"><g label=\"color:main\"><g label=\"\"><rect/></g></g></g></svg>",
    );
    assert!(matches!(r, Err(SplitError::InvalidPath)));
    let r = split(
        "<svg><g label=\"a/.\\\\b\"><g label=\"c:d\"><g label=\"\"><rect/></g></g></g></svg>",
    );
    assert!(matches!(r, Err(SplitError::InvalidPath)));
}

#[test]
fn option_without_sub_name_is_rejected() {
    let r = split(
        "<svg><g label=\"a/b\"><g label=\"justone\"><g label=\"\"><rect/></g></g></g></svg>",
    );
    assert!(matches!(r, Err(SplitError::MissingSubOption)));
}

#[test]
fn empty_option_label_means_no_option() {
    let r = split(
        "<svg><g label=\"a/b\"><g label=\" \"><g label=\"\"><rect/></g></g></g></svg>",
    )
    .unwrap();
    assert_eq!(r.len(), 1);
    assert!(r[0].option.is_none());
}

#[test]
fn semicolon_aliases_fan_out() {
    let r = split(
        "<svg><g label=\"a/b\"><g label=\"c:x;c:y\"><g label=\"\"><rect/></g></g></g></svg>",
    )
    .unwrap();
    assert_eq!(r.len(), 2);
    assert_eq!(r[0].option, Some((b"c".to_vec(), b"x".to_vec())));
    assert_eq!(r[1].option, Some((b"c".to_vec(), b"y".to_vec())));
    assert_eq!(r[0].layers.len(), r[1].layers.len());
}

#[test]
fn path_is_trimmed_and_lowercased() {
    let r = split(
        "<svg><g label=\" UI/Panel \"><g label=\"c:m\"><g label=\"\"><rect/></g></g></g></svg>",
    )
    .unwrap();
    assert_eq!(r[0].path, b"ui/panel".to_vec());
}

#[test]
fn labels_are_trimmed_of_unicode_whitespace() {
    // A path label padded with no-break and ideographic spaces, and a colour
    // label that is only a no-break space: both trim as str::trim would.
    let doc = format!(
        "<svg><g label=\"{}UI/Panel{}\"><g label=\"c:m\"><g label=\"{}\"><rect/></g></g></g></svg>",
        '\u{a0}', '\u{3000}', '\u{a0}'
    );
    let r = split(&doc).unwrap();
    assert_eq!(r.len(), 1);
    assert_eq!(r[0].path, b"ui/panel".to_vec());
    assert!(r[0].layers[0].0.is_none());
    assert!(!r[0].needs_descriptor());
}

#[test]
fn descriptor_needed_for_single_tinted_layer() {
    let r = split(
        "<svg><g label=\"a/b\"><g label=\"c:m\"><g label=\"Tint\"><rect/></g></g></g></svg>",
    )
    .unwrap();
    assert_eq!(r[0].layers.len(), 1);
    assert_eq!(r[0].layers[0].0, Some(b"Tint".to_vec()));
    assert!(r[0].needs_descriptor());
}

#[test]
fn underscore_branches_are_skipped() {
    let r = split(
        "<svg><g label=\"_notes\"><g label=\"c:m\"><g label=\"\"><rect/></g></g></g>\
         <g label=\"a/b\"><g label=\"c:m\"><g label=\"\"><rect/></g></g></g></svg>",
    )
    .unwrap();
    assert_eq!(r.len(), 1);
    assert_eq!(r[0].path, b"a/b".to_vec());
}

#[test]
fn fragment_is_inlined_at_use_sites() {
    let r = split(
        "<svg><g label=\"+star\" id=\"star\" style=\"opacity:1\"><path d=\"M0\"/></g>\
         <g label=\"a/b\"><g label=\"c:m\"><g label=\"\">\
         <use href=\"#star\" x=\"3\"/></g></g></g></svg>",
    )
    .unwrap();
    assert_eq!(r.len(), 1);
    let doc = text_of(&r[0].layers[0].1);
    // The reference becomes a wrapping group (href removed, other attributes
    // kept) holding the captured fragment, whose own style was stripped.
    assert!(doc.contains("<g x=\"3\"><g label=\"+star\" id=\"star\"><path d=\"M0\"></path></g></g>"));
}

#[test]
fn unresolved_use_passes_through() {
    let r = split(
        "<svg><g label=\"a/b\"><g label=\"c:m\"><g label=\"\">\
         <use href=\"#missing\"/></g></g></g></svg>",
    )
    .unwrap();
    let doc = text_of(&r[0].layers[0].1);
    assert!(doc.contains("<use href=\"#missing\"></use>"));
}

#[test]
fn defs_content_is_replayed_into_every_document() {
    let r = split(
        "<svg><defs><linearGradient id=\"lg\"/></defs>\
         <g label=\"a/b\"><g label=\"c:m\"><g label=\"\"><rect/></g></g></g></svg>",
    )
    .unwrap();
    let doc = text_of(&r[0].layers[0].1);
    assert!(doc.contains("<defs><linearGradient id=\"lg\"></linearGradient></defs>"));
}

#[test]
fn zero_corner_radii_are_patched_on_rects() {
    let r = split(
        "<svg><g label=\"a/b\"><g label=\"c:m\"><g label=\"\">\
         <rect rx=\"0\" ry=\"2\" width=\"4\"/></g></g></g></svg>",
    )
    .unwrap();
    let doc = text_of(&r[0].layers[0].1);
    assert!(doc.contains("<rect ry=\"2\" width=\"4\">"));
    assert!(!doc.contains("rx=\"0\""));
}

#[test]
fn root_attributes_are_rewrapped() {
    let r = split(
        "<svg width=\"64\" height=\"64\" viewBox=\"0 0 64 64\">\
         <g label=\"a/b\"><g label=\"c:m\"><g label=\"\"><rect/></g></g></g></svg>",
    )
    .unwrap();
    let doc = text_of(&r[0].layers[0].1);
    assert!(doc.starts_with("<svg width=\"64\" height=\"64\" viewBox=\"0 0 64 64\">"));
}

#[test]
fn namespaced_labels_and_bindings_are_handled() {
    // Labels carried as inkscape:label (matched by local name), and the root
    // namespace bindings re-emitted on every output document.
    let r = split(
        "<svg xmlns=\"http://www.w3.org/2000/svg\" \
         xmlns:inkscape=\"http://www.inkscape.org/namespaces/inkscape\" width=\"8\">\
         <g inkscape:label=\"a/b\"><g inkscape:label=\"color:main\">\
         <g inkscape:label=\"\"><rect width=\"8\"/></g></g></g></svg>",
    )
    .unwrap();
    assert_eq!(r.len(), 1);
    assert_eq!(r[0].path, b"a/b".to_vec());
    assert_eq!(r[0].option, Some((b"color".to_vec(), b"main".to_vec())));
    let doc = text_of(&r[0].layers[0].1);
    assert!(doc.contains("xmlns=\"http://www.w3.org/2000/svg\""));
    assert!(doc.contains("xmlns:inkscape=\"http://www.inkscape.org/namespaces/inkscape\""));
    assert!(doc.contains("<g inkscape:label=\"a/b\">"));
    assert!(doc.contains("<rect width=\"8\">"));
}

#[test]
fn same_color_continues_the_layer() {
    // A repeated colour label continues the previous layer rather than
    // starting a new one.
    let r = split(
        "<svg><g label=\"a/b\"><g label=\"c:m\">\
         <g label=\"T\"><rect/></g><g label=\"T\"><circle/></g>\
         </g></g></svg>",
    )
    .unwrap();
    assert_eq!(r[0].layers.len(), 1);
    let doc = text_of(&r[0].layers[0].1);
    assert!(doc.contains("<rect>"));
    assert!(doc.contains("<circle>"));
}
