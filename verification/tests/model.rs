use fontdoc::document::{Document, Glyph, Layer, PointType};
use fontdoc::error::{ErrorKind, FontError, ParseGlifError, ProxyError};
use fontdoc::identifier::{to_identifier, Identifier};
use fontdoc::index::normalize_index;
use fontdoc::ufo::{LayerInfo, Ufo};

#[test]
fn new_document_has_the_default_layer() {
    let doc = Document::new();
    assert_eq!(doc.layer_count(), 1);
    assert!(doc.contains("public.default"));
    assert!(!doc.contains("background"));
    assert!(doc.default_layer().is_some());
    assert_eq!(doc.layer_order(), vec!["public.default".to_string()]);
    assert_eq!(doc.layer_names(), vec!["public.default".to_string()]);
}

#[test]
fn new_layer_rejects_taken_names() {
    let mut doc = Document::new();
    doc.new_layer("background").unwrap();
    assert_eq!(doc.layer_count(), 2);
    match doc.new_layer("background") {
        Err(ProxyError::DuplicateName { name }) => assert_eq!(name, "background"),
        other => panic!("expected a duplicate-name error, got {:?}", other),
    }
    assert!(doc.get_layer("background").is_some());
    assert!(doc.get_layer("missing").is_none());
}

#[test]
fn document_equality_ignores_tokens() {
    let mut a = Document::new();
    let mut b = Document::new();
    // allocate extra tokens in b so the token values diverge
    b.new_layer("scratch").unwrap();
    b.rename_layer("scratch", "kept", false).unwrap();
    let mut la = a.default_layer().unwrap();
    la.add_glyph(&mut a, "A").unwrap();
    let mut lb = b.default_layer().unwrap();
    lb.add_glyph(&mut b, "A").unwrap();
    assert!(!a.py_eq(&b));
    a.new_layer("kept").unwrap();
    // same names, same glyphs, same order: structurally equal
    assert!(a.py_eq(&b));
    assert!(a.layer_eq(&b));
}

#[test]
fn normalize_index_exact_values() {
    assert_eq!(normalize_index(0, 4).unwrap(), 0);
    assert_eq!(normalize_index(3, 4).unwrap(), 3);
    assert_eq!(normalize_index(-1, 4).unwrap(), 3);
    assert_eq!(normalize_index(-4, 4).unwrap(), 0);
    assert_eq!(
        normalize_index(4, 4),
        Err(ProxyError::IndexOutOfRange { index: 4, len: 4 })
    );
    assert_eq!(
        normalize_index(-5, 4),
        Err(ProxyError::IndexOutOfRange { index: -5, len: 4 })
    );
    assert_eq!(
        normalize_index(0, 0),
        Err(ProxyError::IndexOutOfRange { index: 0, len: 0 })
    );
    assert_eq!(
        normalize_index(-1, 0),
        Err(ProxyError::IndexOutOfRange { index: -1, len: 0 })
    );
    assert_eq!(normalize_index(i64::MIN, 4), Err(ProxyError::IndexOutOfRange {
        index: i64::MIN,
        len: 4,
    }));
}

#[test]
fn identifiers_accept_printable_ascii_only() {
    assert_eq!(Identifier::new("a1 .z").unwrap().as_str(), "a1 .z");
    assert_eq!(Identifier::new("").unwrap().as_str(), "");
    assert_eq!(Identifier::new("tab\tchar"), Err(ProxyError::BadIdentifier));
    let long = "x".repeat(101);
    assert_eq!(Identifier::new(&long), Err(ProxyError::BadIdentifier));
    let exactly = "y".repeat(100);
    assert!(Identifier::new(&exactly).is_ok());
    assert!(to_identifier(None).unwrap().is_none());
    assert_eq!(to_identifier(Some("ok")).unwrap().unwrap().as_str(), "ok");
    assert_eq!(to_identifier(Some("bad\u{7f}")), Err(ProxyError::BadIdentifier));
}

#[test]
fn parse_errors_carry_kind_and_position() {
    let e = ParseGlifError::new(ErrorKind::BadHexValue, 17);
    assert_eq!(e.kind, ErrorKind::BadHexValue);
    assert_eq!(e.position, 17);
    let e2 = ErrorKind::UnexpectedEof.to_error(99);
    assert_eq!(e2, ParseGlifError { kind: ErrorKind::UnexpectedEof, position: 99 });
    match FontError::from(e2) {
        FontError::ParseGlif(inner) => assert_eq!(inner.position, 99),
        other => panic!("expected a glif parse error, got {:?}", other),
    }
}

#[test]
fn outside_errors_map_to_their_variants() {
    let io = std::io::Error::new(std::io::ErrorKind::NotFound, "gone");
    match FontError::from(io) {
        FontError::IoError(_) => {},
        other => panic!("expected an io error, got {:?}", other),
    }
    let bad_plist = plist::from_bytes::<String>(b"not a plist at all");
    let pe = bad_plist.expect_err("garbage bytes must not parse");
    match FontError::from(pe) {
        FontError::PlistError(_) => {},
        other => panic!("expected a plist error, got {:?}", other),
    }
}

#[test]
fn ufo_find_layer_by_path() {
    let background = LayerInfo {
        name: "background".to_string(),
        path: "glyphs.background".to_string(),
        layer: Layer { name: "background".to_string(), glyphs: Vec::new(), token: 1 },
    };
    let foreground = LayerInfo {
        name: "foreground".to_string(),
        path: "glyphs".to_string(),
        layer: Layer {
            name: "foreground".to_string(),
            glyphs: vec![Glyph::new_named("A")],
            token: 0,
        },
    };
    let font_obj = Ufo::from_layers(vec![foreground, background]);
    assert_eq!(font_obj.iter().len(), 2);
    let found = font_obj
        .find_layer(|l: &LayerInfo| l.path == "glyphs.background")
        .expect("missing layer");
    assert_eq!(found.name, "background");
    assert!(font_obj.find_layer(|l: &LayerInfo| l.path == "nowhere").is_none());
}

#[test]
fn deep_copy_preserves_tokens_and_values() {
    let mut doc = Document::new();
    let mut layer = doc.default_layer().unwrap();
    let glyph = layer.add_glyph(&mut doc, "B").unwrap();
    let mut contours = glyph.contours();
    let contour = contours.add_contour(&mut doc).unwrap();
    contour
        .points()
        .append_point(&mut doc, 5, 6, PointType::Curve, true, Some("apex".to_string()), None)
        .unwrap();
    let copy = doc.deep_copy();
    assert!(doc.py_eq(&copy));
    assert_eq!(copy.layers[0].token, doc.layers[0].token);
    assert_eq!(copy.layers[0].glyphs[0].token, doc.layers[0].glyphs[0].token);
    assert_eq!(copy.next_token, doc.next_token);
}

#[test]
fn glyph_names_follow_renames() {
    let mut doc = Document::new();
    let mut layer = doc.default_layer().unwrap();
    layer.add_glyph(&mut doc, "one").unwrap();
    layer.add_glyph(&mut doc, "two").unwrap();
    assert_eq!(layer.glyph_names(&doc).unwrap(), vec!["one".to_string(), "two".to_string()]);
    let mut g = layer.get_glyph(&doc, "one").unwrap().expect("glyph one exists");
    layer.rename_glyph(&mut doc, "one", "uno", false).unwrap();
    // the handle survives the rename: the token, not the name, is identity
    assert_eq!(g.name(&doc).unwrap(), "uno");
    assert!(layer.get_glyph(&doc, "one").unwrap().is_none());
    layer.remove_glyph(&mut doc, "uno").unwrap();
    match layer.remove_glyph(&mut doc, "uno") {
        Err(ProxyError::MissingGlyph { glyph, .. }) => assert_eq!(glyph, "uno"),
        other => panic!("expected a missing-glyph error, got {:?}", other),
    }
    assert_eq!(layer.glyph_names(&doc).unwrap(), vec!["two".to_string()]);
}

#[test]
fn layers_iterate_in_order() {
    let mut doc = Document::new();
    doc.new_layer("background").unwrap();
    let mut it = doc.iter_layers();
    let mut names = Vec::new();
    while let Some(h) = it.next(&doc) {
        names.push(h.name.clone());
    }
    assert_eq!(names, vec!["public.default".to_string(), "background".to_string()]);
    // a fresh iterator starts over
    let mut again = doc.iter_layers();
    assert_eq!(again.next(&doc).unwrap().name, "public.default");
}

#[test]
fn find_layer_returns_the_first_match() {
    let first = LayerInfo {
        name: "first".to_string(),
        path: "glyphs".to_string(),
        layer: Layer { name: "first".to_string(), glyphs: Vec::new(), token: 0 },
    };
    let second = LayerInfo {
        name: "second".to_string(),
        path: "glyphs.more".to_string(),
        layer: Layer { name: "second".to_string(), glyphs: Vec::new(), token: 1 },
    };
    let font_obj = Ufo::from_layers(vec![first, second]);
    // both layers match; the earlier one wins
    let found = font_obj
        .find_layer(|l: &LayerInfo| l.path.starts_with("glyphs"))
        .expect("missing layer");
    assert_eq!(found.name, "first");
}
