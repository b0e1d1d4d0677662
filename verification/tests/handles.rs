use fontdoc::document::{Document, PointType};
use fontdoc::error::ProxyError;

/// One layer "public.default", one glyph "A", one contour of four points.
fn small_font() -> (Document, fontdoc::proxy::ContourProxy) {
    let mut doc = Document::new();
    let mut layer = doc.default_layer().unwrap();
    let glyph = layer.add_glyph(&mut doc, "A").unwrap();
    let mut contours = glyph.contours();
    let contour = contours.add_contour(&mut doc).unwrap();
    let mut points = contour.points();
    points.append_point(&mut doc, 0, 0, PointType::Move, false, None, None).unwrap();
    points.append_point(&mut doc, 10, 0, PointType::Line, false, None, None).unwrap();
    points.append_point(&mut doc, 10, 10, PointType::Line, false, None, None).unwrap();
    points.append_point(&mut doc, 0, 10, PointType::Line, true, None, None).unwrap();
    (doc, contour)
}

#[test]
fn resolve_read_is_stable() {
    let (doc, contour) = small_font();
    let mut points = contour.points();
    let mut p = points.get_item(&doc, 2).unwrap();
    let idx_before = p.idx;
    let x1 = p.get_x(&doc).unwrap();
    let y1 = p.get_y(&doc).unwrap();
    // a no-op read returns the same content and leaves the cache alone
    let x2 = p.get_x(&doc).unwrap();
    let y2 = p.get_y(&doc).unwrap();
    assert_eq!((x1, y1), (10, 10));
    assert_eq!((x2, y2), (10, 10));
    assert_eq!(p.idx, idx_before);
}

#[test]
fn stale_cache_heals_after_removal() {
    let (mut doc, contour) = small_font();
    let mut points = contour.points();
    // handle to the point at index 2 (coordinates (10, 10))
    let mut p = points.get_item(&doc, 2).unwrap();
    assert_eq!(p.idx, 2);
    // removing index 0 through a different handle shifts every position
    let mut other = contour.points();
    other.del_item(&mut doc, 0).unwrap();
    // the stale handle still finds its point, and repairs its cache
    assert_eq!(p.get_x(&doc).unwrap(), 10);
    assert_eq!(p.get_y(&doc).unwrap(), 10);
    assert_eq!(p.idx, 1);
}

#[test]
fn removing_target_fails_forever() {
    let (mut doc, contour) = small_font();
    let mut points = contour.points();
    let mut p = points.get_item(&doc, 0).unwrap();
    let mut fresh = contour.points();
    fresh.del_item(&mut doc, 0).unwrap();
    // every subsequent resolution fails with target-not-found, repeatedly
    for _ in 0..3 {
        match p.get_x(&doc) {
            Err(ProxyError::MissingPoint { .. }) => {},
            other => panic!("expected a missing-point error, got {:?}", other),
        }
    }
}

#[test]
fn negative_indexing_resolves_from_end() {
    let (doc, contour) = small_font();
    let mut points = contour.points();
    let mut last_by_neg = points.get_item(&doc, -1).unwrap();
    let mut last_by_pos = points.get_item(&doc, 3).unwrap();
    assert_eq!(last_by_neg.idx, 3);
    assert_eq!(last_by_neg.get_x(&doc).unwrap(), last_by_pos.get_x(&doc).unwrap());
    assert_eq!(last_by_neg.get_y(&doc).unwrap(), last_by_pos.get_y(&doc).unwrap());
    // index -(n + 1) is out of range, not wrapped and not clamped
    match points.get_item(&doc, -5) {
        Err(ProxyError::IndexOutOfRange { index: -5, len: 4 }) => {},
        other => panic!("expected an index error, got {:?}", other),
    }
}

#[test]
fn rename_glyph_overwrite_rules() {
    let mut doc = Document::new();
    let mut layer = doc.default_layer().unwrap();
    layer.add_glyph(&mut doc, "A").unwrap();
    layer.add_glyph(&mut doc, "B").unwrap();
    // renaming A to A succeeds trivially, with overwrite off
    layer.rename_glyph(&mut doc, "A", "A", false).unwrap();
    // renaming A onto the existing B fails without overwrite
    match layer.rename_glyph(&mut doc, "A", "B", false) {
        Err(ProxyError::DuplicateName { name }) => assert_eq!(name, "B"),
        other => panic!("expected a duplicate-name error, got {:?}", other),
    }
    // with overwrite, B is replaced by the renamed A
    layer.rename_glyph(&mut doc, "A", "B", true).unwrap();
    let names = layer.glyph_names(&doc).unwrap();
    assert_eq!(names, vec!["B".to_string()]);
    // a missing source name is a target-not-found error
    match layer.rename_glyph(&mut doc, "A", "C", false) {
        Err(ProxyError::MissingGlyph { .. }) => {},
        other => panic!("expected a missing-glyph error, got {:?}", other),
    }
}

#[test]
fn rename_layer_overwrite_rules() {
    let mut doc = Document::new();
    doc.new_layer("background").unwrap();
    // renaming a layer to its own name succeeds with overwrite off
    doc.rename_layer("background", "background", false).unwrap();
    match doc.rename_layer("background", "public.default", false) {
        Err(ProxyError::DuplicateName { name }) => assert_eq!(name, "public.default"),
        other => panic!("expected a duplicate-name error, got {:?}", other),
    }
    doc.rename_layer("background", "public.default", true).unwrap();
    assert_eq!(doc.layer_count(), 1);
    assert_eq!(doc.layer_order(), vec!["public.default".to_string()]);
}

#[test]
fn deep_copy_shares_no_storage() {
    let (mut doc, contour) = small_font();
    let mut copy = doc.deep_copy();
    assert!(doc.py_eq(&copy));
    // handles carry over to the copy, because tokens are preserved
    let mut points_in_copy = contour.points();
    let mut p_copy = points_in_copy.get_item(&copy, 0).unwrap();
    p_copy.set_x(&mut copy, 777).unwrap();
    // the source document's resolved contents are untouched
    let mut points = contour.points();
    let mut p = points.get_item(&doc, 0).unwrap();
    assert_eq!(p.get_x(&doc).unwrap(), 0);
    assert_eq!(p_copy.get_x(&copy).unwrap(), 777);
    assert!(!doc.py_eq(&copy));
}

#[test]
fn delete_through_fresh_handle_end_to_end() {
    // a document with one layer "public.default", a glyph "A", one contour
    // of 4 points; delete point 0 through a fresh handle to the contour
    let (mut doc, contour) = small_font();
    let mut points = contour.points();
    let mut first = points.get_item(&doc, 0).unwrap();
    let mut second = points.get_item(&doc, 1).unwrap();
    let (old_x, old_y) = (second.get_x(&doc).unwrap(), second.get_y(&doc).unwrap());
    let mut fresh = contour.points();
    fresh.del_item(&mut doc, 0).unwrap();
    // the handle to the deleted point fails with target-not-found
    match first.get_x(&doc) {
        Err(ProxyError::MissingPoint { .. }) => {},
        other => panic!("expected a missing-point error, got {:?}", other),
    }
    // the point now at index 0 (previously index 1) keeps its coordinates
    let mut now_first = points.get_item(&doc, 0).unwrap();
    assert_eq!(now_first.get_x(&doc).unwrap(), old_x);
    assert_eq!(now_first.get_y(&doc).unwrap(), old_y);
    assert_eq!((old_x, old_y), (10, 0));
}

#[test]
fn iteration_observes_the_live_collection() {
    let (mut doc, contour) = small_font();
    let points = contour.points();
    let mut iter = points.iter_points();
    let mut seen = Vec::new();
    while let Some(mut p) = iter.next(&doc) {
        seen.push((p.get_x(&doc).unwrap(), p.get_y(&doc).unwrap()));
    }
    assert_eq!(seen, vec![(0, 0), (10, 0), (10, 10), (0, 10)]);
    // iteration is restartable, and observes the live, mutated collection
    let mut again = points.iter_points();
    let _ = again.next(&doc);
    let mut fresh = contour.points();
    fresh.del_item(&mut doc, 1).unwrap();
    let mut rest = Vec::new();
    while let Some(mut p) = again.next(&doc) {
        rest.push((p.get_x(&doc).unwrap(), p.get_y(&doc).unwrap()));
    }
    assert_eq!(rest, vec![(10, 10), (0, 10)]);
}

#[test]
fn counts_treat_missing_targets_as_empty() {
    let mut doc = Document::new();
    doc.new_layer("scratch").unwrap();
    let mut layer = doc.get_layer("scratch").unwrap();
    let glyph = layer.add_glyph(&mut doc, "A").unwrap();
    let mut contours = glyph.contours();
    assert_eq!(contours.len(&doc), 0);
    contours.add_contour(&mut doc).unwrap();
    assert_eq!(contours.len(&doc), 1);
    // removing the whole layer (rename with overwrite) strands the handles
    doc.rename_layer("public.default", "scratch", true).unwrap();
    assert_eq!(contours.len(&doc), 0);
    assert_eq!(layer.glyph_count(&doc), 0);
    match glyph.contours().get_item(&doc, 0) {
        Err(ProxyError::MissingLayer { .. }) => {},
        other => panic!("expected a missing-layer error, got {:?}", other),
    }
}

#[test]
fn point_and_glyph_equality_by_value() {
    let (doc_a, contour_a) = small_font();
    let (doc_b, contour_b) = small_font();
    let mut pa = contour_a.points().get_item(&doc_a, 1).unwrap();
    let mut pb = contour_b.points().get_item(&doc_b, 1).unwrap();
    // same values in two distinct documents: equal, though the tokens differ
    assert!(pa.py_eq(&doc_a, &mut pb, &doc_b).unwrap());
    let mut p0 = contour_a.points().get_item(&doc_a, 0).unwrap();
    assert!(!p0.py_eq(&doc_a, &mut pb, &doc_b).unwrap());
    let mut ga = contour_a.glyph.clone();
    let mut gb = contour_b.glyph.clone();
    assert!(ga.py_eq(&doc_a, &mut gb, &doc_b).unwrap());
    assert_eq!(ga.name(&doc_a).unwrap(), "A");
    assert_eq!(ga.layer_name(), "public.default");
}

#[test]
fn set_coordinates_through_handle() {
    let (mut doc, contour) = small_font();
    let mut p = contour.points().get_item(&doc, 2).unwrap();
    p.set_x(&mut doc, -7).unwrap();
    p.set_y(&mut doc, 40).unwrap();
    assert_eq!(p.get_x(&doc).unwrap(), -7);
    assert_eq!(p.get_y(&doc).unwrap(), 40);
    // the neighbours are untouched
    let mut q = contour.points().get_item(&doc, 1).unwrap();
    assert_eq!((q.get_x(&doc).unwrap(), q.get_y(&doc).unwrap()), (10, 0));
}

#[test]
fn contours_view_indexing_and_removal() {
    let (mut doc, contour) = small_font();
    let mut contours = contour.glyph.clone().contours();
    contours.add_contour(&mut doc).unwrap();
    assert_eq!(contours.len(&doc), 2);
    let second = contours.get_item(&doc, -1).unwrap();
    assert_eq!(second.idx, 1);
    match contours.get_item(&doc, 2) {
        Err(ProxyError::IndexOutOfRange { index: 2, len: 2 }) => {},
        other => panic!("expected an index error, got {:?}", other),
    }
    contours.del_item(&mut doc, 0).unwrap();
    assert_eq!(contours.len(&doc), 1);
    // the first contour's handle is stale for good; the second one heals
    let mut gone = contour.points();
    match gone.get_item(&doc, 0) {
        Err(ProxyError::MissingContour { .. }) => {},
        other => panic!("expected a missing-contour error, got {:?}", other),
    }
}

#[test]
fn store_arbitrates_access() {
    let (doc, contour) = small_font();
    let store = fontdoc::store::DocumentStore::new(doc);
    // two readers may hold the lock together
    let guard_a = store.acquire_read();
    let guard_b = store.acquire_read();
    assert_eq!(guard_a.borrow().layer_count(), 1);
    assert_eq!(guard_b.borrow().layer_count(), 1);
    guard_a.release_read();
    guard_b.release_read();
    // a writer takes the document out, mutates it, and puts it back
    let (mut owned, writer) = store.acquire_write();
    owned.new_layer("background").unwrap();
    writer.release_write(owned);
    // the mutation is visible to the next reader, and handles still resolve
    let guard_c = store.acquire_read();
    assert_eq!(guard_c.borrow().layer_count(), 2);
    let mut p = contour.points().get_item(guard_c.borrow(), 0).unwrap();
    assert_eq!(p.get_x(guard_c.borrow()).unwrap(), 0);
    guard_c.release_read();
}

#[test]
fn iterator_cursor_advances_past_the_end() {
    let (mut doc, contour) = small_font();
    let mut it = contour.points().iter_points();
    while it.next(&doc).is_some() {}
    // four yields and one exhausted step later, the cursor stands at five
    assert_eq!(it.ix, 5);
    assert!(it.next(&doc).is_none());
    assert_eq!(it.ix, 6);
    // a point appended after exhaustion lies behind the cursor and stays unseen
    contour.points().append_point(&mut doc, 7, 7, PointType::Line, false, None, None).unwrap();
    assert!(it.next(&doc).is_none());
    assert_eq!(it.ix, 7);
}
