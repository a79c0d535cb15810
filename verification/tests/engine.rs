use moonview::controller::{save_document, Controller, EngineError, FetchError};
use moonview::element::{Document, Element};
use moonview::render::{render, Surface, BACKGROUND, FILL};
use moonview::hittest::hit_test;
use moonview::codec::{encode, DecodeError};

fn doc_of(elements: Vec<Element>) -> Document {
    Document::from_elements(elements)
}

#[test]
fn hit_test_circle_containment() {
    let doc = doc_of(vec![Element::Circle { x: 5, y: 5, r: 3 }]);
    assert_eq!(hit_test(5, 5, &doc), Some(0));
    assert_eq!(hit_test(10, 10, &doc), None);
}

#[test]
fn hit_test_square_containment() {
    let doc = doc_of(vec![Element::Square { x: 0, y: 0, r: 4 }]);
    assert_eq!(hit_test(2, 2, &doc), Some(0));
    assert_eq!(hit_test(5, 5, &doc), None);
}

#[test]
fn hit_test_square_boundary_is_inside() {
    let doc = doc_of(vec![Element::Square { x: 0, y: 0, r: 4 }]);
    assert_eq!(hit_test(0, 0, &doc), Some(0));
    assert_eq!(hit_test(4, 4, &doc), Some(0));
}

#[test]
fn hit_test_circle_boundary_is_inside() {
    let doc = doc_of(vec![Element::Circle { x: 5, y: 5, r: 3 }]);
    assert_eq!(hit_test(8, 5, &doc), Some(0));
    assert_eq!(hit_test(9, 5, &doc), None);
}

#[test]
fn hit_test_empty_document_misses() {
    let doc = Document::new();
    assert_eq!(hit_test(0, 0, &doc), None);
}

#[test]
fn hit_test_skips_unknown_kinds() {
    let doc = doc_of(vec![Element::Unknown {
        kind: 77,
        x: 0,
        y: 0,
        r: 100,
    }]);
    assert_eq!(hit_test(1, 1, &doc), None);
}

#[test]
fn hit_test_tie_break_is_first_in_order() {
    // Both elements contain (5, 5); the first in sequence order wins, and
    // repeated queries on the same document agree.
    let doc = doc_of(vec![
        Element::Circle { x: 5, y: 5, r: 3 },
        Element::Square { x: 0, y: 0, r: 10 },
    ]);
    let first = hit_test(5, 5, &doc);
    assert_eq!(first, Some(0));
    for _ in 0..10 {
        assert_eq!(hit_test(5, 5, &doc), first);
    }
}

#[test]
fn hit_test_negative_radius_contains_nothing() {
    let doc = doc_of(vec![Element::Circle { x: 5, y: 5, r: -1 }]);
    assert_eq!(hit_test(5, 5, &doc), None);
}

#[test]
fn render_empty_document_is_uniform_background() {
    let mut surface = Surface::new(16, 12);
    let doc = Document::new();
    render(&mut surface, &doc);
    for y in 0..12 {
        for x in 0..16 {
            assert_eq!(surface.get(x, y), BACKGROUND);
        }
    }
}

#[test]
fn render_paint_order_later_element_occludes() {
    // A square painted first, a circle painted second; where they overlap
    // the pixel shows the fill that the circle painted last.
    let doc = doc_of(vec![
        Element::Square { x: 0, y: 0, r: 10 },
        Element::Circle { x: 5, y: 5, r: 8 },
    ]);
    let mut surface = Surface::new(20, 20);
    render(&mut surface, &doc);
    // Inside both: the circle's paint, unobstructed by the square.
    assert_eq!(surface.get(5, 5), FILL);
    // Inside the circle only.
    assert_eq!(surface.get(12, 5), FILL);
    // Inside the square only.
    assert_eq!(surface.get(10, 0), FILL);
    // Inside neither.
    assert_eq!(surface.get(19, 19), BACKGROUND);
    assert_eq!(surface.get(0, 14), BACKGROUND);
}

#[test]
fn render_skips_unknown_kinds() {
    let doc = doc_of(vec![Element::Unknown {
        kind: 200,
        x: 1,
        y: 1,
        r: 1,
    }]);
    let mut surface = Surface::new(8, 8);
    render(&mut surface, &doc);
    for y in 0..8 {
        for x in 0..8 {
            assert_eq!(surface.get(x, y), BACKGROUND);
        }
    }
}

#[test]
fn render_circle_pixels_match_containment() {
    let doc = doc_of(vec![Element::Circle { x: 4, y: 4, r: 2 }]);
    let mut surface = Surface::new(9, 9);
    render(&mut surface, &doc);
    for y in 0..9i32 {
        for x in 0..9i32 {
            let inside = (x - 4) * (x - 4) + (y - 4) * (y - 4) <= 4;
            let expected = if inside { FILL } else { BACKGROUND };
            assert_eq!(surface.get(x as usize, y as usize), expected);
        }
    }
}

#[test]
fn controller_starts_unbound() {
    let controller = Controller::new();
    assert!(controller.current().is_none());
    assert_eq!(controller.on_pointer_press(0, 0), None);
}

#[test]
fn controller_load_binds_decoded_document() {
    let doc = doc_of(vec![Element::Circle { x: 5, y: 5, r: 3 }]);
    let bytes = encode(&doc);
    let mut controller = Controller::new();
    assert_eq!(controller.load_document(Ok(bytes)), Ok(()));
    assert_eq!(controller.current().as_ref(), Some(&doc));
    assert_eq!(controller.on_pointer_press(5, 5), Some(0));
    assert_eq!(controller.on_pointer_press(10, 10), None);
}

#[test]
fn controller_fetch_failure_propagates_and_keeps_binding() {
    let doc = doc_of(vec![Element::Square { x: 0, y: 0, r: 4 }]);
    let bytes = encode(&doc);
    let mut controller = Controller::new();
    controller.load_document(Ok(bytes)).unwrap();

    let err = controller.load_document(Err(FetchError::IOError));
    assert_eq!(err, Err(EngineError::Fetch(FetchError::IOError)));
    // The previously bound document is still active and unchanged.
    assert_eq!(controller.current().as_ref(), Some(&doc));

    let err = controller.load_document(Err(FetchError::NotFound));
    assert_eq!(err, Err(EngineError::Fetch(FetchError::NotFound)));
    assert_eq!(controller.current().as_ref(), Some(&doc));
}

#[test]
fn controller_decode_failure_propagates_and_keeps_binding() {
    let doc = doc_of(vec![Element::Square { x: 0, y: 0, r: 4 }]);
    let bytes = encode(&doc);
    let mut controller = Controller::new();
    controller.load_document(Ok(bytes)).unwrap();

    let err = controller.load_document(Ok(vec![1u8, 2, 3]));
    assert_eq!(
        err,
        Err(EngineError::Decode(DecodeError::IncompleteRecord))
    );
    assert_eq!(controller.current().as_ref(), Some(&doc));
}

#[test]
fn controller_repaint_renders_bound_document() {
    let doc = doc_of(vec![Element::Square { x: 0, y: 0, r: 3 }]);
    let mut controller = Controller::new();
    controller.bind(doc);
    let mut surface = Surface::new(8, 8);
    controller.on_repaint(&mut surface);
    assert_eq!(surface.get(1, 1), FILL);
    assert_eq!(surface.get(7, 7), BACKGROUND);
}

#[test]
fn controller_repaint_without_document_clears() {
    let controller = Controller::new();
    let mut surface = Surface::new(4, 4);
    controller.on_repaint(&mut surface);
    for y in 0..4 {
        for x in 0..4 {
            assert_eq!(surface.get(x, y), BACKGROUND);
        }
    }
}

#[test]
fn save_then_load_round_trips_through_the_controller() {
    let doc = doc_of(vec![
        Element::Circle { x: 5, y: 5, r: 3 },
        Element::Unknown {
            kind: 42,
            x: 0,
            y: 0,
            r: 0,
        },
    ]);
    let blob = save_document(&doc);
    let mut controller = Controller::new();
    assert_eq!(controller.load_document(Ok(blob)), Ok(()));
    assert_eq!(controller.current().as_ref(), Some(&doc));
}

#[test]
fn surface_reports_dimensions() {
    let surface = Surface::new(7, 3);
    assert_eq!(surface.get_width(), 7);
    assert_eq!(surface.get_height(), 3);
}
