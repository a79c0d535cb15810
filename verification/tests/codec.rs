use moonview::codec::{decode, encode, DecodeError};
use moonview::element::{Document, Element};

fn doc_of(elements: Vec<Element>) -> Document {
    Document::from_elements(elements)
}

#[test]
fn encode_circle_exact_bytes() {
    let doc = doc_of(vec![Element::Circle { x: 1, y: 2, r: 3 }]);
    let bytes = encode(&doc);
    assert_eq!(
        bytes,
        vec![0u8, 1, 0, 0, 128, 2, 0, 0, 128, 3, 0, 0, 128]
    );
}

#[test]
fn encode_square_exact_bytes() {
    let doc = doc_of(vec![Element::Square { x: 0, y: 0, r: 4 }]);
    let bytes = encode(&doc);
    assert_eq!(
        bytes,
        vec![1u8, 0, 0, 0, 128, 0, 0, 0, 128, 4, 0, 0, 128]
    );
}

#[test]
fn encode_negative_coordinate_exact_bytes() {
    let doc = doc_of(vec![Element::Circle { x: -1, y: 0, r: 0 }]);
    let bytes = encode(&doc);
    assert_eq!(
        bytes,
        vec![0u8, 255, 255, 255, 127, 0, 0, 0, 128, 0, 0, 0, 128]
    );
}

#[test]
fn round_trip_mixed_document() {
    let doc = doc_of(vec![
        Element::Circle { x: 1, y: 2, r: 3 },
        Element::Square { x: -4, y: 5, r: 600 },
        Element::Unknown { kind: 9, x: 7, y: -8, r: 9 },
    ]);
    let bytes = encode(&doc);
    let back = decode(&bytes).unwrap();
    assert_eq!(back, doc);
}

#[test]
fn round_trip_empty_document() {
    let doc = Document::new();
    let bytes = encode(&doc);
    assert_eq!(bytes.len(), 0);
    let back = decode(&bytes).unwrap();
    assert_eq!(back, doc);
}

#[test]
fn round_trip_extreme_coordinates() {
    let doc = doc_of(vec![Element::Square {
        x: i32::MIN,
        y: i32::MAX,
        r: 0,
    }]);
    let bytes = encode(&doc);
    let back = decode(&bytes).unwrap();
    assert_eq!(back, doc);
}

#[test]
fn tolerant_decode_keeps_unknown_kind() {
    let mut bytes = Vec::new();
    // A well-formed circle, a well-formed square, and a record with an
    // unrecognized tag, all decoded as a 3-element document.
    bytes.extend_from_slice(&[0u8, 5, 0, 0, 128, 5, 0, 0, 128, 3, 0, 0, 128]);
    bytes.extend_from_slice(&[1u8, 0, 0, 0, 128, 0, 0, 0, 128, 4, 0, 0, 128]);
    bytes.extend_from_slice(&[200u8, 1, 0, 0, 128, 1, 0, 0, 128, 1, 0, 0, 128]);
    let doc = decode(&bytes).unwrap();
    assert_eq!(doc.len(), 3);
    assert_eq!(doc.get(0), Element::Circle { x: 5, y: 5, r: 3 });
    assert_eq!(doc.get(1), Element::Square { x: 0, y: 0, r: 4 });
    assert_eq!(
        doc.get(2),
        Element::Unknown {
            kind: 200,
            x: 1,
            y: 1,
            r: 1
        }
    );
}

#[test]
fn decode_rejects_incomplete_record() {
    let bytes = vec![0u8, 1, 0, 0, 128, 2];
    assert_eq!(decode(&bytes), Err(DecodeError::IncompleteRecord));
}

#[test]
fn decode_rejects_single_stray_byte() {
    let bytes = vec![7u8];
    assert_eq!(decode(&bytes), Err(DecodeError::IncompleteRecord));
}
