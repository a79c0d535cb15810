//! The document byte format: encoding and decoding.
//!
//! A document is stored as a plain concatenation of fixed-size element
//! records. Each record is 13 bytes: one tag byte (0 = circle, 1 = square,
//! anything else = an unrecognized kind carried through verbatim) followed
//! by the three coordinates `x`, `y`, `r`, each offset by `2^31` and written
//! as 4 little-endian bytes. Decoding fails only when the blob does not
//! divide into whole records; an unrecognized tag decodes into
//! `Element::Unknown` so that newer documents still load.

use vstd::prelude::*;
use vstd::arithmetic::div_mod::{
    lemma_fundamental_div_mod, lemma_div_denominator, lemma_multiply_divide_lt, lemma_small_mod,
    lemma_div_pos_is_pos, lemma_div_multiples_vanish, lemma_mod_multiples_basic,
};
use crate::element::{Element, Document, elem_wf};

verus! {

/// The tag byte of a circle record.
pub const TAG_CIRCLE: u8 = 0;

/// The tag byte of a square record.
pub const TAG_SQUARE: u8 = 1;

/// The size in bytes of one element record.
pub const RECORD_LEN: usize = 13;

/// Why a byte blob failed to decode.
#[derive(Clone, Copy, Debug, PartialEq, Eq, Structural)]
pub enum DecodeError {
    /// The blob does not divide into whole 13-byte records.
    IncompleteRecord,
}

/// A coordinate shifted into the unsigned 32-bit range.
pub open spec fn coord_val(x: i32) -> int {
    x + 0x8000_0000
}

/// The 4 little-endian bytes of a value in `[0, 2^32)`.
pub open spec fn enc_u32le(v: int) -> Seq<u8> {
    seq![
        (v % 256) as u8,
        ((v / 256) % 256) as u8,
        ((v / 65536) % 256) as u8,
        ((v / 16777216) % 256) as u8,
    ]
}

/// The value of 4 little-endian bytes.
pub open spec fn dec_u32le(b: Seq<u8>) -> int
    recommends
        b.len() == 4,
{
    b[0] as int + 256 * (b[1] as int) + 65536 * (b[2] as int) + 16777216 * (b[3] as int)
}

/// The 4 bytes of one encoded coordinate.
pub open spec fn enc_coord(x: i32) -> Seq<u8> {
    enc_u32le(coord_val(x))
}

/// The coordinate held by 4 encoded bytes.
pub open spec fn dec_coord(b: Seq<u8>) -> int
    recommends
        b.len() == 4,
{
    dec_u32le(b) - 0x8000_0000
}

/// The tag byte an element is written with.
pub open spec fn elem_tag(e: Element) -> u8 {
    match e {
        Element::Circle { .. } => TAG_CIRCLE,
        Element::Square { .. } => TAG_SQUARE,
        Element::Unknown { kind, .. } => kind,
    }
}

/// The `x` field of an element.
pub open spec fn elem_x(e: Element) -> i32 {
    match e {
        Element::Circle { x, .. } => x,
        Element::Square { x, .. } => x,
        Element::Unknown { x, .. } => x,
    }
}

/// The `y` field of an element.
pub open spec fn elem_y(e: Element) -> i32 {
    match e {
        Element::Circle { y, .. } => y,
        Element::Square { y, .. } => y,
        Element::Unknown { y, .. } => y,
    }
}

/// The `r` field of an element.
pub open spec fn elem_r(e: Element) -> i32 {
    match e {
        Element::Circle { r, .. } => r,
        Element::Square { r, .. } => r,
        Element::Unknown { r, .. } => r,
    }
}

/// The 13-byte record of one element.
pub open spec fn enc_elem(e: Element) -> Seq<u8> {
    seq![elem_tag(e)] + enc_coord(elem_x(e)) + enc_coord(elem_y(e)) + enc_coord(elem_r(e))
}

/// The element held by one 13-byte record.
pub open spec fn dec_elem(b: Seq<u8>) -> Element
    recommends
        b.len() == RECORD_LEN,
{
    let x = dec_coord(b.subrange(1, 5)) as i32;
    let y = dec_coord(b.subrange(5, 9)) as i32;
    let r = dec_coord(b.subrange(9, 13)) as i32;
    if b[0] == TAG_CIRCLE {
        Element::Circle { x, y, r }
    } else if b[0] == TAG_SQUARE {
        Element::Square { x, y, r }
    } else {
        Element::Unknown { kind: b[0], x, y, r }
    }
}

/// The byte blob of a whole element sequence: its records, concatenated in
/// order.
pub open spec fn enc_doc(s: Seq<Element>) -> Seq<u8>
    decreases s.len(),
{
    if s.len() == 0 {
        Seq::empty()
    } else {
        enc_elem(s[0]) + enc_doc(s.skip(1))
    }
}

/// The element sequence held by a byte blob that divides into whole
/// records.
pub open spec fn dec_doc(b: Seq<u8>) -> Seq<Element>
    recommends
        b.len() % (RECORD_LEN as nat) == 0,
{
    Seq::new(b.len() / (RECORD_LEN as nat), |i: int| dec_elem(b.subrange(13 * i, 13 * i + 13)))
}

proof fn lemma_u32le_round_trip(v: int)
    requires
        0 <= v < 0x1_0000_0000,
    ensures
        dec_u32le(enc_u32le(v)) == v,
{
    lemma_fundamental_div_mod(v, 256);
    lemma_fundamental_div_mod(v / 256, 256);
    lemma_div_denominator(v, 256, 256);
    lemma_fundamental_div_mod(v / 65536, 256);
    lemma_div_denominator(v, 65536, 256);
    lemma_div_pos_is_pos(v, 16777216);
    lemma_multiply_divide_lt(v, 16777216, 256);
    lemma_small_mod((v / 16777216) as nat, 256);
}

proof fn lemma_coord_round_trip(x: i32)
    ensures
        dec_coord(enc_coord(x)) == x as int,
{
    lemma_u32le_round_trip(coord_val(x));
}

proof fn lemma_elem_round_trip(e: Element)
    requires
        elem_wf(e),
    ensures
        enc_elem(e).len() == 13,
        dec_elem(enc_elem(e)) == e,
{
    let b = enc_elem(e);
    assert(b.subrange(1, 5) =~= enc_coord(elem_x(e)));
    assert(b.subrange(5, 9) =~= enc_coord(elem_y(e)));
    assert(b.subrange(9, 13) =~= enc_coord(elem_r(e)));
    lemma_coord_round_trip(elem_x(e));
    lemma_coord_round_trip(elem_y(e));
    lemma_coord_round_trip(elem_r(e));
}

/// Round trip: a well-formed element sequence is recovered exactly from its
/// own encoding, so `decode(encode(d))` returns `d` for every well-formed
/// document `d`.
pub proof fn lemma_round_trip(s: Seq<Element>)
    requires
        forall|i: int| 0 <= i < s.len() ==> elem_wf(#[trigger] s[i]),
    ensures
        enc_doc(s).len() == 13 * s.len(),
        enc_doc(s).len() % (RECORD_LEN as nat) == 0,
        dec_doc(enc_doc(s)) == s,
    decreases s.len(),
{
    lemma_mod_multiples_basic(s.len() as int, 13);
    assert(13 * s.len() == s.len() * 13);
    if s.len() == 0 {
        assert(dec_doc(enc_doc(s)) =~= s);
    } else {
        let t = s.skip(1);
        assert(forall|i: int| 0 <= i < t.len() ==> elem_wf(#[trigger] t[i])) by {
            assert(forall|i: int| 0 <= i < t.len() ==> #[trigger] t[i] == s[i + 1]);
        }
        lemma_round_trip(t);
        lemma_elem_round_trip(s[0]);
        let b = enc_doc(s);
        assert(b == enc_elem(s[0]) + enc_doc(t));
        assert(b.len() == 13 * s.len());
        lemma_div_multiples_vanish(s.len() as int, 13);
        lemma_div_multiples_vanish(t.len() as int, 13);
        assert(dec_doc(b).len() == s.len());
        assert forall|i: int| 0 <= i < s.len() implies dec_doc(b)[i] == s[i] by {
            if i == 0 {
                assert(b.subrange(0, 13) =~= enc_elem(s[0]));
            } else {
                assert(b.subrange(13 * i, 13 * i + 13) =~= enc_doc(t).subrange(
                    13 * (i - 1),
                    13 * (i - 1) + 13,
                ));
                assert(dec_doc(enc_doc(t))[i - 1] == t[i - 1]);
                assert(t[i - 1] == s[i]);
            }
        }
        assert(dec_doc(b) =~= s);
    }
}

fn push_coord(out: &mut Vec<u8>, x: i32)
    ensures
        final(out)@ == old(out)@ + enc_coord(x),
{
    let v: u32 = ((x as i64) + 0x8000_0000i64) as u32;
    proof {
        lemma_div_pos_is_pos(v as int, 16777216);
        lemma_multiply_divide_lt(v as int, 16777216, 256);
        lemma_small_mod((v as int / 16777216) as nat, 256);
    }
    out.push((v % 256) as u8);
    out.push(((v / 256) % 256) as u8);
    out.push(((v / 65536) % 256) as u8);
    out.push((v / 16777216) as u8);
    proof {
        assert(final(out)@ =~= old(out)@ + enc_coord(x));
    }
}

fn push_elem(out: &mut Vec<u8>, e: &Element)
    ensures
        final(out)@ == old(out)@ + enc_elem(*e),
{
    match *e {
        Element::Circle { x, y, r } => {
            out.push(TAG_CIRCLE);
            push_coord(out, x);
            push_coord(out, y);
            push_coord(out, r);
        }
        Element::Square { x, y, r } => {
            out.push(TAG_SQUARE);
            push_coord(out, x);
            push_coord(out, y);
            push_coord(out, r);
        }
        Element::Unknown { kind, x, y, r } => {
            out.push(kind);
            push_coord(out, x);
            push_coord(out, y);
            push_coord(out, r);
        }
    }
    proof {
        assert(final(out)@ =~= old(out)@ + enc_elem(*e));
    }
}

/// Serializes a document into its byte blob.
pub fn encode(doc: &Document) -> (r: Vec<u8>)
    ensures
        r@ == enc_doc(doc@),
{
    let mut out: Vec<u8> = Vec::new();
    let n = doc.len();
    let mut k: usize = 0;
    while k < n
        invariant
            n == doc@.len(),
            k <= n,
            out@ == enc_doc(doc@.take(k as int)),
        decreases n - k,
    {
        let e = doc.get(k);
        push_elem(&mut out, &e);
        proof {
            lemma_enc_doc_push(doc@.take(k as int), e);
            assert(doc@.take(k as int).push(e) =~= doc@.take(k as int + 1));
        }
        k += 1;
    }
    proof {
        assert(doc@.take(n as int) =~= doc@);
    }
    out
}

proof fn lemma_enc_doc_push(s: Seq<Element>, e: Element)
    ensures
        enc_doc(s.push(e)) == enc_doc(s) + enc_elem(e),
    decreases s.len(),
{
    reveal_with_fuel(enc_doc, 3);
    assert(s.push(e)[0] == if s.len() == 0 { e } else { s[0] });
    if s.len() == 0 {
        assert(s.push(e).skip(1) =~= Seq::<Element>::empty());
        assert(enc_doc(s.push(e)) =~= enc_doc(s) + enc_elem(e));
    } else {
        assert(s.push(e).skip(1) =~= s.skip(1).push(e));
        lemma_enc_doc_push(s.skip(1), e);
        assert(enc_doc(s.push(e)) =~= enc_doc(s) + enc_elem(e));
    }
}

fn read_coord(bytes: &Vec<u8>, off: usize) -> (x: i32)
    requires
        off + 4 <= bytes@.len(),
    ensures
        x as int == dec_coord(bytes@.subrange(off as int, off as int + 4)),
{
    proof {
        assert(bytes.len() == bytes@.len());
    }
    let v: u32 = bytes[off] as u32 + 256 * (bytes[off + 1] as u32) + 65536 * (bytes[off + 2] as u32)
        + 16777216 * (bytes[off + 3] as u32);
    let x: i32 = ((v as i64) - 0x8000_0000i64) as i32;
    proof {
        let sub = bytes@.subrange(off as int, off as int + 4);
        assert(sub[0] == bytes@[off as int]);
        assert(sub[1] == bytes@[off as int + 1]);
        assert(sub[2] == bytes@[off as int + 2]);
        assert(sub[3] == bytes@[off as int + 3]);
    }
    x
}

/// Deserializes a byte blob into a document.
///
/// Succeeds exactly when the blob divides into whole 13-byte records; an
/// unrecognized tag byte is not an error. Every document it returns is well
/// formed.
pub fn decode(bytes: &Vec<u8>) -> (r: Result<Document, DecodeError>)
    ensures
        r is Ok <==> bytes@.len() % (RECORD_LEN as nat) == 0,
        r matches Ok(doc) ==> doc@ == dec_doc(bytes@) && doc.wf(),
        r is Err ==> r == Err::<Document, DecodeError>(DecodeError::IncompleteRecord),
{
    let n = bytes.len();
    if n % RECORD_LEN != 0 {
        return Err(DecodeError::IncompleteRecord);
    }
    let mut elements: Vec<Element> = Vec::new();
    let mut off: usize = 0;
    while off < n
        invariant
            n == bytes@.len(),
            n % 13 == 0,
            off <= n,
            off % 13 == 0,
            elements@.len() == off as int / 13,
            forall|i: int|
                0 <= i < elements@.len() ==> #[trigger] elements@[i] == dec_elem(
                    bytes@.subrange(13 * i, 13 * i + 13),
                ),
        decreases n - off,
    {
        proof {
            lemma_fundamental_div_mod(off as int, 13);
            lemma_fundamental_div_mod(n as int, 13);
        }
        let tag = bytes[off];
        let x = read_coord(bytes, off + 1);
        let y = read_coord(bytes, off + 5);
        let r = read_coord(bytes, off + 9);
        let e = if tag == TAG_CIRCLE {
            Element::Circle { x, y, r }
        } else if tag == TAG_SQUARE {
            Element::Square { x, y, r }
        } else {
            Element::Unknown { kind: tag, x, y, r }
        };
        proof {
            let rec = bytes@.subrange(off as int, off as int + 13);
            assert(rec.subrange(1, 5) =~= bytes@.subrange(off as int + 1, off as int + 5));
            assert(rec.subrange(5, 9) =~= bytes@.subrange(off as int + 5, off as int + 9));
            assert(rec.subrange(9, 13) =~= bytes@.subrange(off as int + 9, off as int + 13));
            assert(e == dec_elem(rec));
            lemma_div_multiples_vanish(off as int / 13 + 1, 13);
        }
        elements.push(e);
        off += RECORD_LEN;
    }
    let doc = Document { elements };
    proof {
        lemma_fundamental_div_mod(n as int, 13);
        assert(doc@ =~= dec_doc(bytes@));
        assert forall|i: int| 0 <= i < doc@.len() implies elem_wf(#[trigger] doc@[i]) by {
            assert(doc@[i] == dec_elem(bytes@.subrange(13 * i, 13 * i + 13)));
        }
    }
    Ok(doc)
}

} // verus!
