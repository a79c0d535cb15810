//! The hit-test engine: mapping a pointer coordinate to the element under it.
//!
//! Tie-break policy: the document is scanned in sequence order and the
//! *first* element containing the point wins. The result is a pure function
//! of the point and the document, so repeated queries against the same
//! document always agree.

use vstd::prelude::*;
use crate::element::{Element, Document};

verus! {

/// A point lies in a circle iff its Euclidean distance to the center is at
/// most the radius (stated squared, so a negative radius contains nothing).
pub open spec fn circle_contains(cx: int, cy: int, r: int, px: int, py: int) -> bool {
    r >= 0 && (px - cx) * (px - cx) + (py - cy) * (py - cy) <= r * r
}

/// A point lies in a square iff it lies between the top-left corner and the
/// corner displaced by the side length, on both axes.
pub open spec fn square_contains(x: int, y: int, r: int, px: int, py: int) -> bool {
    x <= px <= x + r && y <= py <= y + r
}

/// Containment for one element. Unrecognized kinds contain nothing, so they
/// can never be hit.
pub open spec fn elem_contains(e: Element, px: int, py: int) -> bool {
    match e {
        Element::Circle { x, y, r } => circle_contains(x as int, y as int, r as int, px, py),
        Element::Square { x, y, r } => square_contains(x as int, y as int, r as int, px, py),
        Element::Unknown { .. } => false,
    }
}

/// The index of the first element of `s` (in paint order) that contains the
/// point, if any.
pub open spec fn first_hit(s: Seq<Element>, px: int, py: int) -> Option<int>
    decreases s.len(),
{
    if s.len() == 0 {
        None
    } else if elem_contains(s[0], px, py) {
        Some(0)
    } else {
        match first_hit(s.skip(1), px, py) {
            Some(i) => Some(i + 1),
            None => None,
        }
    }
}

/// The documented tie-break policy, as facts about `first_hit`: a hit is the
/// first containing element in sequence order, and a miss means no element
/// contains the point. Together with `hit_test`'s postcondition this pins
/// the reported element for every query, so repeated queries on one
/// document cannot disagree.
pub proof fn lemma_first_hit_policy(s: Seq<Element>, px: int, py: int)
    ensures
        match first_hit(s, px, py) {
            Some(i) => 0 <= i < s.len() && elem_contains(s[i], px, py)
                && forall|j: int| 0 <= j < i ==> !elem_contains(#[trigger] s[j], px, py),
            None => forall|j: int| 0 <= j < s.len() ==> !elem_contains(#[trigger] s[j], px, py),
        },
    decreases s.len(),
{
    if s.len() > 0 && !elem_contains(s[0], px, py) {
        let t = s.skip(1);
        lemma_first_hit_policy(t, px, py);
        match first_hit(t, px, py) {
            Some(i) => {
                assert(first_hit(s, px, py) == Some(i + 1));
                assert(elem_contains(s[i + 1], px, py)) by {
                    assert(t[i] == s[i + 1]);
                }
                assert forall|j: int| 0 <= j < i + 1 implies !elem_contains(
                    #[trigger] s[j],
                    px,
                    py,
                ) by {
                    if j > 0 {
                        assert(t[j - 1] == s[j]);
                    }
                }
            }
            None => {
                assert forall|j: int| 0 <= j < s.len() implies !elem_contains(
                    #[trigger] s[j],
                    px,
                    py,
                ) by {
                    if j > 0 {
                        assert(t[j - 1] == s[j]);
                    }
                }
            }
        }
    }
}

/// Whether the element contains the point `(px, py)`.
///
/// The squared distances are computed in 128-bit arithmetic, which cannot
/// overflow for 32-bit coordinates.
pub fn element_contains(e: &Element, px: i32, py: i32) -> (r: bool)
    ensures
        r == elem_contains(*e, px as int, py as int),
{
    match e {
        Element::Circle { x, y, r } => {
            if *r < 0 {
                false
            } else {
                let dx: i128 = px as i128 - *x as i128;
                let dy: i128 = py as i128 - *y as i128;
                let rr: i128 = *r as i128;
                proof {
                    assert(dx * dx <= 0x1_0000_0000_0000_0000i128 && dx * dx >= 0) by (nonlinear_arith)
                        requires -0x1_0000_0000 <= dx <= 0x1_0000_0000;
                    assert(dy * dy <= 0x1_0000_0000_0000_0000i128 && dy * dy >= 0) by (nonlinear_arith)
                        requires -0x1_0000_0000 <= dy <= 0x1_0000_0000;
                    assert(rr * rr <= 0x4000_0000_0000_0000i128 && rr * rr >= 0) by (nonlinear_arith)
                        requires 0 <= rr <= 0x8000_0000;
                }
                dx * dx + dy * dy <= rr * rr
            }
        }
        Element::Square { x, y, r } => {
            let px_w: i64 = px as i64;
            let py_w: i64 = py as i64;
            *x as i64 <= px_w && px_w <= *x as i64 + *r as i64
                && *y as i64 <= py_w && py_w <= *y as i64 + *r as i64
        }
        Element::Unknown { .. } => false,
    }
}

/// Returns the index of the element under the point `(px, py)`, or `None`
/// when no element contains it. The first containing element in sequence
/// order is reported.
pub fn hit_test(px: i32, py: i32, doc: &Document) -> (r: Option<usize>)
    ensures
        r matches Some(i) ==> first_hit(doc@, px as int, py as int) == Some(i as int),
        r is None ==> first_hit(doc@, px as int, py as int) is None,
{
    let n = doc.len();
    let mut k: usize = 0;
    while k < n
        invariant
            n == doc@.len(),
            k <= n,
            forall|j: int| 0 <= j < k ==> !elem_contains(#[trigger] doc@[j], px as int, py as int),
        decreases n - k,
    {
        let e = doc.get(k);
        if element_contains(&e, px, py) {
            proof {
                lemma_first_hit_policy(doc@, px as int, py as int);
            }
            return Some(k);
        }
        k += 1;
    }
    proof {
        lemma_first_hit_policy(doc@, px as int, py as int);
    }
    None
}

} // verus!
