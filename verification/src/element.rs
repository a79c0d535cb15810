//! The document model: drawable elements and documents.

use vstd::prelude::*;

verus! {

/// A single drawable primitive with its own geometry.
///
/// Coordinates are integer scene units. `Unknown` stands for any element
/// kind this version does not recognize: such elements decode successfully
/// and are skipped by rendering and hit-testing, so that documents written
/// by a newer producer still load.
#[derive(Clone, Copy, Debug, PartialEq, Eq, Structural)]
pub enum Element {
    /// A disk with center `(x, y)` and radius `r`.
    Circle { x: i32, y: i32, r: i32 },
    /// An axis-aligned square with top-left corner `(x, y)` and side `r`.
    Square { x: i32, y: i32, r: i32 },
    /// An unrecognized element kind, kept so the document round-trips.
    Unknown { kind: u8, x: i32, y: i32, r: i32 },
}

/// An element is well formed when an `Unknown` kind does not collide with
/// the tags reserved for the recognized shapes.
pub open spec fn elem_wf(e: Element) -> bool {
    match e {
        Element::Unknown { kind, .. } => kind >= 2,
        _ => true,
    }
}

/// An ordered sequence of elements. Order is significant: it is the paint
/// order (index 0 is painted first, so later elements occlude earlier ones
/// at overlapping pixels).
#[derive(Debug, PartialEq)]
pub struct Document {
    pub elements: Vec<Element>,
}

impl View for Document {
    type V = Seq<Element>;

    open spec fn view(&self) -> Seq<Element> {
        self.elements@
    }
}

impl Document {
    /// Every element of the document is well formed.
    pub open spec fn wf(&self) -> bool {
        forall|i: int| 0 <= i < self@.len() ==> elem_wf(#[trigger] self@[i])
    }

    /// The empty document.
    pub fn new() -> (r: Document)
        ensures
            r@ == Seq::<Element>::empty(),
            r.wf(),
    {
        Document { elements: Vec::new() }
    }

    /// Builds a document from its element sequence.
    pub fn from_elements(elements: Vec<Element>) -> (r: Document)
        ensures
            r@ == elements@,
    {
        Document { elements }
    }

    /// The number of elements.
    pub fn len(&self) -> (r: usize)
        ensures
            r == self@.len(),
    {
        self.elements.len()
    }

    /// The element at index `i`.
    pub fn get(&self, i: usize) -> (r: Element)
        requires
            i < self@.len(),
        ensures
            r == self@[i as int],
    {
        self.elements[i]
    }
}

} // verus!
