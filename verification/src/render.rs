//! The render engine: painting a document into a pixel surface.
//!
//! Rendering clears the surface to the background color and then paints
//! each element in sequence order with one fixed fill color, overwriting
//! whatever lies under it (the painter's algorithm: later elements occlude
//! earlier ones). A pixel is painted by an element exactly when its
//! coordinate satisfies the same containment predicate the hit-test engine
//! uses, and unrecognized element kinds paint nothing.

use vstd::prelude::*;
use crate::element::{Element, Document};
use crate::hittest::elem_contains;

verus! {

/// The background color: opaque white, in ARGB order.
pub const BACKGROUND: u32 = 0xFFFF_FFFF;

/// The fill color every recognized shape is painted with: an opaque light
/// blue, in ARGB order.
pub const FILL: u32 = 0xFF80_80FF;

/// Whether some element of `s` contains the point `(px, py)`; exactly the
/// pixels with this property end up painted.
pub open spec fn covered(s: Seq<Element>, px: int, py: int) -> bool {
    exists|i: int| 0 <= i < s.len() && elem_contains(#[trigger] s[i], px, py)
}

/// A pixel surface in row-major order.
pub struct Surface {
    pub width: usize,
    pub height: usize,
    pub pixels: Vec<u32>,
}

impl Surface {
    /// The pixel vector has exactly one entry per coordinate, and both
    /// dimensions stay within the coordinate range of the document model.
    pub open spec fn wf(&self) -> bool {
        self.pixels@.len() == self.width * self.height && self.width <= 0x7fff_ffff
            && self.height <= 0x7fff_ffff
    }

    /// Whether `(x, y)` lies on the surface.
    pub open spec fn in_bounds(&self, x: int, y: int) -> bool {
        0 <= x < self.width && 0 <= y < self.height
    }

    /// The color of the pixel at `(x, y)`.
    pub open spec fn pix(&self, x: int, y: int) -> u32 {
        self.pixels@[y * self.width + x]
    }

    /// Creates a surface of the given dimensions, filled with the
    /// background color.
    pub fn new(width: usize, height: usize) -> (r: Surface)
        requires
            width <= 0x7fff_ffff,
            height <= 0x7fff_ffff,
            width * height <= usize::MAX,
        ensures
            r.wf(),
            r.width == width,
            r.height == height,
            forall|x: int, y: int| r.in_bounds(x, y) ==> r.pix(x, y) == BACKGROUND,
    {
        let n: usize = width * height;
        let mut pixels: Vec<u32> = Vec::new();
        let mut k: usize = 0;
        while k < n
            invariant
                k <= n,
                pixels@.len() == k,
                forall|i: int| 0 <= i < k ==> pixels@[i] == BACKGROUND,
            decreases n - k,
        {
            pixels.push(BACKGROUND);
            k += 1;
        }
        let r = Surface { width, height, pixels };
        proof {
            assert forall|x: int, y: int| r.in_bounds(x, y) implies r.pix(x, y) == BACKGROUND by {
                lemma_index_bound(x, y, width as int, height as int);
            }
        }
        r
    }

    /// The surface width.
    pub fn get_width(&self) -> (r: usize)
        ensures
            r == self.width,
    {
        self.width
    }

    /// The surface height.
    pub fn get_height(&self) -> (r: usize)
        ensures
            r == self.height,
    {
        self.height
    }

    /// The color of the pixel at `(x, y)`.
    pub fn get(&self, x: usize, y: usize) -> (r: u32)
        requires
            self.wf(),
            self.in_bounds(x as int, y as int),
        ensures
            r == self.pix(x as int, y as int),
    {
        proof {
            lemma_index_bound(x as int, y as int, self.width as int, self.height as int);
            assert(self.pixels.len() == self.pixels@.len());
        }
        self.pixels[y * self.width + x]
    }
}

/// A row-major index lies inside the pixel vector.
proof fn lemma_index_bound(x: int, y: int, w: int, h: int)
    requires
        0 <= x < w,
        0 <= y < h,
    ensures
        0 <= y * w + x < w * h,
{
    assert(0 <= y * w + x < w * h) by (nonlinear_arith)
        requires
            0 <= x < w,
            0 <= y < h,
    ;
}

/// Distinct coordinates have distinct row-major indices.
proof fn lemma_index_unique(w: int, x1: int, y1: int, x2: int, y2: int)
    requires
        0 <= x1 < w,
        0 <= x2 < w,
        0 <= y1,
        0 <= y2,
        y1 * w + x1 == y2 * w + x2,
    ensures
        x1 == x2,
        y1 == y2,
{
    assert(x1 == x2 && y1 == y2) by (nonlinear_arith)
        requires
            0 <= x1 < w,
            0 <= x2 < w,
            0 <= y1,
            0 <= y2,
            y1 * w + x1 == y2 * w + x2,
    ;
}

/// Fills the whole surface with the background color, discarding whatever
/// was painted before.
pub fn clear(surface: &mut Surface)
    requires
        old(surface).wf(),
    ensures
        final(surface).wf(),
        final(surface).width == old(surface).width,
        final(surface).height == old(surface).height,
        forall|x: int, y: int|
            final(surface).in_bounds(x, y) ==> final(surface).pix(x, y) == BACKGROUND,
{
    let n: usize = surface.pixels.len();
    let mut k: usize = 0;
    while k < n
        invariant
            n == surface.pixels@.len(),
            surface.width == old(surface).width,
            surface.height == old(surface).height,
            surface.wf(),
            k <= n,
            forall|i: int| 0 <= i < k ==> surface.pixels@[i] == BACKGROUND,
        decreases n - k,
    {
        surface.pixels[k] = BACKGROUND;
        k += 1;
    }
    proof {
        assert forall|x: int, y: int| surface.in_bounds(x, y) implies surface.pix(x, y)
            == BACKGROUND by {
            lemma_index_bound(x, y, surface.width as int, surface.height as int);
        }
    }
}

/// Paints one element over the surface: every pixel the element contains
/// takes the fill color, every other pixel keeps its color. Unrecognized
/// kinds contain nothing, so they are skipped without an error.
fn paint_element(surface: &mut Surface, e: &Element)
    requires
        old(surface).wf(),
    ensures
        final(surface).wf(),
        final(surface).width == old(surface).width,
        final(surface).height == old(surface).height,
        forall|x: int, y: int|
            final(surface).in_bounds(x, y) ==> final(surface).pix(x, y) == (if elem_contains(
                *e,
                x,
                y,
            ) {
                FILL
            } else {
                old(surface).pix(x, y)
            }),
{
    let ghost orig = *surface;
    let w: usize = surface.get_width();
    let h: usize = surface.get_height();
    let mut y: usize = 0;
    while y < h
        invariant
            w == surface.width,
            h == surface.height,
            surface.width == orig.width,
            surface.height == orig.height,
            surface.wf(),
            y <= h,
            forall|xx: int, yy: int| #![trigger surface.pix(xx, yy)]
                surface.in_bounds(xx, yy) ==> surface.pix(xx, yy) == (if yy < y && elem_contains(
                    *e,
                    xx,
                    yy,
                ) {
                    FILL
                } else {
                    orig.pix(xx, yy)
                }),
        decreases h - y,
    {
        let mut x: usize = 0;
        while x < w
            invariant
                w == surface.width,
                h == surface.height,
                surface.width == orig.width,
                surface.height == orig.height,
                surface.wf(),
                y < h,
                x <= w,
                forall|xx: int, yy: int| #![trigger surface.pix(xx, yy)]
                    surface.in_bounds(xx, yy) ==> surface.pix(xx, yy) == (if (yy < y || (yy == y
                        && xx < x)) && elem_contains(*e, xx, yy) {
                        FILL
                    } else {
                        orig.pix(xx, yy)
                    }),
            decreases w - x,
        {
            let ghost prev = *surface;
            if crate::hittest::element_contains(e, x as i32, y as i32) {
                proof {
                    lemma_index_bound(x as int, y as int, w as int, h as int);
                    assert(surface.pixels.len() == surface.pixels@.len());
                }
                let i: usize = y * w + x;
                surface.pixels[i] = FILL;
                proof {
                    assert forall|xx: int, yy: int| #![trigger surface.pix(xx, yy)]
                        surface.in_bounds(xx, yy) implies surface.pix(
                        xx,
                        yy,
                    ) == (if (yy < y || (yy == y && xx < x + 1)) && elem_contains(*e, xx, yy) {
                        FILL
                    } else {
                        orig.pix(xx, yy)
                    }) by {
                        lemma_index_bound(xx, yy, w as int, h as int);
                        let idx = yy * (w as int) + xx;
                        assert(surface.pixels@ == prev.pixels@.update(i as int, FILL));
                        assert(0 <= idx < surface.pixels@.len());
                        if idx == i as int {
                            lemma_index_unique(w as int, xx, yy, x as int, y as int);
                            assert(xx == x && yy == y);
                            assert(surface.pixels@[idx] == FILL);
                            assert(elem_contains(*e, xx, yy));
                        } else {
                            assert(surface.pixels@[idx] == prev.pixels@[idx]);
                            assert(prev.pix(xx, yy) == (if (yy < y || (yy == y && xx < x))
                                && elem_contains(*e, xx, yy) {
                                FILL
                            } else {
                                orig.pix(xx, yy)
                            }));
                        }
                    }
                }
            }
            x += 1;
        }
        y += 1;
    }
}

/// `covered` over one more element: the point is covered iff it was covered
/// before or the new element contains it.
proof fn lemma_covered_push(s: Seq<Element>, e: Element, px: int, py: int)
    ensures
        covered(s.push(e), px, py) == (covered(s, px, py) || elem_contains(e, px, py)),
{
    let t = s.push(e);
    if covered(s, px, py) {
        let i = choose|i: int| 0 <= i < s.len() && elem_contains(#[trigger] s[i], px, py);
        assert(t[i] == s[i]);
        assert(covered(t, px, py));
    }
    if elem_contains(e, px, py) {
        assert(t[s.len() as int] == e);
        assert(covered(t, px, py));
    }
    if covered(t, px, py) {
        let i = choose|i: int| 0 <= i < t.len() && elem_contains(#[trigger] t[i], px, py);
        if i < s.len() {
            assert(s[i] == t[i]);
        } else {
            assert(t[i] == e);
        }
    }
}

/// Renders a document: clears the surface to the background color, then
/// paints every element in sequence order. Afterwards a pixel shows the
/// fill color exactly when some recognized element of the document contains
/// its coordinate, and the background color everywhere else.
pub fn render(surface: &mut Surface, doc: &Document)
    requires
        old(surface).wf(),
    ensures
        final(surface).wf(),
        final(surface).width == old(surface).width,
        final(surface).height == old(surface).height,
        forall|x: int, y: int|
            final(surface).in_bounds(x, y) ==> final(surface).pix(x, y) == (if covered(
                doc@,
                x,
                y,
            ) {
                FILL
            } else {
                BACKGROUND
            }),
{
    clear(surface);
    let n = doc.len();
    let mut k: usize = 0;
    while k < n
        invariant
            n == doc@.len(),
            surface.width == old(surface).width,
            surface.height == old(surface).height,
            surface.wf(),
            k <= n,
            forall|x: int, y: int|
                surface.in_bounds(x, y) ==> surface.pix(x, y) == (if covered(
                    doc@.take(k as int),
                    x,
                    y,
                ) {
                    FILL
                } else {
                    BACKGROUND
                }),
        decreases n - k,
    {
        let e = doc.get(k);
        paint_element(surface, &e);
        proof {
            assert(doc@.take(k as int).push(e) =~= doc@.take(k as int + 1));
            assert forall|x: int, y: int|
                covered(doc@.take(k as int + 1), x, y) == (covered(doc@.take(k as int), x, y)
                    || elem_contains(e, x, y)) by {
                lemma_covered_push(doc@.take(k as int), e, x, y);
            }
        }
        k += 1;
    }
    proof {
        assert(doc@.take(n as int) =~= doc@);
    }
}

/// An empty document covers no point, so rendering it leaves every pixel
/// the background color.
pub proof fn lemma_empty_covers_nothing(px: int, py: int)
    ensures
        !covered(Seq::<Element>::empty(), px, py),
{
}

} // verus!
