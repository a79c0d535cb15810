//! The interaction controller: binding a live document to pointer and
//! repaint events.
//!
//! The controller owns at most one current document. Loading replaces it
//! wholesale on success and leaves it untouched on any failure, so event
//! handlers never observe partial state. Pointer presses are answered by
//! the hit-test engine and repaint requests by the render engine, both
//! against the currently bound document.

use vstd::prelude::*;
use crate::element::Document;
use crate::codec::{decode, encode, enc_doc, DecodeError, dec_doc, RECORD_LEN};
use crate::render::{Surface, render, clear, covered, BACKGROUND, FILL};
use crate::hittest::{hit_test, first_hit};

verus! {

/// Why the block store could not produce a byte blob.
#[derive(Clone, Copy, Debug, PartialEq, Eq, Structural)]
pub enum FetchError {
    /// The hash resolves to no stored content.
    NotFound,
    /// The fetch itself failed.
    IOError,
}

/// Why a document could not be loaded.
#[derive(Clone, Copy, Debug, PartialEq, Eq, Structural)]
pub enum EngineError {
    /// The block store produced no bytes.
    Fetch(FetchError),
    /// The fetched bytes are not a valid document.
    Decode(DecodeError),
}

/// Serializes a document for storage: the byte blob the block store is
/// handed on upload, and the one `load_document` recovers the document
/// from.
pub fn save_document(doc: &Document) -> (r: Vec<u8>)
    ensures
        r@ == enc_doc(doc@),
{
    encode(doc)
}

/// The controller: holds the document the event handlers currently see.
pub struct Controller {
    pub doc: Option<Document>,
}

impl Controller {
    /// A controller with no document bound yet.
    pub fn new() -> (r: Controller)
        ensures
            r.doc is None,
    {
        Controller { doc: None }
    }

    /// The currently bound document, if any.
    pub fn current(&self) -> (r: &Option<Document>)
        ensures
            r == &self.doc,
    {
        &self.doc
    }

    /// Binds a document, superseding the previous binding wholesale.
    pub fn bind(&mut self, doc: Document)
        ensures
            final(self).doc == Some(doc),
    {
        self.doc = Some(doc);
    }

    /// Feeds the outcome of a block-store fetch to the controller: decodes
    /// the blob and binds the document it holds. On a fetch or decode
    /// failure the error propagates and the previous binding stays exactly
    /// as it was.
    pub fn load_document(&mut self, fetched: Result<Vec<u8>, FetchError>) -> (r: Result<
        (),
        EngineError,
    >)
        ensures
            match fetched {
                Err(fe) => r == Err::<(), EngineError>(EngineError::Fetch(fe)) && *final(self)
                    == *old(self),
                Ok(bytes) => if bytes@.len() % (RECORD_LEN as nat) != 0 {
                    r == Err::<(), EngineError>(EngineError::Decode(DecodeError::IncompleteRecord))
                        && *final(self) == *old(self)
                } else {
                    r is Ok && (final(self).doc matches Some(d) && d@ == dec_doc(bytes@))
                },
            },
    {
        match fetched {
            Err(fe) => Err(EngineError::Fetch(fe)),
            Ok(bytes) => match decode(&bytes) {
                Err(de) => Err(EngineError::Decode(de)),
                Ok(doc) => {
                    self.bind(doc);
                    Ok(())
                }
            },
        }
    }

    /// Answers a pointer press at `(x, y)`: the index of the element under
    /// the point in the current document, or `None` when no document is
    /// bound or no element contains the point.
    pub fn on_pointer_press(&self, x: i32, y: i32) -> (r: Option<usize>)
        ensures
            match self.doc {
                Some(d) => (r matches Some(i) ==> first_hit(d@, x as int, y as int) == Some(
                    i as int,
                )) && (r is None ==> first_hit(d@, x as int, y as int) is None),
                None => r is None,
            },
    {
        match &self.doc {
            Some(d) => hit_test(x, y, d),
            None => None,
        }
    }

    /// Answers a repaint request: renders the current document into the
    /// surface, or clears the surface to the background color when no
    /// document is bound.
    pub fn on_repaint(&self, surface: &mut Surface)
        requires
            old(surface).wf(),
        ensures
            final(surface).wf(),
            final(surface).width == old(surface).width,
            final(surface).height == old(surface).height,
            self.doc matches Some(d) ==> forall|x: int, y: int|
                final(surface).in_bounds(x, y) ==> final(surface).pix(x, y) == (if covered(
                    d@,
                    x,
                    y,
                ) {
                    FILL
                } else {
                    BACKGROUND
                }),
            self.doc is None ==> forall|x: int, y: int|
                final(surface).in_bounds(x, y) ==> final(surface).pix(x, y) == BACKGROUND,
    {
        match &self.doc {
            Some(d) => render(surface, d),
            None => clear(surface),
        }
    }
}

} // verus!
