//! A verified rendering and interaction engine for simple vector documents.
//!
//! A document is an ordered sequence of drawable elements (circles and
//! squares, with room for future kinds) fetched as a byte blob from a
//! content-addressed block store. The engine decodes such blobs into
//! documents, paints documents into a pixel surface with a deterministic
//! painter's algorithm, and maps pointer coordinates back to the element
//! under them.

pub mod codec;
pub mod controller;
pub mod element;
pub mod hittest;
pub mod render;
