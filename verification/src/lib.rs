//! Annotation overlay engine for documentation code snippets.
//!
//! The library turns one fenced code snippet plus a set of analysis facts
//! (token spans with hover payloads, inlay labels anchored at offsets) into
//! annotated HTML: hidden lines are stripped but still counted, every literal
//! character is HTML-escaped, and markup fragments are spliced in at exact
//! character offsets of the visible text.  Hover payloads are deduplicated by
//! a small interner so that tags carry an integer id instead of the payload.

pub mod escape;
pub mod facts;
pub mod filter;
pub mod footer;
pub mod interner;
pub mod overlay;
pub mod render;
pub mod segment;
pub mod text;
