//! Reconstruction of human-readable text structure (words, lines,
//! paragraphs, headers, table cells) from a page of positioned glyph
//! runs plus a precomputed spatial decomposition of that page.
//!
//! All page-space coordinates are fixed-point integers: one unit is one
//! hundredth of a text-space unit. Callers that obtain glyph geometry in
//! floating point convert to this grid before handing data to the library.
//! Offsets into text count characters, not bytes.

pub mod geom;
pub mod glyph;
pub mod util;
pub mod gap;
pub mod flow;
pub mod text;
pub mod node;
pub mod classify;
pub mod lower;
