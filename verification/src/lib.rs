//! Styled rendering of ASCII-art blocks.
//!
//! A document pairs a `design` text block with a congruent `styles` overlay
//! and a map from each overlay tag to a terminal style. The renderer walks
//! the two blocks in lockstep and emits the design with SGR escape
//! sequences, coalescing adjacent equally styled glyphs into one span.

pub mod style;
pub mod style_map;
pub mod sgr;
pub mod lines;
pub mod render;
pub mod laws;
