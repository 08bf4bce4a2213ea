//! A fixed-capacity circular text buffer with a moving write cursor, and a
//! line-wrapping windowing algorithm that computes which glyphs are visible
//! in a bounded viewport, reading backward from the cursor.

pub mod glyph;
pub mod wrap;
pub mod buffer;
pub mod input;
pub mod laws;
