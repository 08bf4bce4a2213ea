use vstd::prelude::*;

verus! {

/// One opaque display color with four components.
///
/// The core never interprets a color: it is carried verbatim from the caller
/// to the renderer. Each component holds the raw bit pattern of the
/// renderer's own color component; the default foreground is opaque white and
/// the default background is fully transparent black.
#[derive(Clone, Copy, PartialEq, Eq, Structural, Debug)]
pub struct Color {
    pub r: u32,
    pub g: u32,
    pub b: u32,
    pub a: u32,
}

/// The bit pattern a renderer reads as a full-intensity color component.
pub open spec fn full_component() -> u32 {
    0x3F80_0000
}

/// Opaque white: all four components at full intensity.
pub open spec fn white() -> Color {
    Color { r: full_component(), g: full_component(), b: full_component(), a: full_component() }
}

/// Fully transparent black: all four components zero.
pub open spec fn transparent() -> Color {
    Color { r: 0, g: 0, b: 0, a: 0 }
}

/// One character cell: a character plus its display attributes.
///
/// `'\0'` is the sentinel for an unwritten cell and `'\n'` is the line
/// terminator; every other character is ordinary content.
#[derive(Clone, Copy, PartialEq, Eq, Structural, Debug)]
pub struct Glyph {
    pub char: char,
    pub foreground: Color,
    pub background: Color,
}

/// The glyph `Glyph::new` builds for a character: default attributes.
pub open spec fn default_glyph(c: char) -> Glyph {
    Glyph { char: c, foreground: white(), background: transparent() }
}

/// A character that ends the stale segment past the cursor: the line
/// terminator or the unwritten-cell sentinel.
pub open spec fn is_terminator(c: char) -> bool {
    c == '\n' || c == '\0'
}

impl Glyph {
    /// Builds a glyph with default attributes: opaque white foreground over a
    /// fully transparent background.
    pub fn new(char: char) -> (g: Glyph)
        ensures
            g == default_glyph(char),
    {
        Glyph {
            char,
            foreground: Color {
                r: 0x3F80_0000,
                g: 0x3F80_0000,
                b: 0x3F80_0000,
                a: 0x3F80_0000,
            },
            background: Color { r: 0, g: 0, b: 0, a: 0 },
        }
    }
}

} // verus!
