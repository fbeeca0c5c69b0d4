//! The ways in which building a font can fail.

use vstd::prelude::*;

verus! {

/// A field of the format that holds a number in a fixed count of bits.
#[derive(Debug, Clone, Copy, PartialEq, Eq, Structural)]
pub enum Field {
    /// Pixel width of a glyph.
    CharWidth,
    /// Pixel height of a glyph.
    CharHeight,
    /// Horizontal offset of a glyph.
    CharX,
    /// Vertical offset of a glyph.
    CharY,
    /// Advance width of a glyph.
    Advance,
    /// Length of a run of clear pixels.
    ZeroRun,
    /// Length of a run of set pixels.
    OneRun,
    /// Width of the font's bounding box.
    MaxCharWidth,
    /// Height of the font's bounding box.
    MaxCharHeight,
    /// Horizontal offset of the font's bounding box.
    XOffset,
    /// Vertical offset of the font's bounding box.
    YOffset,
    /// Ascent of the uppercase reference glyph.
    AscentA,
    /// Descent of the lowercase reference glyph.
    DescentG,
    /// Byte offset of the uppercase anchor.
    StartPosUpperA,
    /// Byte offset of the lowercase anchor.
    StartPosLowerA,
    /// Byte offset at which the wide chain begins.
    StartPosUnicode,
}

/// Why a font could not be encoded.
#[derive(Debug, Clone, Copy, PartialEq, Eq, Structural)]
pub enum EncodeError {
    /// `value` does not fit in the `bits` bits that `field` has.
    FieldOverflow { field: Field, value: i128, bits: u8 },
    /// A codepoint of 0x10000 or more.
    UnsupportedCodepoint,
    /// A record that another one follows is longer than 255 bytes.
    JumpDistanceOverflow,
    /// The narrow chain lacks the uppercase or the lowercase anchor glyph, or
    /// the font gives no reference for its ascent or descent.
    MissingAnchorGlyph,
    /// More than 255 glyphs: the header's count stops at 255. Only a warning.
    GlyphCountOverflow,
    /// A chain of records that cannot be walked to its end, or a glyph that
    /// stands in a chain to which its codepoint does not belong.
    MalformedChain,
}

} // verus!
