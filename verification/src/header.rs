//! The 23-byte header that stands before the glyph records.

use vstd::prelude::*;

verus! {

/// The header of a font: the bit widths of the glyph fields, the font's
/// metrics, and where in the glyph data the search for a glyph may begin.
#[derive(Debug, Clone, Copy, PartialEq, Eq)]
pub struct U8g2Header {
    /// Number of glyphs, at most 255.
    pub glyph_cnt: u8,
    /// How a renderer sizes the background box of a glyph.
    pub bbx_mode: u8,
    /// Bits of a run of clear pixels.
    pub bits_per_0: u8,
    /// Bits of a run of set pixels.
    pub bits_per_1: u8,
    /// Bits of a glyph's width.
    pub bits_per_char_width: u8,
    /// Bits of a glyph's height.
    pub bits_per_char_height: u8,
    /// Bits of a glyph's horizontal offset.
    pub bits_per_char_x: u8,
    /// Bits of a glyph's vertical offset.
    pub bits_per_char_y: u8,
    /// Bits of a glyph's advance width.
    pub bits_per_advance: u8,
    /// Width of the font's bounding box.
    pub max_char_width: i8,
    /// Height of the font's bounding box.
    pub max_char_height: i8,
    /// Horizontal offset of the font's bounding box.
    pub x_offset: i8,
    /// Vertical offset of the font's bounding box.
    pub y_offset: i8,
    /// Ascent of the glyph `A`.
    pub ascent_a: i8,
    /// Descent of the glyph `g`.
    pub descent_g: i8,
    /// Ascent of the glyph `(`.
    pub ascent_para: i8,
    /// Descent of the glyph `)`.
    pub descent_para: i8,
    /// Offset of the record of `A` in the glyph data.
    pub start_pos_upper_a: u16,
    /// Offset of the record of `a` in the glyph data.
    pub start_pos_lower_a: u16,
    /// Offset in the glyph data at which the wide chain begins.
    pub start_pos_unicode: u16,
}

/// The number of bytes of every header.
pub const HEADER_SIZE: usize = 23;

/// The byte that holds a signed number in two's complement form.
pub open spec fn signed_byte(v: i8) -> u8 {
    if v >= 0 {
        v as u8
    } else {
        (v + 256) as u8
    }
}

/// The two bytes of a 16-bit number, the high byte first.
pub open spec fn be_bytes(v: u16) -> Seq<u8> {
    seq![(v / 256) as u8, (v % 256) as u8]
}

/// The bytes of a header: one byte for each of the first seventeen fields,
/// in their order, then the three offsets with the high byte first.
pub open spec fn header_bytes(h: U8g2Header) -> Seq<u8> {
    seq![
        h.glyph_cnt,
        h.bbx_mode,
        h.bits_per_0,
        h.bits_per_1,
        h.bits_per_char_width,
        h.bits_per_char_height,
        h.bits_per_char_x,
        h.bits_per_char_y,
        h.bits_per_advance,
        signed_byte(h.max_char_width),
        signed_byte(h.max_char_height),
        signed_byte(h.x_offset),
        signed_byte(h.y_offset),
        signed_byte(h.ascent_a),
        signed_byte(h.descent_g),
        signed_byte(h.ascent_para),
        signed_byte(h.descent_para),
    ] + be_bytes(h.start_pos_upper_a) + be_bytes(h.start_pos_lower_a) + be_bytes(
        h.start_pos_unicode,
    )
}

/// A header is 23 bytes long, whatever it holds.
pub proof fn lemma_header_size(h: U8g2Header)
    ensures
        header_bytes(h).len() == HEADER_SIZE,
{
}

fn byte_of(v: i8) -> (b: u8)
    ensures
        b == signed_byte(v),
{
    if v >= 0 {
        v as u8
    } else {
        (v as i16 + 256) as u8
    }
}

fn push_be(out: &mut Vec<u8>, v: u16)
    ensures
        final(out)@ == old(out)@ + be_bytes(v),
{
    out.push((v / 256) as u8);
    out.push((v % 256) as u8);
}

impl U8g2Header {
    /// The header as it stands in a font file.
    pub fn to_bytes(&self) -> (bytes: Vec<u8>)
        ensures
            bytes@ == header_bytes(*self),
            bytes@.len() == HEADER_SIZE,
    {
        let mut bytes: Vec<u8> = Vec::new();
        bytes.push(self.glyph_cnt);
        bytes.push(self.bbx_mode);
        bytes.push(self.bits_per_0);
        bytes.push(self.bits_per_1);
        bytes.push(self.bits_per_char_width);
        bytes.push(self.bits_per_char_height);
        bytes.push(self.bits_per_char_x);
        bytes.push(self.bits_per_char_y);
        bytes.push(self.bits_per_advance);
        bytes.push(byte_of(self.max_char_width));
        bytes.push(byte_of(self.max_char_height));
        bytes.push(byte_of(self.x_offset));
        bytes.push(byte_of(self.y_offset));
        bytes.push(byte_of(self.ascent_a));
        bytes.push(byte_of(self.descent_g));
        bytes.push(byte_of(self.ascent_para));
        bytes.push(byte_of(self.descent_para));
        push_be(&mut bytes, self.start_pos_upper_a);
        push_be(&mut bytes, self.start_pos_lower_a);
        push_be(&mut bytes, self.start_pos_unicode);
        bytes
    }
}

} // verus!
