//! One glyph and its record in the glyph data.

use crate::bits::{
    le_bits, lemma_packed_byte, lemma_packed_concat, lemma_packed_padded_concat, pad_to_byte,
    packed_bytes, repeat_bit,
};
use crate::error::{EncodeError, Field};
use crate::field::{bias, check_signed, check_unsigned, fits_signed, fits_unsigned, overflow};
use crate::header::U8g2Header;
use crate::rle::{expand_entries, runs_fit, unroll, RunEntry};
use crate::writer::LeBitWriter;
use vstd::prelude::*;

verus! {

/// The codepoint of a glyph: `Single` below 0x100, `Double` from there up to
/// 0xFFFF. It decides which chain a glyph belongs to and how many bytes its
/// codepoint takes in the record.
#[derive(Debug, Clone, Copy, PartialEq, Eq, Structural)]
pub enum Unicode {
    Single(u8),
    Double(u16),
}

impl Unicode {
    /// The codepoint as a number.
    pub open spec fn code(self) -> int {
        match self {
            Unicode::Single(c) => c as int,
            Unicode::Double(c) => c as int,
        }
    }

    /// The number of bytes that the codepoint takes in a record.
    pub open spec fn byte_len(self) -> nat {
        match self {
            Unicode::Single(_) => 1,
            Unicode::Double(_) => 2,
        }
    }

    /// The codepoint as it stands in a record: one byte, or two with the high
    /// byte first.
    pub open spec fn bytes(self) -> Seq<u8> {
        match self {
            Unicode::Single(c) => seq![c],
            Unicode::Double(c) => seq![(c / 256) as u8, (c % 256) as u8],
        }
    }

    /// Whether the codepoint belongs to the wide chain, if `wide`, else to the
    /// narrow chain: a codepoint of two bytes that is at least 0x100 is wide,
    /// one of one byte is narrow, and a smaller one of two bytes is neither.
    pub open spec fn belongs_to(self, wide: bool) -> bool {
        match self {
            Unicode::Single(_) => !wide,
            Unicode::Double(c) => wide && c >= 0x100,
        }
    }

    /// Whether the codepoint belongs to the wide chain, if `wide`, else to the
    /// narrow chain.
    pub fn in_chain(&self, wide: bool) -> (b: bool)
        ensures
            b == self.belongs_to(wide),
    {
        match self {
            Unicode::Single(_) => !wide,
            Unicode::Double(c) => wide && *c >= 0x100,
        }
    }

    /// The tag of a codepoint given as a number; none from 0x10000 on.
    pub fn from_u32(c: u32) -> (res: Result<Unicode, EncodeError>)
        ensures
            c < 0x100 ==> res == Ok::<Unicode, EncodeError>(Unicode::Single(c as u8)),
            0x100 <= c < 0x10000 ==> res == Ok::<Unicode, EncodeError>(Unicode::Double(c as u16)),
            c >= 0x10000 ==> res == Err::<Unicode, EncodeError>(EncodeError::UnsupportedCodepoint),
    {
        if c < 0x100 {
            Ok(Unicode::Single(c as u8))
        } else if c < 0x10000 {
            Ok(Unicode::Double(c as u16))
        } else {
            Err(EncodeError::UnsupportedCodepoint)
        }
    }

    /// Whether the codepoint takes one byte.
    pub fn is_single(&self) -> (b: bool)
        ensures
            b == (*self is Single),
    {
        match self {
            Unicode::Single(_) => true,
            Unicode::Double(_) => false,
        }
    }
}

/// A glyph: its codepoint, its box, where the box lies, how far the pen moves
/// on, and its pixels in compressed form.
#[derive(Debug, Clone)]
pub struct U8g2Glyph {
    pub unicode: Unicode,
    pub width: u32,
    pub height: u32,
    pub offset_x: i32,
    pub offset_y: i32,
    pub advance: i32,
    /// The pixels, row after row, as runs with repeat counts.
    pub bitmap: Vec<RunEntry>,
}

/// The bits of one entry of a bitmap: the two runs in their fields, then the
/// repeat count in unary, as one bits closed by a zero bit.
pub open spec fn entry_bits(e: RunEntry, h: U8g2Header) -> Seq<bool> {
    le_bits(e.0.0 as int, h.bits_per_0 as nat) + le_bits(e.0.1 as int, h.bits_per_1 as nat)
        + repeat_bit(true, e.1 as nat).push(false)
}

/// The bits of a bitmap: those of its entries, one after the other.
pub open spec fn bitmap_bits(entries: Seq<RunEntry>, h: U8g2Header) -> Seq<bool>
    decreases entries.len(),
{
    if entries.len() == 0 {
        Seq::empty()
    } else {
        entry_bits(entries.first(), h) + bitmap_bits(entries.drop_first(), h)
    }
}

/// The error of the first run of `entries` that does not fit its field.
pub open spec fn run_error(entries: Seq<RunEntry>, h: U8g2Header) -> Option<EncodeError>
    decreases entries.len(),
{
    if entries.len() == 0 {
        None
    } else if !fits_unsigned(entries.first().0.0 as int, h.bits_per_0 as nat) {
        Some(overflow(Field::ZeroRun, entries.first().0.0 as int, h.bits_per_0))
    } else if !fits_unsigned(entries.first().0.1 as int, h.bits_per_1 as nat) {
        Some(overflow(Field::OneRun, entries.first().0.1 as int, h.bits_per_1))
    } else {
        run_error(entries.drop_first(), h)
    }
}

impl U8g2Glyph {
    /// Whether the bitmap is as the format wants it for runs of `bits_per_0`
    /// and `bits_per_1` bits: every run fits its field, and the runs stand
    /// for as many pixels as the glyph's box holds.
    pub open spec fn wf(self, bits_per_0: u8, bits_per_1: u8) -> bool {
        &&& runs_fit(unroll(self.bitmap@), bits_per_0, bits_per_1)
        &&& expand_entries(self.bitmap@).len() == self.width * self.height
    }

    /// The bits of the five metrics: width and height as they are, the two
    /// offsets and the advance in biased form.
    pub open spec fn metric_bits(self, h: U8g2Header) -> Seq<bool> {
        le_bits(self.width as int, h.bits_per_char_width as nat) + le_bits(
            self.height as int,
            h.bits_per_char_height as nat,
        ) + le_bits(bias(self.offset_x as int, h.bits_per_char_x as nat), h.bits_per_char_x as nat)
            + le_bits(
            bias(self.offset_y as int, h.bits_per_char_y as nat),
            h.bits_per_char_y as nat,
        ) + le_bits(
            bias(self.advance as int, h.bits_per_advance as nat),
            h.bits_per_advance as nat,
        )
    }

    /// The bytes that follow the jump byte: the metrics and the bitmap,
    /// filled up with zero bits to a whole byte.
    pub open spec fn body_bytes(self, h: U8g2Header) -> Seq<u8> {
        packed_bytes(pad_to_byte(self.metric_bits(h) + bitmap_bits(self.bitmap@, h)))
    }

    /// The length of the glyph's record in bytes.
    pub open spec fn record_len(self, h: U8g2Header) -> nat {
        self.unicode.byte_len() + 1 + self.body_bytes(h).len()
    }

    /// The jump byte of the record: its length where another record follows,
    /// zero at the end of a chain.
    pub open spec fn jump_byte(self, h: U8g2Header, no_jump: bool) -> u8 {
        if no_jump {
            0
        } else {
            self.record_len(h) as u8
        }
    }

    /// The record of the glyph: codepoint, jump byte, metrics and bitmap.
    pub open spec fn record_bytes(self, h: U8g2Header, no_jump: bool) -> Seq<u8> {
        self.unicode.bytes() + seq![self.jump_byte(h, no_jump)] + self.body_bytes(h)
    }

    /// The error of the first field that cannot hold its value: the metrics
    /// in their order, then the runs of the bitmap.
    pub open spec fn field_error(self, h: U8g2Header) -> Option<EncodeError> {
        if !fits_unsigned(self.width as int, h.bits_per_char_width as nat) {
            Some(overflow(Field::CharWidth, self.width as int, h.bits_per_char_width))
        } else if !fits_unsigned(self.height as int, h.bits_per_char_height as nat) {
            Some(overflow(Field::CharHeight, self.height as int, h.bits_per_char_height))
        } else if !fits_signed(self.offset_x as int, h.bits_per_char_x as nat) {
            Some(overflow(Field::CharX, self.offset_x as int, h.bits_per_char_x))
        } else if !fits_signed(self.offset_y as int, h.bits_per_char_y as nat) {
            Some(overflow(Field::CharY, self.offset_y as int, h.bits_per_char_y))
        } else if !fits_signed(self.advance as int, h.bits_per_advance as nat) {
            Some(overflow(Field::Advance, self.advance as int, h.bits_per_advance))
        } else {
            run_error(self.bitmap@, h)
        }
    }

    /// Why the record cannot be written, if it cannot: a field that
    /// overflows, or a length that the jump byte cannot hold.
    pub open spec fn record_error(self, h: U8g2Header, no_jump: bool) -> Option<EncodeError> {
        match self.field_error(h) {
            Some(e) => Some(e),
            None => if !no_jump && self.record_len(h) > 255 {
                Some(EncodeError::JumpDistanceOverflow)
            } else {
                None
            },
        }
    }

    /// Checks every field of the glyph against its bit width in `header`.
    pub fn validate(&self, header: &U8g2Header) -> (res: Result<(), EncodeError>)
        ensures
            res.is_ok() == self.field_error(*header).is_none(),
            res.is_err() ==> self.field_error(*header) == Some(res.unwrap_err()),
    {
        if !check_unsigned(self.width, header.bits_per_char_width) {
            return Err(
                EncodeError::FieldOverflow {
                    field: Field::CharWidth,
                    value: self.width as i128,
                    bits: header.bits_per_char_width,
                },
            );
        }
        if !check_unsigned(self.height, header.bits_per_char_height) {
            return Err(
                EncodeError::FieldOverflow {
                    field: Field::CharHeight,
                    value: self.height as i128,
                    bits: header.bits_per_char_height,
                },
            );
        }
        if !check_signed(self.offset_x, header.bits_per_char_x) {
            return Err(
                EncodeError::FieldOverflow {
                    field: Field::CharX,
                    value: self.offset_x as i128,
                    bits: header.bits_per_char_x,
                },
            );
        }
        if !check_signed(self.offset_y, header.bits_per_char_y) {
            return Err(
                EncodeError::FieldOverflow {
                    field: Field::CharY,
                    value: self.offset_y as i128,
                    bits: header.bits_per_char_y,
                },
            );
        }
        if !check_signed(self.advance, header.bits_per_advance) {
            return Err(
                EncodeError::FieldOverflow {
                    field: Field::Advance,
                    value: self.advance as i128,
                    bits: header.bits_per_advance,
                },
            );
        }
        let mut i: usize = 0;
        assert(self.bitmap@.skip(0) =~= self.bitmap@);
        while i < self.bitmap.len()
            invariant
                i <= self.bitmap.len(),
                self.field_error(*header) == run_error(self.bitmap@.skip(i as int), *header),
            decreases self.bitmap.len() - i,
        {
            let entry: RunEntry = self.bitmap[i];
            assert(self.bitmap@.skip(i as int).drop_first() =~= self.bitmap@.skip(i + 1));
            if !check_unsigned(entry.0.0, header.bits_per_0) {
                return Err(
                    EncodeError::FieldOverflow {
                        field: Field::ZeroRun,
                        value: entry.0.0 as i128,
                        bits: header.bits_per_0,
                    },
                );
            }
            if !check_unsigned(entry.0.1, header.bits_per_1) {
                return Err(
                    EncodeError::FieldOverflow {
                        field: Field::OneRun,
                        value: entry.0.1 as i128,
                        bits: header.bits_per_1,
                    },
                );
            }
            i = i + 1;
        }
        Ok(())
    }

    /// Writes the record of the glyph: the codepoint, the jump byte, the
    /// metrics and the bitmap, filled up to a whole byte. With `no_jump` the
    /// glyph ends its chain and the jump byte stays zero; without, it holds
    /// the length of the record, which then must not exceed 255.
    pub fn to_bytes(&self, header: &U8g2Header, no_jump: bool) -> (res: Result<
        Vec<u8>,
        EncodeError,
    >)
        ensures
            res.is_ok() == self.record_error(*header, no_jump).is_none(),
            res.is_ok() ==> res.unwrap()@ == self.record_bytes(*header, no_jump),
            res.is_ok() ==> res.unwrap()@.len() == self.record_len(*header),
            res.is_err() ==> self.record_error(*header, no_jump) == Some(res.unwrap_err()),
    {
        let mut w: LeBitWriter = LeBitWriter::new();
        let jump_pos: usize = match self.unicode {
            Unicode::Single(c) => {
                w.put_byte(c);
                proof {
                    lemma_packed_byte(c as int);
                }
                1
            },
            Unicode::Double(c) => {
                w.put_byte((c / 256) as u8);
                w.put_byte((c % 256) as u8);
                proof {
                    lemma_packed_byte((c / 256) as int);
                    lemma_packed_byte((c % 256) as int);
                    lemma_packed_concat(le_bits((c / 256) as int, 8), le_bits((c % 256) as int, 8));
                }
                2
            },
        };
        let ghost code_bits = w@;
        w.put_byte(0);
        let ghost head = w@;
        proof {
            lemma_packed_concat(code_bits, le_bits(0, 8));
        }
        match w.put_unsigned(Field::CharWidth, header.bits_per_char_width, self.width) {
            Ok(()) => {},
            Err(e) => {
                return Err(e);
            },
        }
        match w.put_unsigned(Field::CharHeight, header.bits_per_char_height, self.height) {
            Ok(()) => {},
            Err(e) => {
                return Err(e);
            },
        }
        match w.put_biased(Field::CharX, header.bits_per_char_x, self.offset_x) {
            Ok(()) => {},
            Err(e) => {
                return Err(e);
            },
        }
        match w.put_biased(Field::CharY, header.bits_per_char_y, self.offset_y) {
            Ok(()) => {},
            Err(e) => {
                return Err(e);
            },
        }
        match w.put_biased(Field::Advance, header.bits_per_advance, self.advance) {
            Ok(()) => {},
            Err(e) => {
                return Err(e);
            },
        }
        let ghost base = head + self.metric_bits(*header);
        let ghost all = bitmap_bits(self.bitmap@, *header);
        assert(w@ =~= base);
        assert(self.bitmap@.skip(0) =~= self.bitmap@);
        let mut i: usize = 0;
        while i < self.bitmap.len()
            invariant
                i <= self.bitmap.len(),
                self.field_error(*header) == run_error(self.bitmap@.skip(i as int), *header),
                w@ + bitmap_bits(self.bitmap@.skip(i as int), *header) == base + all,
            decreases self.bitmap.len() - i,
        {
            let entry: RunEntry = self.bitmap[i];
            assert(self.bitmap@.skip(i as int).drop_first() =~= self.bitmap@.skip(i + 1));
            match w.put_unsigned(Field::ZeroRun, header.bits_per_0, entry.0.0) {
                Ok(()) => {},
                Err(e) => {
                    return Err(e);
                },
            }
            match w.put_unsigned(Field::OneRun, header.bits_per_1, entry.0.1) {
                Ok(()) => {},
                Err(e) => {
                    return Err(e);
                },
            }
            w.put_unary(entry.1);
            i = i + 1;
        }
        let ghost body = self.metric_bits(*header) + all;
        assert(w@ =~= head + body);
        let mut bytes: Vec<u8> = w.finish();
        proof {
            lemma_packed_padded_concat(head, body);
        }
        if !no_jump {
            if bytes.len() > 255 {
                return Err(EncodeError::JumpDistanceOverflow);
            }
            let len: u8 = bytes.len() as u8;
            bytes.set(jump_pos, len);
        }
        assert(bytes@ =~= self.record_bytes(*header, no_jump));
        Ok(bytes)
    }
}

} // verus!
