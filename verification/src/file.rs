//! A whole font: the header and the two chains of glyph records.

use crate::chain::{
    anchor_offset, build_chain, chain_bytes, check_codes, codes_match, field_error_from,
    jump_overflows, lemma_anchor_in_chain, lemma_chain_jumps, lemma_record_error_is_jump,
    lemma_walk_of_chain, record_offset, validate_glyphs, walk_chain, Anchors, LOWER_ANCHOR,
    UPPER_ANCHOR,
};
use crate::error::{EncodeError, Field};
use crate::field::overflow;
use crate::glyph::U8g2Glyph;
use crate::header::{header_bytes, U8g2Header};
use vstd::prelude::*;

verus! {

/// A font to be written: its header, the glyphs with a codepoint of one byte,
/// and those with a codepoint of two.
#[derive(Debug, Clone)]
pub struct U8g2File {
    pub header: U8g2Header,
    pub short_glyphs: Vec<U8g2Glyph>,
    pub long_glyphs: Vec<U8g2Glyph>,
}

/// The four bytes between the two chains: a jump of four, which leads past
/// them, and the codepoint 0xFFFF, each with the high byte first.
pub open spec fn bridge_bytes() -> Seq<u8> {
    seq![0u8, 4u8, 0xffu8, 0xffu8]
}

impl U8g2File {
    /// Whether each glyph stands in the chain to which its codepoint belongs.
    pub open spec fn sorted(self) -> bool {
        codes_match(self.short_glyphs@, false) && codes_match(self.long_glyphs@, true)
    }

    /// The glyph data: the narrow chain and, if there are wide glyphs, the
    /// bridge and the wide chain.
    pub open spec fn glyph_data(self) -> Seq<u8> {
        chain_bytes(self.short_glyphs@, self.header) + if self.long_glyphs@.len() > 0 {
            bridge_bytes() + chain_bytes(self.long_glyphs@, self.header)
        } else {
            Seq::empty()
        }
    }

    /// The offset in the glyph data of the record of the last glyph `A`, or
    /// zero if there is none.
    pub open spec fn upper_pos(self) -> nat {
        match anchor_offset(self.short_glyphs@, self.header, UPPER_ANCHOR as int) {
            Some(o) => o,
            None => 0,
        }
    }

    /// The offset in the glyph data of the record of the last glyph `a`, or
    /// zero if there is none.
    pub open spec fn lower_pos(self) -> nat {
        match anchor_offset(self.short_glyphs@, self.header, LOWER_ANCHOR as int) {
            Some(o) => o,
            None => 0,
        }
    }

    /// The offset in the glyph data at which the bridge stands, or zero if
    /// there are no wide glyphs.
    pub open spec fn unicode_pos(self) -> nat {
        if self.long_glyphs@.len() > 0 {
            chain_bytes(self.short_glyphs@, self.header).len()
        } else {
            0
        }
    }

    /// Where in the glyph data the jump byte of the narrow glyph `i` stands:
    /// behind the records before it and its own codepoint.
    pub open spec fn narrow_jump_at(self, i: nat) -> int {
        (record_offset(self.short_glyphs@, self.header, i)
            + self.short_glyphs@[i as int].unicode.byte_len()) as int
    }

    /// Where in the glyph data the jump byte of the wide glyph `i` stands:
    /// behind the narrow chain, the bridge, the records before it and its
    /// own codepoint.
    pub open spec fn wide_jump_at(self, i: nat) -> int {
        (chain_bytes(self.short_glyphs@, self.header).len() + 4 + record_offset(
            self.long_glyphs@,
            self.header,
            i,
        ) + self.long_glyphs@[i as int].unicode.byte_len()) as int
    }

    /// The number of glyphs as the header holds it: it stops at 255.
    pub open spec fn glyph_count(self) -> u8 {
        if self.short_glyphs@.len() + self.long_glyphs@.len() > 255 {
            255
        } else {
            (self.short_glyphs@.len() + self.long_glyphs@.len()) as u8
        }
    }

    /// The header of the font as written: the given one, with the number of
    /// glyphs and the three offsets filled in.
    pub open spec fn built_header(self) -> U8g2Header {
        U8g2Header {
            glyph_cnt: self.glyph_count(),
            start_pos_upper_a: self.upper_pos() as u16,
            start_pos_lower_a: self.lower_pos() as u16,
            start_pos_unicode: self.unicode_pos() as u16,
            ..self.header
        }
    }

    /// Whether the narrow chain lacks an anchor glyph. A font without narrow
    /// glyphs has no narrow chain to search, and lacks none.
    pub open spec fn lacks_anchor(self) -> bool {
        self.short_glyphs@.len() > 0 && (anchor_offset(
            self.short_glyphs@,
            self.header,
            UPPER_ANCHOR as int,
        ) is None || anchor_offset(self.short_glyphs@, self.header, LOWER_ANCHOR as int) is None)
    }

    /// The first error of the glyphs themselves: a glyph in the wrong chain,
    /// a field that overflows, in the narrow glyphs and then in the wide, or a
    /// jump that overflows.
    pub open spec fn glyph_error(self) -> Option<EncodeError> {
        if !self.sorted() {
            Some(EncodeError::MalformedChain)
        } else if field_error_from(self.short_glyphs@, self.header, 0) is Some {
            field_error_from(self.short_glyphs@, self.header, 0)
        } else if field_error_from(self.long_glyphs@, self.header, 0) is Some {
            field_error_from(self.long_glyphs@, self.header, 0)
        } else if jump_overflows(self.short_glyphs@, self.header) || jump_overflows(
            self.long_glyphs@,
            self.header,
        ) {
            Some(EncodeError::JumpDistanceOverflow)
        } else {
            None
        }
    }

    /// The first error of the three offsets: an anchor that is missing, or an
    /// offset of more than 16 bits.
    pub open spec fn offset_error(self) -> Option<EncodeError> {
        if self.lacks_anchor() {
            Some(EncodeError::MissingAnchorGlyph)
        } else if self.upper_pos() > 0xFFFF {
            Some(overflow(Field::StartPosUpperA, self.upper_pos() as int, 16))
        } else if self.lower_pos() > 0xFFFF {
            Some(overflow(Field::StartPosLowerA, self.lower_pos() as int, 16))
        } else if self.unicode_pos() > 0xFFFF {
            Some(overflow(Field::StartPosUnicode, self.unicode_pos() as int, 16))
        } else {
            None
        }
    }

    /// Why the font cannot be written, if it cannot: the first error of the
    /// glyphs, else the first error of the offsets.
    pub open spec fn build_error(self) -> Option<EncodeError> {
        match self.glyph_error() {
            Some(e) => Some(e),
            None => self.offset_error(),
        }
    }

    /// Checks all glyphs, then builds the two chains.
    fn build_chains(&self) -> (res: Result<(Vec<u8>, Vec<u8>), EncodeError>)
        ensures
            res.is_ok() == self.glyph_error().is_none(),
            res.is_ok() ==> res.unwrap().0@ == chain_bytes(self.short_glyphs@, self.header)
                && res.unwrap().1@ == chain_bytes(self.long_glyphs@, self.header),
            res.is_err() ==> self.glyph_error() == Some(res.unwrap_err()),
    {
        if !check_codes(&self.short_glyphs, false) || !check_codes(&self.long_glyphs, true) {
            return Err(EncodeError::MalformedChain);
        }
        match validate_glyphs(&self.short_glyphs, &self.header) {
            Ok(()) => {},
            Err(e) => {
                return Err(e);
            },
        }
        match validate_glyphs(&self.long_glyphs, &self.header) {
            Ok(()) => {},
            Err(e) => {
                return Err(e);
            },
        }
        proof {
            lemma_record_error_is_jump(self.short_glyphs@, self.header, 0);
            lemma_record_error_is_jump(self.long_glyphs@, self.header, 0);
        }
        let narrow: Vec<u8> = match build_chain(&self.short_glyphs, &self.header) {
            Ok(data) => data,
            Err(e) => {
                return Err(e);
            },
        };
        let wide: Vec<u8> = match build_chain(&self.long_glyphs, &self.header) {
            Ok(data) => data,
            Err(e) => {
                return Err(e);
            },
        };
        Ok((narrow, wide))
    }

    /// Walks the two chains, and gives the offsets of the two anchors in the
    /// narrow chain.
    fn find_anchors(&self, narrow: &Vec<u8>, wide: &Vec<u8>) -> (res: Result<
        (usize, usize),
        EncodeError,
    >)
        requires
            self.glyph_error() is None,
            narrow@ == chain_bytes(self.short_glyphs@, self.header),
            wide@ == chain_bytes(self.long_glyphs@, self.header),
        ensures
            res.is_ok() == !self.lacks_anchor(),
            res.is_ok() ==> res.unwrap().0 == self.upper_pos() && res.unwrap().1
                == self.lower_pos(),
            res.is_err() ==> res.unwrap_err() == EncodeError::MissingAnchorGlyph,
    {
        if self.long_glyphs.len() > 0 {
            proof {
                lemma_walk_of_chain(self.long_glyphs@, self.header, true);
            }
            match walk_chain(wide, true, self.long_glyphs.len()) {
                Ok(_) => {},
                Err(e) => {
                    return Err(e);
                },
            }
        }
        if self.short_glyphs.len() == 0 {
            return Ok((0, 0));
        }
        proof {
            let n = self.short_glyphs@.len();
            lemma_walk_of_chain(self.short_glyphs@, self.header, false);
            lemma_anchor_in_chain(self.short_glyphs@, self.header, UPPER_ANCHOR as int, n);
            lemma_anchor_in_chain(self.short_glyphs@, self.header, LOWER_ANCHOR as int, n);
        }
        let found: Anchors = match walk_chain(narrow, false, self.short_glyphs.len()) {
            Ok(a) => a,
            Err(e) => {
                return Err(e);
            },
        };
        assert(narrow@.len() == narrow.len());
        match (found.upper_a, found.lower_a) {
            (Some(u), Some(l)) => Ok((u, l)),
            _ => Err(EncodeError::MissingAnchorGlyph),
        }
    }

    /// The header with the number of glyphs and the three offsets filled in.
    fn fill_header(&self, upper: usize, lower: usize, narrow_len: usize) -> (res: Result<
        U8g2Header,
        EncodeError,
    >)
        requires
            !self.lacks_anchor(),
            upper == self.upper_pos(),
            lower == self.lower_pos(),
            narrow_len == chain_bytes(self.short_glyphs@, self.header).len(),
        ensures
            res.is_ok() == self.offset_error().is_none(),
            res.is_ok() ==> res.unwrap() == self.built_header(),
            res.is_err() ==> self.offset_error() == Some(res.unwrap_err()),
    {
        if upper > 0xFFFF {
            return Err(
                EncodeError::FieldOverflow {
                    field: Field::StartPosUpperA,
                    value: upper as i128,
                    bits: 16,
                },
            );
        }
        if lower > 0xFFFF {
            return Err(
                EncodeError::FieldOverflow {
                    field: Field::StartPosLowerA,
                    value: lower as i128,
                    bits: 16,
                },
            );
        }
        let bridge_at: usize = if self.long_glyphs.len() > 0 {
            narrow_len
        } else {
            0
        };
        if bridge_at > 0xFFFF {
            return Err(
                EncodeError::FieldOverflow {
                    field: Field::StartPosUnicode,
                    value: bridge_at as i128,
                    bits: 16,
                },
            );
        }
        let count: u8 = if self.short_glyphs.len() > 255 || self.long_glyphs.len() > 255
            - self.short_glyphs.len() {
            255
        } else {
            (self.short_glyphs.len() + self.long_glyphs.len()) as u8
        };
        let mut header: U8g2Header = self.header;
        header.glyph_cnt = count;
        header.start_pos_upper_a = upper as u16;
        header.start_pos_lower_a = lower as u16;
        header.start_pos_unicode = bridge_at as u16;
        Ok(header)
    }

    /// Writes the font: the header, the narrow chain and, if there are wide
    /// glyphs, the bridge and the wide chain.
    ///
    /// All glyphs are checked before anything is written. Each chain is then
    /// built and walked once along its jump bytes; the walk along the narrow
    /// chain finds the two anchors. The header of the font takes the number
    /// of glyphs and the three offsets; on failure the font stays as it was.
    pub fn to_bytes(&mut self) -> (res: Result<Vec<u8>, EncodeError>)
        ensures
            res.is_ok() == old(self).build_error().is_none(),
            res.is_ok() ==> res.unwrap()@ == header_bytes(old(self).built_header()) + old(
                self,
            ).glyph_data(),
            res.is_ok() ==> final(self).header == old(self).built_header(),
            res.is_err() ==> old(self).build_error() == Some(res.unwrap_err()),
            res.is_err() ==> final(self).header == old(self).header,
            final(self).short_glyphs == old(self).short_glyphs,
            final(self).long_glyphs == old(self).long_glyphs,
    {
        let (narrow, wide) = match self.build_chains() {
            Ok(chains) => chains,
            Err(e) => {
                return Err(e);
            },
        };
        let mut narrow: Vec<u8> = narrow;
        let mut wide: Vec<u8> = wide;
        let (upper, lower) = match self.find_anchors(&narrow, &wide) {
            Ok(at) => at,
            Err(e) => {
                return Err(e);
            },
        };
        let header: U8g2Header = match self.fill_header(upper, lower, narrow.len()) {
            Ok(h) => h,
            Err(e) => {
                return Err(e);
            },
        };
        let mut out: Vec<u8> = header.to_bytes();
        out.append(&mut narrow);
        if self.long_glyphs.len() > 0 {
            out.push(0);
            out.push(4);
            out.push(0xff);
            out.push(0xff);
            out.append(&mut wide);
        }
        assert(out@ =~= header_bytes(header) + old(self).glyph_data());
        self.header = header;
        Ok(out)
    }

    /// The warning that the header cannot hold the number of glyphs, where
    /// there are more than 255. Such a font is written all the same.
    pub fn glyph_count_warning(&self) -> (res: Option<EncodeError>)
        ensures
            res == if self.short_glyphs@.len() + self.long_glyphs@.len() > 255 {
                Some(EncodeError::GlyphCountOverflow)
            } else {
                None
            },
    {
        if self.short_glyphs.len() > 255 || self.long_glyphs.len() > 255
            - self.short_glyphs.len() {
            Some(EncodeError::GlyphCountOverflow)
        } else {
            None
        }
    }
}

/// In the glyph data of a font, the last narrow record has a jump byte of
/// zero, and the jump byte of every other narrow record that is at most 255
/// bytes long is the length of that record.
pub proof fn lemma_narrow_jumps(file: U8g2File, i: nat)
    requires
        i < file.short_glyphs@.len(),
        i + 1 < file.short_glyphs@.len() ==> file.short_glyphs@[i as int].record_len(file.header)
            <= 255,
    ensures
        file.narrow_jump_at(i) < file.glyph_data().len(),
        file.glyph_data()[file.narrow_jump_at(i)] == if i + 1 == file.short_glyphs@.len() {
            0
        } else {
            file.short_glyphs@[i as int].record_len(file.header) as int
        },
{
    lemma_chain_jumps(file.short_glyphs@, file.header, i);
}

/// In the glyph data of a font, the wide chain begins four bytes behind the
/// narrow chain. Its last record has a jump byte of zero, and the jump byte
/// of every other wide record that is at most 255 bytes long is the length of
/// that record.
pub proof fn lemma_wide_jumps(file: U8g2File, i: nat)
    requires
        i < file.long_glyphs@.len(),
        i + 1 < file.long_glyphs@.len() ==> file.long_glyphs@[i as int].record_len(file.header)
            <= 255,
    ensures
        file.wide_jump_at(i) < file.glyph_data().len(),
        file.glyph_data()[file.wide_jump_at(i)] == if i + 1 == file.long_glyphs@.len() {
            0
        } else {
            file.long_glyphs@[i as int].record_len(file.header) as int
        },
{
    lemma_chain_jumps(file.long_glyphs@, file.header, i);
}

} // verus!
