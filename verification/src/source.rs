//! From a font as a font description gives it to the font to be written.

use crate::chain::codes_match;
use crate::error::{EncodeError, Field};
use crate::field::overflow;
use crate::file::U8g2File;
use crate::glyph::{run_error, U8g2Glyph, Unicode};
use crate::header::U8g2Header;
use crate::rle::{
    compress_runs, entry_pairs, expand_entries, lemma_bitmap_round_trip, merge_runs, rle_encode,
    rle_pairs, runs_fit, unroll, RunEntry, RunPair,
};
use vstd::arithmetic::power2::pow2;
use vstd::prelude::*;

verus! {

/// The codepoint of the glyph whose height gives the font's ascent, `A`.
pub const ASCENT_GLYPH: u32 = 0x41;

/// The codepoint of the glyph whose depth gives the font's descent, `g`.
pub const DESCENT_GLYPH: u32 = 0x67;

/// The bit widths of the fields of a glyph record, chosen once for a font.
#[derive(Debug, Clone, Copy, PartialEq, Eq, Structural)]
pub struct BitWidthConfig {
    pub bits_per_0: u8,
    pub bits_per_1: u8,
    pub bits_per_char_width: u8,
    pub bits_per_char_height: u8,
    pub bits_per_char_x: u8,
    pub bits_per_char_y: u8,
    pub bits_per_advance: u8,
}

/// A glyph as a font description gives it.
#[derive(Debug, Clone)]
pub struct SourceGlyph {
    pub codepoint: u32,
    pub width: i32,
    pub height: i32,
    pub offset_x: i32,
    pub offset_y: i32,
    pub advance: i32,
    /// The rows of the glyph's box from the top, each from the left; a set
    /// pixel is `true`.
    pub rows: Vec<Vec<bool>>,
}

/// A font as a font description gives it: its glyphs, its bounding box, and
/// what it says of its ascent and descent, if it says anything.
#[derive(Debug, Clone)]
pub struct SourceFont {
    pub glyphs: Vec<SourceGlyph>,
    pub box_width: i32,
    pub box_height: i32,
    pub box_x: i32,
    pub box_y: i32,
    pub ascent: Option<i32>,
    pub descent: Option<i32>,
}

impl BitWidthConfig {
    /// The widths that suit small fonts: two bits for each run, five for
    /// width, height and vertical offset, four for the horizontal offset,
    /// seven for the advance.
    pub fn standard() -> (cfg: BitWidthConfig)
        ensures
            cfg == (BitWidthConfig {
                bits_per_0: 2,
                bits_per_1: 2,
                bits_per_char_width: 5,
                bits_per_char_height: 5,
                bits_per_char_x: 4,
                bits_per_char_y: 5,
                bits_per_advance: 7,
            }),
    {
        BitWidthConfig {
            bits_per_0: 2,
            bits_per_1: 2,
            bits_per_char_width: 5,
            bits_per_char_height: 5,
            bits_per_char_x: 4,
            bits_per_char_y: 5,
            bits_per_advance: 7,
        }
    }
}

/// The pixels of `rows`, row after row.
pub open spec fn row_major(rows: Seq<Vec<bool>>) -> Seq<bool>
    decreases rows.len(),
{
    if rows.len() == 0 {
        Seq::empty()
    } else {
        row_major(rows.drop_last()) + rows.last()@
    }
}

/// Rows of one width hold as many pixels as there are rows times the width.
pub proof fn lemma_row_major_len(rows: Seq<Vec<bool>>, width: int)
    requires
        forall|i: int| 0 <= i < rows.len() ==> (#[trigger] rows[i])@.len() == width,
    ensures
        row_major(rows).len() == rows.len() * width,
    decreases rows.len(),
{
    let n = rows.len() as int;
    if n > 0 {
        lemma_row_major_len(rows.drop_last(), width);
        assert((n - 1) * width + width == n * width) by (nonlinear_arith);
    } else {
        assert(0 * width == 0) by (nonlinear_arith);
    }
}

/// In rows of one width, the pixel in column `x` of row `y` is pixel
/// `y * width + x` of all.
pub proof fn lemma_row_major(rows: Seq<Vec<bool>>, width: int, x: int, y: int)
    requires
        forall|i: int| 0 <= i < rows.len() ==> (#[trigger] rows[i])@.len() == width,
        0 <= y < rows.len(),
        0 <= x < width,
    ensures
        row_major(rows).len() == rows.len() * width,
        0 <= y * width + x < row_major(rows).len(),
        row_major(rows)[y * width + x] == rows[y]@[x],
    decreases rows.len(),
{
    let n = rows.len() as int;
    let before = rows.drop_last();
    lemma_row_major_len(before, width);
    assert((n - 1) * width + width == n * width) by (nonlinear_arith);
    if y < n - 1 {
        lemma_row_major(before, width, x, y);
        assert(y * width + x < (n - 1) * width) by (nonlinear_arith)
            requires
                0 <= y <= n - 2,
                0 <= x < width,
        ;
    }
}

impl SourceGlyph {
    /// Whether the glyph has a pixel for each place of its box.
    pub open spec fn wf(self) -> bool {
        &&& self.width >= 0
        &&& self.height >= 0
        &&& self.rows@.len() == self.height
        &&& forall|y: int| 0 <= y < self.rows@.len() ==> (#[trigger] self.rows@[y])@.len() == self.width
    }

    /// The pixel in column `x` of row `y`.
    pub open spec fn pixel(self, x: int, y: int) -> bool {
        self.rows@[y]@[x]
    }

    /// The pixels of the glyph, row after row from the top, each row from
    /// the left.
    pub open spec fn pixels(self) -> Seq<bool> {
        row_major(self.rows@)
    }

    /// Reads the pixels row after row.
    pub fn scan(&self) -> (pixels: Vec<bool>)
        ensures
            pixels@ == self.pixels(),
    {
        let mut pixels: Vec<bool> = Vec::new();
        let mut y: usize = 0;
        while y < self.rows.len()
            invariant
                y <= self.rows.len(),
                pixels@ == row_major(self.rows@.take(y as int)),
            decreases self.rows.len() - y,
        {
            let row: &Vec<bool> = &self.rows[y];
            let ghost before = pixels@;
            let mut x: usize = 0;
            while x < row.len()
                invariant
                    x <= row.len(),
                    pixels@ == before + row@.take(x as int),
                decreases row.len() - x,
            {
                pixels.push(row[x]);
                x = x + 1;
            }
            assert(self.rows@.take(y + 1).drop_last() =~= self.rows@.take(y as int));
            y = y + 1;
        }
        assert(self.rows@.take(self.rows@.len() as int) =~= self.rows@);
        pixels
    }

    /// Why the glyph cannot be taken over, if it cannot: a codepoint that
    /// has no place in the format, or a negative width or height.
    pub open spec fn error(self, cfg: BitWidthConfig) -> Option<EncodeError> {
        if self.codepoint >= 0x10000 {
            Some(EncodeError::UnsupportedCodepoint)
        } else if self.width < 0 {
            Some(overflow(Field::CharWidth, self.width as int, cfg.bits_per_char_width))
        } else if self.height < 0 {
            Some(overflow(Field::CharHeight, self.height as int, cfg.bits_per_char_height))
        } else {
            None
        }
    }

    /// Whether `g` is this glyph taken over: the same codepoint and metrics,
    /// and the pixels encoded into runs and merged.
    pub open spec fn converts_to(self, cfg: BitWidthConfig, g: U8g2Glyph) -> bool {
        &&& g.unicode.code() == self.codepoint
        &&& (g.unicode is Double) == (self.codepoint >= 0x100)
        &&& g.width == self.width
        &&& g.height == self.height
        &&& g.offset_x == self.offset_x
        &&& g.offset_y == self.offset_y
        &&& g.advance == self.advance
        &&& g.bitmap@ == merge_runs(rle_pairs(self.pixels(), cfg.bits_per_0, cfg.bits_per_1))
    }
}

/// Decoding the bitmap of a glyph that was taken over gives back every pixel
/// of the glyph at its place: the pixel in column `x` of row `y` is pixel
/// `y * width + x` of the decoded bitmap.
pub proof fn lemma_glyph_round_trip(
    src: SourceGlyph,
    cfg: BitWidthConfig,
    g: U8g2Glyph,
    x: int,
    y: int,
)
    requires
        src.wf(),
        src.converts_to(cfg, g),
        0 <= x < src.width,
        0 <= y < src.height,
    ensures
        expand_entries(g.bitmap@).len() == src.width * src.height,
        0 <= y * src.width + x < expand_entries(g.bitmap@).len(),
        expand_entries(g.bitmap@)[y * src.width + x] == src.pixel(x, y),
{
    lemma_bitmap_round_trip(src.pixels(), cfg.bits_per_0, cfg.bits_per_1);
    lemma_row_major(src.rows@, src.width as int, x, y);
}

/// An entry holds its pair, so where the pairs of a bitmap fit their fields,
/// no run of the bitmap overflows.
pub proof fn lemma_fitting_runs(entries: Seq<RunEntry>, h: U8g2Header)
    requires
        runs_fit(unroll(entries), h.bits_per_0, h.bits_per_1),
    ensures
        run_error(entries, h) is None,
    decreases entries.len(),
{
    if entries.len() > 0 {
        let rest = entries.drop_first();
        let first = entry_pairs(entries.first());
        lemma_unroll_first(entries);
        assert(unroll(entries)[0] == first[0]);
        assert forall|i: int| 0 <= i < unroll(rest).len() implies (#[trigger] unroll(rest)[i]).0
            < pow2(h.bits_per_0 as nat) && unroll(rest)[i].1 < pow2(h.bits_per_1 as nat) by {
            assert(unroll(entries)[first.len() + i] == unroll(rest)[i]);
        }
        lemma_fitting_runs(rest, h);
    }
}

proof fn lemma_unroll_first(entries: Seq<RunEntry>)
    requires
        entries.len() > 0,
    ensures
        unroll(entries) == entry_pairs(entries.first()) + unroll(entries.drop_first()),
    decreases entries.len(),
{
    if entries.len() == 1 {
        assert(entries.drop_last() =~= Seq::<RunEntry>::empty());
        assert(entries.drop_first() =~= Seq::<RunEntry>::empty());
    } else {
        lemma_unroll_first(entries.drop_last());
        assert(entries.drop_last().drop_first() =~= entries.drop_first().drop_last());
    }
}

impl U8g2Glyph {
    /// Takes a glyph over from a font description: its codepoint gets its
    /// tag, and its pixels are read row after row, encoded into runs of at
    /// most `bits_per_0` and `bits_per_1` bits, and merged.
    pub fn from_source(src: &SourceGlyph, cfg: &BitWidthConfig) -> (res: Result<
        U8g2Glyph,
        EncodeError,
    >)
        ensures
            res.is_ok() == src.error(*cfg).is_none(),
            res.is_err() ==> src.error(*cfg) == Some(res.unwrap_err()),
            res.is_ok() ==> src.converts_to(*cfg, res.unwrap()),
            res.is_ok() ==> expand_entries(res.unwrap().bitmap@) == src.pixels(),
            res.is_ok() && cfg.bits_per_0 >= 1 && cfg.bits_per_1 >= 1 ==> runs_fit(
                unroll(res.unwrap().bitmap@),
                cfg.bits_per_0,
                cfg.bits_per_1,
            ),
            res.is_ok() && cfg.bits_per_0 >= 1 && cfg.bits_per_1 >= 1 && src.wf()
                ==> res.unwrap().wf(cfg.bits_per_0, cfg.bits_per_1),
    {
        let unicode: Unicode = match Unicode::from_u32(src.codepoint) {
            Ok(u) => u,
            Err(e) => {
                return Err(e);
            },
        };
        if src.width < 0 {
            return Err(
                EncodeError::FieldOverflow {
                    field: Field::CharWidth,
                    value: src.width as i128,
                    bits: cfg.bits_per_char_width,
                },
            );
        }
        if src.height < 0 {
            return Err(
                EncodeError::FieldOverflow {
                    field: Field::CharHeight,
                    value: src.height as i128,
                    bits: cfg.bits_per_char_height,
                },
            );
        }
        let pixels: Vec<bool> = src.scan();
        let pairs: Vec<RunPair> = rle_encode(&pixels, cfg.bits_per_0, cfg.bits_per_1);
        let bitmap: Vec<RunEntry> = compress_runs(&pairs);
        proof {
            if src.wf() {
                lemma_row_major_len(src.rows@, src.width as int);
            }
        }
        Ok(
            U8g2Glyph {
                unicode,
                width: src.width as u32,
                height: src.height as u32,
                offset_x: src.offset_x,
                offset_y: src.offset_y,
                advance: src.advance,
                bitmap,
            },
        )
    }
}

/// Whether a glyph of a font description belongs to the wide chain.
pub open spec fn wide_source() -> spec_fn(SourceGlyph) -> bool {
    |s: SourceGlyph| s.codepoint >= 0x100
}

/// Whether a glyph of a font description belongs to the narrow chain.
pub open spec fn narrow_source() -> spec_fn(SourceGlyph) -> bool {
    |s: SourceGlyph| s.codepoint < 0x100
}

/// Whether `glyphs` are `sources` taken over, each in its place.
pub open spec fn all_convert(
    sources: Seq<SourceGlyph>,
    cfg: BitWidthConfig,
    glyphs: Seq<U8g2Glyph>,
) -> bool {
    &&& glyphs.len() == sources.len()
    &&& forall|i: int| 0 <= i < sources.len() ==> (#[trigger] sources[i]).converts_to(cfg, glyphs[i])
}

/// The error of the first glyph from `i` on that cannot be taken over.
pub open spec fn source_error_from(glyphs: Seq<SourceGlyph>, cfg: BitWidthConfig, i: nat) -> Option<
    EncodeError,
>
    decreases glyphs.len() - i,
{
    if i >= glyphs.len() {
        None
    } else {
        match glyphs[i as int].error(cfg) {
            Some(e) => Some(e),
            None => source_error_from(glyphs, cfg, i + 1),
        }
    }
}

/// The first glyph from `i` on that has the codepoint `code`.
pub open spec fn first_with_code(glyphs: Seq<SourceGlyph>, code: u32, i: nat) -> Option<
    SourceGlyph,
>
    decreases glyphs.len() - i,
{
    if i >= glyphs.len() {
        None
    } else if glyphs[i as int].codepoint == code {
        Some(glyphs[i as int])
    } else {
        first_with_code(glyphs, code, i + 1)
    }
}

/// Whether `v` can stand in a signed byte of the header.
pub open spec fn fits_byte(v: int) -> bool {
    -128 <= v <= 127
}

impl SourceFont {
    /// The ascent of the font: how far the first glyph `A` reaches above the
    /// baseline, or without such a glyph what the font says of its ascent.
    pub open spec fn ascent_a(self) -> Option<int> {
        match first_with_code(self.glyphs@, ASCENT_GLYPH, 0) {
            Some(g) => Some(g.height + g.offset_y),
            None => match self.ascent {
                Some(a) => Some(a as int),
                None => None,
            },
        }
    }

    /// The descent of the font: how far the first glyph `g` reaches below
    /// the baseline, or without such a glyph what the font says of its
    /// descent.
    pub open spec fn descent_g(self) -> Option<int> {
        match first_with_code(self.glyphs@, DESCENT_GLYPH, 0) {
            Some(g) => Some(-g.offset_y),
            None => match self.descent {
                Some(d) => Some(d as int),
                None => None,
            },
        }
    }

    /// Why no header can be made for the font, if none can: no reference for
    /// the ascent or the descent, or a metric that a signed byte cannot hold.
    pub open spec fn metric_error(self) -> Option<EncodeError> {
        if self.ascent_a() is None || self.descent_g() is None {
            Some(EncodeError::MissingAnchorGlyph)
        } else if !fits_byte(self.box_width as int) {
            Some(overflow(Field::MaxCharWidth, self.box_width as int, 8))
        } else if !fits_byte(self.box_height as int) {
            Some(overflow(Field::MaxCharHeight, self.box_height as int, 8))
        } else if !fits_byte(self.box_x as int) {
            Some(overflow(Field::XOffset, self.box_x as int, 8))
        } else if !fits_byte(self.box_y as int) {
            Some(overflow(Field::YOffset, self.box_y as int, 8))
        } else if !fits_byte(self.ascent_a().unwrap()) {
            Some(overflow(Field::AscentA, self.ascent_a().unwrap(), 8))
        } else if !fits_byte(self.descent_g().unwrap()) {
            Some(overflow(Field::DescentG, self.descent_g().unwrap(), 8))
        } else {
            None
        }
    }

    /// The header of the font before it is written: the bit widths, the
    /// bounding box, ascent and descent. The number of glyphs and the three
    /// offsets are zero until the font is written.
    pub open spec fn header(self, cfg: BitWidthConfig) -> U8g2Header {
        U8g2Header {
            glyph_cnt: 0,
            bbx_mode: 1,
            bits_per_0: cfg.bits_per_0,
            bits_per_1: cfg.bits_per_1,
            bits_per_char_width: cfg.bits_per_char_width,
            bits_per_char_height: cfg.bits_per_char_height,
            bits_per_char_x: cfg.bits_per_char_x,
            bits_per_char_y: cfg.bits_per_char_y,
            bits_per_advance: cfg.bits_per_advance,
            max_char_width: self.box_width as i8,
            max_char_height: self.box_height as i8,
            x_offset: self.box_x as i8,
            y_offset: self.box_y as i8,
            ascent_a: self.ascent_a().unwrap() as i8,
            descent_g: self.descent_g().unwrap() as i8,
            ascent_para: 0,
            descent_para: 0,
            start_pos_upper_a: 0,
            start_pos_lower_a: 0,
            start_pos_unicode: 0,
        }
    }

    /// Why the font cannot be taken over, if it cannot: the first glyph that
    /// cannot be, else what stands against its header.
    pub open spec fn error(self, cfg: BitWidthConfig) -> Option<EncodeError> {
        match source_error_from(self.glyphs@, cfg, 0) {
            Some(e) => Some(e),
            None => self.metric_error(),
        }
    }

    /// The first glyph with the codepoint `code`, if there is one.
    fn find(&self, code: u32) -> (res: Option<usize>)
        ensures
            match res {
                Some(i) => i < self.glyphs@.len() && first_with_code(self.glyphs@, code, 0)
                    == Some(self.glyphs@[i as int]),
                None => first_with_code(self.glyphs@, code, 0) is None,
            },
    {
        let mut i: usize = 0;
        while i < self.glyphs.len()
            invariant
                i <= self.glyphs.len(),
                first_with_code(self.glyphs@, code, 0) == first_with_code(
                    self.glyphs@,
                    code,
                    i as nat,
                ),
            decreases self.glyphs.len() - i,
        {
            if self.glyphs[i].codepoint == code {
                return Some(i);
            }
            i = i + 1;
        }
        None
    }

    /// Makes the header of the font from its metrics and its two reference
    /// glyphs.
    pub fn make_header(&self, cfg: &BitWidthConfig) -> (res: Result<U8g2Header, EncodeError>)
        ensures
            res.is_ok() == self.metric_error().is_none(),
            res.is_ok() ==> res.unwrap() == self.header(*cfg),
            res.is_err() ==> self.metric_error() == Some(res.unwrap_err()),
    {
        let ascent: i64 = match self.find(ASCENT_GLYPH) {
            Some(i) => self.glyphs[i].height as i64 + self.glyphs[i].offset_y as i64,
            None => match self.ascent {
                Some(a) => a as i64,
                None => {
                    return Err(EncodeError::MissingAnchorGlyph);
                },
            },
        };
        let descent: i64 = match self.find(DESCENT_GLYPH) {
            Some(i) => -(self.glyphs[i].offset_y as i64),
            None => match self.descent {
                Some(d) => d as i64,
                None => {
                    return Err(EncodeError::MissingAnchorGlyph);
                },
            },
        };
        let max_char_width: i8 = match signed_byte_of(Field::MaxCharWidth, self.box_width as i64) {
            Ok(b) => b,
            Err(e) => {
                return Err(e);
            },
        };
        let max_char_height: i8 = match signed_byte_of(
            Field::MaxCharHeight,
            self.box_height as i64,
        ) {
            Ok(b) => b,
            Err(e) => {
                return Err(e);
            },
        };
        let x_offset: i8 = match signed_byte_of(Field::XOffset, self.box_x as i64) {
            Ok(b) => b,
            Err(e) => {
                return Err(e);
            },
        };
        let y_offset: i8 = match signed_byte_of(Field::YOffset, self.box_y as i64) {
            Ok(b) => b,
            Err(e) => {
                return Err(e);
            },
        };
        let ascent_a: i8 = match signed_byte_of(Field::AscentA, ascent) {
            Ok(b) => b,
            Err(e) => {
                return Err(e);
            },
        };
        let descent_g: i8 = match signed_byte_of(Field::DescentG, descent) {
            Ok(b) => b,
            Err(e) => {
                return Err(e);
            },
        };
        Ok(
            U8g2Header {
                glyph_cnt: 0,
                bbx_mode: 1,
                bits_per_0: cfg.bits_per_0,
                bits_per_1: cfg.bits_per_1,
                bits_per_char_width: cfg.bits_per_char_width,
                bits_per_char_height: cfg.bits_per_char_height,
                bits_per_char_x: cfg.bits_per_char_x,
                bits_per_char_y: cfg.bits_per_char_y,
                bits_per_advance: cfg.bits_per_advance,
                max_char_width,
                max_char_height,
                x_offset,
                y_offset,
                ascent_a,
                descent_g,
                ascent_para: 0,
                descent_para: 0,
                start_pos_upper_a: 0,
                start_pos_lower_a: 0,
                start_pos_unicode: 0,
            },
        )
    }
}

/// The signed byte that holds `v`, or the error of `field` where none does.
fn signed_byte_of(field: Field, v: i64) -> (res: Result<i8, EncodeError>)
    ensures
        res.is_ok() == fits_byte(v as int),
        res.is_ok() ==> res.unwrap() == v,
        res.is_err() ==> res.unwrap_err() == overflow(field, v as int, 8),
{
    if v < -128 || v > 127 {
        Err(EncodeError::FieldOverflow { field, value: v as i128, bits: 8 })
    } else {
        Ok(v as i8)
    }
}

/// Whether no run of any bitmap of `glyphs` overflows its field.
pub open spec fn runs_all_fit(glyphs: Seq<U8g2Glyph>, h: U8g2Header) -> bool {
    forall|i: int| 0 <= i < glyphs.len() ==> run_error((#[trigger] glyphs[i]).bitmap@, h) is None
}

/// Takes a font over from a font description: each glyph is taken over and
/// put, in its order, into the group of its codepoint's width, and the
/// header is made from the font's metrics.
pub fn build_font(font: &SourceFont, cfg: &BitWidthConfig) -> (res: Result<U8g2File, EncodeError>)
    ensures
        res.is_ok() == font.error(*cfg).is_none(),
        res.is_err() ==> font.error(*cfg) == Some(res.unwrap_err()),
        res.is_ok() ==> res.unwrap().header == font.header(*cfg),
        res.is_ok() ==> all_convert(
            font.glyphs@.filter(narrow_source()),
            *cfg,
            res.unwrap().short_glyphs@,
        ),
        res.is_ok() ==> all_convert(
            font.glyphs@.filter(wide_source()),
            *cfg,
            res.unwrap().long_glyphs@,
        ),
        res.is_ok() ==> res.unwrap().sorted(),
        res.is_ok() && cfg.bits_per_0 >= 1 && cfg.bits_per_1 >= 1 ==> runs_all_fit(
            res.unwrap().short_glyphs@,
            res.unwrap().header,
        ) && runs_all_fit(res.unwrap().long_glyphs@, res.unwrap().header),
{
    let mut short_glyphs: Vec<U8g2Glyph> = Vec::new();
    let mut long_glyphs: Vec<U8g2Glyph> = Vec::new();
    let mut i: usize = 0;
    proof {
        reveal(Seq::filter);
    }
    while i < font.glyphs.len()
        invariant
            i <= font.glyphs.len(),
            source_error_from(font.glyphs@, *cfg, 0) == source_error_from(
                font.glyphs@,
                *cfg,
                i as nat,
            ),
            all_convert(font.glyphs@.take(i as int).filter(narrow_source()), *cfg, short_glyphs@),
            all_convert(font.glyphs@.take(i as int).filter(wide_source()), *cfg, long_glyphs@),
            codes_match(short_glyphs@, false),
            codes_match(long_glyphs@, true),
            cfg.bits_per_0 >= 1 && cfg.bits_per_1 >= 1 ==> forall|j: int|
                0 <= j < short_glyphs@.len() ==> runs_fit(
                    unroll((#[trigger] short_glyphs@[j]).bitmap@),
                    cfg.bits_per_0,
                    cfg.bits_per_1,
                ),
            cfg.bits_per_0 >= 1 && cfg.bits_per_1 >= 1 ==> forall|j: int|
                0 <= j < long_glyphs@.len() ==> runs_fit(
                    unroll((#[trigger] long_glyphs@[j]).bitmap@),
                    cfg.bits_per_0,
                    cfg.bits_per_1,
                ),
        decreases font.glyphs.len() - i,
    {
        let glyph: U8g2Glyph = match U8g2Glyph::from_source(&font.glyphs[i], cfg) {
            Ok(g) => g,
            Err(e) => {
                return Err(e);
            },
        };
        proof {
            reveal(Seq::filter);
            let upto = font.glyphs@.take(i + 1);
            assert(upto.drop_last() =~= font.glyphs@.take(i as int));
        }
        if glyph.unicode.is_single() {
            short_glyphs.push(glyph);
        } else {
            long_glyphs.push(glyph);
        }
        i = i + 1;
    }
    proof {
        assert(font.glyphs@.take(font.glyphs@.len() as int) =~= font.glyphs@);
    }
    let header: U8g2Header = match font.make_header(cfg) {
        Ok(h) => h,
        Err(e) => {
            return Err(e);
        },
    };
    proof {
        if cfg.bits_per_0 >= 1 && cfg.bits_per_1 >= 1 {
            assert forall|j: int| 0 <= j < short_glyphs@.len() implies run_error(
                (#[trigger] short_glyphs@[j]).bitmap@,
                header,
            ) is None by {
                lemma_fitting_runs(short_glyphs@[j].bitmap@, header);
            }
            assert forall|j: int| 0 <= j < long_glyphs@.len() implies run_error(
                (#[trigger] long_glyphs@[j]).bitmap@,
                header,
            ) is None by {
                lemma_fitting_runs(long_glyphs@[j].bitmap@, header);
            }
        }
    }
    Ok(U8g2File { header, short_glyphs, long_glyphs })
}

} // verus!
