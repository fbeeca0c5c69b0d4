//! Encoder for the compact, bit-packed u8g2 font format.
//!
//! A font is a list of glyphs. Each glyph bitmap is run-length compressed into
//! fixed-width fields, each glyph is packed into a byte record, and the records
//! are chained by self-relative jump bytes behind a 23-byte header.
//!
//! - [`source`] takes a font over from a font description, [`charset`] says
//!   which of its glyphs are taken.
//! - [`rle`] compresses the pixels of a glyph.
//! - [`glyph`] writes the record of one glyph, through the bit writer of
//!   [`writer`], in fields as [`field`] and [`bits`] describe them.
//! - [`chain`] puts records into a chain and walks along it.
//! - [`file`] writes the whole font behind its [`header`].

pub mod bits;
pub mod chain;
pub mod charset;
pub mod error;
pub mod field;
pub mod file;
pub mod glyph;
pub mod header;
pub mod rle;
pub mod source;
pub mod writer;

pub use crate::error::{EncodeError, Field};
pub use crate::file::U8g2File;
pub use crate::glyph::{U8g2Glyph, Unicode};
pub use crate::header::U8g2Header;
pub use crate::source::{build_font, BitWidthConfig, SourceFont, SourceGlyph};
