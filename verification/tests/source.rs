use convert_bdf::{
    build_font, BitWidthConfig, EncodeError, Field, SourceFont, SourceGlyph, U8g2Glyph, Unicode,
};

fn glyph(codepoint: u32, width: i32, height: i32, rows: &[&str]) -> SourceGlyph {
    let rows = rows.iter().map(|row| row.chars().map(|c| c == '#').collect()).collect();
    SourceGlyph { codepoint, width, height, offset_x: 1, offset_y: -2, advance: width + 2, rows }
}

fn letters() -> Vec<SourceGlyph> {
    vec![
        glyph(0x263a, 3, 3, &["#.#", "...", "###"]),
        glyph('a' as u32, 4, 3, &[".##.", "#..#", ".###"]),
        glyph('A' as u32, 5, 6, &["..#..", ".#.#.", "#...#", "#####", "#...#", "#...#"]),
        glyph(0x100, 1, 1, &["#"]),
        glyph('g' as u32, 4, 4, &[".###", "#..#", ".###", "###."]),
        glyph(' ' as u32, 0, 0, &[]),
    ]
}

fn font(glyphs: Vec<SourceGlyph>) -> SourceFont {
    SourceFont {
        glyphs,
        box_width: 6,
        box_height: 9,
        box_x: 0,
        box_y: -2,
        ascent: Some(7),
        descent: Some(2),
    }
}

struct Bits<'a> {
    bytes: &'a [u8],
    at: usize,
}

impl<'a> Bits<'a> {
    fn take(&mut self, count: u8) -> u32 {
        let mut v = 0;
        for i in 0..count {
            let bit = (self.bytes[self.at / 8] >> (self.at % 8)) & 1;
            v |= (bit as u32) << i;
            self.at += 1;
        }
        v
    }
}

/// Reads one record as a renderer would, and gives the glyph back.
fn decode(record: &[u8], wide: bool, cfg: &BitWidthConfig) -> SourceGlyph {
    let (codepoint, width, height, offset_x, offset_y, advance, pixels) = read(record, wide, cfg);
    let rows = if width == 0 {
        vec![Vec::new(); height as usize]
    } else {
        pixels.chunks(width as usize).map(|row| row.to_vec()).collect()
    };
    SourceGlyph { codepoint, width, height, offset_x, offset_y, advance, rows }
}

fn read(record: &[u8], wide: bool, cfg: &BitWidthConfig) -> (u32, i32, i32, i32, i32, i32, Vec<bool>) {
    let (codepoint, body) = if wide {
        ((record[0] as u32) << 8 | record[1] as u32, &record[3..])
    } else {
        (record[0] as u32, &record[2..])
    };
    let mut bits = Bits { bytes: body, at: 0 };
    let width = bits.take(cfg.bits_per_char_width) as i32;
    let height = bits.take(cfg.bits_per_char_height) as i32;
    let offset_x = bits.take(cfg.bits_per_char_x) as i32 - (1 << (cfg.bits_per_char_x - 1));
    let offset_y = bits.take(cfg.bits_per_char_y) as i32 - (1 << (cfg.bits_per_char_y - 1));
    let advance = bits.take(cfg.bits_per_advance) as i32 - (1 << (cfg.bits_per_advance - 1));
    let mut pixels = Vec::new();
    while pixels.len() < (width * height) as usize {
        let zeros = bits.take(cfg.bits_per_0);
        let ones = bits.take(cfg.bits_per_1);
        loop {
            pixels.extend(std::iter::repeat(false).take(zeros as usize));
            pixels.extend(std::iter::repeat(true).take(ones as usize));
            if bits.take(1) == 0 {
                break;
            }
        }
    }
    (codepoint, width, height, offset_x, offset_y, advance, pixels)
}

fn same(a: &SourceGlyph, b: &SourceGlyph) -> bool {
    a.codepoint == b.codepoint
        && a.width == b.width
        && a.height == b.height
        && a.offset_x == b.offset_x
        && a.offset_y == b.offset_y
        && a.advance == b.advance
        && a.rows == b.rows
}

#[test]
fn pixels_are_read_row_after_row() {
    let src = glyph(0x41, 3, 2, &["#..", ".##"]);
    assert_eq!(src.scan(), vec![true, false, false, false, true, true]);
    assert_eq!(glyph(0x41, 0, 0, &[]).scan(), Vec::<bool>::new());
    assert_eq!(glyph(0x41, 0, 2, &["", ""]).scan(), Vec::<bool>::new());
    let cfg = BitWidthConfig::standard();
    let g = U8g2Glyph::from_source(&src, &cfg).unwrap();
    assert_eq!(g.bitmap, vec![((0, 1), 0), ((3, 2), 0)]);
}

#[test]
fn glyph_is_taken_over() {
    let cfg = BitWidthConfig::standard();
    let src = glyph('A' as u32, 1, 1, &["#"]);
    let g = U8g2Glyph::from_source(&src, &cfg).unwrap();
    assert_eq!(g.unicode, Unicode::Single(b'A'));
    assert_eq!((g.width, g.height, g.offset_x, g.offset_y, g.advance), (1, 1, 1, -2, 3));
    assert_eq!(g.bitmap, vec![((0, 1), 0)]);

    let src = glyph(0x100, 5, 1, &["#####"]);
    let g = U8g2Glyph::from_source(&src, &cfg).unwrap();
    assert_eq!(g.unicode, Unicode::Double(0x100));
    assert_eq!(g.bitmap, vec![((0, 3), 0), ((0, 2), 0)]);

    let src = glyph(0x41, 4, 4, &["####", "####", "####", "####"]);
    let g = U8g2Glyph::from_source(&src, &cfg).unwrap();
    assert_eq!(g.bitmap, vec![((0, 3), 4), ((0, 1), 0)]);
}

#[test]
fn glyph_that_cannot_be_taken_over() {
    let cfg = BitWidthConfig::standard();
    let mut src = glyph(0x10000, 1, 1, &["#"]);
    src.width = -1;
    assert_eq!(
        U8g2Glyph::from_source(&src, &cfg).unwrap_err(),
        EncodeError::UnsupportedCodepoint
    );
    src.codepoint = 0xffff;
    assert_eq!(
        U8g2Glyph::from_source(&src, &cfg).unwrap_err(),
        EncodeError::FieldOverflow { field: Field::CharWidth, value: -1, bits: 5 }
    );
    src.width = 1;
    src.height = -7;
    assert_eq!(
        U8g2Glyph::from_source(&src, &cfg).unwrap_err(),
        EncodeError::FieldOverflow { field: Field::CharHeight, value: -7, bits: 5 }
    );
}

#[test]
fn standard_widths() {
    let cfg = BitWidthConfig::standard();
    assert_eq!(
        cfg,
        BitWidthConfig {
            bits_per_0: 2,
            bits_per_1: 2,
            bits_per_char_width: 5,
            bits_per_char_height: 5,
            bits_per_char_x: 4,
            bits_per_char_y: 5,
            bits_per_advance: 7,
        }
    );
}

#[test]
fn font_is_split_by_codepoint_width() {
    let cfg = BitWidthConfig::standard();
    let file = build_font(&font(letters()), &cfg).unwrap();
    let short: Vec<Unicode> = file.short_glyphs.iter().map(|g| g.unicode).collect();
    let long: Vec<Unicode> = file.long_glyphs.iter().map(|g| g.unicode).collect();
    assert_eq!(
        short,
        vec![
            Unicode::Single(b'a'),
            Unicode::Single(b'A'),
            Unicode::Single(b'g'),
            Unicode::Single(b' ')
        ]
    );
    assert_eq!(long, vec![Unicode::Double(0x263a), Unicode::Double(0x100)]);
}

#[test]
fn header_takes_metrics_and_reference_glyphs() {
    let cfg = BitWidthConfig::standard();
    let src = font(letters());
    let h = src.make_header(&cfg).unwrap();
    assert_eq!(h, build_font(&src, &cfg).unwrap().header);
    assert_eq!(h.glyph_cnt, 0);
    assert_eq!(h.bbx_mode, 1);
    assert_eq!((h.bits_per_0, h.bits_per_1), (2, 2));
    assert_eq!((h.bits_per_char_width, h.bits_per_char_height), (5, 5));
    assert_eq!((h.bits_per_char_x, h.bits_per_char_y, h.bits_per_advance), (4, 5, 7));
    assert_eq!((h.max_char_width, h.max_char_height, h.x_offset, h.y_offset), (6, 9, 0, -2));
    // the glyph A is six high and lies two below the baseline; g lies two below
    assert_eq!((h.ascent_a, h.descent_g), (4, 2));
    assert_eq!((h.ascent_para, h.descent_para), (0, 0));
    assert_eq!((h.start_pos_upper_a, h.start_pos_lower_a, h.start_pos_unicode), (0, 0, 0));
}

#[test]
fn header_falls_back_on_the_font() {
    let cfg = BitWidthConfig::standard();
    let mut src = font(vec![glyph('a' as u32, 1, 1, &["#"])]);
    let h = src.make_header(&cfg).unwrap();
    assert_eq!((h.ascent_a, h.descent_g), (7, 2));

    src.descent = None;
    assert_eq!(src.make_header(&cfg), Err(EncodeError::MissingAnchorGlyph));
    assert_eq!(build_font(&src, &cfg).unwrap_err(), EncodeError::MissingAnchorGlyph);
    src.glyphs.push(glyph('g' as u32, 1, 1, &["#"]));
    assert_eq!(src.make_header(&cfg).unwrap().descent_g, 2);

    src.ascent = None;
    assert_eq!(src.make_header(&cfg), Err(EncodeError::MissingAnchorGlyph));
    src.glyphs.push(glyph('A' as u32, 1, 3, &["#", "#", "#"]));
    src.glyphs.push(glyph('A' as u32, 1, 1, &["#"]));
    // the first glyph A counts
    assert_eq!(src.make_header(&cfg).unwrap().ascent_a, 1);
}

#[test]
fn metrics_beyond_a_byte() {
    let cfg = BitWidthConfig::standard();
    let overflow = |field, value| Err(EncodeError::FieldOverflow { field, value, bits: 8 });
    let good = font(letters());

    let mut src = good.clone();
    src.box_width = 128;
    src.box_height = 1000;
    assert_eq!(src.make_header(&cfg), overflow(Field::MaxCharWidth, 128));
    src.box_width = 127;
    assert_eq!(src.make_header(&cfg), overflow(Field::MaxCharHeight, 1000));

    let mut src = good.clone();
    src.box_x = -129;
    assert_eq!(src.make_header(&cfg), overflow(Field::XOffset, -129));
    src.box_x = -128;
    src.box_y = 200;
    assert_eq!(src.make_header(&cfg), overflow(Field::YOffset, 200));

    let mut src = good.clone();
    src.glyphs[2].height = i32::MAX;
    src.glyphs[2].offset_y = i32::MAX;
    src.glyphs[4].offset_y = i32::MIN;
    assert_eq!(src.make_header(&cfg), overflow(Field::AscentA, 2 * (i32::MAX as i128)));
    src.glyphs[2].height = 1;
    src.glyphs[2].offset_y = 1;
    assert_eq!(src.make_header(&cfg), overflow(Field::DescentG, -(i32::MIN as i128)));
}

#[test]
fn first_bad_glyph_fails_the_font() {
    let cfg = BitWidthConfig::standard();
    let mut glyphs = letters();
    glyphs[1].height = -1;
    glyphs[3].codepoint = 0x20000;
    let mut src = font(glyphs);
    src.box_width = 1000;
    assert_eq!(
        build_font(&src, &cfg).unwrap_err(),
        EncodeError::FieldOverflow { field: Field::CharHeight, value: -1, bits: 5 }
    );
    src.glyphs[1].height = 3;
    assert_eq!(build_font(&src, &cfg).unwrap_err(), EncodeError::UnsupportedCodepoint);
    src.glyphs[3].codepoint = 0x2000;
    assert_eq!(
        build_font(&src, &cfg).unwrap_err(),
        EncodeError::FieldOverflow { field: Field::MaxCharWidth, value: 1000, bits: 8 }
    );
}

#[test]
fn written_font_reads_back() {
    let cfg = BitWidthConfig::standard();
    let sources = letters();
    let mut file = build_font(&font(sources.clone()), &cfg).unwrap();
    let bytes = file.to_bytes().unwrap();
    assert_eq!(bytes[0], 6);
    let data = &bytes[23..];

    let upper = ((bytes[17] as usize) << 8) | bytes[18] as usize;
    let lower = ((bytes[19] as usize) << 8) | bytes[20] as usize;
    let bridge = ((bytes[21] as usize) << 8) | bytes[22] as usize;
    assert_eq!(data[upper], b'A');
    assert_eq!(data[lower], b'a');
    assert_eq!(&data[bridge..bridge + 4], &[0, 4, 0xff, 0xff]);

    let mut read = Vec::new();
    let mut at = 0;
    loop {
        read.push(decode(&data[at..], false, &cfg));
        if data[at + 1] == 0 {
            break;
        }
        at += data[at + 1] as usize;
    }
    let narrow: Vec<&SourceGlyph> = sources.iter().filter(|g| g.codepoint < 0x100).collect();
    assert_eq!(read.len(), narrow.len());
    for (a, b) in read.iter().zip(narrow) {
        assert!(same(a, b));
    }

    let mut read = Vec::new();
    let mut at = bridge + 4;
    loop {
        read.push(decode(&data[at..], true, &cfg));
        if data[at + 2] == 0 {
            break;
        }
        at += data[at + 2] as usize;
    }
    let wide: Vec<&SourceGlyph> = sources.iter().filter(|g| g.codepoint >= 0x100).collect();
    assert_eq!(read.len(), wide.len());
    for (a, b) in read.iter().zip(wide) {
        assert!(same(a, b));
    }
}

#[test]
fn every_bit_width_reads_back() {
    let sources = letters();
    for bits in 1..=6u8 {
        let cfg = BitWidthConfig {
            bits_per_0: bits,
            bits_per_1: 7 - bits,
            bits_per_char_width: 3 + bits,
            bits_per_char_height: 4 + bits,
            bits_per_char_x: 2 + bits,
            bits_per_char_y: 3 + bits,
            bits_per_advance: 4 + bits,
        };
        let file = build_font(&font(sources.clone()), &cfg).unwrap();
        for g in file.short_glyphs.iter().chain(file.long_glyphs.iter()) {
            let wide = !g.unicode.is_single();
            let record = g.to_bytes(&file.header, false).unwrap();
            let back = decode(&record, wide, &cfg);
            let src = sources.iter().find(|s| s.codepoint == back.codepoint).unwrap();
            assert!(same(&back, src));
        }
    }
}
