use bitstream_io::{BitWrite, BitWriter, LittleEndian};
use convert_bdf::writer::LeBitWriter;
use convert_bdf::{Field, U8g2Glyph, U8g2Header, Unicode};

struct Random(u64);

impl Random {
    fn next(&mut self) -> u64 {
        self.0 = self.0.wrapping_mul(6364136223846793005).wrapping_add(1442695040888963407);
        self.0 >> 33
    }

    fn below(&mut self, n: u64) -> u64 {
        self.next() % n
    }
}

/// The record of a glyph, written straight to a bit writer.
fn plain_record(g: &U8g2Glyph, h: &U8g2Header, no_jump: bool) -> Vec<u8> {
    let mut bits: BitWriter<Vec<u8>, LittleEndian> = BitWriter::new(Vec::new());
    let jump_pos = match g.unicode {
        Unicode::Single(c) => {
            bits.write(8, c).unwrap();
            1
        }
        Unicode::Double(c) => {
            bits.write(16, c.swap_bytes()).unwrap();
            2
        }
    };
    bits.write(8, 0u8).unwrap();
    fn sign(bits: u32, v: i32) -> u32 {
        (v as u32).wrapping_add(1 << (bits - 1))
    }
    let bpcx = h.bits_per_char_x as u32;
    let bpcy = h.bits_per_char_y as u32;
    let bpadv = h.bits_per_advance as u32;
    bits.write(h.bits_per_char_width as u32, g.width).unwrap();
    bits.write(h.bits_per_char_height as u32, g.height).unwrap();
    bits.write(bpcx, sign(bpcx, g.offset_x)).unwrap();
    bits.write(bpcy, sign(bpcy, g.offset_y)).unwrap();
    bits.write(bpadv, sign(bpadv, g.advance)).unwrap();
    for &((zeros, ones), repeat) in g.bitmap.iter() {
        bits.write(h.bits_per_0 as u32, zeros).unwrap();
        bits.write(h.bits_per_1 as u32, ones).unwrap();
        for _ in 0..repeat {
            bits.write_bit(true).unwrap();
        }
        bits.write_bit(false).unwrap();
    }
    bits.write(7, 0u8).unwrap();
    let mut bytes = bits.into_writer();
    if !no_jump {
        bytes[jump_pos] = bytes.len().try_into().unwrap();
    }
    bytes
}

fn unsigned(r: &mut Random, bits: u8) -> u32 {
    r.below(1u64 << bits) as u32
}

fn signed(r: &mut Random, bits: u8) -> i32 {
    (r.below(1u64 << bits) as i64 - (1i64 << (bits - 1))) as i32
}

#[test]
fn records_match_plain_writing() {
    let mut r = Random(7);
    for round in 0..2000 {
        let h = U8g2Header {
            glyph_cnt: 0,
            bbx_mode: 1,
            bits_per_0: 1 + r.below(6) as u8,
            bits_per_1: 1 + r.below(6) as u8,
            bits_per_char_width: r.below(9) as u8,
            bits_per_char_height: r.below(9) as u8,
            bits_per_char_x: 1 + r.below(9) as u8,
            bits_per_char_y: 1 + r.below(9) as u8,
            bits_per_advance: 1 + r.below(9) as u8,
            max_char_width: 0,
            max_char_height: 0,
            x_offset: 0,
            y_offset: 0,
            ascent_a: 0,
            descent_g: 0,
            ascent_para: 0,
            descent_para: 0,
            start_pos_upper_a: 0,
            start_pos_lower_a: 0,
            start_pos_unicode: 0,
        };
        let unicode = if round % 2 == 0 {
            Unicode::Single(r.below(256) as u8)
        } else {
            Unicode::Double(r.below(65536) as u16)
        };
        let entries = r.below(12) as usize;
        let g = U8g2Glyph {
            unicode,
            width: unsigned(&mut r, h.bits_per_char_width),
            height: unsigned(&mut r, h.bits_per_char_height),
            offset_x: signed(&mut r, h.bits_per_char_x),
            offset_y: signed(&mut r, h.bits_per_char_y),
            advance: signed(&mut r, h.bits_per_advance),
            bitmap: (0..entries)
                .map(|_| {
                    let zeros = unsigned(&mut r, h.bits_per_0);
                    let ones = unsigned(&mut r, h.bits_per_1);
                    ((zeros, ones), r.below(5) as u32)
                })
                .collect(),
        };
        assert_eq!(g.validate(&h), Ok(()));
        for no_jump in [false, true] {
            assert_eq!(g.to_bytes(&h, no_jump), Ok(plain_record(&g, &h, no_jump)));
        }
    }
}

#[test]
fn fields_match_plain_bit_packing() {
    let mut r = Random(99);
    for _ in 0..500 {
        let mut w = LeBitWriter::new();
        let mut bits: Vec<bool> = Vec::new();
        for _ in 0..r.below(20) {
            match r.below(4) {
                0 => {
                    let width = r.below(41) as u8;
                    let value = if width >= 32 { r.next() as u32 } else { unsigned(&mut r, width) };
                    w.put_unsigned(Field::CharWidth, width, value).unwrap();
                    bits.extend((0..width).map(|i| i < 32 && (value >> i) & 1 == 1));
                }
                1 => {
                    let width = 1 + r.below(40) as u8;
                    let value = if width >= 32 {
                        r.next() as u32 as i32
                    } else {
                        signed(&mut r, width)
                    };
                    w.put_biased(Field::CharX, width, value).unwrap();
                    let biased = value as i128 + (1i128 << (width - 1));
                    bits.extend((0..width).map(|i| (biased >> i) & 1 == 1));
                }
                2 => {
                    let count = r.below(20) as u32;
                    w.put_unary(count);
                    bits.extend((0..count).map(|_| true));
                    bits.push(false);
                }
                _ => {
                    let byte = r.below(256) as u8;
                    w.put_byte(byte);
                    bits.extend((0..8).map(|i| (byte >> i) & 1 == 1));
                }
            }
        }
        let mut expected = vec![0u8; (bits.len() + 7) / 8];
        for (i, bit) in bits.iter().enumerate() {
            if *bit {
                expected[i / 8] |= 1 << (i % 8);
            }
        }
        assert_eq!(w.finish(), expected);
    }
}
