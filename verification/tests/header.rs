use convert_bdf::header::HEADER_SIZE;
use convert_bdf::U8g2Header;

fn sample() -> U8g2Header {
    U8g2Header {
        glyph_cnt: 3,
        bbx_mode: 1,
        bits_per_0: 2,
        bits_per_1: 3,
        bits_per_char_width: 5,
        bits_per_char_height: 6,
        bits_per_char_x: 4,
        bits_per_char_y: 7,
        bits_per_advance: 8,
        max_char_width: 9,
        max_char_height: 10,
        x_offset: -1,
        y_offset: -128,
        ascent_a: 127,
        descent_g: -2,
        ascent_para: 11,
        descent_para: -3,
        start_pos_upper_a: 0x0102,
        start_pos_lower_a: 0xfffe,
        start_pos_unicode: 0x00ff,
    }
}

#[test]
fn header_bytes_in_order() {
    assert_eq!(
        sample().to_bytes(),
        vec![
            3, 1, 2, 3, 5, 6, 4, 7, 8, 9, 10, 0xff, 0x80, 0x7f, 0xfe, 11, 0xfd, 0x01, 0x02, 0xff,
            0xfe, 0x00, 0xff
        ]
    );
}

#[test]
fn header_is_always_23_bytes() {
    assert_eq!(HEADER_SIZE, 23);
    assert_eq!(sample().to_bytes().len(), 23);
    let mut h = sample();
    for v in [0u8, 1, 127, 128, 255] {
        h.glyph_cnt = v;
        h.bits_per_advance = v;
        h.descent_para = v as i8;
        h.start_pos_unicode = v as u16 * 257;
        assert_eq!(h.to_bytes().len(), 23);
    }
}
