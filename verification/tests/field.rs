use convert_bdf::field::{check_signed, check_unsigned};
use convert_bdf::writer::LeBitWriter;
use convert_bdf::Field;

/// The number that a field of at most 32 bits holds for `value`.
fn biased(value: i32, bits: u8) -> u32 {
    let mut w = LeBitWriter::new();
    w.put_biased(Field::CharX, bits, value).unwrap();
    let mut bytes = w.finish();
    bytes.resize(4, 0);
    u32::from_le_bytes([bytes[0], bytes[1], bytes[2], bytes[3]])
}

#[test]
fn bias_adds_half_the_range() {
    assert_eq!(biased(0, 4), 8);
    assert_eq!(biased(-8, 4), 0);
    assert_eq!(biased(7, 4), 15);
    assert_eq!(biased(-1, 1), 0);
    assert_eq!(biased(0, 1), 1);
    assert_eq!(biased(2, 7), 66);
    assert_eq!(biased(i32::MIN, 32), 0);
    assert_eq!(biased(i32::MAX, 32), u32::MAX);
}

#[test]
fn removing_the_bias_gives_the_number_back() {
    for bits in 1..=12u8 {
        let half: i64 = 1 << (bits - 1);
        for v in -half..half {
            assert!(check_signed(v as i32, bits));
            let u = biased(v as i32, bits);
            assert!(check_unsigned(u, bits));
            assert_eq!(u as i64 - half, v);
        }
        assert!(!check_signed(half as i32, bits));
        assert!(!check_signed((-half - 1) as i32, bits));
    }
}

#[test]
fn ranges_of_fields() {
    assert!(check_unsigned(0, 0));
    assert!(!check_unsigned(1, 0));
    assert!(check_unsigned(31, 5));
    assert!(!check_unsigned(32, 5));
    assert!(check_unsigned(u32::MAX, 32));
    assert!(!check_unsigned(u32::MAX, 31));
    assert!(check_unsigned(u32::MAX, 255));
    assert!(!check_signed(0, 0));
    assert!(check_signed(-1, 1));
    assert!(check_signed(0, 1));
    assert!(!check_signed(1, 1));
    assert!(check_signed(i32::MIN, 32));
    assert!(!check_signed(i32::MIN, 31));
    assert!(check_signed(i32::MAX, 200));
}
