use pastry::id::text::ParseIdError;
use pastry::id::Id;
use std::cmp::Ordering;

#[test]
fn zero_is_all_zero_octets() {
    assert_eq!(Id::zero().octets(), [0u8; 8]);
    assert_eq!(Id::zero(), Id::new([0; 8]));
}

#[test]
fn new_keeps_the_octets() {
    let octets = [1, 2, 3, 4, 5, 6, 7, 8];
    assert_eq!(Id::new(octets).octets(), octets);
}

#[test]
fn from_value_is_big_endian() {
    assert_eq!(
        Id::from_value(0x0102_0304_0506_0708).octets(),
        [1, 2, 3, 4, 5, 6, 7, 8]
    );
    assert_eq!(Id::from_value(0), Id::zero());
    assert_eq!(Id::from_value(u64::MAX).octets(), [0xff; 8]);
}

#[test]
fn from_key_is_deterministic() {
    assert_eq!(Id::from_key("node"), Id::from_key("node"));
    assert_ne!(Id::from_key("node"), Id::from_key("target"));
    assert_eq!(Id::from_key("node"), Id::from_key("node".as_bytes()));
}

#[test]
fn digits_are_low_half_first() {
    let id = Id::new([0x21, 0x43, 0x65, 0x87, 0xa9, 0xcb, 0xed, 0x0f]);
    for i in 0..16 {
        assert_eq!(id.get_digit(i), ((i + 1) % 16) as u8);
    }
}

#[test]
fn digits_rebuild_the_octets() {
    let id = Id::from_key("some key");
    let octets = id.octets();
    for k in 0..8 {
        assert!(id.get_digit(2 * k) < 16);
        assert!(id.get_digit(2 * k + 1) < 16);
        assert_eq!(octets[k], id.get_digit(2 * k) | (id.get_digit(2 * k + 1) << 4));
    }
}

#[test]
fn distance_to_itself_is_zero() {
    let a = Id::from_key("a");
    assert_eq!(a.distance(&a), Id::zero());
    assert_eq!(Id::zero().distance(&Id::zero()), Id::zero());
}

#[test]
fn distance_wraps_around() {
    let one = Id::from_value(1);
    let two = Id::from_value(2);
    assert_eq!(two.distance(&one), one);
    assert_eq!(one.distance(&two), Id::from_value(u64::MAX));
    assert_eq!(Id::zero().distance(&one), Id::from_value(u64::MAX));
}

#[test]
fn distance_borrows_across_octets() {
    let a = Id::from_value(0x0100_0000_0000_0000);
    let b = Id::from_value(0x0000_0000_0000_ff01);
    assert_eq!(a.distance(&b), Id::from_value(0x00ff_ffff_ffff_00ff));
    let c = Id::from_value(0x0000_0000_0000_0100);
    assert_eq!(c.distance(&one_below(c)), Id::from_value(1));
}

fn one_below(id: Id) -> Id {
    id.distance(&Id::from_value(1))
}

#[test]
fn distance_agrees_with_wrapping_subtraction() {
    let values = [0u64, 1, 255, 256, 0x00ff_00ff_00ff_00ff, u64::MAX, 1 << 63];
    for a in values {
        for b in values {
            assert_eq!(
                Id::from_value(a).distance(&Id::from_value(b)),
                Id::from_value(a.wrapping_sub(b))
            );
        }
    }
}

#[test]
fn order_is_the_order_of_the_octets() {
    let small = Id::new([0, 0xff, 0xff, 0xff, 0xff, 0xff, 0xff, 0xff]);
    let large = Id::new([1, 0, 0, 0, 0, 0, 0, 0]);
    assert!(small < large);
    assert!(large > small);
    assert!(!(small < small));
    assert_eq!(small.partial_cmp(&large), Some(Ordering::Less));
    assert_eq!(large.partial_cmp(&small), Some(Ordering::Greater));
    assert_eq!(small.partial_cmp(&small), Some(Ordering::Equal));
    assert_eq!(small.cmp(&large), Ordering::Less);
    assert_eq!(small.cmp(&large), small.octets().cmp(&large.octets()));
}

#[test]
fn order_is_total_on_samples() {
    let values = [0u64, 1, 255, 256, 0x00ff_00ff_00ff_00ff, u64::MAX, 1 << 63];
    for a in values {
        for b in values {
            let (x, y) = (Id::from_value(a), Id::from_value(b));
            assert_eq!(x.partial_cmp(&y), Some(a.cmp(&b)));
            assert_eq!(x.cmp(&y), a.cmp(&b));
            assert_eq!(x < y, a < b);
            assert_eq!(x == y, a == b);
        }
    }
}

#[test]
fn parse_reads_digits_low_half_first() {
    let id = Id::from_str("2000-0000-0000-0000").unwrap();
    assert_eq!(id.octets(), [0x02, 0, 0, 0, 0, 0, 0, 0]);
    assert_eq!(id.get_digit(0), 2);
    assert_eq!(id.get_digit(1), 0);
    let id = Id::from_str("1234-5678-9abc-def0").unwrap();
    assert_eq!(id.octets(), [0x21, 0x43, 0x65, 0x87, 0xa9, 0xcb, 0xed, 0x0f]);
}

#[test]
fn parse_skips_separators_anywhere() {
    let plain = Id::from_str("0123456789abcdef").unwrap();
    assert_eq!(Id::from_str("0123-4567-89ab-cdef"), Ok(plain));
    assert_eq!(Id::from_str("-0-1-2-3456789abcdef--"), Ok(plain));
    assert_eq!(Id::from_str("0123456789ABCDEF"), Ok(plain));
}

#[test]
fn parse_rejects_bad_input() {
    assert_eq!(Id::from_str("2000-0000-0000-000"), Err(ParseIdError::InvalidLength));
    assert_eq!(Id::from_str("2000-0000-0000-00000"), Err(ParseIdError::InvalidLength));
    assert_eq!(Id::from_str(""), Err(ParseIdError::InvalidLength));
    assert_eq!(Id::from_str("----"), Err(ParseIdError::InvalidLength));
    assert_eq!(Id::from_str("2000-0000-0000-000g"), Err(ParseIdError::InvalidDigit));
    assert_eq!(Id::from_str("2000 0000 0000 0000"), Err(ParseIdError::InvalidDigit));
    assert_eq!(Id::from_str("g"), Err(ParseIdError::InvalidDigit));
    assert_eq!(Id::from_str("0123456789abcdef0z"), Err(ParseIdError::InvalidDigit));
    assert_eq!(Id::from_str("0123456789abcdé"), Err(ParseIdError::InvalidDigit));
}

#[test]
fn format_writes_sixteen_lower_case_digits() {
    assert_eq!(Id::zero().to_hex(), "0000000000000000");
    assert_eq!(
        Id::new([0x21, 0x43, 0x65, 0x87, 0xa9, 0xcb, 0xed, 0x0f]).to_hex(),
        "123456789abcdef0"
    );
}

#[test]
fn format_round_trip() {
    let id = Id::from_str("12AB-cdEF-0000-9f9F").unwrap();
    assert_eq!(id.to_hex(), "12abcdef00009f9f");
    for text in ["2000-0000-0000-0000", "FFFF-FFFF-FFFF-FFFF", "0a1B2c3D4e5F6071"] {
        let expected = text.replace('-', "").to_lowercase();
        assert_eq!(Id::from_str(text).unwrap().to_hex(), expected);
        assert_eq!(Id::from_str(&expected), Id::from_str(text));
    }
}
