use v6header::bits::extract;
use v6header::hex::{hex_digit, push_word};
use v6header::text::{push_decimal, push_short_hex};

#[test]
fn hexadecimal_digits_are_read() {
    let digits = "0123456789abcdef";
    for (value, c) in digits.chars().enumerate() {
        assert_eq!(hex_digit(c), Some(value as u8));
        assert_eq!(hex_digit(c.to_ascii_uppercase()), Some(value as u8));
    }
}

#[test]
fn other_characters_are_no_digits() {
    for c in ['/', ':', '@', 'G', '`', 'g', ' ', '+', '-', 'x', '\u{e9}', '\u{ff11}', '\0'] {
        assert_eq!(hex_digit(c), None);
    }
}

#[test]
fn only_twenty_two_characters_are_digits() {
    let count = (0..=0x10ffffu32)
        .filter_map(char::from_u32)
        .filter(|c| hex_digit(*c).is_some())
        .count();
    assert_eq!(count, 22);
}

#[test]
fn fields_are_cut_by_shift_and_mask() {
    assert_eq!(extract(0x6abc_def0, 28, 4), 6);
    assert_eq!(extract(0x6abc_def0, 20, 8), 0xab);
    assert_eq!(extract(0x6abc_def0, 0, 20), 0xcdef0);
    assert_eq!(extract(0x1234_1140, 16, 16), 0x1234);
    assert_eq!(extract(0x1234_1140, 8, 8), 0x11);
    assert_eq!(extract(0x1234_1140, 0, 8), 0x40);
    assert_eq!(extract(0xffff_ffff, 31, 1), 1);
    assert_eq!(extract(0xffff_ffff, 0, 32), 0xffff_ffff);
}

#[test]
fn fields_at_the_edge_of_the_word() {
    assert_eq!(extract(0xffff_ffff, 32, 4), 0);
    assert_eq!(extract(0xffff_ffff, 40, 4), 0);
    assert_eq!(extract(0xffff_ffff, 28, 8), 0xf);
    assert_eq!(extract(0xffff_ffff, 4, 40), 0x0fff_ffff);
    assert_eq!(extract(0xffff_ffff, 4, 0), 0);
    assert_eq!(extract(0x8000_0000, 31, 32), 1);
}

#[test]
fn words_are_written_in_eight_digits() {
    let mut out = String::from(">");
    push_word(&mut out, 0);
    push_word(&mut out, 0x1);
    push_word(&mut out, 0xdead_beef);
    push_word(&mut out, 0xffff_ffff);
    push_word(&mut out, 0x0123_4567);
    assert_eq!(out, ">0000000000000001deadbeefffffffff01234567");
}

#[test]
fn decimal_numbers_are_written() {
    for n in [0u64, 1, 9, 10, 11, 99, 100, 255, 1_048_575, 65_535, u64::MAX] {
        let mut out = String::from("n=");
        push_decimal(&mut out, n);
        assert_eq!(out, format!("n={}", n));
    }
}

#[test]
fn groups_are_written_without_leading_zeros() {
    for n in [0u16, 1, 9, 0xa, 0xf, 0x10, 0xff, 0x100, 0xabc, 0x1000, 0xffff] {
        let mut out = String::from("g=");
        push_short_hex(&mut out, n);
        assert_eq!(out, format!("g={:x}", n));
    }
}
