use registrobr_finder::text::{
    before_first, decimal_string, find_from, is_space_char, signed_decimal_string, trimmed_part,
    write_digits,
};

#[test]
fn decimal_of_small_and_large_numbers() {
    assert_eq!(decimal_string(0), "0");
    assert_eq!(decimal_string(7), "7");
    assert_eq!(decimal_string(10), "10");
    assert_eq!(decimal_string(99), "99");
    assert_eq!(decimal_string(1296), "1296");
    assert_eq!(decimal_string(u64::MAX), "18446744073709551615");
    for n in 0..2000u64 {
        assert_eq!(decimal_string(n), n.to_string());
    }
}

#[test]
fn signed_decimal_has_a_minus_sign() {
    assert_eq!(signed_decimal_string(0), "0");
    assert_eq!(signed_decimal_string(42), "42");
    assert_eq!(signed_decimal_string(-1), "-1");
    assert_eq!(signed_decimal_string(-120), "-120");
    assert_eq!(signed_decimal_string(i32::MAX), i32::MAX.to_string());
    assert_eq!(signed_decimal_string(i32::MIN), i32::MIN.to_string());
}

#[test]
fn digits_are_written_most_significant_first() {
    assert_eq!(write_digits("0123456789", &vec![3, 2, 1]), "123");
    assert_eq!(write_digits("abc", &vec![0, 2]), "ca");
    assert_eq!(write_digits("abc", &vec![]), "");
}

#[test]
fn prefix_before_a_character() {
    assert_eq!(before_first("2030-01-01T00:00:00", 'T'), "2030-01-01");
    assert_eq!(before_first("2030-01-01", 'T'), "2030-01-01");
    assert_eq!(before_first("", 'T'), "");
    assert_eq!(before_first("T", 'T'), "");
    assert_eq!(before_first("aTbTc", 'T'), "a");
    assert_eq!(before_first("\u{e9}t\u{e9}Tx", 'T'), "\u{e9}t\u{e9}");
}

#[test]
fn find_from_gives_the_first_position() {
    assert_eq!(find_from("a,b,c", 0, ','), 1);
    assert_eq!(find_from("a,b,c", 1, ','), 1);
    assert_eq!(find_from("a,b,c", 2, ','), 3);
    assert_eq!(find_from("a,b,c", 4, ','), 5);
    assert_eq!(find_from("a,b,c", 5, ','), 5);
    assert_eq!(find_from("", 0, ','), 0);
}

#[test]
fn white_space_characters() {
    for c in [' ', '\t', '\n', '\r', '\u{b}', '\u{c}', '\u{85}', '\u{a0}', '\u{3000}'] {
        assert!(is_space_char(c));
    }
    for c in ['a', '0', ',', '.', '-', '\u{8}', '\u{e}', '\u{200b}', '\u{feff}'] {
        assert!(!is_space_char(c));
    }
    for code in 0..0x3100u32 {
        if let Some(c) = char::from_u32(code) {
            assert_eq!(is_space_char(c), c.is_whitespace());
        }
    }
}

#[test]
fn trimming_a_part() {
    assert_eq!(trimmed_part("  ab  ", 0, 6), "ab");
    assert_eq!(trimmed_part("  ab  ", 2, 4), "ab");
    assert_eq!(trimmed_part("  a b  ", 0, 7), "a b");
    assert_eq!(trimmed_part("     ", 0, 5), "");
    assert_eq!(trimmed_part("", 0, 0), "");
    assert_eq!(trimmed_part("ab, cd ,ef", 3, 7), "cd");
    assert_eq!(trimmed_part("\t\u{a0}x\u{3000}\n", 0, 5), "x");
    for s in ["", " ", "a", " a", "a ", " a b ", "\n\ta\r\n", "  \u{e9}  "] {
        assert_eq!(trimmed_part(s, 0, s.chars().count()), s.trim());
    }
}
