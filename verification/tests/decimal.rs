use anime_cli::decimal::{format_decimal, parse_decimal};
use anime_cli::text::{bytes_eq, same_text, scan_spaces, scan_word, scan_word_back, starts_with};

#[test]
fn decimal_reads_digits() {
    assert_eq!(parse_decimal(b"0"), Some(0));
    assert_eq!(parse_decimal(b"42"), Some(42));
    assert_eq!(parse_decimal(b"00042"), Some(42));
    assert_eq!(parse_decimal(b"18446744073709551615"), Some(u64::MAX));
}

#[test]
fn decimal_refuses_what_is_no_number() {
    assert_eq!(parse_decimal(b""), None);
    assert_eq!(parse_decimal(b"4 2"), None);
    assert_eq!(parse_decimal(b"-1"), None);
    assert_eq!(parse_decimal(b"12a"), None);
    assert_eq!(parse_decimal(b"18446744073709551616"), None);
    assert_eq!(parse_decimal(b"99999999999999999999999"), None);
}

#[test]
fn decimal_writes_digits() {
    assert_eq!(format_decimal(0), b"0".to_vec());
    assert_eq!(format_decimal(7), b"7".to_vec());
    assert_eq!(format_decimal(1024), b"1024".to_vec());
    assert_eq!(format_decimal(u64::MAX), b"18446744073709551615".to_vec());
}

#[test]
fn decimal_round_trip() {
    for n in [0u64, 1, 9, 10, 99, 100, 65535, 4294967296, u64::MAX] {
        assert_eq!(parse_decimal(&format_decimal(n)), Some(n));
    }
}

#[test]
fn words_are_found() {
    let line = b"  one two  ";
    assert_eq!(scan_spaces(line, 0), 2);
    assert_eq!(scan_word(line, 2), 5);
    assert_eq!(scan_spaces(line, 5), 6);
    assert_eq!(scan_word(line, 6), 9);
    assert_eq!(scan_spaces(line, 9), 11);
    assert_eq!(scan_word(line, 11), 11);
    assert_eq!(scan_word_back(line, 9), 6);
    assert_eq!(scan_word_back(line, 5), 2);
    assert_eq!(scan_word_back(b"word", 4), 0);
}

#[test]
fn scans_behind_the_end_stay_where_they_are() {
    assert_eq!(scan_word(b"ab", 5), 5);
    assert_eq!(scan_spaces(b"  ", 5), 5);
    assert_eq!(scan_word_back(b"ab", 5), 5);
    assert_eq!(scan_word(b"", 0), 0);
    assert_eq!(scan_word_back(b"", 0), 0);
}

#[test]
fn bytes_are_compared() {
    assert!(bytes_eq(b"abc", b"abc"));
    assert!(!bytes_eq(b"abc", b"abd"));
    assert!(!bytes_eq(b"abc", b"ab"));
    assert!(bytes_eq(b"", b""));
    assert!(starts_with(b"DCC SEND x", b"DCC SEND "));
    assert!(!starts_with(b"DCC", b"DCC SEND "));
    assert!(same_text("Success", "Success"));
    assert!(!same_text("Success", "success"));
}
