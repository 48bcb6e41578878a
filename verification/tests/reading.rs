use puzzles::pulse::{self, BuildError};
use puzzles::text;

#[test]
fn parse_u64_reads_digits() {
    assert_eq!(text::parse_u64(b"0"), Some(0));
    assert_eq!(text::parse_u64(b"8675309"), Some(8675309));
    assert_eq!(text::parse_u64(b"18446744073709551615"), Some(u64::MAX));
    assert_eq!(text::parse_u64(b""), None);
    assert_eq!(text::parse_u64(b"12a"), None);
    assert_eq!(text::parse_u64(b"18446744073709551616"), None);
}

#[test]
fn parse_i64_reads_sign() {
    assert_eq!(text::parse_i64(b"42"), Some(42));
    assert_eq!(text::parse_i64(b"-42"), Some(-42));
    assert_eq!(text::parse_i64(b"-"), None);
    assert_eq!(text::parse_i64(b"x"), None);
}

#[test]
fn split_lines_drops_trailing_newline() {
    assert_eq!(text::split_lines(b"a\nbb\n").len(), 2);
    assert_eq!(text::split_lines(b"a\n\nbb").len(), 3);
    assert_eq!(text::split_lines(b"").len(), 0);
}

#[test]
fn empty_input_has_no_entry() {
    assert!(matches!(pulse::parse(""), Err(BuildError::MissingBroadcaster)));
}
