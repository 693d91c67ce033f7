use inferno_aoip::byte_utils::{
    copy_to_buffer, is_str_readable, make_u16, make_u32, read_0term_str_from_buffer, write_str_to_buffer, ReadStrError,
    H, L,
};
use inferno_aoip::common::{position_of_clock, wrapped_diff};
use inferno_aoip::text::{
    are_bytes_less, decimal_of_two_string, decimal_string, insert_sorted, is_text_less, parse_number,
};

#[test]
fn words_are_split_and_joined() {
    assert_eq!(H(0x1234), 0x12);
    assert_eq!(L(0x1234), 0x34);
    assert_eq!(make_u16(0x12, 0x34), 0x1234);
    assert_eq!(make_u32(0x12, 0x34, 0x56, 0x78), 0x1234_5678);
    assert_eq!(make_u32(0xff, 0, 0, 1), 0xff00_0001);
}

#[test]
fn bytes_are_copied_to_their_place() {
    let mut buffer = [9u8; 5];
    copy_to_buffer(&mut buffer, 1, &[1, 2, 3]);
    assert_eq!(buffer, [9, 1, 2, 3, 9]);
    copy_to_buffer(&mut buffer, 5, &[]);
    assert_eq!(buffer, [9, 1, 2, 3, 9]);
}

#[test]
fn strings_are_written_with_a_limit() {
    let mut buffer = [9u8; 8];
    write_str_to_buffer(&mut buffer, 1, 5, "abc");
    assert_eq!(buffer, [9, b'a', b'b', b'c', 9, 9, 9, 9]);
    let mut buffer = [9u8; 8];
    write_str_to_buffer(&mut buffer, 1, 3, "abcdef");
    assert_eq!(buffer, [9, b'a', b'b', b'c', 9, 9, 9, 9]);
}

#[test]
fn written_string_is_read_back() {
    let mut buffer = [0u8; 32];
    write_str_to_buffer(&mut buffer, 4, 28, "za\u{17c}\u{f3}\u{142}\u{107}");
    assert!(is_str_readable(&buffer, 4));
    assert_eq!(read_0term_str_from_buffer(&buffer, 4), Ok("za\u{17c}\u{f3}\u{142}\u{107}"));
}

#[test]
fn string_ends_at_zero() {
    assert_eq!(read_0term_str_from_buffer(b"abc\0", 1), Ok("bc"));
    assert_eq!(read_0term_str_from_buffer(b"abc\0def\0", 4), Ok("def"));
    assert_eq!(read_0term_str_from_buffer(b"abc\0", 3), Ok(""));
    assert_eq!(read_0term_str_from_buffer(b"abc", 0), Ok("abc"));
}

#[test]
fn string_after_the_end_is_an_error() {
    assert!(is_str_readable(b"abc", 3));
    assert_eq!(read_0term_str_from_buffer(b"abc", 3), Err(ReadStrError::UnexpectedEof));
    assert_eq!(read_0term_str_from_buffer(b"abc", 100), Err(ReadStrError::UnexpectedEof));
    assert_eq!(read_0term_str_from_buffer(b"", 0), Err(ReadStrError::UnexpectedEof));
}

#[test]
fn unterminated_string_inside_is_not_readable() {
    assert!(!is_str_readable(b"abc", 1));
    assert!(is_str_readable(b"abc", 0));
    assert!(is_str_readable(b"abc\0", 1));
}

#[test]
fn invalid_utf8_is_an_error() {
    assert_eq!(read_0term_str_from_buffer(&[0xff, 0xfe, 0], 0), Err(ReadStrError::InvalidUtf8));
}

#[test]
fn clocks_wrap_around() {
    assert_eq!(wrapped_diff(5, 3), 2);
    assert_eq!(wrapped_diff(3, 5), -2);
    assert_eq!(wrapped_diff(1, u64::MAX), 2);
    assert_eq!(wrapped_diff(u64::MAX, 1), -2);
    assert_eq!(wrapped_diff(1 << 63, 0), i64::MIN);
    assert_eq!(position_of_clock(12345), 12345);
}

#[test]
fn numbers_are_written_in_decimal() {
    assert_eq!(decimal_string(0), "0");
    assert_eq!(decimal_string(9), "9");
    assert_eq!(decimal_string(10), "10");
    assert_eq!(decimal_string(1234567890), "1234567890");
    assert_eq!(decimal_string(u64::MAX), "18446744073709551615");
    assert_eq!(decimal_of_two_string(1), "01");
    assert_eq!(decimal_of_two_string(12), "12");
    assert_eq!(decimal_of_two_string(123), "123");
}

#[test]
fn numbers_are_parsed() {
    assert_eq!(parse_number(b"48000", 10, u32::MAX as u64), Some(48000));
    assert_eq!(parse_number(b"+48000", 10, u32::MAX as u64), "+48000".parse::<u32>().ok().map(|n| n as u64));
    assert_eq!(parse_number(b"ff", 16, 255), Some(255));
    assert_eq!(parse_number(b"FF", 16, 255), Some(255));
    assert_eq!(parse_number(b"100", 16, 255), None);
    assert_eq!(parse_number(b"65536", 10, 65535), None);
    assert_eq!(parse_number(b"", 10, 65535), None);
    assert_eq!(parse_number(b"+", 10, 65535), None);
    assert_eq!(parse_number(b"-1", 10, 65535), None);
    assert_eq!(parse_number(b"12x", 10, 65535), None);
    assert_eq!(parse_number(b"18446744073709551616", 10, u64::MAX), None);
}

#[test]
fn written_number_is_parsed_back() {
    for n in [0u64, 7, 10, 99, 100, 65535, 1 << 40, u64::MAX] {
        assert_eq!(parse_number(decimal_string(n).as_bytes(), 10, u64::MAX), Some(n));
    }
}

#[test]
fn texts_are_ordered_as_their_bytes() {
    assert!(is_text_less("a", "b"));
    assert!(is_text_less("a", "aa"));
    assert!(!is_text_less("b", "aa"));
    assert!(!is_text_less("a", "a"));
    assert!(is_text_less("", "a"));
    assert!(are_bytes_less(&[1, 2], &[1, 3]));
    assert!(!are_bytes_less(&[1, 3], &[1, 2, 9]));
    for (a, b) in [("z", "\u{17c}"), ("Zed", "abc"), ("x1", "x10")] {
        assert_eq!(is_text_less(a, b), a < b);
        assert_eq!(is_text_less(b, a), b < a);
    }
}

#[test]
fn texts_are_kept_sorted_without_repetition() {
    let mut texts: Vec<String> = Vec::new();
    for t in ["m", "a", "z", "m", "b"] {
        insert_sorted(&mut texts, &t.to_string());
    }
    assert_eq!(texts, vec!["a", "b", "m", "z"]);
}
