use muffle::decimal::{decimal_string, parse_u32};
use muffle::text::{char_is_whitespace, chars_of, string_from};

#[test]
fn whitespace_matches_std_for_every_char() {
    for code in 0..=0x10FFFFu32 {
        if let Some(c) = char::from_u32(code) {
            assert_eq!(char_is_whitespace(c), c.is_whitespace(), "U+{code:04X}");
        }
    }
}

#[test]
fn chars_and_substrings() {
    let chars = chars_of("héllo wörld");
    assert_eq!(chars.len(), 11);
    assert_eq!(string_from(&chars, 1, 5), "éllo");
    assert_eq!(string_from(&chars, 3, 3), "");
}

#[test]
fn parse_u32_matches_std() {
    let samples = [
        "", "0", "7", "42", "+42", "-42", "+", "-", "++1", "007", "4294967295", "4294967296",
        "99999999999999999999", "12a", " 1", "1 ", "٣", "+0", "00000000000000000000001",
    ];
    for s in samples {
        assert_eq!(parse_u32(s), s.parse::<u32>().ok(), "{s:?}");
    }
}

#[test]
fn decimal_string_matches_to_string() {
    for n in [0u32, 1, 9, 10, 11, 99, 100, 12345, 4294967295] {
        assert_eq!(decimal_string(n), n.to_string());
    }
}

#[test]
fn decimal_text_reads_back() {
    for n in [0u32, 5, 10, 65536, 4294967295] {
        assert_eq!(parse_u32(&decimal_string(n)), Some(n));
    }
}
