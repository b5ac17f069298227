use ultimattt_cli::text::{command_words, is_digit_char, is_whitespace_char, trim_end_string};

#[test]
fn whitespace_class_is_unicode_white_space() {
    for code in 0u32..=0x10FFFF {
        if let Some(c) = char::from_u32(code) {
            assert_eq!(is_whitespace_char(c), c.is_whitespace(), "char U+{:04X}", code);
        }
    }
}

#[test]
fn digit_class_is_ascii_digits() {
    for code in 0u32..0x3000 {
        if let Some(c) = char::from_u32(code) {
            assert_eq!(is_digit_char(c), c.is_ascii_digit(), "char U+{:04X}", code);
        }
    }
}

#[test]
fn words_match_split_whitespace() {
    for line in ["", "  ", "a", " a b  c ", "x\u{3000}y\tz\n", "one", "\u{85}lead"] {
        let expected: Vec<String> = line.split_whitespace().map(|s| s.to_owned()).collect();
        assert_eq!(command_words(line), expected, "line {:?}", line);
    }
}

#[test]
fn trim_matches_trim_end() {
    for line in ["", " ", "a", "a \n", " a", "a\u{3000}\u{a0}", "a b\r\n"] {
        assert_eq!(trim_end_string(line), line.trim_end(), "line {:?}", line);
    }
}
