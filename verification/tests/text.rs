use wsrx::text::{
    chars_of, contains, hex_text, parse_port, port_text, same_text, split_at_last, text_of,
    to_lowercase, trim,
};

#[test]
fn ports_as_decimal_numbers() {
    assert_eq!(parse_port("0"), Some(0));
    assert_eq!(parse_port("80"), Some(80));
    assert_eq!(parse_port("+443"), Some(443));
    assert_eq!(parse_port("00022"), Some(22));
    assert_eq!(parse_port("65535"), Some(65_535));
    assert_eq!(parse_port("65536"), None);
    assert_eq!(parse_port("99999999999999999999"), None);
    for text in ["", "+", "-1", " 80", "80 ", "8_0", "0x50", "++1", "٣"] {
        assert_eq!(parse_port(text), None);
        assert!(text.parse::<u16>().is_err());
    }
    for port in [0u16, 7, 10, 99, 100, 8080, 65_535] {
        assert_eq!(port_text(port), port.to_string());
        assert_eq!(parse_port(&port_text(port)), Some(port));
    }
}

#[test]
fn trimming_follows_unicode() {
    assert_eq!(trim("  a b\t\n"), "a b");
    assert_eq!(trim("\u{3000}\u{a0}x\u{2003}"), "x");
    assert_eq!(trim("\u{200b}x"), "\u{200b}x");
    assert_eq!(trim(" \r\n "), "");
    assert_eq!(trim(""), "");
}

#[test]
fn every_white_space_character_is_trimmed() {
    for code in 0..=0x3100u32 {
        if let Some(c) = char::from_u32(code) {
            assert_eq!(wsrx::text::space(c), c.is_whitespace());
            assert_eq!(wsrx::text::alphanumeric(c), c.is_ascii_alphanumeric());
        }
    }
}

#[test]
fn lower_case_of_ascii_alone() {
    assert_eq!(to_lowercase("LAB.Example-9"), "lab.example-9");
    assert_eq!(to_lowercase("ÄZ"), "Äz");
}

#[test]
fn splitting_at_the_last_separator() {
    assert_eq!(split_at_last("a:b:c", ':'), Some(("a:b".to_string(), "c".to_string())));
    assert_eq!(split_at_last(":", ':'), Some((String::new(), String::new())));
    assert_eq!(split_at_last("abc", ':'), None);
    assert_eq!(split_at_last("", ':'), None);
}

#[test]
fn finding_a_part_of_a_text() {
    assert!(contains("abcabd", "abd"));
    assert!(contains("abc", ""));
    assert!(contains("", ""));
    assert!(contains("äöü", "öü"));
    assert!(!contains("ab", "abc"));
    assert!(!contains("abcab", "abd"));
}

#[test]
fn characters_and_texts() {
    let chars = chars_of("aß字");
    assert_eq!(chars, vec!['a', 'ß', '字']);
    assert_eq!(text_of(&chars, 1, 3), "ß字");
    assert!(same_text("aß", "aß"));
    assert!(!same_text("a", "b"));
}

#[test]
fn hexadecimal_digits() {
    assert_eq!(hex_text(0, 16), "0000000000000000");
    assert_eq!(hex_text(0xdead_beef, 16), "00000000deadbeef");
    assert_eq!(hex_text(u64::MAX, 16), "ffffffffffffffff");
    assert_eq!(hex_text(0x1234, 2), "34");
}
