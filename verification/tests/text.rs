use transfer_plan::text::{
    chars_of, decimal_text, is_white, join_texts, lower_equals, parse_number, same_text,
    split_lines, split_words, string_of, text_begins, trim,
};

const SAMPLES: [&str; 22] = [
    "", " ", "a", " a ", "\t a b\u{a0}", "\u{3000}x\u{2003}", "a\nb", "a\r\nb\r\n", "\n", "\r\n",
    "a\n\nb", "a\r", "a\rb\n", "  one  two\tthree ", "\u{85}q", "x\u{200b}y", "no newline\n ",
    "\u{1680}", "é è\u{2028}ê", "\u{feff}a", "a \u{205f}b", "last\r\n\r\n",
];

fn strings(parts: Vec<Vec<char>>) -> Vec<String> {
    parts.iter().map(string_of).collect()
}

#[test]
fn characters_come_back() {
    for s in SAMPLES {
        assert_eq!(string_of(&chars_of(s)), s);
    }
}

#[test]
fn white_space_is_that_of_the_standard_library() {
    for n in 0..0x11_0000u32 {
        if let Some(c) = char::from_u32(n) {
            assert_eq!(is_white(c), c.is_whitespace());
        }
    }
}

#[test]
fn trimming_words_and_lines_are_those_of_the_standard_library() {
    for s in SAMPLES {
        let chars = chars_of(s);
        assert_eq!(string_of(&trim(&chars)), s.trim());
        let words: Vec<&str> = s.split_whitespace().collect();
        assert_eq!(strings(split_words(&chars)), words);
        let lines: Vec<&str> = s.lines().collect();
        assert_eq!(strings(split_lines(&chars)), lines, "{:?}", s);
    }
}

#[test]
fn numbers_are_those_of_the_standard_library() {
    for s in [
        "", "+", "-", "0", "+0", "-0", "007", "42", "+42", "4 2", "a", "1a", "255", "256", "300",
        "4294967295", "4294967296", "18446744073709551615", "18446744073709551616", "++1", "١",
    ] {
        assert_eq!(parse_number(&chars_of(s), u64::MAX), s.parse::<u64>().ok(), "{:?}", s);
        let small = parse_number(&chars_of(s), u8::MAX as u64);
        assert_eq!(small, s.parse::<u8>().ok().map(u64::from), "{:?}", s);
    }
}

#[test]
fn a_written_number_reads_back() {
    for n in [0u64, 9, 10, 99, 100, 12345, u64::MAX] {
        assert_eq!(decimal_text(n as u128), n.to_string());
        assert_eq!(parse_number(&chars_of(&decimal_text(n as u128)), u64::MAX), Some(n));
    }
    assert_eq!(decimal_text(u128::MAX), u128::MAX.to_string());
}

#[test]
fn texts_compare() {
    assert!(same_text("abc", "abc"));
    assert!(!same_text("abc", "abd"));
    assert!(!same_text("abc", "abcd"));
    assert!(lower_equals(&chars_of("OuI"), "oui"));
    assert!(!lower_equals(&chars_of("OuÏ"), "ouï"));
    assert!(text_begins("/dev/sda1", "/dev/"));
    assert!(!text_begins("/de", "/dev/"));
    assert_eq!(join_texts(&vec![], "-"), "");
    assert_eq!(join_texts(&vec!["a".to_string(), "b".to_string()], " | "), "a | b");
}
