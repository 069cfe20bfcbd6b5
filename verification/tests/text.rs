use rust_https_server::text::{
    chars_of, contains, decimal_string, find, parse_usize, same, spells, split_at_each,
    split_words, string_of, to_ascii_lower, trimmed, white_space, without_leading,
    without_trailing,
};

fn chars(text: &str) -> Vec<char> {
    text.chars().collect()
}

fn strings(pieces: Vec<&[char]>) -> Vec<String> {
    pieces.into_iter().map(|p| p.iter().collect()).collect()
}

#[test]
fn white_space_is_what_the_standard_library_calls_so() {
    let mut code: u32 = 0;
    while code <= 0x10ffff {
        if let Some(c) = char::from_u32(code) {
            assert_eq!(white_space(c), c.is_whitespace(), "for U+{:04X}", code);
        }
        code += 1;
    }
}

#[test]
fn trimming_and_splitting_agree_with_the_standard_library() {
    let samples = [
        "",
        " ",
        "a",
        "  a b  ",
        "\t\r\n x \u{a0}\u{3000}",
        "GET / HTTP/1.1",
        "\u{2003}one\u{2003}\u{2003}two three\n",
        "no-space",
        "   ",
    ];
    for sample in samples {
        let v = chars(sample);
        assert_eq!(string_of(trimmed(&v)), sample.trim());
        let words: Vec<String> = sample.split_whitespace().map(|w| w.to_string()).collect();
        assert_eq!(strings(split_words(&v)), words);
        assert_eq!(string_of(without_trailing(&v, ' ')), sample.trim_end_matches(' '));
        assert_eq!(string_of(without_leading(&v, ' ')), sample.trim_start_matches(' '));
        let pieces: Vec<String> = sample.split(' ').map(|w| w.to_string()).collect();
        assert_eq!(strings(split_at_each(&v, ' ')), pieces);
        assert_eq!(chars_of(sample), v);
        assert_eq!(find(&v, 'a'), sample.chars().position(|c| c == 'a'));
        assert_eq!(contains(&v, &chars("a b")), sample.contains("a b"));
        assert_eq!(contains(&v, &[]), true);
        let lower: String = to_ascii_lower(&v).into_iter().collect();
        assert_eq!(lower, sample.to_ascii_lowercase());
        assert!(spells(&v, sample));
        assert!(same(&v, &chars(sample)));
    }
    assert!(!spells(&chars("abc"), "abd"));
    assert!(!same(&chars("abc"), &chars("ab")));
}

#[test]
fn numbers_are_read_as_the_standard_library_reads_them() {
    let samples = [
        "0", "7", "42", "007", "+5", "+", "", "-1", " 1", "1 ", "12a", "++1", "18446744073709551615",
        "18446744073709551616", "99999999999999999999999", "4294967295", "4294967296",
        "\u{661}", "1_000",
    ];
    for sample in samples {
        assert_eq!(parse_usize(&chars(sample)), sample.parse::<usize>().ok(), "for {:?}", sample);
    }
    for n in [0usize, 1, 9, 10, 11, 99, 100, 12345, usize::MAX - 1, usize::MAX] {
        assert_eq!(decimal_string(n), n.to_string());
        assert_eq!(parse_usize(&chars(&decimal_string(n))), Some(n));
    }
}
