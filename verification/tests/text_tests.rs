use git_branch_weight::text::{
    chars_of, ends_with, first_token, is_whitespace, parse_u64, same_text, split_lines,
    split_whitespace, starts_with, text_of,
};

fn samples() -> Vec<&'static str> {
    vec![
        "",
        " ",
        "a",
        "abc def",
        "  leading and trailing  ",
        "tabs\tand\nnewlines\r\nmixed",
        "refs/heads/main 0123456789abcdef",
        "one\u{00A0}two\u{3000}three\u{2003}four",
        "\u{0085}next\u{1680}line\u{2028}sep\u{2029}para\u{202F}narrow\u{205F}math",
        "no-break\u{200B}zero-width stays",
        "\u{000B}vertical\u{000C}form",
        "日本語 ブランチ",
        "x\n",
        "\n",
        "\n\n",
        "a\n\nb",
        "a\r\nb\r\n",
        "a\rb",
        "last\r",
        "\r\n",
        "\r",
        "a\r\r\nb",
    ]
}

#[test]
fn whitespace_is_what_the_standard_library_says() {
    for code in 0..0x11_0000u32 {
        if let Some(c) = char::from_u32(code) {
            assert_eq!(is_whitespace(c), c.is_whitespace(), "U+{:04X}", code);
        }
    }
}

#[test]
fn tokens_are_what_the_standard_library_splits() {
    for sample in samples() {
        let expected: Vec<String> = sample.split_whitespace().map(|t| t.to_string()).collect();
        assert_eq!(split_whitespace(sample), expected, "{:?}", sample);
        assert_eq!(first_token(sample), expected.first().cloned(), "{:?}", sample);
    }
}

#[test]
fn split_whitespace_of_a_probe_line() {
    assert_eq!(
        split_whitespace("0123abcd blob 42"),
        vec!["0123abcd".to_string(), "blob".to_string(), "42".to_string()]
    );
    assert!(split_whitespace(" \t ").is_empty());
}

#[test]
fn first_token_of_a_line() {
    assert_eq!(first_token("  abc123 path with spaces"), Some("abc123".to_string()));
    assert_eq!(first_token("single"), Some("single".to_string()));
    assert_eq!(first_token("   "), None);
    assert_eq!(first_token(""), None);
}

#[test]
fn lines_are_what_the_standard_library_splits() {
    for sample in samples() {
        let expected: Vec<String> = sample.lines().map(|t| t.to_string()).collect();
        assert_eq!(split_lines(sample), expected, "{:?}", sample);
    }
}

#[test]
fn split_lines_strips_line_endings() {
    assert_eq!(split_lines("a\r\nb\n"), vec!["a".to_string(), "b".to_string()]);
    assert_eq!(split_lines("a\n\nb"), vec!["a".to_string(), "".to_string(), "b".to_string()]);
    assert_eq!(split_lines("tail\r"), vec!["tail\r".to_string()]);
    assert!(split_lines("").is_empty());
}

#[test]
fn numbers_are_what_the_standard_library_reads() {
    let texts = [
        "0",
        "7",
        "42",
        "007",
        "+5",
        "+",
        "",
        "-1",
        "-0",
        "++1",
        "1+",
        "12a",
        "a12",
        " 12",
        "12 ",
        "1_000",
        "0x10",
        "１２",
        "18446744073709551615",
        "18446744073709551616",
        "18446744073709551625",
        "184467440737095516150",
        "99999999999999999999",
        "+18446744073709551615",
        "000000000000000000000000018446744073709551615",
    ];
    for text in texts {
        assert_eq!(parse_u64(text), text.parse::<u64>().ok(), "{:?}", text);
    }
}

#[test]
fn parse_u64_reads_decimal_numbers() {
    assert_eq!(parse_u64("1024"), Some(1024));
    assert_eq!(parse_u64("+17"), Some(17));
    assert_eq!(parse_u64("18446744073709551615"), Some(u64::MAX));
    assert_eq!(parse_u64("18446744073709551616"), None);
    assert_eq!(parse_u64(""), None);
    assert_eq!(parse_u64("12x"), None);
}

#[test]
fn chars_and_text_round_trip() {
    let chars = chars_of("héllo wörld");
    assert_eq!(chars.len(), 11);
    assert_eq!(chars[1], 'é');
    assert_eq!(text_of(&chars, 0, chars.len()), "héllo wörld");
    assert_eq!(text_of(&chars, 6, 11), "wörld");
    assert_eq!(text_of(&chars, 3, 3), "");
}

#[test]
fn same_text_compares_characters() {
    assert!(same_text("blob", "blob"));
    assert!(!same_text("blob", "blo"));
    assert!(!same_text("blob", "tree"));
    assert!(same_text("", ""));
}

#[test]
fn prefixes_and_suffixes() {
    let text = chars_of("refs/remotes/origin/HEAD");
    assert!(starts_with(&text, &chars_of("refs/remotes/")));
    assert!(!starts_with(&text, &chars_of("refs/heads/")));
    assert!(starts_with(&text, &chars_of("")));
    assert!(!starts_with(&chars_of("re"), &chars_of("refs")));
    assert!(ends_with(&text, &chars_of("/HEAD")));
    assert!(!ends_with(&text, &chars_of("/head")));
    assert!(ends_with(&text, &chars_of("")));
    assert!(!ends_with(&chars_of("AD"), &chars_of("/HEAD")));
}
