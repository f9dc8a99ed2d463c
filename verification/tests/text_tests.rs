use env_manager::text::{
    chars_of, concat2, concat3, contains_string, ends_with, owned, parse_u64, same_text,
    sort_strings, str_le, trim, white_space,
};

#[test]
fn chars_of_lists_characters() {
    assert_eq!(chars_of("a中b"), vec!['a', '中', 'b']);
    assert_eq!(chars_of(""), Vec::<char>::new());
}

#[test]
fn concatenation_joins_in_order() {
    assert_eq!(concat2("ab", "cd"), "abcd");
    assert_eq!(concat3("已将 ", "JAVA_HOME", " 设为 "), "已将 JAVA_HOME 设为 ");
    assert_eq!(owned("x"), "x");
}

#[test]
fn same_text_compares_characters() {
    assert!(same_text("java", "java"));
    assert!(!same_text("java", "Java"));
    assert!(!same_text("go", "go "));
}

#[test]
fn white_space_matches_std() {
    for c in ['\t', '\n', '\u{b}', '\u{c}', '\r', ' ', '\u{85}', '\u{a0}', '\u{1680}', '\u{2000}',
        '\u{200a}', '\u{2028}', '\u{2029}', '\u{202f}', '\u{205f}', '\u{3000}', 'a', '0', '\u{200b}',
        '\u{feff}', '中']
    {
        assert_eq!(white_space(c), c.is_whitespace(), "{:?}", c);
    }
}

#[test]
fn trim_matches_std_trim() {
    let cases = [
        " java\t",
        "java",
        "",
        "   ",
        "\u{3000}go\u{a0}",
        "\u{200b}x\u{200b}",
        " a b ",
        "\n\rscala\n",
    ];
    for s in cases {
        assert_eq!(trim(s), s.trim(), "{:?}", s);
    }
}

#[test]
fn ends_with_tests_suffixes() {
    assert!(ends_with("jdk.tar.gz", ".tar.gz"));
    assert!(ends_with("x", ""));
    assert!(!ends_with("gz", ".tar.gz"));
    assert!(!ends_with("jdk.zip", ".tgz"));
    assert!(ends_with("中文.zip", ".zip"));
}

#[test]
fn parse_u64_exact_values() {
    assert_eq!(parse_u64("123"), Some(123));
    assert_eq!(parse_u64("+5"), Some(5));
    assert_eq!(parse_u64("007"), Some(7));
    assert_eq!(parse_u64("18446744073709551615"), Some(u64::MAX));
    assert_eq!(parse_u64("18446744073709551616"), None);
    assert_eq!(parse_u64("99999999999999999999x"), None);
    assert_eq!(parse_u64(""), None);
    assert_eq!(parse_u64("+"), None);
    assert_eq!(parse_u64("-1"), None);
    assert_eq!(parse_u64("-0"), None);
    assert_eq!(parse_u64(" 1"), None);
    assert_eq!(parse_u64("1a"), None);
    assert_eq!(parse_u64("++1"), None);
}

#[test]
fn parse_u64_agrees_with_std() {
    let cases = [
        "0", "1", "+0", "42", "65536", "4294967296", "18446744073709551614", "18446744073709551615",
        "18446744073709551616", "184467440737095516150", "", "+", "-", "-5", "1 ", "١٢", "0x10", "1_000",
    ];
    for s in cases {
        assert_eq!(parse_u64(s), s.parse::<u64>().ok(), "{:?}", s);
    }
}

#[test]
fn str_le_agrees_with_std_order() {
    let words = ["", "a", "ab", "b", "B", "jdk-8", "jdk-17", "jdk-21", "中", "ä", "z"];
    for a in words {
        for b in words {
            assert_eq!(str_le(a, b), a <= b, "{:?} {:?}", a, b);
        }
    }
}

#[test]
fn sort_strings_matches_std_sort() {
    let input: Vec<String> = ["jdk-21", "jdk-17", "jdk-8", "go1.22", "jdk-17", "中文", "A"]
        .iter()
        .map(|s| s.to_string())
        .collect();
    let mut expected = input.clone();
    expected.sort();
    assert_eq!(sort_strings(input), expected);
    assert_eq!(sort_strings(Vec::new()), Vec::<String>::new());
}

#[test]
fn contains_string_finds_equal_text() {
    let v = vec!["jdk-17".to_string(), "jdk-21".to_string()];
    assert!(contains_string(&v, "jdk-21"));
    assert!(!contains_string(&v, "jdk-2"));
    assert!(!contains_string(&Vec::new(), ""));
}

