use rag_core::text::{
    clone_texts, decimal_text, get_file_extension, parse_id, preprocess_text, same_text,
    signed_decimal_text, to_chars, whitespace,
};

#[test]
fn preprocess_trims_and_folds_newlines() {
    assert_eq!(preprocess_text("  hello\nworld \n"), "hello world");
}

#[test]
fn preprocess_keeps_inner_spaces_and_carriage_returns() {
    assert_eq!(preprocess_text("a  b"), "a  b");
    assert_eq!(preprocess_text("a\r\nb"), "a\r b");
    assert_eq!(preprocess_text("one\n\ntwo"), "one  two");
}

#[test]
fn preprocess_trims_unicode_whitespace() {
    assert_eq!(preprocess_text("\u{3000}a\u{00A0}"), "a");
    assert_eq!(preprocess_text("\u{2003}\t x \u{0085}\u{2028}"), "x");
}

#[test]
fn preprocess_of_blank_text_is_empty() {
    assert_eq!(preprocess_text(""), "");
    assert_eq!(preprocess_text(" \n\t \r\n"), "");
}

#[test]
fn preprocess_keeps_non_whitespace_controls() {
    assert_eq!(preprocess_text("\u{200B}a\u{200B}"), "\u{200B}a\u{200B}");
    assert_eq!(preprocess_text("\u{0}a"), "\u{0}a");
}

#[test]
fn preprocess_agrees_with_trim_and_replace() {
    let samples = vec![
        "",
        " ",
        "plain",
        "  lead",
        "trail  ",
        "\nline one\nline two\n",
        "\u{1680}ogham\u{205F}",
        "tab\there",
        "émoji 🎉\n done ",
        "\u{000B}\u{000C}x\u{000B}",
    ];
    for s in samples {
        assert_eq!(preprocess_text(s), s.trim().replace("\n", " "));
    }
}

#[test]
fn whitespace_is_the_unicode_property() {
    let mut code: u32 = 0;
    while code < 0x3100 {
        if let Some(c) = char::from_u32(code) {
            assert_eq!(whitespace(c), c.is_whitespace(), "code point {}", code);
        }
        code += 1;
    }
}

#[test]
fn extension_is_what_follows_the_last_dot() {
    assert_eq!(get_file_extension("report.pdf"), Some("pdf"));
    assert_eq!(get_file_extension("archive.tar.gz"), Some("gz"));
    assert_eq!(get_file_extension(".hidden"), Some("hidden"));
}

#[test]
fn extension_of_a_name_without_dot_is_none() {
    assert_eq!(get_file_extension("noext"), None);
    assert_eq!(get_file_extension(""), None);
}

#[test]
fn extension_after_a_trailing_dot_is_empty() {
    assert_eq!(get_file_extension("trailing."), Some(""));
    assert_eq!(get_file_extension("."), Some(""));
}

#[test]
fn extension_of_a_non_ascii_name() {
    assert_eq!(get_file_extension("résumé.txt"), Some("txt"));
    assert_eq!(get_file_extension("データ.csv"), Some("csv"));
    assert_eq!(get_file_extension("a.données"), Some("données"));
}

#[test]
fn extension_agrees_with_split() {
    let samples = vec!["a.b", "a", "a.b.c", "..", "a.", ".a", "", "x.y.", "名前.拡張"];
    for s in samples {
        let parts: Vec<&str> = s.split('.').collect();
        let expected = if parts.len() > 1 { Some(parts[parts.len() - 1]) } else { None };
        assert_eq!(get_file_extension(s), expected);
    }
}

#[test]
fn parse_id_reads_decimal_numbers() {
    assert_eq!(parse_id("42"), Some(42));
    assert_eq!(parse_id("0"), Some(0));
    assert_eq!(parse_id("007"), Some(7));
    assert_eq!(parse_id("+7"), Some(7));
}

#[test]
fn parse_id_refuses_what_is_no_number() {
    assert_eq!(parse_id(""), None);
    assert_eq!(parse_id("+"), None);
    assert_eq!(parse_id("-1"), None);
    assert_eq!(parse_id("-0"), None);
    assert_eq!(parse_id("12a"), None);
    assert_eq!(parse_id(" 5"), None);
    assert_eq!(parse_id("5 "), None);
    assert_eq!(parse_id("++5"), None);
    assert_eq!(parse_id("1.0"), None);
    assert_eq!(parse_id("٣"), None);
}

#[test]
fn parse_id_at_the_limit() {
    let max = usize::MAX.to_string();
    assert_eq!(parse_id(&max), Some(usize::MAX));
    assert_eq!(parse_id("18446744073709551616"), usize::from_str_radix("18446744073709551616", 10).ok());
    assert_eq!(parse_id("99999999999999999999999999999999"), None);
    assert_eq!(parse_id("000000000000000000000000000000001"), Some(1));
}

#[test]
fn parse_id_agrees_with_std() {
    let samples = vec![
        "", "0", "1", "+1", "-1", "+", "-", "10", "0010", "4294967295", "4294967296",
        "18446744073709551615", "18446744073709551616", "18446744073709551625", "1e3", "0x10",
        "１２", "12\n", "+0", "+-1",
    ];
    for s in samples {
        assert_eq!(parse_id(s), s.parse::<usize>().ok(), "input {:?}", s);
    }
}

#[test]
fn same_text_compares_character_by_character() {
    assert!(same_text("foo", "foo"));
    assert!(!same_text("foo", "foo "));
    assert!(!same_text("foo", "fop"));
    assert!(!same_text("foo", "Foo"));
    assert!(same_text("", ""));
    assert!(!same_text("", " "));
}

#[test]
fn to_chars_lists_the_characters() {
    assert_eq!(to_chars("aé🎉"), vec!['a', 'é', '🎉']);
    assert_eq!(to_chars(""), Vec::<char>::new());
}

#[test]
fn clone_texts_copies_in_order() {
    let texts = vec!["b".to_string(), "a".to_string(), "".to_string()];
    assert_eq!(clone_texts(&texts), texts);
    assert_eq!(clone_texts(&Vec::new()), Vec::<String>::new());
}

#[test]
fn decimal_text_writes_numbers() {
    assert_eq!(decimal_text(0), "0");
    assert_eq!(decimal_text(7), "7");
    assert_eq!(decimal_text(10), "10");
    assert_eq!(decimal_text(1234567890), "1234567890");
    assert_eq!(decimal_text(u64::MAX), "18446744073709551615");
}

#[test]
fn signed_decimal_text_writes_the_sign() {
    assert_eq!(signed_decimal_text(0), "0");
    assert_eq!(signed_decimal_text(42), "42");
    assert_eq!(signed_decimal_text(-1), "-1");
    assert_eq!(signed_decimal_text(-100), "-100");
    assert_eq!(signed_decimal_text(i64::MAX), "9223372036854775807");
    assert_eq!(signed_decimal_text(i64::MIN), "-9223372036854775808");
}

#[test]
fn a_written_identifier_reads_back() {
    let samples: Vec<u64> = vec![0, 1, 9, 10, 99, 100, 101, 65535, 4294967296, u64::MAX];
    for n in samples {
        assert_eq!(parse_id(&decimal_text(n)), usize::try_from(n).ok());
        assert_eq!(decimal_text(n), n.to_string());
    }
    assert_eq!(parse_id(&signed_decimal_text(-5)), None);
}
