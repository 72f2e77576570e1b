use rover::text::{is_whitespace, parse_u32, parse_u64, parse_unsigned, push_decimal, same_text, split_words};

#[test]
fn whitespace_agrees_with_std_on_every_char() {
    for v in 0..=0x10ffffu32 {
        if let Some(c) = char::from_u32(v) {
            assert_eq!(is_whitespace(c), c.is_whitespace(), "{:x}", v);
        }
    }
}

#[test]
fn words_agree_with_std() {
    for line in [
        "",
        " ",
        "a",
        " a",
        "a ",
        "left fwd 60",
        "  left\tfwd \r\n",
        "\u{3000}h\u{e9}llo\u{a0}w\u{f6}rld\u{2003}\u{1f600}",
        "\n\n\n",
        "one  two   three",
    ] {
        let expected: Vec<&str> = line.split_whitespace().collect();
        assert_eq!(split_words(line), expected, "{:?}", line);
    }
}

#[test]
fn words_of_a_line() {
    assert_eq!(split_words(" set  drive_duty\t55 \r\n"), vec!["set", "drive_duty", "55"]);
}

#[test]
fn numbers_agree_with_std() {
    for s in [
        "",
        "+",
        "-",
        "0",
        "+0",
        "-0",
        "00007",
        "40",
        "+40",
        "++4",
        "4+",
        "4 0",
        "0x10",
        "4.0",
        "1_000",
        "4294967295",
        "4294967296",
        "18446744073709551615",
        "18446744073709551616",
        "99999999999999999999999999",
        "00000000000000000000000000000000000000012",
        "\u{0661}",
    ] {
        assert_eq!(parse_u32(s), s.parse::<u32>().ok(), "{:?}", s);
        assert_eq!(parse_u64(s), s.parse::<u64>().ok(), "{:?}", s);
    }
}

#[test]
fn numbers_stop_at_the_limit() {
    assert_eq!(parse_unsigned("100", 100), Some(100));
    assert_eq!(parse_unsigned("101", 100), None);
    assert_eq!(parse_unsigned("+7", 100), Some(7));
    assert_eq!(parse_unsigned("7a", 100), None);
}

#[test]
fn decimals_agree_with_std() {
    for n in [0, 1, 9, 10, 11, 99, 100, 1000, 4294967295, 4294967296, u64::MAX] {
        let mut s = String::from("n=");
        push_decimal(&mut s, n);
        assert_eq!(s, format!("n={}", n));
    }
}

#[test]
fn a_decimal_reads_back() {
    for n in [0, 40, 4294967296, u64::MAX] {
        let mut s = String::new();
        push_decimal(&mut s, n);
        assert_eq!(parse_u64(&s), Some(n));
    }
}

#[test]
fn texts_are_compared_by_content() {
    assert!(same_text("", ""));
    assert!(same_text("stop", "stop"));
    assert!(same_text("\u{e9}", "\u{e9}"));
    assert!(!same_text("stop", "stoP"));
    assert!(!same_text("stop", "sto"));
    assert!(!same_text("e\u{301}", "\u{e9}"));
}
