use p4_changelist::parser::{classify, describe, read_files, Key, ParseError};
use p4_changelist::text::{
    char_is_whitespace, copy_range, find_char, has_leading_tab, parse_decimal, push_decimal,
    split_lines, trim_bounds,
};

fn chars(text: &str) -> Vec<char> {
    text.chars().collect()
}

fn trimmed(text: &str) -> String {
    let all = chars(text);
    let (first, last) = trim_bounds(&all, 0, all.len());
    copy_range(&all, first, last).into_iter().collect()
}

fn parsed(text: &str) -> Option<u32> {
    let all = chars(text);
    parse_decimal(&all, 0, all.len())
}

#[test]
fn whitespace_is_what_std_calls_whitespace() {
    let mut code: u32 = 0;
    while code <= 0x10ffff {
        if let Some(c) = char::from_u32(code) {
            assert_eq!(char_is_whitespace(c), c.is_whitespace(), "U+{:04X}", code);
        }
        code += 1;
    }
}

#[test]
fn trimming_agrees_with_std() {
    let samples = [
        "",
        " ",
        "\t\n\r ",
        "a",
        " a",
        "a ",
        "  a b  ",
        "\u{a0}x\u{3000}",
        "\u{2028}\u{2029}mid dle\u{205f}\u{202f}\u{1680}",
        "\u{200b}zero width stays\u{200b}",
        "\u{b}\u{c}v\u{85}",
    ];
    for sample in samples {
        assert_eq!(trimmed(sample), sample.trim(), "{:?}", sample);
    }
}

#[test]
fn trim_bounds_of_inner_range() {
    let all = chars("ab  cd  ef");
    assert_eq!(trim_bounds(&all, 2, 8), (4, 6));
    assert_eq!(trim_bounds(&all, 2, 4), (4, 4));
    assert_eq!(trim_bounds(&all, 0, 10), (0, 10));
    assert_eq!(trim_bounds(&all, 3, 3), (3, 3));
}

#[test]
fn copy_range_copies_the_range() {
    let all = chars("abcdef");
    assert_eq!(copy_range(&all, 1, 4), chars("bcd"));
    assert_eq!(copy_range(&all, 0, 6), all);
    assert_eq!(copy_range(&all, 6, 6), Vec::new());
}

#[test]
fn find_char_gives_first_occurrence() {
    let all = chars("a:b:c");
    assert_eq!(find_char(&all, 0, 5, ':'), 1);
    assert_eq!(find_char(&all, 2, 5, ':'), 3);
    assert_eq!(find_char(&all, 4, 5, ':'), 5);
    assert_eq!(find_char(&all, 0, 1, ':'), 1);
    assert_eq!(find_char(&all, 0, 5, '#'), 5);
    assert_eq!(find_char(&all, 3, 3, ':'), 3);
}

#[test]
fn split_lines_keeps_empty_pieces() {
    assert_eq!(split_lines(""), vec![chars("")]);
    assert_eq!(split_lines("a"), vec![chars("a")]);
    assert_eq!(split_lines("a\n"), vec![chars("a"), chars("")]);
    assert_eq!(split_lines("\na"), vec![chars(""), chars("a")]);
    assert_eq!(
        split_lines("one\n\ntwo\r\nthree"),
        vec![chars("one"), chars(""), chars("two\r"), chars("three")]
    );
}

#[test]
fn split_lines_agrees_with_std() {
    let samples = ["", "\n", "\n\n", "a\nb", "a\nb\n", "\u{e9}\n\u{1f600}\nx", "no line feed"];
    for sample in samples {
        let expected: Vec<Vec<char>> = sample.split("\n").map(chars).collect();
        assert_eq!(split_lines(sample), expected, "{:?}", sample);
    }
}

#[test]
fn joined_lines_are_the_text() {
    let samples = ["", "\n", "a\n\nb", "Change: 1\nDescription:\n\tx\n", "\u{e9}\r\n"];
    for sample in samples {
        let lines: Vec<String> =
            split_lines(sample).into_iter().map(|line| line.into_iter().collect()).collect();
        assert_eq!(lines.join("\n"), sample);
        assert!(lines.iter().all(|line| !line.contains('\n')));
    }
}

#[test]
fn parse_decimal_agrees_with_std() {
    let samples = [
        "", "+", "-", "0", "+0", "-0", "7", "39", "+39", "0039", "++1", "+-1", "1+", " 1", "1 ",
        "12a", "a12", "4294967295", "4294967296", "+4294967295", "00000000004294967295",
        "99999999999999999999999", "18446744073709551616", "\u{661}\u{662}", "1_000", "0x10",
    ];
    for sample in samples {
        assert_eq!(parsed(sample), sample.parse::<u32>().ok(), "{:?}", sample);
    }
}

#[test]
fn parse_decimal_of_inner_range() {
    let all = chars("ab123cd");
    assert_eq!(parse_decimal(&all, 2, 5), Some(123));
    assert_eq!(parse_decimal(&all, 2, 6), None);
    assert_eq!(parse_decimal(&all, 3, 3), None);
}

#[test]
fn push_decimal_agrees_with_std() {
    let samples = [0u32, 1, 9, 10, 11, 39, 99, 100, 101, 1000, 65535, 4294967294, 4294967295];
    for sample in samples {
        let mut out = chars("n=");
        push_decimal(sample, &mut out);
        let text: String = out.into_iter().collect();
        assert_eq!(text, format!("n={}", sample));
    }
}

#[test]
fn decimal_is_read_back() {
    let samples = [0u32, 5, 10, 39, 1234567890, 4294967295];
    for sample in samples {
        let mut out = Vec::new();
        push_decimal(sample, &mut out);
        assert_eq!(parse_decimal(&out, 0, out.len()), Some(sample));
    }
}

#[test]
fn leading_tab_is_told_from_other_starts() {
    assert!(has_leading_tab(&chars("\tx")));
    assert!(has_leading_tab(&chars("\t")));
    assert!(!has_leading_tab(&chars("")));
    assert!(!has_leading_tab(&chars(" \tx")));
    assert!(!has_leading_tab(&chars("x\t")));
}

#[test]
fn keys_are_matched_exactly() {
    let cases = [
        ("Change", Key::Change),
        ("Client", Key::Client),
        ("User", Key::User),
        ("Status", Key::Status),
        ("Description", Key::Description),
        ("Files", Key::Files),
        ("", Key::Other),
        ("change", Key::Other),
        ("Change ", Key::Other),
        (" Change", Key::Other),
        ("Chang", Key::Other),
        ("Changes", Key::Other),
        ("File", Key::Other),
        ("#Files", Key::Other),
    ];
    for (name, key) in cases {
        let all = chars(name);
        assert_eq!(classify(&all, all.len()), key, "{:?}", name);
    }
    let line = chars("Status: new");
    assert_eq!(classify(&line, 6), Key::Status);
    assert_eq!(classify(&line, 5), Key::Other);
    assert_eq!(classify(&line, 7), Key::Other);
}

#[test]
fn describe_joins_trimmed_lines() {
    assert_eq!(describe(&Vec::new()), "");
    assert_eq!(describe(&vec![chars("\tone ")]), "one");
    assert_eq!(
        describe(&vec![chars("\tone"), chars("\t"), chars("\t two\r")]),
        "one\n\ntwo"
    );
}

#[test]
fn read_files_splits_each_line() {
    assert_eq!(read_files(&Vec::new()), Ok(Vec::new()));
    assert_eq!(
        read_files(&vec![chars("\t//a \t# edit "), chars("\t#"), chars("//b#add#x")]),
        Ok(vec![
            ("//a".to_string(), "edit".to_string()),
            (String::new(), String::new()),
            ("//b".to_string(), "add#x".to_string()),
        ])
    );
    assert_eq!(
        read_files(&vec![chars("\t//a#edit"), chars("\t//b"), chars("\t//c")]),
        Err(ParseError::MissingAction("\t//b".to_string()))
    );
}
