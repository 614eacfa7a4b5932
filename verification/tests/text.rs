use codetags::text::{
    chars_of, contains, ends_with, is_whitespace, lines, parse_count, same_chars, same_text, split,
    starts_with, string_of, trim, trim_range,
};

fn chars(s: &str) -> Vec<char> {
    s.chars().collect()
}

fn pieces(s: &str, sep: char) -> Vec<String> {
    let v = chars(s);
    split(&v, sep).iter().map(|&(a, b)| string_of(&v, a, b)).collect()
}

fn text_lines(s: &str) -> Vec<String> {
    let v = chars(s);
    lines(&v).iter().map(|&(a, b)| string_of(&v, a, b)).collect()
}

fn count(s: &str) -> Option<u32> {
    let v = chars(s);
    parse_count(&v, 0, v.len())
}

#[test]
fn chars_of_keeps_every_character() {
    assert_eq!(chars_of("héllo"), vec!['h', 'é', 'l', 'l', 'o']);
    assert_eq!(chars_of(""), Vec::<char>::new());
}

#[test]
fn string_of_copies_a_range() {
    let v = chars("abcdef");
    assert_eq!(string_of(&v, 1, 4), "bcd");
    assert_eq!(string_of(&v, 0, 0), "");
    assert_eq!(string_of(&v, 0, 6), "abcdef");
}

#[test]
fn same_text_compares_all_characters() {
    assert!(same_text("html", "html"));
    assert!(!same_text("html", "htm"));
    assert!(!same_text("html", "htmx"));
    assert!(same_text("", ""));
}

#[test]
fn same_chars_compares_a_range() {
    let v = chars("  before");
    assert!(same_chars(&v, 2, 8, &chars("before")));
    assert!(!same_chars(&v, 1, 8, &chars("before")));
    assert!(!same_chars(&v, 2, 7, &chars("before")));
}

#[test]
fn prefix_suffix_and_infix() {
    let line = chars("  } // done");
    assert!(starts_with(&line, "  }"));
    assert!(!starts_with(&line, "}"));
    assert!(starts_with(&line, ""));
    assert!(ends_with(&line, "done"));
    assert!(!ends_with(&line, "don"));
    assert!(contains(&line, "//"));
    assert!(contains(&line, ""));
    assert!(!contains(&line, "\""));
    assert!(!starts_with(&chars("}"), "  }"));
    assert!(!contains(&chars("/"), "//"));
    assert!(contains(&chars("a//"), "//"));
}

#[test]
fn whitespace_is_what_std_calls_whitespace() {
    let mut code: u32 = 0;
    while code <= 0x10ffff {
        if let Some(c) = char::from_u32(code) {
            assert_eq!(is_whitespace(c), c.is_whitespace(), "U+{:04X}", code);
        }
        code += 1;
    }
}

#[test]
fn trim_takes_white_space_off_both_ends() {
    for s in ["", " ", "a", "  a b  ", "\t\nx\r\n", "\u{a0}y\u{3000}", " Scanning ", "a  "] {
        assert_eq!(trim(s), s.trim());
    }
}

#[test]
fn trim_range_gives_the_bounds_of_the_trimmed_text() {
    let v = chars("x,  2 before ,y");
    assert_eq!(trim_range(&v, 2, 13), (4, 12));
    assert_eq!(trim_range(&v, 2, 4), (4, 4));
}

#[test]
fn split_gives_one_piece_more_than_separators() {
    assert_eq!(pieces("", ','), vec![""]);
    assert_eq!(pieces("a", ','), vec!["a"]);
    assert_eq!(pieces("a,b", ','), vec!["a", "b"]);
    assert_eq!(pieces(",a,,b,", ','), vec!["", "a", "", "b", ""]);
    for s in ["", "a", "a,b", ",a,,b,", "2 before, 1 after", ",,"] {
        let want: Vec<String> = s.split(',').map(|p| p.to_string()).collect();
        assert_eq!(pieces(s, ','), want);
    }
}

#[test]
fn lines_are_what_std_calls_lines() {
    for s in ["", "a", "a\n", "a\nb", "a\r\nb\r\n", "\n", "\n\n", "a\r", "a\r\n\r\nb", "x\n\ny\n", "\r\n"] {
        let want: Vec<String> = s.lines().map(|p| p.to_string()).collect();
        assert_eq!(text_lines(s), want, "{:?}", s);
    }
}

#[test]
fn counts_are_read_as_std_reads_them() {
    assert_eq!(count("0"), Some(0));
    assert_eq!(count("2"), Some(2));
    assert_eq!(count("+5"), Some(5));
    assert_eq!(count("007"), Some(7));
    assert_eq!(count("4294967295"), Some(4294967295));
    assert_eq!(count("4294967296"), None);
    assert_eq!(count("99999999999999999999999"), None);
    assert_eq!(count(""), None);
    assert_eq!(count("+"), None);
    assert_eq!(count("-1"), None);
    assert_eq!(count("1a"), None);
    assert_eq!(count("two"), None);
    assert_eq!(count(" 2"), None);
    for s in ["0", "2", "+5", "007", "4294967295", "4294967296", "", "+", "-1", "-0", "1a", "++1", "١"] {
        assert_eq!(count(s), s.parse::<u32>().ok(), "{:?}", s);
    }
}

#[test]
fn a_count_can_stand_in_the_middle_of_a_text() {
    let v = chars("(12 before)");
    assert_eq!(parse_count(&v, 1, 3), Some(12));
    assert_eq!(parse_count(&v, 1, 4), None);
    assert_eq!(parse_count(&v, 3, 3), None);
}
