use print_queue::decimal::{parse_decimal, push_decimal};
use print_queue::text::{
    chars_of, contains, is_whitespace, same_text, scan_back, scan_run, starts_with_at,
    strip_prefixes_start, trim_bounds,
};

fn chars(text: &str) -> Vec<char> {
    text.chars().collect()
}

fn text_of(chars: &[char]) -> String {
    chars.iter().collect()
}

fn trimmed(text: &str) -> String {
    let all = chars(text);
    let (from, to) = trim_bounds(&all, 0, all.len());
    text_of(&all[from..to])
}

fn stripped(text: &str, prefix: &str) -> String {
    let all = chars(text);
    let start = strip_prefixes_start(&all, &chars(prefix));
    text_of(&all[start..])
}

fn written(n: usize) -> String {
    let mut out = String::new();
    push_decimal(&mut out, n);
    out
}

fn read(text: &str) -> Option<usize> {
    let all = chars(text);
    parse_decimal(&all, 0, all.len())
}

#[test]
fn whitespace_is_what_the_standard_library_says() {
    for code in 0..=0x10FFFFu32 {
        if let Some(c) = char::from_u32(code) {
            assert_eq!(is_whitespace(c), c.is_whitespace(), "U+{:04X}", code);
        }
    }
}

#[test]
fn whitespace_examples() {
    for c in [' ', '\t', '\n', '\r', '\u{b}', '\u{c}', '\u{85}', '\u{a0}', '\u{2003}', '\u{3000}'] {
        assert!(is_whitespace(c));
    }
    for c in ['a', '0', '+', '<', '@', '>', '\u{0}', '\u{200b}', '\u{180e}', '\u{feff}'] {
        assert!(!is_whitespace(c));
    }
}

#[test]
fn chars_of_gives_the_characters() {
    assert_eq!(chars_of(""), Vec::<char>::new());
    assert_eq!(chars_of("add"), vec!['a', 'd', 'd']);
    assert_eq!(chars_of("a\u{e9}\u{2022}\u{1f600}z"), vec!['a', '\u{e9}', '\u{2022}', '\u{1f600}', 'z']);
}

#[test]
fn same_text_compares_characters() {
    assert!(same_text("", ""));
    assert!(same_text("done", "done"));
    assert!(!same_text("done", "Done"));
    assert!(!same_text("done", "done "));
    assert!(!same_text("add", "ad"));
}

#[test]
fn scan_run_finds_the_end_of_a_run() {
    let text = chars("  \t12  ab");
    assert_eq!(scan_run(&text, 0, text.len(), true), 3);
    assert_eq!(scan_run(&text, 0, text.len(), false), 0);
    assert_eq!(scan_run(&text, 3, text.len(), false), 5);
    assert_eq!(scan_run(&text, 3, text.len(), true), 3);
    assert_eq!(scan_run(&text, 5, text.len(), true), 7);
    assert_eq!(scan_run(&text, 7, text.len(), false), 9);
    assert_eq!(scan_run(&text, 9, text.len(), false), 9);
    assert_eq!(scan_run(&text, 0, 2, true), 2);
    assert_eq!(scan_run(&text, 3, 4, false), 4);
}

#[test]
fn scan_back_finds_the_start_of_trailing_whitespace() {
    let text = chars("ab  \n");
    assert_eq!(scan_back(&text, 0, text.len()), 2);
    assert_eq!(scan_back(&text, 0, 2), 2);
    assert_eq!(scan_back(&text, 3, text.len()), 3);
    let blank = chars(" \t ");
    assert_eq!(scan_back(&blank, 0, blank.len()), 0);
    assert_eq!(scan_back(&blank, 1, blank.len()), 1);
}

#[test]
fn trim_bounds_agree_with_trim() {
    for text in [
        "",
        " ",
        "add",
        "  add",
        "add  ",
        " \t add \r\n",
        "\u{a0}add\u{2003}",
        "a b",
        "  a  b  ",
        "\n\n",
        "\u{200b}add",
    ] {
        assert_eq!(trimmed(text), text.trim(), "{:?}", text);
    }
}

#[test]
fn trim_bounds_within_a_piece() {
    let text = chars("xx  add  yy");
    assert_eq!(trim_bounds(&text, 2, 9), (4, 7));
    assert_eq!(trim_bounds(&text, 2, 4), (4, 4));
    assert_eq!(trim_bounds(&text, 0, text.len()), (0, text.len()));
}

#[test]
fn starts_with_at_looks_at_one_place() {
    let text = chars("abcabc");
    assert!(starts_with_at(&text, 0, &chars("abc")));
    assert!(starts_with_at(&text, 3, &chars("abc")));
    assert!(!starts_with_at(&text, 1, &chars("abc")));
    assert!(!starts_with_at(&text, 4, &chars("abc")));
    assert!(starts_with_at(&text, 6, &chars("")));
    assert!(!starts_with_at(&text, 6, &chars("a")));
}

#[test]
fn strip_prefixes_agrees_with_trim_start_matches() {
    for (text, prefix) in [
        ("<@bot> add", "<@bot>"),
        ("<@bot><@bot> add", "<@bot>"),
        ("<@bot> <@bot> add", "<@bot>"),
        (" <@bot> add", "<@bot>"),
        ("<@bot>", "<@bot>"),
        ("<@bo", "<@bot>"),
        ("", "<@bot>"),
        ("aaaa", "aa"),
        ("aaaaa", "aa"),
        ("add", ""),
        ("", ""),
    ] {
        assert_eq!(
            stripped(text, prefix),
            text.trim_start_matches(prefix),
            "{:?} {:?}",
            text,
            prefix
        );
    }
}

#[test]
fn contains_agrees_with_str_contains() {
    for (text, needle) in [
        ("<@U01A844Q2US> add", "<@U01A844Q2US>"),
        ("hello <@U01A844Q2US>", "<@U01A844Q2US>"),
        ("hello <@U01A844Q2US", "<@U01A844Q2US>"),
        ("<@u01a844q2us> add", "<@U01A844Q2US>"),
        ("", "<@U01A844Q2US>"),
        ("", ""),
        ("abc", ""),
        ("abc", "abc"),
        ("abc", "abcd"),
        ("aab", "ab"),
        ("abab", "bab"),
    ] {
        assert_eq!(
            contains(&chars(text), &chars(needle)),
            text.contains(needle),
            "{:?} {:?}",
            text,
            needle
        );
    }
}

#[test]
fn decimal_writes_what_display_writes() {
    assert_eq!(written(0), "0");
    assert_eq!(written(7), "7");
    assert_eq!(written(9), "9");
    assert_eq!(written(10), "10");
    assert_eq!(written(101), "101");
    assert_eq!(written(12345), "12345");
    assert_eq!(written(usize::MAX), usize::MAX.to_string());
    for n in 0..2000usize {
        assert_eq!(written(n), n.to_string());
    }
}

#[test]
fn decimal_is_appended() {
    let mut out = String::from("place ");
    push_decimal(&mut out, 42);
    assert_eq!(out, "place 42");
}

#[test]
fn decimal_reads_what_parse_reads() {
    let beyond = format!("{}0", usize::MAX);
    let next = {
        let mut digits = usize::MAX.to_string().into_bytes();
        let last = digits.len() - 1;
        digits[last] += 1;
        String::from_utf8(digits).unwrap()
    };
    let max = usize::MAX.to_string();
    for text in [
        "0",
        "7",
        "42",
        "007",
        "+5",
        "+0",
        "+",
        "",
        "-1",
        "-0",
        "++1",
        "1+",
        "12a",
        "a12",
        "1 2",
        " 1",
        "1_000",
        "1.5",
        "\u{ff11}",
        "\u{661}",
        max.as_str(),
        next.as_str(),
        beyond.as_str(),
        "99999999999999999999999999999999999999999",
        "00000000000000000000000000000000000000001",
    ] {
        assert_eq!(read(text), text.parse::<usize>().ok(), "{:?}", text);
    }
}

#[test]
fn decimal_reads_exact_values() {
    assert_eq!(read("0"), Some(0));
    assert_eq!(read("+5"), Some(5));
    assert_eq!(read("007"), Some(7));
    assert_eq!(read("12345"), Some(12345));
    assert_eq!(read(""), None);
    assert_eq!(read("x"), None);
}

#[test]
fn decimal_reads_a_piece() {
    let text = chars("ab12cd");
    assert_eq!(parse_decimal(&text, 2, 4), Some(12));
    assert_eq!(parse_decimal(&text, 2, 3), Some(1));
    assert_eq!(parse_decimal(&text, 2, 2), None);
    assert_eq!(parse_decimal(&text, 1, 4), None);
    assert_eq!(parse_decimal(&text, 2, 5), None);
}

#[test]
fn decimal_round_trip() {
    for n in [0usize, 1, 9, 10, 99, 100, 65535, 1 << 31, usize::MAX] {
        assert_eq!(read(&written(n)), Some(n));
    }
}
