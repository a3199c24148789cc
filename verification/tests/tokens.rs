use linescan::chars::{digit, is_whitespace};
use linescan::tokens::{split_on, split_whitespace, trim};

fn chars_of(s: &str) -> Vec<char> {
    s.chars().collect()
}

fn text_of(t: &[char]) -> String {
    t.iter().collect()
}

fn texts_of(ts: Vec<&[char]>) -> Vec<String> {
    ts.into_iter().map(text_of).collect()
}

const SAMPLES: [&str; 22] = [
    "",
    " ",
    "\n",
    "a",
    " a",
    "a ",
    "  a  b  ",
    "3 4",
    "3\t4\r\n",
    "\t\t",
    "1,2,3",
    ",",
    ",,",
    "a,",
    ",a",
    " 1 , 2 ",
    "x\u{a0}y",
    "\u{2003}wide\u{3000}",
    "zero\u{200b}width",
    "\u{85}next\u{2028}line\u{2029}",
    "\u{1680}\u{205f}\u{202f}",
    "one two\u{b}three\u{c}four",
];

#[test]
fn whitespace_is_the_unicode_property() {
    for u in 0..=0x10FFFFu32 {
        if let Some(c) = char::from_u32(u) {
            assert_eq!(is_whitespace(c), c.is_whitespace(), "U+{:04X}", u);
        }
    }
}

#[test]
fn digit_is_ascii_decimal() {
    for u in 0..=0x10FFFFu32 {
        if let Some(c) = char::from_u32(u) {
            let expected = if c.is_ascii_digit() { Some(u as u8 - b'0') } else { None };
            assert_eq!(digit(c), expected, "U+{:04X}", u);
        }
    }
}

#[test]
fn trim_strips_both_ends() {
    assert_eq!(text_of(trim(&chars_of("  3 4 \r\n"))), "3 4");
    assert_eq!(text_of(trim(&chars_of("abc"))), "abc");
    assert_eq!(text_of(trim(&chars_of(" \t\n"))), "");
    assert_eq!(text_of(trim(&chars_of(""))), "");
}

#[test]
fn trim_agrees_with_std() {
    for s in SAMPLES {
        assert_eq!(text_of(trim(&chars_of(s))), s.trim(), "{:?}", s);
    }
}

#[test]
fn split_whitespace_gives_the_runs() {
    let line = chars_of("  12  ab\t-7 ");
    assert_eq!(texts_of(split_whitespace(&line)), vec!["12", "ab", "-7"]);
}

#[test]
fn split_whitespace_of_blank_is_empty() {
    assert!(split_whitespace(&chars_of("")).is_empty());
    assert!(split_whitespace(&chars_of(" \t \u{3000}")).is_empty());
}

#[test]
fn split_whitespace_agrees_with_std() {
    for s in SAMPLES {
        let expected: Vec<String> = s.split_whitespace().map(String::from).collect();
        assert_eq!(texts_of(split_whitespace(&chars_of(s))), expected, "{:?}", s);
    }
}

#[test]
fn split_on_keeps_empty_tokens() {
    assert_eq!(texts_of(split_on(&chars_of("a,,b"), ',')), vec!["a", "", "b"]);
    assert_eq!(texts_of(split_on(&chars_of(",a"), ',')), vec!["", "a"]);
    assert_eq!(texts_of(split_on(&chars_of("a,"), ',')), vec!["a", ""]);
    assert_eq!(texts_of(split_on(&chars_of(","), ',')), vec!["", ""]);
    assert_eq!(texts_of(split_on(&chars_of("abc"), ',')), vec!["abc"]);
}

#[test]
fn split_on_of_empty_line_has_no_token() {
    assert!(split_on(&chars_of(""), ',').is_empty());
}

#[test]
fn split_on_agrees_with_std_on_lines_that_are_not_empty() {
    for s in SAMPLES {
        if s.is_empty() {
            continue;
        }
        for delim in [',', ' ', 'a', '\n'] {
            let expected: Vec<String> = s.split(delim).map(String::from).collect();
            assert_eq!(texts_of(split_on(&chars_of(s), delim)), expected, "{:?} at {:?}", s, delim);
        }
    }
}
