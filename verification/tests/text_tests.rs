use session::number::{parse_i32, push_decimal};
use session::text::{
    blank, char_is_whitespace, find, from_chars, line_ranges, range_is_blank, to_chars, trim_bounds,
    trimmed,
};

fn lines_of(text: &str) -> Vec<String> {
    let v = to_chars(text);
    line_ranges(&v).into_iter().map(|(from, to)| from_chars(&v, from, to)).collect()
}

fn std_lines(text: &str) -> Vec<String> {
    text.lines().map(|l| l.to_string()).collect()
}

const SAMPLES: [&str; 24] = [
    "",
    "\n",
    "\r\n",
    "\r",
    "a",
    "a\n",
    "a\r\n",
    "a\r",
    "a\n\nb",
    "a\n\r\nb\r\n",
    "a\r\r\n",
    "\n\n\n",
    "one two\nthree\n",
    "  lead\n",
    "trail  \n\t\n",
    "x\ry\n",
    "é\nß ü\n",
    "\u{3000}\n\u{a0}x\u{a0}\n",
    "foo\nbar\n\r\nbaz\r",
    "alice@h1\nbob@h2\n",
    "\u{1680}\u{2003}",
    " \t\u{85}\u{2028}\u{2029}\u{202f}\u{205f} ",
    "a\u{200b}",
    "h1 ssh-rsa AAAA\nh2,10.0.0.2 ecdsa BBBB\n",
];

#[test]
fn whitespace_is_the_white_space_property_for_every_char() {
    let mut code: u32 = 0;
    while code <= 0x10ffff {
        if let Some(c) = char::from_u32(code) {
            assert_eq!(char_is_whitespace(c), c.is_whitespace(), "U+{:04X}", code);
        }
        code += 1;
    }
}

#[test]
fn to_chars_gives_every_character() {
    assert_eq!(to_chars("aé\n"), vec!['a', 'é', '\n']);
    assert_eq!(to_chars(""), Vec::<char>::new());
}

#[test]
fn from_chars_takes_a_range() {
    let v = to_chars("héllo wörld");
    assert_eq!(from_chars(&v, 0, 5), "héllo");
    assert_eq!(from_chars(&v, 6, 11), "wörld");
    assert_eq!(from_chars(&v, 3, 3), "");
    assert_eq!(from_chars(&v, 0, v.len()), "héllo wörld");
}

#[test]
fn find_gives_the_first_position_or_the_end() {
    let v = to_chars("ab cd ef");
    assert_eq!(find(&v, 0, v.len(), ' '), 2);
    assert_eq!(find(&v, 3, v.len(), ' '), 5);
    assert_eq!(find(&v, 6, v.len(), ' '), 8);
    assert_eq!(find(&v, 0, 2, ' '), 2);
    assert_eq!(find(&v, 4, 4, 'c'), 4);
}

#[test]
fn lines_are_those_of_the_standard_library() {
    for text in SAMPLES {
        assert_eq!(lines_of(text), std_lines(text), "{:?}", text);
    }
}

#[test]
fn lines_keep_a_carriage_return_that_no_line_feed_follows() {
    assert_eq!(lines_of("foo\nbar\n\r\nbaz\r"), vec!["foo", "bar", "", "baz\r"]);
    assert_eq!(lines_of("a\r\r\n"), vec!["a\r"]);
    assert_eq!(lines_of("x\ry\n"), vec!["x\ry"]);
}

#[test]
fn a_text_that_ends_in_a_line_feed_has_no_empty_last_line() {
    assert_eq!(lines_of("a\n"), vec!["a"]);
    assert_eq!(lines_of("a\n\n"), vec!["a", ""]);
    assert_eq!(lines_of(""), Vec::<String>::new());
    assert_eq!(lines_of("\n"), vec![""]);
}

#[test]
fn trimmed_is_trim_of_the_standard_library() {
    for text in SAMPLES {
        assert_eq!(trimmed(text), text.trim(), "{:?}", text);
    }
    assert_eq!(trimmed("  carol@h4 \n"), "carol@h4");
    assert_eq!(trimmed("a b"), "a b");
    assert_eq!(trimmed("\u{3000}x y\u{a0}"), "x y");
}

#[test]
fn trim_bounds_mark_the_trimmed_text() {
    let v = to_chars("  ab c \t");
    assert_eq!(trim_bounds(&v), (2, 6));
    let w = to_chars(" \t ");
    let (from, to) = trim_bounds(&w);
    assert_eq!(from, to);
    let e = to_chars("");
    assert_eq!(trim_bounds(&e), (0, 0));
}

#[test]
fn blank_is_empty_after_trim() {
    for text in SAMPLES {
        assert_eq!(blank(text), text.trim().is_empty(), "{:?}", text);
    }
    assert!(blank(""));
    assert!(blank(" \t\r\n"));
    assert!(!blank(" x "));
}

#[test]
fn range_is_blank_looks_at_the_range_only() {
    let v = to_chars("ab  cd");
    assert!(range_is_blank(&v, 2, 4));
    assert!(range_is_blank(&v, 3, 3));
    assert!(!range_is_blank(&v, 1, 4));
    assert!(!range_is_blank(&v, 2, 5));
}

#[test]
fn parse_i32_agrees_with_the_standard_library() {
    let samples = [
        "", "0", "-0", "+0", "+5", "-", "+", "--1", "+-1", "1", "12", "-12", "007", "-007",
        "2147483647", "2147483648", "-2147483648", "-2147483649", "+2147483647", "+2147483648",
        "4294967296", "99999999999", "-99999999999", "18446744073709551616",
        "340282366920938463463374607431768211456", "12a", "a12", "1 2", " 1", "1 ", "1\n",
        "١٢٣", "１２", "1_000", "0x10", "1.0", "-1-", "٣",
    ];
    for s in samples {
        assert_eq!(parse_i32(s), s.parse::<i32>().ok(), "{:?}", s);
    }
}

#[test]
fn parse_i32_exact_values() {
    assert_eq!(parse_i32("42"), Some(42));
    assert_eq!(parse_i32("-1"), Some(-1));
    assert_eq!(parse_i32("+17"), Some(17));
    assert_eq!(parse_i32("000"), Some(0));
    assert_eq!(parse_i32("2147483647"), Some(i32::MAX));
    assert_eq!(parse_i32("-2147483648"), Some(i32::MIN));
    assert_eq!(parse_i32("2147483648"), None);
    assert_eq!(parse_i32("-2147483649"), None);
    assert_eq!(parse_i32(""), None);
    assert_eq!(parse_i32("-"), None);
    assert_eq!(parse_i32("1x"), None);
}

#[test]
fn push_decimal_writes_base_ten() {
    let numbers: [u128; 12] =
        [0, 1, 9, 10, 11, 99, 100, 101, 12345, 4294967296, 18446744073709551615, u128::MAX];
    for n in numbers {
        let mut s = String::from("n=");
        push_decimal(&mut s, n);
        assert_eq!(s, format!("n={}", n));
    }
}

#[test]
fn what_push_decimal_writes_is_read_back() {
    let numbers: [i32; 7] = [0, 1, 9, 10, 1234, 99999, i32::MAX];
    for n in numbers {
        let mut s = String::new();
        push_decimal(&mut s, n as u128);
        assert_eq!(parse_i32(&s), Some(n));
    }
}
