use ops_mcp::number::{float_text, only_digits, parse_u32, parse_u64, FieldValue, FloatText};
use ops_mcp::order::in_order;
use ops_mcp::text::{
    char_vec, find_after, find_with, lines, same, split, strip_prefix, strip_suffix, trim, words,
};

const SAMPLES: [&str; 17] = [
    "",
    "\n",
    "\r\n",
    "\r",
    "a",
    "a\n",
    "a\r\nb\r\n",
    "a\rb\n\nc\r",
    "  lead and trail \t\n",
    "one\u{a0}two\u{3000}three",
    "\u{2028}x\u{85}",
    "some avg10=0.00 avg60=0.00 avg300=0.00 total=1714525\n",
    "//a/b//",
    "/proc/uptime",
    "\u{e9}t\u{e9} \u{1f600} ok",
    "\r\r\n\n\r\n",
    "x\u{200b}y z",
];

#[test]
fn lines_agree_with_the_standard_library() {
    for s in SAMPLES {
        let expected: Vec<&str> = s.lines().collect();
        assert_eq!(lines(s), expected, "for {s:?}");
    }
}

#[test]
fn words_agree_with_the_standard_library() {
    for s in SAMPLES {
        let expected: Vec<&str> = s.split_whitespace().collect();
        assert_eq!(words(s), expected, "for {s:?}");
    }
}

#[test]
fn trimming_and_splitting_agree_with_the_standard_library() {
    for s in SAMPLES {
        assert_eq!(trim(s), s.trim(), "for {s:?}");
        let expected: Vec<&str> = s.split('/').collect();
        assert_eq!(split(s, '/'), expected, "for {s:?}");
        assert_eq!(char_vec(s), s.chars().collect::<Vec<char>>());
    }
}

#[test]
fn whitespace_is_that_of_the_standard_library() {
    for n in 0..=0x10ffffu32 {
        if let Some(c) = char::from_u32(n) {
            let s = c.to_string();
            assert_eq!(trim(&s).is_empty(), c.is_whitespace(), "for U+{n:04X}");
        }
    }
}

#[test]
fn prefixes_and_suffixes() {
    for s in SAMPLES {
        for p in ["", "a", "some ", "/", "\n", "one\u{a0}", "\u{e9}"] {
            assert_eq!(strip_prefix(s, p), s.strip_prefix(p));
            assert_eq!(strip_suffix(s, p), s.strip_suffix(p));
            assert_eq!(same(s, p), s == p);
        }
    }
    let parts = vec!["alpha=1", "beta=2", "beta=3"];
    assert_eq!(find_with(&parts, "beta="), Some("beta=2"));
    assert_eq!(find_after(&parts, "beta="), Some("2"));
    assert_eq!(find_after(&parts, "gamma="), None);
    assert_eq!(find_with(&Vec::new(), ""), None);
}

#[test]
fn strings_are_ordered_as_the_standard_library_orders_them() {
    let mut all: Vec<&str> = SAMPLES.to_vec();
    all.push("b");
    all.push("ab");
    all.push("\u{ffff}");
    all.push("\u{10000}");
    for a in &all {
        for b in &all {
            assert_eq!(in_order(a, b), a <= b, "for {a:?} and {b:?}");
        }
    }
}

#[test]
fn integers_agree_with_the_standard_library() {
    for s in [
        "",
        "+",
        "-",
        "0",
        "00",
        "+0",
        "-0",
        "7",
        "+7",
        "++7",
        "1_000",
        " 1",
        "1 ",
        "0x10",
        "4294967295",
        "4294967296",
        "18446744073709551615",
        "18446744073709551616",
        "184467440737095516150",
        "99999999999999999999x",
        "000000000000000000000000000001",
        "\u{661}",
    ] {
        assert_eq!(parse_u64(s), s.parse::<u64>().ok(), "for {s:?}");
        assert_eq!(parse_u32(s), s.parse::<u32>().ok(), "for {s:?}");
    }
    assert!(only_digits("0123456789"));
    assert!(only_digits(""));
    assert!(!only_digits("12a"));
}

#[test]
fn float_text_is_what_the_standard_library_parses() {
    let alphabet = ['0', '7', '.', 'e', 'E', '+', '-', 'i', 'N', 'f', 'a', ' '];
    let mut layer: Vec<String> = vec![String::new()];
    for _ in 0..4 {
        let mut next = Vec::new();
        for s in &layer {
            assert_eq!(float_text(s), s.parse::<f64>().is_ok(), "for {s:?}");
            for c in alphabet {
                next.push(format!("{s}{c}"));
            }
        }
        layer = next;
    }
    for s in &layer {
        assert_eq!(float_text(s), s.parse::<f64>().is_ok(), "for {s:?}");
    }
    for s in [
        "inf", "INF", "+Infinity", "-infinity", "infinit", "nan", "-NaN", "1e400", "1e-400",
        "1.5e+10", "1.5e", "1.5e+", ".5e3", "5.e3", ".e3", "0x1p3", "1,5", "1e5.0", "\u{ff11}",
        "123456789012345678901234567890.5", "i\u{307}nf", "+-1", "1_0",
    ] {
        assert_eq!(float_text(s), s.parse::<f64>().is_ok(), "for {s:?}");
    }
}

#[test]
fn a_float_keeps_its_text() {
    let f = FloatText::from_text("12.50").expect("a float");
    assert_eq!(f.text(), "12.50");
    assert!(FloatText::from_text("12.50%").is_none());
    assert_eq!(u32::from_text("12"), Some(12));
    assert_eq!(u64::from_text("12.5"), None);
}
