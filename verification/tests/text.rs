use minigrep::text::{fold_case, is_whitespace, line_end_from, matches_at, occurs_in, trim_bounds};

fn chars(s: &str) -> Vec<char> {
    s.chars().collect()
}

#[test]
fn white_space_is_what_std_calls_white_space() {
    let mut code: u32 = 0;
    while code <= 0x10FFFF {
        if let Some(c) = char::from_u32(code) {
            assert_eq!(is_whitespace(c), c.is_whitespace(), "U+{:04X}", code);
        }
        code += 1;
    }
}

#[test]
fn white_space_examples() {
    assert!(is_whitespace(' '));
    assert!(is_whitespace('\t'));
    assert!(is_whitespace('\n'));
    assert!(is_whitespace('\r'));
    assert!(is_whitespace('\u{a0}'));
    assert!(is_whitespace('\u{2028}'));
    assert!(!is_whitespace('a'));
    assert!(!is_whitespace('\u{8}'));
    assert!(!is_whitespace('\u{e}'));
    assert!(!is_whitespace('\u{200b}'));
    assert!(!is_whitespace('\u{180e}'));
}

#[test]
fn trim_bounds_leaves_out_both_ends() {
    let text = chars("  ab c \t");
    assert_eq!(trim_bounds(&text, 0, text.len()), (2, 6));
    assert_eq!(trim_bounds(&text, 3, 5), (3, 4));
    assert_eq!(trim_bounds(&text, 2, 6), (2, 6));
}

#[test]
fn trim_bounds_of_white_space_alone_is_empty_at_the_end() {
    let text = chars("a   b");
    assert_eq!(trim_bounds(&text, 1, 4), (4, 4));
    assert_eq!(trim_bounds(&text, 2, 2), (2, 2));
    assert_eq!(trim_bounds(&[], 0, 0), (0, 0));
}

#[test]
fn trim_bounds_agrees_with_std_trim() {
    let samples = [
        "",
        " ",
        "x",
        " x",
        "x ",
        "\t x y \r\n",
        "\u{3000}wide\u{a0}",
        "in  side",
    ];
    for sample in samples {
        let text = chars(sample);
        let (lo, hi) = trim_bounds(&text, 0, text.len());
        let kept: String = text[lo..hi].iter().collect();
        assert_eq!(kept, sample.trim());
    }
}

#[test]
fn line_end_from_finds_the_first_line_feed() {
    let text = chars("ab\ncd\n\nef");
    assert_eq!(line_end_from(&text, 0, text.len()), 2);
    assert_eq!(line_end_from(&text, 3, text.len()), 5);
    assert_eq!(line_end_from(&text, 6, text.len()), 6);
    assert_eq!(line_end_from(&text, 7, text.len()), 9);
    assert_eq!(line_end_from(&text, 0, 2), 2);
    assert_eq!(line_end_from(&text, 9, 9), 9);
}

#[test]
fn matches_at_tests_one_position() {
    let hay = chars("abcabc");
    let needle = chars("bc");
    assert!(!matches_at(&hay, &needle, 0));
    assert!(matches_at(&hay, &needle, 1));
    assert!(matches_at(&hay, &needle, 4));
    assert!(matches_at(&hay, &[], 6));
}

#[test]
fn occurs_in_finds_a_part_anywhere() {
    let hay = chars("hello world");
    assert!(occurs_in(&hay, &chars("hello")));
    assert!(occurs_in(&hay, &chars("o w")));
    assert!(occurs_in(&hay, &chars("world")));
    assert!(occurs_in(&hay, &chars("hello world")));
    assert!(occurs_in(&hay, &[]));
    assert!(occurs_in(&[], &[]));
    assert!(!occurs_in(&hay, &chars("World")));
    assert!(!occurs_in(&hay, &chars("hello world!")));
    assert!(!occurs_in(&hay, &chars("ow")));
    assert!(!occurs_in(&[], &chars("a")));
}

#[test]
fn occurs_in_agrees_with_std_contains() {
    let hays = ["", "a", "ab", "aab", "abab", "mississippi"];
    let needles = ["", "a", "b", "ab", "ba", "aab", "ssi", "ssippi", "pi", "ip", "mississippix"];
    for hay in hays {
        for needle in needles {
            assert_eq!(
                occurs_in(&chars(hay), &chars(needle)),
                hay.contains(needle),
                "{:?} in {:?}",
                needle,
                hay
            );
        }
    }
}

#[test]
fn fold_case_lowers_every_letter() {
    assert_eq!(fold_case(&chars("uSeR")), chars("user"));
    assert_eq!(fold_case(&chars("/Home/USER 42")), chars("/home/user 42"));
    assert_eq!(fold_case(&chars("\u{c4}\u{d6}\u{dc}")), chars("\u{e4}\u{f6}\u{fc}"));
    assert_eq!(fold_case(&chars("\u{130}")), chars("i\u{307}"));
    assert_eq!(fold_case(&chars("\u{391}\u{3a3}")), chars("\u{3b1}\u{3c3}"));
    assert_eq!(fold_case(&[]), Vec::<char>::new());
}
