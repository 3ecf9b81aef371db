use minigrep::offsets::{byte_len_between, char_width, cut, to_chars};

#[test]
fn to_chars_lists_the_characters() {
    assert_eq!(to_chars(""), Vec::<char>::new());
    assert_eq!(
        to_chars("a\u{e4}\u{3a3}\n"),
        vec!['a', '\u{e4}', '\u{3a3}', '\n']
    );
}

#[test]
fn char_width_is_the_length_in_utf8() {
    let mut code: u32 = 0;
    while code <= 0x10FFFF {
        if let Some(c) = char::from_u32(code) {
            assert_eq!(char_width(c), c.len_utf8(), "U+{:04X}", code);
        }
        code += 1;
    }
}

#[test]
fn char_width_examples() {
    assert_eq!(char_width('a'), 1);
    assert_eq!(char_width('\n'), 1);
    assert_eq!(char_width('\u{7f}'), 1);
    assert_eq!(char_width('\u{80}'), 2);
    assert_eq!(char_width('\u{7ff}'), 2);
    assert_eq!(char_width('\u{800}'), 3);
    assert_eq!(char_width('\u{ffff}'), 3);
    assert_eq!(char_width('\u{10000}'), 4);
    assert_eq!(char_width('\u{10ffff}'), 4);
}

#[test]
fn byte_len_between_adds_the_widths() {
    let text = to_chars("a\u{e4}\u{20ac}\u{1f600}b");
    assert_eq!(byte_len_between(&text, 0, 0), 0);
    assert_eq!(byte_len_between(&text, 0, 1), 1);
    assert_eq!(byte_len_between(&text, 0, 2), 3);
    assert_eq!(byte_len_between(&text, 1, 3), 5);
    assert_eq!(byte_len_between(&text, 3, 4), 4);
    assert_eq!(byte_len_between(&text, 0, 5), 11);
    assert_eq!(byte_len_between(&text, 5, 5), 0);
}

#[test]
fn cut_takes_a_range_of_characters() {
    let text = "a\u{e4}\u{20ac}\u{1f600}b";
    let chars = to_chars(text);
    assert_eq!(cut(text, &chars, 0, 5, 0), text);
    assert_eq!(cut(text, &chars, 0, 0, 0), "");
    assert_eq!(cut(text, &chars, 1, 3, 1), "\u{e4}\u{20ac}");
    assert_eq!(cut(text, &chars, 3, 4, 6), "\u{1f600}");
    assert_eq!(cut(text, &chars, 4, 5, 10), "b");
    assert_eq!(cut(text, &chars, 5, 5, 11), "");
}

#[test]
fn cut_agrees_with_the_characters_it_covers() {
    let text = "x \u{3a3}\u{3c3}\u{3c2} \u{10348}\n\u{e9}";
    let chars = to_chars(text);
    let mut from = 0;
    while from <= chars.len() {
        let from_byte = byte_len_between(&chars, 0, from);
        let mut to = from;
        while to <= chars.len() {
            let wanted: String = chars[from..to].iter().collect();
            assert_eq!(cut(text, &chars, from, to, from_byte), wanted);
            to += 1;
        }
        from += 1;
    }
}
