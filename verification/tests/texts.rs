use pastaless::order::sort;
use pastaless::text::{
    chars_of, contains_dot_dot, decimal_string, find_from, is_white_space, parse_number, string_of,
    text_at_most, text_lines, trimmed_string, with_forward_slashes,
};

fn parsed(s: &str) -> Option<usize> {
    let chars = chars_of(s);
    parse_number(&chars, 0, chars.len())
}

#[test]
fn white_space_is_that_of_the_standard_library() {
    for c in '\0'..=char::MAX {
        assert_eq!(is_white_space(c), c.is_whitespace(), "{c:?}");
    }
}

#[test]
fn lines_are_those_of_the_standard_library() {
    for s in [
        "", "\n", "\n\n", "a", "a\n", "a\nb", "a\r\nb\r\n", "a\r\n\r\nb", "a\rb\n", "a\r", "\r\n",
        "\r", "a\r\r\n", "\u{e9}\n\u{1f600}\n",
    ] {
        let expected: Vec<String> = s.lines().map(str::to_string).collect();
        assert_eq!(text_lines(s), expected, "{s:?}");
    }
}

#[test]
fn trimming_is_that_of_the_standard_library() {
    for s in ["", " ", " a", "a ", "\t a b \u{3000}", "\u{a0}x\u{2028}", "abc"] {
        let chars = chars_of(s);
        assert_eq!(trimmed_string(&chars, 0, chars.len()), s.trim(), "{s:?}");
    }
}

#[test]
fn numbers_are_read_as_by_the_standard_library() {
    for s in [
        "", "+", "-", "0", "7", "007", "+12", "++1", "-3", " 1", "1 ", "1a", "99999",
        "18446744073709551615", "18446744073709551616", "000018446744073709551615",
        "100000000000000000000", "\u{661}",
    ] {
        assert_eq!(parsed(s), s.parse::<usize>().ok(), "{s:?}");
    }
}

#[test]
fn decimal_digits_read_back() {
    for n in [0, 1, 9, 10, 99, 100, 2000, 1234567890, usize::MAX] {
        assert_eq!(decimal_string(n), n.to_string());
        assert_eq!(parsed(&decimal_string(n)), Some(n));
    }
}

#[test]
fn two_dots_in_a_row() {
    for s in ["", ".", "..", "a..b", "a/../b", "...", ". .", "a.b.c", ".a.", "x.."] {
        assert_eq!(contains_dot_dot(s), s.contains(".."), "{s:?}");
    }
}

#[test]
fn backslashes_turn_into_slashes() {
    assert_eq!(with_forward_slashes("a\\b/c\\"), "a/b/c/");
    assert_eq!(with_forward_slashes(""), "");
}

#[test]
fn pieces_of_a_text() {
    let chars = chars_of("a:b:c");
    assert_eq!(find_from(&chars, 0, ':'), 1);
    assert_eq!(find_from(&chars, 2, ':'), 3);
    assert_eq!(find_from(&chars, 4, ':'), 5);
    assert_eq!(string_of(&chars, 1, 4), ":b:");
}

#[test]
fn texts_are_ordered_as_by_the_standard_library() {
    let samples = [
        "", "a", "A", "b", "ab", "a/b", "a-b", "z", "\u{e9}", "\u{ffff}", "\u{10000}", "aa",
    ];
    for a in samples {
        for b in samples {
            assert_eq!(text_at_most(a, b), a <= b, "{a:?} {b:?}");
        }
    }
}

#[test]
fn sorted_texts() {
    let mut expected: Vec<String> = (0..300usize)
        .map(|i| format!("{}/{}", (i * 7919) % 31, (i * 104729) % 17))
        .collect();
    let sorted = sort(expected.iter().cloned().collect::<Vec<String>>());
    expected.sort();
    assert_eq!(sorted, expected);
}
