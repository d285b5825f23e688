use pastaless::read::{read_page, MAX_LINE_LENGTH, MAX_READ_BYTES};
use pastaless::server::Pastaless;
use pastaless::types::ReadResponse;

fn page(text: &str, offset: Option<usize>, limit: Option<usize>) -> ReadResponse {
    read_page("f.txt".to_string(), text, offset, limit)
}

fn numbered(n: usize) -> String {
    (1..=n).map(|i| format!("line {i}\n")).collect()
}

#[test]
fn a_short_line_is_shown_in_full() {
    assert_eq!(Pastaless::truncate_line("abc"), ("abc".to_string(), false));
    assert_eq!(Pastaless::truncate_line(""), (String::new(), false));
}

#[test]
fn a_line_of_the_greatest_length_is_shown_in_full() {
    let line = "\u{e9}".repeat(MAX_LINE_LENGTH);
    assert_eq!(Pastaless::truncate_line(&line), (line.clone(), false));
}

#[test]
fn a_longer_line_is_cut() {
    let line = "x".repeat(2001);
    let (shown, cut) = Pastaless::truncate_line(&line);
    assert_eq!(shown, format!("{}...", "x".repeat(2000)));
    assert!(cut);
}

#[test]
fn a_whole_file() {
    let r = page("one\ntwo\r\nthree", None, None);
    assert_eq!(r.path, "f.txt");
    assert_eq!(r.start_line, 1);
    assert_eq!(r.end_line, 3);
    assert_eq!(r.total_lines, 3);
    assert_eq!(r.content, "1: one\n2: two\n3: three\n");
    assert!(!r.truncated);
}

#[test]
fn an_empty_file() {
    let r = page("", None, None);
    assert_eq!((r.start_line, r.end_line, r.total_lines), (1, 0, 0));
    assert_eq!(r.content, "");
    assert!(!r.truncated);
}

#[test]
fn a_page_in_the_middle() {
    let r = page(&numbered(10), Some(4), Some(3));
    assert_eq!((r.start_line, r.end_line, r.total_lines), (4, 6, 10));
    assert_eq!(r.content, "4: line 4\n5: line 5\n6: line 6\n");
    assert!(r.truncated);
}

#[test]
fn the_last_page_is_not_truncated() {
    let r = page(&numbered(10), Some(8), Some(3));
    assert_eq!((r.start_line, r.end_line), (8, 10));
    assert!(!r.truncated);
}

#[test]
fn a_page_behind_the_end() {
    let r = page(&numbered(3), Some(9), None);
    assert_eq!((r.start_line, r.end_line, r.total_lines), (9, 8, 3));
    assert_eq!(r.content, "");
    assert!(!r.truncated);
}

#[test]
fn offset_zero_is_the_first_line() {
    let r = page(&numbered(2), Some(0), None);
    assert_eq!((r.start_line, r.end_line), (1, 2));
}

#[test]
fn limit_zero_is_one_line() {
    let r = page(&numbered(2), None, Some(0));
    assert_eq!(r.content, "1: line 1\n");
    assert!(r.truncated);
}

#[test]
fn no_more_lines_than_the_limit() {
    for limit in [None, Some(2000), Some(2001), Some(usize::MAX)] {
        let r = page(&"\n".repeat(2001), None, limit);
        assert_eq!((r.end_line, r.total_lines), (2000, 2001));
        assert!(r.truncated);
    }
}

#[test]
fn no_more_bytes_than_a_page_holds() {
    let text = format!("{}\n", "y".repeat(1000)).repeat(60);
    let r = page(&text, None, None);
    assert!(r.content.len() <= MAX_READ_BYTES);
    assert_eq!(r.end_line, 50);
    assert_eq!(r.content.len(), 9 * 1004 + 41 * 1005);
    assert!(r.truncated);
}

#[test]
fn bytes_count_not_characters() {
    let text = format!("{}\n", "\u{1f600}".repeat(2000)).repeat(10);
    let r = page(&text, None, None);
    assert_eq!(r.end_line, 6);
    assert_eq!(r.content.len(), 6 * 8004);
    assert!(r.truncated);
}

#[test]
fn a_page_that_is_exactly_full() {
    let lines: Vec<String> = (1..=100usize)
        .map(|i| "w".repeat(512 - format!("{i}: \n").len()))
        .collect();
    let r = page(&lines.join("\n"), None, None);
    assert_eq!(r.content.len(), MAX_READ_BYTES);
    assert_eq!(r.end_line, 100);
    assert!(!r.truncated);
    let r = page(&format!("{}w", lines.join("\n")), None, None);
    assert_eq!(r.content.len(), 99 * 512);
    assert_eq!(r.end_line, 99);
    assert!(r.truncated);
}

#[test]
fn a_cut_line_marks_the_page() {
    let r = page(&format!("{}\nb\n", "x".repeat(2001)), None, None);
    assert_eq!(r.end_line, 2);
    assert!(r.truncated);
    assert_eq!(r.content, format!("1: {}...\n2: b\n", "x".repeat(2000)));
}

#[test]
fn one_page_after_the_other_shows_every_line() {
    let text: String = (0..500usize)
        .map(|i| format!("{}\n", "v".repeat(i % 300)))
        .collect();
    let mut next = 1;
    let mut content = String::new();
    loop {
        let r = page(&text, Some(next), Some(77));
        assert!(r.end_line >= r.start_line);
        content.push_str(&r.content);
        next = r.end_line + 1;
        if r.end_line == r.total_lines {
            break;
        }
    }
    let expected: String = text
        .lines()
        .enumerate()
        .map(|(i, l)| format!("{}: {}\n", i + 1, l))
        .collect();
    assert_eq!(content, expected);
}

#[test]
fn a_page_far_behind_the_end() {
    for limit in [None, Some(1), Some(2), Some(usize::MAX)] {
        let r = page("x\n", Some(usize::MAX), limit);
        assert_eq!((r.start_line, r.end_line), (usize::MAX, usize::MAX - 1));
        assert_eq!(r.total_lines, 1);
        assert_eq!(r.content, "");
        assert!(!r.truncated);
    }
    for offset in [usize::MAX - 1999, usize::MAX - 1998] {
        let r = page("x\n", Some(offset), None);
        assert_eq!((r.start_line, r.end_line), (offset, offset - 1));
        assert!(!r.truncated);
    }
}
