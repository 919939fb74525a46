use stream_scanner::lines::{count_lines, create_chunk_from_lines};

#[test]
fn chunk_from_lines_puts_newlines_between_lines() {
    let lines = vec!["first".to_string(), "second".to_string(), "third".to_string()];
    assert_eq!(create_chunk_from_lines(&lines), b"first\nsecond\nthird".to_vec());
}

#[test]
fn chunk_from_one_line_has_no_newline() {
    let lines = vec!["only".to_string()];
    assert_eq!(create_chunk_from_lines(&lines), b"only".to_vec());
}

#[test]
fn chunk_from_no_lines_is_empty() {
    let lines: Vec<String> = Vec::new();
    assert_eq!(create_chunk_from_lines(&lines), Vec::<u8>::new());
}

#[test]
fn chunk_from_lines_keeps_empty_lines_and_non_ascii() {
    let lines = vec!["".to_string(), "é".to_string(), "".to_string()];
    assert_eq!(create_chunk_from_lines(&lines), vec![b'\n', 0xc3, 0xa9, b'\n']);
}

#[test]
fn count_lines_counts_newlines_and_a_last_open_line() {
    assert_eq!(count_lines(b""), 0);
    assert_eq!(count_lines(b"\n"), 1);
    assert_eq!(count_lines(b"abc"), 1);
    assert_eq!(count_lines(b"line1\nline2\nline3\n"), 3);
    assert_eq!(count_lines(b"a\nb"), 2);
    assert_eq!(count_lines(b"\nline6\n\n"), 3);
}
