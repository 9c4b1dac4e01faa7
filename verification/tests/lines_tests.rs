use minigrep::search;
use minigrep::split_lines;

#[test]
fn splits_on_newlines() {
    assert_eq!(split_lines("a\nb\nc"), vec!["a", "b", "c"]);
}

#[test]
fn trailing_separator_adds_no_line() {
    assert_eq!(split_lines("a\nb\n"), vec!["a", "b"]);
    assert_eq!(split_lines("a\nb"), vec!["a", "b"]);
}

#[test]
fn carriage_return_newline_is_one_separator() {
    assert_eq!(split_lines("a\r\nb\r\n"), vec!["a", "b"]);
}

#[test]
fn final_carriage_return_without_newline_is_kept() {
    assert_eq!(split_lines("a\r\nb\r"), vec!["a", "b\r"]);
}

#[test]
fn empty_interior_lines_are_kept() {
    assert_eq!(split_lines("a\n\nb"), vec!["a", "", "b"]);
    assert_eq!(split_lines("\na"), vec!["", "a"]);
}

#[test]
fn empty_text_has_no_lines() {
    assert_eq!(split_lines(""), Vec::<&str>::new());
}

#[test]
fn matches_are_reported_with_original_line_endings_stripped() {
    assert_eq!(search("b", "a\r\nb\r\nc"), vec!["b"]);
}
