use script_tool::text::{join_lines, split_lines};

#[test]
fn split_keeps_trailing_empty_line() {
    assert_eq!(split_lines("a\nb\n"), vec!["a".to_string(), "b".to_string(), String::new()]);
}

#[test]
fn split_empty_text() {
    assert_eq!(split_lines(""), vec![String::new()]);
}

#[test]
fn join_inverts_split() {
    for t in ["", "x", "a\nb", "a\n\nb\n", "\n"] {
        assert_eq!(join_lines(&split_lines(t)), t);
    }
    assert_eq!(join_lines(&Vec::new()), "");
}
