use comment_scan::format::format_comment;

#[test]
fn single_line_body_is_unchanged() {
    assert_eq!(format_comment(" hey, just comments ".to_string()), " hey, just comments ");
    assert_eq!(format_comment(String::new()), "");
}

#[test]
fn multi_line_body_gets_both_newlines() {
    assert_eq!(format_comment("a\nb".to_string()), "\na\nb\n");
}

#[test]
fn leading_newline_is_not_doubled() {
    assert_eq!(format_comment("\na".to_string()), "\na\n");
}

#[test]
fn trailing_newline_is_not_doubled() {
    assert_eq!(format_comment("a\n".to_string()), "\na\n");
}

#[test]
fn padded_body_is_unchanged() {
    assert_eq!(format_comment("\na\nb\n".to_string()), "\na\nb\n");
    assert_eq!(format_comment("\n".to_string()), "\n");
}

#[test]
fn formatting_twice_changes_nothing_more() {
    let once = format_comment(" * a\n * b".to_string());
    assert_eq!(once, "\n * a\n * b\n");
    assert_eq!(format_comment(once.clone()), once);
}

#[test]
fn non_ascii_body_is_kept() {
    assert_eq!(format_comment("é\nü".to_string()), "\né\nü\n");
}
