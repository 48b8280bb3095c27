use comment_scan::accumulator::Slice;
use comment_scan::parser::{parse, render, scan, ParseError, Scanned};
use comment_scan::scanner::Status;

fn outside(s: &str) -> Slice {
    Slice::Outside(s.to_string())
}

fn comment(s: &str) -> Slice {
    Slice::Comment(s.to_string())
}

fn ok(s: &str) -> Result<String, ParseError> {
    Ok(s.to_string())
}

#[test]
fn empty_input_gives_no_slices_and_empty_output() {
    assert_eq!(scan(""), Scanned { slices: vec![], status: Status::Dumb });
    assert_eq!(parse(""), ok(""));
}

#[test]
fn plain_text_is_output_unchanged() {
    let src = "fn main() { let x = 1 / 2 * 3; }\n";
    assert_eq!(scan(src), Scanned { slices: vec![outside(src)], status: Status::Dumb });
    assert_eq!(parse(src), ok(src));
}

#[test]
fn last_character_is_kept() {
    assert_eq!(parse("abc"), ok("abc"));
    assert_eq!(parse("a"), ok("a"));
    assert_eq!(parse("/"), ok("/"));
    assert_eq!(parse("*"), ok("*"));
}

#[test]
fn single_comment_round_trips() {
    let src = "/* hey, just comments */";
    assert_eq!(
        scan(src),
        Scanned { slices: vec![comment(" hey, just comments ")], status: Status::Dumb }
    );
    assert_eq!(parse(src), ok(src));
}

#[test]
fn comment_between_code_round_trips() {
    let src = "a /* b */ c";
    assert_eq!(scan(src).slices, vec![outside("a "), comment(" b "), outside(" c")]);
    assert_eq!(parse(src), ok(src));
}

#[test]
fn comment_body_keeps_stars_and_slashes() {
    assert_eq!(scan("/*a*b/c**/").slices, vec![comment("a*b/c*")]);
    assert_eq!(parse("/*a*b/c**/"), ok("/*a*b/c**/"));
    assert_eq!(scan("/***/").slices, vec![comment("*")]);
}

#[test]
fn multi_line_comment_is_padded_with_newlines() {
    assert_eq!(scan("/*a\nb*/").slices, vec![comment("a\nb")]);
    assert_eq!(parse("/*a\nb*/"), ok("/*\na\nb\n*/"));
}

#[test]
fn adjacent_comments_give_two_comment_slices() {
    assert_eq!(
        scan("/*a*//*b*/"),
        Scanned { slices: vec![comment("a"), comment("b")], status: Status::Dumb }
    );
    assert_eq!(parse("/*a*//*b*/"), ok("/*a*//*b*/"));
}

#[test]
fn unterminated_comment_is_reported() {
    assert_eq!(
        scan("code/*oops"),
        Scanned { slices: vec![outside("code")], status: Status::Broken }
    );
    assert_eq!(
        parse("code/*oops"),
        Err(ParseError::UnterminatedComment("code".to_string()))
    );
}

#[test]
fn unterminated_comment_right_at_the_end() {
    assert_eq!(scan("a/*"), Scanned { slices: vec![outside("a")], status: Status::Broken });
    assert_eq!(scan("/*"), Scanned { slices: vec![], status: Status::Broken });
    assert_eq!(scan("a/*b"), Scanned { slices: vec![outside("a")], status: Status::Broken });
    assert_eq!(scan("a/*b*"), Scanned { slices: vec![outside("a")], status: Status::Broken });
}

#[test]
fn unterminated_comment_after_a_finished_one() {
    assert_eq!(
        parse("x/*a\nb*/y/*z"),
        Err(ParseError::UnterminatedComment("x/*\na\nb\n*/y".to_string()))
    );
}

#[test]
fn string_literal_hides_comment_delimiters() {
    let src = "let s = \"/* not a comment */\";";
    assert_eq!(scan(src).slices, vec![outside(src)]);
    assert_eq!(parse(src), ok(src));
}

#[test]
fn escaped_quote_does_not_close_the_string() {
    let src = "\"a\\\"/*b*/\" /*c*/";
    assert_eq!(scan(src).slices, vec![outside("\"a\\\"/*b*/\" "), comment("c")]);
    assert_eq!(parse(src), ok(src));
}

#[test]
fn backslash_before_closing_quote_keeps_the_string_open() {
    let src = "\"a\\\\\"/*b*/";
    assert_eq!(scan(src), Scanned { slices: vec![outside(src)], status: Status::String });
}

#[test]
fn unterminated_string_is_benign() {
    let src = "x = \"abc /* d";
    assert_eq!(scan(src), Scanned { slices: vec![outside(src)], status: Status::String });
    assert_eq!(parse(src), ok(src));
}

#[test]
fn quote_inside_comment_opens_no_string() {
    assert_eq!(scan("/*\"*/x").slices, vec![comment("\""), outside("x")]);
}

#[test]
fn empty_comment_disappears() {
    assert_eq!(scan("/**/"), Scanned { slices: vec![], status: Status::Dumb });
    assert_eq!(parse("/**/"), ok(""));
    assert_eq!(scan("a/**/b").slices, vec![outside("a"), outside("b")]);
    assert_eq!(parse("a/**/b"), ok("ab"));
}

#[test]
fn slash_right_after_the_opening_closes_the_comment() {
    assert_eq!(scan("/*/").slices, Vec::<Slice>::new());
    assert_eq!(parse("/*/*/"), ok("*/"));
}

#[test]
fn render_wraps_and_formats_comments() {
    let slices = vec![outside("a"), comment("b\nc"), comment("d"), outside("e")];
    assert_eq!(render(&slices), "a/*\nb\nc\n*//*d*/e");
    assert_eq!(render(&Vec::new()), "");
}

#[test]
fn rewriting_twice_changes_nothing_more() {
    let src = "int x; /* one\n two */ char *s = \"/*\"; /**/ /* three */\n";
    let once = parse(src).unwrap();
    assert_eq!(once, "int x; /*\n one\n two \n*/ char *s = \"/*\";  /* three */\n");
    assert_eq!(parse(&once), Ok(once.clone()));
}

#[test]
fn non_ascii_text_is_kept() {
    assert_eq!(parse("é/*ü\nß*/ω"), ok("é/*\nü\nß\n*/ω"));
}

#[test]
fn removed_comment_can_join_a_delimiter() {
    let once = parse("//**/*a\nb*/").unwrap();
    assert_eq!(once, "/*a\nb*/");
    assert_eq!(scan("//**/*a\nb*/").slices, vec![outside("/"), outside("*a\nb*/")]);
    assert_eq!(parse(&once), ok("/*\na\nb\n*/"));
}

#[test]
fn string_literal_before_an_unterminated_comment_is_kept() {
    assert_eq!(
        parse("s = \"/*x*/\"; /* open"),
        Err(ParseError::UnterminatedComment("s = \"/*x*/\"; ".to_string()))
    );
}

#[test]
fn comment_closed_by_the_last_character_is_complete() {
    assert_eq!(scan("x/*y*/"), Scanned { slices: vec![outside("x"), comment("y")], status: Status::Dumb });
}

#[test]
fn star_slash_outside_a_comment_is_plain_text() {
    assert_eq!(parse("a */ b"), ok("a */ b"));
}

#[test]
fn slash_star_slash_inside_a_comment_body() {
    assert_eq!(scan("/*a/*b*/").slices, vec![comment("a/*b")]);
    assert_eq!(parse("/*a/*b*/c*/"), ok("/*a/*b*/c*/"));
}

#[test]
fn rewriting_an_error_output_changes_nothing_more() {
    let partial = match parse("a /*b\nc*/ d /*e") {
        Err(ParseError::UnterminatedComment(text)) => text,
        Ok(_) => panic!("the comment is not closed"),
    };
    assert_eq!(partial, "a /*\nb\nc\n*/ d ");
    assert_eq!(parse(&partial), Ok(partial.clone()));
}

#[test]
fn no_slice_is_empty() {
    for src in ["", "/**/", "/*/", "a/**//**/b", "/*a*//**/", "\"\"", "/**/\"/**/\"/**/", "x/*"] {
        for slice in scan(src).slices {
            match slice {
                Slice::Outside(text) => assert!(!text.is_empty()),
                Slice::Comment(text) => assert!(!text.is_empty()),
            }
        }
    }
}

#[test]
fn scan_never_ends_inside_a_comment() {
    for src in ["", "/", "/*", "/**", "/***", "/**/", "/*/", "a/*b*/", "\"/*", "/*\"*/\""] {
        assert_ne!(scan(src).status, Status::Comment);
    }
    assert_eq!(scan("/**").status, Status::Broken);
    assert_eq!(scan("\"/*").status, Status::String);
    assert_eq!(scan("/*\"*/\"").status, Status::String);
}
