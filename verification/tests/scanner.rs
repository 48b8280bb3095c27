use comment_scan::scanner::{
    handle_in_comment, handle_in_dumb, handle_in_string, step, Output, Status, Window,
};

#[test]
fn dumb_emits_plain_character() {
    assert_eq!(
        handle_in_dumb((), 'a', Some('b'), ()),
        (Status::Dumb, Some(Output::Outside('a')))
    );
}

#[test]
fn dumb_quote_opens_string_and_is_emitted() {
    assert_eq!(
        handle_in_dumb((), '"', Some('x'), ()),
        (Status::String, Some(Output::Outside('"')))
    );
}

#[test]
fn dumb_slash_star_opens_comment_silently() {
    assert_eq!(handle_in_dumb((), '/', Some('*'), ()), (Status::Comment, None));
}

#[test]
fn dumb_slash_without_star_is_plain() {
    assert_eq!(
        handle_in_dumb((), '/', Some('/'), ()),
        (Status::Dumb, Some(Output::Outside('/')))
    );
    assert_eq!(
        handle_in_dumb((), '/', None, ()),
        (Status::Dumb, Some(Output::Outside('/')))
    );
}

#[test]
fn string_keeps_comment_like_characters() {
    assert_eq!(
        handle_in_string('/', '*', (), ()),
        (Status::String, Some(Output::Outside('*')))
    );
}

#[test]
fn string_closes_on_unescaped_quote() {
    assert_eq!(
        handle_in_string('a', '"', (), ()),
        (Status::Dumb, Some(Output::Outside('"')))
    );
}

#[test]
fn string_stays_open_on_escaped_quote() {
    assert_eq!(
        handle_in_string('\\', '"', (), ()),
        (Status::String, Some(Output::Outside('"')))
    );
}

#[test]
fn comment_closes_on_star_slash() {
    assert_eq!(
        handle_in_comment('*', '/', Some('x'), Status::Comment),
        (Status::Dumb, None)
    );
    assert_eq!(handle_in_comment('*', '/', None, Status::Comment), (Status::Dumb, None));
}

#[test]
fn comment_breaks_at_end_of_text() {
    assert_eq!(handle_in_comment('a', 'b', None, Status::Comment), (Status::Broken, None));
    assert_eq!(handle_in_comment('/', '*', None, Status::Dumb), (Status::Broken, None));
}

#[test]
fn comment_swallows_star_before_slash() {
    assert_eq!(
        handle_in_comment('a', '*', Some('/'), Status::Comment),
        (Status::Comment, None)
    );
}

#[test]
fn comment_emits_body_character() {
    assert_eq!(
        handle_in_comment('*', 'a', Some('b'), Status::Comment),
        (Status::Comment, Some(Output::Comment('a')))
    );
    assert_eq!(
        handle_in_comment('a', '*', Some('b'), Status::Comment),
        (Status::Comment, Some(Output::Comment('*')))
    );
    assert_eq!(
        handle_in_comment('a', '/', Some('b'), Status::Comment),
        (Status::Comment, Some(Output::Comment('/')))
    );
}

#[test]
fn comment_swallows_opening_star() {
    assert_eq!(handle_in_comment('/', '*', Some('a'), Status::Dumb), (Status::Comment, None));
}

#[test]
fn window_advances_by_one_character() {
    let w = Window::new();
    assert_eq!(w, Window { prev: None, curr: None, next: None });
    let w = w.advance(Some('a'));
    assert_eq!(w, Window { prev: None, curr: None, next: Some('a') });
    let w = w.advance(Some('b'));
    assert_eq!(w, Window { prev: None, curr: Some('a'), next: Some('b') });
    let w = w.advance(None);
    assert_eq!(w, Window { prev: Some('a'), curr: Some('b'), next: None });
}

#[test]
fn step_does_nothing_while_priming() {
    let w = Window { prev: None, curr: None, next: Some('/') };
    assert_eq!(step(w, Status::Dumb, Status::Dumb), (Status::Dumb, None));
}

#[test]
fn step_classifies_first_character_as_outside() {
    let w = Window { prev: None, curr: Some('/'), next: Some('*') };
    assert_eq!(step(w, Status::Dumb, Status::Dumb), (Status::Comment, None));
    let w = Window { prev: None, curr: Some('x'), next: None };
    assert_eq!(step(w, Status::Dumb, Status::Dumb), (Status::Dumb, Some(Output::Outside('x'))));
}

#[test]
fn step_dispatches_by_status() {
    let w = Window { prev: Some('*'), curr: Some('/'), next: Some('"') };
    assert_eq!(step(w, Status::Comment, Status::Comment), (Status::Dumb, None));
    assert_eq!(step(w, Status::Dumb, Status::Dumb), (Status::Dumb, Some(Output::Outside('/'))));
    assert_eq!(step(w, Status::String, Status::String), (Status::String, Some(Output::Outside('/'))));
    assert_eq!(step(w, Status::Broken, Status::Comment), (Status::Broken, None));
}
