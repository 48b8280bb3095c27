use comment_scan::accumulator::{Accumulator, Slice};
use comment_scan::scanner::Output;

fn outside(s: &str) -> Slice {
    Slice::Outside(s.to_string())
}

fn comment(s: &str) -> Slice {
    Slice::Comment(s.to_string())
}

#[test]
fn fresh_accumulator_finishes_empty() {
    assert_eq!(Accumulator::new().finish(), Vec::<Slice>::new());
    assert_eq!(Accumulator::new().abandon(), Vec::<Slice>::new());
}

#[test]
fn outside_characters_join_one_slice() {
    let mut acc = Accumulator::new();
    acc.feed(Some(Output::Outside('a')), false);
    acc.feed(Some(Output::Outside('b')), false);
    assert_eq!(acc.finish(), vec![outside("ab")]);
}

#[test]
fn leading_comment_leaves_no_empty_outside_slice() {
    let mut acc = Accumulator::new();
    acc.feed(Some(Output::Comment('a')), true);
    assert_eq!(acc.finish(), vec![comment("a")]);
}

#[test]
fn comment_after_outside_pushes_outside() {
    let mut acc = Accumulator::new();
    acc.feed(Some(Output::Outside('x')), false);
    acc.feed(Some(Output::Comment('a')), true);
    acc.feed(Some(Output::Comment('b')), true);
    assert_eq!(acc.finish(), vec![outside("x"), comment("ab")]);
}

#[test]
fn outside_after_comment_pushes_comment() {
    let mut acc = Accumulator::new();
    acc.feed(Some(Output::Comment('a')), true);
    acc.feed(Some(Output::Outside('x')), false);
    assert_eq!(acc.finish(), vec![comment("a"), outside("x")]);
}

#[test]
fn silent_step_inside_comment_closes_the_open_slice() {
    let mut acc = Accumulator::new();
    acc.feed(Some(Output::Comment('a')), true);
    acc.feed(None, true);
    acc.feed(None, true);
    acc.feed(Some(Output::Comment('b')), true);
    assert_eq!(acc.finish(), vec![comment("a"), comment("b")]);
}

#[test]
fn silent_step_outside_comment_changes_nothing() {
    let mut acc = Accumulator::new();
    acc.feed(Some(Output::Outside('a')), false);
    acc.feed(None, false);
    acc.feed(Some(Output::Outside('b')), false);
    assert_eq!(acc.finish(), vec![outside("ab")]);
}

#[test]
fn abandon_drops_an_open_comment() {
    let mut acc = Accumulator::new();
    acc.feed(Some(Output::Outside('x')), false);
    acc.feed(None, true);
    acc.feed(Some(Output::Comment('a')), true);
    assert_eq!(acc.abandon(), vec![outside("x")]);
}

#[test]
fn abandon_keeps_open_outside_text() {
    let mut acc = Accumulator::new();
    acc.feed(Some(Output::Outside('x')), false);
    acc.feed(None, false);
    assert_eq!(acc.abandon(), vec![outside("x")]);
}
