//! The scanner: a four-state machine over a three-character window.
use vstd::prelude::*;

verus! {

/// Where the scanner stands relative to strings and comments.
#[derive(Clone, Copy, Debug, PartialEq, Eq, Structural)]
pub enum Status {
    /// Inside a `/* ... */` block.
    Comment,
    /// Inside a double-quoted literal.
    String,
    /// Outside of any string or comment.
    Dumb,
    /// A comment was still open when the text ended; nothing more is classified.
    Broken,
}

/// What one scanner step emits for the character it classified.
#[derive(Clone, Copy, Debug, PartialEq, Eq, Structural)]
pub enum Output {
    /// The character belongs to the text outside of comments.
    Outside(char),
    /// The character belongs to a comment body.
    Comment(char),
}

/// The step taken outside of strings and comments: a quote opens a string and
/// is emitted, a `/` that is followed by `*` opens a comment and is swallowed,
/// anything else is emitted as outside text.
pub open spec fn dumb_rule(curr: char, next: Option<char>) -> (Status, Option<Output>) {
    if curr == '"' {
        (Status::String, Some(Output::Outside(curr)))
    } else if curr == '/' && next == Some('*') {
        (Status::Comment, None)
    } else {
        (Status::Dumb, Some(Output::Outside(curr)))
    }
}

/// The step taken inside a string: every character is emitted as outside text,
/// and a quote that does not follow a backslash closes the string.
pub open spec fn string_rule(prev: char, curr: char) -> (Status, Option<Output>) {
    if prev != '\\' && curr == '"' {
        (Status::Dumb, Some(Output::Outside(curr)))
    } else {
        (Status::String, Some(Output::Outside(curr)))
    }
}

/// The step taken inside a comment. In order: a `/` after a `*` closes the
/// comment; the end of the text breaks the scan; a `*` before a `/` is
/// swallowed; a character seen when the step before was already inside the
/// comment is emitted as comment text; what is left is the `*` of the opening
/// delimiter, which is swallowed.
pub open spec fn comment_rule(prev: char, curr: char, next: Option<char>, prev_status: Status) -> (
    Status,
    Option<Output>,
) {
    if prev == '*' && curr == '/' {
        (Status::Dumb, None)
    } else if next is None {
        (Status::Broken, None)
    } else if next == Some('/') && curr == '*' {
        (Status::Comment, None)
    } else if prev_status == Status::Comment {
        (Status::Comment, Some(Output::Comment(curr)))
    } else {
        (Status::Comment, None)
    }
}

/// Whether the comment step's last rule, if it is the one that applies, sees
/// the `*` of an opening delimiter.
pub open spec fn comment_window_ok(prev: char, curr: char, next: Option<char>, prev_status: Status) -> bool {
    ||| prev == '*' && curr == '/'
    ||| next is None
    ||| next == Some('/') && curr == '*'
    ||| prev_status == Status::Comment
    ||| curr == '*'
}

/// One scanner step inside a comment.
pub fn handle_in_comment(prev: char, curr: char, next: Option<char>, prev_status: Status) -> (result: (
    Status,
    Option<Output>,
))
    requires
        comment_window_ok(prev, curr, next, prev_status),
    ensures
        result == comment_rule(prev, curr, next, prev_status),
{
    if prev == '*' && curr == '/' {
        return (Status::Dumb, None);
    }
    let next = match next {
        Some(x) => x,
        None => return (Status::Broken, None),
    };
    if next == '/' && curr == '*' {
        return (Status::Comment, None);
    }
    if Status::Comment == prev_status {
        return (Status::Comment, Some(Output::Comment(curr)));
    }
    assert(curr == '*');
    (Status::Comment, None)
}

/// One scanner step inside a string.
pub fn handle_in_string(prev: char, curr: char, _next: (), _prev_status: ()) -> (result: (
    Status,
    Option<Output>,
))
    ensures
        result == string_rule(prev, curr),
{
    if prev != '\\' && curr == '"' {
        return (Status::Dumb, Some(Output::Outside(curr)));
    }
    (Status::String, Some(Output::Outside(curr)))
}

/// One scanner step outside of strings and comments.
pub fn handle_in_dumb(_prev: (), curr: char, next: Option<char>, _prev_status: ()) -> (result: (
    Status,
    Option<Output>,
))
    ensures
        result == dumb_rule(curr, next),
{
    if curr == '"' {
        return (Status::String, Some(Output::Outside(curr)));
    }
    if curr == '/' && next == Some('*') {
        return (Status::Comment, None);
    }
    (Status::Dumb, Some(Output::Outside(curr)))
}

/// The three characters a step looks at: the one being classified, the one
/// before it and the one after it. A slot is empty where the text has no
/// character at that place.
#[derive(Clone, Copy, Debug, PartialEq, Eq)]
pub struct Window {
    pub prev: Option<char>,
    pub curr: Option<char>,
    pub next: Option<char>,
}

/// The character of `src` at index `i`, if there is one.
pub open spec fn char_at(src: Seq<char>, i: int) -> Option<char> {
    if 0 <= i < src.len() {
        Some(src[i])
    } else {
        None
    }
}

impl Window {
    /// The window around index `i` of `src`.
    pub open spec fn at(src: Seq<char>, i: int) -> Window {
        Window { prev: char_at(src, i - 1), curr: char_at(src, i), next: char_at(src, i + 1) }
    }

    /// The window before any character was read.
    pub fn new() -> (result: Window)
        ensures
            result == (Window { prev: None, curr: None, next: None }),
    {
        Window { prev: None, curr: None, next: None }
    }

    /// The window moved on by one character, with `next` as its lookahead.
    pub fn advance(self, next: Option<char>) -> (result: Window)
        ensures
            result == (Window { prev: self.curr, curr: self.next, next }),
    {
        Window { prev: self.curr, curr: self.next, next }
    }
}

/// One scanner step on a window: the new status and what is emitted.
///
/// While the window holds no current character the scanner is being primed,
/// and nothing happens. The first character of a text, which has nothing
/// before it, is always classified as outside of strings and comments. Any
/// other is classified by the rule of the status at hand.
pub open spec fn step_rule(window: Window, status: Status, prev_status: Status) -> (Status, Option<Output>) {
    match (window.prev, window.curr) {
        (_, None) => (status, None),
        (None, Some(curr)) => dumb_rule(curr, window.next),
        (Some(prev), Some(curr)) => match status {
            Status::Comment => comment_rule(prev, curr, window.next, prev_status),
            Status::Dumb => dumb_rule(curr, window.next),
            Status::String => string_rule(prev, curr),
            Status::Broken => (Status::Broken, None),
        },
    }
}

/// Whether a step on this window is sound: where the comment rule applies, it
/// finds the `*` of an opening delimiter where it expects one.
pub open spec fn step_window_ok(window: Window, status: Status, prev_status: Status) -> bool {
    match (window.prev, window.curr) {
        (Some(prev), Some(curr)) => status == Status::Comment ==> comment_window_ok(
            prev,
            curr,
            window.next,
            prev_status,
        ),
        _ => true,
    }
}

/// One scanner step on a window, dispatched by the status at hand.
pub fn step(window: Window, status: Status, prev_status: Status) -> (result: (Status, Option<Output>))
    requires
        step_window_ok(window, status, prev_status),
    ensures
        result == step_rule(window, status, prev_status),
{
    match (window.prev, window.curr) {
        (_, None) => (status, None),
        (None, Some(curr)) => handle_in_dumb((), curr, window.next, ()),
        (Some(prev), Some(curr)) => match status {
            Status::Comment => handle_in_comment(prev, curr, window.next, prev_status),
            Status::Dumb => handle_in_dumb((), curr, window.next, ()),
            Status::String => handle_in_string(prev, curr, (), ()),
            Status::Broken => (Status::Broken, None),
        },
    }
}

} // verus!
