//! What every scan keeps true of the runs it builds.
use crate::accumulator::Run;
use crate::parser::{scan_prefix, slices_of, Scan};
use crate::scanner::{char_at, Status, Window};
use vstd::prelude::*;

verus! {

/// Whether the first `n` characters of an outside text end inside a string
/// literal: a quote opens one, and a quote that does not follow a backslash
/// closes it.
pub open spec fn in_string(text: Seq<char>, n: int) -> bool
    decreases n,
{
    if n <= 0 {
        false
    } else if in_string(text, n - 1) {
        !(text[n - 2] != '\\' && text[n - 1] == '"')
    } else {
        text[n - 1] == '"'
    }
}

/// Whether an outside text opens no comment when `following` comes after it:
/// no `/` outside of a string literal has a `*` behind it.
pub open spec fn quiet(text: Seq<char>, following: Option<char>) -> bool {
    forall|k: int|
        0 <= k < text.len() && text[k] == '/' && !(#[trigger] in_string(text, k)) ==> (if k + 1
            < text.len() {
            Some(text[k + 1])
        } else {
            following
        }) != Some('*')
}

/// What holds of every comment body that a scan collects: it is not empty, it
/// does not start with `/`, and `*/` does not occur in it.
pub open spec fn body_ok(text: Seq<char>) -> bool {
    &&& text.len() > 0
    &&& text[0] != '/'
    &&& forall|k: int| 0 <= k && k + 1 < text.len() ==> !(#[trigger] text[k] == '*' && text[k + 1] == '/')
}

/// What holds of every run that a scan has pushed: it is not empty; outside
/// text opens no comment and ends outside of a string literal; a comment body
/// is as [`body_ok`] says.
pub open spec fn run_ok(run: Run) -> bool {
    match run {
        Run::Outside(text) => text.len() > 0 && quiet(text, None) && !in_string(text, text.len() as int),
        Run::Comment(text) => body_ok(text),
    }
}

/// What holds of the runs of a whole text: each is as [`run_ok`] says, but
/// that the last one, where it is outside text, may end inside a string
/// literal.
pub open spec fn runs_ok(runs: Seq<Run>) -> bool {
    forall|i: int|
        0 <= i < runs.len() ==> match #[trigger] runs[i] {
            Run::Outside(text) => text.len() > 0 && quiet(text, None) && (i + 1 < runs.len() ==> !in_string(text, text.len() as int)),
            Run::Comment(text) => body_ok(text),
        }
}

/// What holds of the state of a scan of `src` after `n` characters.
pub open spec fn settled(src: Seq<char>, n: int, state: Scan) -> bool {
    let open = state.acc.open;
    let text = open.text();
    &&& forall|i: int| 0 <= i < state.acc.slices.len() ==> run_ok(#[trigger] state.acc.slices[i])
    &&& match state.status {
        Status::Dumb => open is Outside && !in_string(text, text.len() as int) && quiet(text, char_at(src, n)),
        Status::String => {
            &&& open is Outside
            &&& in_string(text, text.len() as int)
            &&& quiet(text, char_at(src, n))
            &&& n >= 1
            &&& text.last() == src[n - 1]
        },
        Status::Comment => {
            &&& 1 <= n < src.len()
            &&& match open {
                Run::Outside(_) => {
                    &&& quiet(text, None)
                    &&& !in_string(text, text.len() as int)
                    &&& if state.prev_status == Status::Comment {
                        text.len() == 0 && src[n - 1] == '*'
                    } else {
                        src[n] == '*'
                    }
                },
                Run::Comment(_) => {
                    &&& state.prev_status == Status::Comment
                    &&& body_ok(text)
                    &&& text.last() == src[n - 1]
                    &&& !(src[n - 1] == '*' && src[n] == '/')
                },
            }
        },
        Status::Broken => open is Outside ==> quiet(text, None) && !in_string(text, text.len() as int),
    }
}

/// Whether a text is inside a string literal after `n` characters depends on
/// those characters only.
pub proof fn lemma_in_string_prefix(a: Seq<char>, b: Seq<char>, n: int)
    requires
        0 <= n <= a.len(),
        n <= b.len(),
        forall|i: int| 0 <= i < n ==> a[i] == b[i],
    ensures
        in_string(a, n) == in_string(b, n),
    decreases n,
{
    if n > 0 {
        lemma_in_string_prefix(a, b, n - 1);
    }
}

/// An outside text that opens no comment before one character opens none at
/// the end of the text or before any character but `*`.
pub proof fn lemma_quiet_following(text: Seq<char>, a: Option<char>, b: Option<char>)
    requires
        quiet(text, a),
        b != Some('*'),
    ensures
        quiet(text, b),
{
    assert forall|k: int|
        0 <= k < text.len() && text[k] == '/' && !(#[trigger] in_string(text, k)) implies (if k + 1
        < text.len() {
        Some(text[k + 1])
    } else {
        b
    }) != Some('*') by {}
}

/// An outside text with one more character opens no comment, if it opened
/// none before that character and the character opens none either.
pub proof fn lemma_quiet_push(text: Seq<char>, c: char, following: Option<char>)
    requires
        quiet(text, Some(c)),
        c == '/' && !in_string(text, text.len() as int) ==> following != Some('*'),
    ensures
        quiet(text.push(c), following),
{
    let longer = text.push(c);
    assert forall|k: int|
        0 <= k < longer.len() && longer[k] == '/' && !(#[trigger] in_string(longer, k)) implies (if k
        + 1 < longer.len() {
        Some(longer[k + 1])
    } else {
        following
    }) != Some('*') by {
        lemma_in_string_prefix(text, longer, k);
        if k < text.len() {
            assert(!in_string(text, k));
        }
    }
}

/// One step keeps the state of a scan as [`settled`] says.
proof fn lemma_step_settled(src: Seq<char>, n: int, before: Scan)
    requires
        0 <= n < src.len(),
        settled(src, n, before),
    ensures
        settled(src, n + 1, before.advance(Window::at(src, n))),
{
    let after = before.advance(Window::at(src, n));
    let curr = src[n];
    let next = char_at(src, n + 1);
    let text = before.acc.open.text();
    match before.status {
        Status::Broken => {},
        Status::Dumb | Status::String => {
            if after.status == Status::Comment {
                lemma_quiet_following(text, char_at(src, n), None);
            } else {
                let longer = text.push(curr);
                assert(after.acc.open == Run::Outside(longer));
                assert(after.acc.slices == before.acc.slices);
                lemma_in_string_prefix(text, longer, text.len() as int);
                lemma_quiet_push(text, curr, next);
                assert(longer.last() == curr);
                if before.status == Status::String {
                    assert(longer[longer.len() - 2] == text.last());
                }
            }
        },
        Status::Comment => {
            if after.status != Status::Broken {
                assert(after.prev_status == Status::Comment);
                match before.acc.open {
                    Run::Outside(_) => {
                        assert(before.acc.finish().drop_last() =~= before.acc.slices || before.acc.finish()
                            == before.acc.slices);
                    },
                    Run::Comment(_) => {
                        assert(before.acc.finish().drop_last() =~= before.acc.slices);
                    },
                }
                assert forall|i: int| 0 <= i < before.acc.finish().len() implies run_ok(
                    #[trigger] before.acc.finish()[i],
                ) by {
                    if i < before.acc.slices.len() {
                        assert(before.acc.finish()[i] == before.acc.slices[i]);
                    }
                }
                if after.acc.open is Comment {
                    let body = after.acc.open.text();
                    assert(body.last() == curr);
                    if before.acc.open is Comment {
                        assert(body == text.push(curr));
                        assert forall|k: int| 0 <= k && k + 1 < body.len() implies !(#[trigger] body[k] == '*'
                            && body[k + 1] == '/') by {
                            if k + 1 < text.len() {
                                assert(body[k] == text[k] && body[k + 1] == text[k + 1]);
                            }
                        }
                    } else {
                        assert(body == seq![curr]);
                    }
                }
            }
        },
    }
}

/// The state of a scan is, after any number of characters, as [`settled`]
/// says.
pub proof fn lemma_scan_settled(src: Seq<char>, n: int)
    requires
        0 <= n <= src.len(),
    ensures
        settled(src, n, scan_prefix(src, n)),
    decreases n,
{
    if n > 0 {
        lemma_scan_settled(src, n - 1);
        lemma_step_settled(src, n - 1, scan_prefix(src, n - 1));
    }
}

/// The runs that a text is separated into are as [`runs_ok`] says.
pub proof fn lemma_slices_ok(src: Seq<char>)
    ensures
        runs_ok(slices_of(src)),
{
    lemma_scan_settled(src, src.len() as int);
    let end = scan_prefix(src, src.len() as int);
    let runs = slices_of(src);
    assert forall|i: int| 0 <= i < runs.len() implies match #[trigger] runs[i] {
        Run::Outside(text) => text.len() > 0 && quiet(text, None) && (i + 1 < runs.len() ==> !in_string(text, text.len() as int)),
        Run::Comment(text) => body_ok(text),
    } by {
        if i < end.acc.slices.len() {
            assert(runs[i] == end.acc.slices[i]);
            assert(run_ok(end.acc.slices[i]));
        } else {
            assert(runs[i] == end.acc.open);
            if end.acc.open is Outside {
                lemma_quiet_following(end.acc.open.text(), char_at(src, src.len() as int), None);
            }
        }
    }
}

} // verus!
