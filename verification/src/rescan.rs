//! Scanning a text that was rendered from runs.
use crate::accumulator::{Accumulation, Run};
use crate::format::{format_rule, has_newline, lemma_format_idempotent};
use crate::parser::{is_unterminated, parsed, piece, rendered, scan_prefix, Scan};
use crate::scanner::{char_at, Status, Window};
use crate::shape::{body_ok, in_string, quiet, runs_ok};
use vstd::prelude::*;

verus! {

/// Whether no two outside runs that follow one another spell `/*` where they
/// meet.
pub open spec fn seamless(runs: Seq<Run>) -> bool {
    forall|i: int|
        0 <= i && i + 1 < runs.len() ==> !((#[trigger] runs[i]) is Outside && runs[i + 1] is Outside
            && runs[i].text().last() == '/' && runs[i + 1].text().first() == '*')
}

/// Rendering runs and one more run appends that run's piece.
pub proof fn lemma_rendered_push(runs: Seq<Run>, run: Run)
    ensures
        rendered(runs.push(run)) == rendered(runs) + piece(run),
{
    assert(runs.push(run).drop_last() =~= runs);
}

/// Rendering two sequences of runs, one after the other, gives the two
/// rendered texts, one after the other.
pub proof fn lemma_rendered_concat(a: Seq<Run>, b: Seq<Run>)
    ensures
        rendered(a + b) == rendered(a) + rendered(b),
    decreases b.len(),
{
    if b.len() == 0 {
        assert(a + b =~= a);
        assert(rendered(a) + rendered(b) =~= rendered(a));
    } else {
        lemma_rendered_concat(a, b.drop_last());
        assert((a + b).drop_last() =~= a + b.drop_last());
        assert(rendered(a + b) =~= rendered(a) + rendered(b));
    }
}

/// The rendered text of runs is that of the runs before the one at `j`, then
/// the piece of that run, then the text of the runs behind it.
pub proof fn lemma_rendered_at(runs: Seq<Run>, j: int)
    requires
        0 <= j < runs.len(),
    ensures
        rendered(runs) == rendered(runs.subrange(0, j)) + piece(runs[j]) + rendered(
            runs.subrange(j + 1, runs.len() as int),
        ),
        rendered(runs.subrange(0, j + 1)) == rendered(runs.subrange(0, j)) + piece(runs[j]),
{
    let front = runs.subrange(0, j);
    let back = runs.subrange(j + 1, runs.len() as int);
    lemma_rendered_push(front, runs[j]);
    assert(front.push(runs[j]) =~= runs.subrange(0, j + 1));
    lemma_rendered_concat(runs.subrange(0, j + 1), back);
    assert(runs.subrange(0, j + 1) + back =~= runs);
}

/// The runs at the end of an accumulation whose open run is outside text
/// render as the pushed runs do, followed by that text.
pub proof fn lemma_rendered_finish(acc: Accumulation)
    requires
        acc.open is Outside,
    ensures
        rendered(acc.finish()) == rendered(acc.slices) + acc.open.text(),
{
    if acc.open.is_blank() {
        assert(rendered(acc.slices) + acc.open.text() =~= rendered(acc.slices));
    } else {
        lemma_rendered_push(acc.slices, acc.open);
    }
}

/// Scanning outside text that opens no comment: every character joins the
/// open run, and the status follows the string literals of the text.
pub proof fn lemma_scan_text(s: Seq<char>, p: int, text: Seq<char>, i: int)
    requires
        0 <= p,
        p + text.len() <= s.len(),
        forall|k: int| 0 <= k < text.len() ==> s[p + k] == text[k],
        quiet(text, char_at(s, p + text.len())),
        scan_prefix(s, p).status == Status::Dumb,
        scan_prefix(s, p).acc.open is Outside,
        0 <= i <= text.len(),
    ensures
        scan_prefix(s, p + i).status == (if in_string(text, i) {
            Status::String
        } else {
            Status::Dumb
        }),
        scan_prefix(s, p + i).acc.slices == scan_prefix(s, p).acc.slices,
        scan_prefix(s, p + i).acc.open == Run::Outside(
            scan_prefix(s, p).acc.open.text() + text.subrange(0, i),
        ),
    decreases i,
{
    let start = scan_prefix(s, p);
    if i == 0 {
        assert(start.acc.open.text() + text.subrange(0, 0) =~= start.acc.open.text());
    } else {
        lemma_scan_text(s, p, text, i - 1);
        let before = scan_prefix(s, p + i - 1);
        let window = Window::at(s, p + i - 1);
        assert(scan_prefix(s, p + i) == before.advance(window));
        assert(window.curr == Some(text[i - 1]));
        if i < text.len() {
            assert(window.next == Some(text[i]));
        }
        if in_string(text, i - 1) {
            assert(i >= 2);
            assert(window.prev == Some(text[i - 2]));
        } else {
            assert(text[i - 1] == '/' ==> window.next != Some('*'));
        }
        assert((start.acc.open.text() + text.subrange(0, i - 1)).push(text[i - 1]) =~= start.acc.open.text()
            + text.subrange(0, i));
    }
}

/// Whether `s` holds, from index `p` on, a comment with this body between
/// its delimiters.
pub open spec fn comment_at(s: Seq<char>, p: int, body: Seq<char>) -> bool {
    &&& 0 <= p
    &&& p + body.len() + 4 <= s.len()
    &&& s[p] == '/'
    &&& s[p + 1] == '*'
    &&& forall|k: int| 0 <= k < body.len() ==> s[p + 2 + k] == body[k]
    &&& s[p + 2 + body.len()] == '*'
    &&& s[p + 3 + body.len()] == '/'
}

/// Whether `s` holds, from index `p` on, the opening delimiter of a comment,
/// then `body`, then at least one more character, and the body with that
/// character is as a comment body has to be.
pub open spec fn opening_at(s: Seq<char>, p: int, body: Seq<char>) -> bool {
    &&& 0 <= p
    &&& p + 2 + body.len() < s.len()
    &&& s[p] == '/'
    &&& s[p + 1] == '*'
    &&& forall|k: int| 0 <= k < body.len() ==> s[p + 2 + k] == body[k]
    &&& body_ok(body.push(s[p + 2 + body.len()]))
}

/// Scanning the opening delimiter of a comment and the first `i` characters
/// of its body: the run that was open is pushed unless blank, and the
/// characters of the body are collected in a comment run.
pub proof fn lemma_scan_body(s: Seq<char>, p: int, body: Seq<char>, i: int)
    requires
        opening_at(s, p, body),
        scan_prefix(s, p).status == Status::Dumb,
        scan_prefix(s, p).acc.open is Outside,
        0 <= i <= body.len(),
    ensures
        scan_prefix(s, p + 2 + i) == (Scan {
            status: Status::Comment,
            prev_status: Status::Comment,
            acc: Accumulation {
                slices: scan_prefix(s, p).acc.finish(),
                open: if i == 0 {
                    Run::blank()
                } else {
                    Run::Comment(body.subrange(0, i))
                },
            },
        }),
    decreases i,
{
    let start = scan_prefix(s, p);
    let longer = body.push(s[p + 2 + body.len()]);
    if i == 0 {
        let slash = Window::at(s, p);
        let opened = scan_prefix(s, p + 1);
        assert(opened == start.advance(slash));
        assert(slash.curr == Some('/') && slash.next == Some('*'));
        assert(opened.status == Status::Comment && opened.prev_status == Status::Dumb);
        assert(opened.acc == start.acc);
        let star = Window::at(s, p + 1);
        assert(scan_prefix(s, p + 2) == opened.advance(star));
        assert(star.prev == Some('/') && star.curr == Some('*') && star.next == Some(longer[0]));
    } else {
        lemma_scan_body(s, p, body, i - 1);
        let before = scan_prefix(s, p + 2 + i - 1);
        let window = Window::at(s, p + 2 + i - 1);
        assert(scan_prefix(s, p + 2 + i) == before.advance(window));
        assert(window.curr == Some(longer[i - 1]));
        assert(window.next == Some(longer[i]));
        assert(!(longer[i - 1] == '*' && longer[i - 1 + 1] == '/'));
        if i >= 2 {
            assert(window.prev == Some(longer[i - 2]));
            assert(!(longer[i - 2] == '*' && longer[i - 2 + 1] == '/'));
            assert(body.subrange(0, i - 1).push(body[i - 1]) =~= body.subrange(0, i));
        } else {
            assert(window.prev == Some('*'));
            assert(seq![body[0]] =~= body.subrange(0, 1));
            assert(before.acc.finish() == before.acc.slices);
        }
    }
}

/// Scanning a whole comment, delimiters included: the run that was open is
/// pushed unless blank, the body is pushed as a comment run, and the scan is
/// outside again with a blank run open.
pub proof fn lemma_scan_comment(s: Seq<char>, p: int, body: Seq<char>)
    requires
        body_ok(body),
        comment_at(s, p, body),
        scan_prefix(s, p).status == Status::Dumb,
        scan_prefix(s, p).acc.open is Outside,
    ensures
        scan_prefix(s, p + body.len() + 4).status == Status::Dumb,
        scan_prefix(s, p + body.len() + 4).acc == (Accumulation {
            slices: scan_prefix(s, p).acc.finish().push(Run::Comment(body)),
            open: Run::blank(),
        }),
{
    let n = body.len() as int;
    let longer = body.push('*');
    assert forall|k: int| 0 <= k && k + 1 < longer.len() implies !(#[trigger] longer[k] == '*' && longer[k
        + 1] == '/') by {
        if k + 1 < n {
            assert(!(body[k] == '*' && body[k + 1] == '/'));
        }
    }
    assert(longer[0] == body[0]);
    assert(opening_at(s, p, body));
    lemma_scan_body(s, p, body, n);
    assert(body.subrange(0, n) =~= body);
    let inside = scan_prefix(s, p + 2 + n);
    let star = Window::at(s, p + 2 + n);
    let closing = scan_prefix(s, p + 3 + n);
    assert(closing == inside.advance(star));
    assert(star.prev == Some(body[n - 1]) && star.curr == Some('*') && star.next == Some('/'));
    assert(closing.status == Status::Comment);
    assert(closing.acc.open == Run::blank());
    assert(closing.acc.slices == inside.acc.slices.push(Run::Comment(body)));
    let slash = Window::at(s, p + 3 + n);
    assert(scan_prefix(s, p + 4 + n) == closing.advance(slash));
    assert(slash.prev == Some('*') && slash.curr == Some('/'));
    assert(closing.acc.finish() == closing.acc.slices);
}

/// A formatted comment body is still as [`body_ok`] says.
pub proof fn lemma_format_keeps_body(text: Seq<char>)
    requires
        body_ok(text),
    ensures
        body_ok(format_rule(text)),
{
    let out = format_rule(text);
    if has_newline(text) {
        let shift: int = if text.first() == '\n' {
            0
        } else {
            1
        };
        assert(out[0] == '\n' || out[0] == text[0]);
        assert forall|k: int| 0 <= k && k + 1 < out.len() implies !(#[trigger] out[k] == '*' && out[k + 1]
            == '/') by {
            if shift <= k && k + 1 < shift + text.len() {
                assert(out[k] == text[k - shift]);
                assert(out[k + 1] == text[k - shift + 1]);
            } else if k < shift {
                assert(out[k] == '\n');
            } else {
                assert(out[k + 1] == '\n');
            }
        }
    }
}

/// An outside text that opens no comment by itself opens none before
/// `following` either, unless the text ends with `/` and `following` is `*`.
pub proof fn lemma_quiet_before(text: Seq<char>, following: Option<char>)
    requires
        quiet(text, None),
        text.len() > 0,
        text.last() == '/' ==> following != Some('*'),
    ensures
        quiet(text, following),
{
}

/// The length of the text that the first `j` runs are rendered as.
pub open spec fn offset(runs: Seq<Run>, j: int) -> int {
    rendered(runs.subrange(0, j)).len() as int
}

/// Where the piece of the run at `j` lies in the rendered text.
pub proof fn lemma_piece_in_text(runs: Seq<Run>, j: int)
    requires
        0 <= j < runs.len(),
    ensures
        offset(runs, j + 1) == offset(runs, j) + piece(runs[j]).len(),
        offset(runs, j + 1) <= rendered(runs).len(),
        j + 1 == runs.len() ==> offset(runs, j + 1) == rendered(runs).len(),
        forall|k: int|
            0 <= k < piece(runs[j]).len() ==> rendered(runs)[offset(runs, j) + k] == #[trigger] piece(
                runs[j],
            )[k],
{
    lemma_rendered_at(runs, j);
    if j + 1 == runs.len() {
        assert(runs.subrange(0, j + 1) =~= runs);
    }
}

/// Scanning a rendered outside run: what is accumulated renders as before,
/// followed by the text of the run.
proof fn lemma_rescan_text(s: Seq<char>, p: int, text: Seq<char>)
    requires
        0 <= p,
        p + text.len() <= s.len(),
        forall|k: int| 0 <= k < text.len() ==> s[p + k] == text[k],
        text.len() > 0,
        quiet(text, None),
        text.last() == '/' ==> char_at(s, p + text.len()) != Some('*'),
        scan_prefix(s, p).status == Status::Dumb,
        scan_prefix(s, p).acc.open is Outside,
    ensures
        scan_prefix(s, p + text.len()).acc.open is Outside,
        scan_prefix(s, p + text.len()).status == (if in_string(text, text.len() as int) {
            Status::String
        } else {
            Status::Dumb
        }),
        rendered(scan_prefix(s, p + text.len()).acc.finish()) == rendered(scan_prefix(s, p).acc.finish())
            + text,
{
    let before = scan_prefix(s, p);
    lemma_quiet_before(text, char_at(s, p + text.len()));
    lemma_scan_text(s, p, text, text.len() as int);
    let after = scan_prefix(s, p + text.len());
    assert(text.subrange(0, text.len() as int) =~= text);
    lemma_rendered_finish(before.acc);
    lemma_rendered_finish(after.acc);
    assert(rendered(after.acc.finish()) =~= rendered(before.acc.finish()) + text);
}

/// Scanning a rendered comment run: what is accumulated renders as before,
/// followed by the piece of the run.
proof fn lemma_rescan_comment(s: Seq<char>, p: int, raw: Seq<char>)
    requires
        body_ok(raw),
        0 <= p,
        p + piece(Run::Comment(raw)).len() <= s.len(),
        forall|k: int|
            0 <= k < piece(Run::Comment(raw)).len() ==> s[p + k] == #[trigger] piece(Run::Comment(raw))[k],
        scan_prefix(s, p).status == Status::Dumb,
        scan_prefix(s, p).acc.open is Outside,
    ensures
        scan_prefix(s, p + piece(Run::Comment(raw)).len()).acc.open is Outside,
        scan_prefix(s, p + piece(Run::Comment(raw)).len()).status == Status::Dumb,
        rendered(scan_prefix(s, p + piece(Run::Comment(raw)).len()).acc.finish()) == rendered(
            scan_prefix(s, p).acc.finish(),
        ) + piece(Run::Comment(raw)),
{
    let before = scan_prefix(s, p);
    let pc = piece(Run::Comment(raw));
    let body = format_rule(raw);
    let n = body.len() as int;
    lemma_format_keeps_body(raw);
    lemma_format_idempotent(raw);
    assert(pc.len() == n + 4);
    assert(pc[0] == '/' && pc[1] == '*');
    assert(pc[n + 2] == '*' && pc[n + 3] == '/');
    assert forall|k: int| 0 <= k < n implies s[p + 2 + k] == body[k] by {
        assert(pc[2 + k] == body[k]);
    }
    assert(s[p + 0] == pc[0]);
    assert(s[p + 1] == pc[1]);
    assert(s[p + (n + 2)] == pc[n + 2]);
    assert(s[p + (n + 3)] == pc[n + 3]);
    assert(comment_at(s, p, body));
    lemma_scan_comment(s, p, body);
    let after = scan_prefix(s, p + n + 4);
    lemma_rendered_push(before.acc.finish(), Run::Comment(body));
    assert(after.acc.finish() == after.acc.slices);
    assert(piece(Run::Comment(body)) == pc);
}

/// Scanning the text that runs were rendered as, up to the end of the piece
/// of the run at `j - 1`: the scan is outside of comments, and what it has
/// accumulated renders as the first `j` runs do.
proof fn lemma_rescan_prefix(runs: Seq<Run>, j: int)
    requires
        runs_ok(runs),
        seamless(runs),
        0 <= j <= runs.len(),
    ensures
        ({
            let s = rendered(runs);
            let p = offset(runs, j);
            let state = scan_prefix(s, p);
            &&& 0 <= p <= s.len()
            &&& j == runs.len() ==> p == s.len()
            &&& state.acc.open is Outside
            &&& rendered(state.acc.finish()) == rendered(runs.subrange(0, j))
            &&& state.status == Status::Dumb || (j == runs.len() && state.status == Status::String)
        }),
    decreases j,
{
    let s = rendered(runs);
    if j == 0 {
        assert(runs.subrange(0, 0) =~= Seq::<Run>::empty());
        assert(runs.len() == 0 ==> runs =~= Seq::<Run>::empty());
    } else {
        lemma_rescan_prefix(runs, j - 1);
        lemma_rendered_at(runs, j - 1);
        lemma_piece_in_text(runs, j - 1);
        let p = offset(runs, j - 1);
        let run = runs[j - 1];
        let pc = piece(run);
        if j < runs.len() {
            lemma_piece_in_text(runs, j);
            let pc2 = piece(runs[j]);
            assert(pc2.len() > 0);
            assert(s[p + pc.len()] == s[offset(runs, j) + 0]);
            assert(s[p + pc.len()] == pc2[0]);
            assert(runs[j] is Comment ==> pc2[0] == '/');
            assert(runs[j] is Outside ==> pc2[0] == runs[j].text().first());
        }
        match run {
            Run::Outside(text) => {
                assert(forall|k: int| 0 <= k < text.len() ==> s[p + k] == pc[k]);
                lemma_rescan_text(s, p, text);
            },
            Run::Comment(raw) => {
                lemma_rescan_comment(s, p, raw);
            },
        }
    }
}

/// A text rendered from runs that a scan could have made is rewritten to
/// itself: where the runs are as [`runs_ok`] says and [`seamless`], their
/// rendered text does not end inside a comment, and rewriting it gives the
/// same text.
pub proof fn lemma_rendered_is_fixed(runs: Seq<Run>)
    requires
        runs_ok(runs),
        seamless(runs),
    ensures
        !is_unterminated(rendered(runs)),
        parsed(rendered(runs)) == rendered(runs),
{
    lemma_rescan_prefix(runs, runs.len() as int);
    assert(runs.subrange(0, runs.len() as int) =~= runs);
}

} // verus!
