//! What holds of rewriting, for every text.
use crate::accumulator::Run;
use crate::format::{format_rule, has_newline};
use crate::parser::{delimited, final_status, is_unterminated, parsed, scan_prefix, slices_of};
use crate::rescan::{
    lemma_rendered_is_fixed, lemma_rendered_push, lemma_scan_body, lemma_scan_comment, lemma_scan_text,
    opening_at, seamless,
};
use crate::scanner::{Status, Window};
use crate::shape::{body_ok, in_string, lemma_scan_settled, lemma_slices_ok, quiet};
use vstd::prelude::*;

verus! {

/// Whether a text holds neither a quote nor the opening delimiter of a
/// comment.
pub open spec fn is_plain(src: Seq<char>) -> bool {
    &&& forall|i: int| 0 <= i < src.len() ==> src[i] != '"'
    &&& forall|i: int| 0 <= i && i + 1 < src.len() ==> !(#[trigger] src[i] == '/' && src[i + 1] == '*')
}

/// A text without a quote is nowhere inside a string literal.
proof fn lemma_plain_not_in_string(src: Seq<char>, n: int)
    requires
        is_plain(src),
        0 <= n <= src.len(),
    ensures
        !in_string(src, n),
    decreases n,
{
    if n > 0 {
        lemma_plain_not_in_string(src, n - 1);
    }
}

/// A text that opens no comment, because `/*` does not occur in it outside
/// of a string literal, is one outside run, or no run at all if it is empty,
/// and is rewritten to itself. The scan ends inside a string literal if the
/// text does.
pub proof fn law_text_without_comment_is_unchanged(src: Seq<char>)
    requires
        quiet(src, None),
    ensures
        final_status(src) == (if in_string(src, src.len() as int) {
            Status::String
        } else {
            Status::Dumb
        }),
        slices_of(src) == (if src.len() == 0 {
            Seq::<Run>::empty()
        } else {
            seq![Run::Outside(src)]
        }),
        parsed(src) == src,
{
    lemma_scan_text(src, 0, src, src.len() as int);
    assert(Seq::<char>::empty() + src.subrange(0, src.len() as int) =~= src);
    let end = scan_prefix(src, src.len() as int);
    assert(end.acc.open == Run::Outside(src));
    if src.len() == 0 {
        assert(parsed(src) =~= src);
    } else {
        assert(slices_of(src) =~= seq![Run::Outside(src)]);
        lemma_rendered_push(Seq::empty(), Run::Outside(src));
        assert(Seq::<Run>::empty().push(Run::Outside(src)) =~= seq![Run::Outside(src)]);
        assert(parsed(src) =~= src);
    }
}

/// A text that holds neither a quote nor `/*` is one outside run, or no run
/// at all if it is empty, and is rewritten to itself.
pub proof fn law_plain_text_is_unchanged(src: Seq<char>)
    requires
        is_plain(src),
    ensures
        final_status(src) == Status::Dumb,
        slices_of(src) == (if src.len() == 0 {
            Seq::<Run>::empty()
        } else {
            seq![Run::Outside(src)]
        }),
        parsed(src) == src,
{
    assert forall|k: int| 0 <= k < src.len() && src[k] == '/' && !(#[trigger] in_string(src, k)) implies (if k
        + 1 < src.len() {
        Some(src[k + 1])
    } else {
        None
    }) != Some('*') by {}
    lemma_plain_not_in_string(src, src.len() as int);
    law_text_without_comment_is_unchanged(src);
}

/// A text that is one comment, whose body is not empty, does not start with
/// `/` and does not hold `*/`, is one comment run with that body, and is
/// rewritten to the comment with its body formatted.
pub proof fn law_comment_alone(body: Seq<char>)
    requires
        body_ok(body),
    ensures
        final_status(delimited(body)) == Status::Dumb,
        slices_of(delimited(body)) == seq![Run::Comment(body)],
        parsed(delimited(body)) == delimited(format_rule(body)),
{
    let s = delimited(body);
    let n = body.len() as int;
    let zero: int = 0;
    assert(s.len() == n + 4);
    assert forall|k: int| 0 <= k < n implies s[zero + 2 + k] == body[k] by {}
    assert(s[zero] == '/' && s[zero + 1] == '*');
    assert(s[zero + 2 + n] == '*' && s[zero + 3 + n] == '/');
    lemma_scan_comment(s, 0, body);
    let end = scan_prefix(s, s.len() as int);
    assert(scan_prefix(s, 0).acc.finish() =~= Seq::<Run>::empty());
    assert(end.acc.slices =~= seq![Run::Comment(body)]);
    lemma_rendered_push(Seq::empty(), Run::Comment(body));
    assert(Seq::<Run>::empty().push(Run::Comment(body)) =~= seq![Run::Comment(body)]);
    assert(parsed(s) =~= delimited(format_rule(body)));
}

/// A comment on one line, whose body is not empty, does not start with `/`
/// and does not hold `*/`, is rewritten to itself.
pub proof fn law_single_line_comment_round_trip(body: Seq<char>)
    requires
        body_ok(body),
        !has_newline(body),
    ensures
        parsed(delimited(body)) == delimited(body),
{
    law_comment_alone(body);
}

/// Two texts that are the same up to the character after the first `n` are
/// scanned alike over their first `n` characters.
proof fn lemma_scan_agrees(a: Seq<char>, b: Seq<char>, n: int)
    requires
        0 <= n,
        n < a.len(),
        n < b.len(),
        forall|i: int| 0 <= i <= n ==> a[i] == b[i],
    ensures
        scan_prefix(a, n) == scan_prefix(b, n),
    decreases n,
{
    if n > 0 {
        lemma_scan_agrees(a, b, n - 1);
        assert(Window::at(a, n - 1) == Window::at(b, n - 1));
    }
}

/// A text that does not end inside a comment is scanned in the same way when
/// more text follows it, as long as what follows does not start with `*`.
proof fn lemma_scan_front(front: Seq<char>, s: Seq<char>)
    requires
        front.len() < s.len(),
        forall|i: int| 0 <= i < front.len() ==> s[i] == front[i],
        s[front.len() as int] != '*',
        !is_unterminated(front),
    ensures
        scan_prefix(s, front.len() as int) == scan_prefix(front, front.len() as int),
{
    let n = front.len() as int;
    if n > 0 {
        lemma_scan_agrees(front, s, n - 1);
        let before = scan_prefix(front, n - 1);
        let alone = Window::at(front, n - 1);
        let inside = Window::at(s, n - 1);
        assert(alone.prev == inside.prev && alone.curr == inside.curr);
        assert(alone.next is None && inside.next == Some(s[n]));
        assert(scan_prefix(front, n) == before.advance(alone));
        assert(scan_prefix(s, n) == before.advance(inside));
    }
}

/// A text in front of a comment that is never closed: the scan breaks, and
/// the runs are those of the text in front of the comment.
///
/// `front` is any text that ends outside of strings and comments. `body` is
/// what follows the opening delimiter, up to the end of the text: it does not
/// start with `/` and does not hold `*/`.
pub proof fn law_unterminated_comment(front: Seq<char>, body: Seq<char>)
    requires
        final_status(front) == Status::Dumb,
        body.len() == 0 || body_ok(body),
    ensures
        is_unterminated(front + seq!['/', '*'] + body),
        slices_of(front + seq!['/', '*'] + body) == slices_of(front),
        parsed(front + seq!['/', '*'] + body) == parsed(front),
{
    let s = front + seq!['/', '*'] + body;
    let p = front.len() as int;
    assert(s.len() == p + 2 + body.len());
    assert(s[p] == '/' && s[p + 1] == '*');
    lemma_scan_front(front, s);
    lemma_scan_settled(front, p);
    let start = scan_prefix(s, p);
    if body.len() == 0 {
        let slash = Window::at(s, p);
        let opened = scan_prefix(s, p + 1);
        assert(opened == start.advance(slash));
        assert(slash.curr == Some('/') && slash.next == Some('*'));
        let star = Window::at(s, p + 1);
        assert(scan_prefix(s, p + 2) == opened.advance(star));
        assert(star.prev == Some('/') && star.curr == Some('*') && star.next is None);
    } else {
        let shorter = body.drop_last();
        let n = shorter.len() as int;
        assert(s[p + 2 + n] == body.last());
        assert(shorter.push(body.last()) =~= body);
        assert forall|k: int| 0 <= k < n implies s[p + 2 + k] == shorter[k] by {
            assert(s[p + 2 + k] == body[k]);
        }
        assert(opening_at(s, p, shorter));
        lemma_scan_body(s, p, shorter, n);
        let before = scan_prefix(s, p + 2 + n);
        let last = Window::at(s, p + 2 + n);
        assert(scan_prefix(s, p + 2 + n + 1) == before.advance(last));
        assert(last.curr == Some(body.last()) && last.next is None);
        if n == 0 {
            assert(last.prev == Some('*'));
            assert(body.last() == body[0]);
        } else {
            assert(last.prev == Some(body[n - 1]));
            assert(!(body[n - 1] == '*' && body[n - 1 + 1] == '/'));
        }
    }
}

/// Whether a comment opens at index `j` of `src` and is never closed: the
/// text in front of `j` ends outside of strings and comments, `/*` stands at
/// `j`, and what follows neither starts with `/` nor holds `*/`.
pub open spec fn open_comment_at(src: Seq<char>, j: int) -> bool {
    &&& 0 <= j
    &&& j + 2 <= src.len()
    &&& src[j] == '/'
    &&& src[j + 1] == '*'
    &&& final_status(src.subrange(0, j)) == Status::Dumb
    &&& ({
        let body = src.subrange(j + 2, src.len() as int);
        body.len() == 0 || body_ok(body)
    })
}

/// The index at which the comment opened that the scan of `src` is inside of
/// after `n` characters.
pub open spec fn opening_of(src: Seq<char>, n: int) -> int
    decreases n,
{
    if n <= 0 {
        0
    } else if scan_prefix(src, n - 1).status == Status::Comment {
        opening_of(src, n - 1)
    } else {
        n - 1
    }
}

/// Where the scan is inside a comment, `/*` stands at [`opening_of`], the
/// scan was outside of strings and comments there, and no `*/` has closed the
/// comment since.
proof fn lemma_opening_of(src: Seq<char>, n: int)
    requires
        0 <= n <= src.len(),
        scan_prefix(src, n).status == Status::Comment,
    ensures
        ({
            let j = opening_of(src, n);
            &&& 0 <= j < n
            &&& j + 1 < src.len()
            &&& scan_prefix(src, j).status == Status::Dumb
            &&& src[j] == '/'
            &&& src[j + 1] == '*'
            &&& forall|k: int| j + 2 <= k < n ==> !(src[k - 1] == '*' && #[trigger] src[k] == '/')
        }),
    decreases n,
{
    let before = scan_prefix(src, n - 1);
    let window = Window::at(src, n - 1);
    assert(scan_prefix(src, n) == before.advance(window));
    if before.status == Status::Comment {
        lemma_opening_of(src, n - 1);
        let j = opening_of(src, n - 1);
        assert(window.prev == Some(src[n - 2]) && window.curr == Some(src[n - 1]));
    } else {
        assert(before.status == Status::Dumb);
        assert(window.curr == Some(src[n - 1]));
    }
}

/// A scan does not break before the last character.
proof fn lemma_breaks_at_end_only(src: Seq<char>, n: int)
    requires
        0 <= n < src.len(),
    ensures
        scan_prefix(src, n).status != Status::Broken,
    decreases n,
{
    if n > 0 {
        lemma_breaks_at_end_only(src, n - 1);
        assert(Window::at(src, n - 1).next is Some);
    }
}

/// Where the scan of a text is outside of comments after `n` characters, the
/// first `n` characters alone are scanned in the same way.
proof fn lemma_scan_alone(s: Seq<char>, n: int)
    requires
        0 <= n <= s.len(),
        scan_prefix(s, n).status == Status::Dumb || scan_prefix(s, n).status == Status::String,
    ensures
        scan_prefix(s.subrange(0, n), n) == scan_prefix(s, n),
{
    let front = s.subrange(0, n);
    if n == s.len() {
        assert(front =~= s);
    } else if n > 0 {
        lemma_scan_agrees(front, s, n - 1);
        let before = scan_prefix(front, n - 1);
        let alone = Window::at(front, n - 1);
        let inside = Window::at(s, n - 1);
        assert(alone.prev == inside.prev && alone.curr == inside.curr);
        assert(alone.next is None && inside.next == Some(s[n]));
        assert(scan_prefix(front, n) == before.advance(alone));
        assert(scan_prefix(s, n) == before.advance(inside));
    }
}

/// A scan breaks on the texts that end in a comment that is never closed, and
/// on no others. The runs of such a text are those of the text in front of
/// that comment.
pub proof fn law_breaks_on_open_comment_only(src: Seq<char>)
    ensures
        is_unterminated(src) <==> exists|j: int| #[trigger] open_comment_at(src, j),
        forall|j: int| #[trigger]
            open_comment_at(src, j) ==> slices_of(src) == slices_of(src.subrange(0, j)),
{
    let len = src.len() as int;
    assert forall|j: int| #[trigger] open_comment_at(src, j) implies is_unterminated(src) && slices_of(src)
        == slices_of(src.subrange(0, j)) by {
        let front = src.subrange(0, j);
        let body = src.subrange(j + 2, len);
        law_unterminated_comment(front, body);
        assert(front + seq!['/', '*'] + body =~= src);
    }
    if is_unterminated(src) {
        let before = scan_prefix(src, len - 1);
        assert(len >= 1);
        assert(scan_prefix(src, len) == before.advance(Window::at(src, len - 1)));
        lemma_breaks_at_end_only(src, len - 1);
        assert(before.status == Status::Comment);
        lemma_opening_of(src, len - 1);
        let j = opening_of(src, len - 1);
        lemma_scan_alone(src, j);
        let body = src.subrange(j + 2, len);
        if body.len() > 0 {
            let window = Window::at(src, len - 1);
            assert(window.prev == Some(src[len - 2]) && window.curr == Some(src[len - 1]));
            assert(!(src[len - 2] == '*' && src[len - 1] == '/'));
            assert(!(src[j + 2 - 1] == '*' && src[j + 2] == '/'));
            assert(body[0] == src[j + 2]);
            assert forall|k: int| 0 <= k && k + 1 < body.len() implies !(#[trigger] body[k] == '*' && body[k
                + 1] == '/') by {
                assert(body[k] == src[j + 3 + k - 1]);
                assert(body[k + 1] == src[j + 3 + k]);
            }
        }
        assert(open_comment_at(src, j));
    }
}

/// Two comments, one right behind the other, are two comment runs with
/// nothing between them.
pub proof fn law_adjacent_comments(first: Seq<char>, second: Seq<char>)
    requires
        body_ok(first),
        body_ok(second),
    ensures
        final_status(delimited(first) + delimited(second)) == Status::Dumb,
        slices_of(delimited(first) + delimited(second)) == seq![Run::Comment(first), Run::Comment(second)],
{
    let s = delimited(first) + delimited(second);
    let zero: int = 0;
    let n = first.len() as int;
    let m = second.len() as int;
    assert(s.len() == n + m + 8);
    assert forall|k: int| 0 <= k < n implies s[zero + 2 + k] == first[k] by {}
    assert(s[zero] == '/' && s[zero + 1] == '*');
    assert(s[zero + 2 + n] == '*' && s[zero + 3 + n] == '/');
    lemma_scan_comment(s, 0, first);
    let p = n + 4;
    assert forall|k: int| 0 <= k < m implies s[p + 2 + k] == second[k] by {
        assert(s[p + 2 + k] == delimited(second)[2 + k]);
    }
    assert(s[p] == delimited(second)[0]);
    assert(s[p + 1] == delimited(second)[1]);
    assert(s[p + 2 + m] == delimited(second)[2 + m]);
    assert(s[p + 3 + m] == delimited(second)[3 + m]);
    lemma_scan_comment(s, p, second);
    assert(scan_prefix(s, 0).acc.finish() =~= Seq::<Run>::empty());
    assert(scan_prefix(s, p).acc.finish() =~= seq![Run::Comment(first)]);
    assert(scan_prefix(s, s.len() as int).acc.slices =~= seq![Run::Comment(first), Run::Comment(second)]);
}

/// Rewriting a rewritten text changes nothing more, unless the first
/// rewriting made a `/*` of two characters that a removed comment had kept
/// apart.
///
/// A comment with an empty body leaves no run behind, so the outside runs on
/// its two sides come to stand side by side in the rendered text. Where the
/// first ends with `/` and the second starts with `*` the rendered text
/// opens a comment there that the text before it did not open; [`seamless`]
/// leaves those texts out.
pub proof fn law_rewriting_is_idempotent(src: Seq<char>)
    requires
        seamless(slices_of(src)),
    ensures
        !is_unterminated(parsed(src)),
        parsed(parsed(src)) == parsed(src),
{
    lemma_slices_ok(src);
    lemma_rendered_is_fixed(slices_of(src));
}

} // verus!
