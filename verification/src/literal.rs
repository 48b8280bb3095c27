//! String literals come through a scan unchanged.
use crate::accumulator::{Accumulation, Run};
use crate::parser::{parsed, piece, scan_prefix, slices_of};
use crate::rescan::{lemma_piece_in_text, lemma_scan_text, offset};
use crate::scanner::{char_at, step_rule, Output, Status, Window};
use crate::shape::{in_string, lemma_scan_settled};
use vstd::prelude::*;

verus! {

/// Whether `src` holds a string literal from index `i` to index `j`: a quote
/// at `i`, a quote at `j` that does not follow a backslash, and between the
/// two no quote but behind a backslash.
pub open spec fn literal_at(src: Seq<char>, i: int, j: int) -> bool {
    &&& 0 <= i < j < src.len()
    &&& src[i] == '"'
    &&& src[j] == '"'
    &&& src[j - 1] != '\\'
    &&& forall|k: int| i < k < j ==> !(#[trigger] src[k] == '"' && src[k - 1] != '\\')
}

/// Whether the run at `r` is outside text that holds `part` from offset `o`
/// on.
pub open spec fn holds_at(runs: Seq<Run>, r: int, o: int, part: Seq<char>) -> bool {
    &&& 0 <= r < runs.len()
    &&& runs[r] is Outside
    &&& 0 <= o
    &&& o + part.len() <= runs[r].text().len()
    &&& runs[r].text().subrange(o, o + part.len()) == part
}

/// A string literal is inside a string from behind its opening quote up to
/// its closing quote.
proof fn lemma_inside_literal(src: Seq<char>, i: int, j: int, k: int)
    requires
        literal_at(src, i, j),
        1 <= k <= j - i,
    ensures
        in_string(src.subrange(i, j + 1), k),
    decreases k,
{
    let literal = src.subrange(i, j + 1);
    if k > 1 {
        lemma_inside_literal(src, i, j, k - 1);
        assert(literal[k - 1] == src[i + k - 1]);
        assert(literal[k - 2] == src[i + k - 1 - 1]);
    } else {
        assert(!in_string(literal, 0));
        assert(literal[0] == src[i]);
    }
}

/// One scanner step leaves outside text that was accumulated where it is.
proof fn lemma_feed_keeps(
    acc: Accumulation,
    output: Option<Output>,
    in_comment: bool,
    r: int,
    o: int,
    part: Seq<char>,
)
    requires
        holds_at(acc.finish(), r, o, part),
    ensures
        holds_at(acc.feed(output, in_comment).finish(), r, o, part),
{
    let fed = acc.feed(output, in_comment);
    let before = acc.finish();
    let after = fed.finish();
    if r < acc.slices.len() {
        assert(before[r] == acc.slices[r]);
        assert(after[r] == acc.slices[r]);
    } else {
        assert(before[r] == acc.open);
        match output {
            Some(Output::Outside(c)) => {
                let text = acc.open.text();
                assert(after[r] == Run::Outside(text.push(c)));
                assert(text.push(c).subrange(o, o + part.len()) =~= text.subrange(o, o + part.len()));
            },
            _ => {
                assert(after[r] == acc.open);
            },
        }
    }
}

/// Scanning on leaves outside text that was accumulated where it is.
proof fn lemma_scan_keeps(src: Seq<char>, n: int, m: int, r: int, o: int, part: Seq<char>)
    requires
        0 <= n <= m,
        holds_at(scan_prefix(src, n).acc.finish(), r, o, part),
    ensures
        holds_at(scan_prefix(src, m).acc.finish(), r, o, part),
    decreases m - n,
{
    if n < m {
        lemma_scan_keeps(src, n, m - 1, r, o, part);
        let before = scan_prefix(src, m - 1);
        let after = scan_prefix(src, m);
        if after.acc != before.acc {
            let output = step_rule(Window::at(src, m - 1), before.status, before.prev_status).1;
            lemma_feed_keeps(before.acc, output, before.status == Status::Comment, r, o, part);
        }
    }
}

/// Whether `text` holds `part` from index `p` on.
pub open spec fn occurs_at(text: Seq<char>, p: int, part: Seq<char>) -> bool {
    &&& 0 <= p
    &&& p + part.len() <= text.len()
    &&& text.subrange(p, p + part.len()) == part
}

/// Every string literal of a text stands unchanged in one of its outside
/// runs, and so in the rewritten text, whatever the literal spells.
///
/// The literal runs from the quote at `i`, which the scan reaches outside of
/// strings and comments, to the closing quote at `j`.
pub proof fn law_string_literal_is_kept(src: Seq<char>, i: int, j: int)
    requires
        literal_at(src, i, j),
        scan_prefix(src, i).status == Status::Dumb,
    ensures
        exists|r: int, o: int| #[trigger] holds_at(slices_of(src), r, o, src.subrange(i, j + 1)),
        exists|p: int| #[trigger] occurs_at(parsed(src), p, src.subrange(i, j + 1)),
{
    let literal = src.subrange(i, j + 1);
    assert forall|k: int|
        0 <= k < literal.len() && literal[k] == '/' && !(#[trigger] in_string(literal, k)) implies (if k + 1
        < literal.len() {
        Some(literal[k + 1])
    } else {
        char_at(src, i + literal.len())
    }) != Some('*') by {
        if k >= 1 {
            lemma_inside_literal(src, i, j, k);
        }
    }
    lemma_scan_settled(src, i);
    lemma_scan_text(src, i, literal, literal.len() as int);
    assert(literal.subrange(0, literal.len() as int) =~= literal);
    let start = scan_prefix(src, i);
    let closed = scan_prefix(src, j + 1);
    let r = start.acc.slices.len() as int;
    let o = start.acc.open.text().len() as int;
    let text = closed.acc.open.text();
    assert(text == start.acc.open.text() + literal);
    assert(text.subrange(o, o + literal.len()) =~= literal);
    assert(closed.acc.finish()[r] == closed.acc.open);
    assert(holds_at(closed.acc.finish(), r, o, literal));
    lemma_scan_keeps(src, j + 1, src.len() as int, r, o, literal);
    let end = scan_prefix(src, src.len() as int);
    assert(holds_at(end.acc.finish(), r, o, literal));
    if r < end.acc.slices.len() {
        assert(slices_of(src)[r] == end.acc.slices[r]);
    }
    let runs = slices_of(src);
    assert(holds_at(runs, r, o, literal));
    lemma_piece_in_text(runs, r);
    let p = offset(runs, r) + o;
    assert forall|k: int| 0 <= k < literal.len() implies parsed(src)[p + k] == literal[k] by {
        assert(piece(runs[r])[o + k] == runs[r].text().subrange(o, o + literal.len())[k]);
        assert(parsed(src)[offset(runs, r) + (o + k)] == piece(runs[r])[o + k]);
    }
    assert(parsed(src).subrange(p, p + literal.len()) =~= literal);
    assert(occurs_at(parsed(src), p, literal));
}

} // verus!
