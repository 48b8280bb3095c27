//! The comment formatter: pads a multi-line comment body with newlines.
use vstd::prelude::*;
use vstd::std_specs::iter::IteratorSpec;
use vstd::string::StringExecFns;

verus! {

/// Whether a newline occurs in the text.
pub open spec fn has_newline(text: Seq<char>) -> bool {
    exists|i: int| 0 <= i < text.len() && text[i] == '\n'
}

/// The formatted comment body: a body without a newline is left as it is; any
/// other gets a newline in front unless it starts with one, and a newline
/// behind unless it ends with one.
pub open spec fn format_rule(text: Seq<char>) -> Seq<char> {
    if has_newline(text) {
        let head = if text.first() == '\n' {
            Seq::<char>::empty()
        } else {
            seq!['\n']
        };
        let tail = if text.last() == '\n' {
            Seq::<char>::empty()
        } else {
            seq!['\n']
        };
        head + text + tail
    } else {
        text
    }
}

/// Formats the body of a finished comment.
pub fn format_comment(src: String) -> (result: String)
    ensures
        result@ == format_rule(src@),
{
    let mut first: Option<char> = None;
    let mut last: Option<char> = None;
    let mut multi_line = false;
    let mut iter = src.as_str().chars();
    let ghost mut seen: int = 0;
    loop
        invariant
            0 <= seen <= src@.len(),
            iter.remaining() == src@.subrange(seen, src@.len() as int),
            first == (if seen > 0 { Some(src@[0]) } else { None }),
            last == (if seen > 0 { Some(src@[seen - 1]) } else { None }),
            multi_line == has_newline(src@.subrange(0, seen)),
        ensures
            seen == src@.len(),
        decreases src@.len() - seen,
    {
        let c = match iter.next() {
            Some(c) => c,
            None => break,
        };
        if first.is_none() {
            first = Some(c);
        }
        last = Some(c);
        proof {
            let shorter = src@.subrange(0, seen);
            let longer = src@.subrange(0, seen + 1);
            if has_newline(shorter) {
                let i = choose|i: int| 0 <= i < shorter.len() && shorter[i] == '\n';
                assert(longer[i] == '\n');
            }
            if c == '\n' {
                assert(longer[seen] == '\n');
            }
            if has_newline(longer) {
                let i = choose|i: int| 0 <= i < longer.len() && longer[i] == '\n';
                if i < seen {
                    assert(shorter[i] == '\n');
                }
            }
            seen = seen + 1;
        }
        if c == '\n' {
            multi_line = true;
        }
    }
    assert(src@.subrange(0, seen) =~= src@);
    if !multi_line {
        return src;
    }
    let mut result = String::new();
    if first != Some('\n') {
        result.push('\n');
    }
    result.append(src.as_str());
    if last != Some('\n') {
        result.push('\n');
    }
    assert(result@ =~= format_rule(src@));
    result
}

/// Formatting a formatted comment body changes nothing more.
pub proof fn lemma_format_idempotent(text: Seq<char>)
    ensures
        format_rule(format_rule(text)) == format_rule(text),
{
    let once = format_rule(text);
    if has_newline(text) {
        let i = choose|i: int| 0 <= i < text.len() && text[i] == '\n';
        let shift: int = if text.first() == '\n' { 0 } else { 1 };
        assert(once[i + shift] == '\n');
        assert(once.first() == '\n');
        assert(once.last() == '\n');
        assert(format_rule(once) =~= once);
    }
}

/// A formatted comment body that spans several lines starts and ends with a
/// newline.
pub proof fn lemma_format_pads(text: Seq<char>)
    requires
        has_newline(text),
    ensures
        format_rule(text).len() > 0,
        format_rule(text).first() == '\n',
        format_rule(text).last() == '\n',
{
}

} // verus!
