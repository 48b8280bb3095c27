//! The orchestrator: drives the scanner over a text, collects the slices and
//! renders them back to text.
use crate::accumulator::{runs_of, Accumulation, Accumulator, Run, Slice};
use crate::format::{format_comment, format_rule};
use crate::scanner::{step, step_rule, Status, Window};
use crate::shape::{lemma_scan_settled, lemma_slices_ok, runs_ok};
use vstd::prelude::*;
use vstd::std_specs::iter::IteratorSpec;
use vstd::string::StringExecFns;

verus! {

/// The state of a scan between two steps.
pub struct Scan {
    /// The status the next character is classified under.
    pub status: Status,
    /// The status the last character was classified under.
    pub prev_status: Status,
    /// What was accumulated so far.
    pub acc: Accumulation,
}

impl Scan {
    /// The state before the first character.
    pub open spec fn start() -> Scan {
        Scan { status: Status::Dumb, prev_status: Status::Dumb, acc: Accumulation::start() }
    }

    /// The state after one more step, taken on `window`. A broken scan stays
    /// as it is, and the step that breaks it accumulates nothing.
    pub open spec fn advance(self, window: Window) -> Scan {
        if self.status == Status::Broken {
            self
        } else {
            let (status, output) = step_rule(window, self.status, self.prev_status);
            Scan {
                status,
                prev_status: self.status,
                acc: if status == Status::Broken {
                    self.acc
                } else {
                    self.acc.feed(output, self.status == Status::Comment)
                },
            }
        }
    }
}

/// The state of the scan of `src` after its first `n` characters were
/// classified.
pub open spec fn scan_prefix(src: Seq<char>, n: int) -> Scan
    decreases n,
{
    if n <= 0 {
        Scan::start()
    } else {
        scan_prefix(src, n - 1).advance(Window::at(src, n - 1))
    }
}

/// The status in which the scan of `src` ends.
pub open spec fn final_status(src: Seq<char>) -> Status {
    scan_prefix(src, src.len() as int).status
}

/// Whether the text ends inside a comment.
pub open spec fn is_unterminated(src: Seq<char>) -> bool {
    final_status(src) == Status::Broken
}

/// The runs that `src` is separated into. Where the text ends inside a
/// comment, they are the runs of the text in front of that comment.
pub open spec fn slices_of(src: Seq<char>) -> Seq<Run> {
    let end = scan_prefix(src, src.len() as int);
    if end.status == Status::Broken {
        end.acc.abandon()
    } else {
        end.acc.finish()
    }
}

/// A comment with this body: the body between `/*` and `*/`.
pub open spec fn delimited(body: Seq<char>) -> Seq<char> {
    seq!['/', '*'] + body + seq!['*', '/']
}

/// The text a run is rendered as: outside text as it is, a comment body
/// formatted and between its delimiters.
pub open spec fn piece(run: Run) -> Seq<char> {
    match run {
        Run::Outside(text) => text,
        Run::Comment(text) => delimited(format_rule(text)),
    }
}

/// The text a sequence of runs is rendered as: their pieces, one after the
/// other.
pub open spec fn rendered(runs: Seq<Run>) -> Seq<char>
    decreases runs.len(),
{
    if runs.len() == 0 {
        Seq::empty()
    } else {
        rendered(runs.drop_last()) + piece(runs.last())
    }
}

/// The text that `src` is rewritten to.
pub open spec fn parsed(src: Seq<char>) -> Seq<char> {
    rendered(slices_of(src))
}

/// The outcome of a scan.
#[derive(Debug, Clone, PartialEq, Eq)]
pub struct Scanned {
    /// The slices of the text, in order.
    pub slices: Vec<Slice>,
    /// The status in which the scan ended: `Broken` if the text ends inside a
    /// comment, `String` if it ends inside a string literal, else `Dumb`.
    pub status: Status,
}

/// Why a text could not be rewritten.
#[derive(Debug, Clone, PartialEq, Eq)]
pub enum ParseError {
    /// The text ends inside a comment. Holds the rewritten text in front of
    /// that comment.
    UnterminatedComment(String),
}

/// Separates a text into slices of outside text and of comment bodies.
///
/// No slice is empty, outside text never holds the opening delimiter of a
/// comment outside of a string literal, and a comment body never holds the
/// closing one. The scan ends outside of strings and comments, inside a
/// string literal, or broken: never inside a comment.
pub fn scan(src: &str) -> (result: Scanned)
    ensures
        runs_of(result.slices@) == slices_of(src@),
        result.status == final_status(src@),
        result.status != Status::Comment,
        runs_ok(slices_of(src@)),
{
    proof {
        lemma_scan_settled(src@, src@.len() as int);
        lemma_slices_ok(src@);
    }
    let mut status = Status::Dumb;
    let mut prev_status = Status::Dumb;
    let mut window = Window::new();
    let mut iter = src.chars();
    let mut acc = Accumulator::new();
    let ghost mut done: int = 0;
    loop
        invariant_except_break
            status != Status::Broken,
            window == Window::at(src@, done - 2),
            0 <= done <= src@.len(),
            iter.remaining() == src@.subrange(done, src@.len() as int),
            status == Status::Comment && prev_status != Status::Comment ==> 1 <= done <= src@.len()
                && src@[done - 1] == '*',
            (Scan { status, prev_status, acc: acc@ }) == scan_prefix(src@, done - 1),
        ensures
            (Scan { status, prev_status, acc: acc@ }) == scan_prefix(src@, src@.len() as int),
        decreases src@.len() - done,
    {
        let next = iter.next();
        window = window.advance(next);
        assert(window == Window::at(src@, done - 1));
        let (s, output) = step(window, status, prev_status);
        prev_status = status;
        status = s;
        if let Status::Broken = status {
            break ;
        }
        acc.feed(output, prev_status == Status::Comment);
        if next.is_none() {
            break ;
        }
        proof {
            done = done + 1;
        }
    }
    let slices = if let Status::Broken = status {
        acc.abandon()
    } else {
        acc.finish()
    };
    Scanned { slices, status }
}

/// Renders slices back to text: outside text as it is, every comment body
/// formatted and between `/*` and `*/`.
pub fn render(slices: &Vec<Slice>) -> (result: String)
    ensures
        result@ == rendered(runs_of(slices@)),
{
    let mut result = String::new();
    let mut i: usize = 0;
    while i < slices.len()
        invariant
            i <= slices.len(),
            result@ == rendered(runs_of(slices@).subrange(0, i as int)),
        decreases slices.len() - i,
    {
        let ghost before = result@;
        match &slices[i] {
            Slice::Comment(val) => {
                let body = format_comment(val.clone());
                result.push('/');
                result.push('*');
                result.append(body.as_str());
                result.push('*');
                result.push('/');
            },
            Slice::Outside(val) => result.append(val.as_str()),
        }
        proof {
            let runs = runs_of(slices@);
            assert(runs.subrange(0, i + 1).drop_last() =~= runs.subrange(0, i as int));
            assert(runs.subrange(0, i + 1).last() == slices@[i as int]@);
            assert(result@ =~= before + piece(slices@[i as int]@));
        }
        i += 1;
    }
    assert(runs_of(slices@).subrange(0, i as int) =~= runs_of(slices@));
    result
}

/// Rewrites a text: everything outside of comments stays as it is, and every
/// comment comes back with its body formatted. A text that ends inside a
/// comment is an error, which holds the rewritten text in front of that
/// comment.
pub fn parse(src: &str) -> (result: Result<String, ParseError>)
    ensures
        result is Ok <==> !is_unterminated(src@),
        match result {
            Ok(text) => text@ == parsed(src@),
            Err(ParseError::UnterminatedComment(text)) => text@ == parsed(src@),
        },
{
    let scanned = scan(src);
    let text = render(&scanned.slices);
    if let Status::Broken = scanned.status {
        Err(ParseError::UnterminatedComment(text))
    } else {
        Ok(text)
    }
}

} // verus!
