//! The accumulator: groups what the scanner emits into slices of text.
use crate::scanner::Output;
use vstd::prelude::*;

verus! {

/// A stretch of text that was classified uniformly.
#[derive(Debug, Clone, PartialEq, Eq)]
pub enum Slice {
    /// Text outside of comments, string literals included.
    Outside(String),
    /// The body of a comment, without its delimiters.
    Comment(String),
}

/// The mathematical value of a [`Slice`].
pub enum Run {
    Outside(Seq<char>),
    Comment(Seq<char>),
}

impl Run {
    /// The characters of the run.
    pub open spec fn text(self) -> Seq<char> {
        match self {
            Run::Outside(t) => t,
            Run::Comment(t) => t,
        }
    }

    /// An outside run without any character: the placeholder that is never
    /// kept.
    pub open spec fn is_blank(self) -> bool {
        self is Outside && self.text().len() == 0
    }

    /// The blank run.
    pub open spec fn blank() -> Run {
        Run::Outside(Seq::empty())
    }
}

impl View for Slice {
    type V = Run;

    open spec fn view(&self) -> Run {
        match self {
            Slice::Outside(s) => Run::Outside(s@),
            Slice::Comment(s) => Run::Comment(s@),
        }
    }
}

/// The runs that a sequence of slices stands for.
pub open spec fn runs_of(slices: Seq<Slice>) -> Seq<Run> {
    Seq::new(slices.len(), |i: int| slices[i]@)
}

/// The mathematical value of an [`Accumulator`]: the runs that were pushed,
/// in order, and the run that is still open.
pub struct Accumulation {
    pub slices: Seq<Run>,
    pub open: Run,
}

impl Accumulation {
    /// Nothing pushed, and a blank run open.
    pub open spec fn start() -> Accumulation {
        Accumulation { slices: Seq::empty(), open: Run::blank() }
    }

    /// The accumulation after one scanner step. `in_comment` says whether the
    /// step was taken inside a comment; it matters only where the step emitted
    /// nothing.
    ///
    /// An emitted character joins the open run if that run is of its kind.
    /// Otherwise it starts a new open run, and the old one is pushed unless it
    /// is blank. A step inside a comment that emits nothing has consumed a
    /// delimiter: the open run, unless blank, is pushed and a blank run opened.
    pub open spec fn feed(self, output: Option<Output>, in_comment: bool) -> Accumulation {
        match output {
            Some(Output::Outside(c)) => match self.open {
                Run::Outside(t) => Accumulation { slices: self.slices, open: Run::Outside(t.push(c)) },
                Run::Comment(_) => Accumulation {
                    slices: self.slices.push(self.open),
                    open: Run::Outside(seq![c]),
                },
            },
            Some(Output::Comment(c)) => match self.open {
                Run::Comment(t) => Accumulation { slices: self.slices, open: Run::Comment(t.push(c)) },
                Run::Outside(_) => Accumulation { slices: self.finish(), open: Run::Comment(seq![c]) },
            },
            None => if in_comment {
                Accumulation { slices: self.finish(), open: Run::blank() }
            } else {
                self
            },
        }
    }

    /// The runs at the end of a scan: those pushed, and the open run unless it
    /// is blank.
    pub open spec fn finish(self) -> Seq<Run> {
        if self.open.is_blank() {
            self.slices
        } else {
            self.slices.push(self.open)
        }
    }

    /// The runs kept when the scan broke inside a comment: those pushed, and
    /// the open run if it holds outside text. What was read of the broken
    /// comment is dropped.
    pub open spec fn abandon(self) -> Seq<Run> {
        if self.open is Outside {
            self.finish()
        } else {
            self.slices
        }
    }

    /// No pushed run is empty, and an open comment run is not empty either.
    pub open spec fn wf(self) -> bool {
        &&& forall|i: int| 0 <= i < self.slices.len() ==> (#[trigger] self.slices[i]).text().len() > 0
        &&& self.open is Comment ==> self.open.text().len() > 0
    }
}

/// Collects the scanner's output into slices.
pub struct Accumulator {
    slices: Vec<Slice>,
    curr_slice: Slice,
}

impl View for Accumulator {
    type V = Accumulation;

    closed spec fn view(&self) -> Accumulation {
        Accumulation { slices: runs_of(self.slices@), open: self.curr_slice@ }
    }
}

impl Accumulator {
    /// An accumulator that has seen nothing.
    pub fn new() -> (result: Accumulator)
        ensures
            result@ == Accumulation::start(),
    {
        let result = Accumulator { slices: Vec::new(), curr_slice: Slice::Outside(String::new()) };
        assert(result@.slices =~= Seq::empty());
        result
    }

    /// Takes in what one scanner step emitted.
    pub fn feed(&mut self, output: Option<Output>, in_comment: bool)
        ensures
            final(self)@ == old(self)@.feed(output, in_comment),
            old(self)@.wf() ==> final(self)@.wf(),
    {
        match output {
            Some(Output::Outside(c)) => {
                match &mut self.curr_slice {
                    Slice::Outside(text) => text.push(c),
                    Slice::Comment(_) => {
                        let mut text = String::new();
                        text.push(c);
                        self.replace(Slice::Outside(text));
                    },
                }
            },
            Some(Output::Comment(c)) => {
                match &mut self.curr_slice {
                    Slice::Comment(text) => text.push(c),
                    Slice::Outside(_) => {
                        let mut text = String::new();
                        text.push(c);
                        self.replace(Slice::Comment(text));
                    },
                }
            },
            None => {
                if in_comment {
                    self.replace(Slice::Outside(String::new()));
                }
            },
        }
    }

    /// Opens `fresh` in place of the open slice, which is pushed unless blank.
    fn replace(&mut self, fresh: Slice)
        ensures
            final(self)@ == (Accumulation { slices: old(self)@.finish(), open: fresh@ }),
    {
        let mut slice = fresh;
        std::mem::swap(&mut self.curr_slice, &mut slice);
        let blank = match &slice {
            Slice::Outside(text) => text.as_str().is_empty(),
            Slice::Comment(_) => false,
        };
        if !blank {
            self.slices.push(slice);
            assert(self@.slices =~= old(self)@.slices.push(slice@));
        }
    }

    /// Ends the accumulation: the pushed slices, and the open one unless blank.
    pub fn finish(self) -> (result: Vec<Slice>)
        ensures
            runs_of(result@) == self@.finish(),
    {
        let mut acc = self;
        acc.replace(Slice::Outside(String::new()));
        acc.slices
    }

    /// Ends an accumulation whose scan broke inside a comment: the pushed
    /// slices, and the open one if it holds outside text.
    pub fn abandon(self) -> (result: Vec<Slice>)
        ensures
            runs_of(result@) == self@.abandon(),
    {
        let is_outside = match &self.curr_slice {
            Slice::Outside(_) => true,
            Slice::Comment(_) => false,
        };
        if is_outside {
            self.finish()
        } else {
            self.slices
        }
    }
}

} // verus!
