//! The unit of data flowing through the pipeline: a program line together
//! with its provenance.

use vstd::prelude::*;
use crate::dialect::generated_marker;
use crate::text::{chars_of, dec_digits, render_u64};

verus! {

/// The mathematical view of a program line: its text and its provenance,
/// where `loc >= 1` is a 1-based source position and `loc == -1` marks a
/// line synthesized by a pass.
pub ghost struct LineRec {
    pub text: Seq<char>,
    pub loc: int,
}

impl LineRec {
    /// Provenance is either a 1-based source position or the synthetic marker.
    pub open spec fn wf(self) -> bool {
        self.loc == -1 || 1 <= self.loc <= i64::MAX
    }
}

/// Every record of the sequence is well formed.
pub open spec fn wf_lines(s: Seq<LineRec>) -> bool {
    forall|k: int| 0 <= k < s.len() ==> (#[trigger] s[k]).wf()
}

/// A program line with its provenance.  The provenance is assigned at
/// creation and never altered: a pass that rewrites the text keeps it, and a
/// pass that inserts a line marks the insertion synthetic.
#[derive(Debug)]
pub struct SourceLine {
    pub text: Vec<char>,
    pub loc: i64,
}

impl View for SourceLine {
    type V = LineRec;

    open spec fn view(&self) -> LineRec {
        LineRec { text: self.text@, loc: self.loc as int }
    }
}

/// The views of a sequence of lines.
pub open spec fn views(s: Seq<SourceLine>) -> Seq<LineRec> {
    s.map_values(|l: SourceLine| l@)
}

/// The position reference rendered into diagnostics for provenance `loc`.
pub open spec fn render_loc(loc: int) -> Seq<char> {
    if loc == -1 {
        generated_marker()
    } else {
        dec_digits(loc)
    }
}

impl SourceLine {
    /// A line produced by a pass, carrying no source position.
    pub fn synthetic(text: Vec<char>) -> (r: SourceLine)
        ensures
            r@ == (LineRec { text: text@, loc: -1 }),
    {
        SourceLine { text, loc: -1 }
    }

    /// A line read from the source file at 1-based position `n`.
    pub fn original(text: Vec<char>, n: i64) -> (r: SourceLine)
        requires
            1 <= n,
        ensures
            r@ == (LineRec { text: text@, loc: n as int }),
    {
        SourceLine { text, loc: n }
    }

    /// Whether the line was inserted by a pass rather than read from the
    /// source file.
    pub fn is_synthetic(&self) -> (r: bool)
        ensures
            r == (self@.loc == -1),
    {
        self.loc == -1
    }

    /// The position reference for diagnostics: the literal source line
    /// number, or the generated-code marker for synthetic lines.
    pub fn format_lineno(&self) -> (r: Vec<char>)
        requires
            self@.wf(),
        ensures
            r@ == render_loc(self@.loc),
    {
        if self.is_synthetic() {
            chars_of("<generated code>")
        } else {
            render_u64(self.loc as u64)
        }
    }
}

/// A fatal diagnostic: the single message that a failed run reports.
#[derive(Debug)]
pub struct PipelineError {
    pub message: Vec<char>,
}

impl View for PipelineError {
    type V = Seq<char>;

    open spec fn view(&self) -> Seq<char> {
        self.message@
    }
}

} // verus!
