//! Source spans and diagnostics.

use vstd::prelude::*;
use crate::def::FileId;

verus! {

/// A byte range `start..end` in a source text.
#[derive(Clone, Copy, Debug, PartialEq, Eq, Structural)]
pub struct Span {
    pub start: usize,
    pub end: usize,
}

impl Span {
    /// A span from `start` to `end`.
    pub fn new(start: usize, end: usize) -> (r: Span)
        ensures
            r.start == start,
            r.end == end,
    {
        Span { start, end }
    }

    /// The placeholder span used for entities without a source position.
    pub fn dummy() -> (r: Span)
        ensures
            r == dummy_span(),
    {
        Span { start: 0, end: 0 }
    }
}

/// The placeholder span.
pub open spec fn dummy_span() -> Span {
    Span { start: 0, end: 0 }
}

/// How serious a diagnostic is.
#[derive(Clone, Copy, Debug, PartialEq, Eq, Structural)]
pub enum Severity {
    Error,
    Warning,
    Info,
}

/// A diagnostic message produced during analysis.
#[derive(Clone, Debug)]
pub struct Diagnostic {
    pub severity: Severity,
    pub message: String,
    pub span: Span,
    pub file: FileId,
    pub notes: Vec<DiagnosticNote>,
}

/// An additional note attached to a diagnostic.
#[derive(Clone, Debug)]
pub struct DiagnosticNote {
    pub message: String,
    pub span: Span,
    pub file: FileId,
}

/// The word naming a severity.
pub open spec fn severity_word(s: Severity) -> Seq<char> {
    match s {
        Severity::Error => seq!['e', 'r', 'r', 'o', 'r'],
        Severity::Warning => seq!['w', 'a', 'r', 'n', 'i', 'n', 'g'],
        Severity::Info => seq!['i', 'n', 'f', 'o'],
    }
}

/// Appends the word naming a severity.
pub fn push_severity_word(out: &mut String, s: Severity)
    ensures
        final(out)@ == old(out)@ + severity_word(s),
{
    match s {
        Severity::Error => {
            out.append("error");
            proof { reveal_strlit("error"); }
        },
        Severity::Warning => {
            out.append("warning");
            proof { reveal_strlit("warning"); }
        },
        Severity::Info => {
            out.append("info");
            proof { reveal_strlit("info"); }
        },
    }
    assert(out@ =~= old(out)@ + severity_word(s));
}

impl Diagnostic {
    /// The one-line rendering `<severity>: <message>`.
    pub fn to_text(&self) -> (r: String)
        ensures
            r@ == severity_word(self.severity) + seq![':', ' '] + self.message@,
    {
        let mut s = String::new();
        push_severity_word(&mut s, self.severity);
        s.append(": ");
        s.append(self.message.as_str());
        proof { reveal_strlit(": "); }
        assert(s@ =~= severity_word(self.severity) + seq![':', ' '] + self.message@);
        s
    }
}

} // verus!
