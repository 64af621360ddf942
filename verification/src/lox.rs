//! The diagnostic sink: a collector of line-tagged error reports.
//!
//! The scanner reports recoverable errors here and continues scanning.
//! The driving program owns the collector, inspects the accumulated
//! condition after a scan, and decides what to do about it.

use vstd::prelude::*;

verus! {

/// The closed taxonomy of scan errors. Both are recoverable: the scanner
/// reports them and goes on with the rest of the input.
#[derive(Clone, Copy, Debug, PartialEq, Eq, Structural)]
pub enum ErrorKind {
    /// A quoted literal whose closing `"` is missing at end of input.
    UnterminatedString,
    /// A byte that matches no lexical rule.
    UnexpectedCharacter,
}

/// One line-tagged error report.
#[derive(Clone, Copy, Debug, PartialEq, Eq, Structural)]
pub struct Diagnostic {
    pub line: u64,
    pub kind: ErrorKind,
}

/// The mathematical value of a `Diagnostic`.
#[verifier::ext_equal]
pub struct DiagModel {
    pub line: int,
    pub kind: ErrorKind,
}

impl View for Diagnostic {
    type V = DiagModel;

    open spec fn view(&self) -> DiagModel {
        DiagModel { line: self.line as int, kind: self.kind }
    }
}

/// The diagnostic sink. It records every report in order and keeps an
/// aggregate "an error happened" condition that the driving program
/// consults once the scan is over.
pub struct Lox {
    pub diagnostics: Vec<Diagnostic>,
    pub had_error: bool,
}

impl Lox {
    /// A fresh sink with no reports recorded.
    pub fn new() -> (r: Lox)
        ensures
            r.diagnostics@ == Seq::<Diagnostic>::empty(),
            !r.had_error,
    {
        Lox { diagnostics: Vec::new(), had_error: false }
    }

    /// Records one line-tagged error and marks the aggregate condition.
    pub fn error(&mut self, line: u64, kind: ErrorKind)
        ensures
            final(self).diagnostics@ == old(self).diagnostics@.push(
                Diagnostic { line, kind },
            ),
            final(self).had_error,
    {
        self.diagnostics.push(Diagnostic { line, kind });
        self.had_error = true;
    }
}

} // verus!
