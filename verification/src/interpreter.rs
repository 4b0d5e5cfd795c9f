//! The error-reporting collaborator and the driver-facing session type.
//!
//! The error handler is the mutable sink the scanner reports lexical
//! mistakes through.  It keeps a single "an error occurred" flag plus the
//! ordered stream of diagnostics emitted so far; it never stops a scan.
//! Rendering the diagnostics to the error stream is the caller's business.

use vstd::prelude::*;
use vstd::string::StringExecFns;

use crate::token::{spec_decimal, to_decimal};

verus! {

/// The fixed format of one line of the error stream:
/// `[line {line}] Error {location}: {message}`.
pub open spec fn spec_report_line(line: int, location: Seq<char>, msg: Seq<char>) -> Seq<char> {
    "[line "@ + spec_decimal(line) + "] Error "@ + location + ": "@ + msg
}

/// Render one diagnostic as the line the error stream shows.  The caller
/// (the driver) prints it; rendering itself decides nothing.
pub fn report_line(line: usize, location: &str, msg: &str) -> (r: String)
    ensures
        r@ == spec_report_line(line as int, location@, msg@),
{
    let mut s = String::from_str("[line ");
    let number = to_decimal(line);
    s.append(number.as_str());
    s.append("] Error ");
    s.append(location);
    s.append(": ");
    s.append(msg);
    proof {
        assert(s@ =~= spec_report_line(line as int, location@, msg@));
    }
    s
}

/// Mathematical model of one emitted diagnostic.
pub struct SpecDiagnostic {
    pub line: int,
    pub message: Seq<char>,
}

/// One emitted diagnostic: the 1-based source line it points at and the
/// human-readable message.
pub struct Diagnostic {
    pub line: usize,
    pub message: String,
}

impl View for Diagnostic {
    type V = SpecDiagnostic;

    open spec fn view(&self) -> SpecDiagnostic {
        SpecDiagnostic { line: self.line as int, message: self.message@ }
    }
}

/// The views of a sequence of diagnostics.
pub open spec fn diagnostic_views(s: Seq<Diagnostic>) -> Seq<SpecDiagnostic> {
    s.map_values(|d: Diagnostic| d@)
}

/// The mutable error sink: a "had error" flag and the diagnostics emitted
/// during the scans it has witnessed, in emission order.
pub struct ErrorHandler {
    pub error: bool,
    pub diagnostics: Vec<Diagnostic>,
}

impl ErrorHandler {
    /// A fresh handler: no error seen, nothing emitted.
    pub fn new() -> (r: ErrorHandler)
        ensures
            !r.error,
            r.diagnostics@ == Seq::<Diagnostic>::empty(),
    {
        ErrorHandler { error: false, diagnostics: Vec::new() }
    }

    /// Record one lexical error: emit its diagnostic and set the flag.
    /// Never consulted by the scanner to alter control flow.
    pub fn error(&mut self, line: usize, msg: &str)
        ensures
            final(self).error,
            diagnostic_views(final(self).diagnostics@) == diagnostic_views(
                old(self).diagnostics@,
            ).push(SpecDiagnostic { line: line as int, message: msg@ }),
    {
        self.diagnostics.push(Diagnostic { line, message: msg.to_owned() });
        self.error = true;
        proof {
            assert(diagnostic_views(self.diagnostics@) =~= diagnostic_views(
                old(self).diagnostics@,
            ).push(SpecDiagnostic { line: line as int, message: msg@ }));
        }
    }

    /// Clear the flag between independent scanning sessions.  The
    /// diagnostics already emitted stay emitted.
    pub fn reset(&mut self)
        ensures
            !final(self).error,
            final(self).diagnostics == old(self).diagnostics,
    {
        self.error = false;
    }
}

/// A scanning session: owns the error handler whose flag distinguishes a
/// clean scan from an error-laden one.
pub struct Interpreter {
    pub error_handler: ErrorHandler,
}

impl Interpreter {
    /// A fresh session with a fresh error handler.
    pub fn new() -> (r: Interpreter)
        ensures
            !r.error_handler.error,
            r.error_handler.diagnostics@ == Seq::<Diagnostic>::empty(),
    {
        Interpreter { error_handler: ErrorHandler::new() }
    }
}

} // verus!
