//! Per-run session state: the error flag a driver inspects to decide its
//! exit behaviour, together with the ordered reports behind it. Each run
//! starts from a fresh value instead of global mutable state.

use vstd::prelude::*;

use crate::token::Diagnostic;

verus! {

/// One run's error record: whether any error was reported, and the
/// reports themselves in the order they arrived.
pub struct Lox {
    pub had_error_: bool,
    pub reports: Vec<Diagnostic>,
}

impl Lox {
    /// A fresh session: no error yet, no reports.
    pub fn new() -> (l: Lox)
        ensures
            !l.had_error_,
            l.reports@ == Seq::<Diagnostic>::empty(),
    {
        Lox { had_error_: false, reports: Vec::new() }
    }

    /// Records one error at a source line: the flag is set and the report
    /// appended; earlier reports are kept.
    pub fn error(&mut self, line: usize, msg: String)
        ensures
            final(self).had_error_,
            final(self).reports@ == old(self).reports@.push(
                (Diagnostic { line, message: msg }),
            ),
    {
        self.had_error_ = true;
        self.reports.push(Diagnostic { line, message: msg });
    }
}

} // verus!
