//! Preprocessing diagnostics: their severities, categories and spans.

use vstd::prelude::*;

use crate::pp::token::Span;

verus! {

#[derive(Clone, Copy, Debug, PartialEq, Eq, Hash, Structural)]
pub enum PpSeverity {
    Error,
    Warning,
    Note,
}

#[derive(Clone, Copy, Debug, PartialEq, Eq, Hash, Structural)]
pub enum PpDiagnosticCategory {
    General,
    Trigraph,
    MacroRedefined,
    UnknownPragma,
    SystemHeader,
}

/// A diagnostic of preprocessing.
#[derive(Clone, Debug, PartialEq, Eq)]
pub struct PpDiagnostic {
    pub severity: PpSeverity,
    pub code: &'static str,
    pub message: String,
    pub span: Option<Span>,
    pub category: PpDiagnosticCategory,
}

} // verus!
