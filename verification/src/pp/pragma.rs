//! What a `#pragma` line is: the pragmas the preprocessor recognizes, and
//! the warnings an unrecognized one gets.

use vstd::prelude::*;

use crate::pp::diagnostic::{PpDiagnostic, PpDiagnosticCategory, PpSeverity};
use crate::pp::directive::{directive_message, spaced_spellings, spellings_start_with};
use crate::pp::engine::{DiagnosticPragmaAction, PragmaEvent};
use crate::pp::token::{duplicate_token, token_fields, tokens_fields, PpToken, Span};
use crate::text::{chars_of, str_eq, string_from_chars};

verus! {

/// A recognized pragma with its payload as token fields.
pub enum PragmaView {
    Once(Span),
    SystemHeader(Span),
    Diagnostic(DiagnosticPragmaAction, Option<Seq<char>>, Span),
    GccOptimize(Seq<(crate::pp::token::PpTokenKind, Span, Seq<char>, bool, bool, usize, bool)>, Span),
    Pack(Seq<(crate::pp::token::PpTokenKind, Span, Seq<char>, bool, bool, usize, bool)>, Span),
    Unknown(Seq<char>, Span),
}

pub open spec fn pragma_view(event: PragmaEvent) -> PragmaView {
    match event {
        PragmaEvent::Once { span } => PragmaView::Once(span),
        PragmaEvent::SystemHeader { span } => PragmaView::SystemHeader(span),
        PragmaEvent::Diagnostic { action, option, span } => PragmaView::Diagnostic(
            action,
            match option {
                Some(o) => Some(o@),
                None => None,
            },
            span,
        ),
        PragmaEvent::GccOptimize { payload, span } => PragmaView::GccOptimize(tokens_fields(payload@), span),
        PragmaEvent::Pack { payload, span } => PragmaView::Pack(tokens_fields(payload@), span),
        PragmaEvent::Unknown { text, span } => PragmaView::Unknown(text@, span),
    }
}

/// A diagnostic's severity, code, message, span and category.
pub open spec fn note_view(d: PpDiagnostic) -> (PpSeverity, Seq<char>, Seq<char>, Option<Span>, PpDiagnosticCategory) {
    (d.severity, d.code@, d.message@, d.span, d.category)
}

pub open spec fn starts_with_spellings(tokens: Seq<PpToken>, first: Seq<char>, second: Seq<char>) -> bool {
    tokens.len() >= 2 && tokens[0].spelling@ == first && tokens[1].spelling@ == second
}

/// The action a `#pragma GCC diagnostic` names.
pub open spec fn diagnostic_action(word: Seq<char>) -> Option<DiagnosticPragmaAction> {
    if word == "push"@ {
        Some(DiagnosticPragmaAction::Push)
    } else if word == "pop"@ {
        Some(DiagnosticPragmaAction::Pop)
    } else if word == "ignored"@ {
        Some(DiagnosticPragmaAction::Ignored)
    } else if word == "warning"@ {
        Some(DiagnosticPragmaAction::Warning)
    } else if word == "error"@ {
        Some(DiagnosticPragmaAction::Error)
    } else {
        None
    }
}

/// The text inside a quoted spelling.
pub open spec fn quoted_body(s: Seq<char>) -> Option<Seq<char>> {
    if s.len() >= 2 && s[0] == '"' && s.last() == '"' {
        Some(s.subrange(1, s.len() - 1))
    } else {
        None
    }
}

/// What a pragma line is, and what it reports: `once`; `GCC system_header`,
/// with a warning in the main file; `GCC diagnostic` with a known action and
/// the option it quotes, or a warning and no event; `GCC optimize` and
/// `pack` with their payloads; anything else is kept as text with a
/// warning.
pub open spec fn classified_pragma(operands: Seq<PpToken>, span: Span, in_main_file: bool) -> (
    Option<PragmaView>,
    Seq<(PpSeverity, Seq<char>, Seq<char>, Option<Span>, PpDiagnosticCategory)>,
) {
    if operands.len() > 0 && operands[0].spelling@ == "once"@ {
        (Some(PragmaView::Once(span)), seq![])
    } else if starts_with_spellings(operands, "GCC"@, "system_header"@) {
        (
            Some(PragmaView::SystemHeader(span)),
            if in_main_file {
                seq![
                    (
                        PpSeverity::Warning,
                        "CCC1333"@,
                        "#pragma GCC system_header is ignored in the main file"@,
                        Some(span),
                        PpDiagnosticCategory::SystemHeader,
                    ),
                ]
            } else {
                seq![]
            },
        )
    } else if starts_with_spellings(operands, "GCC"@, "diagnostic"@) {
        match if operands.len() > 2 {
            diagnostic_action(operands[2].spelling@)
        } else {
            None
        } {
            None => (
                None,
                seq![
                    (
                        PpSeverity::Warning,
                        "CCC1328"@,
                        "unknown GCC diagnostic pragma"@,
                        Some(span),
                        PpDiagnosticCategory::General,
                    ),
                ],
            ),
            Some(action) => (
                Some(
                    PragmaView::Diagnostic(
                        action,
                        if operands.len() > 3 {
                            quoted_body(operands[3].spelling@)
                        } else {
                            None
                        },
                        span,
                    ),
                ),
                seq![],
            ),
        }
    } else if starts_with_spellings(operands, "GCC"@, "optimize"@) {
        (Some(PragmaView::GccOptimize(tokens_fields(operands.skip(2)), span)), seq![])
    } else if operands.len() > 0 && operands[0].spelling@ == "pack"@ {
        (Some(PragmaView::Pack(tokens_fields(operands.skip(1)), span)), seq![])
    } else {
        (
            Some(PragmaView::Unknown(spaced_spellings(operands), span)),
            seq![
                (
                    PpSeverity::Warning,
                    "CCC1329"@,
                    "unknown pragma"@,
                    Some(span),
                    PpDiagnosticCategory::UnknownPragma,
                ),
            ],
        )
    }
}

fn tokens_from(tokens: &[PpToken], start: usize) -> (result: Vec<PpToken>)
    requires
        start <= tokens@.len(),
    ensures
        tokens_fields(result@) == tokens_fields(tokens@.skip(start as int)),
{
    let mut out: Vec<PpToken> = Vec::new();
    let mut i = start;
    while i < tokens.len()
        invariant
            start <= i <= tokens@.len(),
            out@.len() == i - start,
            forall|k: int| 0 <= k < out@.len() ==> token_fields(#[trigger] out@[k]) == token_fields(tokens@[start + k]),
        decreases tokens.len() - i,
    {
        out.push(duplicate_token(&tokens[i]));
        i = i + 1;
    }
    assert(tokens_fields(out@) =~= tokens_fields(tokens@.skip(start as int)));
    out
}

fn warning(code: &'static str, message: &str, span: Span, category: PpDiagnosticCategory) -> (result: PpDiagnostic)
    ensures
        note_view(result) == (PpSeverity::Warning, code@, message@, Some(span), category),
{
    PpDiagnostic { severity: PpSeverity::Warning, code, message: message.to_string(), span: Some(span), category }
}

fn quoted_text(spelling: &str) -> (result: Option<String>)
    ensures
        match result {
            Some(t) => quoted_body(spelling@) == Some(t@),
            None => quoted_body(spelling@) is None,
        },
{
    let s = chars_of(spelling);
    if s.len() >= 2 && s[0] == '"' && s[s.len() - 1] == '"' {
        let mut body: Vec<char> = Vec::new();
        let mut i: usize = 1;
        while i < s.len() - 1
            invariant
                1 <= i <= s@.len() - 1,
                body@ == s@.subrange(1, i as int),
            decreases s.len() - 1 - i,
        {
            body.push(s[i]);
            i = i + 1;
            assert(body@ =~= s@.subrange(1, i as int));
        }
        Some(string_from_chars(body.as_slice()))
    } else {
        None
    }
}

/// Classifies a pragma line: the event it records, if any, and the
/// diagnostics it reports.
pub fn classify_pragma(operands: &[PpToken], span: Span, in_main_file: bool) -> (result: (
    Option<PragmaEvent>,
    Vec<PpDiagnostic>,
))
    ensures
        (
            match result.0 {
                Some(event) => Some(pragma_view(event)),
                None => None,
            },
            result.1@.map_values(|d: PpDiagnostic| note_view(d)),
        ) == classified_pragma(operands@, span, in_main_file),
{
    let mut diagnostics: Vec<PpDiagnostic> = Vec::new();
    let event = if operands.len() > 0 && str_eq(operands[0].spelling.as_str(), "once") {
        Some(PragmaEvent::Once { span })
    } else if spellings_start_with(operands, &["GCC", "system_header"]) {
        if in_main_file {
            diagnostics.push(
                warning(
                    "CCC1333",
                    "#pragma GCC system_header is ignored in the main file",
                    span,
                    PpDiagnosticCategory::SystemHeader,
                ),
            );
        }
        Some(PragmaEvent::SystemHeader { span })
    } else if spellings_start_with(operands, &["GCC", "diagnostic"]) {
        let action = if operands.len() > 2 {
            let word = operands[2].spelling.as_str();
            if str_eq(word, "push") {
                Some(DiagnosticPragmaAction::Push)
            } else if str_eq(word, "pop") {
                Some(DiagnosticPragmaAction::Pop)
            } else if str_eq(word, "ignored") {
                Some(DiagnosticPragmaAction::Ignored)
            } else if str_eq(word, "warning") {
                Some(DiagnosticPragmaAction::Warning)
            } else if str_eq(word, "error") {
                Some(DiagnosticPragmaAction::Error)
            } else {
                None
            }
        } else {
            None
        };
        match action {
            None => {
                diagnostics.push(
                    warning(
                        "CCC1328",
                        "unknown GCC diagnostic pragma",
                        span,
                        PpDiagnosticCategory::General,
                    ),
                );
                None
            },
            Some(action) => {
                let option = if operands.len() > 3 {
                    quoted_text(operands[3].spelling.as_str())
                } else {
                    None
                };
                Some(PragmaEvent::Diagnostic { action, option, span })
            },
        }
    } else if spellings_start_with(operands, &["GCC", "optimize"]) {
        Some(PragmaEvent::GccOptimize { payload: tokens_from(operands, 2), span })
    } else if operands.len() > 0 && str_eq(operands[0].spelling.as_str(), "pack") {
        Some(PragmaEvent::Pack { payload: tokens_from(operands, 1), span })
    } else {
        diagnostics.push(warning("CCC1329", "unknown pragma", span, PpDiagnosticCategory::UnknownPragma));
        Some(PragmaEvent::Unknown { text: directive_message(operands), span })
    };
    proof {
        reveal_strlit("GCC");
        reveal_strlit("system_header");
        reveal_strlit("diagnostic");
        reveal_strlit("optimize");
    }
    assert(diagnostics@.map_values(|d: PpDiagnostic| note_view(d)) =~= classified_pragma(operands@, span, in_main_file).1);
    (event, diagnostics)
}

} // verus!
