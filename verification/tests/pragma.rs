use ccc::pp::diagnostic::{PpDiagnosticCategory, PpSeverity};
use ccc::pp::engine::{DiagnosticPragmaAction, PragmaEvent};
use ccc::pp::lexer::lex;
use ccc::pp::pragma::classify_pragma;
use ccc::pp::token::{PpToken, Span};

fn tokens(source: &str) -> Vec<PpToken> {
    lex(0, source).unwrap()
}

fn span() -> Span {
    Span {
        file: 0,
        start: 3,
        end: 9,
    }
}

#[test]
fn recognizes_once_and_system_header_pragmas() {
    let (event, diagnostics) = classify_pragma(&tokens("once"), span(), false);
    assert!(matches!(event, Some(PragmaEvent::Once { span: s }) if s == span()));
    assert!(diagnostics.is_empty());

    let (event, diagnostics) = classify_pragma(&tokens("GCC system_header"), span(), false);
    assert!(matches!(event, Some(PragmaEvent::SystemHeader { .. })));
    assert!(diagnostics.is_empty());

    let (event, diagnostics) = classify_pragma(&tokens("GCC system_header"), span(), true);
    assert!(matches!(event, Some(PragmaEvent::SystemHeader { .. })));
    assert_eq!(diagnostics.len(), 1);
    assert_eq!(diagnostics[0].code, "CCC1333");
    assert_eq!(diagnostics[0].severity, PpSeverity::Warning);
    assert_eq!(diagnostics[0].category, PpDiagnosticCategory::SystemHeader);
}

#[test]
fn reads_gcc_diagnostic_actions_and_options() {
    let (event, diagnostics) =
        classify_pragma(&tokens("GCC diagnostic ignored \"-Wformat\""), span(), false);
    assert!(diagnostics.is_empty());
    match event {
        Some(PragmaEvent::Diagnostic { action, option, .. }) => {
            assert_eq!(action, DiagnosticPragmaAction::Ignored);
            assert_eq!(option.as_deref(), Some("-Wformat"));
        }
        other => panic!("unexpected {other:?}"),
    }

    let (event, _) = classify_pragma(&tokens("GCC diagnostic pop"), span(), false);
    assert!(matches!(
        event,
        Some(PragmaEvent::Diagnostic {
            action: DiagnosticPragmaAction::Pop,
            option: None,
            ..
        })
    ));

    let (event, diagnostics) = classify_pragma(&tokens("GCC diagnostic frobnicate"), span(), false);
    assert!(event.is_none());
    assert_eq!(diagnostics[0].code, "CCC1328");
    assert_eq!(diagnostics[0].message, "unknown GCC diagnostic pragma");
}

#[test]
fn keeps_optimize_and_pack_payloads() {
    let (event, _) = classify_pragma(&tokens("GCC optimize(\"O2\")"), span(), false);
    match event {
        Some(PragmaEvent::GccOptimize { payload, .. }) => {
            let spellings: Vec<&str> = payload.iter().map(|t| t.spelling.as_str()).collect();
            assert_eq!(spellings, ["(", "\"O2\"", ")"]);
        }
        other => panic!("unexpected {other:?}"),
    }
    let (event, _) = classify_pragma(&tokens("pack(push, 1)"), span(), false);
    match event {
        Some(PragmaEvent::Pack { payload, .. }) => assert_eq!(payload.len(), 5),
        other => panic!("unexpected {other:?}"),
    }
}

#[test]
fn unknown_pragmas_keep_their_text_and_warn() {
    let (event, diagnostics) = classify_pragma(&tokens("vendor  thing(1)"), span(), false);
    match event {
        Some(PragmaEvent::Unknown { text, .. }) => assert_eq!(text, "vendor thing ( 1 )"),
        other => panic!("unexpected {other:?}"),
    }
    assert_eq!(diagnostics[0].code, "CCC1329");
    assert_eq!(diagnostics[0].category, PpDiagnosticCategory::UnknownPragma);
    let (event, _) = classify_pragma(&[], span(), false);
    assert!(matches!(event, Some(PragmaEvent::Unknown { ref text, .. }) if text.is_empty()));
}
