use ccc::pp::conditional::{
    handle_conditional, is_active, is_conditional_directive, needs_evaluation, ConditionalFrame,
};
use ccc::pp::lexer::lex;
use ccc::pp::macros::{MacroDefinition, MacroForm, MacroTable};
use ccc::pp::token::{PpToken, Span};

fn span(start: usize) -> Span {
    Span {
        file: 0,
        start,
        end: start + 1,
    }
}

fn tokens(source: &str) -> Vec<PpToken> {
    lex(0, source).unwrap()
}

fn codes(diagnostics: &[ccc::pp::diagnostic::PpDiagnostic]) -> Vec<&'static str> {
    diagnostics.iter().map(|d| d.code).collect()
}

#[test]
fn if_elif_else_takes_exactly_one_branch() {
    let table = MacroTable::new();
    let mut stack: Vec<ConditionalFrame> = Vec::new();
    assert!(needs_evaluation(&stack, "if"));
    handle_conditional(&mut stack, "if", &tokens("0"), span(0), &table, false);
    assert!(!is_active(&stack));
    assert!(needs_evaluation(&stack, "elif"));
    handle_conditional(&mut stack, "elif", &tokens("1"), span(1), &table, true);
    assert!(is_active(&stack));
    assert!(!needs_evaluation(&stack, "elif"));
    handle_conditional(&mut stack, "elif", &tokens("1"), span(2), &table, true);
    assert!(!is_active(&stack));
    let diagnostics = handle_conditional(&mut stack, "else", &[], span(3), &table, false);
    assert!(diagnostics.is_empty());
    assert!(!is_active(&stack));
    handle_conditional(&mut stack, "endif", &[], span(4), &table, false);
    assert!(stack.is_empty());
    assert!(is_active(&stack));
}

#[test]
fn else_is_taken_when_no_branch_was() {
    let table = MacroTable::new();
    let mut stack = Vec::new();
    handle_conditional(&mut stack, "if", &tokens("0"), span(0), &table, false);
    handle_conditional(&mut stack, "else", &[], span(1), &table, false);
    assert!(is_active(&stack));
    assert!(stack[0].saw_else);
    assert_eq!(stack[0].opening_span, span(0));
}

#[test]
fn groups_inside_inactive_text_stay_inactive() {
    let table = MacroTable::new();
    let mut stack = Vec::new();
    handle_conditional(&mut stack, "if", &tokens("0"), span(0), &table, false);
    assert!(!needs_evaluation(&stack, "if"));
    handle_conditional(&mut stack, "if", &tokens("1"), span(1), &table, true);
    assert!(!is_active(&stack));
    assert!(!stack[1].parent_active);
    handle_conditional(&mut stack, "else", &[], span(2), &table, false);
    assert!(!is_active(&stack));
    handle_conditional(&mut stack, "endif", &[], span(3), &table, false);
    handle_conditional(&mut stack, "else", &[], span(4), &table, false);
    assert!(is_active(&stack));
}

#[test]
fn ifdef_and_ifndef_ask_the_macro_table() {
    let mut table = MacroTable::new();
    table.define(MacroDefinition {
        name: "FOO".to_string(),
        form: MacroForm::Object,
        replacement: Vec::new(),
        definition_span: span(0),
        predefined: false,
    });
    let mut stack = Vec::new();
    handle_conditional(&mut stack, "ifdef", &tokens("FOO"), span(0), &table, false);
    assert!(is_active(&stack));
    handle_conditional(&mut stack, "ifndef", &tokens("FOO"), span(1), &table, true);
    assert!(!is_active(&stack));
    handle_conditional(&mut stack, "endif", &[], span(2), &table, false);
    handle_conditional(&mut stack, "ifdef", &tokens("__LINE__"), span(3), &table, false);
    assert!(is_active(&stack));
    handle_conditional(&mut stack, "endif", &[], span(4), &table, false);
    handle_conditional(&mut stack, "ifdef", &tokens("BAR"), span(5), &table, true);
    assert!(!is_active(&stack));

    let diagnostics = handle_conditional(&mut stack, "ifdef", &tokens("1 2"), span(6), &table, true);
    assert!(diagnostics.is_empty());
    handle_conditional(&mut stack, "endif", &[], span(7), &table, false);
    handle_conditional(&mut stack, "endif", &[], span(8), &table, false);
    let diagnostics = handle_conditional(&mut stack, "ifndef", &tokens("1 2"), span(9), &table, true);
    assert_eq!(codes(&diagnostics), ["CCC1306"]);
    assert_eq!(diagnostics[0].message, "#ifndef requires one identifier");
    assert!(!is_active(&stack));
}

#[test]
fn misplaced_conditional_directives_are_reported() {
    let table = MacroTable::new();
    let mut stack = Vec::new();
    assert_eq!(
        codes(&handle_conditional(&mut stack, "elif", &[], span(0), &table, true)),
        ["CCC1307"]
    );
    assert_eq!(
        codes(&handle_conditional(&mut stack, "else", &tokens("x"), span(1), &table, true)),
        ["CCC1309"]
    );
    assert_eq!(
        codes(&handle_conditional(&mut stack, "endif", &tokens("x"), span(2), &table, true)),
        ["CCC1312", "CCC1313"]
    );
    handle_conditional(&mut stack, "if", &tokens("1"), span(3), &table, true);
    assert_eq!(
        codes(&handle_conditional(&mut stack, "else", &tokens("x"), span(4), &table, true)),
        ["CCC1310"]
    );
    let elif = handle_conditional(&mut stack, "elif", &tokens("1"), span(5), &table, true);
    assert_eq!(codes(&elif), ["CCC1308"]);
    assert_eq!(elif[0].message, "#elif after #else");
    assert_eq!(
        codes(&handle_conditional(&mut stack, "else", &[], span(6), &table, true)),
        ["CCC1311"]
    );
    assert!(!is_active(&stack));
    assert!(is_conditional_directive("elif"));
    assert!(!is_conditional_directive("define"));
}
