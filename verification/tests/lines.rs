use ccc::pp::conditional::handle_conditional;
use ccc::pp::lexer::lex;
use ccc::pp::lines::{finish_lines, line_step, settle_pending, DirectiveRun, LineState, LineWork};
use ccc::pp::macros::MacroTable;
use ccc::pp::token::PpToken;

fn line(source: &str) -> Vec<PpToken> {
    if source.is_empty() { Vec::new() } else { lex(0, source).unwrap() }
}

fn enter_if(state: &mut LineState, value: bool) {
    let tokens = line("#if 0");
    let table = MacroTable::new();
    let diagnostics = handle_conditional(&mut state.conditionals, "if", &tokens[2..], tokens[0].span, &table, value);
    assert!(diagnostics.is_empty());
}

#[test]
fn directives_of_an_inactive_group_do_not_run() {
    let mut state = LineState::new();
    enter_if(&mut state, false);
    match line_step(&mut state, line("#define X 1"), "a.c", false) {
        LineWork::Directive { name, run, flush, .. } => {
            assert_eq!(name, "define");
            assert_eq!(run, DirectiveRun::Inactive);
            assert!(flush.is_none());
        }
        _ => panic!("expected a directive"),
    }
    match line_step(&mut state, line("#endif"), "a.c", false) {
        LineWork::Directive { run, .. } => assert_eq!(run, DirectiveRun::Conditional),
        _ => panic!("expected a directive"),
    }
    assert!(matches!(line_step(&mut state, line("int x;"), "a.c", false), LineWork::Skipped));
    assert!(state.pending.is_empty());
}

#[test]
fn text_is_held_while_a_parenthesis_is_open() {
    let mut state = LineState::new();
    match line_step(&mut state, line("f(1,"), "a.c", false) {
        LineWork::Text { flush, newline, settle } => {
            assert!(flush.is_none() && !newline && !settle);
        }
        _ => panic!("expected text"),
    }
    match line_step(&mut state, line("2)"), "a.c", false) {
        LineWork::Text { newline, settle, .. } => assert!(!newline && settle),
        _ => panic!("expected text"),
    }
    assert_eq!(state.pending.len(), 6);
    assert!(state.pending[4].leading_space);
    assert!(!state.pending[4].at_start_of_line);
    assert_eq!(state.pending_lines, 2);
    let tokens = state.pending.clone();
    let (out, lines) = settle_pending(&mut state, tokens, false).unwrap();
    assert_eq!(out.len(), 6);
    assert_eq!(lines, 2);
    assert!(state.pending.is_empty());
}

#[test]
fn a_trailing_macro_name_waits_for_the_next_line() {
    let mut state = LineState::new();
    assert!(matches!(line_step(&mut state, line("f"), "a.c", false), LineWork::Text { settle: true, .. }));
    let tokens = state.pending.clone();
    assert!(settle_pending(&mut state, tokens, true).is_none());
    assert!(state.pending_expanded && state.pending_can_continue);
    match line_step(&mut state, line("x"), "a.c", false) {
        LineWork::Text { flush: Some(held), .. } => {
            assert_eq!(held.tokens.len(), 1);
            assert!(held.expanded);
            assert_eq!(held.lines, 1);
        }
        _ => panic!("expected the held name to be emitted first"),
    }
    assert_eq!(state.pending.len(), 1);
    assert_eq!(state.pending[0].spelling, "x");
}

#[test]
fn an_empty_line_ends_an_output_line_and_an_open_group_is_reported() {
    let mut state = LineState::new();
    assert!(matches!(line_step(&mut state, Vec::new(), "a.c", false), LineWork::Text { newline: true, .. }));
    enter_if(&mut state, true);
    let (held, open) = finish_lines(&mut state);
    assert!(held.is_none());
    assert!(open.is_some());
}

use ccc::pp::engine::{LineMarker, PpItem, PragmaEvent};
use ccc::pp::lines::{closing_newlines, directive_action, protect_defined_operands, DirectiveAction};
use ccc::pp::token::Span;

#[test]
fn directives_are_told_apart_by_name() {
    assert_eq!(directive_action(""), DirectiveAction::Nothing);
    assert_eq!(directive_action("define"), DirectiveAction::Define);
    assert_eq!(directive_action("include_next"), DirectiveAction::IncludeNext);
    assert_eq!(directive_action("linemarker"), DirectiveAction::Linemarker);
    assert_eq!(directive_action("ident"), DirectiveAction::Unknown);
}

#[test]
fn output_lines_are_closed_once() {
    let span = Span { file: 0, start: 0, end: 1 };
    let mut items = vec![PpItem::Newline];
    assert_eq!(closing_newlines(&items, 1, 1), 1);
    assert_eq!(closing_newlines(&items, 1, 3), 3);
    items.push(PpItem::LineMarker(LineMarker { line: 1, file: "a.h".to_owned(), flags: vec![] }));
    assert_eq!(closing_newlines(&items, 1, 1), 0);
    items.push(PpItem::Pragma(PragmaEvent::Once { span }));
    assert_eq!(closing_newlines(&items, 1, 2), 2);
}

#[test]
fn the_operand_of_defined_is_hidden_from_expansion() {
    let tokens = protect_defined_operands(line("defined(A) && defined B && C"));
    assert_eq!(tokens[2].hide_set, ["A"]);
    assert_eq!(tokens[6].hide_set, ["B"]);
    assert!(tokens[8].hide_set.is_empty());
    assert!(tokens[0].hide_set.is_empty());
}
