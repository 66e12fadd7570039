use ccc::pp::diagnostic::PpDiagnostic;
use ccc::pp::expand::{
    complete_invocation, expansion_step, ExpansionSettings, ExpansionStep, SequenceExpansion,
};
use ccc::pp::lexer::lex;
use ccc::pp::macros::{MacroDefinition, MacroForm, MacroTable};
use ccc::pp::substitute::prescan_order;
use ccc::pp::token::{PpToken, Span};

fn tokens(source: &str) -> Vec<PpToken> {
    if source.is_empty() {
        Vec::new()
    } else {
        lex(0, source).unwrap()
    }
}

fn object(table: &mut MacroTable, name: &str, body: &str) {
    table.define(MacroDefinition {
        name: name.to_owned(),
        form: MacroForm::Object,
        replacement: tokens(body),
        definition_span: Span { file: 0, start: 0, end: 1 },
        predefined: false,
    });
}

fn function(table: &mut MacroTable, name: &str, parameters: &[&str], variadic: bool, body: &str) {
    table.define(MacroDefinition {
        name: name.to_owned(),
        form: MacroForm::Function {
            parameters: parameters.iter().map(|p| p.to_string()).collect(),
            variadic,
        },
        replacement: tokens(body),
        definition_span: Span { file: 0, start: 0, end: 1 },
        predefined: false,
    });
}

fn settings() -> ExpansionSettings {
    ExpansionSettings {
        expansion_depth: 200,
        argument_depth: 256,
        output_tokens: 1000,
        logical_file: "a.c".to_owned(),
        is_system_header: false,
        date: "\"Jan  1 1970\"".to_owned(),
        time: "\"00:00:00\"".to_owned(),
        gnu_comma_elision: true,
    }
}

fn run(
    table: &mut MacroTable,
    input: Vec<PpToken>,
    emitted: &mut usize,
    diagnostics: &mut Vec<PpDiagnostic>,
    settings: &ExpansionSettings,
) -> (Vec<PpToken>, bool) {
    let mut sequence = SequenceExpansion::new(input);
    loop {
        match expansion_step(table, &mut sequence, emitted, diagnostics, settings) {
            ExpansionStep::Finished | ExpansionStep::Stopped => break,
            ExpansionStep::Advanced => {}
            ExpansionStep::Invocation(pending) => {
                let order = prescan_order(
                    &pending.definition,
                    &pending.parameters,
                    pending.variadic,
                    &pending.arguments,
                );
                let mut expanded = pending.arguments.clone();
                for index in order {
                    let argument = pending.arguments[index].clone();
                    expanded[index] = run(table, argument, emitted, diagnostics, settings).0;
                }
                complete_invocation(&mut sequence, pending, &expanded, diagnostics, settings);
            }
        }
    }
    (sequence.output, sequence.trailing)
}

fn expand_with(table: &mut MacroTable, source: &str, settings: &ExpansionSettings) -> (Vec<String>, Vec<PpDiagnostic>, bool) {
    let mut emitted = 0;
    let mut diagnostics = Vec::new();
    let (out, trailing) = run(table, tokens(source), &mut emitted, &mut diagnostics, settings);
    (out.into_iter().map(|t| t.spelling).collect(), diagnostics, trailing)
}

fn expand(table: &mut MacroTable, source: &str) -> Vec<String> {
    let (out, diagnostics, _) = expand_with(table, source, &settings());
    assert!(diagnostics.is_empty(), "{diagnostics:?}");
    out
}

#[test]
fn object_like_macros_are_rescanned() {
    let mut table = MacroTable::new();
    object(&mut table, "A", "B + 1");
    object(&mut table, "B", "2 * C");
    object(&mut table, "C", "x");
    assert_eq!(expand(&mut table, "A ; C"), ["2", "*", "x", "+", "1", ";", "x"]);
}

#[test]
fn a_macro_is_not_expanded_inside_its_own_expansion() {
    let mut table = MacroTable::new();
    object(&mut table, "foo", "foo + 1");
    object(&mut table, "a", "b");
    object(&mut table, "b", "a");
    assert_eq!(expand(&mut table, "foo"), ["foo", "+", "1"]);
    assert_eq!(expand(&mut table, "a b"), ["a", "b"]);
}

#[test]
fn function_like_macros_take_expanded_arguments() {
    let mut table = MacroTable::new();
    object(&mut table, "ONE", "1");
    function(&mut table, "ADD", &["x", "y"], false, "(x + y)");
    function(&mut table, "STR", &["x"], false, "#x");
    assert_eq!(expand(&mut table, "ADD(ONE, ADD(2, 3))"), ["(", "1", "+", "(", "2", "+", "3", ")", ")"]);
    assert_eq!(expand(&mut table, "STR(ONE)"), ["\"ONE\""]);
}

#[test]
fn an_object_like_replacement_can_invoke_a_function_like_macro_after_it() {
    let mut table = MacroTable::new();
    function(&mut table, "f", &["x"], false, "[x]");
    object(&mut table, "g", "f");
    assert_eq!(expand(&mut table, "g(1)"), ["[", "1", "]"]);
    let (out, _, trailing) = expand_with(&mut table, "g", &settings());
    assert_eq!(out, ["f"]);
    assert!(trailing);
}

#[test]
fn each_used_argument_is_expanded_once() {
    let mut table = MacroTable::new();
    function(&mut table, "TWICE", &["x"], false, "x x");
    function(&mut table, "UNUSED", &["x"], false, "0");
    assert_eq!(expand(&mut table, "TWICE(__COUNTER__)"), ["0", "0"]);
    assert_eq!(expand(&mut table, "UNUSED(__COUNTER__) __COUNTER__"), ["0", "1"]);
}

#[test]
fn arguments_errors_leave_the_name_as_it_is() {
    let mut table = MacroTable::new();
    function(&mut table, "F", &["x", "y"], false, "x y");
    let (out, diagnostics, _) = expand_with(&mut table, "F(1) z", &settings());
    assert_eq!(out, ["F", "(", "1", ")", "z"]);
    assert_eq!(diagnostics.len(), 1);
    assert_eq!(diagnostics[0].code, "CCC1104");
}

#[test]
fn the_depth_and_token_limits_hold() {
    let mut table = MacroTable::new();
    object(&mut table, "A", "B");
    object(&mut table, "B", "C");
    let mut shallow = settings();
    shallow.expansion_depth = 1;
    let (out, diagnostics, _) = expand_with(&mut table, "A", &shallow);
    assert_eq!(out, ["C"]);
    assert_eq!(diagnostics.len(), 1);
    assert_eq!(diagnostics[0].code, "CCC1101");
    assert_eq!(diagnostics[0].message, "macro expansion depth limit exceeded");

    let mut short = settings();
    short.output_tokens = 2;
    let (out, diagnostics, _) = expand_with(&mut table, "x y z", &short);
    assert_eq!(out, ["x", "y"]);
    assert_eq!(diagnostics[0].code, "CCC1102");
}
