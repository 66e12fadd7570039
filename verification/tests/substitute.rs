use ccc::pp::diagnostic::PpDiagnostic;
use ccc::pp::lexer::lex;
use ccc::pp::macros::{MacroDefinition, MacroForm};
use ccc::pp::substitute::{prescan_order, relex_one, substitute};
use ccc::pp::token::{PpToken, PpTokenKind, Span};

fn tokens(source: &str) -> Vec<PpToken> {
    lex(0, source).unwrap()
}

fn function_macro(parameters: &[&str], variadic: bool, body: &str) -> (MacroDefinition, Vec<String>) {
    let names: Vec<String> = parameters.iter().map(|p| p.to_string()).collect();
    let definition = MacroDefinition {
        name: "F".to_owned(),
        form: MacroForm::Function { parameters: names.clone(), variadic },
        replacement: tokens(body),
        definition_span: Span { file: 0, start: 0, end: 1 },
        predefined: false,
    };
    (definition, names)
}

fn invocation() -> PpToken {
    let mut token = PpToken::synthetic(
        PpTokenKind::Identifier,
        Span { file: 3, start: 40, end: 41 },
        "F".to_owned(),
    );
    token.logical_line = 7;
    token.leading_space = true;
    token
}

fn run(
    parameters: &[&str],
    variadic: bool,
    body: &str,
    arguments: &[&str],
    variadic_was_absent: bool,
    gnu: bool,
) -> (Vec<PpToken>, Vec<PpDiagnostic>) {
    let (definition, names) = function_macro(parameters, variadic, body);
    let arguments: Vec<Vec<PpToken>> = arguments
        .iter()
        .map(|a| if a.is_empty() { Vec::new() } else { tokens(a) })
        .collect();
    substitute(
        &definition,
        &names,
        variadic,
        &arguments,
        &arguments,
        variadic_was_absent,
        &invocation(),
        gnu,
    )
}

fn spellings(tokens: &[PpToken]) -> Vec<&str> {
    tokens.iter().map(|t| t.spelling.as_str()).collect()
}

fn codes(diagnostics: &[PpDiagnostic]) -> Vec<&str> {
    diagnostics.iter().map(|d| d.code).collect()
}

#[test]
fn parameters_are_replaced_by_their_arguments_at_the_invocation() {
    let (out, diagnostics) = run(&["a", "b"], false, "a + b", &["1", "x * 2"], false, false);
    assert_eq!(spellings(&out), ["1", "+", "x", "*", "2"]);
    assert!(diagnostics.is_empty());
    for token in &out {
        assert_eq!(token.span, Span { file: 3, start: 40, end: 41 });
        assert_eq!(token.logical_line, 7);
    }
    assert!(out[0].leading_space);
    assert!(!out[0].at_start_of_line);
}

#[test]
fn expanded_arguments_replace_parameters_outside_hash_and_paste() {
    let (definition, names) = function_macro(&["a"], false, "a a ## a");
    let raw = vec![tokens("X")];
    let expanded = vec![tokens("1 + 1")];
    let (out, diagnostics) =
        substitute(&definition, &names, false, &raw, &expanded, false, &invocation(), false);
    assert_eq!(spellings(&out), ["1", "+", "1", "XX"]);
    assert!(diagnostics.is_empty());
}

#[test]
fn hash_stringizes_the_raw_argument() {
    let (out, diagnostics) = run(&["a"], false, "#a", &["x   \"y\""], false, false);
    assert_eq!(spellings(&out), ["\"x \\\"y\\\"\""]);
    assert_eq!(out[0].kind, PpTokenKind::StringLiteral);
    assert!(diagnostics.is_empty());
}

#[test]
fn paste_joins_two_operands_into_one_token() {
    let (out, diagnostics) = run(&["a", "b"], false, "a ## b", &["foo", "bar"], false, false);
    assert_eq!(spellings(&out), ["foobar"]);
    assert_eq!(out[0].kind, PpTokenKind::Identifier);
    assert!(diagnostics.is_empty());
}

#[test]
fn an_empty_operand_of_paste_is_a_placemarker() {
    let (out, diagnostics) = run(&["a", "b"], false, "a ## b", &["", "bar"], false, false);
    assert_eq!(spellings(&out), ["bar"]);
    assert!(diagnostics.is_empty());
    let (out, _) = run(&["a", "b"], false, "a ## b", &["foo", ""], false, false);
    assert_eq!(spellings(&out), ["foo"]);
}

#[test]
fn a_paste_that_forms_no_single_token_keeps_both_and_is_reported() {
    let (out, diagnostics) = run(&["a", "b"], false, "a ## b", &["+", "/"], false, false);
    assert_eq!(spellings(&out), ["+", "/"]);
    assert_eq!(codes(&diagnostics), ["CCC1108"]);
    assert_eq!(
        diagnostics[0].message,
        "pasting '+' and '/' does not form a preprocessing token"
    );
}

#[test]
fn hash_without_a_parameter_is_reported() {
    let (out, diagnostics) = run(&["a"], false, "# 1 a", &["z"], false, false);
    assert_eq!(spellings(&out), ["1", "z"]);
    assert_eq!(codes(&diagnostics), ["CCC1106"]);
    assert_eq!(diagnostics[0].message, "'#' must precede a macro parameter");
}

#[test]
fn trailing_paste_is_reported_twice() {
    let (out, diagnostics) = run(&["a"], false, "a ##", &["z"], false, false);
    assert_eq!(spellings(&out), ["z"]);
    assert_eq!(codes(&diagnostics), ["CCC1107", "CCC1107"]);
    assert_eq!(diagnostics[1].message, "'##' has no right operand");
    assert_eq!(diagnostics[1].span, Some(Span { file: 3, start: 40, end: 41 }));
}

#[test]
fn va_args_joins_the_variadic_arguments_with_commas() {
    let (out, diagnostics) = run(&["f"], true, "f(__VA_ARGS__)", &["p", "1", "2"], false, false);
    assert_eq!(spellings(&out), ["p", "(", "1", ",", "2", ")"]);
    assert!(diagnostics.is_empty());
}

#[test]
fn gnu_comma_elision_drops_the_comma_when_no_variadic_argument_was_given() {
    let (out, diagnostics) = run(&["f"], true, "f , ## __VA_ARGS__", &["p"], true, true);
    assert_eq!(spellings(&out), ["p"]);
    assert!(diagnostics.is_empty());
    let (out, _) = run(&["f"], true, "f , ## __VA_ARGS__", &["p", "1"], false, true);
    assert_eq!(spellings(&out), ["p", ",", "1"]);
}

#[test]
fn relexing_accepts_only_a_single_token() {
    let reference = invocation();
    let pasted = relex_one(&reference, "<<=").unwrap();
    assert_eq!(pasted.spelling, "<<=");
    assert_eq!(pasted.span, reference.span);
    assert!(relex_one(&reference, "a b").is_none());
    assert!(relex_one(&reference, "").is_none());
}

#[test]
fn prescan_asks_for_each_argument_once_in_first_use_order() {
    let (definition, names) = function_macro(&["a", "b"], false, "a ## b + b + a + #a + a");
    let arguments = vec![tokens("1"), tokens("2")];
    assert_eq!(prescan_order(&definition, &names, false, &arguments), [1, 0]);
    let (definition, names) = function_macro(&["f"], true, "#f __VA_ARGS__ f");
    let arguments = vec![tokens("1"), tokens("2"), tokens("3")];
    assert_eq!(prescan_order(&definition, &names, true, &arguments), [1, 2, 0]);
}
