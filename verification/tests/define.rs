use ccc::pp::define::{handle_undef, install_definition, parse_define};
use ccc::pp::diagnostic::PpSeverity;
use ccc::pp::lexer::lex;
use ccc::pp::macros::{MacroForm, MacroTable};
use ccc::pp::token::{PpToken, Span};

fn operands(directive: &str) -> Vec<PpToken> {
    lex(0, directive).unwrap()
}

fn define(table: &mut MacroTable, directive: &str, gnu: bool) -> Result<Option<&'static str>, &'static str> {
    let definition = parse_define(&operands(directive), gnu).map_err(|error| error.code)?;
    match install_definition(table, definition) {
        Some(diagnostic) if diagnostic.severity == PpSeverity::Error => Err(diagnostic.code),
        Some(diagnostic) => Ok(Some(diagnostic.code)),
        None => Ok(None),
    }
}

#[test]
fn rejects_invalid_macro_replacement_lists_when_defined() {
    for (directive, code) in [
        ("BAD(x) # 1", "CCC1106"),
        ("BAD(x) __VA_ARGS__", "CCC1112"),
        ("BAD(...) __VA_OPT__(,)", "CCC1111"),
        ("BAD ## x", "CCC1107"),
        ("BAD x ##", "CCC1107"),
    ] {
        let mut table = MacroTable::new();
        assert_eq!(define(&mut table, directive, true), Err(code), "{directive}");
        assert!(table.get("BAD").is_none());
    }
}

#[test]
fn parses_object_and_function_macros() {
    let definition = parse_define(&operands("ONE 1"), false).unwrap();
    assert_eq!(definition.name, "ONE");
    assert_eq!(definition.form, MacroForm::Object);
    assert_eq!(definition.replacement.len(), 1);
    assert_eq!(definition.definition_span, Span { file: 0, start: 0, end: 3 });

    let definition = parse_define(&operands("ADD(a, b) a + b"), false).unwrap();
    assert_eq!(
        definition.form,
        MacroForm::Function { parameters: vec!["a".to_owned(), "b".to_owned()], variadic: false }
    );
    let spellings: Vec<_> = definition.replacement.iter().map(|t| t.spelling.as_str()).collect();
    assert_eq!(spellings, ["a", "+", "b"]);

    let spaced = parse_define(&operands("NOT_FUNCTION (a) a"), false).unwrap();
    assert_eq!(spaced.form, MacroForm::Object);
    assert_eq!(spaced.replacement.len(), 4);

    let empty = parse_define(&operands("NONE() 0"), false).unwrap();
    assert_eq!(empty.form, MacroForm::Function { parameters: Vec::new(), variadic: false });

    let variadic = parse_define(&operands("LOG(fmt, ...) fmt __VA_ARGS__"), false).unwrap();
    assert_eq!(
        variadic.form,
        MacroForm::Function { parameters: vec!["fmt".to_owned()], variadic: true }
    );
}

#[test]
fn gnu_named_variadic_parameters_become_va_args() {
    let definition = parse_define(&operands("LOG(fmt, args...) fmt args"), true).unwrap();
    assert_eq!(
        definition.form,
        MacroForm::Function { parameters: vec!["fmt".to_owned()], variadic: true }
    );
    let spellings: Vec<_> = definition.replacement.iter().map(|t| t.spelling.as_str()).collect();
    assert_eq!(spellings, ["fmt", "__VA_ARGS__"]);
    assert_eq!(
        parse_define(&operands("LOG(fmt, args...) fmt args"), false).unwrap_err().code,
        "CCC1321"
    );
}

#[test]
fn malformed_parameter_lists_are_diagnosed() {
    for (directive, code, message) in [
        ("", "CCC1317", "#define requires a macro name"),
        ("1", "CCC1317", "#define requires a macro name"),
        ("F(...", "CCC1318", "'...' must be the final macro parameter"),
        ("F(1)", "CCC1319", "expected macro parameter name"),
        ("F(a, a)", "CCC1320", "duplicate macro parameter 'a'"),
        ("F(a b)", "CCC1321", "expected ',' or ')' in macro parameter list"),
        ("F(a...,b)", "CCC1318", "named variadic parameter must be final"),
    ] {
        let error = parse_define(&operands(directive), true).unwrap_err();
        assert_eq!(error.code, code, "{directive}");
        assert_eq!(error.message, message, "{directive}");
    }
}

#[test]
fn redefinitions_warn_and_undef_removes() {
    let mut table = MacroTable::new();
    assert_eq!(define(&mut table, "X 1", false), Ok(None));
    assert_eq!(define(&mut table, "X  1", false), Ok(None));
    assert_eq!(define(&mut table, "X 2", false), Ok(Some("CCC1110")));
    assert_eq!(table.get("X").unwrap().replacement[0].spelling, "2");
    assert!(handle_undef(&mut table, &operands("X"), Span { file: 0, start: 0, end: 1 }).is_none());
    assert!(!table.contains("X"));
    let error = handle_undef(&mut table, &operands("X Y"), Span { file: 0, start: 0, end: 1 }).unwrap();
    assert_eq!(error.code, "CCC1322");
}
