use ccc::pp::lexer::lex;
use ccc::pp::macros::{
    DefineResult, MacroDefinition, MacroForm, MacroTable, definitions_equivalent, join_arguments,
    parameter_index, parse_pragma_operators, quote_string, stringize, unquote_pragma,
};
use ccc::pp::token::{PpToken, PpTokenKind, Span};

fn tokens(source: &str) -> Vec<PpToken> {
    lex(0, source).unwrap()
}

fn definition(name: &str, replacement: Vec<PpToken>) -> MacroDefinition {
    MacroDefinition {
        name: name.to_owned(),
        form: MacroForm::Function {
            parameters: vec!["a".to_owned(), "b".to_owned()],
            variadic: false,
        },
        replacement,
        definition_span: Span { file: 0, start: 0, end: 1 },
        predefined: false,
    }
}

#[test]
fn macro_equivalence_ignores_whitespace_before_the_replacement_list() {
    let compact = tokens("a + b");
    let indented = tokens(" a + b");
    let changed_internal_spacing = tokens("a+ b");

    let mut table = MacroTable::new();
    assert!(matches!(table.define(definition("F", compact)), DefineResult::Inserted));
    assert!(matches!(table.define(definition("F", indented)), DefineResult::Equivalent));
    assert!(matches!(
        table.define(definition("F", changed_internal_spacing)),
        DefineResult::Replaced(_)
    ));
}

#[test]
fn definitions_are_kept_in_name_order_and_can_be_removed() {
    let mut table = MacroTable::new();
    for name in ["M", "B", "Z", "A"] {
        table.define(definition(name, tokens("1")));
    }
    let names: Vec<_> = table.definitions().iter().map(|d| d.name.as_str()).collect();
    assert_eq!(names, ["A", "B", "M", "Z"]);
    assert!(table.contains("M"));
    assert_eq!(table.remove("M").unwrap().name, "M");
    assert!(!table.contains("M"));
    assert!(table.remove("M").is_none());
    assert!(table.get("B").is_some());
}

#[test]
fn dynamic_macros_stay_available_until_defined_or_undefined() {
    let mut table = MacroTable::new();
    assert!(table.contains("__LINE__"));
    assert!(table.get("__LINE__").is_none());
    assert!(table.dynamic_enabled("__COUNTER__"));
    table.remove("__COUNTER__");
    assert!(!table.contains("__COUNTER__"));
    table.define(definition("__FILE__", tokens("\"x\"")));
    assert!(!table.dynamic_enabled("__FILE__"));
    assert!(table.contains("__FILE__"));
    assert_eq!(table.next_counter(), 0);
    assert_eq!(table.next_counter(), 1);
}

#[test]
fn equivalence_compares_forms_and_token_spelling() {
    let object = MacroDefinition {
        form: MacroForm::Object,
        ..definition("F", tokens("a + b"))
    };
    let function = definition("F", tokens("a + b"));
    assert!(!definitions_equivalent(&object, &function));
    assert!(definitions_equivalent(&function, &definition("F", tokens("a + b"))));
    assert!(!definitions_equivalent(&function, &definition("F", tokens("a - b"))));
}

#[test]
fn stringizes_catch_all_backslashes_and_literal_delimiters() {
    let catch_all = tokens(r"a\b");
    assert_eq!(stringize(&catch_all), r#""a\b""#);

    let literal = tokens(r#""text""#);
    assert_eq!(stringize(&literal), r#""\"text\"""#);
}

#[test]
fn stringize_keeps_single_spaces_between_spaced_tokens() {
    let spaced = tokens("a   +b  'c'");
    assert_eq!(stringize(&spaced), r#""a +b 'c'""#);
    assert_eq!(stringize(&[]), r#""""#);
    let backslash_char = tokens(r"'\\'");
    assert_eq!(stringize(&backslash_char), r#""'\\\\'""#);
}

#[test]
fn quote_string_escapes_backslashes_quotes_and_newlines() {
    assert_eq!(quote_string("plain"), "\"plain\"");
    assert_eq!(quote_string("a\\b\"c\nd"), r#""a\\b\"c\nd""#);
    assert_eq!(quote_string(""), "\"\"");
}

#[test]
fn unquote_pragma_undoes_string_escapes() {
    assert_eq!(unquote_pragma(r#""once""#), Ok("once".to_string()));
    assert_eq!(
        unquote_pragma(r#""message(\"hi\") \\ \n""#),
        Ok(r#"message("hi") \ \n"#.to_string())
    );
    assert_eq!(unquote_pragma("once"), Err("invalid _Pragma string literal"));
    assert_eq!(unquote_pragma("\""), Err("invalid _Pragma string literal"));
    assert_eq!(
        unquote_pragma(r#""end\""#),
        Err("incomplete escape in _Pragma string")
    );
}

#[test]
fn pragma_operators_are_taken_out_of_the_token_list() {
    let input = tokens(r#"a _Pragma("once") b _Pragma(x) c"#);
    let (kept, pragmas, diagnostics) = parse_pragma_operators(input);
    let spellings: Vec<&str> = kept.iter().map(|t| t.spelling.as_str()).collect();
    assert_eq!(spellings, ["a", "b", "_Pragma", "(", "x", ")", "c"]);
    assert_eq!(pragmas.len(), 1);
    assert_eq!(pragmas[0].0, 1);
    assert_eq!(pragmas[0].1, "once");
    assert_eq!(pragmas[0].2.start, 2);
    assert_eq!(diagnostics.len(), 1);
    assert_eq!(diagnostics[0].code, "CCC1109");
    assert_eq!(
        diagnostics[0].message,
        "_Pragma requires one string literal operand"
    );
}

#[test]
fn a_malformed_pragma_operand_is_diagnosed_and_consumed() {
    let mut input = tokens(r#"_Pragma("x") z"#);
    input[2].spelling = r#""bad\""#.to_string();
    let (kept, pragmas, diagnostics) = parse_pragma_operators(input);
    let spellings: Vec<&str> = kept.iter().map(|t| t.spelling.as_str()).collect();
    assert_eq!(spellings, ["z"]);
    assert!(pragmas.is_empty());
    assert_eq!(diagnostics.len(), 1);
    assert_eq!(diagnostics[0].message, "incomplete escape in _Pragma string");
}

#[test]
fn variadic_arguments_are_joined_by_commas() {
    let reference = tokens("x").remove(0);
    let joined = join_arguments(&[tokens("a b"), tokens("c"), Vec::new()], &reference);
    let spellings: Vec<&str> = joined.iter().map(|t| t.spelling.as_str()).collect();
    assert_eq!(spellings, ["a", "b", ",", "c", ","]);
    assert_eq!(joined[2].kind, PpTokenKind::Punctuator);
    assert!(!joined[2].leading_space);
    assert_eq!(joined[2].span, reference.span);
    assert!(join_arguments(&[], &reference).is_empty());
}

#[test]
fn parameter_index_finds_the_named_parameter() {
    let parameters = vec!["a".to_string(), "b".to_string(), "a".to_string()];
    assert_eq!(parameter_index(&tokens("b")[0], &parameters), Some(1));
    assert_eq!(parameter_index(&tokens("a")[0], &parameters), Some(0));
    assert_eq!(parameter_index(&tokens("c")[0], &parameters), None);
    assert_eq!(parameter_index(&tokens("1")[0], &["1".to_string()]), None);
}
