use std::collections::BTreeMap;

use ccc::pp::files::{FileIdentity, FileProvider, LoadedFile, ReadError};
use ccc::pp::lexer::lex;
use ccc::pp::macros::{MacroDefinition, MacroForm, MacroTable};
use ccc::pp::predicates::{
    header_predicate, header_read_diagnostic, matching_close, parse_header_operand,
    predicate_result, replace_direct_header_predicates, replace_predicates, HeaderSearch,
};
use ccc::pp::search::{HeaderReadFailure, SearchEntry};
use ccc::pp::token::{PpToken, Span};

struct MemoryFiles {
    files: BTreeMap<String, String>,
    broken: Vec<String>,
}

impl FileProvider for MemoryFiles {
    fn read(&self, path: &str) -> Result<LoadedFile, ReadError> {
        if self.broken.iter().any(|broken| broken == path) {
            return Err(ReadError::Failed("denied".to_string()));
        }
        match self.files.get(path) {
            Some(source) => Ok(LoadedFile {
                path: path.to_string(),
                source: source.clone(),
                identity: FileIdentity(path.to_string()),
            }),
            None => Err(ReadError::NotFound),
        }
    }
}

fn memory(files: &[&str]) -> MemoryFiles {
    MemoryFiles {
        files: files
            .iter()
            .map(|path| (path.to_string(), String::new()))
            .collect(),
        broken: Vec::new(),
    }
}

fn tokens(source: &str) -> Vec<PpToken> {
    lex(0, source).unwrap()
}

fn spellings(tokens: &[PpToken]) -> Vec<String> {
    tokens.iter().map(|t| t.spelling.clone()).collect()
}

fn entries() -> Vec<SearchEntry> {
    vec![SearchEntry {
        path: "inc".to_string(),
        system: true,
        quote_only: false,
    }]
}

#[test]
fn matching_close_skips_nested_parentheses() {
    let t = tokens("f ( a ( b ) c ) d");
    assert_eq!(matching_close(&t, 1), Some(7));
    assert_eq!(matching_close(&t, 3), Some(5));
    assert_eq!(matching_close(&tokens("f ( a"), 1), None);
    assert_eq!(matching_close(&tokens(") x"), 0), None);
}

#[test]
fn header_operands_are_quoted_or_angled() {
    assert_eq!(
        parse_header_operand(&tokens("\"x.h\"")),
        Some(("x.h".to_string(), false))
    );
    assert_eq!(
        parse_header_operand(&tokens("<sys/ types.h>")),
        Some(("sys/ types.h".to_string(), true))
    );
    assert_eq!(parse_header_operand(&tokens("L\"x.h\"")), None);
    assert_eq!(parse_header_operand(&tokens("x")), None);
    assert_eq!(parse_header_operand(&[]), None);
    assert_eq!(header_predicate("__has_include"), Some(false));
    assert_eq!(header_predicate("__has_include_next"), Some(true));
    assert_eq!(header_predicate("__has_feature"), None);
}

#[test]
fn predicate_results_keep_the_reference_position() {
    let reference = tokens("a  b").remove(1);
    let one = predicate_result(&reference, true);
    assert_eq!(one.spelling, "1");
    assert_eq!(one.span, reference.span);
    assert!(one.leading_space);
    assert_eq!(predicate_result(&reference, false).spelling, "0");
}

#[test]
fn direct_header_predicates_ask_the_include_search() {
    let files = memory(&["inc/a.h"]);
    let entries = entries();
    let search = HeaderSearch {
        files: &files,
        entries: &entries,
        current: None,
    };
    let table = MacroTable::new();
    let input = tokens("__has_include(<a.h>) && __has_include(\"b.h\") || __has_include(x)");
    let (output, answers, failures) = replace_direct_header_predicates(&input, &table, &search);
    assert_eq!(
        spellings(&output),
        ["1", "&&", "0", "||", "__has_include", "(", "x", ")"]
    );
    assert_eq!(answers, [true, false]);
    assert!(failures.is_empty());
}

#[test]
fn a_redefined_header_predicate_is_left_for_expansion() {
    let files = memory(&["inc/a.h"]);
    let entries = entries();
    let search = HeaderSearch {
        files: &files,
        entries: &entries,
        current: None,
    };
    let mut table = MacroTable::new();
    table.define(MacroDefinition {
        name: "__has_include".to_string(),
        form: MacroForm::Object,
        replacement: tokens("0"),
        definition_span: Span {
            file: 0,
            start: 0,
            end: 0,
        },
        predefined: false,
    });
    let input = tokens("__has_include(<a.h>)");
    let (output, answers, _) = replace_direct_header_predicates(&input, &table, &search);
    assert_eq!(spellings(&output), spellings(&input));
    assert!(answers.is_empty());
}

#[test]
fn feature_predicates_use_the_configured_features() {
    let files = memory(&["inc/a.h"]);
    let entries = entries();
    let search = HeaderSearch {
        files: &files,
        entries: &entries,
        current: None,
    };
    let table = MacroTable::new();
    let features = vec![
        ("cxx_x".to_string(), true),
        ("attribute:nodiscard".to_string(), true),
        ("builtin:y".to_string(), false),
    ];
    let input = tokens(
        "__has_feature(cxx_x) + __has_attribute(nodiscard) + __has_builtin(y) + __has_extension(z) + __has_include_next(<a.h>)",
    );
    let result = replace_predicates(input, &table, &features, &search);
    assert_eq!(
        spellings(&result.tokens),
        ["1", "+", "1", "+", "0", "+", "0", "+", "1"]
    );
    assert_eq!(result.answers, [true]);
    assert!(result.diagnostics.is_empty());
}

#[test]
fn malformed_predicates_are_reported_and_kept() {
    let files = memory(&[]);
    let entries = entries();
    let search = HeaderSearch {
        files: &files,
        entries: &entries,
        current: None,
    };
    let table = MacroTable::new();
    let result = replace_predicates(tokens("__has_include + 1"), &table, &[], &search);
    assert_eq!(spellings(&result.tokens), ["__has_include", "+", "1"]);
    assert_eq!(result.diagnostics.len(), 1);
    assert_eq!(result.diagnostics[0].code, "CCC1204");
    assert_eq!(
        result.diagnostics[0].message,
        "__has_include requires parentheses"
    );

    let result = replace_predicates(tokens("__has_feature(x"), &table, &[], &search);
    assert_eq!(spellings(&result.tokens), ["__has_feature", "(", "x"]);
    assert_eq!(result.diagnostics[0].code, "CCC1205");
    assert_eq!(
        result.diagnostics[0].message,
        "unterminated __has_feature invocation"
    );

    let result = replace_predicates(tokens("__has_include(x)"), &table, &[], &search);
    assert_eq!(spellings(&result.tokens), ["0"]);
    assert!(result.answers.is_empty());
}

#[test]
fn failed_header_reads_are_recorded_and_reported() {
    let mut files = memory(&[]);
    files.broken.push("inc/a.h".to_string());
    let entries = entries();
    let search = HeaderSearch {
        files: &files,
        entries: &entries,
        current: None,
    };
    let table = MacroTable::new();
    let result = replace_predicates(tokens("__has_include(<a.h>)"), &table, &[], &search);
    assert_eq!(spellings(&result.tokens), ["0"]);
    assert_eq!(result.answers, [false]);
    assert_eq!(result.read_failures.len(), 1);
    assert_eq!(result.read_failures[0].0, "a.h");
    let failure: &HeaderReadFailure = &result.read_failures[0].1;
    let diagnostic = header_read_diagnostic("a.h", failure, None);
    assert_eq!(diagnostic.code, "CCC1334");
    assert_eq!(
        diagnostic.message,
        "cannot read header 'a.h' at 'inc/a.h': denied"
    );
}
