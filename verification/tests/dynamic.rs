use ccc::pp::dynamic::expand_dynamic;
use ccc::pp::macros::MacroTable;
use ccc::pp::token::{PpToken, PpTokenKind, Span};

fn at_line(line: usize) -> PpToken {
    let mut token = PpToken::synthetic(
        PpTokenKind::Identifier,
        Span { file: 2, start: 5, end: 13 },
        "__LINE__".to_owned(),
    );
    token.logical_line = line;
    token.leading_space = true;
    token
}

fn expand(table: &mut MacroTable, name: &str) -> Option<PpToken> {
    expand_dynamic(table, &at_line(12), name, "dir/a.c", true, "\"Jan  1 1970\"", "\"00:00:00\"")
}

#[test]
fn line_and_file_take_the_place_of_the_token() {
    let mut table = MacroTable::new();
    let line = expand(&mut table, "__LINE__").unwrap();
    assert_eq!(line.kind, PpTokenKind::PpNumber);
    assert_eq!(line.spelling, "12");
    assert_eq!(line.span, Span { file: 2, start: 5, end: 13 });
    assert!(line.leading_space);
    assert!(line.is_system_header);
    let file = expand(&mut table, "__FILE__").unwrap();
    assert_eq!(file.kind, PpTokenKind::StringLiteral);
    assert_eq!(file.spelling, "\"dir/a.c\"");
    assert_eq!(expand(&mut table, "__DATE__").unwrap().spelling, "\"Jan  1 1970\"");
    assert_eq!(expand(&mut table, "__TIME__").unwrap().spelling, "\"00:00:00\"");
}

#[test]
fn counter_counts_up_from_zero() {
    let mut table = MacroTable::new();
    assert_eq!(expand(&mut table, "__COUNTER__").unwrap().spelling, "0");
    assert_eq!(expand(&mut table, "__COUNTER__").unwrap().spelling, "1");
    assert_eq!(expand(&mut table, "__LINE__").unwrap().spelling, "12");
    assert_eq!(expand(&mut table, "__COUNTER__").unwrap().spelling, "2");
}

#[test]
fn undefined_and_unknown_names_are_not_expanded() {
    let mut table = MacroTable::new();
    table.remove("__COUNTER__");
    assert!(expand(&mut table, "__COUNTER__").is_none());
    assert!(expand(&mut table, "__has_include").is_none());
    assert!(expand(&mut table, "FOO").is_none());
    assert!(expand(&mut table, "__LINE__").is_some());
}
