use ccc::pp::lexer::lex;
use ccc::pp::line::{parse_line_directive, parse_numeric_linemarker};
use ccc::pp::token::{PpToken, Span};

fn tokens(source: &str) -> Vec<PpToken> {
    lex(0, source).unwrap()
}

fn span() -> Span {
    Span {
        file: 0,
        start: 100,
        end: 101,
    }
}

#[test]
fn line_directives_set_a_line_and_an_optional_file() {
    assert_eq!(parse_line_directive(&tokens("42"), span()).unwrap(), (42, None));
    assert_eq!(
        parse_line_directive(&tokens("7 \"other.c\""), span()).unwrap(),
        (7, Some("other.c".to_string()))
    );
    assert_eq!(
        parse_line_directive(&tokens("+9"), span()).unwrap_err().message,
        "#line requires a decimal line number"
    );
    assert_eq!(parse_line_directive(&tokens("2147483647"), span()).unwrap().0, 2147483647);
}

#[test]
fn malformed_line_directives_are_reported() {
    let cases = [
        ("", "CCC1325", "#line requires a decimal line number"),
        ("x", "CCC1325", "#line requires a decimal line number"),
        ("0x10", "CCC1325", "invalid #line line number"),
        ("0", "CCC1325", "#line line number is out of range"),
        ("2147483648", "CCC1325", "#line line number is out of range"),
        ("3 file", "CCC1326", "#line file name must be a string literal"),
        ("3 \"a\" \"b\"", "CCC1327", "trailing tokens after #line"),
    ];
    for (source, code, message) in cases {
        let error = parse_line_directive(&tokens(source), span()).unwrap_err();
        assert_eq!(error.code, code, "{source}");
        assert_eq!(error.message, message, "{source}");
    }
    let error = parse_line_directive(&tokens("0"), span()).unwrap_err();
    assert_eq!(error.span.unwrap().start, 0);
    let error = parse_line_directive(&[], span()).unwrap_err();
    assert_eq!(error.span, Some(span()));
}

#[test]
fn numeric_line_markers_carry_file_and_flags() {
    assert_eq!(
        parse_numeric_linemarker(&tokens("12 \"main.c\" 1 3"), span()).unwrap(),
        (12, Some("main.c".to_string()), vec![1, 3])
    );
    assert_eq!(
        parse_numeric_linemarker(&tokens("5"), span()).unwrap(),
        (5, None, Vec::new())
    );
    assert_eq!(
        parse_numeric_linemarker(&tokens("5 u8\"x\""), span()).unwrap(),
        (5, Some("u8\"x\"".to_string()), Vec::new())
    );
    assert_eq!(
        parse_numeric_linemarker(&tokens("5 2"), span()).unwrap(),
        (5, None, vec![2])
    );
}

#[test]
fn malformed_line_markers_are_reported() {
    let cases = [
        ("", "CCC1331", "linemarker requires a line number"),
        ("1e3", "CCC1331", "invalid linemarker line number"),
        ("0", "CCC1331", "linemarker line number is out of range"),
        ("1 \"f\" x", "CCC1332", "invalid linemarker flag"),
        ("1 \"f\" 5", "CCC1332", "linemarker flag must be between 1 and 4"),
        ("1 \"f\" 300", "CCC1332", "invalid linemarker flag"),
    ];
    for (source, code, message) in cases {
        let error = parse_numeric_linemarker(&tokens(source), span()).unwrap_err();
        assert_eq!(error.code, code, "{source}");
        assert_eq!(error.message, message, "{source}");
    }
}
