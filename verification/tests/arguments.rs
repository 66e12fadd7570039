use ccc::pp::arguments::parse_arguments;
use ccc::pp::lexer::lex;
use ccc::pp::token::PpToken;

fn tokens(source: &str) -> Vec<PpToken> {
    lex(0, source).unwrap()
}

fn spellings(argument: &[PpToken]) -> Vec<&str> {
    argument.iter().map(|t| t.spelling.as_str()).collect()
}

#[test]
fn arguments_split_at_top_level_commas_only() {
    let stream = tokens("F(a, (b, c), d) rest");
    let (arguments, end, absent) = parse_arguments(&stream, 1, 3, false, 8).unwrap();
    assert_eq!(arguments.len(), 3);
    assert_eq!(spellings(&arguments[0]), ["a"]);
    assert_eq!(spellings(&arguments[1]), ["(", "b", ",", "c", ")"]);
    assert_eq!(spellings(&arguments[2]), ["d"]);
    assert_eq!(stream[end].spelling, "rest");
    assert!(!absent);
}

#[test]
fn empty_parentheses_are_no_argument_for_a_macro_without_parameters() {
    let stream = tokens("F()");
    let (arguments, end, _) = parse_arguments(&stream, 1, 0, false, 8).unwrap();
    assert!(arguments.is_empty());
    assert_eq!(end, 3);
    let (arguments, _, _) = parse_arguments(&stream, 1, 1, false, 8).unwrap();
    assert_eq!(arguments.len(), 1);
    assert!(arguments[0].is_empty());
}

#[test]
fn variadic_part_may_be_left_out() {
    let stream = tokens("F(a)");
    let (arguments, _, absent) = parse_arguments(&stream, 1, 1, true, 8).unwrap();
    assert_eq!(arguments.len(), 1);
    assert!(absent);
    let stream = tokens("F(a, b, c)");
    let (arguments, _, absent) = parse_arguments(&stream, 1, 1, true, 8).unwrap();
    assert_eq!(arguments.len(), 3);
    assert!(!absent);
}

#[test]
fn a_wrong_argument_count_is_reported_at_the_parenthesis() {
    let stream = tokens("F(a)");
    let error = parse_arguments(&stream, 1, 2, false, 8).unwrap_err();
    assert_eq!(error.code, "CCC1104");
    assert_eq!(error.message, "macro expects 2 arguments, but 1 was provided");
    assert_eq!(error.span, Some(stream[1].span));
    let stream = tokens("F(a, b)");
    let error = parse_arguments(&stream, 1, 1, false, 8).unwrap_err();
    assert_eq!(error.message, "macro expects 1 argument, but 2 were provided");
    let error = parse_arguments(&stream, 1, 3, true, 8).unwrap_err();
    assert_eq!(error.message, "macro expects 3 arguments, but 2 were provided");
}

#[test]
fn an_unclosed_invocation_is_reported() {
    let stream = tokens("F(a, (b)");
    let error = parse_arguments(&stream, 1, 2, false, 8).unwrap_err();
    assert_eq!(error.code, "CCC1105");
    assert_eq!(error.message, "unterminated macro invocation");
    assert_eq!(error.span, Some(stream[1].span));
}

#[test]
fn nesting_beyond_the_limit_is_reported_at_the_deep_parenthesis() {
    let stream = tokens("F(((a)))");
    assert!(parse_arguments(&stream, 1, 1, false, 3).is_ok());
    let error = parse_arguments(&stream, 1, 1, false, 2).unwrap_err();
    assert_eq!(error.code, "CCC1103");
    assert_eq!(error.message, "macro argument nesting limit exceeded");
    assert_eq!(error.span, Some(stream[3].span));
}
