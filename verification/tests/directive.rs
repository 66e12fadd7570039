use ccc::pp::directive::{
    directive_message, directive_parts, has_unclosed_parenthesis, spellings_start_with,
};
use ccc::pp::lexer::lex;
use ccc::pp::token::PpToken;

fn tokens(source: &str) -> Vec<PpToken> {
    lex(0, source).unwrap()
}

#[test]
fn directive_lines_split_into_name_and_operands() {
    let define = tokens("#define X 1");
    let (name, start, span) = directive_parts(&define).unwrap();
    assert_eq!(name, "define");
    assert_eq!(start, 2);
    assert_eq!(span, define[0].span);

    let (name, start, _) = directive_parts(&tokens("%: include <a.h>")).unwrap();
    assert_eq!((name.as_str(), start), ("include", 2));

    let (name, start, _) = directive_parts(&tokens("#")).unwrap();
    assert_eq!((name.as_str(), start), ("", 1));

    let (name, start, _) = directive_parts(&tokens("# 12 \"file.c\"")).unwrap();
    assert_eq!((name.as_str(), start), ("linemarker", 1));

    let (name, start, _) = directive_parts(&tokens("# \"x\"")).unwrap();
    assert_eq!((name.as_str(), start), ("<invalid>", 1));

    assert!(directive_parts(&tokens("int x;")).is_none());
    assert!(directive_parts(&[]).is_none());
}

#[test]
fn directive_messages_join_spellings_with_single_spaces() {
    assert_eq!(directive_message(&tokens("a   b(c)  \"d\"")), "a b ( c ) \"d\"");
    assert_eq!(directive_message(&[]), "");
}

#[test]
fn open_parentheses_are_counted_across_a_line() {
    assert!(has_unclosed_parenthesis(&tokens("f(a, (b)")));
    assert!(!has_unclosed_parenthesis(&tokens("f(a, (b))")));
    assert!(!has_unclosed_parenthesis(&tokens(") ) x")));
    assert!(has_unclosed_parenthesis(&tokens(") (")));
}

#[test]
fn spelling_prefixes_are_matched_token_by_token() {
    let pragma = tokens("GCC optimize (\"O2\")");
    assert!(spellings_start_with(&pragma, &["GCC", "optimize"]));
    assert!(!spellings_start_with(&pragma, &["GCC", "diagnostic"]));
    assert!(spellings_start_with(&pragma, &[]));
    assert!(!spellings_start_with(&tokens("GCC"), &["GCC", "optimize"]));
}
