use ccc::pp::condition::{ConditionResult, evaluate_expression, replace_defined};
use ccc::pp::lexer::lex;

fn evaluate(source: &str) -> ConditionResult {
    evaluate_expression(&lex(0, source).unwrap(), true)
}

fn codes(result: &ConditionResult) -> Vec<&'static str> {
    result.diagnostics.iter().map(|diagnostic| diagnostic.code).collect()
}

#[test]
fn evaluates_precedence_defined_and_lazy_operators() {
    let tokens = lex(0, "defined(X) && (2 + 3 * 4 == 14) || (0 && 1/0)").unwrap();
    let (replaced, diagnostics) = replace_defined(&["X".to_owned()], &tokens);
    assert!(diagnostics.is_empty());
    let result = evaluate_expression(&replaced, true);
    assert!(result.value);
    assert!(result.diagnostics.is_empty());
}

#[test]
fn defined_operators_take_bare_or_parenthesized_names() {
    let names = ["PRESENT".to_owned()];
    let tokens = lex(0, "defined PRESENT && !defined(MISSING)").unwrap();
    let (replaced, diagnostics) = replace_defined(&names, &tokens);
    assert!(diagnostics.is_empty());
    let spellings: Vec<_> = replaced.iter().map(|token| token.spelling.as_str()).collect();
    assert_eq!(spellings, ["1", "&&", "!", "0"]);
    assert!(evaluate_expression(&replaced, true).value);

    let (_, diagnostics) = replace_defined(&names, &lex(0, "defined(PRESENT").unwrap());
    assert_eq!(diagnostics[0].code, "CCC1203");
    let (replaced, diagnostics) = replace_defined(&names, &lex(0, "defined 1").unwrap());
    assert_eq!(diagnostics[0].code, "CCC1202");
    assert_eq!(replaced.len(), 1);
}

#[test]
fn identifiers_left_after_replacement_are_zero() {
    assert!(!evaluate("UNKNOWN").value);
    assert!(evaluate("!UNKNOWN").value);
}

#[test]
fn arithmetic_follows_the_usual_conversions() {
    assert!(evaluate("-1 < 0").value);
    assert!(!evaluate("-1 < 0u").value);
    assert!(evaluate("0xffffffffffffffff == -1").value);
    assert!(evaluate("-7 / 2 == -3 && -7 % 2 == -1").value);
    assert!(evaluate("(1 << 63) >> 63 == -1").value);
    assert!(evaluate("(1u << 63) >> 63 == 1").value);
    assert!(evaluate("~0 == -1 && -(-3) == 3 && +4 == 4").value);
    assert!(evaluate("(0x7fffffffffffffff + 1) < 0").value);
    assert!(evaluate("9223372036854775808 > 0").value);
}

#[test]
fn conditional_operator_selects_one_branch() {
    assert!(evaluate("1 ? 2 : 0").value);
    assert!(!evaluate("0 ? 2 : 0").value);
    assert!(evaluate("(0 ? 1/0 : 3) == 3").value);
    assert!(evaluate("0 ? 1/0 : 3").diagnostics.is_empty());
}

#[test]
fn evaluation_errors_are_reported_only_where_evaluated() {
    let result = evaluate("1/0");
    assert_eq!(codes(&result), ["CCC1208"]);
    assert!(!result.value);
    assert!(evaluate("0 && 1/0").diagnostics.is_empty());
    assert!(evaluate("1 || 1/0").diagnostics.is_empty());
    assert_eq!(codes(&evaluate("1 << 64")), ["CCC1207"]);
    assert!(evaluate("0 && (1 << 64)").diagnostics.is_empty());
}

#[test]
fn malformed_expressions_are_diagnosed() {
    assert_eq!(codes(&evaluate("(1")), ["CCC1209"]);
    assert_eq!(codes(&evaluate("")), ["CCC1210"]);
    assert_eq!(codes(&evaluate("1 2")), ["CCC1201"]);
    assert_eq!(codes(&evaluate("1 ? 2")), ["CCC1206"]);
    assert_eq!(codes(&evaluate("\"text\"")), ["CCC1213"]);
    assert_eq!(codes(&evaluate("1.5")), ["CCC1211"]);
    assert_eq!(codes(&evaluate("340282366920938463463374607431768211455")), ["CCC1211"]);
    assert_eq!(
        evaluate("340282366920938463463374607431768211455").diagnostics[0].message,
        "integer constant is too large for a preprocessor expression"
    );
}

#[test]
fn character_constants_take_the_signedness_of_their_prefix() {
    assert!(evaluate("'a' == 97").value);
    let signed_wide = evaluate_expression(&lex(0, "L'a' - 98 < 0").unwrap(), true);
    assert!(signed_wide.value);
    let unsigned_wide = evaluate_expression(&lex(0, "L'a' - 98 < 0").unwrap(), false);
    assert!(!unsigned_wide.value);
    assert!(!evaluate("u'a' - 98 < 0").value);
}
