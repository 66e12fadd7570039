use ccc::pp::token::canonicalize_identifier;
use ccc::pp::lexer::{LexerOptions, lex, lex_file, lex_with_options, tokens_require_separator};
use ccc::pp::normalize::{NormalizeOptions, normalize};
use ccc::pp::token::{PpToken, PpTokenKind, Span};

fn normalized_text(source: &str, trigraphs: bool) -> String {
    let normalized = normalize(source, NormalizeOptions { trigraphs, warn_trigraphs: false });
    normalized.text().into_iter().collect()
}

#[test]
fn removes_bom_normalizes_newlines_and_splices() {
    assert_eq!(normalized_text("\u{feff}a\\\r\nb\rc\r\nd", false), "ab\nc\nd");
}

#[test]
fn trigraph_can_form_a_splice() {
    assert_eq!(normalized_text("a??/\nb", true), "ab");
}

#[test]
fn trigraphs_are_kept_and_reported_when_disabled() {
    let normalized = normalize("??=x", NormalizeOptions { trigraphs: false, warn_trigraphs: true });
    let text: String = normalized.text().into_iter().collect();
    assert_eq!(text, "??=x");
    assert_eq!(normalized.trigraph_reports, vec![(0, 3)]);
    let replaced = normalize("a??=x", NormalizeOptions { trigraphs: true, warn_trigraphs: true });
    let text: String = replaced.text().into_iter().collect();
    assert_eq!(text, "a#x");
    assert_eq!(replaced.original_span(1, 2), (1, 4));
}

#[test]
fn normalized_characters_keep_their_original_bytes_and_lines() {
    let normalized = normalize("é\r\nb\\\nc", NormalizeOptions { trigraphs: false, warn_trigraphs: false });
    let text: String = normalized.text().into_iter().collect();
    assert_eq!(text, "é\nbc");
    assert_eq!(normalized.original_span(0, 1), (0, 2));
    assert_eq!(normalized.original_span(1, 2), (2, 4));
    assert_eq!(normalized.physical_line(2), 2);
    assert_eq!(normalized.physical_line(3), 3);
    assert_eq!(normalized.physical_line(99), 3);
    assert_eq!(normalized.original_span(9, 9), (8, 8));
}

#[test]
fn forms_tokens_and_tracks_spacing() {
    let tokens = lex(0, "int /* ignored */ main(void) {\n return 42; }").unwrap();
    let spellings: Vec<_> = tokens.iter().map(|token| token.spelling.as_str()).collect();
    assert_eq!(
        spellings,
        ["int", "main", "(", "void", ")", "{", "return", "42", ";", "}"]
    );
    assert!(tokens[1].leading_space);
    assert!(tokens[6].at_start_of_line);
}

#[test]
fn accepts_utf8_and_ucn_identifiers() {
    let tokens = lex(7, "café caf\\u00e9").unwrap();
    assert_eq!(tokens[0].identifier_key(), "café");
    assert_eq!(tokens[1].identifier_key(), "café");
    assert_eq!(tokens[0].span, Span { file: 7, start: 0, end: "café".len() });
}

#[test]
fn preserves_physical_line_across_splicing() {
    let tokens = lex(0, "\\\n__LINE__ __LI\\\nNE__").unwrap();
    assert_eq!(tokens[0].logical_line, 2);
    assert_eq!(tokens[1].logical_line, 2);
}

#[test]
fn rejects_an_unterminated_block_comment() {
    let error = lex(0, "/*").unwrap_err();
    assert_eq!(error.code, "CCC0001");
}

#[test]
fn keeps_arithmetic_signs_outside_pp_numbers() {
    let tokens = lex(0, "1+2 1-2 1e+2 0x1p-2").unwrap();
    let spellings: Vec<_> = tokens.iter().map(|token| token.spelling.as_str()).collect();
    assert_eq!(spellings, ["1", "+", "2", "1", "-", "2", "1e+2", "0x1p-2"]);
}

#[test]
fn scans_escaped_multibyte_characters_at_utf8_boundaries() {
    for spelling in [
        r#""\é""#,
        r#"'\ä'"#,
        r#"u8"\λ""#,
        r#"L"\λ""#,
        r#"L'\λ'"#,
        r#"u"\λ""#,
        r#"u'\λ'"#,
        r#"U"\λ""#,
        r#"U'\λ'"#,
    ] {
        let tokens = lex(0, spelling).unwrap();
        assert_eq!(tokens.len(), 1, "{spelling}");
        assert_eq!(tokens[0].spelling, spelling);
    }
}

#[test]
fn rejects_utf8_prefixed_character_constants() {
    let error = lex(0, "u8'a'").unwrap_err();
    assert_eq!(error.code, "CCC0005");
}

#[test]
fn rejects_disallowed_ucns_in_character_constants() {
    for spelling in [r"'\u0041'", r"L'\u0041'", r"u'\u0041'", r"U'\u0041'"] {
        let error = lex(0, spelling).unwrap_err();
        assert_eq!(error.code, "CCC0006", "{spelling}");
    }
    assert!(lex(0, r"'\\u0041'").is_ok());
}

#[test]
fn forms_catch_all_tokens_and_accepts_dollar_in_identifiers() {
    let tokens = lex(0, r"@ \ ` $ $name name$tail").unwrap();
    let spellings: Vec<_> = tokens.iter().map(|token| token.spelling.as_str()).collect();
    assert_eq!(spellings, ["@", "\\", "`", "$", "$name", "name$tail"]);
    assert_eq!(tokens[0].kind, PpTokenKind::Punctuator);
    assert_eq!(tokens[1].kind, PpTokenKind::Punctuator);
    assert_eq!(tokens[2].kind, PpTokenKind::Punctuator);
    assert!(tokens[3..].iter().all(|token| token.kind == PpTokenKind::Identifier));
}

#[test]
fn block_comment_newlines_do_not_end_a_directive_line() {
    let source = "#define X /* first\nsecond */ 1\nX\n";
    let lexed = lex_file(0, source, LexerOptions::default()).unwrap();
    let spellings: Vec<_> = lexed.tokens.iter().map(|token| token.spelling.as_str()).collect();
    assert_eq!(spellings, ["#", "define", "X", "1", "X"]);
    assert!(lexed.tokens[3].leading_space);
    assert!(!lexed.tokens[3].at_start_of_line);
    assert_eq!(lexed.tokens[3].logical_line, 2);
    assert_eq!(lexed.tokens[4].spelling, "X");
    assert!(lexed.tokens[4].at_start_of_line);
    assert_eq!(lexed.tokens[4].logical_line, 3);
}

#[test]
fn treats_vertical_tab_as_whitespace() {
    let tokens = lex(0, "#define\u{000b}X\u{000b}1\nX").unwrap();
    let spellings: Vec<_> = tokens.iter().map(|token| token.spelling.as_str()).collect();
    assert_eq!(spellings, ["#", "define", "X", "1", "X"]);
    assert!(tokens[2].leading_space);
    assert!(tokens[3].leading_space);
}

#[test]
fn unterminated_literals_skip_the_rest_of_their_line() {
    let lexed = lex_file(0, "a \"open\nb 'c", LexerOptions::default()).unwrap();
    let spellings: Vec<_> = lexed.tokens.iter().map(|token| token.spelling.as_str()).collect();
    assert_eq!(spellings, ["a", "b"]);
    assert_eq!(lexed.errors.len(), 2);
    assert_eq!(lexed.errors[0].message, "unterminated literal");
    assert_eq!(lexed.errors[0].span, Span { file: 0, start: 2, end: 7 });
    assert!(lex_with_options(0, "\"x", LexerOptions::default()).is_err());
}

#[test]
fn trigraph_options_reach_the_lexer() {
    let lexed = lex_file(0, "??=define", LexerOptions { trigraphs: true, warn_trigraphs: true })
        .unwrap();
    assert_eq!(lexed.tokens[0].spelling, "#");
    assert_eq!(lexed.trigraphs, vec![(0, 3)]);
    let plain = lex(0, "??=").unwrap();
    let spellings: Vec<_> = plain.iter().map(|token| token.spelling.as_str()).collect();
    assert_eq!(spellings, ["?", "?", "="]);
}

fn one_token(spelling: &str) -> PpToken {
    let mut tokens = lex(0, spelling).unwrap();
    assert_eq!(tokens.len(), 1, "{spelling:?} did not form one token");
    tokens.remove(0)
}

#[test]
fn classifies_rendering_boundaries_without_relexing() {
    let merging = [
        ("name", "tail"),
        ("name", "42"),
        ("L", "\"text\""),
        ("name", "L\"text\""),
        ("1", "value"),
        ("1", ".5"),
        ("1e", "+"),
        ("1", "L\"text\""),
        (".", "5"),
        ("/", "*"),
        ("/", "/"),
        ("<", "<"),
        ("<<", "="),
        ("%:", "%:"),
        ("\\", "u00e9"),
        ("$", "name"),
    ];
    let separate = [
        ("name", ".5"),
        ("1", "$name"),
        ("\"text\"", "name"),
        ("+", "name"),
        ("@", "name"),
        (".", ".5"),
        ("\\", "plain"),
    ];
    for (left, right, expected) in merging
        .into_iter()
        .map(|(left, right)| (left, right, true))
        .chain(separate.into_iter().map(|(left, right)| (left, right, false)))
    {
        let left_token = one_token(left);
        let right_token = one_token(right);
        assert_eq!(
            tokens_require_separator(&left_token, &right_token),
            expected,
            "boundary {left:?} {right:?}"
        );
        let joined = format!("{left}{right}");
        let changed = match lex(0, &joined) {
            Ok(tokens) => {
                tokens.len() != 2 || tokens[0].spelling != left || tokens[1].spelling != right
            }
            Err(_) => true,
        };
        assert_eq!(changed, expected, "relexed boundary {left:?} {right:?}");
    }
    let question = one_token("?");
    assert!(tokens_require_separator(&question, &question));
}

#[test]
fn rendering_boundary_classifier_has_no_false_negatives() {
    let mut spellings: Vec<String> = [
        "name", "L", "u", "U", "u8", "$name", "café", "\\u00e9", "0", "1e", ".5", "1e+2",
        "0x1p-2", "\"text\"", "L\"text\"", "u\"text\"", "U\"text\"", "u8\"text\"", "'x'", "L'x'",
        "u'x'", "U'x'", "@", "`", "\\",
    ]
    .iter()
    .map(|spelling| (*spelling).to_owned())
    .collect();
    for punctuator in [
        "%:%:", "<<=", ">>=", "...", "->", "++", "--", "<<", ">>", "<=", ">=", "==", "!=", "&&",
        "||", "*=", "/=", "%=", "+=", "-=", "&=", "^=", "|=", "##", "<:", ":>", "<%", "%>", "%:",
    ] {
        spellings.push(punctuator.to_owned());
    }
    for character in "[](){}.,;:?~!+-*/%&|^<>=#".chars() {
        spellings.push(character.to_string());
    }
    let tokens: Vec<PpToken> = spellings.iter().map(|spelling| one_token(spelling)).collect();
    for (left_spelling, left) in spellings.iter().zip(&tokens) {
        for (right_spelling, right) in spellings.iter().zip(&tokens) {
            let joined = format!("{left_spelling}{right_spelling}");
            let changed = match lex(0, &joined) {
                Ok(joined_tokens) => {
                    joined_tokens.len() != 2
                        || joined_tokens[0].spelling != *left_spelling
                        || joined_tokens[1].spelling != *right_spelling
                }
                Err(_) => true,
            };
            assert!(
                !changed || tokens_require_separator(left, right),
                "missed boundary {left_spelling:?} {right_spelling:?}"
            );
        }
    }
}

#[test]
fn canonical_identifiers_are_fixed_points() {
    let once = canonicalize_identifier(r"a\u00E9b\U000000C0").unwrap();
    assert_eq!(once, "aébÀ");
    assert_eq!(canonicalize_identifier(&once), Some(once.clone()));
    assert_eq!(canonicalize_identifier("plain_name"), Some("plain_name".to_string()));
    assert_eq!(canonicalize_identifier(r"\u0041"), None);
    assert_eq!(canonicalize_identifier(r"\x41"), None);
    assert_eq!(canonicalize_identifier(r"\u0024"), Some("$".to_string()));
}

#[test]
fn canonicalization_fails_exactly_at_a_bad_escape() {
    assert_eq!(canonicalize_identifier(r"ab\u00E9").as_deref(), Some("abé"));
    assert_eq!(canonicalize_identifier(r"\u0024x").as_deref(), Some("$x"));
    assert!(canonicalize_identifier(r"ab\u0041").is_none());
    assert!(canonicalize_identifier(r"\x41").is_none());
    assert!(canonicalize_identifier(r"a\u00E").is_none());
    assert!(canonicalize_identifier(r"a\UD800DC00").is_none());
    assert!(canonicalize_identifier(r"\u00E9\").is_none());
}
