//! The operands of `#line` and of the numeric line markers of preprocessed
//! input: a line number, a file name, and the marker flags.

use vstd::prelude::*;

use crate::pp::condition::{diagnostic_view, plain_error, DiagnosticView};
use crate::pp::diagnostic::{PpDiagnostic, PpDiagnosticCategory, PpSeverity};
use crate::pp::pragma::quoted_body;
use crate::pp::token::{PpToken, PpTokenKind, Span};
use crate::text::{chars_of, parse_unsigned, parse_unsigned_radix, string_from_chars};

verus! {

pub open spec fn line_error(code: Seq<char>, message: Seq<char>, span: Span) -> DiagnosticView {
    DiagnosticView { code, message, span: Some(span) }
}

/// The largest line number a directive may set.
pub open spec fn max_line() -> int {
    2_147_483_647
}

/// The line number, and the file name where one is given, that a `#line`
/// directive's expanded operands set; the error where they are malformed.
pub open spec fn line_directive(tokens: Seq<PpToken>, span: Span) -> Result<
    (int, Option<Seq<char>>),
    DiagnosticView,
> {
    if tokens.len() == 0 || tokens[0].kind != PpTokenKind::PpNumber {
        Err(line_error("CCC1325"@, "#line requires a decimal line number"@, span))
    } else {
        match parse_unsigned(tokens[0].spelling@, 10, usize::MAX as int) {
            None => Err(line_error("CCC1325"@, "invalid #line line number"@, tokens[0].span)),
            Some(line) => if line == 0 || line > max_line() {
                Err(line_error("CCC1325"@, "#line line number is out of range"@, tokens[0].span))
            } else if tokens.len() >= 2 && tokens[1].kind != PpTokenKind::StringLiteral {
                Err(
                    line_error(
                        "CCC1326"@,
                        "#line file name must be a string literal"@,
                        tokens[1].span,
                    ),
                )
            } else if tokens.len() > 2 {
                Err(line_error("CCC1327"@, "trailing tokens after #line"@, tokens[2].span))
            } else if tokens.len() == 2 {
                Ok((line, quoted_body(tokens[1].spelling@)))
            } else {
                Ok((line, None))
            },
        }
    }
}

fn line_diagnostic(code: &'static str, message: &str, span: Span) -> (result: PpDiagnostic)
    ensures
        diagnostic_view(result) == line_error(code@, message@, span),
        plain_error(result),
{
    PpDiagnostic {
        severity: PpSeverity::Error,
        code,
        message: message.to_string(),
        span: Some(span),
        category: PpDiagnosticCategory::General,
    }
}

fn quoted_or_none(spelling: &str) -> (result: Option<String>)
    ensures
        match result {
            Some(t) => quoted_body(spelling@) == Some(t@),
            None => quoted_body(spelling@) is None,
        },
{
    let s = chars_of(spelling);
    if s.len() >= 2 && s[0] == '"' && s[s.len() - 1] == '"' {
        let mut body: Vec<char> = Vec::new();
        let mut i: usize = 1;
        while i < s.len() - 1
            invariant
                1 <= i <= s@.len() - 1,
                body@ == s@.subrange(1, i as int),
            decreases s.len() - 1 - i,
        {
            body.push(s[i]);
            i = i + 1;
            assert(body@ =~= s@.subrange(1, i as int));
        }
        Some(string_from_chars(body.as_slice()))
    } else {
        None
    }
}

fn parse_number(spelling: &str, max: u128) -> (result: Option<u128>)
    ensures
        match result {
            Some(v) => parse_unsigned(spelling@, 10, max as int) == Some(v as int),
            None => parse_unsigned(spelling@, 10, max as int) is None,
        },
{
    let s = chars_of(spelling);
    let v = parse_unsigned_radix(&s, 0, s.len(), 10, max);
    assert(s@.subrange(0, s@.len() as int) =~= spelling@);
    v
}

/// The line number and file name a `#line` directive sets.
pub fn parse_line_directive(tokens: &[PpToken], span: Span) -> (result: Result<
    (usize, Option<String>),
    PpDiagnostic,
>)
    ensures
        match result {
            Ok((line, file)) => line_directive(tokens@, span) == Ok::<_, DiagnosticView>(
                (
                    line as int,
                    match file {
                        Some(f) => Some(f@),
                        None => None,
                    },
                ),
            ),
            Err(error) => plain_error(error) && line_directive(tokens@, span) == Err::<
                (int, Option<Seq<char>>),
                _,
            >(diagnostic_view(error)),
        },
{
    if tokens.len() == 0 || tokens[0].kind != PpTokenKind::PpNumber {
        return Err(line_diagnostic("CCC1325", "#line requires a decimal line number", span));
    }
    let line = match parse_number(tokens[0].spelling.as_str(), usize::MAX as u128) {
        None => {
            return Err(line_diagnostic("CCC1325", "invalid #line line number", tokens[0].span));
        },
        Some(v) => v,
    };
    if line == 0 || line > 2_147_483_647 {
        return Err(
            line_diagnostic("CCC1325", "#line line number is out of range", tokens[0].span),
        );
    }
    if tokens.len() >= 2 && tokens[1].kind != PpTokenKind::StringLiteral {
        return Err(
            line_diagnostic("CCC1326", "#line file name must be a string literal", tokens[1].span),
        );
    }
    if tokens.len() > 2 {
        return Err(line_diagnostic("CCC1327", "trailing tokens after #line", tokens[2].span));
    }
    let file = if tokens.len() == 2 {
        quoted_or_none(tokens[1].spelling.as_str())
    } else {
        None
    };
    Ok((line as usize, file))
}

/// The flags of a line marker from `i` on: each a number from 1 to 4.
pub open spec fn marker_flags(tokens: Seq<PpToken>, i: int) -> Result<Seq<u8>, DiagnosticView>
    decreases tokens.len() - i,
{
    if i < 0 || i >= tokens.len() {
        Ok(seq![])
    } else {
        match parse_unsigned(tokens[i].spelling@, 10, 255) {
            None => Err(line_error("CCC1332"@, "invalid linemarker flag"@, tokens[i].span)),
            Some(flag) => if !(1 <= flag <= 4) {
                Err(line_error("CCC1332"@, "linemarker flag must be between 1 and 4"@, tokens[i].span))
            } else {
                match marker_flags(tokens, i + 1) {
                    Ok(rest) => Ok(seq![flag as u8] + rest),
                    Err(e) => Err(e),
                }
            },
        }
    }
}

/// The file name a marker gives: a quoted literal's text, or the literal's
/// spelling as it is.
pub open spec fn marker_file(tokens: Seq<PpToken>) -> Option<Seq<char>> {
    if tokens.len() > 1 && tokens[1].kind == PpTokenKind::StringLiteral {
        match quoted_body(tokens[1].spelling@) {
            Some(body) => Some(body),
            None => Some(tokens[1].spelling@),
        }
    } else {
        None
    }
}

/// The line number, file name and flags a numeric line marker
/// (`# 12 "file.c" 1 3`) gives; the error where they are malformed.
pub open spec fn numeric_marker(tokens: Seq<PpToken>, span: Span) -> Result<
    (int, Option<Seq<char>>, Seq<u8>),
    DiagnosticView,
> {
    if tokens.len() == 0 || tokens[0].kind != PpTokenKind::PpNumber {
        Err(line_error("CCC1331"@, "linemarker requires a line number"@, span))
    } else {
        match parse_unsigned(tokens[0].spelling@, 10, usize::MAX as int) {
            None => Err(line_error("CCC1331"@, "invalid linemarker line number"@, tokens[0].span)),
            Some(line) => if line == 0 || line > max_line() {
                Err(
                    line_error(
                        "CCC1331"@,
                        "linemarker line number is out of range"@,
                        tokens[0].span,
                    ),
                )
            } else {
                let file = marker_file(tokens);
                match marker_flags(
                    tokens,
                    if file is Some {
                        2
                    } else {
                        1
                    },
                ) {
                    Ok(flags) => Ok((line, file, flags)),
                    Err(e) => Err(e),
                }
            },
        }
    }
}

/// The line number, file name and flags of a numeric line marker.
pub fn parse_numeric_linemarker(tokens: &[PpToken], span: Span) -> (result: Result<
    (usize, Option<String>, Vec<u8>),
    PpDiagnostic,
>)
    ensures
        match result {
            Ok((line, file, flags)) => numeric_marker(tokens@, span) == Ok::<_, DiagnosticView>(
                (
                    line as int,
                    match file {
                        Some(f) => Some(f@),
                        None => None,
                    },
                    flags@,
                ),
            ),
            Err(error) => plain_error(error) && numeric_marker(tokens@, span) == Err::<
                (int, Option<Seq<char>>, Seq<u8>),
                _,
            >(diagnostic_view(error)),
        },
{
    if tokens.len() == 0 || tokens[0].kind != PpTokenKind::PpNumber {
        return Err(line_diagnostic("CCC1331", "linemarker requires a line number", span));
    }
    let line = match parse_number(tokens[0].spelling.as_str(), usize::MAX as u128) {
        None => {
            return Err(
                line_diagnostic("CCC1331", "invalid linemarker line number", tokens[0].span),
            );
        },
        Some(v) => v,
    };
    if line == 0 || line > 2_147_483_647 {
        return Err(
            line_diagnostic("CCC1331", "linemarker line number is out of range", tokens[0].span),
        );
    }
    let file = if tokens.len() > 1 && tokens[1].kind == PpTokenKind::StringLiteral {
        match quoted_or_none(tokens[1].spelling.as_str()) {
            Some(body) => Some(body),
            None => Some(tokens[1].spelling.clone()),
        }
    } else {
        None
    };
    let start: usize = if file.is_some() {
        2
    } else {
        1
    };
    let ghost all = marker_flags(tokens@, start as int);
    let ghost file_view = crate::pp::search::string_option(file);
    assert(numeric_marker(tokens@, span) == match all {
        Ok(flags) => Ok::<_, DiagnosticView>((line as int, file_view, flags)),
        Err(e) => Err(e),
    });
    let mut flags: Vec<u8> = Vec::new();
    let mut i = start;
    assert(flags@ + Seq::<u8>::empty() =~= flags@);
    while i < tokens.len()
        invariant
            start <= i,
            all == marker_flags(tokens@, start as int),
            numeric_marker(tokens@, span) == match all {
                Ok(flags) => Ok::<_, DiagnosticView>((line as int, file_view, flags)),
                Err(e) => Err(e),
            },
            match marker_flags(tokens@, i as int) {
                Ok(rest) => all == Ok::<Seq<u8>, DiagnosticView>(flags@ + rest),
                Err(e) => all == Err::<Seq<u8>, DiagnosticView>(e),
            },
        decreases tokens.len() - i,
    {
        let flag = match parse_number(tokens[i].spelling.as_str(), 255) {
            None => {
                return Err(line_diagnostic("CCC1332", "invalid linemarker flag", tokens[i].span));
            },
            Some(v) => v,
        };
        if !(1 <= flag && flag <= 4) {
            return Err(
                line_diagnostic("CCC1332", "linemarker flag must be between 1 and 4", tokens[i].span),
            );
        }
        let ghost before = flags@;
        flags.push(flag as u8);
        proof {
            match marker_flags(tokens@, i + 1) {
                Ok(rest) => {
                    assert(before + (seq![flag as u8] + rest) =~= flags@ + rest);
                },
                Err(e) => {},
            }
        }
        i = i + 1;
    }
    assert(flags@ + Seq::<u8>::empty() =~= flags@);
    Ok((line as usize, file, flags))
}

} // verus!
