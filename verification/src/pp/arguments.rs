//! Collecting the arguments of a function-like macro invocation: the
//! tokens between the parentheses, split at the commas of the outermost
//! level, with the nesting limit and the count the macro expects.

use vstd::prelude::*;

use crate::pp::condition::{diagnostic_view, plain_error, DiagnosticView};
use crate::pp::diagnostic::PpDiagnostic;
use crate::pp::substitute::{substitution_diagnostic, substitution_error, TokenFields};
use crate::pp::token::{duplicate_token, token_fields, tokens_fields, PpToken, Span};
use crate::text::{decimal, push_decimal, push_str, str_eq, string_from_chars};

verus! {

/// What collecting the arguments gives: the arguments, the index past the
/// closing parenthesis and whether the variadic part was left out; or the
/// error that stopped it.
pub enum ArgumentsOutcome {
    Collected(Seq<Seq<TokenFields>>, int, bool),
    Failed(DiagnosticView),
}

pub open spec fn argument_fields(arguments: Seq<Vec<PpToken>>) -> Seq<Seq<TokenFields>> {
    arguments.map_values(|a: Vec<PpToken>| tokens_fields(a@))
}

/// "macro expects N argument(s), but M was/were provided".
pub open spec fn count_message(expected: nat, given: nat) -> Seq<char> {
    "macro expects "@ + decimal(expected) + " argument"@ + (if expected == 1 {
        ""@
    } else {
        "s"@
    }) + ", but "@ + decimal(given) + (if given == 1 {
        " was"@
    } else {
        " were"@
    }) + " provided"@
}

/// The arguments once the closing parenthesis at `end` is reached: an
/// empty list for `()` where the macro takes no parameter; the count must
/// match, or reach the fixed count where the macro is variadic.
pub open spec fn close_arguments(
    arguments: Seq<Seq<TokenFields>>,
    end: int,
    count: int,
    variadic: bool,
    open_span: Span,
) -> ArgumentsOutcome {
    let arguments = if arguments.len() == 1 && arguments[0].len() == 0 && count == 0 {
        Seq::<Seq<TokenFields>>::empty()
    } else {
        arguments
    };
    let valid = if variadic {
        arguments.len() >= count
    } else {
        arguments.len() == count
    };
    if !valid {
        ArgumentsOutcome::Failed(
            substitution_error("CCC1104"@, count_message(count as nat, arguments.len()), open_span),
        )
    } else {
        ArgumentsOutcome::Collected(arguments, end + 1, variadic && arguments.len() == count)
    }
}

/// The scan from index `i`, with the finished arguments `done`, the one
/// being collected, and the parenthesis depth.
pub open spec fn arguments_scan(
    tokens: Seq<PpToken>,
    open: int,
    i: int,
    done: Seq<Seq<TokenFields>>,
    current: Seq<TokenFields>,
    depth: int,
    count: int,
    variadic: bool,
    limit: int,
) -> ArgumentsOutcome
    decreases tokens.len() - i,
{
    if i < 0 || i >= tokens.len() {
        ArgumentsOutcome::Failed(
            substitution_error("CCC1105"@, "unterminated macro invocation"@, tokens[open].span),
        )
    } else {
        let t = tokens[i];
        let s = t.spelling@;
        if s == "("@ {
            if depth + 1 > limit {
                ArgumentsOutcome::Failed(
                    substitution_error("CCC1103"@, "macro argument nesting limit exceeded"@, t.span),
                )
            } else {
                arguments_scan(tokens, open, i + 1, done, current.push(token_fields(t)), depth + 1, count, variadic, limit)
            }
        } else if s == ")"@ {
            if depth - 1 == 0 {
                close_arguments(done.push(current), i, count, variadic, tokens[open].span)
            } else {
                arguments_scan(tokens, open, i + 1, done, current.push(token_fields(t)), depth - 1, count, variadic, limit)
            }
        } else if s == ","@ && depth == 1 {
            arguments_scan(tokens, open, i + 1, done.push(current), seq![], depth, count, variadic, limit)
        } else {
            arguments_scan(tokens, open, i + 1, done, current.push(token_fields(t)), depth, count, variadic, limit)
        }
    }
}

/// The outcome of collecting the arguments whose `(` is at `open`.
pub open spec fn collected_arguments(
    tokens: Seq<PpToken>,
    open: int,
    count: int,
    variadic: bool,
    limit: int,
) -> ArgumentsOutcome {
    arguments_scan(tokens, open, open + 1, seq![], seq![], 1, count, variadic, limit)
}

fn count_text(expected: usize, given: usize) -> (result: String)
    ensures
        result@ == count_message(expected as nat, given as nat),
{
    let mut text: Vec<char> = Vec::new();
    push_str(&mut text, "macro expects ");
    push_decimal(&mut text, expected as u64);
    push_str(&mut text, " argument");
    if expected != 1 {
        push_str(&mut text, "s");
    }
    push_str(&mut text, ", but ");
    push_decimal(&mut text, given as u64);
    if given == 1 {
        push_str(&mut text, " was");
    } else {
        push_str(&mut text, " were");
    }
    push_str(&mut text, " provided");
    proof {
        reveal_strlit("");
    }
    assert(text@ =~= count_message(expected as nat, given as nat));
    string_from_chars(text.as_slice())
}

/// Collects the arguments of the invocation whose `(` is at `open`: the
/// tokens up to the matching `)`, split at the commas outside nested
/// parentheses. Fails where the parentheses nest deeper than
/// `argument_depth`, where the count does not fit the macro, or where the
/// invocation is not closed.
pub fn parse_arguments(
    tokens: &[PpToken],
    open: usize,
    parameter_count: usize,
    variadic: bool,
    argument_depth: usize,
) -> (result: Result<(Vec<Vec<PpToken>>, usize, bool), PpDiagnostic>)
    requires
        open < tokens@.len(),
    ensures
        match result {
            Ok((arguments, end, absent)) => collected_arguments(
                tokens@,
                open as int,
                parameter_count as int,
                variadic,
                argument_depth as int,
            ) == ArgumentsOutcome::Collected(argument_fields(arguments@), end as int, absent),
            Err(d) => plain_error(d) && collected_arguments(
                tokens@,
                open as int,
                parameter_count as int,
                variadic,
                argument_depth as int,
            ) == ArgumentsOutcome::Failed(diagnostic_view(d)),
        },
{
    let ghost goal = collected_arguments(tokens@, open as int, parameter_count as int, variadic, argument_depth as int);
    let mut done: Vec<Vec<PpToken>> = Vec::new();
    let mut current: Vec<PpToken> = Vec::new();
    let mut depth: usize = 1;
    let n = tokens.len();
    let mut index: usize = open + 1;
    assert(argument_fields(done@) =~= Seq::<Seq<TokenFields>>::empty());
    assert(tokens_fields(current@) =~= Seq::<TokenFields>::empty());
    while index < tokens.len()
        invariant
            open < tokens@.len(),
            open + 1 <= index <= tokens@.len(),
            1 <= depth <= index - open,
            goal == collected_arguments(tokens@, open as int, parameter_count as int, variadic, argument_depth as int),
            goal == arguments_scan(
                tokens@,
                open as int,
                index as int,
                argument_fields(done@),
                tokens_fields(current@),
                depth as int,
                parameter_count as int,
                variadic,
                argument_depth as int,
            ),
        decreases tokens.len() - index,
    {
        let t = &tokens[index];
        let s = t.spelling.as_str();
        proof {
            reveal_strlit("(");
            reveal_strlit(")");
            reveal_strlit(",");
        }
        let ghost before = current@;
        if str_eq(s, "(") {
            depth = depth + 1;
            if depth > argument_depth {
                return Err(
                    substitution_diagnostic(
                        "CCC1103",
                        "macro argument nesting limit exceeded".to_string(),
                        t.span,
                    ),
                );
            }
            current.push(duplicate_token(t));
            assert(tokens_fields(current@) =~= tokens_fields(before).push(token_fields(*t)));
        } else if str_eq(s, ")") {
            depth = depth - 1;
            if depth == 0 {
                let ghost finished = done@;
                done.push(current);
                assert(argument_fields(done@) =~= argument_fields(finished).push(tokens_fields(before)));
                let count = done.len();
                if count == 1 && done[0].len() == 0 && parameter_count == 0 {
                    done = Vec::new();
                    assert(argument_fields(done@) =~= Seq::<Seq<TokenFields>>::empty());
                }
                let given = done.len();
                let valid = if variadic {
                    given >= parameter_count
                } else {
                    given == parameter_count
                };
                if !valid {
                    return Err(
                        substitution_diagnostic("CCC1104", count_text(parameter_count, given), tokens[open].span),
                    );
                }
                return Ok((done, index + 1, variadic && given == parameter_count));
            }
            current.push(duplicate_token(t));
            assert(tokens_fields(current@) =~= tokens_fields(before).push(token_fields(*t)));
        } else if str_eq(s, ",") && depth == 1 {
            let ghost finished = done@;
            done.push(current);
            current = Vec::new();
            assert(argument_fields(done@) =~= argument_fields(finished).push(tokens_fields(before)));
            assert(tokens_fields(current@) =~= Seq::<TokenFields>::empty());
        } else {
            current.push(duplicate_token(t));
            assert(tokens_fields(current@) =~= tokens_fields(before).push(token_fields(*t)));
        }
        index = index + 1;
    }
    Err(substitution_diagnostic("CCC1105", "unterminated macro invocation".to_string(), tokens[open].span))
}

proof fn lemma_scan_end(
    tokens: Seq<PpToken>,
    open: int,
    i: int,
    done: Seq<Seq<TokenFields>>,
    current: Seq<TokenFields>,
    depth: int,
    count: int,
    variadic: bool,
    limit: int,
)
    ensures
        arguments_scan(tokens, open, i, done, current, depth, count, variadic, limit) matches ArgumentsOutcome::Collected(
            _,
            end,
            _,
        ) ==> i < end <= tokens.len(),
    decreases tokens.len() - i,
{
    if i < 0 || i >= tokens.len() {
    } else {
        let t = tokens[i];
        let s = t.spelling@;
        if s == "("@ {
            if depth + 1 <= limit {
                lemma_scan_end(tokens, open, i + 1, done, current.push(token_fields(t)), depth + 1, count, variadic, limit);
            }
        } else if s == ")"@ {
            if depth - 1 != 0 {
                lemma_scan_end(tokens, open, i + 1, done, current.push(token_fields(t)), depth - 1, count, variadic, limit);
            }
        } else if s == ","@ && depth == 1 {
            lemma_scan_end(tokens, open, i + 1, done.push(current), seq![], depth, count, variadic, limit);
        } else {
            lemma_scan_end(tokens, open, i + 1, done, current.push(token_fields(t)), depth, count, variadic, limit);
        }
    }
}

/// Collected arguments end past the opening parenthesis and within the
/// tokens.
pub proof fn lemma_collected_end(tokens: Seq<PpToken>, open: int, count: int, variadic: bool, limit: int)
    ensures
        collected_arguments(tokens, open, count, variadic, limit) matches ArgumentsOutcome::Collected(
            _,
            end,
            _,
        ) ==> open + 1 < end <= tokens.len(),
{
    lemma_scan_end(tokens, open, open + 1, seq![], seq![], 1, count, variadic, limit);
}

} // verus!
