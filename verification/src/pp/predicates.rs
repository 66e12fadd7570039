//! The predicates of `#if` expressions: `__has_include` and
//! `__has_include_next`, answered by the include search, and
//! `__has_attribute`, `__has_builtin`, `__has_feature` and
//! `__has_extension`, answered by the configured features.

use vstd::prelude::*;

use crate::pp::condition::{diagnostic_views, plain_error, DiagnosticView};
use crate::pp::diagnostic::{PpDiagnostic, PpDiagnosticCategory, PpSeverity};
use crate::pp::files::FileProvider;
use crate::pp::macros::MacroTable;
use crate::pp::search::{
    entries_view, header_candidates_spec, including_view, resolve_header, HeaderReadFailure,
    IncludingFile, SearchEntry,
};
use crate::pp::token::{duplicate_token, identifier_name, token_fields, tokens_fields, PpToken, PpTokenKind, Span};
use crate::text::{chars_of, concat2, concat3, push_str, str_eq, string_from_chars};

verus! {

/* Operands */

/// Where the parenthesis opened at `i` with `depth` already open closes.
pub open spec fn close_scan(tokens: Seq<PpToken>, i: int, depth: nat) -> Option<int>
    decreases tokens.len() - i,
{
    if i < 0 || i >= tokens.len() {
        None
    } else if tokens[i].spelling@ == "("@ {
        close_scan(tokens, i + 1, depth + 1)
    } else if tokens[i].spelling@ == ")"@ {
        if depth == 0 {
            None
        } else if depth == 1 {
            Some(i)
        } else {
            close_scan(tokens, i + 1, (depth - 1) as nat)
        }
    } else {
        close_scan(tokens, i + 1, depth)
    }
}

/// The index of the parenthesis that closes the one at `open`.
pub fn matching_close(tokens: &[PpToken], open: usize) -> (result: Option<usize>)
    ensures
        match result {
            Some(close) => close_scan(tokens@, open as int, 0) == Some(close as int),
            None => close_scan(tokens@, open as int, 0) is None,
        },
{
    let mut depth: usize = 0;
    let mut index = open;
    while index < tokens.len()
        invariant
            open <= index,
            close_scan(tokens@, open as int, 0) == close_scan(tokens@, index as int, depth as nat),
            depth <= index - open,
        decreases tokens.len() - index,
    {
        if str_eq(tokens[index].spelling.as_str(), "(") {
            depth = depth + 1;
        } else if str_eq(tokens[index].spelling.as_str(), ")") {
            if depth == 0 {
                return None;
            }
            depth = depth - 1;
            if depth == 0 {
                return Some(index);
            }
        }
        index = index + 1;
    }
    None
}

/// The tokens of an angled header name joined: a space where a token after
/// the first had whitespace before it.
pub open spec fn header_text(tokens: Seq<PpToken>) -> Seq<char>
    decreases tokens.len(),
{
    if tokens.len() == 0 {
        seq![]
    } else {
        let t = tokens.last();
        header_text(tokens.drop_last()) + (if tokens.len() > 1 && t.leading_space {
            seq![' ']
        } else {
            seq![]
        }) + t.spelling@
    }
}

/// The header a predicate's operand names, and whether it is angled: one
/// string literal in quotes, or tokens between `<` and `>`.
pub open spec fn header_operand(tokens: Seq<PpToken>) -> Option<(Seq<char>, bool)> {
    if tokens.len() == 1 && tokens[0].kind == PpTokenKind::StringLiteral {
        let s = tokens[0].spelling@;
        if s.len() >= 2 && s[0] == '"' && s.last() == '"' {
            Some((s.subrange(1, s.len() - 1), false))
        } else {
            None
        }
    } else if tokens.len() >= 2 && tokens[0].spelling@ == "<"@ && tokens.last().spelling@ == ">"@ {
        Some((header_text(tokens.subrange(1, tokens.len() - 1)), true))
    } else {
        None
    }
}

/// The header a predicate's operand names, and whether it is angled.
pub fn parse_header_operand(tokens: &[PpToken]) -> (result: Option<(String, bool)>)
    ensures
        match result {
            Some((name, angled)) => header_operand(tokens@) == Some((name@, angled)),
            None => header_operand(tokens@) is None,
        },
{
    if tokens.len() == 1 && tokens[0].kind == PpTokenKind::StringLiteral {
        let s = chars_of(tokens[0].spelling.as_str());
        if s.len() >= 2 && s[0] == '"' && s[s.len() - 1] == '"' {
            let mut body: Vec<char> = Vec::new();
            let mut i: usize = 1;
            while i < s.len() - 1
                invariant
                    1 <= i <= s@.len() - 1,
                    body@ == s@.subrange(1, i as int),
                decreases s.len() - 1 - i,
            {
                body.push(s[i]);
                i = i + 1;
                assert(body@ =~= s@.subrange(1, i as int));
            }
            return Some((string_from_chars(body.as_slice()), false));
        }
        return None;
    }
    if tokens.len() >= 2 && str_eq(tokens[0].spelling.as_str(), "<") && str_eq(
        tokens[tokens.len() - 1].spelling.as_str(),
        ">",
    ) {
        let ghost inner = tokens@.subrange(1, tokens@.len() - 1);
        let mut header: Vec<char> = Vec::new();
        let mut i: usize = 1;
        assert(inner.take(0) =~= Seq::<PpToken>::empty());
        while i < tokens.len() - 1
            invariant
                1 <= i <= tokens@.len() - 1,
                inner == tokens@.subrange(1, tokens@.len() - 1),
                header@ == header_text(inner.take(i - 1)),
            decreases tokens.len() - 1 - i,
        {
            let ghost prefix = inner.take(i as int);
            assert(prefix.drop_last() =~= inner.take(i - 1));
            assert(prefix.last() == tokens@[i as int]);
            if i > 1 && tokens[i].leading_space {
                header.push(' ');
            }
            push_str(&mut header, tokens[i].spelling.as_str());
            assert(header@ =~= header_text(prefix));
            i = i + 1;
        }
        assert(inner.take(inner.len() as int) =~= inner);
        return Some((string_from_chars(header.as_slice()), true));
    }
    None
}

/// Whether a predicate name asks about a header, and for the next one.
pub open spec fn header_predicate_spec(name: Seq<char>) -> Option<bool> {
    if name == "__has_include"@ {
        Some(false)
    } else if name == "__has_include_next"@ {
        Some(true)
    } else {
        None
    }
}

pub fn header_predicate(name: &str) -> (result: Option<bool>)
    ensures
        result == header_predicate_spec(name@),
{
    if str_eq(name, "__has_include") {
        Some(false)
    } else if str_eq(name, "__has_include_next") {
        Some(true)
    } else {
        None
    }
}

/// The number a predicate at `reference` is replaced by, in its place.
pub open spec fn predicate_fields(reference: PpToken, value: bool) -> (
    PpTokenKind,
    Span,
    Seq<char>,
    bool,
    bool,
    usize,
    bool,
) {
    (
        PpTokenKind::PpNumber,
        reference.span,
        if value {
            "1"@
        } else {
            "0"@
        },
        reference.leading_space,
        reference.at_start_of_line,
        reference.logical_line,
        false,
    )
}

pub fn predicate_result(reference: &PpToken, value: bool) -> (result: PpToken)
    ensures
        token_fields(result) == predicate_fields(*reference, value),
{
    PpToken {
        kind: PpTokenKind::PpNumber,
        span: reference.span,
        spelling: if value {
            "1".to_string()
        } else {
            "0".to_string()
        },
        leading_space: reference.leading_space,
        at_start_of_line: reference.at_start_of_line,
        logical_line: reference.logical_line,
        is_system_header: false,
        hide_set: Vec::new(),
        expansion_depth: 0,
    }
}

proof fn lemma_close_scan_bounds(tokens: Seq<PpToken>, i: int, depth: nat)
    requires
        0 <= i,
    ensures
        close_scan(tokens, i, depth) matches Some(close) ==> i <= close < tokens.len(),
    decreases tokens.len() - i,
{
    if i < tokens.len() {
        if tokens[i].spelling@ == "("@ {
            lemma_close_scan_bounds(tokens, i + 1, depth + 1);
        } else if tokens[i].spelling@ == ")"@ {
            if depth > 1 {
                lemma_close_scan_bounds(tokens, i + 1, (depth - 1) as nat);
            }
        } else {
            lemma_close_scan_bounds(tokens, i + 1, depth);
        }
    }
}

proof fn lemma_header_text_fields(a: Seq<PpToken>, b: Seq<PpToken>)
    requires
        tokens_fields(a) == tokens_fields(b),
    ensures
        header_text(a) == header_text(b),
    decreases a.len(),
{
    assert(a.len() == tokens_fields(a).len());
    assert(b.len() == tokens_fields(b).len());
    if a.len() > 0 {
        assert(tokens_fields(a.drop_last()) =~= tokens_fields(b.drop_last())) by {
            assert forall|k: int| 0 <= k < a.len() - 1 implies token_fields(a.drop_last()[k]) == token_fields(b.drop_last()[k]) by {
                assert(tokens_fields(a)[k] == tokens_fields(b)[k]);
            }
        }
        lemma_header_text_fields(a.drop_last(), b.drop_last());
        assert(tokens_fields(a)[a.len() - 1] == tokens_fields(b)[b.len() - 1]);
    }
}

/// The operand's header depends on its tokens' fields alone.
proof fn lemma_header_operand_fields(a: Seq<PpToken>, b: Seq<PpToken>)
    requires
        tokens_fields(a) == tokens_fields(b),
    ensures
        header_operand(a) == header_operand(b),
{
    assert(a.len() == tokens_fields(a).len());
    assert(b.len() == tokens_fields(b).len());
    if a.len() > 0 {
        assert(tokens_fields(a)[0] == tokens_fields(b)[0]);
        assert(tokens_fields(a)[a.len() - 1] == tokens_fields(b)[b.len() - 1]);
    }
    if a.len() >= 2 {
        let x = a.subrange(1, a.len() - 1);
        let y = b.subrange(1, b.len() - 1);
        assert(tokens_fields(x) =~= tokens_fields(y)) by {
            assert forall|k: int| 0 <= k < x.len() implies token_fields(x[k]) == token_fields(y[k]) by {
                assert(tokens_fields(a)[k + 1] == tokens_fields(b)[k + 1]);
            }
        }
        lemma_header_text_fields(x, y);
    }
}

/* Header predicates before expansion */

/// Whether a name is one of the predicates `#if` answers.
pub open spec fn is_predicate_name(name: Seq<char>) -> bool {
    name == "__has_include"@ || name == "__has_include_next"@ || name == "__has_attribute"@ || name
        == "__has_builtin"@ || name == "__has_feature"@ || name == "__has_extension"@
}

/// Whether the table holds `name`: a definition, or an available dynamic
/// macro.
pub open spec fn table_contains(table: MacroTable, name: Seq<char>) -> bool {
    table.definition(name) is Some || table.dynamic_available(name)
}

/// The invocation of a predicate at `i` with its operand: the index of its
/// closing parenthesis.
pub open spec fn invocation_close(tokens: Seq<PpToken>, i: int) -> Option<int> {
    if i + 1 < tokens.len() && tokens[i + 1].spelling@ == "("@ {
        close_scan(tokens, i + 1, 0)
    } else {
        None
    }
}

/// One step of the pass before expansion: a header predicate that is not
/// redefined, with a well-formed operand, is replaced by the next answer of
/// the include search; anything else is kept.
pub open spec fn direct_step(
    tokens: Seq<PpToken>,
    table: MacroTable,
    answers: Seq<bool>,
    i: int,
    state: (Seq<(PpTokenKind, Span, Seq<char>, bool, bool, usize, bool)>, int),
) -> ((Seq<(PpTokenKind, Span, Seq<char>, bool, bool, usize, bool)>, int), int) {
    let (out, used) = state;
    let t = tokens[i];
    let name = identifier_name(t);
    let keep = ((out.push(token_fields(t)), used), i + 1);
    if !(t.kind == PpTokenKind::Identifier && header_predicate_spec(name) is Some) {
        keep
    } else if !(table.definition(name) is None && table.dynamic_available(name)) {
        keep
    } else {
        match invocation_close(tokens, i) {
            None => keep,
            Some(close) => match header_operand(tokens.subrange(i + 2, close)) {
                None => keep,
                Some(_) => ((out.push(predicate_fields(t, answers[used])), used + 1), close + 1),
            },
        }
    }
}

#[via_fn]
proof fn direct_scan_decreases(
    tokens: Seq<PpToken>,
    table: MacroTable,
    answers: Seq<bool>,
    i: int,
    state: (Seq<(PpTokenKind, Span, Seq<char>, bool, bool, usize, bool)>, int),
) {
    if 0 <= i < tokens.len() && i + 1 < tokens.len() {
        lemma_close_scan_bounds(tokens, i + 1, 0);
    }
}

pub open spec fn direct_scan(
    tokens: Seq<PpToken>,
    table: MacroTable,
    answers: Seq<bool>,
    i: int,
    state: (Seq<(PpTokenKind, Span, Seq<char>, bool, bool, usize, bool)>, int),
) -> (Seq<(PpTokenKind, Span, Seq<char>, bool, bool, usize, bool)>, int)
    decreases tokens.len() - i,
    via direct_scan_decreases
{
    if i < 0 || i >= tokens.len() {
        state
    } else {
        let next = direct_step(tokens, table, answers, i, state);
        direct_scan(tokens, table, answers, next.1, next.0)
    }
}

/// Where the include search looks for the headers a predicate names.
pub struct HeaderSearch<'a, F: FileProvider> {
    pub files: &'a F,
    pub entries: &'a [SearchEntry],
    pub current: Option<&'a IncludingFile>,
}

/// Whether the include search finds the header; a failed read counts as
/// absent and is recorded.
pub fn header_present<F: FileProvider>(
    search: &HeaderSearch<F>,
    header: &str,
    angled: bool,
    include_next: bool,
    failures: &mut Vec<(String, HeaderReadFailure)>,
) -> (result: bool)
    ensures
        final(failures)@ == old(failures)@ || (!result && final(failures)@.len() == old(failures)@.len() + 1
            && final(failures)@.last().0@ == header@),
        ({
            let candidates = header_candidates_spec(
                entries_view(search.entries@),
                including_view(search.current),
                header@,
                angled,
                include_next,
            );
            &&& result ==> candidates.len() > 0
            &&& final(failures)@ != old(failures)@ ==> exists|k: int|
                0 <= k < candidates.len() && final(failures)@.last().1.path@ == (#[trigger] candidates[k]).0
        }),
{
    match resolve_header(search.files, search.entries, search.current, header, angled, include_next) {
        Ok(Some(_)) => true,
        Ok(None) => false,
        Err(failure) => {
            failures.push((header.to_string(), failure));
            false
        },
    }
}

/// Replaces the header predicates that a directive names directly, before
/// macro expansion, by the include search's answers; the answers come back
/// in the order they were asked, with the reads that failed.
pub fn replace_direct_header_predicates<F: FileProvider>(
    tokens: &[PpToken],
    table: &MacroTable,
    search: &HeaderSearch<F>,
) -> (result: (Vec<PpToken>, Vec<bool>, Vec<(String, HeaderReadFailure)>))
    requires
        table.well_formed(),
    ensures
        (tokens_fields(result.0@), result.1@.len() as int) == direct_scan(
            tokens@,
            *table,
            result.1@,
            0,
            (seq![], 0),
        ),
{
    let mut output: Vec<PpToken> = Vec::new();
    let mut answers: Vec<bool> = Vec::new();
    let mut failures: Vec<(String, HeaderReadFailure)> = Vec::new();
    let mut index: usize = 0;
    let ghost final_answers: Seq<bool> = Seq::empty();
    assert(tokens_fields(output@) =~= seq![]);
    while index < tokens.len()
        invariant
            index <= tokens@.len(),
            table.well_formed(),
            forall|answers_after: Seq<bool>| #![trigger direct_scan(tokens@, *table, answers@ + answers_after, 0, (seq![], 0))]
                direct_scan(tokens@, *table, answers@ + answers_after, 0, (seq![], 0))
                    == direct_scan(
                    tokens@,
                    *table,
                    answers@ + answers_after,
                    index as int,
                    (tokens_fields(output@), answers@.len() as int),
                ),
        decreases tokens.len() - index,
    {
        let token = &tokens[index];
        let ghost before_output = output@;
        let ghost before_answers = answers@;
        let mut advance: usize = index + 1;
        let mut replaced = false;
        if token.kind == PpTokenKind::Identifier {
            let name = token.identifier_key();
            match header_predicate(name.as_str()) {
                Some(include_next) => {
                    if table.get(name.as_str()).is_none() && table.dynamic_enabled(name.as_str())
                        && index + 1 < tokens.len() && str_eq(tokens[index + 1].spelling.as_str(), "(") {
                        match matching_close(tokens, index + 1) {
                            Some(close) => {
                                proof {
                                    lemma_close_scan_bounds(tokens@, index + 2, 1);
                                }
                                let operand = slice_tokens(tokens, index + 2, close);
                                proof {
                                    lemma_header_operand_fields(operand@, tokens@.subrange(index + 2, close as int));
                                }
                                match parse_header_operand(operand.as_slice()) {
                                    Some((header, angled)) => {
                                        let value = header_present(
                                            search,
                                            header.as_str(),
                                            angled,
                                            include_next,
                                            &mut failures,
                                        );
                                        output.push(predicate_result(token, value));
                                        answers.push(value);
                                        advance = close + 1;
                                        replaced = true;
                                    },
                                    None => {},
                                }
                            },
                            None => {},
                        }
                    }
                },
                None => {},
            }
        }
        if !replaced {
            output.push(duplicate_token(token));
        }
        proof {
            assert forall|answers_after: Seq<bool>| #![trigger direct_scan(tokens@, *table, answers@ + answers_after, 0, (seq![], 0))]
                direct_scan(tokens@, *table, answers@ + answers_after, 0, (seq![], 0))
                    == direct_scan(
                    tokens@,
                    *table,
                    answers@ + answers_after,
                    advance as int,
                    (tokens_fields(output@), answers@.len() as int),
                ) by {
                let all = answers@ + answers_after;
                if replaced {
                    assert(before_answers + (seq![answers@.last()] + answers_after) =~= all);
                } else {
                    assert(before_answers + answers_after =~= all);
                }
                let step = direct_step(
                    tokens@,
                    *table,
                    all,
                    index as int,
                    (tokens_fields(before_output), before_answers.len() as int),
                );
                assert(step.1 == advance);
                assert(step.0.0 =~= tokens_fields(output@));
            }
        }
        index = advance;
    }
    proof {
        assert(answers@ + Seq::<bool>::empty() =~= answers@);
    }
    (output, answers, failures)
}

/// The tokens from `start` to `end`.
fn slice_tokens(tokens: &[PpToken], start: usize, end: usize) -> (result: Vec<PpToken>)
    requires
        start <= end <= tokens@.len(),
    ensures
        tokens_fields(result@) == tokens_fields(tokens@.subrange(start as int, end as int)),
        result@.len() == end - start,
        forall|k: int| 0 <= k < result@.len() ==> token_fields(#[trigger] result@[k]) == token_fields(tokens@[start + k]),
{
    let mut out: Vec<PpToken> = Vec::new();
    let mut i = start;
    while i < end
        invariant
            start <= i <= end <= tokens@.len(),
            out@.len() == i - start,
            forall|k: int| 0 <= k < out@.len() ==> token_fields(#[trigger] out@[k]) == token_fields(tokens@[start + k]),
        decreases end - i,
    {
        out.push(duplicate_token(&tokens[i]));
        i = i + 1;
    }
    assert(tokens_fields(out@) =~= tokens_fields(tokens@.subrange(start as int, end as int)));
    out
}

/* Predicates after expansion */

/// The feature family a predicate asks about.
pub open spec fn predicate_family(name: Seq<char>) -> Seq<char> {
    if name == "__has_attribute"@ {
        "attribute"@
    } else if name == "__has_builtin"@ {
        "builtin"@
    } else if name == "__has_feature"@ {
        "feature"@
    } else {
        "extension"@
    }
}

/// The tokens' spellings run together.
pub open spec fn spellings_text(tokens: Seq<PpToken>) -> Seq<char>
    decreases tokens.len(),
{
    if tokens.len() == 0 {
        seq![]
    } else {
        spellings_text(tokens.drop_last()) + tokens.last().spelling@
    }
}

/// The value a feature list gives a name, the first entry naming it.
pub open spec fn feature_lookup(features: Seq<(String, bool)>, name: Seq<char>) -> Option<bool>
    decreases features.len(),
{
    if features.len() == 0 {
        None
    } else if features[0].0@ == name {
        Some(features[0].1)
    } else {
        feature_lookup(features.drop_first(), name)
    }
}

/// Whether a feature is available: its entry by name, else by the name
/// after its family and a colon, else not.
pub open spec fn feature_value(features: Seq<(String, bool)>, family: Seq<char>, name: Seq<char>) -> bool {
    match feature_lookup(features, name) {
        Some(v) => v,
        None => match feature_lookup(features, family + ":"@ + name) {
            Some(v) => v,
            None => false,
        },
    }
}

pub open spec fn predicate_error(code: Seq<char>, message: Seq<char>, span: Span) -> DiagnosticView {
    DiagnosticView { code, message, span: Some(span) }
}

/// What the pass after expansion has made: the tokens, the diagnostics, and
/// how many include answers it has used.
pub type PredicateScan = (
    Seq<(PpTokenKind, Span, Seq<char>, bool, bool, usize, bool)>,
    Seq<DiagnosticView>,
    int,
);

/// One step of the pass after expansion: a predicate the table holds is
/// replaced by its answer: the next include answer for a header predicate
/// with a well-formed operand, false for one without, the feature's value
/// otherwise; one without parentheses or without their end is reported and
/// kept.
pub open spec fn predicate_step(
    tokens: Seq<PpToken>,
    table: MacroTable,
    features: Seq<(String, bool)>,
    answers: Seq<bool>,
    i: int,
    state: PredicateScan,
) -> (PredicateScan, int) {
    let (out, diagnostics, used) = state;
    let t = tokens[i];
    let name = identifier_name(t);
    if !(t.kind == PpTokenKind::Identifier && is_predicate_name(name)) || !table_contains(table, name) {
        ((out.push(token_fields(t)), diagnostics, used), i + 1)
    } else if !(i + 1 < tokens.len() && tokens[i + 1].spelling@ == "("@) {
        (
            (
                out.push(token_fields(t)),
                diagnostics.push(predicate_error("CCC1204"@, name + " requires parentheses"@, t.span)),
                used,
            ),
            i + 1,
        )
    } else {
        match close_scan(tokens, i + 1, 0) {
            None => (
                (
                    out.push(token_fields(t)),
                    diagnostics.push(
                        predicate_error("CCC1205"@, "unterminated "@ + name + " invocation"@, t.span),
                    ),
                    used,
                ),
                i + 1,
            ),
            Some(close) => {
                let operand = tokens.subrange(i + 2, close);
                let answered: (bool, int) = match header_predicate_spec(name) {
                    Some(_) => match header_operand(operand) {
                        Some(_) => (answers[used], used + 1),
                        None => (false, used),
                    },
                    None => (feature_value(features, predicate_family(name), spellings_text(operand)), used),
                };
                ((out.push(predicate_fields(t, answered.0)), diagnostics, answered.1), close + 1)
            },
        }
    }
}

#[via_fn]
proof fn predicate_scan_decreases(
    tokens: Seq<PpToken>,
    table: MacroTable,
    features: Seq<(String, bool)>,
    answers: Seq<bool>,
    i: int,
    state: PredicateScan,
) {
    if 0 <= i < tokens.len() && i + 1 < tokens.len() {
        lemma_close_scan_bounds(tokens, i + 1, 0);
    }
}

pub open spec fn predicate_scan(
    tokens: Seq<PpToken>,
    table: MacroTable,
    features: Seq<(String, bool)>,
    answers: Seq<bool>,
    i: int,
    state: PredicateScan,
) -> PredicateScan
    decreases tokens.len() - i,
    via predicate_scan_decreases
{
    if i < 0 || i >= tokens.len() {
        state
    } else {
        let next = predicate_step(tokens, table, features, answers, i, state);
        predicate_scan(tokens, table, features, answers, next.1, next.0)
    }
}

fn lookup_feature(features: &[(String, bool)], name: &str) -> (result: Option<bool>)
    ensures
        result == feature_lookup(features@, name@),
{
    let mut i: usize = 0;
    assert(features@.skip(0) =~= features@);
    while i < features.len()
        invariant
            i <= features@.len(),
            feature_lookup(features@, name@) == feature_lookup(features@.skip(i as int), name@),
        decreases features.len() - i,
    {
        assert(features@.skip(i as int)[0] == features@[i as int]);
        if str_eq(features[i].0.as_str(), name) {
            return Some(features[i].1);
        }
        assert(features@.skip(i as int).drop_first() =~= features@.skip(i + 1));
        i = i + 1;
    }
    None
}

fn spellings_of(tokens: &[PpToken], start: usize, end: usize) -> (result: String)
    requires
        start <= end <= tokens@.len(),
    ensures
        result@ == spellings_text(tokens@.subrange(start as int, end as int)),
{
    let mut text: Vec<char> = Vec::new();
    let mut i = start;
    assert(tokens@.subrange(start as int, start as int) =~= Seq::<PpToken>::empty());
    while i < end
        invariant
            start <= i <= end <= tokens@.len(),
            text@ == spellings_text(tokens@.subrange(start as int, i as int)),
        decreases end - i,
    {
        assert(tokens@.subrange(start as int, i + 1).drop_last() =~= tokens@.subrange(start as int, i as int));
        push_str(&mut text, tokens[i].spelling.as_str());
        i = i + 1;
    }
    string_from_chars(text.as_slice())
}

fn feature_available(features: &[(String, bool)], name: &str, feature: &str) -> (result: bool)
    ensures
        result == feature_value(features@, predicate_family(name@), feature@),
{
    match lookup_feature(features, feature) {
        Some(v) => v,
        None => {
            let family = if str_eq(name, "__has_attribute") {
                "attribute"
            } else if str_eq(name, "__has_builtin") {
                "builtin"
            } else if str_eq(name, "__has_feature") {
                "feature"
            } else {
                "extension"
            };
            let key = concat3(family, ":", feature);
            match lookup_feature(features, key.as_str()) {
                Some(v) => v,
                None => false,
            }
        },
    }
}

fn predicate_diagnostic(code: &'static str, message: String, span: Span) -> (result: PpDiagnostic)
    ensures
        crate::pp::condition::diagnostic_view(result) == predicate_error(code@, message@, span),
        plain_error(result),
{
    PpDiagnostic {
        severity: PpSeverity::Error,
        code,
        message,
        span: Some(span),
        category: PpDiagnosticCategory::General,
    }
}

fn is_predicate_exec(name: &str) -> (result: bool)
    ensures
        result == is_predicate_name(name@),
{
    str_eq(name, "__has_include") || str_eq(name, "__has_include_next") || str_eq(name, "__has_attribute")
        || str_eq(name, "__has_builtin") || str_eq(name, "__has_feature") || str_eq(name, "__has_extension")
}

/// What the pass after expansion yields: the tokens, the diagnostics, the
/// include search's answers in the order they were asked, and the reads that
/// failed.
pub struct PredicateReplacement {
    pub tokens: Vec<PpToken>,
    pub diagnostics: Vec<PpDiagnostic>,
    pub answers: Vec<bool>,
    pub read_failures: Vec<(String, HeaderReadFailure)>,
}

/// Replaces the predicates left after macro expansion by their answers;
/// `features` gives the configured features by name.
pub fn replace_predicates<F: FileProvider>(
    tokens: Vec<PpToken>,
    table: &MacroTable,
    features: &[(String, bool)],
    search: &HeaderSearch<F>,
) -> (result: PredicateReplacement)
    requires
        table.well_formed(),
    ensures
        (tokens_fields(result.tokens@), diagnostic_views(result.diagnostics@), result.answers@.len() as int)
            == predicate_scan(tokens@, *table, features@, result.answers@, 0, (seq![], seq![], 0)),
        forall|k: int| 0 <= k < result.diagnostics@.len() ==> plain_error(#[trigger] result.diagnostics@[k]),
{
    let mut output: Vec<PpToken> = Vec::new();
    let mut diagnostics: Vec<PpDiagnostic> = Vec::new();
    let mut answers: Vec<bool> = Vec::new();
    let mut failures: Vec<(String, HeaderReadFailure)> = Vec::new();
    let mut index: usize = 0;
    assert(tokens_fields(output@) =~= seq![]);
    assert(diagnostic_views(diagnostics@) =~= seq![]);
    while index < tokens.len()
        invariant
            index <= tokens@.len(),
            table.well_formed(),
            forall|k: int| 0 <= k < diagnostics@.len() ==> plain_error(#[trigger] diagnostics@[k]),
            forall|answers_after: Seq<bool>| #![trigger predicate_scan(tokens@, *table, features@, answers@ + answers_after, 0, (seq![], seq![], 0))]
                predicate_scan(tokens@, *table, features@, answers@ + answers_after, 0, (seq![], seq![], 0))
                    == predicate_scan(
                    tokens@,
                    *table,
                    features@,
                    answers@ + answers_after,
                    index as int,
                    (tokens_fields(output@), diagnostic_views(diagnostics@), answers@.len() as int),
                ),
        decreases tokens.len() - index,
    {
        let token = &tokens[index];
        let ghost before_output = output@;
        let ghost before_diagnostics = diagnostics@;
        let ghost before_answers = answers@;
        let mut advance: usize = index + 1;
        let mut replaced = false;
        if token.kind == PpTokenKind::Identifier {
            let name = token.identifier_key();
            if is_predicate_exec(name.as_str()) && table.contains(name.as_str()) {
                if !(index + 1 < tokens.len() && str_eq(tokens[index + 1].spelling.as_str(), "(")) {
                    let message = concat2(name.as_str(), " requires parentheses");
                    diagnostics.push(predicate_diagnostic("CCC1204", message, token.span));
                    assert(diagnostic_views(diagnostics@) =~= diagnostic_views(before_diagnostics).push(
                        predicate_error("CCC1204"@, name@ + " requires parentheses"@, token.span),
                    ));
                } else {
                    match matching_close(tokens.as_slice(), index + 1) {
                        None => {
                            let message = concat3("unterminated ", name.as_str(), " invocation");
                            diagnostics.push(predicate_diagnostic("CCC1205", message, token.span));
                            assert(diagnostic_views(diagnostics@) =~= diagnostic_views(
                                before_diagnostics,
                            ).push(
                                predicate_error(
                                    "CCC1205"@,
                                    "unterminated "@ + name@ + " invocation"@,
                                    token.span,
                                ),
                            ));
                        },
                        Some(close) => {
                            proof {
                                lemma_close_scan_bounds(tokens@, index + 2, 1);
                            }
                            let value = match header_predicate(name.as_str()) {
                                Some(include_next) => {
                                    let operand = slice_tokens(tokens.as_slice(), index + 2, close);
                                    proof {
                                        lemma_header_operand_fields(operand@, tokens@.subrange(index + 2, close as int));
                                    }
                                    match parse_header_operand(operand.as_slice()) {
                                        Some((header, angled)) => {
                                            let v = header_present(
                                                search,
                                                header.as_str(),
                                                angled,
                                                include_next,
                                                &mut failures,
                                            );
                                            answers.push(v);
                                            v
                                        },
                                        None => false,
                                    }
                                },
                                None => {
                                    let feature = spellings_of(tokens.as_slice(), index + 2, close);
                                    feature_available(features, name.as_str(), feature.as_str())
                                },
                            };
                            output.push(predicate_result(token, value));
                            advance = close + 1;
                            replaced = true;
                        },
                    }
                }
            }
        }
        if !replaced {
            output.push(duplicate_token(token));
        }
        proof {
            assert forall|answers_after: Seq<bool>| #![trigger predicate_scan(tokens@, *table, features@, answers@ + answers_after, 0, (seq![], seq![], 0))]
                predicate_scan(tokens@, *table, features@, answers@ + answers_after, 0, (seq![], seq![], 0))
                    == predicate_scan(
                    tokens@,
                    *table,
                    features@,
                    answers@ + answers_after,
                    advance as int,
                    (tokens_fields(output@), diagnostic_views(diagnostics@), answers@.len() as int),
                ) by {
                let all = answers@ + answers_after;
                if answers@.len() > before_answers.len() {
                    assert(before_answers + (seq![answers@.last()] + answers_after) =~= all);
                } else {
                    assert(before_answers + answers_after =~= all);
                }
                let step = predicate_step(
                    tokens@,
                    *table,
                    features@,
                    all,
                    index as int,
                    (tokens_fields(before_output), diagnostic_views(before_diagnostics), before_answers.len() as int),
                );
                assert(step.1 == advance);
                assert(step.0.0 =~= tokens_fields(output@));
            }
        }
        index = advance;
    }
    proof {
        assert(answers@ + Seq::<bool>::empty() =~= answers@);
    }
    PredicateReplacement { tokens: output, diagnostics, answers, read_failures: failures }
}

/// The error for a header whose read failed while a predicate asked for it.
pub fn header_read_diagnostic(header: &str, failure: &HeaderReadFailure, span: Option<Span>) -> (result:
    PpDiagnostic)
    ensures
        plain_error(result),
        result.code@ == "CCC1334"@,
        result.message@ == "cannot read header '"@ + header@ + "' at '"@ + failure.path@ + "': "@
            + failure.message@,
        result.span == span,
{
    let mut text: Vec<char> = Vec::new();
    push_str(&mut text, "cannot read header '");
    push_str(&mut text, header);
    push_str(&mut text, "' at '");
    push_str(&mut text, failure.path.as_str());
    push_str(&mut text, "': ");
    push_str(&mut text, failure.message.as_str());
    PpDiagnostic {
        severity: PpSeverity::Error,
        code: "CCC1334",
        message: string_from_chars(text.as_slice()),
        span,
        category: PpDiagnosticCategory::General,
    }
}

} // verus!
