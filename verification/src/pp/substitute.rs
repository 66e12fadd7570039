//! Substitution of a function-like macro's arguments into its replacement
//! list: parameters, `#` stringizing, `##` pasting with placemarkers, and
//! `__VA_ARGS__` with GNU comma elision.
//!
//! The arguments that a parameter substitutes outside `#` and `##` are
//! macro-expanded first; that expansion is the caller's, which hands the
//! expanded arguments in, expanded in the order `prescan_order` gives.

use vstd::prelude::*;

use crate::pp::condition::{diagnostic_view, diagnostic_views, plain_error, DiagnosticView};
use crate::pp::diagnostic::{PpDiagnostic, PpDiagnosticCategory, PpSeverity};
use crate::pp::lexer::{lex, lex_source, normalize_options, unit_chars, LexOutcome, LexerOptions};
use crate::pp::macros::{
    argument_views, comma_at, escaped_spelling, is_literal_kind, parameter_index, string_seq,
    stringize, stringize_body, stringized, MacroDefinition,
};
use crate::pp::normalize::normalized_units;
use crate::pp::token::{
    copy_names, duplicate_token, names_in_both, identifier_name, token_fields, tokens_fields, PpToken, PpTokenKind, Span,
};
use crate::text::{char_utf8_width_exec, chars_of, push_str, str_eq, string_from_chars, utf8_len};

verus! {

/// Whether the UTF-8 encoding of `s` is shorter than `usize::MAX` bytes.
fn encoding_fits(s: &str) -> (result: bool)
    ensures
        result == (utf8_len(s@) < usize::MAX),
{
    let chars = chars_of(s);
    let mut total: u128 = 0;
    let mut i: usize = 0;
    assert(chars@.take(0) =~= Seq::<char>::empty());
    while i < chars.len()
        invariant
            i <= chars@.len(),
            chars@ == s@,
            total == utf8_len(chars@.take(i as int)),
            total <= 4 * i,
        decreases chars.len() - i,
    {
        assert(chars@.take(i + 1).drop_last() =~= chars@.take(i as int));
        total = total + char_utf8_width_exec(chars[i]) as u128;
        i = i + 1;
    }
    assert(chars@.take(chars@.len() as int) =~= chars@);
    total < usize::MAX as u128
}

/// The one token a pasted spelling lexes to: its class, spelling and
/// whether the lexer put it at a line start; `None` where the spelling
/// lexes to anything else or with an error.
pub open spec fn pasted_form(spelling: Seq<char>) -> Option<(PpTokenKind, Seq<char>, bool)> {
    let options = LexerOptions { trigraphs: false, warn_trigraphs: false };
    if utf8_len(spelling) >= usize::MAX {
        None
    } else {
        match lex_source(spelling, options) {
            LexOutcome::Lexed(ts, es) => if es.len() == 0 && ts.len() == 1 {
                Some(
                    (
                        ts[0].kind,
                        unit_chars(normalized_units(spelling, normalize_options(options))).subrange(
                            ts[0].start,
                            ts[0].end,
                        ),
                        ts[0].at_start_of_line,
                    ),
                )
            } else {
                None
            },
            LexOutcome::Fatal(_) => None,
        }
    }
}

/// Relexes a pasted spelling and accepts it only when it forms exactly one
/// token, placed at `reference`.
pub fn relex_one(reference: &PpToken, spelling: &str) -> (result: Option<PpToken>)
    ensures
        match pasted_form(spelling@) {
            Some((kind, text, at_start)) => result matches Some(t) && t.kind == kind && t.spelling@
                == text && t.at_start_of_line == at_start && t.span == reference.span
                && t.logical_line == reference.logical_line && t.is_system_header
                == reference.is_system_header,
            None => result is None,
        },
{
    if !encoding_fits(spelling) {
        return None;
    }
    match lex(0, spelling) {
        Ok(tokens) => {
            if tokens.len() != 1 {
                return None;
            }
            let t = &tokens[0];
            Some(
                PpToken {
                    kind: t.kind,
                    span: reference.span,
                    spelling: t.spelling.clone(),
                    leading_space: t.leading_space,
                    at_start_of_line: t.at_start_of_line,
                    logical_line: reference.logical_line,
                    is_system_header: reference.is_system_header,
                    hide_set: Vec::new(),
                    expansion_depth: 0,
                },
            )
        },
        Err(_) => None,
    }
}

/* The substitution, as values */

/// A token's fields: class, span, spelling, whitespace before it, line
/// start, line and system-header flag.
pub type TokenFields = (PpTokenKind, Span, Seq<char>, bool, bool, usize, bool);

/// What a substitution works on: the replacement list, the parameters,
/// whether the macro is variadic, the arguments as written and as
/// macro-expanded, whether the variadic argument was left out, the
/// invocation's name token, and whether GNU comma elision is on.
pub struct Substitution {
    pub replacement: Seq<PpToken>,
    pub parameters: Seq<Seq<char>>,
    pub variadic: bool,
    pub arguments: Seq<Seq<PpToken>>,
    pub expanded: Seq<Seq<PpToken>>,
    pub variadic_was_absent: bool,
    pub invocation: PpToken,
    pub gnu_comma_elision: bool,
}

pub open spec fn is_hash_spelling(s: Seq<char>) -> bool {
    s == "#"@ || s == "%:"@
}

pub open spec fn is_paste_spelling(s: Seq<char>) -> bool {
    s == "##"@ || s == "%:%:"@
}

/// The position of the first parameter named `name`.
pub open spec fn param_position(parameters: Seq<Seq<char>>, name: Seq<char>) -> Option<int>
    decreases parameters.len(),
{
    if parameters.len() == 0 {
        None
    } else if parameters[0] == name {
        Some(0)
    } else {
        match param_position(parameters.drop_first(), name) {
            Some(i) => Some(i + 1),
            None => None,
        }
    }
}

/// The parameter an identifier token names.
pub open spec fn token_param(c: Substitution, t: PpToken) -> Option<int> {
    if t.kind == PpTokenKind::Identifier {
        param_position(c.parameters, identifier_name(t))
    } else {
        None
    }
}

pub open spec fn is_va_args(c: Substitution, t: PpToken) -> bool {
    c.variadic && t.kind == PpTokenKind::Identifier && identifier_name(t) == "__VA_ARGS__"@
}

/// The arguments joined by commas made at `span`.
pub open spec fn join_fields(arguments: Seq<Seq<PpToken>>, span: Span) -> Seq<TokenFields>
    decreases arguments.len(),
{
    if arguments.len() == 0 {
        seq![]
    } else {
        let separator: Seq<TokenFields> = if arguments.len() > 1 {
            seq![comma_at(span)]
        } else {
            seq![]
        };
        join_fields(arguments.drop_last(), span) + separator + tokens_fields(arguments.last())
    }
}

/// The variadic arguments, as written or as expanded, joined.
pub open spec fn variadic_fields(c: Substitution, arguments: Seq<Seq<PpToken>>) -> Seq<TokenFields> {
    if arguments.len() > c.parameters.len() {
        join_fields(arguments.skip(c.parameters.len() as int), c.invocation.span)
    } else {
        seq![]
    }
}

pub open spec fn argument_fields(arguments: Seq<Seq<PpToken>>, i: int) -> Seq<TokenFields> {
    if 0 <= i < arguments.len() {
        tokens_fields(arguments[i])
    } else {
        seq![]
    }
}

/// The argument a `#` operand stands for, as written.
pub open spec fn raw_argument_of(c: Substitution, t: PpToken) -> Option<Seq<TokenFields>> {
    match token_param(c, t) {
        Some(i) => Some(argument_fields(c.arguments, i)),
        None => if is_va_args(c, t) {
            Some(variadic_fields(c, c.arguments))
        } else {
            None
        },
    }
}

/// `piece` placed at `span`.
pub open spec fn at_span(piece: Seq<TokenFields>, span: Span) -> Seq<TokenFields> {
    Seq::new(
        piece.len(),
        |k: int| (piece[k].0, span, piece[k].2, piece[k].3, piece[k].4, piece[k].5, piece[k].6),
    )
}

/// `piece` with its first token's whitespace flag set to `spaced`.
pub open spec fn first_spaced(piece: Seq<TokenFields>, spaced: bool) -> Seq<TokenFields> {
    if piece.len() > 0 {
        piece.update(0, (piece[0].0, piece[0].1, piece[0].2, spaced, piece[0].4, piece[0].5, piece[0].6))
    } else {
        piece
    }
}

pub open spec fn adjacent_to_paste(r: Seq<PpToken>, i: int) -> bool {
    (i > 0 && is_paste_spelling(r[i - 1].spelling@)) || (i + 1 < r.len() && is_paste_spelling(
        r[i + 1].spelling@,
    ))
}

/// What the replacement token at `i` contributes: a parameter's argument
/// (as written next to `##`, expanded elsewhere), the joined variadic
/// arguments for `__VA_ARGS__`, or the token itself.
pub open spec fn piece_at(c: Substitution, i: int) -> Seq<TokenFields> {
    let r = c.replacement;
    let t = r[i];
    let adjacent = adjacent_to_paste(r, i);
    match token_param(c, t) {
        Some(p) => first_spaced(
            at_span(
                if adjacent {
                    argument_fields(c.arguments, p)
                } else {
                    argument_fields(c.expanded, p)
                },
                c.invocation.span,
            ),
            t.leading_space,
        ),
        None => if is_va_args(c, t) {
            first_spaced(
                at_span(
                    if adjacent {
                        variadic_fields(c, c.arguments)
                    } else {
                        variadic_fields(c, c.expanded)
                    },
                    c.invocation.span,
                ),
                t.leading_space,
            )
        } else {
            seq![token_fields(t)]
        },
    }
}

/// The tokens' spellings as `#` joins them, over fields.
pub open spec fn stringize_fields(tokens: Seq<TokenFields>) -> Seq<char>
    decreases tokens.len(),
{
    if tokens.len() == 0 {
        seq![]
    } else {
        let t = tokens.last();
        stringize_fields(tokens.drop_last()) + (if tokens.len() > 1 && t.3 {
            seq![' ']
        } else {
            seq![]
        }) + escaped_spelling(t.2, is_literal_kind(t.0))
    }
}

pub open spec fn substitution_error(code: Seq<char>, message: Seq<char>, span: Span) -> DiagnosticView {
    DiagnosticView { code, message, span: Some(span) }
}

/// `piece` pasted onto the end of `out`: the last token and the first of
/// the piece relexed as one token; an empty side is a placemarker; a
/// spelling that does not lex to one token is reported and both are kept.
pub open spec fn paste_into(out: Seq<TokenFields>, piece: Seq<TokenFields>, inv: PpToken) -> (
    Seq<TokenFields>,
    Seq<DiagnosticView>,
) {
    if out.len() == 0 {
        (piece, seq![])
    } else if piece.len() == 0 {
        (out, seq![])
    } else {
        let left = out.last();
        let right = piece[0];
        match pasted_form(left.2 + right.2) {
            Some(form) => (
                out.drop_last().push(
                    (form.0, inv.span, form.1, left.3, form.2, inv.logical_line, inv.is_system_header),
                ) + piece.skip(1),
                seq![],
            ),
            None => (
                out + piece,
                seq![
                    substitution_error(
                        "CCC1108"@,
                        "pasting '"@ + left.2 + "' and '"@ + right.2
                            + "' does not form a preprocessing token"@,
                        inv.span,
                    ),
                ],
            ),
        }
    }
}

pub open spec fn append_piece_spec(
    out: Seq<TokenFields>,
    piece: Seq<TokenFields>,
    pending: bool,
    inv: PpToken,
) -> (Seq<TokenFields>, Seq<DiagnosticView>) {
    if pending {
        paste_into(out, piece, inv)
    } else {
        (out + piece, seq![])
    }
}

/// The substitution so far: the tokens made, whether a `##` waits for its
/// right operand, and the diagnostics.
pub type SubstitutionState = (Seq<TokenFields>, bool, Seq<DiagnosticView>);

/// One step over the replacement list at `i`, and where the next starts.
pub open spec fn substitution_step(c: Substitution, i: int, state: SubstitutionState) -> (
    SubstitutionState,
    int,
) {
    let r = c.replacement;
    let t = r[i];
    let (out, pending, diagnostics) = state;
    if is_hash_spelling(t.spelling@) {
        if i + 1 < r.len() && raw_argument_of(c, r[i + 1]) is Some {
            let string = (
                PpTokenKind::StringLiteral,
                c.invocation.span,
                seq!['"'] + stringize_fields(raw_argument_of(c, r[i + 1])->0) + seq!['"'],
                t.leading_space,
                false,
                1usize,
                false,
            );
            let appended = append_piece_spec(out, seq![string], pending, c.invocation);
            ((appended.0, false, diagnostics + appended.1), i + 2)
        } else {
            (
                (
                    out,
                    pending,
                    diagnostics.push(
                        substitution_error("CCC1106"@, "'#' must precede a macro parameter"@, t.span),
                    ),
                ),
                i + 1,
            )
        }
    } else if is_paste_spelling(t.spelling@) {
        (
            (
                out,
                true,
                if pending || i + 1 == r.len() {
                    diagnostics.push(
                        substitution_error("CCC1107"@, "'##' cannot appear at this position"@, t.span),
                    )
                } else {
                    diagnostics
                },
            ),
            i + 1,
        )
    } else {
        let piece = piece_at(c, i);
        if pending && c.gnu_comma_elision && t.kind == PpTokenKind::Identifier && identifier_name(t)
            == "__VA_ARGS__"@ && out.len() > 0 && out.last().2 == ","@ {
            (
                (
                    if c.variadic_was_absent {
                        out.drop_last()
                    } else {
                        out + piece
                    },
                    false,
                    diagnostics,
                ),
                i + 1,
            )
        } else {
            let appended = append_piece_spec(out, piece, pending, c.invocation);
            ((appended.0, false, diagnostics + appended.1), i + 1)
        }
    }
}

pub open spec fn substitution_scan(c: Substitution, i: int, state: SubstitutionState) -> SubstitutionState
    decreases c.replacement.len() - i,
{
    if i < 0 || i >= c.replacement.len() {
        state
    } else {
        let next = substitution_step(c, i, state);
        substitution_scan(c, next.1, next.0)
    }
}

/// The tokens at the invocation: its span, line and system-header flag on
/// every one, and its whitespace and line-start flags on the first.
pub open spec fn at_invocation(out: Seq<TokenFields>, inv: PpToken) -> Seq<TokenFields> {
    Seq::new(
        out.len(),
        |k: int|
            (
                out[k].0,
                inv.span,
                out[k].2,
                if k == 0 {
                    inv.leading_space
                } else {
                    out[k].3
                },
                if k == 0 {
                    inv.at_start_of_line
                } else {
                    out[k].4
                },
                inv.logical_line,
                inv.is_system_header,
            ),
    )
}

/// What substituting gives: the tokens at the invocation, and the
/// diagnostics, with a `##` left without its right operand reported last.
pub open spec fn substitution(c: Substitution) -> (Seq<TokenFields>, Seq<DiagnosticView>) {
    let done = substitution_scan(c, 0, (seq![], false, seq![]));
    (
        at_invocation(done.0, c.invocation),
        if done.1 {
            done.2.push(substitution_error("CCC1107"@, "'##' has no right operand"@, c.invocation.span))
        } else {
            done.2
        },
    )
}

/* Proofs about the values */

proof fn lemma_stringize_fields(tokens: Seq<PpToken>)
    ensures
        stringize_body(tokens) == stringize_fields(tokens_fields(tokens)),
    decreases tokens.len(),
{
    if tokens.len() > 0 {
        assert(tokens_fields(tokens.drop_last()) =~= tokens_fields(tokens).drop_last());
        lemma_stringize_fields(tokens.drop_last());
    }
}

proof fn lemma_param_position(parameters: Seq<Seq<char>>, name: Seq<char>)
    ensures
        param_position(parameters, name) matches Some(i) ==> 0 <= i < parameters.len()
            && parameters[i] == name && forall|j: int| 0 <= j < i ==> parameters[j] != name,
        param_position(parameters, name) is None ==> forall|j: int|
            0 <= j < parameters.len() ==> parameters[j] != name,
    decreases parameters.len(),
{
    if parameters.len() > 0 {
        lemma_param_position(parameters.drop_first(), name);
        assert forall|j: int| 0 < j < parameters.len() implies parameters[j] == parameters.drop_first()[j - 1] by {}
    }
}

/* Executable pieces */

/// The parameter an identifier token names.
fn param_of(t: &PpToken, parameters: &[String]) -> (result: Option<usize>)
    ensures
        match result {
            Some(i) => token_param_spec(string_seq(parameters@), *t) == Some(i as int),
            None => token_param_spec(string_seq(parameters@), *t) is None,
        },
{
    let r = parameter_index(t, parameters);
    proof {
        let names = string_seq(parameters@);
        lemma_param_position(names, identifier_name(*t));
        match r {
            Some(i) => {
                assert(names[i as int] == parameters@[i as int]@);
                match param_position(names, identifier_name(*t)) {
                    Some(k) => {
                        assert(names[k] == parameters@[k]@);
                    },
                    None => {},
                }
            },
            None => {
                if t.kind == PpTokenKind::Identifier {
                    match param_position(names, identifier_name(*t)) {
                        Some(k) => {
                            assert(names[k] == parameters@[k]@);
                        },
                        None => {},
                    }
                }
            },
        }
    }
    r
}

pub open spec fn token_param_spec(parameters: Seq<Seq<char>>, t: PpToken) -> Option<int> {
    if t.kind == PpTokenKind::Identifier {
        param_position(parameters, identifier_name(t))
    } else {
        None
    }
}

fn copy_at_span(source: &Vec<PpToken>, span: Span) -> (result: Vec<PpToken>)
    ensures
        tokens_fields(result@) == at_span(tokens_fields(source@), span),
{
    let mut out: Vec<PpToken> = Vec::new();
    let mut i: usize = 0;
    while i < source.len()
        invariant
            i <= source@.len(),
            tokens_fields(out@) == at_span(tokens_fields(source@.take(i as int)), span),
        decreases source.len() - i,
    {
        let t = &source[i];
        let ghost before = out@;
        out.push(
            PpToken {
                kind: t.kind,
                span,
                spelling: t.spelling.clone(),
                leading_space: t.leading_space,
                at_start_of_line: t.at_start_of_line,
                logical_line: t.logical_line,
                is_system_header: t.is_system_header,
                hide_set: copy_names(&t.hide_set),
                expansion_depth: t.expansion_depth,
            },
        );
        assert(tokens_fields(out@) =~= tokens_fields(before).push(token_fields(out@[i as int])));
        assert(tokens_fields(source@.take(i + 1)) =~= tokens_fields(source@.take(i as int)).push(
            token_fields(source@[i as int]),
        ));
        assert(tokens_fields(out@) =~= at_span(tokens_fields(source@.take(i + 1)), span));
        i = i + 1;
    }
    assert(source@.take(source@.len() as int) =~= source@);
    out
}

fn set_first_space(piece: &mut Vec<PpToken>, spaced: bool)
    ensures
        tokens_fields(final(piece)@) == first_spaced(tokens_fields(old(piece)@), spaced),
{
    if piece.len() > 0 {
        let t = &piece[0];
        let first = PpToken {
            kind: t.kind,
            span: t.span,
            spelling: t.spelling.clone(),
            leading_space: spaced,
            at_start_of_line: t.at_start_of_line,
            logical_line: t.logical_line,
            is_system_header: t.is_system_header,
            hide_set: copy_names(&t.hide_set),
            expansion_depth: t.expansion_depth,
        };
        let ghost before = piece@;
        piece.set(0, first);
        assert(tokens_fields(piece@) =~= first_spaced(tokens_fields(before), spaced));
    }
}

fn append_tokens(out: &mut Vec<PpToken>, tokens: &Vec<PpToken>, from: usize)
    requires
        from <= tokens@.len(),
    ensures
        tokens_fields(final(out)@) == tokens_fields(old(out)@) + tokens_fields(tokens@).skip(from as int),
{
    let ghost start = tokens_fields(out@);
    let mut i = from;
    assert(start + tokens_fields(tokens@).subrange(from as int, from as int) =~= start);
    while i < tokens.len()
        invariant
            from <= i <= tokens@.len(),
            tokens_fields(out@) == start + tokens_fields(tokens@).subrange(from as int, i as int),
        decreases tokens.len() - i,
    {
        let ghost before = out@;
        let copy = duplicate_token(&tokens[i]);
        out.push(copy);
        assert(tokens_fields(out@) =~= tokens_fields(before).push(token_fields(copy)));
        assert(tokens_fields(out@) =~= start + tokens_fields(tokens@).subrange(from as int, i + 1));
        i = i + 1;
    }
    assert(tokens_fields(tokens@).subrange(from as int, tokens@.len() as int) =~= tokens_fields(tokens@).skip(from as int));
}

/// The arguments from `from` on, joined by commas made at `span`.
fn join_from(arguments: &[Vec<PpToken>], from: usize, span: Span) -> (result: Vec<PpToken>)
    requires
        from <= arguments@.len(),
    ensures
        tokens_fields(result@) == join_fields(argument_views(arguments@).skip(from as int), span),
{
    let ghost all = argument_views(arguments@).skip(from as int);
    let mut out: Vec<PpToken> = Vec::new();
    let mut k = from;
    assert(all.take(0) =~= Seq::<Seq<PpToken>>::empty());
    assert(tokens_fields(out@) =~= seq![]);
    while k < arguments.len()
        invariant
            from <= k <= arguments@.len(),
            all == argument_views(arguments@).skip(from as int),
            tokens_fields(out@) == join_fields(all.take(k - from), span),
        decreases arguments.len() - k,
    {
        let ghost prefix = all.take(k + 1 - from);
        assert(prefix.drop_last() =~= all.take(k - from));
        assert(prefix.last() == arguments@[k as int]@);
        let ghost before = tokens_fields(out@);
        if k > from {
            out.push(PpToken::synthetic(PpTokenKind::Punctuator, span, ",".to_string()));
            proof {
                reveal_strlit(",");
            }
            assert(tokens_fields(out@) =~= before + seq![comma_at(span)]);
        }
        append_tokens(&mut out, &arguments[k], 0);
        assert(tokens_fields(arguments@[k as int]@).skip(0) =~= tokens_fields(arguments@[k as int]@));
        assert(tokens_fields(out@) =~= join_fields(prefix, span));
        k = k + 1;
    }
    assert(all.take(arguments@.len() - from) =~= all);
    out
}

pub(crate) fn substitution_diagnostic(code: &'static str, message: String, span: Span) -> (result: PpDiagnostic)
    ensures
        diagnostic_view(result) == substitution_error(code@, message@, span),
        plain_error(result),
{
    PpDiagnostic {
        severity: PpSeverity::Error,
        code,
        message,
        span: Some(span),
        category: PpDiagnosticCategory::General,
    }
}

/// Appends `piece` to `out`, pasting its first token onto the last of
/// `out` where a `##` is pending.
fn append_piece(out: &mut Vec<PpToken>, piece: Vec<PpToken>, pending: bool, invocation: &PpToken) -> (result:
    Vec<PpDiagnostic>)
    ensures
        (tokens_fields(final(out)@), diagnostic_views(result@)) == append_piece_spec(
            tokens_fields(old(out)@),
            tokens_fields(piece@),
            pending,
            *invocation,
        ),
        forall|k: int| 0 <= k < result@.len() ==> plain_error(#[trigger] result@[k]),
{
    let mut diagnostics: Vec<PpDiagnostic> = Vec::new();
    assert(diagnostic_views(diagnostics@) =~= seq![]);
    let ghost start = tokens_fields(out@);
    if !pending || out.len() == 0 {
        append_tokens(out, &piece, 0);
        assert(tokens_fields(piece@).skip(0) =~= tokens_fields(piece@));
        assert(start + tokens_fields(piece@) =~= tokens_fields(out@));
        return diagnostics;
    }
    if piece.len() == 0 {
        return diagnostics;
    }
    let last = out.len() - 1;
    let left = duplicate_token(&out[last]);
    let right = &piece[0];
    let mut joined: Vec<char> = Vec::new();
    push_str(&mut joined, left.spelling.as_str());
    push_str(&mut joined, right.spelling.as_str());
    let spelling = string_from_chars(joined.as_slice());
    assert(token_fields(left) == start.last());
    match relex_one(invocation, spelling.as_str()) {
        Some(pasted) => {
            let token = PpToken {
                kind: pasted.kind,
                span: pasted.span,
                spelling: pasted.spelling,
                leading_space: left.leading_space,
                at_start_of_line: pasted.at_start_of_line,
                logical_line: pasted.logical_line,
                is_system_header: pasted.is_system_header,
                hide_set: names_in_both(&left.hide_set, &right.hide_set),
                expansion_depth: if left.expansion_depth >= right.expansion_depth {
                    left.expansion_depth
                } else {
                    right.expansion_depth
                },
            };
            out.set(last, token);
            assert(tokens_fields(out@) =~= start.drop_last().push(token_fields(token)));
            append_tokens(out, &piece, 1);
        },
        None => {
            let mut message: Vec<char> = Vec::new();
            push_str(&mut message, "pasting '");
            push_str(&mut message, left.spelling.as_str());
            push_str(&mut message, "' and '");
            push_str(&mut message, right.spelling.as_str());
            push_str(&mut message, "' does not form a preprocessing token");
            diagnostics.push(
                substitution_diagnostic("CCC1108", string_from_chars(message.as_slice()), invocation.span),
            );
            assert(diagnostic_views(diagnostics@) =~= seq![
                substitution_error(
                    "CCC1108"@,
                    "pasting '"@ + left.spelling@ + "' and '"@ + right.spelling@
                        + "' does not form a preprocessing token"@,
                    invocation.span,
                ),
            ]);
            append_tokens(out, &piece, 0);
            assert(tokens_fields(piece@).skip(0) =~= tokens_fields(piece@));
        },
    }
    diagnostics
}

/* Substitution */

/// What a substitution works on, from its executable inputs.
pub open spec fn substitution_of(
    definition: MacroDefinition,
    parameters: Seq<String>,
    variadic: bool,
    arguments: Seq<Vec<PpToken>>,
    expanded: Seq<Vec<PpToken>>,
    variadic_was_absent: bool,
    invocation: PpToken,
    gnu_comma_elision: bool,
) -> Substitution {
    Substitution {
        replacement: definition.replacement@,
        parameters: string_seq(parameters),
        variadic,
        arguments: argument_views(arguments),
        expanded: argument_views(expanded),
        variadic_was_absent,
        invocation,
        gnu_comma_elision,
    }
}

fn is_va_args_exec(variadic: bool, t: &PpToken) -> (result: bool)
    ensures
        result == (variadic && t.kind == PpTokenKind::Identifier && identifier_name(*t) == "__VA_ARGS__"@),
{
    variadic && t.kind == PpTokenKind::Identifier && str_eq(t.identifier_key().as_str(), "__VA_ARGS__")
}

fn argument_copy(arguments: &[Vec<PpToken>], p: usize, span: Option<Span>) -> (result: Vec<PpToken>)
    ensures
        tokens_fields(result@) == match span {
            Some(at) => at_span(argument_fields(argument_views(arguments@), p as int), at),
            None => argument_fields(argument_views(arguments@), p as int),
        },
{
    let mut out: Vec<PpToken> = Vec::new();
    if p < arguments.len() {
        assert(argument_views(arguments@)[p as int] == arguments@[p as int]@);
        match span {
            Some(at) => {
                out = copy_at_span(&arguments[p], at);
            },
            None => {
                append_tokens(&mut out, &arguments[p], 0);
                assert(tokens_fields(arguments@[p as int]@).skip(0) =~= tokens_fields(arguments@[p as int]@));
                assert(tokens_fields(out@) =~= tokens_fields(arguments@[p as int]@));
            },
        }
    } else {
        assert(tokens_fields(out@) =~= seq![]);
        assert(at_span(seq![], Span { file: 0, start: 0, end: 0 }) =~= seq![]);
        match span {
            Some(at) => {
                assert(at_span(seq![], at) =~= seq![]);
            },
            None => {},
        }
    }
    out
}

fn variadic_copy(arguments: &[Vec<PpToken>], fixed: usize, invocation: &PpToken, span: Option<Span>) -> (result: Vec<PpToken>)
    ensures
        ({
            let joined = if arguments@.len() > fixed {
                join_fields(argument_views(arguments@).skip(fixed as int), invocation.span)
            } else {
                seq![]
            };
            tokens_fields(result@) == match span {
                Some(at) => at_span(joined, at),
                None => joined,
            }
        }),
{
    if arguments.len() > fixed {
        let joined = join_from(arguments, fixed, invocation.span);
        match span {
            Some(at) => copy_at_span(&joined, at),
            None => joined,
        }
    } else {
        let out: Vec<PpToken> = Vec::new();
        assert(tokens_fields(out@) =~= seq![]);
        match span {
            Some(at) => {
                assert(at_span(seq![], at) =~= seq![]);
            },
            None => {},
        }
        out
    }
}

/// Substitutes the arguments of an invocation into the replacement list of
/// `definition`. `expanded` holds each argument macro-expanded; only those
/// of parameters used outside `#` and `##` are read. The tokens come at the
/// invocation's place; `#` without a parameter, a misplaced `##` and a
/// paste that does not form one token are reported.
pub fn substitute(
    definition: &MacroDefinition,
    parameters: &[String],
    variadic: bool,
    arguments: &[Vec<PpToken>],
    expanded: &[Vec<PpToken>],
    variadic_was_absent: bool,
    invocation: &PpToken,
    gnu_comma_elision: bool,
) -> (result: (Vec<PpToken>, Vec<PpDiagnostic>))
    requires
        expanded@.len() == arguments@.len(),
    ensures
        (tokens_fields(result.0@), diagnostic_views(result.1@)) == substitution(
            substitution_of(
                *definition,
                parameters@,
                variadic,
                arguments@,
                expanded@,
                variadic_was_absent,
                *invocation,
                gnu_comma_elision,
            ),
        ),
        forall|k: int| 0 <= k < result.1@.len() ==> plain_error(#[trigger] result.1@[k]),
{
    let ghost c = substitution_of(
        *definition,
        parameters@,
        variadic,
        arguments@,
        expanded@,
        variadic_was_absent,
        *invocation,
        gnu_comma_elision,
    );
    let replacement = &definition.replacement;
    let fixed = parameters.len();
    let mut out: Vec<PpToken> = Vec::new();
    let mut pending = false;
    let mut diagnostics: Vec<PpDiagnostic> = Vec::new();
    let mut i: usize = 0;
    assert(tokens_fields(out@) =~= seq![]);
    assert(diagnostic_views(diagnostics@) =~= seq![]);
    while i < replacement.len()
        invariant
            i <= replacement@.len(),
            c == substitution_of(
                *definition,
                parameters@,
                variadic,
                arguments@,
                expanded@,
                variadic_was_absent,
                *invocation,
                gnu_comma_elision,
            ),
            expanded@.len() == arguments@.len(),
            fixed == parameters@.len(),
            replacement@ == c.replacement,
            substitution_scan(c, 0, (seq![], false, seq![])) == substitution_scan(
                c,
                i as int,
                (tokens_fields(out@), pending, diagnostic_views(diagnostics@)),
            ),
            forall|k: int| 0 <= k < diagnostics@.len() ==> plain_error(#[trigger] diagnostics@[k]),
        decreases replacement.len() - i,
    {
        let ghost state = (tokens_fields(out@), pending, diagnostic_views(diagnostics@));
        let ghost before_diagnostics = diagnostics@;
        let t = &replacement[i];
        let spelling = t.spelling.as_str();
        let mut advance: usize = i + 1;
        if str_eq(spelling, "#") || str_eq(spelling, "%:") {
            let mut operand: Option<Vec<PpToken>> = None;
            if i + 1 < replacement.len() {
                let next = &replacement[i + 1];
                match param_of(next, parameters) {
                    Some(p) => {
                        operand = Some(argument_copy(arguments, p, None));
                    },
                    None => {
                        if is_va_args_exec(variadic, next) {
                            operand = Some(variadic_copy(arguments, fixed, invocation, None));
                        }
                    },
                }
            }
            match operand {
                Some(argument) => {
                    let text = stringize(argument.as_slice());
                    proof {
                        lemma_stringize_fields(argument@);
                    }
                    let string = PpToken {
                        kind: PpTokenKind::StringLiteral,
                        span: invocation.span,
                        spelling: text,
                        leading_space: t.leading_space,
                        at_start_of_line: false,
                        logical_line: 1,
                        is_system_header: false,
                        hide_set: Vec::new(),
                        expansion_depth: 0,
                    };
                    let piece = vec![string];
                    assert(tokens_fields(piece@) =~= seq![token_fields(string)]);
                    let mut more = append_piece(&mut out, piece, pending, invocation);
                    let ghost added = more@;
                    diagnostics.append(&mut more);
                    assert(diagnostic_views(diagnostics@) =~= diagnostic_views(before_diagnostics)
                        + diagnostic_views(added));
                    pending = false;
                    advance = i + 2;
                },
                None => {
                    diagnostics.push(
                        substitution_diagnostic(
                            "CCC1106",
                            "'#' must precede a macro parameter".to_string(),
                            t.span,
                        ),
                    );
                    assert(diagnostic_views(diagnostics@) =~= diagnostic_views(before_diagnostics).push(
                        substitution_error("CCC1106"@, "'#' must precede a macro parameter"@, t.span),
                    ));
                },
            }
        } else if str_eq(spelling, "##") || str_eq(spelling, "%:%:") {
            if pending || i + 1 == replacement.len() {
                diagnostics.push(
                    substitution_diagnostic(
                        "CCC1107",
                        "'##' cannot appear at this position".to_string(),
                        t.span,
                    ),
                );
                assert(diagnostic_views(diagnostics@) =~= diagnostic_views(before_diagnostics).push(
                    substitution_error("CCC1107"@, "'##' cannot appear at this position"@, t.span),
                ));
            }
            pending = true;
        } else {
            let adjacent = (i > 0 && (str_eq(replacement[i - 1].spelling.as_str(), "##") || str_eq(
                replacement[i - 1].spelling.as_str(),
                "%:%:",
            ))) || (i + 1 < replacement.len() && (str_eq(replacement[i + 1].spelling.as_str(), "##")
                || str_eq(replacement[i + 1].spelling.as_str(), "%:%:")));
            assert(adjacent == adjacent_to_paste(c.replacement, i as int));
            let mut piece: Vec<PpToken> = match param_of(t, parameters) {
                Some(p) => {
                    let mut copied = if adjacent {
                        argument_copy(arguments, p, Some(invocation.span))
                    } else {
                        argument_copy(expanded, p, Some(invocation.span))
                    };
                    set_first_space(&mut copied, t.leading_space);
                    copied
                },
                None => {
                    if is_va_args_exec(variadic, t) {
                        let mut copied = if adjacent {
                            variadic_copy(arguments, fixed, invocation, Some(invocation.span))
                        } else {
                            variadic_copy(expanded, fixed, invocation, Some(invocation.span))
                        };
                        set_first_space(&mut copied, t.leading_space);
                        copied
                    } else {
                        let single = vec![duplicate_token(t)];
                        assert(tokens_fields(single@) =~= seq![token_fields(*t)]);
                        single
                    }
                },
            };
            assert(tokens_fields(piece@) == piece_at(c, i as int));
            let elide = pending && gnu_comma_elision && t.kind == PpTokenKind::Identifier && str_eq(
                t.identifier_key().as_str(),
                "__VA_ARGS__",
            ) && out.len() > 0 && str_eq(out[out.len() - 1].spelling.as_str(), ",");
            if elide {
                if variadic_was_absent {
                    let ghost before = out@;
                    out.pop();
                    assert(tokens_fields(out@) =~= tokens_fields(before).drop_last());
                } else {
                    append_tokens(&mut out, &piece, 0);
                    assert(tokens_fields(piece@).skip(0) =~= tokens_fields(piece@));
                }
            } else {
                let mut more = append_piece(&mut out, piece, pending, invocation);
                let ghost added = more@;
                diagnostics.append(&mut more);
                assert(diagnostic_views(diagnostics@) =~= diagnostic_views(before_diagnostics)
                    + diagnostic_views(added));
            }
            pending = false;
        }
        assert(substitution_step(c, i as int, state) == (
            (tokens_fields(out@), pending, diagnostic_views(diagnostics@)),
            advance as int,
        ));
        i = advance;
    }
    if pending {
        diagnostics.push(
            substitution_diagnostic("CCC1107", "'##' has no right operand".to_string(), invocation.span),
        );
    }
    let ghost done = tokens_fields(out@);
    let mut placed: Vec<PpToken> = Vec::new();
    let mut k: usize = 0;
    while k < out.len()
        invariant
            k <= out@.len(),
            done == tokens_fields(out@),
            tokens_fields(placed@) == at_invocation(done, *invocation).take(k as int),
        decreases out.len() - k,
    {
        let t = &out[k];
        let ghost before = placed@;
        let token = PpToken {
            kind: t.kind,
            span: invocation.span,
            spelling: t.spelling.clone(),
            leading_space: if k == 0 {
                invocation.leading_space
            } else {
                t.leading_space
            },
            at_start_of_line: if k == 0 {
                invocation.at_start_of_line
            } else {
                t.at_start_of_line
            },
            logical_line: invocation.logical_line,
            is_system_header: invocation.is_system_header,
            hide_set: copy_names(&t.hide_set),
            expansion_depth: t.expansion_depth,
        };
        placed.push(token);
        assert(tokens_fields(placed@) =~= tokens_fields(before).push(token_fields(token)));
        assert(tokens_fields(placed@) =~= at_invocation(done, *invocation).take(k + 1));
        k = k + 1;
    }
    assert(at_invocation(done, *invocation).take(out@.len() as int) =~= at_invocation(done, *invocation));
    (placed, diagnostics)
}

/* Which arguments are expanded first */

pub open spec fn add_once(order: Seq<int>, p: int) -> Seq<int> {
    if order.contains(p) {
        order
    } else {
        order.push(p)
    }
}

/// `order` with the indices `from..to` added, each once, in index order.
pub open spec fn add_range(order: Seq<int>, from: int, to: int) -> Seq<int>
    decreases to - from,
{
    if from >= to {
        order
    } else {
        add_range(add_once(order, from), from + 1, to)
    }
}

/// One step of the prescan walk: a parameter used outside `#` and `##`
/// asks for its argument's expansion, `__VA_ARGS__` for each variadic
/// argument's; the operand of `#` is skipped.
pub open spec fn prescan_step(c: Substitution, i: int, order: Seq<int>) -> (Seq<int>, int) {
    let r = c.replacement;
    let t = r[i];
    if is_hash_spelling(t.spelling@) {
        if i + 1 < r.len() && raw_argument_of(c, r[i + 1]) is Some {
            (order, i + 2)
        } else {
            (order, i + 1)
        }
    } else if is_paste_spelling(t.spelling@) || adjacent_to_paste(r, i) {
        (order, i + 1)
    } else {
        match token_param(c, t) {
            Some(p) => (add_once(order, p), i + 1),
            None => if is_va_args(c, t) {
                (add_range(order, c.parameters.len() as int, c.arguments.len() as int), i + 1)
            } else {
                (order, i + 1)
            },
        }
    }
}

/// What the prescan walk reads of a substitution: the replacement list, the
/// parameters and the arguments; no expansion and no invocation yet.
pub open spec fn prescan_context(
    definition: MacroDefinition,
    parameters: Seq<String>,
    variadic: bool,
    arguments: Seq<Vec<PpToken>>,
) -> Substitution {
    substitution_of(definition, parameters, variadic, arguments, arguments, false, arbitrary(), false)
}

pub open spec fn prescan_scan(c: Substitution, i: int, order: Seq<int>) -> Seq<int>
    decreases c.replacement.len() - i,
{
    if i < 0 || i >= c.replacement.len() {
        order
    } else {
        let next = prescan_step(c, i, order);
        prescan_scan(c, next.1, next.0)
    }
}

fn contains_index(order: &Vec<usize>, p: usize) -> (result: bool)
    ensures
        result == order@.map_values(|k: usize| k as int).contains(p as int),
{
    let mut j: usize = 0;
    while j < order.len()
        invariant
            j <= order@.len(),
            forall|k: int| 0 <= k < j ==> order@[k] != p,
        decreases order.len() - j,
    {
        if order[j] == p {
            assert(order@.map_values(|k: usize| k as int)[j as int] == p as int);
            return true;
        }
        j = j + 1;
    }
    proof {
        if order@.map_values(|k: usize| k as int).contains(p as int) {
            let view = order@.map_values(|q: usize| q as int);
            let k = choose|k: int| 0 <= k < view.len() && #[trigger] view[k] == p as int;
            assert(order@[k] == p);
        }
    }
    false
}

fn push_once(order: &mut Vec<usize>, p: usize)
    ensures
        final(order)@.map_values(|k: usize| k as int) == add_once(
            old(order)@.map_values(|k: usize| k as int),
            p as int,
        ),
{
    let ghost before = order@;
    if !contains_index(order, p) {
        order.push(p);
        assert(order@.map_values(|k: usize| k as int) =~= before.map_values(|k: usize| k as int).push(p as int));
    }
}

/// The arguments the substitution expands, in the order it first asks for
/// each; the caller expands them in this order, so that macros such as
/// `__COUNTER__` count as they would.
pub fn prescan_order(
    definition: &MacroDefinition,
    parameters: &[String],
    variadic: bool,
    arguments: &[Vec<PpToken>],
) -> (result: Vec<usize>)
    ensures
        result@.map_values(|k: usize| k as int) == prescan_scan(
            prescan_context(*definition, parameters@, variadic, arguments@),
            0,
            seq![],
        ),
{
    let ghost c = prescan_context(*definition, parameters@, variadic, arguments@);
    let replacement = &definition.replacement;
    let fixed = parameters.len();
    let mut order: Vec<usize> = Vec::new();
    let mut i: usize = 0;
    assert(order@.map_values(|k: usize| k as int) =~= seq![]);
    while i < replacement.len()
        invariant
            i <= replacement@.len(),
            replacement@ == c.replacement,
            c == prescan_context(*definition, parameters@, variadic, arguments@),
            fixed == parameters@.len(),
            prescan_scan(c, 0, seq![]) == prescan_scan(c, i as int, order@.map_values(|k: usize| k as int)),
        decreases replacement.len() - i,
    {
        let ghost view = order@.map_values(|k: usize| k as int);
        let t = &replacement[i];
        let spelling = t.spelling.as_str();
        let mut advance = i + 1;
        if str_eq(spelling, "#") || str_eq(spelling, "%:") {
            if i + 1 < replacement.len() {
                let next = &replacement[i + 1];
                let operand = match param_of(next, parameters) {
                    Some(_) => true,
                    None => is_va_args_exec(variadic, next),
                };
                if operand {
                    advance = i + 2;
                }
            }
        } else {
            let adjacent = (str_eq(spelling, "##") || str_eq(spelling, "%:%:")) || (i > 0 && (str_eq(
                replacement[i - 1].spelling.as_str(),
                "##",
            ) || str_eq(replacement[i - 1].spelling.as_str(), "%:%:"))) || (i + 1 < replacement.len()
                && (str_eq(replacement[i + 1].spelling.as_str(), "##") || str_eq(
                replacement[i + 1].spelling.as_str(),
                "%:%:",
            )));
            if !adjacent {
                match param_of(t, parameters) {
                    Some(p) => push_once(&mut order, p),
                    None => {
                        if is_va_args_exec(variadic, t) {
                            let mut q = fixed;
                            while q < arguments.len()
                                invariant
                                    fixed <= q <= arguments@.len() || (q == fixed && arguments@.len() < fixed),
                                    add_range(view, fixed as int, arguments@.len() as int) == add_range(
                                        order@.map_values(|k: usize| k as int),
                                        q as int,
                                        arguments@.len() as int,
                                    ),
                                decreases arguments.len() - q,
                            {
                                push_once(&mut order, q);
                                q = q + 1;
                            }
                        }
                    },
                }
            }
        }
        assert(prescan_step(c, i as int, view) == (order@.map_values(|k: usize| k as int), advance as int));
        i = advance;
    }
    order
}

} // verus!
