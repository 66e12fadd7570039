//! Macro expansion of a token sequence, one step at a time. Each step looks
//! at the next token and emits it, puts an object-like macro's replacement
//! in its place to be rescanned, or hands back a function-like invocation
//! whose arguments are expanded before it is completed. A token carries the
//! names of the macros whose expansion produced it, and is never expanded
//! as one of them again.

use vstd::prelude::*;

use crate::pp::arguments::{argument_fields, collected_arguments, parse_arguments, ArgumentsOutcome};
use crate::pp::condition::{diagnostic_view, diagnostic_views, plain_error};
use crate::pp::diagnostic::PpDiagnostic;
use crate::pp::dynamic::{dynamic_replacement, expand_dynamic};
use crate::pp::macros::{MacroDefinition, MacroForm, MacroTable};
use crate::pp::substitute::{
    at_invocation, substitute, substitution, substitution_diagnostic, substitution_error,
    substitution_of, TokenFields,
};
use crate::pp::token::{
    copy_names, duplicate_token, has_name, identifier_name, name_view, names_in_both, token_fields,
    tokens_fields, PpToken, PpTokenKind,
};
use crate::text::str_eq;

verus! {

/// Whether `t` may no longer be expanded as the macro `name`.
pub open spec fn hides(t: PpToken, name: Seq<char>) -> bool {
    name_view(t.hide_set@).contains(name)
}

/// One more than `d`, stopping at the largest depth.
pub open spec fn deeper(d: usize) -> usize {
    if d == usize::MAX {
        d
    } else {
        (d + 1) as usize
    }
}

pub open spec fn larger(a: usize, b: usize) -> usize {
    if a >= b {
        a
    } else {
        b
    }
}

/// `a` is a copy of `b`, hidden set and depth included.
pub open spec fn copied(a: PpToken, b: PpToken) -> bool {
    token_fields(a) == token_fields(b) && a.hide_set@ == b.hide_set@ && a.expansion_depth
        == b.expansion_depth
}

/// The names of `a` and of `b`.
pub fn union_names(a: &Vec<String>, b: &Vec<String>) -> (result: Vec<String>)
    ensures
        name_view(result@) == name_view(a@).union(name_view(b@)),
{
    let mut all = copy_names(a);
    let mut i: usize = 0;
    while i < b.len()
        invariant
            i <= b@.len(),
            name_view(all@) == name_view(a@).union(name_view(b@.take(i as int))),
        decreases b.len() - i,
    {
        let ghost before = all@;
        if !has_name(&all, b[i].as_str()) {
            all.push(b[i].clone());
        }
        assert(name_view(all@) =~= name_view(a@).union(name_view(b@.take(i + 1)))) by {
            assert forall|n: Seq<char>| name_view(all@).contains(n) <==> name_view(a@).union(
                name_view(b@.take(i + 1)),
            ).contains(n) by {
                if name_view(all@).contains(n) {
                    let j = choose|j: int| 0 <= j < all@.len() && (#[trigger] all@[j])@ == n;
                    if j < before.len() {
                        assert(name_view(before).contains(n));
                        if name_view(b@.take(i as int)).contains(n) {
                            let k = choose|k: int| 0 <= k < i && (#[trigger] b@.take(i as int)[k])@ == n;
                            assert(b@.take(i + 1)[k] == b@.take(i as int)[k]);
                        }
                    } else {
                        assert(b@.take(i + 1)[i as int] == b@[i as int]);
                    }
                }
                if name_view(b@.take(i + 1)).contains(n) {
                    let k = choose|k: int| 0 <= k < i + 1 && (#[trigger] b@.take(i + 1)[k])@ == n;
                    if k < i {
                        assert(b@.take(i as int)[k] == b@.take(i + 1)[k]);
                        assert(name_view(b@.take(i as int)).contains(n));
                        assert(name_view(before).contains(n));
                        let j = choose|j: int| 0 <= j < before.len() && (#[trigger] before[j])@ == n;
                        assert(all@[j] == before[j]);
                    } else {
                        assert(b@.take(i + 1)[k] == b@[i as int]);
                        if !name_view(before).contains(n) {
                            assert(all@[before.len() as int]@ == n);
                        } else {
                            let j = choose|j: int| 0 <= j < before.len() && (#[trigger] before[j])@ == n;
                            assert(all@[j] == before[j]);
                        }
                    }
                }
                if name_view(a@).contains(n) {
                    assert(name_view(before).contains(n));
                    let j = choose|j: int| 0 <= j < before.len() && (#[trigger] before[j])@ == n;
                    assert(all@[j] == before[j]);
                }
            }
        }
        i = i + 1;
    }
    assert(b@.take(b@.len() as int) =~= b@);
    all
}

/// `after` is `before` with each token also hidden from the names of
/// `hidden`, and at least `depth` deep.
pub open spec fn suppressed(before: Seq<PpToken>, after: Seq<PpToken>, hidden: Set<Seq<char>>, depth: usize) -> bool {
    &&& after.len() == before.len()
    &&& tokens_fields(after) == tokens_fields(before)
    &&& forall|k: int|
        0 <= k < before.len() ==> name_view((#[trigger] after[k]).hide_set@) == name_view(
            before[k].hide_set@,
        ).union(hidden) && after[k].expansion_depth == larger(before[k].expansion_depth, depth)
}

/// Hides each of `tokens` from the names of `hidden` and makes it at least
/// `depth` deep.
pub fn suppress_expansion(tokens: Vec<PpToken>, hidden: &Vec<String>, depth: usize) -> (result: Vec<PpToken>)
    ensures
        suppressed(tokens@, result@, name_view(hidden@), depth),
{
    let mut out: Vec<PpToken> = Vec::new();
    let mut i: usize = 0;
    assert(tokens_fields(out@) =~= tokens_fields(tokens@.take(0)));
    while i < tokens.len()
        invariant
            i <= tokens@.len(),
            suppressed(tokens@.take(i as int), out@, name_view(hidden@), depth),
        decreases tokens.len() - i,
    {
        let t = &tokens[i];
        let ghost before = out@;
        let token = PpToken {
            kind: t.kind,
            span: t.span,
            spelling: t.spelling.clone(),
            leading_space: t.leading_space,
            at_start_of_line: t.at_start_of_line,
            logical_line: t.logical_line,
            is_system_header: t.is_system_header,
            hide_set: union_names(&t.hide_set, hidden),
            expansion_depth: if t.expansion_depth >= depth {
                t.expansion_depth
            } else {
                depth
            },
        };
        out.push(token);
        assert(tokens_fields(out@) =~= tokens_fields(before).push(token_fields(token)));
        assert(tokens@.take(i + 1).drop_last() =~= tokens@.take(i as int));
        assert(tokens_fields(tokens@.take(i + 1)) =~= tokens_fields(tokens@.take(i as int)).push(
            token_fields(tokens@[i as int]),
        ));
        assert forall|k: int| 0 <= k < i + 1 implies name_view((#[trigger] out@[k]).hide_set@) == name_view(
            tokens@.take(i + 1)[k].hide_set@,
        ).union(name_view(hidden@)) && out@[k].expansion_depth == larger(
            tokens@.take(i + 1)[k].expansion_depth,
            depth,
        ) by {
            if k < i {
                assert(out@[k] == before[k]);
                assert(tokens@.take(i + 1)[k] == tokens@.take(i as int)[k]);
            }
        }
        i = i + 1;
    }
    assert(tokens@.take(tokens@.len() as int) =~= tokens@);
    out
}

/// The replacement list of a macro placed at its invocation `invocation`:
/// each token at the invocation's place and line, the first with the
/// invocation's spacing.
pub open spec fn placed_at(replacement: Seq<PpToken>, placed: Seq<PpToken>, invocation: PpToken) -> bool {
    &&& placed.len() == replacement.len()
    &&& tokens_fields(placed) == at_invocation(tokens_fields(replacement), invocation)
    &&& forall|k: int|
        0 <= k < replacement.len() ==> (#[trigger] placed[k]).hide_set@ == replacement[k].hide_set@
            && placed[k].expansion_depth == replacement[k].expansion_depth
}

/// Places the replacement list `replacement` at `invocation`.
pub fn invocation_tokens(replacement: &Vec<PpToken>, invocation: &PpToken) -> (result: Vec<PpToken>)
    ensures
        placed_at(replacement@, result@, *invocation),
{
    let mut out: Vec<PpToken> = Vec::new();
    let mut k: usize = 0;
    while k < replacement.len()
        invariant
            k <= replacement@.len(),
            out@.len() == k,
            tokens_fields(out@) == at_invocation(tokens_fields(replacement@), *invocation).take(k as int),
            forall|j: int|
                0 <= j < k ==> (#[trigger] out@[j]).hide_set@ == replacement@[j].hide_set@
                    && out@[j].expansion_depth == replacement@[j].expansion_depth,
        decreases replacement.len() - k,
    {
        let t = &replacement[k];
        let ghost before = out@;
        let token = PpToken {
            kind: t.kind,
            span: invocation.span,
            spelling: t.spelling.clone(),
            leading_space: if k == 0 {
                invocation.leading_space
            } else {
                t.leading_space
            },
            at_start_of_line: if k == 0 {
                invocation.at_start_of_line
            } else {
                t.at_start_of_line
            },
            logical_line: invocation.logical_line,
            is_system_header: invocation.is_system_header,
            hide_set: copy_names(&t.hide_set),
            expansion_depth: t.expansion_depth,
        };
        out.push(token);
        assert(tokens_fields(out@) =~= tokens_fields(before).push(token_fields(token)));
        assert(tokens_fields(out@) =~= at_invocation(tokens_fields(replacement@), *invocation).take(k + 1));
        k = k + 1;
    }
    assert(at_invocation(tokens_fields(replacement@), *invocation).take(replacement@.len() as int)
        =~= at_invocation(tokens_fields(replacement@), *invocation));
    out
}

/* One step of expansion */

/// The limits and settings an expansion runs with.
pub struct ExpansionSettings {
    /// How deep a token may be and still be expanded.
    pub expansion_depth: usize,
    /// How deep parentheses may nest in macro arguments.
    pub argument_depth: usize,
    /// How many tokens an expansion may emit.
    pub output_tokens: usize,
    /// What `__FILE__` names.
    pub logical_file: String,
    /// Whether the tokens come from a system header.
    pub is_system_header: bool,
    /// What `__DATE__` and `__TIME__` stand for.
    pub date: String,
    pub time: String,
    /// Whether `, ## __VA_ARGS__` drops the comma when no variadic
    /// argument was given.
    pub gnu_comma_elision: bool,
}

/// A sequence being expanded: the stream, with the next token at `index`,
/// and what has been emitted.
pub struct SequenceExpansion {
    pub stream: Vec<PpToken>,
    pub index: usize,
    pub output: Vec<PpToken>,
    /// Whether the output ends with the name of a function-like macro that
    /// a `(` after the sequence could still invoke.
    pub trailing: bool,
}

impl SequenceExpansion {
    /// The start of expanding `tokens`.
    pub fn new(tokens: Vec<PpToken>) -> (result: Self)
        ensures
            result.stream@ == tokens@,
            result.index == 0,
            result.output@.len() == 0,
            !result.trailing,
    {
        SequenceExpansion { stream: tokens, index: 0, output: Vec::new(), trailing: false }
    }
}

/// A function-like invocation whose arguments are collected: they are
/// expanded, then the invocation is completed.
pub struct PendingInvocation {
    pub definition: MacroDefinition,
    pub parameters: Vec<String>,
    pub variadic: bool,
    pub arguments: Vec<Vec<PpToken>>,
    /// The index past the closing parenthesis.
    pub end: usize,
    pub variadic_was_absent: bool,
    /// The macro name token.
    pub invocation: PpToken,
    /// What the replacement is hidden from.
    pub hide_set: Vec<String>,
    /// How deep the replacement is.
    pub depth: usize,
}

/// What a step did.
pub enum ExpansionStep {
    /// Every token has been dealt with.
    Finished,
    /// The token limit is reached; the expansion stops.
    Stopped,
    /// A token was emitted, or a macro was expanded in place.
    Advanced,
    /// A function-like invocation waits for its arguments' expansion.
    Invocation(PendingInvocation),
}

/// What the next step does.
pub enum StepKind {
    Finished,
    Limit,
    Emit,
    DepthError,
    Dynamic,
    Object(MacroDefinition),
    NoParenthesis,
    BadArguments,
    Invoke(MacroDefinition),
}

/// The next token's treatment: emitted when it is no identifier, or is
/// hidden from its own name, or names no macro; an error when it is too
/// deep; a dynamic macro's value; an object-like macro's replacement; a
/// function-like macro's invocation where `(` follows and the arguments
/// can be collected.
pub open spec fn step_kind(table: MacroTable, s: SequenceExpansion, emitted: usize, settings: ExpansionSettings) -> StepKind {
    if s.index >= s.stream@.len() {
        StepKind::Finished
    } else if emitted >= settings.output_tokens {
        StepKind::Limit
    } else {
        let t = s.stream@[s.index as int];
        let name = identifier_name(t);
        if t.kind != PpTokenKind::Identifier || hides(t, name) {
            StepKind::Emit
        } else if t.expansion_depth > settings.expansion_depth {
            StepKind::DepthError
        } else if table.dynamic_available(name) && dynamic_replacement(
            name,
            t.logical_line,
            settings.logical_file@,
            settings.date@,
            settings.time@,
            table.counter_value(),
        ) is Some {
            StepKind::Dynamic
        } else {
            match table.definition(name) {
                None => StepKind::Emit,
                Some(d) => match d.form {
                    MacroForm::Object => StepKind::Object(d),
                    MacroForm::Function { parameters, variadic } => if !(s.index + 1 < s.stream@.len()
                        && s.stream@[s.index + 1].spelling@ == "("@) {
                        StepKind::NoParenthesis
                    } else {
                        match collected_arguments(
                            s.stream@,
                            s.index + 1,
                            parameters@.len() as int,
                            variadic,
                            settings.argument_depth as int,
                        ) {
                            ArgumentsOutcome::Failed(_) => StepKind::BadArguments,
                            ArgumentsOutcome::Collected(_, _, _) => StepKind::Invoke(d),
                        }
                    },
                },
            }
        }
    }
}

/// `after` is `before` with a copy of its next token emitted.
pub open spec fn front_emitted(before: SequenceExpansion, after: SequenceExpansion) -> bool {
    &&& after.stream@ == before.stream@
    &&& after.index == before.index + 1
    &&& after.output@.len() == before.output@.len() + 1
    &&& after.output@.drop_last() == before.output@
    &&& copied(after.output@.last(), before.stream@[before.index as int])
}

/// `after` is `before` with the token at `index` replaced by `replacement`.
pub open spec fn spliced(before: Seq<PpToken>, index: int, end: int, replacement: Seq<PpToken>, after: Seq<PpToken>) -> bool {
    after == before.take(index) + replacement + before.skip(end)
}

fn error_at(code: &'static str, message: &str, t: &PpToken) -> (result: PpDiagnostic)
    ensures
        diagnostic_view(result) == substitution_error(code@, message@, t.span),
        plain_error(result),
{
    substitution_diagnostic(code, message.to_owned(), t.span)
}

fn emit_front(s: &mut SequenceExpansion)
    requires
        old(s).index < old(s).stream@.len(),
    ensures
        front_emitted(*old(s), *final(s)),
        !final(s).trailing,
{
    let n = s.stream.len();
    let t = duplicate_token(&s.stream[s.index]);
    s.output.push(t);
    assert(s.index < n);
    s.index = s.index + 1;
    s.trailing = false;
    assert(s.output@.drop_last() =~= old(s).output@);
}

fn copy_tokens(tokens: &Vec<PpToken>) -> (result: Vec<PpToken>)
    ensures
        result@.len() == tokens@.len(),
        forall|k: int| 0 <= k < tokens@.len() ==> copied(#[trigger] result@[k], tokens@[k]),
{
    let mut out: Vec<PpToken> = Vec::new();
    let mut k: usize = 0;
    while k < tokens.len()
        invariant
            k <= tokens@.len(),
            out@.len() == k,
            forall|j: int| 0 <= j < k ==> copied(#[trigger] out@[j], tokens@[j]),
        decreases tokens.len() - k,
    {
        out.push(duplicate_token(&tokens[k]));
        k = k + 1;
    }
    out
}

/// A copy of a definition: its name, form and span, and its replacement
/// token by token.
pub open spec fn definition_copy(a: MacroDefinition, b: MacroDefinition) -> bool {
    &&& a.name@ == b.name@
    &&& match (a.form, b.form) {
        (MacroForm::Object, MacroForm::Object) => true,
        (
            MacroForm::Function { parameters: pa, variadic: va },
            MacroForm::Function { parameters: pb, variadic: vb },
        ) => pa@ == pb@ && va == vb,
        _ => false,
    }
    &&& a.definition_span == b.definition_span
    &&& a.predefined == b.predefined
    &&& a.replacement@.len() == b.replacement@.len()
    &&& forall|k: int| 0 <= k < b.replacement@.len() ==> copied(#[trigger] a.replacement@[k], b.replacement@[k])
}

fn copy_definition(d: &MacroDefinition) -> (result: MacroDefinition)
    ensures
        definition_copy(result, *d),
{
    let form = match &d.form {
        MacroForm::Object => MacroForm::Object,
        MacroForm::Function { parameters, variadic } => MacroForm::Function {
            parameters: copy_names(parameters),
            variadic: *variadic,
        },
    };
    MacroDefinition {
        name: d.name.clone(),
        form,
        replacement: copy_tokens(&d.replacement),
        definition_span: d.definition_span,
        predefined: d.predefined,
    }
}

/// One step of expanding `s`; `emitted` counts the tokens this expansion
/// has emitted, across the expansion of arguments too.
#[verifier::rlimit(60)]
pub fn expansion_step(
    table: &mut MacroTable,
    s: &mut SequenceExpansion,
    emitted: &mut usize,
    diagnostics: &mut Vec<PpDiagnostic>,
    settings: &ExpansionSettings,
) -> (result: ExpansionStep)
    requires
        old(table).well_formed(),
        old(s).index <= old(s).stream@.len(),
    ensures
        final(table).well_formed(),
        forall|n: Seq<char>| #[trigger] final(table).definition(n) == old(table).definition(n),
        final(table).disabled() == old(table).disabled(),
        final(s).index <= final(s).stream@.len(),
        ({
            let kind = step_kind(*old(table), *old(s), *old(emitted), *settings);
            let t = old(s).stream@[old(s).index as int];
            let name = identifier_name(t);
            &&& (kind is Dynamic && name == "__COUNTER__"@) || final(table).counter_value()
                == old(table).counter_value()
            &&& match kind {
                StepKind::Finished => result is Finished && *final(s) == *old(s) && *final(emitted)
                    == *old(emitted) && final(diagnostics)@ == old(diagnostics)@,
                StepKind::Limit => result is Stopped && *final(s) == *old(s) && *final(emitted)
                    == *old(emitted) && diagnostic_views(final(diagnostics)@) == diagnostic_views(
                    old(diagnostics)@,
                ).push(
                    substitution_error("CCC1102"@, "preprocessing token limit exceeded"@, t.span),
                ),
                StepKind::Emit => result is Advanced && front_emitted(*old(s), *final(s))
                    && !final(s).trailing && *final(emitted) == *old(emitted) + 1 && final(diagnostics)@ == old(diagnostics)@,
                StepKind::DepthError => result is Advanced && front_emitted(*old(s), *final(s))
                    && !final(s).trailing && *final(emitted) == *old(emitted) + 1
                    && diagnostic_views(final(diagnostics)@) == diagnostic_views(
                    old(diagnostics)@,
                ).push(
                    substitution_error("CCC1101"@, "macro expansion depth limit exceeded"@, t.span),
                ),
                StepKind::Dynamic => {
                    let value = dynamic_replacement(
                        name,
                        t.logical_line,
                        settings.logical_file@,
                        settings.date@,
                        settings.time@,
                        old(table).counter_value(),
                    )->0;
                    &&& result is Advanced
                    &&& final(s).stream@ == old(s).stream@
                    &&& final(s).index == old(s).index + 1
                    &&& final(s).output@.drop_last() == old(s).output@
                    &&& final(s).output@.len() == old(s).output@.len() + 1
                    &&& token_fields(final(s).output@.last()) == (
                        value.0,
                        t.span,
                        value.1,
                        t.leading_space,
                        t.at_start_of_line,
                        t.logical_line,
                        settings.is_system_header,
                    )
                    &&& final(s).output@.last().hide_set@ == t.hide_set@
                    &&& final(s).output@.last().expansion_depth == deeper(t.expansion_depth)
                    &&& !final(s).trailing
                    &&& *final(emitted) == *old(emitted) + 1
                    &&& final(diagnostics)@ == old(diagnostics)@
                    &&& (name == "__COUNTER__"@ ==> final(table).counter_value()
                        == old(table).counter_value().saturating_add(1))
                },
                StepKind::Object(d) => {
                    &&& result is Advanced
                    &&& final(s).index == old(s).index
                    &&& final(s).output@ == old(s).output@
                    &&& final(s).trailing == old(s).trailing
                    &&& *final(emitted) == *old(emitted)
                    &&& final(diagnostics)@ == old(diagnostics)@
                    &&& exists|placed: Seq<PpToken>, replaced: Seq<PpToken>|
                        #![trigger placed_at(d.replacement@, placed, t), suppressed(placed, replaced, name_view(t.hide_set@).insert(name), deeper(t.expansion_depth))]
                        placed_at(d.replacement@, placed, t) && suppressed(
                            placed,
                            replaced,
                            name_view(t.hide_set@).insert(name),
                            deeper(t.expansion_depth),
                        ) && spliced(
                            old(s).stream@,
                            old(s).index as int,
                            old(s).index + 1,
                            replaced,
                            final(s).stream@,
                        )
                },
                StepKind::NoParenthesis => result is Advanced && front_emitted(*old(s), *final(s))
                    && final(s).trailing == (old(s).index + 1 == old(s).stream@.len())
                    && *final(emitted) == *old(emitted) + 1 && final(diagnostics)@ == old(diagnostics)@,
                StepKind::BadArguments => {
                    &&& result is Advanced
                    &&& front_emitted(*old(s), *final(s))
                    &&& !final(s).trailing
                    &&& *final(emitted) == *old(emitted) + 1
                    &&& final(diagnostics)@.drop_last() == old(diagnostics)@
                    &&& final(diagnostics)@.len() == old(diagnostics)@.len() + 1
                    &&& plain_error(final(diagnostics)@.last())
                    &&& match old(table).definition(name) {
                        Some(d) => match d.form {
                            MacroForm::Function { parameters, variadic } => collected_arguments(
                                old(s).stream@,
                                old(s).index + 1,
                                parameters@.len() as int,
                                variadic,
                                settings.argument_depth as int,
                            ) == ArgumentsOutcome::Failed(diagnostic_view(final(diagnostics)@.last())),
                            _ => false,
                        },
                        None => false,
                    }
                },
                StepKind::Invoke(d) => {
                    &&& *final(s) == *old(s)
                    &&& *final(emitted) == *old(emitted)
                    &&& final(diagnostics)@ == old(diagnostics)@
                    &&& result matches ExpansionStep::Invocation(p)
                    &&& definition_copy(p.definition, d)
                    &&& copied(p.invocation, t)
                    &&& match d.form {
                        MacroForm::Function { parameters, variadic } => {
                            &&& p.parameters@ == parameters@
                            &&& p.variadic == variadic
                            &&& collected_arguments(
                                old(s).stream@,
                                old(s).index + 1,
                                parameters@.len() as int,
                                variadic,
                                settings.argument_depth as int,
                            ) == ArgumentsOutcome::Collected(
                                argument_fields(p.arguments@),
                                p.end as int,
                                p.variadic_was_absent,
                            )
                            &&& old(s).index + 2 < p.end <= old(s).stream@.len()
                            &&& name_view(p.hide_set@) == name_view(t.hide_set@).intersect(
                                name_view(old(s).stream@[p.end - 1].hide_set@),
                            ).insert(name)
                            &&& p.depth == deeper(
                                larger(t.expansion_depth, old(s).stream@[p.end - 1].expansion_depth),
                            )
                        },
                        _ => false,
                    }
                },
            }
        }),
{
    if s.index >= s.stream.len() {
        return ExpansionStep::Finished;
    }
    let ghost t0 = s.stream@[s.index as int];
    if *emitted >= settings.output_tokens {
        let d = error_at("CCC1102", "preprocessing token limit exceeded", &s.stream[s.index]);
        diagnostics.push(d);
        assert(diagnostic_views(diagnostics@) =~= diagnostic_views(old(diagnostics)@).push(diagnostic_view(d)));
        return ExpansionStep::Stopped;
    }
    let name = s.stream[s.index].identifier_key();
    if s.stream[s.index].kind != PpTokenKind::Identifier || has_name(&s.stream[s.index].hide_set, name.as_str()) {
        emit_front(s);
        *emitted = *emitted + 1;
        return ExpansionStep::Advanced;
    }
    if s.stream[s.index].expansion_depth > settings.expansion_depth {
        let d = error_at("CCC1101", "macro expansion depth limit exceeded", &s.stream[s.index]);
        diagnostics.push(d);
        assert(diagnostic_views(diagnostics@) =~= diagnostic_views(old(diagnostics)@).push(diagnostic_view(d)));
        emit_front(s);
        *emitted = *emitted + 1;
        return ExpansionStep::Advanced;
    }
    let dynamic = expand_dynamic(
        table,
        &s.stream[s.index],
        name.as_str(),
        settings.logical_file.as_str(),
        settings.is_system_header,
        settings.date.as_str(),
        settings.time.as_str(),
    );
    match dynamic {
        Some(value) => {
            s.output.push(value);
            s.index = s.index + 1;
            s.trailing = false;
            *emitted = *emitted + 1;
            assert(s.output@.drop_last() =~= old(s).output@);
            return ExpansionStep::Advanced;
        },
        None => {},
    }
    let found = match table.get(name.as_str()) {
        Some(d) => copy_definition(d),
        None => {
            emit_front(s);
            *emitted = *emitted + 1;
            return ExpansionStep::Advanced;
        },
    };
    let ghost d0 = table.definition(name@)->0;
    match &found.form {
        MacroForm::Object => {
            let invocation = duplicate_token(&s.stream[s.index]);
            let placed = invocation_tokens(&found.replacement, &invocation);
            assert(placed_at(d0.replacement@, placed@, t0)) by {
                assert(tokens_fields(found.replacement@) =~= tokens_fields(d0.replacement@));
            }
            let mut own: Vec<String> = Vec::new();
            own.push(name);
            assert(name_view(own@) =~= Set::empty().insert(identifier_name(t0))) by {
                assert forall|n: Seq<char>| name_view(own@).contains(n) <==> n == identifier_name(t0) by {
                    if n == identifier_name(t0) {
                        assert(own@[0]@ == n);
                    }
                }
            }
            let hidden = union_names(&invocation.hide_set, &own);
            assert(name_view(hidden@) =~= name_view(t0.hide_set@).insert(identifier_name(t0)));
            let depth = if invocation.expansion_depth == usize::MAX {
                invocation.expansion_depth
            } else {
                invocation.expansion_depth + 1
            };
            let ghost placed_view = placed@;
            let mut replaced = suppress_expansion(placed, &hidden, depth);
            let ghost rep = replaced@;
            assert(depth == deeper(t0.expansion_depth));
            let mut tail = s.stream.split_off(s.index + 1);
            s.stream.pop();
            s.stream.append(&mut replaced);
            s.stream.append(&mut tail);
            assert(s.stream@ =~= old(s).stream@.take(old(s).index as int) + rep + old(s).stream@.skip(
                old(s).index + 1,
            ));
            assert(placed_at(d0.replacement@, placed_view, t0) && suppressed(
                placed_view,
                rep,
                name_view(t0.hide_set@).insert(identifier_name(t0)),
                deeper(t0.expansion_depth),
            ) && spliced(old(s).stream@, old(s).index as int, old(s).index + 1, rep, s.stream@));
            return ExpansionStep::Advanced;
        },
        MacroForm::Function { parameters, variadic } => {
            let index = s.index;
            if !(index + 1 < s.stream.len() && str_eq(s.stream[index + 1].spelling.as_str(), "(")) {
                emit_front(s);
                s.trailing = index + 1 == s.stream.len();
                *emitted = *emitted + 1;
                return ExpansionStep::Advanced;
            }
            match parse_arguments(
                s.stream.as_slice(),
                index + 1,
                parameters.len(),
                *variadic,
                settings.argument_depth,
            ) {
                Err(d) => {
                    diagnostics.push(d);
                    emit_front(s);
                    *emitted = *emitted + 1;
                    assert(diagnostics@.drop_last() =~= old(diagnostics)@);
                    return ExpansionStep::Advanced;
                },
                Ok((arguments, end, absent)) => {
                    proof {
                        crate::pp::arguments::lemma_collected_end(s.stream@, index + 1, parameters@.len() as int, *variadic, settings.argument_depth as int);
                    }
                    let invocation = duplicate_token(&s.stream[index]);
                    let closing = &s.stream[end - 1];
                    let shared = names_in_both(&invocation.hide_set, &closing.hide_set);
                    let mut own: Vec<String> = Vec::new();
                    own.push(name);
                    assert(name_view(own@) =~= Set::empty().insert(identifier_name(t0))) by {
                        assert forall|n: Seq<char>| name_view(own@).contains(n) <==> n == identifier_name(t0) by {
                            if n == identifier_name(t0) {
                                assert(own@[0]@ == n);
                            }
                        }
                    }
                    let hidden = union_names(&shared, &own);
                    let larger_depth = if invocation.expansion_depth >= closing.expansion_depth {
                        invocation.expansion_depth
                    } else {
                        closing.expansion_depth
                    };
                    let depth = if larger_depth == usize::MAX {
                        larger_depth
                    } else {
                        larger_depth + 1
                    };
                    let parameters_copy = copy_names(parameters);
                    let variadic_copy = *variadic;
                    return ExpansionStep::Invocation(
                        PendingInvocation {
                            definition: found,
                            parameters: parameters_copy,
                            variadic: variadic_copy,
                            arguments,
                            end,
                            variadic_was_absent: absent,
                            invocation,
                            hide_set: hidden,
                            depth,
                        },
                    );
                },
            }
        },
    }
}

/// Completes a pending invocation once its arguments are expanded
/// (`expanded[k]` the expansion of argument `k`, read only where the
/// replacement uses the argument outside `#` and `##`): the substitution,
/// hidden from the invocation's hidden set and at its depth, takes the place
/// of the invocation in the stream, to be rescanned.
pub fn complete_invocation(
    s: &mut SequenceExpansion,
    pending: PendingInvocation,
    expanded: &Vec<Vec<PpToken>>,
    diagnostics: &mut Vec<PpDiagnostic>,
    settings: &ExpansionSettings,
)
    requires
        old(s).index < pending.end <= old(s).stream@.len(),
        expanded@.len() == pending.arguments@.len(),
    ensures
        ({
            let outcome = substitution(
                substitution_of(
                    pending.definition,
                    pending.parameters@,
                    pending.variadic,
                    pending.arguments@,
                    expanded@,
                    pending.variadic_was_absent,
                    pending.invocation,
                    settings.gnu_comma_elision,
                ),
            );
            &&& final(s).index == old(s).index
            &&& final(s).output@ == old(s).output@
            &&& final(s).trailing == old(s).trailing
            &&& diagnostic_views(final(diagnostics)@) == diagnostic_views(old(diagnostics)@) + outcome.1
            &&& exists|substituted: Seq<PpToken>, replaced: Seq<PpToken>|
                #![trigger suppressed(substituted, replaced, name_view(pending.hide_set@), pending.depth)]
                tokens_fields(substituted) == outcome.0 && suppressed(
                    substituted,
                    replaced,
                    name_view(pending.hide_set@),
                    pending.depth,
                ) && spliced(
                    old(s).stream@,
                    old(s).index as int,
                    pending.end as int,
                    replaced,
                    final(s).stream@,
                )
        }),
        final(s).index <= final(s).stream@.len(),
{
    let (tokens, mut more) = substitute(
        &pending.definition,
        pending.parameters.as_slice(),
        pending.variadic,
        pending.arguments.as_slice(),
        expanded.as_slice(),
        pending.variadic_was_absent,
        &pending.invocation,
        settings.gnu_comma_elision,
    );
    let ghost substituted = tokens@;
    let ghost added = more@;
    diagnostics.append(&mut more);
    assert(diagnostic_views(diagnostics@) =~= diagnostic_views(old(diagnostics)@) + diagnostic_views(added));
    let mut replaced = suppress_expansion(tokens, &pending.hide_set, pending.depth);
    let ghost rep = replaced@;
    let mut tail = s.stream.split_off(pending.end);
    s.stream.truncate(s.index);
    s.stream.append(&mut replaced);
    s.stream.append(&mut tail);
    assert(s.stream@ =~= old(s).stream@.take(old(s).index as int) + rep + old(s).stream@.skip(
        pending.end as int,
    ));
    assert(suppressed(substituted, rep, name_view(pending.hide_set@), pending.depth));
}

/// A macro's expansion is not expanded as that macro again: every token
/// that an expansion hides from a set holding `name` hides `name`, and is at
/// least as deep as the expansion; and a token hidden from its own name is
/// emitted as it is.
pub proof fn lemma_expansion_is_not_reexpanded(
    placed: Seq<PpToken>,
    replaced: Seq<PpToken>,
    hidden: Set<Seq<char>>,
    depth: usize,
    name: Seq<char>,
    table: MacroTable,
    s: SequenceExpansion,
    emitted: usize,
    settings: ExpansionSettings,
)
    requires
        suppressed(placed, replaced, hidden, depth),
        hidden.contains(name),
    ensures
        forall|k: int| 0 <= k < replaced.len() ==> hides(#[trigger] replaced[k], name)
            && replaced[k].expansion_depth >= depth,
        s.index < s.stream@.len() && emitted < settings.output_tokens && hides(
            s.stream@[s.index as int],
            identifier_name(s.stream@[s.index as int]),
        ) ==> step_kind(table, s, emitted, settings) is Emit,
{
}

} // verus!
