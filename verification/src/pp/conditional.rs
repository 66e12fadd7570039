//! Conditional inclusion: the stack of open `#if` groups and how each
//! conditional directive changes it.
//!
//! A directive's expression is evaluated outside (it needs macro
//! expansion); `needs_evaluation` says when the value is read, and
//! `handle_conditional` applies the directive with that value.

use vstd::prelude::*;

use crate::pp::condition::{diagnostic_view, diagnostic_views, plain_error, DiagnosticView};
use crate::pp::diagnostic::{PpDiagnostic, PpDiagnosticCategory, PpSeverity};
use crate::pp::macros::MacroTable;
use crate::pp::predicates::table_contains;
use crate::pp::token::{identifier_name, PpToken, PpTokenKind, Span};
use crate::text::{concat3, str_eq};

verus! {

/// One open conditional group: whether its enclosing text is active,
/// whether its current branch is, whether a branch was taken, and whether
/// its `#else` came.
#[derive(Clone, Copy, Debug, PartialEq, Eq, Structural)]
pub struct ConditionalFrame {
    pub parent_active: bool,
    pub active: bool,
    pub branch_taken: bool,
    pub saw_else: bool,
    pub opening_span: Span,
}

/// Whether text at the top of `stack` is active.
pub open spec fn stack_active(stack: Seq<ConditionalFrame>) -> bool {
    stack.len() == 0 || stack.last().active
}

/// Whether text at the top of `stack` is active.
pub fn is_active(stack: &[ConditionalFrame]) -> (result: bool)
    ensures
        result == stack_active(stack@),
{
    stack.len() == 0 || stack[stack.len() - 1].active
}

pub open spec fn is_conditional_name(name: Seq<char>) -> bool {
    name == "if"@ || name == "ifdef"@ || name == "ifndef"@ || name == "elif"@ || name == "else"@
        || name == "endif"@
}

/// Whether a directive name is a conditional directive.
pub fn is_conditional_directive(name: &str) -> (result: bool)
    ensures
        result == is_conditional_name(name@),
{
    str_eq(name, "if") || str_eq(name, "ifdef") || str_eq(name, "ifndef") || str_eq(name, "elif")
        || str_eq(name, "else") || str_eq(name, "endif")
}

/// Whether the directive reads its expression's value: `#if` in active
/// text, and `#elif` of a group whose text is active, with no branch taken
/// and no `#else` yet.
pub open spec fn needs_evaluation_spec(stack: Seq<ConditionalFrame>, name: Seq<char>) -> bool {
    if name == "if"@ {
        stack_active(stack)
    } else if name == "elif"@ {
        stack.len() > 0 && !stack.last().saw_else && stack.last().parent_active
            && !stack.last().branch_taken
    } else {
        false
    }
}

pub fn needs_evaluation(stack: &[ConditionalFrame], name: &str) -> (result: bool)
    ensures
        result == needs_evaluation_spec(stack@, name@),
{
    if str_eq(name, "if") {
        is_active(stack)
    } else if str_eq(name, "elif") {
        stack.len() > 0 && !stack[stack.len() - 1].saw_else && stack[stack.len() - 1].parent_active
            && !stack[stack.len() - 1].branch_taken
    } else {
        false
    }
}

pub open spec fn directive_error(code: Seq<char>, message: Seq<char>, span: Span) -> DiagnosticView {
    DiagnosticView { code, message, span: Some(span) }
}

/// The condition of `#ifdef` or `#ifndef`: whether the table holds the one
/// identifier operand, or its absence; an error where the operand is not
/// one identifier.
pub open spec fn defined_condition(
    name: Seq<char>,
    operands: Seq<PpToken>,
    table: MacroTable,
    span: Span,
) -> (bool, Seq<DiagnosticView>) {
    if !(operands.len() == 1 && operands[0].kind == PpTokenKind::Identifier) {
        (false, seq![directive_error("CCC1306"@, "#"@ + name + " requires one identifier"@, span)])
    } else {
        let defined = table_contains(table, identifier_name(operands[0]));
        (
            if name == "ifdef"@ {
                defined
            } else {
                !defined
            },
            seq![],
        )
    }
}

/// What a conditional directive does to the stack, and what it reports;
/// `evaluated` is the expression's value where the directive reads it.
pub open spec fn conditional_step(
    stack: Seq<ConditionalFrame>,
    name: Seq<char>,
    operands: Seq<PpToken>,
    span: Span,
    table: MacroTable,
    evaluated: bool,
) -> (Seq<ConditionalFrame>, Seq<DiagnosticView>) {
    if name == "if"@ || name == "ifdef"@ || name == "ifndef"@ {
        let parent_active = stack_active(stack);
        let (condition, diagnostics) = if !parent_active {
            (false, seq![])
        } else if name == "if"@ {
            (evaluated, seq![])
        } else {
            defined_condition(name, operands, table, span)
        };
        (
            stack.push(
                ConditionalFrame {
                    parent_active,
                    active: parent_active && condition,
                    branch_taken: parent_active && condition,
                    saw_else: false,
                    opening_span: span,
                },
            ),
            diagnostics,
        )
    } else if name == "elif"@ {
        if stack.len() == 0 {
            (stack, seq![directive_error("CCC1307"@, "#elif without matching #if"@, span)])
        } else {
            let frame = stack.last();
            if frame.saw_else {
                (
                    stack.update(stack.len() - 1, ConditionalFrame { active: false, ..frame }),
                    seq![directive_error("CCC1308"@, "#elif after #else"@, span)],
                )
            } else {
                let condition = frame.parent_active && !frame.branch_taken && evaluated;
                (
                    stack.update(
                        stack.len() - 1,
                        ConditionalFrame {
                            active: frame.parent_active && !frame.branch_taken && condition,
                            branch_taken: frame.branch_taken || condition,
                            ..frame
                        },
                    ),
                    seq![],
                )
            }
        }
    } else if name == "else"@ {
        if stack.len() == 0 {
            (stack, seq![directive_error("CCC1309"@, "#else without matching #if"@, span)])
        } else {
            let frame = stack.last();
            let extra: Seq<DiagnosticView> = if operands.len() > 0 {
                seq![directive_error("CCC1310"@, "tokens after #else"@, span)]
            } else {
                seq![]
            };
            if frame.saw_else {
                (
                    stack.update(stack.len() - 1, ConditionalFrame { active: false, ..frame }),
                    extra.push(directive_error("CCC1311"@, "duplicate #else"@, span)),
                )
            } else {
                (
                    stack.update(
                        stack.len() - 1,
                        ConditionalFrame {
                            active: frame.parent_active && !frame.branch_taken,
                            branch_taken: true,
                            saw_else: true,
                            ..frame
                        },
                    ),
                    extra,
                )
            }
        }
    } else {
        let extra: Seq<DiagnosticView> = if operands.len() > 0 {
            seq![directive_error("CCC1312"@, "tokens after #endif"@, span)]
        } else {
            seq![]
        };
        if stack.len() == 0 {
            (stack, extra.push(directive_error("CCC1313"@, "#endif without matching #if"@, span)))
        } else {
            (stack.drop_last(), extra)
        }
    }
}

fn directive_diagnostic(code: &'static str, message: String, span: Span) -> (result: PpDiagnostic)
    ensures
        diagnostic_view(result) == directive_error(code@, message@, span),
        plain_error(result),
{
    PpDiagnostic {
        severity: PpSeverity::Error,
        code,
        message,
        span: Some(span),
        category: PpDiagnosticCategory::General,
    }
}

fn push_error(diagnostics: &mut Vec<PpDiagnostic>, code: &'static str, message: &str, span: Span)
    requires
        forall|k: int| 0 <= k < old(diagnostics)@.len() ==> plain_error(#[trigger] old(diagnostics)@[k]),
    ensures
        diagnostic_views(final(diagnostics)@) == diagnostic_views(old(diagnostics)@).push(
            directive_error(code@, message@, span),
        ),
        forall|k: int| 0 <= k < final(diagnostics)@.len() ==> plain_error(#[trigger] final(diagnostics)@[k]),
{
    let ghost before = diagnostics@;
    diagnostics.push(directive_diagnostic(code, message.to_string(), span));
    assert(diagnostic_views(diagnostics@) =~= diagnostic_views(before).push(
        directive_error(code@, message@, span),
    ));
}

/// Applies a conditional directive to the stack of open groups; `evaluated`
/// is the value of its expression where `needs_evaluation` says it is read.
pub fn handle_conditional(
    stack: &mut Vec<ConditionalFrame>,
    name: &str,
    operands: &[PpToken],
    span: Span,
    table: &MacroTable,
    evaluated: bool,
) -> (result: Vec<PpDiagnostic>)
    requires
        is_conditional_name(name@),
        table.well_formed(),
    ensures
        (final(stack)@, diagnostic_views(result@)) == conditional_step(
            old(stack)@,
            name@,
            operands@,
            span,
            *table,
            evaluated,
        ),
        forall|k: int| 0 <= k < result@.len() ==> plain_error(#[trigger] result@[k]),
{
    let mut diagnostics: Vec<PpDiagnostic> = Vec::new();
    assert(diagnostic_views(diagnostics@) =~= seq![]);
    if str_eq(name, "if") || str_eq(name, "ifdef") || str_eq(name, "ifndef") {
        let parent_active = is_active(stack.as_slice());
        let condition = if !parent_active {
            false
        } else if str_eq(name, "if") {
            evaluated
        } else if !(operands.len() == 1 && operands[0].kind == PpTokenKind::Identifier) {
            let message = concat3("#", name, " requires one identifier");
            diagnostics.push(directive_diagnostic("CCC1306", message, span));
            assert(diagnostic_views(diagnostics@) =~= seq![
                directive_error("CCC1306"@, "#"@ + name@ + " requires one identifier"@, span),
            ]);
            false
        } else {
            let defined = table.contains(operands[0].identifier_key().as_str());
            if str_eq(name, "ifdef") {
                defined
            } else {
                !defined
            }
        };
        stack.push(
            ConditionalFrame {
                parent_active,
                active: parent_active && condition,
                branch_taken: parent_active && condition,
                saw_else: false,
                opening_span: span,
            },
        );
    } else if str_eq(name, "elif") {
        if stack.len() == 0 {
            push_error(&mut diagnostics, "CCC1307", "#elif without matching #if", span);
        } else {
            let last = stack.len() - 1;
            let frame = stack[last];
            if frame.saw_else {
                push_error(&mut diagnostics, "CCC1308", "#elif after #else", span);
                stack.set(last, ConditionalFrame { active: false, ..frame });
            } else {
                let condition = frame.parent_active && !frame.branch_taken && evaluated;
                stack.set(
                    last,
                    ConditionalFrame {
                        active: frame.parent_active && !frame.branch_taken && condition,
                        branch_taken: frame.branch_taken || condition,
                        ..frame
                    },
                );
            }
        }
    } else if str_eq(name, "else") {
        if stack.len() == 0 {
            push_error(&mut diagnostics, "CCC1309", "#else without matching #if", span);
        } else {
            if operands.len() > 0 {
                push_error(&mut diagnostics, "CCC1310", "tokens after #else", span);
            }
            let last = stack.len() - 1;
            let frame = stack[last];
            if frame.saw_else {
                push_error(&mut diagnostics, "CCC1311", "duplicate #else", span);
                stack.set(last, ConditionalFrame { active: false, ..frame });
            } else {
                stack.set(
                    last,
                    ConditionalFrame {
                        active: frame.parent_active && !frame.branch_taken,
                        branch_taken: true,
                        saw_else: true,
                        ..frame
                    },
                );
            }
        }
    } else {
        if operands.len() > 0 {
            push_error(&mut diagnostics, "CCC1312", "tokens after #endif", span);
        }
        if stack.len() == 0 {
            push_error(&mut diagnostics, "CCC1313", "#endif without matching #if", span);
        } else {
            stack.pop();
        }
    }
    diagnostics
}

/* Laws */

/// Each group's enclosing text is active exactly when the group below it is
/// (the outermost's always), and a group's branch is active only in active
/// text and once taken.
pub open spec fn stack_consistent(stack: Seq<ConditionalFrame>) -> bool {
    &&& forall|k: int|
        0 <= k < stack.len() ==> (#[trigger] stack[k]).parent_active == (k == 0 || stack[k - 1].active)
    &&& forall|k: int|
        0 <= k < stack.len() ==> ((#[trigger] stack[k]).active ==> stack[k].parent_active
            && stack[k].branch_taken)
}

/// Every conditional directive keeps the stack consistent.
pub proof fn lemma_conditional_step_keeps_consistency(
    stack: Seq<ConditionalFrame>,
    name: Seq<char>,
    operands: Seq<PpToken>,
    span: Span,
    table: MacroTable,
    evaluated: bool,
)
    requires
        stack_consistent(stack),
        is_conditional_name(name),
    ensures
        stack_consistent(conditional_step(stack, name, operands, span, table, evaluated).0),
{
    let after = conditional_step(stack, name, operands, span, table, evaluated).0;
    assert forall|k: int| 0 <= k < after.len() implies (#[trigger] after[k]).parent_active == (k == 0
        || after[k - 1].active) by {
        if k < stack.len() - 1 || (k < stack.len() && after.len() < stack.len() + 1 && after[k]
            == stack[k]) {
            assert(after[k].parent_active == stack[k].parent_active);
        }
    }
}

/// Text is active only where every enclosing group's branch is.
pub proof fn lemma_active_text_has_active_groups(stack: Seq<ConditionalFrame>)
    requires
        stack_consistent(stack),
        stack_active(stack),
    ensures
        forall|k: int| 0 <= k < stack.len() ==> (#[trigger] stack[k]).active,
    decreases stack.len(),
{
    if stack.len() > 0 {
        let rest = stack.drop_last();
        assert(stack_consistent(rest)) by {
            assert forall|k: int| 0 <= k < rest.len() implies (#[trigger] rest[k]).parent_active == (k
                == 0 || rest[k - 1].active) by {
                assert(rest[k] == stack[k]);
            }
            assert forall|k: int| 0 <= k < rest.len() implies ((#[trigger] rest[k]).active
                ==> rest[k].parent_active && rest[k].branch_taken) by {
                assert(rest[k] == stack[k]);
            }
        }
        assert(stack[stack.len() - 1].active);
        assert(stack_active(rest));
        lemma_active_text_has_active_groups(rest);
        assert forall|k: int| 0 <= k < stack.len() implies (#[trigger] stack[k]).active by {
            if k < stack.len() - 1 {
                assert(rest[k] == stack[k]);
            }
        }
    }
}

/// The conditional directive names are distinct.
proof fn lemma_conditional_names_distinct()
    ensures
        "if"@ != "ifdef"@,
        "if"@ != "ifndef"@,
        "if"@ != "elif"@,
        "if"@ != "else"@,
        "if"@ != "endif"@,
        "ifdef"@ != "ifndef"@,
        "ifdef"@ != "elif"@,
        "ifdef"@ != "else"@,
        "ifdef"@ != "endif"@,
        "ifndef"@ != "elif"@,
        "ifndef"@ != "else"@,
        "ifndef"@ != "endif"@,
        "elif"@ != "else"@,
        "elif"@ != "endif"@,
        "else"@ != "endif"@,
{
    reveal_strlit("if");
    reveal_strlit("ifdef");
    reveal_strlit("ifndef");
    reveal_strlit("elif");
    reveal_strlit("else");
    reveal_strlit("endif");
    assert("if"@.len() == 2);
    assert("ifdef"@.len() == 5);
    assert("ifndef"@.len() == 6);
    assert("ifdef"@[0] != "endif"@[0]);
    assert("elif"@[2] != "else"@[2]);
}

/// An `#endif` without operands undoes the `#if`, `#ifdef` or `#ifndef`
/// before it, and reports nothing.
pub proof fn lemma_endif_closes_the_group(
    stack: Seq<ConditionalFrame>,
    name: Seq<char>,
    operands: Seq<PpToken>,
    span: Span,
    table: MacroTable,
    evaluated: bool,
    end_span: Span,
    end_evaluated: bool,
)
    requires
        name == "if"@ || name == "ifdef"@ || name == "ifndef"@,
    ensures
        ({
            let opened = conditional_step(stack, name, operands, span, table, evaluated).0;
            let closed = conditional_step(opened, "endif"@, seq![], end_span, table, end_evaluated);
            closed.0 == stack && closed.1.len() == 0
        }),
{
    lemma_conditional_names_distinct();
    let opened = conditional_step(stack, name, operands, span, table, evaluated).0;
    assert(opened.drop_last() =~= stack);
}

/// Once a group has taken a branch, its later `#elif` and `#else` branches
/// are inactive.
pub proof fn lemma_one_branch_per_group(
    stack: Seq<ConditionalFrame>,
    name: Seq<char>,
    operands: Seq<PpToken>,
    span: Span,
    table: MacroTable,
    evaluated: bool,
)
    requires
        stack.len() > 0,
        stack.last().branch_taken,
        name == "elif"@ || name == "else"@,
    ensures
        ({
            let after = conditional_step(stack, name, operands, span, table, evaluated).0;
            after.len() == stack.len() && !after.last().active && after.last().branch_taken
        }),
{
    lemma_conditional_names_distinct();
}

} // verus!
