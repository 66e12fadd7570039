//! How a file's lines are taken in turn: directives run only in active
//! groups (conditional directives always reach the group stack), text lines
//! of inactive groups are skipped, and text is held back across lines while
//! a parenthesis is open or a function-like macro name at its end may still
//! be invoked by what follows.

use vstd::prelude::*;

use crate::pp::conditional::{is_active, is_conditional_directive, is_conditional_name, stack_active, ConditionalFrame};
use crate::pp::directive::{directive_parts, directive_parts_spec, has_unclosed_parenthesis, open_depth};
use crate::pp::engine::{PpItem, PragmaEvent};
use crate::pp::token::{identifier_name, name_view, PpToken, PpTokenKind, Span};
use crate::text::str_eq;

verus! {

/// Where a file's processing stands between lines.
pub struct LineState {
    /// The open conditional groups.
    pub conditionals: Vec<ConditionalFrame>,
    /// Text held back.
    pub pending: Vec<PpToken>,
    /// The logical file and system-header flag of the held text's first line.
    pub pending_file: String,
    pub pending_system: bool,
    /// How many source lines the held text spans.
    pub pending_lines: usize,
    /// Whether the held text is already expanded, and ends with a
    /// function-like macro name that the next line may invoke.
    pub pending_expanded: bool,
    pub pending_can_continue: bool,
}

impl LineState {
    /// The state at a file's start.
    pub fn new() -> (result: Self)
        ensures
            result.conditionals@.len() == 0,
            result.pending@.len() == 0,
            result.pending_lines == 0,
            !result.pending_expanded,
            !result.pending_can_continue,
    {
        LineState {
            conditionals: Vec::new(),
            pending: Vec::new(),
            pending_file: String::new(),
            pending_system: false,
            pending_lines: 0,
            pending_expanded: false,
            pending_can_continue: false,
        }
    }
}

/// Text handed on to be expanded (unless it already is) and emitted, with
/// the number of source lines it spans.
pub struct HeldText {
    pub tokens: Vec<PpToken>,
    pub expanded: bool,
    pub file: String,
    pub system: bool,
    pub lines: usize,
}

/// How a directive line is dealt with.
#[derive(Clone, Copy, Debug, PartialEq, Eq, Structural)]
pub enum DirectiveRun {
    /// A conditional directive: it reaches the group stack.
    Conditional,
    /// Another directive in an active group: it runs.
    Active,
    /// Another directive in an inactive group: it is skipped.
    Inactive,
}

/// What the caller does for a line, in order.
pub enum LineWork {
    /// A directive: emit the held text first where there is any, then deal
    /// with the directive as `run` says.
    Directive { flush: Option<HeldText>, name: String, operands: usize, hash: Span, run: DirectiveRun },
    /// A text line of an active group: emit the held text first where there
    /// is any; then end the output line where nothing is held, or else
    /// settle the held text where `settle` says so.
    Text { flush: Option<HeldText>, newline: bool, settle: bool },
    /// A text line of an inactive group: only its output line ends.
    Skipped,
}

/// `held` is the text `s` held back, taken out of it.
pub open spec fn taken(s: LineState, held: HeldText) -> bool {
    &&& held.tokens@ == s.pending@
    &&& held.expanded == s.pending_expanded
    &&& held.file@ == s.pending_file@
    &&& held.system == s.pending_system
    &&& held.lines == s.pending_lines
}

/// The held text joined with the next line: the line's first token is
/// spaced and no longer at a line start when it continues held text.
pub open spec fn joined_line(pending: Seq<PpToken>, line: Seq<PpToken>) -> Seq<PpToken> {
    if pending.len() == 0 || line.len() == 0 {
        pending + line
    } else {
        pending + seq![PpToken { leading_space: true, at_start_of_line: false, ..line[0] }] + line.skip(1)
    }
}

/// Whether held text is emitted before the next text line: it is complete,
/// may only have been waiting for a `(`, and the line does not start with one.
pub open spec fn flushed_before_text(s: LineState, line: Seq<PpToken>) -> bool {
    s.pending@.len() > 0 && open_depth(s.pending@) == 0 && s.pending_can_continue && line.len() > 0
        && line[0].spelling@ != "("@
}

fn take_held(s: &mut LineState) -> (result: HeldText)
    ensures
        taken(*old(s), result),
        final(s).pending@.len() == 0,
        final(s).pending_lines == 0,
        !final(s).pending_expanded,
        !final(s).pending_can_continue,
        final(s).conditionals@ == old(s).conditionals@,
        final(s).pending_file@ == old(s).pending_file@,
        final(s).pending_system == old(s).pending_system,
{
    let mut tokens: Vec<PpToken> = Vec::new();
    std::mem::swap(&mut tokens, &mut s.pending);
    let file = s.pending_file.clone();
    let held = HeldText {
        tokens,
        expanded: s.pending_expanded,
        file,
        system: s.pending_system,
        lines: s.pending_lines,
    };
    s.pending_lines = 0;
    s.pending_expanded = false;
    s.pending_can_continue = false;
    held
}

/// Takes the next line of a file, at `logical_file`, `system` saying
/// whether the file is a system header.
pub fn line_step(s: &mut LineState, line: Vec<PpToken>, logical_file: &str, system: bool) -> (result: LineWork)
    ensures
        final(s).conditionals@ == old(s).conditionals@,
        match directive_parts_spec(line@) {
            Some((name, start, hash)) => match result {
                LineWork::Directive { flush, name: n, operands, hash: h, run } => {
                    &&& n@ == name && operands == start && h == hash
                    &&& run == if is_conditional_name(name) {
                        DirectiveRun::Conditional
                    } else if stack_active(old(s).conditionals@) {
                        DirectiveRun::Active
                    } else {
                        DirectiveRun::Inactive
                    }
                    &&& match flush {
                        Some(held) => old(s).pending@.len() > 0 && taken(*old(s), held)
                            && final(s).pending@.len() == 0 && final(s).pending_lines == 0
                            && !final(s).pending_expanded && !final(s).pending_can_continue,
                        None => old(s).pending@.len() == 0 && *final(s) == *old(s),
                    }
                },
                _ => false,
            },
            None => if !stack_active(old(s).conditionals@) {
                result is Skipped && *final(s) == *old(s)
            } else {
                match result {
                    LineWork::Text { flush, newline, settle } => {
                        let kept = if flushed_before_text(*old(s), line@) {
                            Seq::<PpToken>::empty()
                        } else {
                            old(s).pending@
                        };
                        &&& (flush is Some <==> flushed_before_text(*old(s), line@))
                        &&& (flush matches Some(held) ==> taken(*old(s), held))
                        &&& final(s).pending@ == joined_line(kept, line@)
                        &&& (line@.len() > 0 ==> !final(s).pending_expanded && !final(s).pending_can_continue)
                        &&& (kept.len() == 0 && line@.len() > 0 ==> final(s).pending_file@
                            == logical_file@ && final(s).pending_system == system)
                        &&& newline == (final(s).pending@.len() == 0)
                        &&& (!newline ==> final(s).pending_lines == (if flush is Some {
                            0
                        } else {
                            old(s).pending_lines
                        }).saturating_add(1))
                        &&& settle == (!newline && open_depth(final(s).pending@) == 0)
                    },
                    _ => false,
                }
            },
        },
{
    match directive_parts(line.as_slice()) {
        Some((name, operands, hash)) => {
            let flush = if s.pending.len() > 0 {
                Some(take_held(s))
            } else {
                None
            };
            let run = if is_conditional_directive(name.as_str()) {
                DirectiveRun::Conditional
            } else if is_active(s.conditionals.as_slice()) {
                DirectiveRun::Active
            } else {
                DirectiveRun::Inactive
            };
            LineWork::Directive { flush, name, operands, hash, run }
        },
        None => {
            if !is_active(s.conditionals.as_slice()) {
                return LineWork::Skipped;
            }
            let ghost before = *s;
            let flush_now = s.pending.len() > 0 && !has_unclosed_parenthesis(s.pending.as_slice())
                && s.pending_can_continue && line.len() > 0 && !str_eq(line[0].spelling.as_str(), "(");
            let flush = if flush_now {
                Some(take_held(s))
            } else {
                None
            };
            let ghost kept = s.pending@;
            let ghost original = line@;
            let mut line = line;
            if line.len() > 0 {
                if s.pending.len() == 0 {
                    s.pending_file = logical_file.to_owned();
                    s.pending_system = system;
                } else {
                    let mut first = line.remove(0);
                    first.leading_space = true;
                    first.at_start_of_line = false;
                    line.insert(0, first);
                }
                let ghost changed = line@;
                s.pending.append(&mut line);
                assert(s.pending@ =~= joined_line(kept, original)) by {
                    if kept.len() > 0 {
                        assert(changed =~= seq![changed[0]] + original.skip(1));
                    }
                }
                s.pending_expanded = false;
                s.pending_can_continue = false;
            } else {
                assert(s.pending@ =~= joined_line(kept, line@));
            }
            let newline = s.pending.len() == 0;
            let mut settle = false;
            if !newline {
                s.pending_lines = s.pending_lines.saturating_add(1);
                settle = !has_unclosed_parenthesis(s.pending.as_slice());
            }
            LineWork::Text { flush, newline, settle }
        },
    }
}

/// Settles held text once it is expanded (`expanded`) and whether it ends
/// with a function-like macro name the next line may invoke
/// (`can_continue`): then it stays held, expanded; otherwise it is handed
/// on, with the number of source lines it spans.
pub fn settle_pending(s: &mut LineState, expanded: Vec<PpToken>, can_continue: bool) -> (result: Option<(Vec<PpToken>, usize)>)
    ensures
        final(s).conditionals@ == old(s).conditionals@,
        if can_continue {
            &&& result is None
            &&& final(s).pending@ == expanded@
            &&& final(s).pending_expanded && final(s).pending_can_continue
            &&& final(s).pending_lines == old(s).pending_lines
            &&& final(s).pending_file@ == old(s).pending_file@
            &&& final(s).pending_system == old(s).pending_system
        } else {
            &&& result matches Some((tokens, lines))
            &&& tokens@ == expanded@ && lines == old(s).pending_lines
            &&& final(s).pending@.len() == 0 && final(s).pending_lines == 0
            &&& !final(s).pending_expanded && !final(s).pending_can_continue
        },
{
    if can_continue {
        s.pending = expanded;
        s.pending_expanded = true;
        s.pending_can_continue = true;
        None
    } else {
        let lines = s.pending_lines;
        s.pending = Vec::new();
        s.pending_lines = 0;
        s.pending_expanded = false;
        s.pending_can_continue = false;
        Some((expanded, lines))
    }
}

/// What is left at a file's end: the held text, where there is any, and
/// the span of the innermost group still open.
pub fn finish_lines(s: &mut LineState) -> (result: (Option<HeldText>, Option<Span>))
    ensures
        match result.0 {
            Some(held) => old(s).pending@.len() > 0 && taken(*old(s), held),
            None => old(s).pending@.len() == 0,
        },
        result.1 == if old(s).conditionals@.len() > 0 {
            Some(old(s).conditionals@.last().opening_span)
        } else {
            None
        },
{
    let open = if s.conditionals.len() > 0 {
        Some(s.conditionals[s.conditionals.len() - 1].opening_span)
    } else {
        None
    };
    let held = if s.pending.len() > 0 {
        Some(take_held(s))
    } else {
        None
    };
    (held, open)
}

/// What a directive of an active group does, by its name.
#[derive(Clone, Copy, Debug, PartialEq, Eq, Structural)]
pub enum DirectiveAction {
    /// A `#` alone.
    Nothing,
    Define,
    Undefine,
    Include,
    IncludeNext,
    Line,
    Linemarker,
    Error,
    Warning,
    Pragma,
    Unknown,
}

pub open spec fn directive_action_spec(name: Seq<char>) -> DirectiveAction {
    if name == ""@ {
        DirectiveAction::Nothing
    } else if name == "define"@ {
        DirectiveAction::Define
    } else if name == "undef"@ {
        DirectiveAction::Undefine
    } else if name == "include"@ {
        DirectiveAction::Include
    } else if name == "include_next"@ {
        DirectiveAction::IncludeNext
    } else if name == "line"@ {
        DirectiveAction::Line
    } else if name == "linemarker"@ {
        DirectiveAction::Linemarker
    } else if name == "error"@ {
        DirectiveAction::Error
    } else if name == "warning"@ {
        DirectiveAction::Warning
    } else if name == "pragma"@ {
        DirectiveAction::Pragma
    } else {
        DirectiveAction::Unknown
    }
}

/// What the directive `name` does.
pub fn directive_action(name: &str) -> (result: DirectiveAction)
    ensures
        result == directive_action_spec(name@),
{
    if str_eq(name, "") {
        DirectiveAction::Nothing
    } else if str_eq(name, "define") {
        DirectiveAction::Define
    } else if str_eq(name, "undef") {
        DirectiveAction::Undefine
    } else if str_eq(name, "include") {
        DirectiveAction::Include
    } else if str_eq(name, "include_next") {
        DirectiveAction::IncludeNext
    } else if str_eq(name, "line") {
        DirectiveAction::Line
    } else if str_eq(name, "linemarker") {
        DirectiveAction::Linemarker
    } else if str_eq(name, "error") {
        DirectiveAction::Error
    } else if str_eq(name, "warning") {
        DirectiveAction::Warning
    } else if str_eq(name, "pragma") {
        DirectiveAction::Pragma
    } else {
        DirectiveAction::Unknown
    }
}

/// Whether an output item already ends its output line: a line marker or
/// a pragma does, except `#pragma once` and `#pragma GCC system_header`,
/// which leave nothing in the output.
pub open spec fn ends_line(item: PpItem) -> bool {
    match item {
        PpItem::LineMarker(_) => true,
        PpItem::Pragma(PragmaEvent::Once { .. }) => false,
        PpItem::Pragma(PragmaEvent::SystemHeader { .. }) => false,
        PpItem::Pragma(_) => true,
        _ => false,
    }
}

/// How many newlines close the output of `lines` source lines, once
/// `items` were added after the first `before` of them: one unless the
/// last added item ends its line, and one more for each further line.
pub fn closing_newlines(items: &Vec<PpItem>, before: usize, lines: usize) -> (result: usize)
    ensures
        result == (if items@.len() > before && ends_line(items@.last()) {
            0int
        } else {
            1int
        }) + (if lines >= 1 {
            lines - 1
        } else {
            0
        }),
{
    let ended = items.len() > before && match &items[items.len() - 1] {
        PpItem::LineMarker(_) => true,
        PpItem::Pragma(PragmaEvent::Once { .. }) => false,
        PpItem::Pragma(PragmaEvent::SystemHeader { .. }) => false,
        PpItem::Pragma(_) => true,
        _ => false,
    };
    let rest = if lines >= 1 {
        lines - 1
    } else {
        0
    };
    if ended {
        rest
    } else {
        rest + 1
    }
}

/// Whether `t` is the operand of the `defined` just before it, or just
/// before an opening parenthesis before it.
pub open spec fn defined_operand(tokens: Seq<PpToken>, k: int) -> bool {
    &&& tokens[k].kind == PpTokenKind::Identifier
    &&& ((k >= 1 && tokens[k - 1].kind == PpTokenKind::Identifier && identifier_name(tokens[k - 1]) == "defined"@)
        || (k >= 2 && tokens[k - 1].spelling@ == "("@ && tokens[k - 2].kind == PpTokenKind::Identifier
        && identifier_name(tokens[k - 2]) == "defined"@))
}

/// The tokens of a controlling expression made ready for expansion: the
/// operand of each `defined` is hidden from its own name, so that expansion
/// leaves it as it is.
pub fn protect_defined_operands(tokens: Vec<PpToken>) -> (result: Vec<PpToken>)
    ensures
        result@.len() == tokens@.len(),
        forall|k: int|
            0 <= k < tokens@.len() ==> {
                &&& crate::pp::token::token_fields(#[trigger] result@[k]) == crate::pp::token::token_fields(tokens@[k])
                &&& result@[k].expansion_depth == tokens@[k].expansion_depth
                &&& name_view(result@[k].hide_set@) == if defined_operand(tokens@, k) {
                    name_view(tokens@[k].hide_set@).insert(identifier_name(tokens@[k]))
                } else {
                    name_view(tokens@[k].hide_set@)
                }
            },
{
    let mut out: Vec<PpToken> = Vec::new();
    let mut k: usize = 0;
    while k < tokens.len()
        invariant
            k <= tokens@.len(),
            out@.len() == k,
            forall|j: int|
                0 <= j < k ==> {
                    &&& crate::pp::token::token_fields(#[trigger] out@[j]) == crate::pp::token::token_fields(tokens@[j])
                    &&& out@[j].expansion_depth == tokens@[j].expansion_depth
                    &&& name_view(out@[j].hide_set@) == if defined_operand(tokens@, j) {
                        name_view(tokens@[j].hide_set@).insert(identifier_name(tokens@[j]))
                    } else {
                        name_view(tokens@[j].hide_set@)
                    }
                },
        decreases tokens.len() - k,
    {
        let t = &tokens[k];
        let after_defined = k >= 1 && tokens[k - 1].kind == PpTokenKind::Identifier && str_eq(
            tokens[k - 1].identifier_key().as_str(),
            "defined",
        );
        let after_parenthesis = k >= 2 && str_eq(tokens[k - 1].spelling.as_str(), "(")
            && tokens[k - 2].kind == PpTokenKind::Identifier && str_eq(
            tokens[k - 2].identifier_key().as_str(),
            "defined",
        );
        let operand = t.kind == PpTokenKind::Identifier && (after_defined || after_parenthesis);
        let mut hidden = crate::pp::token::copy_names(&t.hide_set);
        if operand {
            let ghost before = hidden@;
            let name = t.identifier_key();
            hidden.push(name);
            assert(name_view(hidden@) =~= name_view(before).insert(identifier_name(tokens@[k as int]))) by {
                assert forall|n: Seq<char>| name_view(hidden@).contains(n) <==> name_view(before).insert(
                    identifier_name(tokens@[k as int]),
                ).contains(n) by {
                    if name_view(hidden@).contains(n) {
                        let j = choose|j: int| 0 <= j < hidden@.len() && (#[trigger] hidden@[j])@ == n;
                        if j < before.len() {
                            assert(before[j] == hidden@[j]);
                        }
                    }
                    if name_view(before).contains(n) {
                        let j = choose|j: int| 0 <= j < before.len() && (#[trigger] before[j])@ == n;
                        assert(hidden@[j] == before[j]);
                    }
                    if n == identifier_name(tokens@[k as int]) {
                        assert(hidden@[before.len() as int]@ == n);
                    }
                }
            }
        }
        let token = PpToken {
            kind: t.kind,
            span: t.span,
            spelling: t.spelling.clone(),
            leading_space: t.leading_space,
            at_start_of_line: t.at_start_of_line,
            logical_line: t.logical_line,
            is_system_header: t.is_system_header,
            hide_set: hidden,
            expansion_depth: t.expansion_depth,
        };
        out.push(token);
        k = k + 1;
    }
    out
}

} // verus!
