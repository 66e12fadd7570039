//! Entering an included file: the include depth limit, and the include
//! cycle that reaching it most likely means.

use vstd::prelude::*;

use crate::pp::condition::{diagnostic_view, plain_error, DiagnosticView};
use crate::pp::diagnostic::{PpDiagnostic, PpDiagnosticCategory, PpSeverity};
use crate::pp::files::FileIdentity;
use crate::pp::token::Span;
use crate::text::{push_str, str_eq, string_from_chars};

verus! {

/// A file on the include stack: the path it was found at and what
/// identifies its contents.
pub struct ActiveInclude {
    pub path: String,
    pub identity: FileIdentity,
}

/// The last position of the stack whose file has `identity`.
pub open spec fn last_position(stack: Seq<ActiveInclude>, identity: Seq<char>) -> Option<int>
    decreases stack.len(),
{
    if stack.len() == 0 {
        None
    } else if stack.last().identity.0@ == identity {
        Some(stack.len() - 1)
    } else {
        last_position(stack.drop_last(), identity)
    }
}

/// `items` joined with `separator` between two.
pub open spec fn joined(items: Seq<Seq<char>>, separator: Seq<char>) -> Seq<char>
    decreases items.len(),
{
    if items.len() == 0 {
        Seq::empty()
    } else if items.len() == 1 {
        items[0]
    } else {
        joined(items.drop_last(), separator) + separator + items.last()
    }
}

/// The paths of the cycle: the stack from `start` on, then the file
/// being entered.
pub open spec fn cycle_paths(stack: Seq<ActiveInclude>, start: int, entering: Seq<char>) -> Seq<Seq<char>> {
    stack.subrange(start, stack.len() as int).map_values(|a: ActiveInclude| a.path@).push(entering)
}

/// Why a file is not entered: the error, and a note where there is one.
pub open spec fn include_refusal(
    stack: Seq<ActiveInclude>,
    path: Seq<char>,
    identity: Seq<char>,
    site: Option<Span>,
) -> (DiagnosticView, Option<Seq<char>>) {
    match last_position(stack, identity) {
        Some(start) => (
            DiagnosticView {
                code: "CCC1335"@,
                message: "include cycle reached the depth limit while entering '"@ + path + "'"@,
                span: site,
            },
            Some("include cycle: "@ + joined(cycle_paths(stack, start, path), " -> "@)),
        ),
        None => (
            DiagnosticView {
                code: "CCC1303"@,
                message: "include depth limit exceeded while entering '"@ + path + "'"@,
                span: None,
            },
            None,
        ),
    }
}

fn find_last(stack: &[ActiveInclude], identity: &FileIdentity) -> (result: Option<usize>)
    ensures
        match result {
            Some(k) => k < stack@.len() && last_position(stack@, identity.0@) == Some(k as int),
            None => last_position(stack@, identity.0@) is None,
        },
{
    let mut k: usize = stack.len();
    assert(stack@.take(k as int) =~= stack@);
    while k > 0
        invariant
            k <= stack@.len(),
            last_position(stack@, identity.0@) == last_position(stack@.take(k as int), identity.0@),
        decreases k,
    {
        assert(stack@.take(k as int).last() == stack@[k - 1]);
        if str_eq(stack[k - 1].identity.0.as_str(), identity.0.as_str()) {
            return Some(k - 1);
        }
        assert(stack@.take(k as int).drop_last() =~= stack@.take(k - 1));
        k = k - 1;
    }
    None
}

fn cycle_note(stack: &[ActiveInclude], start: usize, entering: &str) -> (result: String)
    requires
        start <= stack@.len(),
    ensures
        result@ == "include cycle: "@ + joined(cycle_paths(stack@, start as int, entering@), " -> "@),
{
    let ghost paths = cycle_paths(stack@, start as int, entering@);
    let mut text: Vec<char> = Vec::new();
    push_str(&mut text, "include cycle: ");
    let ghost prefix = text@;
    let mut k: usize = start;
    while k < stack.len()
        invariant
            start <= k <= stack@.len(),
            prefix == "include cycle: "@,
            paths == cycle_paths(stack@, start as int, entering@),
            paths.len() == stack@.len() - start + 1,
            forall|j: int| 0 <= j < stack@.len() - start ==> paths[j] == stack@[start + j].path@,
            text@ == prefix + joined(paths.take(k - start), " -> "@),
        decreases stack.len() - k,
    {
        let ghost before = text@;
        if k > start {
            push_str(&mut text, " -> ");
        }
        push_str(&mut text, stack[k].path.as_str());
        proof {
            let taken = paths.take(k + 1 - start);
            assert(taken.drop_last() =~= paths.take(k - start));
            assert(taken.last() == stack@[k as int].path@);
            if k == start {
                assert(paths.take(0) =~= Seq::<Seq<char>>::empty());
            }
        }
        assert(text@ =~= prefix + joined(paths.take(k + 1 - start), " -> "@));
        k = k + 1;
    }
    let ghost before = text@;
    if stack.len() > start {
        push_str(&mut text, " -> ");
    }
    push_str(&mut text, entering);
    proof {
        assert(paths.take(paths.len() - 1) =~= paths.drop_last());
        assert(paths.last() == entering@);
        if stack@.len() == start {
            assert(paths.drop_last() =~= Seq::<Seq<char>>::empty());
        }
        assert(paths.take(paths.len() as int) =~= paths);
    }
    assert(text@ =~= prefix + joined(paths, " -> "@));
    string_from_chars(text.as_slice())
}

fn quoted_path_message(lead: &str, path: &str) -> (result: String)
    ensures
        result@ == lead@ + path@ + "'"@,
{
    let mut text: Vec<char> = Vec::new();
    push_str(&mut text, lead);
    push_str(&mut text, path);
    push_str(&mut text, "'");
    string_from_chars(text.as_slice())
}

/// Whether a file may be entered with `stack` active: below the depth
/// limit it may; at the limit it is refused, as a cycle where the stack
/// already holds a file with the same identity (noting the cycle from its
/// last occurrence on), else as too deep. `site` is where the cycle's
/// `#include` stands.
pub fn check_include_entry(
    stack: &[ActiveInclude],
    depth_limit: usize,
    path: &str,
    identity: &FileIdentity,
    site: Option<Span>,
) -> (result: Result<(), (PpDiagnostic, Option<String>)>)
    ensures
        match result {
            Ok(()) => stack@.len() < depth_limit,
            Err((diagnostic, note)) => {
                &&& stack@.len() >= depth_limit
                &&& plain_error(diagnostic)
                &&& (diagnostic_view(diagnostic), match note {
                    Some(n) => Some(n@),
                    None => None,
                }) == include_refusal(stack@, path@, identity.0@, site)
            },
        },
{
    if stack.len() < depth_limit {
        return Ok(());
    }
    match find_last(stack, identity) {
        Some(start) => {
            let message = quoted_path_message("include cycle reached the depth limit while entering '", path);
            let note = cycle_note(stack, start, path);
            Err(
                (
                    PpDiagnostic {
                        severity: PpSeverity::Error,
                        code: "CCC1335",
                        message,
                        span: site,
                        category: PpDiagnosticCategory::General,
                    },
                    Some(note),
                ),
            )
        },
        None => {
            let message = quoted_path_message("include depth limit exceeded while entering '", path);
            Err(
                (
                    PpDiagnostic {
                        severity: PpSeverity::Error,
                        code: "CCC1303",
                        message,
                        span: None,
                        category: PpDiagnosticCategory::General,
                    },
                    None,
                ),
            )
        },
    }
}

} // verus!
