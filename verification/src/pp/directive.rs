//! The parts of a directive line: its name, its operands and the span of
//! its `#`.

use vstd::prelude::*;

use crate::pp::token::{PpToken, PpTokenKind, Span};
use crate::text::{push_str, str_eq, string_from_chars};

verus! {

/// What a directive line is made of: the name (`""` for a null directive,
/// `linemarker` for `# 1 "file"`, `<invalid>` for a name that is no
/// identifier), the index where its operands begin, and the span of its
/// `#`; `None` where the line does not begin with `#` or `%:`.
pub open spec fn directive_parts_spec(tokens: Seq<PpToken>) -> Option<(Seq<char>, int, Span)> {
    if tokens.len() == 0 || !(tokens[0].spelling@ == "#"@ || tokens[0].spelling@ == "%:"@) {
        None
    } else if tokens.len() == 1 {
        Some((seq![], 1, tokens[0].span))
    } else if tokens[1].kind == PpTokenKind::PpNumber {
        Some(("linemarker"@, 1, tokens[0].span))
    } else if tokens[1].kind != PpTokenKind::Identifier {
        Some(("<invalid>"@, 1, tokens[0].span))
    } else {
        Some((tokens[1].spelling@, 2, tokens[0].span))
    }
}

/// The name, the start of the operands and the `#` span of a directive
/// line.
pub fn directive_parts(tokens: &[PpToken]) -> (result: Option<(String, usize, Span)>)
    ensures
        match result {
            Some((name, start, span)) => directive_parts_spec(tokens@) == Some(
                (name@, start as int, span),
            ),
            None => directive_parts_spec(tokens@) is None,
        },
{
    if tokens.len() == 0 || !(str_eq(tokens[0].spelling.as_str(), "#") || str_eq(
        tokens[0].spelling.as_str(),
        "%:",
    )) {
        return None;
    }
    let hash = tokens[0].span;
    if tokens.len() == 1 {
        let empty: Vec<char> = Vec::new();
        return Some((string_from_chars(empty.as_slice()), 1, hash));
    }
    if tokens[1].kind == PpTokenKind::PpNumber {
        return Some(("linemarker".to_string(), 1, hash));
    }
    if tokens[1].kind != PpTokenKind::Identifier {
        return Some(("<invalid>".to_string(), 1, hash));
    }
    Some((tokens[1].spelling.clone(), 2, hash))
}

/// The spellings joined by single spaces.
pub open spec fn spaced_spellings(tokens: Seq<PpToken>) -> Seq<char>
    decreases tokens.len(),
{
    if tokens.len() == 0 {
        seq![]
    } else if tokens.len() == 1 {
        tokens[0].spelling@
    } else {
        spaced_spellings(tokens.drop_last()) + seq![' '] + tokens.last().spelling@
    }
}

/// The text of an `#error` or `#warning`: its tokens' spellings joined by
/// single spaces.
pub fn directive_message(tokens: &[PpToken]) -> (result: String)
    ensures
        result@ == spaced_spellings(tokens@),
{
    let mut output: Vec<char> = Vec::new();
    let mut i: usize = 0;
    assert(tokens@.take(0) =~= Seq::<PpToken>::empty());
    while i < tokens.len()
        invariant
            i <= tokens@.len(),
            output@ == spaced_spellings(tokens@.take(i as int)),
        decreases tokens.len() - i,
    {
        assert(tokens@.take(i + 1).drop_last() =~= tokens@.take(i as int));
        if i > 0 {
            output.push(' ');
        }
        push_str(&mut output, tokens[i].spelling.as_str());
        assert(output@ =~= spaced_spellings(tokens@.take(i + 1)));
        i = i + 1;
    }
    assert(tokens@.take(tokens@.len() as int) =~= tokens@);
    string_from_chars(output.as_slice())
}

/// The nesting depth after the tokens, a `)` without an open `(` ignored.
pub open spec fn open_depth(tokens: Seq<PpToken>) -> nat
    decreases tokens.len(),
{
    if tokens.len() == 0 {
        0
    } else {
        let depth = open_depth(tokens.drop_last());
        if tokens.last().spelling@ == "("@ {
            depth + 1
        } else if tokens.last().spelling@ == ")"@ {
            if depth == 0 {
                0
            } else {
                (depth - 1) as nat
            }
        } else {
            depth
        }
    }
}

/// Whether a parenthesis is left open: a function-like invocation that may
/// go on on the next line.
pub fn has_unclosed_parenthesis(tokens: &[PpToken]) -> (result: bool)
    ensures
        result == (open_depth(tokens@) != 0),
{
    let mut depth: usize = 0;
    let mut i: usize = 0;
    assert(tokens@.take(0) =~= Seq::<PpToken>::empty());
    while i < tokens.len()
        invariant
            i <= tokens@.len(),
            depth == open_depth(tokens@.take(i as int)),
            depth <= i,
        decreases tokens.len() - i,
    {
        assert(tokens@.take(i + 1).drop_last() =~= tokens@.take(i as int));
        if str_eq(tokens[i].spelling.as_str(), "(") {
            depth = depth + 1;
        } else if str_eq(tokens[i].spelling.as_str(), ")") {
            if depth > 0 {
                depth = depth - 1;
            }
        }
        i = i + 1;
    }
    assert(tokens@.take(tokens@.len() as int) =~= tokens@);
    depth != 0
}

/// Whether the tokens begin with the expected spellings.
pub fn spellings_start_with(tokens: &[PpToken], expected: &[&str]) -> (result: bool)
    ensures
        result == (tokens@.len() >= expected@.len() && forall|k: int|
            0 <= k < expected@.len() ==> tokens@[k].spelling@ == (#[trigger] expected@[k])@),
{
    if tokens.len() < expected.len() {
        return false;
    }
    let mut i: usize = 0;
    while i < expected.len()
        invariant
            i <= expected@.len() <= tokens@.len(),
            forall|k: int| 0 <= k < i ==> tokens@[k].spelling@ == (#[trigger] expected@[k])@,
        decreases expected.len() - i,
    {
        if !str_eq(tokens[i].spelling.as_str(), expected[i]) {
            return false;
        }
        i = i + 1;
    }
    true
}

} // verus!
