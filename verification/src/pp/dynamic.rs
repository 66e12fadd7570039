//! The macros whose replacement the preprocessor computes: `__LINE__`,
//! `__FILE__`, `__DATE__`, `__TIME__` and `__COUNTER__`.

use crate::pp::token::copy_names;
use vstd::prelude::*;

use crate::pp::macros::{quote_string, quoted, MacroTable};
use crate::pp::token::{token_fields, PpToken, PpTokenKind};
use crate::text::{decimal, push_decimal, str_eq, string_from_chars};

verus! {

/// The class and spelling of the token that the dynamic macro `name`
/// stands for, at a token on `line` of `file`, with `counter` the next
/// `__COUNTER__` value; `None` for any other name.
pub open spec fn dynamic_replacement(
    name: Seq<char>,
    line: usize,
    file: Seq<char>,
    date: Seq<char>,
    time: Seq<char>,
    counter: u64,
) -> Option<(PpTokenKind, Seq<char>)> {
    if name == "__LINE__"@ {
        Some((PpTokenKind::PpNumber, decimal(line as nat)))
    } else if name == "__FILE__"@ {
        Some((PpTokenKind::StringLiteral, quoted(file)))
    } else if name == "__DATE__"@ {
        Some((PpTokenKind::StringLiteral, date))
    } else if name == "__TIME__"@ {
        Some((PpTokenKind::StringLiteral, time))
    } else if name == "__COUNTER__"@ {
        Some((PpTokenKind::PpNumber, decimal(counter as nat)))
    } else {
        None
    }
}

fn decimal_string(n: u64) -> (result: String)
    ensures
        result@ == decimal(n as nat),
{
    let mut digits: Vec<char> = Vec::new();
    push_decimal(&mut digits, n);
    assert(digits@ =~= decimal(n as nat));
    string_from_chars(digits.as_slice())
}

/// The token that the dynamic macro `name`, at `token`, expands to: in
/// the token's place and spacing, marked as in a system header as
/// `is_system_header` says. `None` where `name` is no dynamic macro, or
/// one that a definition or `#undef` has turned off. Only `__COUNTER__`
/// changes the table: it takes the next counter value.
pub fn expand_dynamic(
    table: &mut MacroTable,
    token: &PpToken,
    name: &str,
    logical_file: &str,
    is_system_header: bool,
    date: &str,
    time: &str,
) -> (result: Option<PpToken>)
    requires
        old(table).well_formed(),
    ensures
        final(table).well_formed(),
        forall|n: Seq<char>| #[trigger] final(table).definition(n) == old(table).definition(n),
        final(table).disabled() == old(table).disabled(),
        final(table).counter_value() == if old(table).dynamic_available(name@) && name@ == "__COUNTER__"@ {
            old(table).counter_value().saturating_add(1)
        } else {
            old(table).counter_value()
        },
        match (if old(table).dynamic_available(name@) {
            dynamic_replacement(
                name@,
                token.logical_line,
                logical_file@,
                date@,
                time@,
                old(table).counter_value(),
            )
        } else {
            None
        }) {
            None => result is None,
            Some((kind, spelling)) => result matches Some(r) && r.hide_set@ == token.hide_set@
                && r.expansion_depth == (if token.expansion_depth == usize::MAX {
                token.expansion_depth
            } else {
                (token.expansion_depth + 1) as usize
            }) && token_fields(r) == (
                kind,
                token.span,
                spelling,
                token.leading_space,
                token.at_start_of_line,
                token.logical_line,
                is_system_header,
            ),
        },
{
    if !table.dynamic_enabled(name) {
        return None;
    }
    proof {
        reveal_strlit("__LINE__");
        reveal_strlit("__FILE__");
        reveal_strlit("__DATE__");
        reveal_strlit("__TIME__");
        reveal_strlit("__COUNTER__");
        assert("__LINE__"@.len() == 8 && "__FILE__"@.len() == 8 && "__COUNTER__"@.len() == 11);
    }
    let kind: PpTokenKind;
    let spelling: String;
    if str_eq(name, "__LINE__") {
        kind = PpTokenKind::PpNumber;
        spelling = decimal_string(token.logical_line as u64);
    } else if str_eq(name, "__FILE__") {
        kind = PpTokenKind::StringLiteral;
        spelling = quote_string(logical_file);
    } else if str_eq(name, "__DATE__") {
        kind = PpTokenKind::StringLiteral;
        spelling = date.to_owned();
    } else if str_eq(name, "__TIME__") {
        kind = PpTokenKind::StringLiteral;
        spelling = time.to_owned();
    } else if str_eq(name, "__COUNTER__") {
        kind = PpTokenKind::PpNumber;
        let value = table.next_counter();
        spelling = decimal_string(value);
    } else {
        return None;
    }
    Some(
        PpToken {
            kind,
            span: token.span,
            spelling,
            leading_space: token.leading_space,
            at_start_of_line: token.at_start_of_line,
            logical_line: token.logical_line,
            is_system_header,
            hide_set: copy_names(&token.hide_set),
            expansion_depth: token.expansion_depth.saturating_add(1),
        },
    )
}

} // verus!
