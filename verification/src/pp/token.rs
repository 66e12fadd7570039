//! Preprocessing-token classes and identifier canonicalization.

use vstd::prelude::*;

use crate::pp::literal::{disallowed_ucn, is_disallowed_ucn};
use crate::text::{
    all_digits, char_from_u32, chars_of, digit_value, digit_value_exec, digits_value, power,
    string_from_chars,
};

verus! {

/// The lexical class of a C preprocessing token.
#[derive(Clone, Copy, Debug, PartialEq, Eq, Hash, Structural)]
pub enum PpTokenKind {
    Identifier,
    PpNumber,
    StringLiteral,
    CharacterConstant,
    Punctuator,
}

/// A range of original bytes in one source file.
#[derive(Clone, Copy, Debug, PartialEq, Eq, Hash, Structural)]
pub struct Span {
    pub file: u32,
    pub start: usize,
    pub end: usize,
}

/// A preprocessing token with the spacing state needed for faithful rescanning.
#[derive(Clone, Debug, PartialEq, Eq)]
pub struct PpToken {
    pub kind: PpTokenKind,
    pub span: Span,
    pub spelling: String,
    /// Whether whitespace preceded this token on its logical source line.
    pub leading_space: bool,
    /// Whether this is the first token on a logical source line.
    pub at_start_of_line: bool,
    /// Physical line of the token's first character. Lines are one-based.
    pub logical_line: usize,
    /// True when the token came from a system-header region.
    pub is_system_header: bool,
    /// The macros this token may no longer be expanded as: those whose
    /// expansion produced it.
    pub hide_set: Vec<String>,
    /// How many macro expansions produced this token.
    pub expansion_depth: usize,
}

/// The name of a token class as diagnostics spell it.
pub open spec fn kind_name(kind: PpTokenKind) -> Seq<char> {
    match kind {
        PpTokenKind::Identifier => "identifier"@,
        PpTokenKind::PpNumber => "pp-number"@,
        PpTokenKind::StringLiteral => "string-literal"@,
        PpTokenKind::CharacterConstant => "character-constant"@,
        PpTokenKind::Punctuator => "punctuator"@,
    }
}

impl PpTokenKind {
    pub fn as_str(self) -> (result: &'static str)
        ensures
            result@ == kind_name(self),
    {
        match self {
            Self::Identifier => "identifier",
            Self::PpNumber => "pp-number",
            Self::StringLiteral => "string-literal",
            Self::CharacterConstant => "character-constant",
            Self::Punctuator => "punctuator",
        }
    }
}

/// The character named by the universal character name at the start of
/// `rest` (whose first character is a backslash), and its length; `None`
/// when it is malformed or names no Unicode scalar value.
pub open spec fn scanned_ucn(rest: Seq<char>) -> Option<(char, int)> {
    if rest.len() < 2 || !(rest[1] == 'u' || rest[1] == 'U') {
        None
    } else {
        let count: int = if rest[1] == 'u' { 4 } else { 8 };
        if rest.len() < 2 + count || !all_digits(rest.subrange(2, 2 + count), 16) {
            None
        } else {
            let value = digits_value(rest.subrange(2, 2 + count), 16);
            if !vstd::utf8::is_scalar(value as u32) {
                None
            } else {
                Some((value as u32 as char, 2 + count))
            }
        }
    }
}

/// The universal character name at the start of `rest` (whose first
/// character is a backslash): the character it names and its length, or
/// `None` when it is malformed or names a disallowed character.
pub open spec fn identifier_ucn(rest: Seq<char>) -> Option<(char, int)> {
    match scanned_ucn(rest) {
        Some((c, n)) => if disallowed_ucn(c as u32) {
            None
        } else {
            Some((c, n))
        },
        None => None,
    }
}

/// The identifier `s` with every universal character name replaced by the
/// character it names, or `None` when one of them is invalid.
pub open spec fn canonical_identifier(s: Seq<char>) -> Option<Seq<char>>
    decreases s.len(),
{
    if s.len() == 0 {
        Some(Seq::empty())
    } else if s[0] != '\\' {
        match canonical_identifier(s.drop_first()) {
            Some(rest) => Some(seq![s[0]] + rest),
            None => None,
        }
    } else {
        match identifier_ucn(s) {
            None => None,
            Some((c, n)) => if 0 < n <= s.len() {
                match canonical_identifier(s.skip(n)) {
                    Some(rest) => Some(seq![c] + rest),
                    None => None,
                }
            } else {
                None
            },
        }
    }
}

/// `done` followed by the canonical form of the rest, when there is one.
pub open spec fn extend_canonical(done: Seq<char>, rest: Seq<char>) -> Option<Seq<char>> {
    match canonical_identifier(rest) {
        Some(tail) => Some(done + tail),
        None => None,
    }
}

/// Scans the universal character name at `s[start..]`.
#[verifier::loop_isolation(false)]
pub fn scan_ucn(s: &Vec<char>, start: usize) -> (result: Option<(char, usize)>)
    requires
        start < s.len(),
        s@[start as int] == '\\',
    ensures
        match result {
            Some((c, n)) => scanned_ucn(s@.skip(start as int)) == Some((c, n as int)) && 0 < n
                <= s.len() - start,
            None => scanned_ucn(s@.skip(start as int)) is None,
        },
{
    let ghost rest = s@.skip(start as int);
    if start + 1 >= s.len() {
        return None;
    }
    let marker = s[start + 1];
    assert(rest[1] == marker);
    let count: usize = if marker == 'u' {
        4
    } else if marker == 'U' {
        8
    } else {
        return None;
    };
    if s.len() - start < 2 + count {
        return None;
    }
    let ghost body = rest.subrange(2, 2 + count as int);
    let mut value: u32 = 0;
    let mut i: usize = 0;
    while i < count
        invariant
            i <= count,
            count == 4 || count == 8,
            start + 2 + count <= s.len(),
            body == s@.subrange(start + 2, start + 2 + count),
            all_digits(body.take(i as int), 16),
            value as int == digits_value(body.take(i as int), 16),
            value < power(16, i as nat),
        decreases count - i,
    {
        let d = digit_value_exec(s[start + 2 + i]);
        assert(body[i as int] == s@[start + 2 + i]);
        if d >= 16 {
            assert(!all_digits(body, 16));
            assert(rest.subrange(2, 2 + count as int) == body);
            assert(rest[1] == marker);
            return None;
        }
        proof {
            let t = body.take(i + 1);
            assert(t.drop_last() =~= body.take(i as int));
            assert(t.last() == body[i as int]);
            assert forall|j: int| 0 <= j < t.len() implies #[trigger] digit_value(t[j]) < 16 by {
                if j < i {
                    assert(t[j] == body.take(i as int)[j]);
                }
            }
            assert(power(16, (i + 1) as nat) == 16 * power(16, i as nat));
            assert(power(16, 8) == 0x1_0000_0000) by {
                reveal_with_fuel(power, 9);
            }
            lemma_power_monotone((i + 1) as nat, 8);
            assert(value * 16 + d < power(16, (i + 1) as nat)) by (nonlinear_arith)
                requires
                    value < power(16, i as nat),
                    d < 16,
                    power(16, (i + 1) as nat) == 16 * power(16, i as nat),
            ;
        }
        value = value * 16 + d;
        i = i + 1;
    }
    assert(body.take(count as int) =~= body);
    assert(rest.subrange(2, 2 + count as int) =~= body);
    let character = match char_from_u32(value) {
        Some(c) => c,
        None => {
            return None;
        },
    };
    assert(value as int == digits_value(body, 16));
    proof {
        vstd::utf8::char_u32_cast(character, value);
    }
    Some((character, 2 + count))
}

/// Decodes the universal character name at `s[start..]`, refusing a
/// disallowed character.
fn decode_identifier_ucn(s: &Vec<char>, start: usize) -> (result: Option<(char, usize)>)
    requires
        start < s.len(),
        s@[start as int] == '\\',
    ensures
        match result {
            Some((c, n)) => identifier_ucn(s@.skip(start as int)) == Some((c, n as int)) && 0 < n
                <= s.len() - start,
            None => identifier_ucn(s@.skip(start as int)) is None,
        },
{
    match scan_ucn(s, start) {
        Some((c, n)) => {
            if is_disallowed_ucn(c) {
                None
            } else {
                Some((c, n))
            }
        },
        None => None,
    }
}

proof fn lemma_power_monotone(i: nat, j: nat)
    requires
        i <= j,
    ensures
        power(16, i) <= power(16, j),
        power(16, i) >= 1,
    decreases j,
{
    if j > 0 {
        if i == j {
            lemma_power_monotone((j - 1) as nat, (j - 1) as nat);
        } else {
            lemma_power_monotone(i, (j - 1) as nat);
        }
    }
}

/// Canonicalizes universal-character-name spellings in an identifier.
pub fn canonicalize_identifier(spelling: &str) -> (result: Option<String>)
    ensures
        match result {
            Some(text) => canonical_identifier(spelling@) == Some(text@),
            None => canonical_identifier(spelling@) is None,
        },
{
    let s = chars_of(spelling);
    let mut output: Vec<char> = Vec::new();
    let mut i: usize = 0;
    assert(s@.skip(0) =~= s@);
    while i < s.len()
        invariant
            i <= s.len(),
            s@ == spelling@,
            canonical_identifier(s@) == extend_canonical(output@, s@.skip(i as int)),
        decreases s.len() - i,
    {
        let ghost rest = s@.skip(i as int);
        let character = s[i];
        assert(rest[0] == character);
        if character != '\\' {
            assert(rest.drop_first() =~= s@.skip(i + 1));
            assert(output@.push(character) =~= output@ + seq![character]);
            proof {
                match canonical_identifier(rest.drop_first()) {
                    Some(tail) => {
                        assert(output@ + (seq![character] + tail) =~= output@.push(character)
                            + tail);
                    },
                    None => {},
                }
            }
            output.push(character);
            i = i + 1;
        } else {
            match decode_identifier_ucn(&s, i) {
                None => {
                    return None;
                },
                Some((decoded, length)) => {
                    assert(rest.skip(length as int) =~= s@.skip(i + length));
                    proof {
                        match canonical_identifier(rest.skip(length as int)) {
                            Some(tail) => {
                                assert(output@ + (seq![decoded] + tail) =~= output@.push(decoded)
                                    + tail);
                            },
                            None => {},
                        }
                    }
                    output.push(decoded);
                    i = i + length;
                },
            }
        }
    }
    assert(s@.skip(i as int).len() == 0);
    assert(output@ + Seq::<char>::empty() =~= output@);
    Some(string_from_chars(output.as_slice()))
}

/// The name an identifier token stands for: its spelling with universal
/// character names decoded, or the spelling itself when one is invalid.
pub open spec fn identifier_name(t: PpToken) -> Seq<char> {
    match canonical_identifier(t.spelling@) {
        Some(text) => text,
        None => t.spelling@,
    }
}

/// A token's fields, its spelling as text.
pub open spec fn token_fields(t: PpToken) -> (PpTokenKind, Span, Seq<char>, bool, bool, usize, bool) {
    (t.kind, t.span, t.spelling@, t.leading_space, t.at_start_of_line, t.logical_line, t.is_system_header)
}

pub open spec fn tokens_fields(ts: Seq<PpToken>) -> Seq<
    (PpTokenKind, Span, Seq<char>, bool, bool, usize, bool),
> {
    ts.map_values(|t: PpToken| token_fields(t))
}

/// A copy of the names `names`.
pub fn copy_names(names: &Vec<String>) -> (result: Vec<String>)
    ensures
        result@ == names@,
{
    let mut copy: Vec<String> = Vec::new();
    let mut i: usize = 0;
    while i < names.len()
        invariant
            i <= names@.len(),
            copy@ == names@.take(i as int),
        decreases names.len() - i,
    {
        copy.push(names[i].clone());
        assert(copy@ =~= names@.take(i + 1));
        i = i + 1;
    }
    assert(names@.take(names@.len() as int) =~= names@);
    copy
}

/// The names of `names` as a set.
pub open spec fn name_view(names: Seq<String>) -> Set<Seq<char>> {
    Set::new(|n: Seq<char>| exists|i: int| 0 <= i < names.len() && (#[trigger] names[i])@ == n)
}

fn holds_name(names: &Vec<String>, name: &str) -> (result: bool)
    ensures
        result == name_view(names@).contains(name@),
{
    let mut i: usize = 0;
    while i < names.len()
        invariant
            i <= names@.len(),
            forall|j: int| 0 <= j < i ==> (#[trigger] names@[j])@ != name@,
        decreases names.len() - i,
    {
        if crate::text::str_eq(names[i].as_str(), name) {
            assert(names@[i as int]@ == name@);
            return true;
        }
        i = i + 1;
    }
    false
}

/// Whether `name` is among `names`.
pub fn has_name(names: &Vec<String>, name: &str) -> (result: bool)
    ensures
        result == name_view(names@).contains(name@),
{
    holds_name(names, name)
}

/// The names in both `left` and `right`.
pub fn names_in_both(left: &Vec<String>, right: &Vec<String>) -> (result: Vec<String>)
    ensures
        name_view(result@) == name_view(left@).intersect(name_view(right@)),
{
    let mut both: Vec<String> = Vec::new();
    let mut i: usize = 0;
    while i < left.len()
        invariant
            i <= left@.len(),
            name_view(both@) == name_view(left@.take(i as int)).intersect(name_view(right@)),
        decreases left.len() - i,
    {
        let ghost before = both@;
        if holds_name(right, left[i].as_str()) {
            both.push(left[i].clone());
        }
        assert(name_view(both@) =~= name_view(left@.take(i + 1)).intersect(name_view(right@))) by {
            assert forall|n: Seq<char>| name_view(both@).contains(n) <==> name_view(left@.take(i + 1)).intersect(
                name_view(right@),
            ).contains(n) by {
                if name_view(both@).contains(n) {
                    let j = choose|j: int| 0 <= j < both@.len() && (#[trigger] both@[j])@ == n;
                    if j < before.len() {
                        assert(name_view(before).contains(n));
                        let k = choose|k: int| 0 <= k < i && (#[trigger] left@.take(i as int)[k])@ == n;
                        assert(left@.take(i + 1)[k] == left@.take(i as int)[k]);
                    } else {
                        assert(left@.take(i + 1)[i as int] == left@[i as int]);
                    }
                }
                if name_view(left@.take(i + 1)).intersect(name_view(right@)).contains(n) {
                    let k = choose|k: int| 0 <= k < i + 1 && (#[trigger] left@.take(i + 1)[k])@ == n;
                    if k < i {
                        assert(left@.take(i as int)[k] == left@.take(i + 1)[k]);
                        assert(name_view(left@.take(i as int)).contains(n));
                        assert(name_view(before).contains(n));
                        let j = choose|j: int| 0 <= j < before.len() && (#[trigger] before[j])@ == n;
                        assert(both@[j] == before[j]);
                    } else {
                        assert(both@[before.len() as int]@ == n);
                    }
                }
            }
        }
        i = i + 1;
    }
    assert(left@.take(left@.len() as int) =~= left@);
    both
}

/// A copy of `t`.
pub fn duplicate_token(t: &PpToken) -> (result: PpToken)
    ensures
        token_fields(result) == token_fields(*t),
        result.hide_set@ == t.hide_set@,
        result.expansion_depth == t.expansion_depth,
{
    PpToken {
        kind: t.kind,
        span: t.span,
        spelling: t.spelling.clone(),
        leading_space: t.leading_space,
        at_start_of_line: t.at_start_of_line,
        logical_line: t.logical_line,
        is_system_header: t.is_system_header,
        hide_set: copy_names(&t.hide_set),
        expansion_depth: t.expansion_depth,
    }
}

impl PpToken {
    /// A token made by the preprocessor itself, at `span`: no space before
    /// it, not at a line start, on line one, outside system headers.
    pub fn synthetic(kind: PpTokenKind, span: Span, spelling: String) -> (result: PpToken)
        ensures
            token_fields(result) == (kind, span, spelling@, false, false, 1usize, false),
    {
        PpToken {
            kind,
            span,
            spelling,
            leading_space: false,
            at_start_of_line: false,
            logical_line: 1,
            is_system_header: false,
            hide_set: Vec::new(),
            expansion_depth: 0,
        }
    }

    /// The name the token stands for: its spelling with universal character
    /// names decoded, or the spelling itself when one is invalid.
    pub fn identifier_key(&self) -> (result: String)
        ensures
            result@ == match canonical_identifier(self.spelling@) {
                Some(text) => text,
                None => self.spelling@,
            },
    {
        match canonicalize_identifier(self.spelling.as_str()) {
            Some(text) => text,
            None => self.spelling.clone(),
        }
    }
}

} // verus!

verus! {

/// An identifier spelled without universal character names is its own
/// canonical name.
pub proof fn lemma_plain_identifier_is_canonical(s: Seq<char>)
    requires
        forall|i: int| 0 <= i < s.len() ==> s[i] != '\\',
    ensures
        canonical_identifier(s) == Some(s),
    decreases s.len(),
{
    if s.len() > 0 {
        let rest = s.drop_first();
        assert forall|i: int| 0 <= i < rest.len() implies rest[i] != '\\' by {
            assert(rest[i] == s[i + 1]);
        }
        lemma_plain_identifier_is_canonical(rest);
        assert(seq![s[0]] + rest =~= s);
    }
}

/// A canonical identifier holds no backslash: every universal character
/// name was decoded, and none decodes to a backslash.
pub proof fn lemma_canonical_identifier_has_no_backslash(s: Seq<char>)
    ensures
        canonical_identifier(s) matches Some(t) ==> forall|i: int| 0 <= i < t.len() ==> t[i] != '\\',
    decreases s.len(),
{
    if s.len() > 0 {
        if s[0] != '\\' {
            lemma_canonical_identifier_has_no_backslash(s.drop_first());
            if let Some(t) = canonical_identifier(s) {
                let rest = canonical_identifier(s.drop_first())->0;
                assert forall|i: int| 0 <= i < t.len() implies t[i] != '\\' by {
                    if i > 0 {
                        assert(t[i] == rest[i - 1]);
                    }
                }
            }
        } else {
            if let Some((c, n)) = identifier_ucn(s) {
                if 0 < n <= s.len() {
                    lemma_canonical_identifier_has_no_backslash(s.skip(n));
                    assert(!disallowed_ucn(c as u32));
                    assert(c != '\\');
                    if let Some(t) = canonical_identifier(s) {
                        let rest = canonical_identifier(s.skip(n))->0;
                        assert forall|i: int| 0 <= i < t.len() implies t[i] != '\\' by {
                            if i > 0 {
                                assert(t[i] == rest[i - 1]);
                            }
                        }
                    }
                }
            }
        }
    }
}

/// Canonicalizing an identifier twice gives what canonicalizing it once
/// gives.
pub proof fn lemma_canonical_identifier_is_idempotent(s: Seq<char>)
    ensures
        canonical_identifier(s) matches Some(t) ==> canonical_identifier(t) == Some(t),
{
    lemma_canonical_identifier_has_no_backslash(s);
    if let Some(t) = canonical_identifier(s) {
        lemma_plain_identifier_is_canonical(t);
    }
}

/// Canonicalizing an identifier fails exactly where one of its
/// backslashes does not start a universal character name that is well
/// formed, names a Unicode scalar value and is allowed in an identifier.
pub proof fn lemma_canonical_identifier_fails_at_a_bad_escape(s: Seq<char>)
    ensures
        canonical_identifier(s) is None <==> exists|i: int|
            0 <= i < s.len() && s[i] == '\\' && #[trigger] identifier_ucn(s.skip(i)) is None,
    decreases s.len(),
{
    if s.len() == 0 {
    } else if s[0] != '\\' {
        let rest = s.drop_first();
        lemma_canonical_identifier_fails_at_a_bad_escape(rest);
        if canonical_identifier(rest) is None {
            let j = choose|j: int| 0 <= j < rest.len() && rest[j] == '\\' && #[trigger] identifier_ucn(rest.skip(j)) is None;
            assert(s.skip(j + 1) =~= rest.skip(j));
            assert(identifier_ucn(s.skip(j + 1)) is None);
        } else {
            assert forall|i: int| 0 <= i < s.len() && s[i] == '\\' implies !(#[trigger] identifier_ucn(s.skip(i)) is None) by {
                assert(i >= 1);
                assert(s.skip(i) =~= rest.skip(i - 1));
                assert(rest[i - 1] == s[i]);
            }
        }
    } else {
        assert(s.skip(0) =~= s);
        match identifier_ucn(s) {
            None => {
                assert(identifier_ucn(s.skip(0)) is None);
            },
            Some((c, n)) => {
                let rest = s.skip(n);
                lemma_canonical_identifier_fails_at_a_bad_escape(rest);
                if canonical_identifier(rest) is None {
                    let j = choose|j: int| 0 <= j < rest.len() && rest[j] == '\\' && #[trigger] identifier_ucn(rest.skip(j)) is None;
                    assert(s.skip(n + j) =~= rest.skip(j));
                    assert(identifier_ucn(s.skip(n + j)) is None);
                } else {
                    assert forall|i: int| 0 <= i < s.len() && s[i] == '\\' implies !(#[trigger] identifier_ucn(s.skip(i)) is None) by {
                        if i == 0 {
                            assert(s.skip(0) =~= s);
                        } else if i < n {
                            if i >= 2 {
                                let count: int = n - 2;
                                assert(s.subrange(2, 2 + count)[i - 2] == s[i]);
                                assert(digit_value(s.subrange(2, 2 + count)[i - 2]) < 16);
                            }
                        } else {
                            assert(s.skip(i) =~= rest.skip(i - n));
                            assert(rest[i - n] == s[i]);
                        }
                    }
                }
            },
        }
    }
}

/// The laws of canonicalization together: a spelling without a backslash
/// is its own canonical form; a canonical form holds no backslash and is
/// its own canonical form; and canonicalization fails exactly at a
/// backslash that starts no valid, allowed universal character name.
pub proof fn lemma_canonicalization_laws(s: Seq<char>)
    ensures
        (forall|i: int| 0 <= i < s.len() ==> s[i] != '\\') ==> canonical_identifier(s) == Some(s),
        canonical_identifier(s) matches Some(t) ==> (forall|i: int| 0 <= i < t.len() ==> t[i] != '\\')
            && canonical_identifier(t) == Some(t),
        canonical_identifier(s) is None <==> exists|i: int|
            0 <= i < s.len() && s[i] == '\\' && #[trigger] identifier_ucn(s.skip(i)) is None,
{
    if forall|i: int| 0 <= i < s.len() ==> s[i] != '\\' {
        lemma_plain_identifier_is_canonical(s);
    }
    lemma_canonical_identifier_has_no_backslash(s);
    lemma_canonical_identifier_is_idempotent(s);
    lemma_canonical_identifier_fails_at_a_bad_escape(s);
}

} // verus!
