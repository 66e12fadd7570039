//! Formation of C preprocessing tokens from a normalized source.
//!
//! The tokenizer is stated as a specification over the normalized
//! characters: at each position it skips a newline, whitespace or a comment,
//! or forms the longest token that starts there. A malformed token is an
//! error of its line and tokenization resumes after it; an unterminated
//! block comment ends tokenization.

use vstd::prelude::*;

use crate::pp::literal::{
    character_ucns, chars_to_string, validate_character_constant_ucns, LiteralError,
};
use crate::pp::normalize::{
    normalize, normalized_units, original_range, physical_line_at, NormalizeOptions,
    NormalizedSource, SourceChar,
};
use crate::pp::token::{
    canonical_identifier, canonicalize_identifier, scan_ucn, scanned_ucn, PpToken, PpTokenKind,
    Span,
};
use crate::text::utf8_len;

verus! {

#[derive(Clone, Copy, Debug, Default, PartialEq, Eq, Structural)]
pub struct LexerOptions {
    pub trigraphs: bool,
    pub warn_trigraphs: bool,
}

/// The code of an unterminated character constant or string literal.
pub const UNTERMINATED_LITERAL: &'static str = "CCC0002";

/* Character classes */

pub open spec fn is_digit(c: char) -> bool {
    0x30 <= c as u32 <= 0x39
}

pub open spec fn is_letter(c: char) -> bool {
    (0x41 <= c as u32 <= 0x5a) || (0x61 <= c as u32 <= 0x7a)
}

/// ASCII whitespace as std classifies it, and the vertical tab.
pub open spec fn is_blank(c: char) -> bool {
    c == ' ' || c == '\t' || c == '\n' || c == '\x0c' || c == '\r' || c == '\x0b'
}

/// A character that may start an identifier: `_`, `$`, a letter, or any
/// character beyond ASCII (every alphabetic character beyond the ASCII letters
/// lies there).
pub open spec fn identifier_start(c: char) -> bool {
    c == '_' || c == '$' || is_letter(c) || c as u32 >= 0x80
}

/// A character that may continue an identifier: a start character or a
/// digit (every numeric character beyond the ASCII digits lies beyond ASCII).
pub open spec fn identifier_continue(c: char) -> bool {
    identifier_start(c) || is_digit(c)
}

fn is_digit_exec(c: char) -> (result: bool)
    ensures
        result == is_digit(c),
{
    let v = c as u32;
    0x30 <= v && v <= 0x39
}

fn is_letter_exec(c: char) -> (result: bool)
    ensures
        result == is_letter(c),
{
    let v = c as u32;
    (0x41 <= v && v <= 0x5a) || (0x61 <= v && v <= 0x7a)
}

fn identifier_start_exec(c: char) -> (result: bool)
    ensures
        result == identifier_start(c),
{
    c == '_' || c == '$' || is_letter_exec(c) || c as u32 >= 0x80
}

fn identifier_continue_exec(c: char) -> (result: bool)
    ensures
        result == identifier_continue(c),
{
    identifier_start_exec(c) || is_digit_exec(c)
}

/* Scanners over the normalized characters `s` */

/// The index of the first newline at or after `k`, or the end.
pub open spec fn line_end(s: Seq<char>, k: int) -> int
    decreases s.len() - k,
{
    if k < 0 || k >= s.len() || s[k] == '\n' {
        if k < 0 {
            0
        } else if k > s.len() {
            s.len() as int
        } else {
            k
        }
    } else {
        line_end(s, k + 1)
    }
}

fn line_end_exec(s: &Vec<char>, k: usize) -> (result: usize)
    requires
        k <= s.len(),
    ensures
        result == line_end(s@, k as int),
        k <= result <= s.len(),
        k < s.len() && s@[k as int] != '\n' ==> k < result,
{
    let mut i = k;
    while i < s.len() && s[i] != '\n'
        invariant
            k <= i <= s.len(),
            line_end(s@, k as int) == line_end(s@, i as int),
        decreases s.len() - i,
    {
        i = i + 1;
    }
    i
}

/// The index just past the `*/` that closes a block comment whose body
/// starts at `k`.
pub open spec fn block_end(s: Seq<char>, k: int) -> Option<int>
    decreases s.len() - k,
{
    if k < 0 || k >= s.len() {
        None
    } else if s[k] == '*' && k + 1 < s.len() && s[k + 1] == '/' {
        Some(k + 2)
    } else {
        block_end(s, k + 1)
    }
}

fn block_end_exec(s: &Vec<char>, k: usize) -> (result: Option<usize>)
    requires
        k <= s.len(),
    ensures
        match result {
            Some(e) => block_end(s@, k as int) == Some(e as int),
            None => block_end(s@, k as int) is None,
        },
        result matches Some(e) ==> k + 2 <= e <= s.len(),
{
    let mut i = k;
    while i < s.len()
        invariant
            k <= i <= s.len(),
            block_end(s@, k as int) == block_end(s@, i as int),
        decreases s.len() - i,
    {
        if s[i] == '*' && i + 1 < s.len() && s[i + 1] == '/' {
            return Some(i + 2);
        }
        i = i + 1;
    }
    None
}

/// How far a quoted literal's scan moves from `k`: past an escaped
/// character, or past one character.
pub open spec fn quoted_step(s: Seq<char>, k: int) -> int {
    if s[k] == '\\' && k + 1 < s.len() {
        2
    } else {
        1
    }
}

/// The index just past the closing `quote` of a literal whose body starts at
/// `k`; `None` when a newline or the end comes first.
pub open spec fn quoted_end(s: Seq<char>, quote: char, k: int) -> Option<int>
    decreases s.len() - k,
{
    if k < 0 || k >= s.len() {
        None
    } else if quoted_step(s, k) == 1 && s[k] == quote {
        Some(k + 1)
    } else if quoted_step(s, k) == 1 && s[k] == '\n' {
        None
    } else {
        quoted_end(s, quote, k + quoted_step(s, k))
    }
}

fn quoted_end_exec(s: &Vec<char>, quote: char, k: usize) -> (result: Option<usize>)
    requires
        k <= s.len(),
    ensures
        match result {
            Some(e) => quoted_end(s@, quote, k as int) == Some(e as int),
            None => quoted_end(s@, quote, k as int) is None,
        },
        result matches Some(e) ==> k < e <= s.len(),
{
    let mut i = k;
    while i < s.len()
        invariant
            k <= i <= s.len(),
            quoted_end(s@, quote, k as int) == quoted_end(s@, quote, i as int),
        decreases s.len() - i,
    {
        let step: usize = if s[i] == '\\' && i + 1 < s.len() {
            2
        } else {
            1
        };
        if step == 1 && s[i] == quote {
            return Some(i + 1);
        }
        if step == 1 && s[i] == '\n' {
            return None;
        }
        i = i + step;
    }
    None
}

/// The length of the encoding prefix (`u8`, `u`, `U` or `L`) of a literal at
/// `i`, or 0 when no prefixed literal starts there.
pub open spec fn prefix_len(s: Seq<char>, i: int) -> int {
    if i + 2 < s.len() && s[i] == 'u' && s[i + 1] == '8' && (s[i + 2] == '\'' || s[i + 2] == '"') {
        2
    } else if i + 1 < s.len() && (s[i] == 'u' || s[i] == 'U' || s[i] == 'L') && (s[i + 1] == '\''
        || s[i + 1] == '"') {
        1
    } else {
        0
    }
}

fn prefix_len_exec(s: &Vec<char>, i: usize) -> (result: usize)
    requires
        i < s.len(),
    ensures
        result == prefix_len(s@, i as int),
{
    let n = s.len();
    if n - i > 2 && s[i] == 'u' && s[i + 1] == '8' && (s[i + 2] == '\'' || s[i + 2] == '"') {
        2
    } else if n - i > 1 && (s[i] == 'u' || s[i] == 'U' || s[i] == 'L') && (s[i + 1] == '\''
        || s[i + 1] == '"') {
        1
    } else {
        0
    }
}

/// The identifier character at `k`, spelled directly or as a universal
/// character name, with its length.
pub open spec fn identifier_char(s: Seq<char>, k: int) -> Option<(int, char)> {
    if k < 0 || k >= s.len() {
        None
    } else if s[k] == '\\' && k + 1 < s.len() && (s[k + 1] == 'u' || s[k + 1] == 'U') {
        match scanned_ucn(s.skip(k)) {
            Some((c, n)) => Some((n, c)),
            None => None,
        }
    } else {
        Some((1, s[k]))
    }
}

fn identifier_char_exec(s: &Vec<char>, k: usize) -> (result: Option<(usize, char)>)
    requires
        k <= s.len(),
    ensures
        match result {
            Some((n, c)) => identifier_char(s@, k as int) == Some((n as int, c)) && 0 < n <= s.len()
                - k,
            None => identifier_char(s@, k as int) is None,
        },
{
    if k >= s.len() {
        return None;
    }
    if s[k] == '\\' && k + 1 < s.len() && (s[k + 1] == 'u' || s[k + 1] == 'U') {
        match scan_ucn(s, k) {
            Some((c, n)) => Some((n, c)),
            None => None,
        }
    } else {
        Some((1, s[k]))
    }
}

/// The end of the identifier characters that continue an identifier from `k`.
pub open spec fn identifier_end(s: Seq<char>, k: int) -> int
    decreases s.len() - k,
{
    if k < 0 || k >= s.len() {
        k
    } else {
        match identifier_char(s, k) {
            Some((n, c)) => if identifier_continue(c) && 0 < n <= s.len() - k {
                identifier_end(s, k + n)
            } else {
                k
            },
            None => k,
        }
    }
}

/// The end of the identifier that starts at `i`, if one does.
pub open spec fn scan_identifier(s: Seq<char>, i: int) -> Option<int> {
    match identifier_char(s, i) {
        Some((n, c)) => if identifier_start(c) {
            Some(identifier_end(s, i + n))
        } else {
            None
        },
        None => None,
    }
}

fn scan_identifier_exec(s: &Vec<char>, i: usize) -> (result: Option<usize>)
    requires
        i <= s.len(),
    ensures
        match result {
            Some(e) => scan_identifier(s@, i as int) == Some(e as int),
            None => scan_identifier(s@, i as int) is None,
        },
        result matches Some(e) ==> i < e <= s.len(),
{
    let first = match identifier_char_exec(s, i) {
        None => {
            return None;
        },
        Some((n, c)) => {
            if !identifier_start_exec(c) {
                return None;
            }
            n
        },
    };
    let mut k = i + first;
    while k < s.len()
        invariant
            i < k <= s.len(),
            scan_identifier(s@, i as int) == Some(identifier_end(s@, k as int)),
        decreases s.len() - k,
    {
        match identifier_char_exec(s, k) {
            Some((n, c)) => {
                if identifier_continue_exec(c) {
                    k = k + n;
                } else {
                    return Some(k);
                }
            },
            None => {
                return Some(k);
            },
        }
    }
    Some(k)
}

/// How far a pp-number extends from `k` in one step: over one character that
/// continues it, over a universal character name, or not at all.
pub open spec fn number_step(s: Seq<char>, k: int) -> int {
    let c = s[k];
    if is_digit(c) || is_letter(c) || c == '.' || c == '_' || ((c == '+' || c == '-') && k > 0 && (
    s[k - 1] == 'e' || s[k - 1] == 'E' || s[k - 1] == 'p' || s[k - 1] == 'P')) {
        1
    } else if c == '\\' && k + 1 < s.len() && (s[k + 1] == 'u' || s[k + 1] == 'U') {
        let length: int = if s[k + 1] == 'u' {
            6
        } else {
            10
        };
        if k + length <= s.len() && crate::text::all_digits(s.subrange(k + 2, k + length), 16) {
            length
        } else {
            0
        }
    } else {
        0
    }
}

/// The end of the pp-number continued from `k`.
pub open spec fn number_end(s: Seq<char>, k: int) -> int
    decreases s.len() - k,
{
    if k < 0 || k >= s.len() || number_step(s, k) <= 0 || number_step(s, k) > s.len() - k {
        k
    } else {
        number_end(s, k + number_step(s, k))
    }
}

fn hex_digits(s: &Vec<char>, from: usize, end: usize) -> (result: bool)
    requires
        from <= end <= s.len(),
    ensures
        result == crate::text::all_digits(s@.subrange(from as int, end as int), 16),
{
    let mut i = from;
    while i < end
        invariant
            from <= i <= end <= s.len(),
            crate::text::all_digits(s@.subrange(from as int, i as int), 16),
        decreases end - i,
    {
        if crate::text::digit_value_exec(s[i]) >= 16 {
            assert(s@.subrange(from as int, end as int)[i - from] == s@[i as int]);
            return false;
        }
        i = i + 1;
        assert forall|j: int| 0 <= j < i - from implies #[trigger] crate::text::digit_value(
            s@.subrange(from as int, i as int)[j],
        ) < 16 by {
            if j < i - 1 - from {
                assert(s@.subrange(from as int, i as int)[j] == s@.subrange(from as int, i - 1)[j]);
            }
        }
    }
    true
}

fn number_step_exec(s: &Vec<char>, k: usize) -> (result: usize)
    requires
        0 < k < s.len(),
    ensures
        result == number_step(s@, k as int),
        result <= s.len() - k,
{
    let c = s[k];
    let p = s[k - 1];
    if is_digit_exec(c) || is_letter_exec(c) || c == '.' || c == '_' || ((c == '+' || c == '-') && (
    p == 'e' || p == 'E' || p == 'p' || p == 'P')) {
        1
    } else if c == '\\' && k + 1 < s.len() && (s[k + 1] == 'u' || s[k + 1] == 'U') {
        let length: usize = if s[k + 1] == 'u' {
            6
        } else {
            10
        };
        if s.len() - k >= length && hex_digits(s, k + 2, k + length) {
            length
        } else {
            0
        }
    } else {
        0
    }
}

fn number_end_exec(s: &Vec<char>, k: usize) -> (result: usize)
    requires
        0 < k <= s.len(),
    ensures
        result == number_end(s@, k as int),
        k <= result <= s.len(),
{
    let mut i = k;
    while i < s.len()
        invariant
            0 < k <= i <= s.len(),
            number_end(s@, k as int) == number_end(s@, i as int),
        decreases s.len() - i,
    {
        let step = number_step_exec(s, i);
        if step == 0 {
            return i;
        }
        i = i + step;
    }
    i
}

/// A two-character punctuator.
pub open spec fn punctuator2(a: char, b: char) -> bool {
    (a == '-' && b == '>') || (a == '+' && b == '+') || (a == '-' && b == '-') || (a == '<' && b
        == '<') || (a == '>' && b == '>') || (a == '<' && b == '=') || (a == '>' && b == '=') || (a
        == '=' && b == '=') || (a == '!' && b == '=') || (a == '&' && b == '&') || (a == '|' && b
        == '|') || (a == '*' && b == '=') || (a == '/' && b == '=') || (a == '%' && b == '=') || (a
        == '+' && b == '=') || (a == '-' && b == '=') || (a == '&' && b == '=') || (a == '^' && b
        == '=') || (a == '|' && b == '=') || (a == '#' && b == '#') || (a == '<' && b == ':') || (a
        == ':' && b == '>') || (a == '<' && b == '%') || (a == '%' && b == '>') || (a == '%' && b
        == ':')
}

/// A three-character punctuator.
pub open spec fn punctuator3(a: char, b: char, c: char) -> bool {
    (a == '<' && b == '<' && c == '=') || (a == '>' && b == '>' && c == '=') || (a == '.' && b
        == '.' && c == '.')
}

/// A one-character punctuator.
pub open spec fn punctuator1(c: char) -> bool {
    c == '[' || c == ']' || c == '(' || c == ')' || c == '{' || c == '}' || c == '.' || c == ','
        || c == ';' || c == ':' || c == '?' || c == '~' || c == '!' || c == '+' || c == '-' || c
        == '*' || c == '/' || c == '%' || c == '&' || c == '|' || c == '^' || c == '<' || c == '>'
        || c == '=' || c == '#'
}

/// The length of the longest punctuator at `i`.
pub open spec fn punctuator_len(s: Seq<char>, i: int) -> Option<int> {
    if i + 3 < s.len() && s[i] == '%' && s[i + 1] == ':' && s[i + 2] == '%' && s[i + 3] == ':' {
        Some(4)
    } else if i + 2 < s.len() && punctuator3(s[i], s[i + 1], s[i + 2]) {
        Some(3)
    } else if i + 1 < s.len() && punctuator2(s[i], s[i + 1]) {
        Some(2)
    } else if 0 <= i < s.len() && punctuator1(s[i]) {
        Some(1)
    } else {
        None
    }
}

fn punctuator2_exec(a: char, b: char) -> (result: bool)
    ensures
        result == punctuator2(a, b),
{
    (a == '-' && b == '>') || (a == '+' && b == '+') || (a == '-' && b == '-') || (a == '<' && b
        == '<') || (a == '>' && b == '>') || (a == '<' && b == '=') || (a == '>' && b == '=') || (a
        == '=' && b == '=') || (a == '!' && b == '=') || (a == '&' && b == '&') || (a == '|' && b
        == '|') || (a == '*' && b == '=') || (a == '/' && b == '=') || (a == '%' && b == '=') || (a
        == '+' && b == '=') || (a == '-' && b == '=') || (a == '&' && b == '=') || (a == '^' && b
        == '=') || (a == '|' && b == '=') || (a == '#' && b == '#') || (a == '<' && b == ':') || (a
        == ':' && b == '>') || (a == '<' && b == '%') || (a == '%' && b == '>') || (a == '%' && b
        == ':')
}

fn punctuator1_exec(c: char) -> (result: bool)
    ensures
        result == punctuator1(c),
{
    c == '[' || c == ']' || c == '(' || c == ')' || c == '{' || c == '}' || c == '.' || c == ','
        || c == ';' || c == ':' || c == '?' || c == '~' || c == '!' || c == '+' || c == '-' || c
        == '*' || c == '/' || c == '%' || c == '&' || c == '|' || c == '^' || c == '<' || c == '>'
        || c == '=' || c == '#'
}

fn punctuator_len_exec(s: &Vec<char>, i: usize) -> (result: Option<usize>)
    requires
        i < s.len(),
    ensures
        match result {
            Some(l) => punctuator_len(s@, i as int) == Some(l as int),
            None => punctuator_len(s@, i as int) is None,
        },
        result matches Some(l) ==> 0 < l <= s.len() - i,
{
    let n = s.len();
    if n - i > 3 && s[i] == '%' && s[i + 1] == ':' && s[i + 2] == '%' && s[i + 3] == ':' {
        Some(4)
    } else if n - i > 2 && ((s[i] == '<' && s[i + 1] == '<' && s[i + 2] == '=') || (s[i] == '>'
        && s[i + 1] == '>' && s[i + 2] == '=') || (s[i] == '.' && s[i + 1] == '.' && s[i + 2]
        == '.')) {
        Some(3)
    } else if n - i > 1 && punctuator2_exec(s[i], s[i + 1]) {
        Some(2)
    } else if punctuator1_exec(s[i]) {
        Some(1)
    } else {
        None
    }
}

/* Tokens and errors over normalized positions */

/// A token formed over the normalized characters `start..end`.
pub struct RawToken {
    pub kind: PpTokenKind,
    pub start: int,
    pub end: int,
    pub leading_space: bool,
    pub at_start_of_line: bool,
}

/// An error over the normalized characters `start..end`.
pub struct RawError {
    pub code: Seq<char>,
    pub start: int,
    pub end: int,
    pub message: Seq<char>,
}

/// The error of an unterminated literal at `i`, which covers the rest of the
/// line, and where tokenization resumes: at that line's end.
pub open spec fn unterminated(s: Seq<char>, i: int) -> (RawError, int) {
    (
        RawError {
            code: UNTERMINATED_LITERAL@,
            start: i,
            end: line_end(s, i),
            message: "unterminated literal"@,
        },
        line_end(s, i),
    )
}

/// A literal `s[i..end]` of `kind`, once its universal character names are
/// checked when it is a character constant.
pub open spec fn checked_literal(s: Seq<char>, i: int, kind: PpTokenKind, end: int) -> Result<
    (PpTokenKind, int),
    (RawError, int),
> {
    if kind == PpTokenKind::CharacterConstant {
        match character_ucns(s.subrange(i, end)) {
            Err(message) => Err((RawError { code: "CCC0006"@, start: i, end, message }, end)),
            Ok(()) => Ok((kind, end)),
        }
    } else {
        Ok((kind, end))
    }
}

/// The literal kind a quote opens.
pub open spec fn quote_kind(q: char) -> PpTokenKind {
    if q == '\'' {
        PpTokenKind::CharacterConstant
    } else {
        PpTokenKind::StringLiteral
    }
}

/// The token that starts at `i` (not whitespace and not a comment), with its
/// kind and end; or its error with where tokenization resumes.
pub open spec fn token_scan(s: Seq<char>, i: int) -> Result<(PpTokenKind, int), (RawError, int)> {
    let p = prefix_len(s, i);
    if p > 0 {
        let q = s[i + p];
        match quoted_end(s, q, i + p + 1) {
            None => Err(unterminated(s, i)),
            Some(end) => if p == 2 && q == '\'' {
                Err(
                    (
                        RawError {
                            code: "CCC0005"@,
                            start: i,
                            end,
                            message: "the u8 prefix is not valid on a character constant"@,
                        },
                        end,
                    ),
                )
            } else {
                checked_literal(s, i, quote_kind(q), end)
            },
        }
    } else {
        match scan_identifier(s, i) {
            Some(end) => if canonical_identifier(s.subrange(i, end)) is None {
                Err(
                    (
                        RawError {
                            code: "CCC0004"@,
                            start: i,
                            end,
                            message: "invalid universal character name in identifier"@,
                        },
                        end,
                    ),
                )
            } else {
                Ok((PpTokenKind::Identifier, end))
            },
            None => if is_digit(s[i]) || (s[i] == '.' && i + 1 < s.len() && is_digit(s[i + 1])) {
                Ok((PpTokenKind::PpNumber, number_end(s, i + 1)))
            } else if s[i] == '\'' || s[i] == '"' {
                match quoted_end(s, s[i], i + 1) {
                    None => Err(unterminated(s, i)),
                    Some(end) => checked_literal(s, i, quote_kind(s[i]), end),
                }
            } else {
                match punctuator_len(s, i) {
                    Some(l) => Ok((PpTokenKind::Punctuator, i + l)),
                    None => Ok((PpTokenKind::Punctuator, i + 1)),
                }
            },
        }
    }
}

/// One step of tokenization at `i`.
pub enum LexStep {
    /// Tokenization stops with this error.
    Fatal(RawError),
    /// Whitespace or a comment is skipped: where to resume, and whether the
    /// next token then starts a line and follows whitespace.
    Skip(int, bool, bool),
    /// A token is formed.
    Emit(RawToken),
    /// A malformed token is reported; where to resume.
    Fail(RawError, int),
}

pub open spec fn lex_step(s: Seq<char>, i: int, at_start: bool, pending: bool) -> LexStep {
    let c = s[i];
    if c == '\n' {
        LexStep::Skip(i + 1, true, false)
    } else if is_blank(c) {
        LexStep::Skip(i + 1, at_start, true)
    } else if c == '/' && i + 1 < s.len() && s[i + 1] == '/' {
        LexStep::Skip(line_end(s, i + 2), at_start, true)
    } else if c == '/' && i + 1 < s.len() && s[i + 1] == '*' {
        match block_end(s, i + 2) {
            None => LexStep::Fatal(
                RawError {
                    code: "CCC0001"@,
                    start: i,
                    end: s.len() as int,
                    message: "unterminated block comment"@,
                },
            ),
            Some(e) => LexStep::Skip(e, at_start, true),
        }
    } else {
        match token_scan(s, i) {
            Ok((kind, end)) => LexStep::Emit(
                RawToken { kind, start: i, end, leading_space: pending, at_start_of_line: at_start },
            ),
            Err((error, next)) => LexStep::Fail(error, next),
        }
    }
}

/// Where tokenization resumes after `step`.
pub open spec fn step_next(step: LexStep, i: int) -> int {
    match step {
        LexStep::Fatal(_) => i,
        LexStep::Skip(next, _, _) => next,
        LexStep::Emit(token) => token.end,
        LexStep::Fail(_, next) => next,
    }
}

/// Whether the next token starts a line after `step`.
pub open spec fn step_at_start(step: LexStep, at_start: bool) -> bool {
    match step {
        LexStep::Skip(_, a, _) => a,
        LexStep::Emit(_) => false,
        _ => at_start,
    }
}

/// Whether the next token follows whitespace after `step`.
pub open spec fn step_pending(step: LexStep, pending: bool) -> bool {
    match step {
        LexStep::Skip(_, _, p) => p,
        LexStep::Emit(_) => false,
        _ => pending,
    }
}

/// What tokenization yields: an error that stops it, or the tokens and the
/// errors of malformed tokens, in source order.
pub enum LexOutcome {
    Fatal(RawError),
    Lexed(Seq<RawToken>, Seq<RawError>),
}

/// `rest` preceded by what `step` yields.
pub open spec fn after_step(step: LexStep, rest: LexOutcome) -> LexOutcome {
    match rest {
        LexOutcome::Fatal(error) => LexOutcome::Fatal(error),
        LexOutcome::Lexed(tokens, errors) => match step {
            LexStep::Emit(token) => LexOutcome::Lexed(seq![token] + tokens, errors),
            LexStep::Fail(error, _) => LexOutcome::Lexed(tokens, seq![error] + errors),
            _ => LexOutcome::Lexed(tokens, errors),
        },
    }
}

/// Tokenization of `s` from `i`.
pub open spec fn lex_from(s: Seq<char>, i: int, at_start: bool, pending: bool) -> LexOutcome
    decreases s.len() - i,
{
    if i < 0 || i >= s.len() {
        LexOutcome::Lexed(Seq::empty(), Seq::empty())
    } else {
        let step = lex_step(s, i, at_start, pending);
        if step is Fatal {
            LexOutcome::Fatal(step->Fatal_0)
        } else if !(i < step_next(step, i) <= s.len()) {
            LexOutcome::Lexed(Seq::empty(), Seq::empty())
        } else {
            after_step(
                step,
                lex_from(
                    s,
                    step_next(step, i),
                    step_at_start(step, at_start),
                    step_pending(step, pending),
                ),
            )
        }
    }
}

/// `rest` preceded by `tokens` and `errors`.
pub open spec fn preceded(tokens: Seq<RawToken>, errors: Seq<RawError>, rest: LexOutcome) -> LexOutcome {
    match rest {
        LexOutcome::Fatal(error) => LexOutcome::Fatal(error),
        LexOutcome::Lexed(t, e) => LexOutcome::Lexed(tokens + t, errors + e),
    }
}

/* Executable tokenization */

/// A token over the normalized characters `start..end`.
#[derive(Clone, Copy, Debug)]
pub struct TokenRange {
    pub kind: PpTokenKind,
    pub start: usize,
    pub end: usize,
    pub leading_space: bool,
    pub at_start_of_line: bool,
}

/// An error over the normalized characters `start..end`.
#[derive(Clone, Debug)]
pub struct ErrorRange {
    pub code: &'static str,
    pub start: usize,
    pub end: usize,
    pub message: String,
}

pub open spec fn token_view(t: TokenRange) -> RawToken {
    RawToken {
        kind: t.kind,
        start: t.start as int,
        end: t.end as int,
        leading_space: t.leading_space,
        at_start_of_line: t.at_start_of_line,
    }
}

pub open spec fn error_view(e: ErrorRange) -> RawError {
    RawError { code: e.code@, start: e.start as int, end: e.end as int, message: e.message@ }
}

pub open spec fn token_views(v: Seq<TokenRange>) -> Seq<RawToken> {
    Seq::new(v.len(), |k: int| token_view(v[k]))
}

pub open spec fn error_views(v: Seq<ErrorRange>) -> Seq<RawError> {
    Seq::new(v.len(), |k: int| error_view(v[k]))
}

/// The executable form of a step.
pub enum StepResult {
    Fatal(ErrorRange),
    Skip(usize, bool, bool),
    Emit(TokenRange),
    Fail(ErrorRange, usize),
}

pub open spec fn step_view(step: StepResult) -> LexStep {
    match step {
        StepResult::Fatal(e) => LexStep::Fatal(error_view(e)),
        StepResult::Skip(n, a, p) => LexStep::Skip(n as int, a, p),
        StepResult::Emit(t) => LexStep::Emit(token_view(t)),
        StepResult::Fail(e, n) => LexStep::Fail(error_view(e), n as int),
    }
}

fn unterminated_exec(s: &Vec<char>, i: usize) -> (result: (ErrorRange, usize))
    requires
        i < s.len(),
    ensures
        (error_view(result.0), result.1 as int) == unterminated(s@, i as int),
        s@[i as int] != '\n' ==> i < result.1 <= s.len(),
        result.0.start == i && i <= result.0.end <= s.len(),
{
    let end = line_end_exec(s, i);
    (ErrorRange { code: UNTERMINATED_LITERAL, start: i, end, message: "unterminated literal".to_owned() }, end)
}

fn checked_literal_exec(s: &Vec<char>, i: usize, kind: PpTokenKind, end: usize) -> (result: Result<
    (PpTokenKind, usize),
    (ErrorRange, usize),
>)
    requires
        i < end <= s.len(),
    ensures
        match result {
            Ok((k, e)) => checked_literal(s@, i as int, kind, end as int) == Ok::<
                (PpTokenKind, int),
                (RawError, int),
            >((k, e as int)) && e == end,
            Err((error, next)) => checked_literal(s@, i as int, kind, end as int) == Err::<
                (PpTokenKind, int),
                (RawError, int),
            >((error_view(error), next as int)) && next == end && error.start == i && error.end
                == end,
        },
{
    if kind == PpTokenKind::CharacterConstant {
        let spelling = chars_to_string(s, i, end);
        match validate_character_constant_ucns(spelling.as_str()) {
            Err(error) => Err((ErrorRange { code: "CCC0006", start: i, end, message: error.message }, end)),
            Ok(()) => Ok((kind, end)),
        }
    } else {
        Ok((kind, end))
    }
}

fn token_scan_exec(s: &Vec<char>, i: usize) -> (result: Result<(PpTokenKind, usize), (ErrorRange, usize)>)
    requires
        i < s.len(),
    ensures
        match result {
            Ok((k, e)) => token_scan(s@, i as int) == Ok::<(PpTokenKind, int), (RawError, int)>(
                (k, e as int),
            ) && i < e <= s.len(),
            Err((error, next)) => token_scan(s@, i as int) == Err::<
                (PpTokenKind, int),
                (RawError, int),
            >((error_view(error), next as int)) && i < next <= s.len() && error.start == i
                && i <= error.end <= s.len(),
        },
{
    let p = prefix_len_exec(s, i);
    if p > 0 {
        let q = s[i + p];
        match quoted_end_exec(s, q, i + p + 1) {
            None => {
                let (error, next) = unterminated_exec(s, i);
                Err((error, next))
            },
            Some(end) => {
                if p == 2 && q == '\'' {
                    Err((ErrorRange {
                        code: "CCC0005",
                        start: i,
                        end,
                        message: "the u8 prefix is not valid on a character constant".to_owned(),
                    }, end))
                } else {
                    let kind = if q == '\'' {
                        PpTokenKind::CharacterConstant
                    } else {
                        PpTokenKind::StringLiteral
                    };
                    checked_literal_exec(s, i, kind, end)
                }
            },
        }
    } else {
        match scan_identifier_exec(s, i) {
            Some(end) => {
                let spelling = chars_to_string(s, i, end);
                if canonicalize_identifier(spelling.as_str()).is_none() {
                    Err((ErrorRange {
                        code: "CCC0004",
                        start: i,
                        end,
                        message: "invalid universal character name in identifier".to_owned(),
                    }, end))
                } else {
                    Ok((PpTokenKind::Identifier, end))
                }
            },
            None => {
                let c = s[i];
                if is_digit_exec(c) || (c == '.' && i + 1 < s.len() && is_digit_exec(s[i + 1])) {
                    Ok((PpTokenKind::PpNumber, number_end_exec(s, i + 1)))
                } else if c == '\'' || c == '"' {
                    match quoted_end_exec(s, c, i + 1) {
                        None => {
                            let (error, next) = unterminated_exec(s, i);
                            Err((error, next))
                        },
                        Some(end) => {
                            let kind = if c == '\'' {
                                PpTokenKind::CharacterConstant
                            } else {
                                PpTokenKind::StringLiteral
                            };
                            checked_literal_exec(s, i, kind, end)
                        },
                    }
                } else {
                    match punctuator_len_exec(s, i) {
                        Some(l) => Ok((PpTokenKind::Punctuator, i + l)),
                        None => Ok((PpTokenKind::Punctuator, i + 1)),
                    }
                }
            },
        }
    }
}

fn lex_step_exec(s: &Vec<char>, i: usize, at_start: bool, pending: bool) -> (result: StepResult)
    requires
        i < s.len(),
    ensures
        step_view(result) == lex_step(s@, i as int, at_start, pending),
        !(result is Fatal) ==> i < step_next(step_view(result), i as int) <= s.len(),
        result matches StepResult::Emit(t) ==> t.start < t.end <= s.len(),
        result matches StepResult::Fail(e, _) ==> e.start <= e.end <= s.len(),
{
    let c = s[i];
    if c == '\n' {
        StepResult::Skip(i + 1, true, false)
    } else if c == ' ' || c == '\t' || c == '\n' || c == '\x0c' || c == '\r' || c == '\x0b' {
        StepResult::Skip(i + 1, at_start, true)
    } else if c == '/' && i + 1 < s.len() && s[i + 1] == '/' {
        StepResult::Skip(line_end_exec(s, i + 2), at_start, true)
    } else if c == '/' && i + 1 < s.len() && s[i + 1] == '*' {
        match block_end_exec(s, i + 2) {
            None => StepResult::Fatal(ErrorRange {
                code: "CCC0001",
                start: i,
                end: s.len(),
                message: "unterminated block comment".to_owned(),
            }),
            Some(e) => StepResult::Skip(e, at_start, true),
        }
    } else {
        match token_scan_exec(s, i) {
            Ok((kind, end)) => StepResult::Emit(TokenRange {
                kind,
                start: i,
                end,
                leading_space: pending,
                at_start_of_line: at_start,
            }),
            Err((error, next)) => StepResult::Fail(error, next),
        }
    }
}

/// Tokens and errors over ranges within `len` characters.
pub open spec fn ranges_within(tokens: Seq<TokenRange>, errors: Seq<ErrorRange>, len: int) -> bool {
    &&& forall|k: int| 0 <= k < tokens.len() ==> #[trigger] tokens[k].start < tokens[k].end <= len
    &&& forall|k: int| 0 <= k < errors.len() ==> #[trigger] errors[k].start <= errors[k].end <= len
}

proof fn lemma_preceded_emit(
    tokens: Seq<TokenRange>,
    errors: Seq<ErrorRange>,
    t: TokenRange,
    rest: LexOutcome,
)
    ensures
        preceded(token_views(tokens), error_views(errors), after_step(LexStep::Emit(token_view(t)), rest))
            == preceded(token_views(tokens.push(t)), error_views(errors), rest),
{
    assert(token_views(tokens.push(t)) =~= token_views(tokens).push(token_view(t)));
    match rest {
        LexOutcome::Lexed(ts, es) => {
            assert(token_views(tokens) + (seq![token_view(t)] + ts) =~= token_views(tokens.push(t))
                + ts);
        },
        _ => {},
    }
}

proof fn lemma_preceded_fail(
    tokens: Seq<TokenRange>,
    errors: Seq<ErrorRange>,
    e: ErrorRange,
    next: int,
    rest: LexOutcome,
)
    ensures
        preceded(token_views(tokens), error_views(errors), after_step(LexStep::Fail(error_view(e), next), rest))
            == preceded(token_views(tokens), error_views(errors.push(e)), rest),
{
    assert(error_views(errors.push(e)) =~= error_views(errors).push(error_view(e)));
    match rest {
        LexOutcome::Lexed(ts, es) => {
            assert(error_views(errors) + (seq![error_view(e)] + es) =~= error_views(errors.push(e))
                + es);
        },
        _ => {},
    }
}

proof fn lemma_tokens_push(tokens: Seq<TokenRange>, errors: Seq<ErrorRange>, len: int, t: TokenRange)
    requires
        ranges_within(tokens, errors, len),
        t.start < t.end <= len,
    ensures
        ranges_within(tokens.push(t), errors, len),
{
    let ts = tokens.push(t);
    assert forall|k: int| 0 <= k < ts.len() implies #[trigger] ts[k].start < ts[k].end <= len by {
        if k < tokens.len() {
            assert(ts[k] == tokens[k]);
        } else {
            assert(ts[k] == t);
        }
    }
}

proof fn lemma_errors_push(tokens: Seq<TokenRange>, errors: Seq<ErrorRange>, len: int, e: ErrorRange)
    requires
        ranges_within(tokens, errors, len),
        e.start <= e.end <= len,
    ensures
        ranges_within(tokens, errors.push(e), len),
{
    let es = errors.push(e);
    assert forall|k: int| 0 <= k < es.len() implies #[trigger] es[k].start <= es[k].end <= len by {
        if k < errors.len() {
            assert(es[k] == errors[k]);
        } else {
            assert(es[k] == e);
        }
    }
}

/// Tokenizes the normalized characters `s`.
pub fn tokenize(s: &Vec<char>) -> (result: Result<(Vec<TokenRange>, Vec<ErrorRange>), ErrorRange>)
    ensures
        match result {
            Ok((tokens, errors)) => lex_from(s@, 0, true, false) == LexOutcome::Lexed(
                token_views(tokens@),
                error_views(errors@),
            ) && ranges_within(tokens@, errors@, s.len() as int),
            Err(error) => lex_from(s@, 0, true, false) == LexOutcome::Fatal(error_view(error)),
        },
{
    let mut tokens: Vec<TokenRange> = Vec::new();
    let mut errors: Vec<ErrorRange> = Vec::new();
    let mut i: usize = 0;
    let mut at_start = true;
    let mut pending = false;
    assert(token_views(tokens@) =~= Seq::<RawToken>::empty());
    assert(error_views(errors@) =~= Seq::<RawError>::empty());
    proof {
        match lex_from(s@, 0, true, false) {
            LexOutcome::Lexed(t, e) => {
                assert(Seq::<RawToken>::empty() + t =~= t);
                assert(Seq::<RawError>::empty() + e =~= e);
            },
            _ => {},
        }
    }
    while i < s.len()
        invariant
            i <= s.len(),
            ranges_within(tokens@, errors@, s.len() as int),
            lex_from(s@, 0, true, false) == preceded(
                token_views(tokens@),
                error_views(errors@),
                lex_from(s@, i as int, at_start, pending),
            ),
        decreases s.len() - i,
    {
        let step = lex_step_exec(s, i, at_start, pending);
        let ghost sv = step_view(step);
        let ghost rest = lex_from(
            s@,
            step_next(sv, i as int),
            step_at_start(sv, at_start),
            step_pending(sv, pending),
        );
        match step {
            StepResult::Fatal(error) => {
                return Err(error);
            },
            StepResult::Skip(next, a, p) => {
                proof {
                    match rest {
                        LexOutcome::Lexed(t, e) => {},
                        _ => {},
                    }
                }
                i = next;
                at_start = a;
                pending = p;
            },
            StepResult::Emit(token) => {
                proof {
                    lemma_preceded_emit(tokens@, errors@, token, rest);
                    lemma_tokens_push(tokens@, errors@, s.len() as int, token);
                }
                tokens.push(token);
                i = token.end;
                at_start = false;
                pending = false;
            },
            StepResult::Fail(error, next) => {
                proof {
                    lemma_preceded_fail(tokens@, errors@, error, next as int, rest);
                    lemma_errors_push(tokens@, errors@, s.len() as int, error);
                }
                errors.push(error);
                i = next;
            },
        }
    }
    proof {
        assert(token_views(tokens@) + Seq::<RawToken>::empty() =~= token_views(tokens@));
        assert(error_views(errors@) + Seq::<RawError>::empty() =~= error_views(errors@));
    }
    Ok((tokens, errors))
}

/* Tokens with their origins */

/// An error of tokenization, with the original bytes it covers.
#[derive(Clone, Debug, PartialEq, Eq)]
pub struct LexError {
    pub code: &'static str,
    pub span: Span,
    pub message: String,
}

/// The tokens of a file, the errors of its malformed tokens (each reported
/// only where its line is not skipped), and the original byte ranges of the
/// trigraphs to report.
pub struct LexedFile {
    pub tokens: Vec<PpToken>,
    pub errors: Vec<LexError>,
    pub trigraphs: Vec<(usize, usize)>,
}

/// The characters of normalized units.
pub open spec fn unit_chars(units: Seq<SourceChar>) -> Seq<char> {
    Seq::new(units.len(), |k: int| units[k].ch)
}

/// The original span of the normalized characters `start..end`.
pub open spec fn span_of(units: Seq<SourceChar>, original_len: usize, file: u32, start: int, end: int) -> Span {
    let (a, b) = original_range(units, original_len, start, end);
    Span { file, start: a, end: b }
}

/// Whether `token` is the token formed over `t`.
pub open spec fn is_token_of(
    token: PpToken,
    units: Seq<SourceChar>,
    original_len: usize,
    file: u32,
    t: RawToken,
) -> bool {
    &&& token.kind == t.kind
    &&& token.span == span_of(units, original_len, file, t.start, t.end)
    &&& token.spelling@ == unit_chars(units).subrange(t.start, t.end)
    &&& token.leading_space == t.leading_space
    &&& token.at_start_of_line == t.at_start_of_line
    &&& token.logical_line == physical_line_at(units, t.start)
    &&& !token.is_system_header
}

/// Whether `error` is the error `e` with its original span.
pub open spec fn is_error_of(
    error: LexError,
    units: Seq<SourceChar>,
    original_len: usize,
    file: u32,
    e: RawError,
) -> bool {
    &&& error.code@ == e.code
    &&& error.span == span_of(units, original_len, file, e.start, e.end)
    &&& error.message@ == e.message
}

/// The normalization a lexer's options ask for.
pub open spec fn normalize_options(options: LexerOptions) -> NormalizeOptions {
    NormalizeOptions { trigraphs: options.trigraphs, warn_trigraphs: options.warn_trigraphs }
}

/// Tokenization of the source `source`.
pub open spec fn lex_source(source: Seq<char>, options: LexerOptions) -> LexOutcome {
    lex_from(unit_chars(normalized_units(source, normalize_options(options))), 0, true, false)
}

fn make_token(normalized: &NormalizedSource, text: &Vec<char>, file: u32, t: TokenRange) -> (result:
    PpToken)
    requires
        text@ == unit_chars(normalized.units@),
        t.start < t.end <= text.len(),
    ensures
        is_token_of(result, normalized.units@, normalized.original_len, file, token_view(t)),
{
    let (start, end) = normalized.original_span(t.start, t.end);
    PpToken {
        kind: t.kind,
        span: Span { file, start, end },
        spelling: chars_to_string(text, t.start, t.end),
        leading_space: t.leading_space,
        at_start_of_line: t.at_start_of_line,
        logical_line: normalized.physical_line(t.start),
        is_system_header: false,
        hide_set: Vec::new(),
        expansion_depth: 0,
    }
}

fn make_error(normalized: &NormalizedSource, file: u32, e: &ErrorRange) -> (result: LexError)
    ensures
        is_error_of(result, normalized.units@, normalized.original_len, file, error_view(*e)),
{
    let (start, end) = normalized.original_span(e.start, e.end);
    LexError { code: e.code, span: Span { file, start, end }, message: e.message.clone() }
}

/// Lexes a source file into tokens with their original spans.
pub fn lex_file(file: u32, source: &str, options: LexerOptions) -> (result: Result<LexedFile, LexError>)
    requires
        utf8_len(source@) < usize::MAX,
    ensures
        ({
            let units = normalized_units(source@, normalize_options(options));
            let len = utf8_len(source@) as usize;
            match lex_source(source@, options) {
                LexOutcome::Fatal(e) => result matches Err(error) && is_error_of(error, units, len, file, e),
                LexOutcome::Lexed(ts, es) => result matches Ok(lexed) && lexed.tokens.len() == ts.len()
                    && lexed.errors.len() == es.len() && (forall|k: int|
                    0 <= k < ts.len() ==> is_token_of(#[trigger] lexed.tokens[k], units, len, file, ts[k]))
                    && (forall|k: int|
                    0 <= k < es.len() ==> is_error_of(#[trigger] lexed.errors[k], units, len, file, es[k]))
                    && lexed.trigraphs@ == crate::pp::normalize::reported_trigraphs(
                    source@,
                    normalize_options(options),
                ),
            }
        }),
{
    let normalized = normalize(
        source,
        NormalizeOptions { trigraphs: options.trigraphs, warn_trigraphs: options.warn_trigraphs },
    );
    let text = normalized.text();
    assert(text@ =~= unit_chars(normalized.units@));
    match tokenize(&text) {
        Err(error) => Err(make_error(&normalized, file, &error)),
        Ok((ranges, error_ranges)) => {
            assert(ranges_within(ranges@, error_ranges@, text.len() as int));
            let mut tokens: Vec<PpToken> = Vec::new();
            let mut i: usize = 0;
            while i < ranges.len()
                invariant
                    i <= ranges.len(),
                    text@ == unit_chars(normalized.units@),
                    ranges_within(ranges@, error_ranges@, text.len() as int),
                    tokens.len() == i,
                    forall|k: int|
                        0 <= k < i ==> is_token_of(
                            #[trigger] tokens[k],
                            normalized.units@,
                            normalized.original_len,
                            file,
                            token_view(ranges[k]),
                        ),
                decreases ranges.len() - i,
            {
                tokens.push(make_token(&normalized, &text, file, ranges[i]));
                i = i + 1;
            }
            let mut errors: Vec<LexError> = Vec::new();
            let mut j: usize = 0;
            while j < error_ranges.len()
                invariant
                    j <= error_ranges.len(),
                    errors.len() == j,
                    forall|k: int|
                        0 <= k < j ==> is_error_of(
                            #[trigger] errors[k],
                            normalized.units@,
                            normalized.original_len,
                            file,
                            error_view(error_ranges[k]),
                        ),
                decreases error_ranges.len() - j,
            {
                errors.push(make_error(&normalized, file, &error_ranges[j]));
                j = j + 1;
            }
            Ok(LexedFile { tokens, errors, trigraphs: normalized.trigraph_reports })
        },
    }
}

/// Lexes a source into tokens; the first error, stopping or not, fails it.
pub fn lex_with_options(file: u32, source: &str, options: LexerOptions) -> (result: Result<
    Vec<PpToken>,
    LexError,
>)
    requires
        utf8_len(source@) < usize::MAX,
    ensures
        ({
            let units = normalized_units(source@, normalize_options(options));
            let len = utf8_len(source@) as usize;
            match lex_source(source@, options) {
                LexOutcome::Fatal(e) => result matches Err(error) && is_error_of(error, units, len, file, e),
                LexOutcome::Lexed(ts, es) => if es.len() > 0 {
                    result matches Err(error) && is_error_of(error, units, len, file, es[0])
                } else {
                    result matches Ok(tokens) && tokens.len() == ts.len() && forall|k: int|
                        0 <= k < ts.len() ==> is_token_of(#[trigger] tokens[k], units, len, file, ts[k])
                },
            }
        }),
{
    let lexed = lex_file(file, source, options)?;
    if lexed.errors.len() > 0 {
        return Err(lexed.errors[0].clone_error());
    }
    Ok(lexed.tokens)
}

/// Lexes a source into tokens, without trigraphs.
pub fn lex(file: u32, source: &str) -> (result: Result<Vec<PpToken>, LexError>)
    requires
        utf8_len(source@) < usize::MAX,
    ensures
        ({
            let options = LexerOptions { trigraphs: false, warn_trigraphs: false };
            let units = normalized_units(source@, normalize_options(options));
            let len = utf8_len(source@) as usize;
            match lex_source(source@, options) {
                LexOutcome::Fatal(e) => result matches Err(error) && is_error_of(error, units, len, file, e),
                LexOutcome::Lexed(ts, es) => if es.len() > 0 {
                    result matches Err(error) && is_error_of(error, units, len, file, es[0])
                } else {
                    result matches Ok(tokens) && tokens.len() == ts.len() && forall|k: int|
                        0 <= k < ts.len() ==> is_token_of(#[trigger] tokens[k], units, len, file, ts[k])
                },
            }
        }),
{
    lex_with_options(file, source, LexerOptions { trigraphs: false, warn_trigraphs: false })
}

impl LexError {
    /// A copy of this error.
    pub fn clone_error(&self) -> (result: LexError)
        ensures
            result.code == self.code,
            result.span == self.span,
            result.message@ == self.message@,
    {
        LexError { code: self.code, span: self.span, message: self.message.clone() }
    }
}

/* Rendering boundaries */

/// A multi-character punctuator.
pub open spec fn multi_punctuator(q: Seq<char>) -> bool {
    ||| q.len() == 2 && punctuator2(q[0], q[1])
    ||| q.len() == 3 && punctuator3(q[0], q[1], q[2])
    ||| q.len() == 4 && q[0] == '%' && q[1] == ':' && q[2] == '%' && q[3] == ':'
}

/// Whether `l` followed by the start of `r` spells a longer punctuator.
pub open spec fn punctuator_joins(l: Seq<char>, r: Seq<char>) -> bool {
    exists|m: int| 1 <= m <= 3 && m <= r.len() && #[trigger] multi_punctuator(l + r.take(m))
}

/// Whether `r` starts with the tail of a universal character name: `u` and
/// four hexadecimal digits, or `U` and eight.
pub open spec fn ucn_tail(r: Seq<char>) -> bool {
    r.len() > 0 && (r[0] == 'u' || r[0] == 'U') && {
        let count: int = if r[0] == 'u' {
            4
        } else {
            8
        };
        r.len() >= 1 + count && crate::text::all_digits(r.subrange(1, 1 + count), 16)
    }
}

/// Whether `s` is the one character `c`.
pub open spec fn is_char(s: Seq<char>, c: char) -> bool {
    s.len() == 1 && s[0] == c
}

/// Whether rendering the token `l` of `kind` right before `r` (of
/// `right_kind`) without whitespace could change how they are tokenized.
pub open spec fn separator_needed(kind: PpTokenKind, l: Seq<char>, right_kind: PpTokenKind, r: Seq<char>) -> bool {
    if is_char(l, '/') && r.len() > 0 && (r[0] == '/' || r[0] == '*') {
        true
    } else if is_char(l, '?') && is_char(r, '?') {
        true
    } else if is_char(l, '\\') && ucn_tail(r) {
        true
    } else {
        match kind {
            PpTokenKind::Identifier => (match identifier_char(r, 0) {
                Some((_, c)) => identifier_continue(c),
                None => false,
            }) || ((is_char(l, 'L') || is_char(l, 'u') || is_char(l, 'U') || (l.len() == 2 && l[0]
                == 'u' && l[1] == '8')) && r.len() > 0 && (r[0] == '\'' || r[0] == '"')),
            PpTokenKind::PpNumber => r.len() > 0 && (is_digit(r[0]) || is_letter(r[0]) || r[0] == '.'
                || r[0] == '_' || (r[0] == '\\' && r.len() > 1 && (r[1] == 'u' || r[1] == 'U')) || ((
            r[0] == '+' || r[0] == '-') && l.len() > 0 && (l.last() == 'e' || l.last() == 'E'
                || l.last() == 'p' || l.last() == 'P'))),
            PpTokenKind::Punctuator => (is_char(l, '.') && right_kind == PpTokenKind::PpNumber
                && r.len() > 0 && is_digit(r[0])) || punctuator_joins(l, r),
            _ => false,
        }
    }
}

fn is_single(s: &Vec<char>, c: char) -> (result: bool)
    ensures
        result == is_char(s@, c),
{
    s.len() == 1 && s[0] == c
}

fn ucn_tail_exec(r: &Vec<char>) -> (result: bool)
    ensures
        result == ucn_tail(r@),
{
    if r.len() == 0 || !(r[0] == 'u' || r[0] == 'U') {
        return false;
    }
    let count: usize = if r[0] == 'u' {
        4
    } else {
        8
    };
    r.len() >= 1 + count && hex_digits(r, 1, 1 + count)
}

fn multi_punctuator_exec(q: &Vec<char>) -> (result: bool)
    ensures
        result == multi_punctuator(q@),
{
    (q.len() == 2 && punctuator2_exec(q[0], q[1])) || (q.len() == 3 && ((q[0] == '<' && q[1] == '<'
        && q[2] == '=') || (q[0] == '>' && q[1] == '>' && q[2] == '=') || (q[0] == '.' && q[1] == '.'
        && q[2] == '.'))) || (q.len() == 4 && q[0] == '%' && q[1] == ':' && q[2] == '%' && q[3]
        == ':')
}

fn punctuator_joins_exec(l: &Vec<char>, r: &Vec<char>) -> (result: bool)
    ensures
        result == punctuator_joins(l@, r@),
{
    let mut m: usize = 1;
    while m <= 3
        invariant
            1 <= m <= 4,
            forall|j: int| 1 <= j < m && j <= r.len() ==> !#[trigger] multi_punctuator(l@ + r@.take(j)),
        decreases 4 - m,
    {
        if m <= r.len() {
            let mut candidate: Vec<char> = Vec::new();
            let mut i: usize = 0;
            while i < l.len()
                invariant
                    i <= l.len(),
                    candidate@ == l@.take(i as int),
                decreases l.len() - i,
            {
                candidate.push(l[i]);
                i = i + 1;
                assert(candidate@ =~= l@.take(i as int));
            }
            let mut j: usize = 0;
            while j < m
                invariant
                    j <= m <= r.len(),
                    candidate@ == l@ + r@.take(j as int),
                decreases m - j,
            {
                candidate.push(r[j]);
                j = j + 1;
                assert(candidate@ =~= l@ + r@.take(j as int));
            }
            if multi_punctuator_exec(&candidate) {
                return true;
            }
        }
        m = m + 1;
    }
    false
}

/// Whether rendering `left` right before `right` without whitespace could
/// change their tokenization.
pub fn tokens_require_separator(left: &PpToken, right: &PpToken) -> (result: bool)
    ensures
        result == separator_needed(left.kind, left.spelling@, right.kind, right.spelling@),
{
    let l = crate::text::chars_of(left.spelling.as_str());
    let r = crate::text::chars_of(right.spelling.as_str());
    if is_single(&l, '/') && r.len() > 0 && (r[0] == '/' || r[0] == '*') {
        return true;
    }
    if is_single(&l, '?') && is_single(&r, '?') {
        return true;
    }
    if is_single(&l, '\\') && ucn_tail_exec(&r) {
        return true;
    }
    match left.kind {
        PpTokenKind::Identifier => {
            let continues = match identifier_char_exec(&r, 0) {
                Some((_, c)) => identifier_continue_exec(c),
                None => false,
            };
            assert(r@.skip(0) =~= r@);
            continues || ((is_single(&l, 'L') || is_single(&l, 'u') || is_single(&l, 'U') || (l.len()
                == 2 && l[0] == 'u' && l[1] == '8')) && r.len() > 0 && (r[0] == '\'' || r[0] == '"'))
        },
        PpTokenKind::PpNumber => {
            r.len() > 0 && (is_digit_exec(r[0]) || is_letter_exec(r[0]) || r[0] == '.' || r[0] == '_'
                || (r[0] == '\\' && r.len() > 1 && (r[1] == 'u' || r[1] == 'U')) || ((r[0] == '+'
                || r[0] == '-') && l.len() > 0 && (l[l.len() - 1] == 'e' || l[l.len() - 1] == 'E'
                || l[l.len() - 1] == 'p' || l[l.len() - 1] == 'P')))
        },
        PpTokenKind::Punctuator => {
            (is_single(&l, '.') && right.kind == PpTokenKind::PpNumber && r.len() > 0 && is_digit_exec(
                r[0],
            )) || punctuator_joins_exec(&l, &r)
        },
        _ => false,
    }
}

} // verus!

verus! {

/// Tokens lying within `from..to`, in order and without overlapping.
pub open spec fn tokens_in_order(ts: Seq<RawToken>, from: int, to: int) -> bool {
    &&& forall|k: int| 0 <= k < ts.len() ==> from <= #[trigger] ts[k].start < ts[k].end <= to
    &&& forall|k: int, j: int| 0 <= k < j < ts.len() ==> #[trigger] ts[k].end <= #[trigger] ts[j].start
}

/// Tokenization yields its tokens in source order: each starts where or
/// after the one before it ends, and none is empty.
pub proof fn lemma_tokens_in_source_order(s: Seq<char>, i: int, at_start: bool, pending: bool)
    requires
        0 <= i,
    ensures
        lex_from(s, i, at_start, pending) matches LexOutcome::Lexed(ts, _) ==> tokens_in_order(
            ts,
            i,
            s.len() as int,
        ),
    decreases s.len() - i,
{
    if i < s.len() {
        let step = lex_step(s, i, at_start, pending);
        let n = step_next(step, i);
        if !(step is Fatal) && i < n <= s.len() {
            let a = step_at_start(step, at_start);
            let p = step_pending(step, pending);
            lemma_tokens_in_source_order(s, n, a, p);
            assert(lex_from(s, i, at_start, pending) == after_step(step, lex_from(s, n, a, p)));
            match lex_from(s, n, a, p) {
                LexOutcome::Lexed(rest, _) => {
                    assert forall|k: int| 0 <= k < rest.len() implies i <= #[trigger] rest[k].start
                        < rest[k].end <= s.len() by {}
                    match step {
                        LexStep::Emit(t) => {
                            let ts = seq![t] + rest;
                            assert(t.start == i);
                            assert forall|k: int| 0 <= k < ts.len() implies i <= #[trigger] ts[k].start
                                < ts[k].end <= s.len() by {
                                if k > 0 {
                                    assert(ts[k] == rest[k - 1]);
                                }
                            }
                            assert forall|k: int, j: int| 0 <= k < j < ts.len() implies #[trigger] ts[k].end
                                <= #[trigger] ts[j].start by {
                                assert(ts[j] == rest[j - 1]);
                                if k > 0 {
                                    assert(ts[k] == rest[k - 1]);
                                }
                            }
                        },
                        _ => {},
                    }
                },
                _ => {},
            }
        }
    }
}

} // verus!
