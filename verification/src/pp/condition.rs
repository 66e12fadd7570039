//! Evaluation of the controlling expression of `#if` and `#elif`, after
//! macro replacement: every identifier left counts as 0, arithmetic is done
//! on 64-bit values that are signed unless an operand is unsigned, and the
//! operands that `&&`, `||` and `?:` skip are parsed without reporting
//! evaluation errors.

use crate::pp::token::copy_names;
use vstd::prelude::*;

use crate::pp::literal::{
    character_constant_spec, decode_character_constant, decode_integer_constant,
    integer_constant_spec, CharacterConstantPrefix,
};
use crate::pp::diagnostic::{PpDiagnostic, PpDiagnosticCategory, PpSeverity};
use crate::pp::token::{canonical_identifier, PpToken, PpTokenKind, Span};
use crate::text::str_eq;

verus! {

/// A value of a preprocessor expression: 64 bits, read as signed unless
/// `unsigned`.
#[derive(Clone, Copy, Debug, PartialEq, Eq, Structural)]
pub struct Value {
    pub bits: u64,
    pub unsigned: bool,
}

pub open spec fn zero() -> Value {
    Value { bits: 0, unsigned: false }
}

pub open spec fn truthy(v: Value) -> bool {
    v.bits != 0
}

pub open spec fn boolean(b: bool) -> Value {
    Value {
        bits: if b {
            1
        } else {
            0
        },
        unsigned: false,
    }
}

/// The view of a diagnostic.
pub struct DiagnosticView {
    pub code: Seq<char>,
    pub message: Seq<char>,
    pub span: Option<Span>,
}

/// The view of an error diagnostic of the general category.
pub open spec fn diagnostic_view(d: PpDiagnostic) -> DiagnosticView {
    DiagnosticView { code: d.code@, message: d.message@, span: d.span }
}

/// Whether `d` is an error of the general category.
pub open spec fn plain_error(d: PpDiagnostic) -> bool {
    d.severity == PpSeverity::Error && d.category == PpDiagnosticCategory::General
}

/// Whether every diagnostic of `v` is an error of the general category.
pub open spec fn all_plain(v: Seq<PpDiagnostic>) -> bool {
    forall|k: int| 0 <= k < v.len() ==> plain_error(#[trigger] v[k])
}

pub open spec fn diagnostic_views(v: Seq<PpDiagnostic>) -> Seq<DiagnosticView> {
    Seq::new(v.len(), |k: int| diagnostic_view(v[k]))
}

/// What evaluation reads of a token.
pub struct TokenView {
    pub kind: PpTokenKind,
    pub spelling: Seq<char>,
    pub span: Span,
    pub leading_space: bool,
    pub at_start_of_line: bool,
    pub logical_line: usize,
    pub is_system_header: bool,
}

pub open spec fn token_view(t: PpToken) -> TokenView {
    TokenView {
        kind: t.kind,
        spelling: t.spelling@,
        span: t.span,
        leading_space: t.leading_space,
        at_start_of_line: t.at_start_of_line,
        logical_line: t.logical_line,
        is_system_header: t.is_system_header,
    }
}

pub open spec fn token_views(ts: Seq<PpToken>) -> Seq<TokenView> {
    Seq::new(ts.len(), |i: int| token_view(ts[i]))
}

/// The tokens of an expression and whether wide character constants are signed.
pub struct ParseContext {
    pub tokens: Seq<TokenView>,
    pub wchar_signed: bool,
}

/// Where parsing stands: the next token and the diagnostics so far.
pub struct ParseState {
    pub index: int,
    pub diagnostics: Seq<DiagnosticView>,
}

pub open spec fn next_is(ctx: ParseContext, st: ParseState, spelling: Seq<char>) -> bool {
    0 <= st.index < ctx.tokens.len() && ctx.tokens[st.index].spelling == spelling
}

pub open spec fn advance(st: ParseState) -> ParseState {
    ParseState { index: st.index + 1, diagnostics: st.diagnostics }
}

/// The span of the token at `at`, or of the last token.
pub open spec fn span_at(ctx: ParseContext, at: int) -> Option<Span> {
    if 0 <= at < ctx.tokens.len() {
        Some(ctx.tokens[at].span)
    } else if ctx.tokens.len() > 0 {
        Some(ctx.tokens.last().span)
    } else {
        None
    }
}

/// `st` with an error reported at the token `at`.
pub open spec fn error_at(
    ctx: ParseContext,
    st: ParseState,
    at: int,
    code: Seq<char>,
    message: Seq<char>,
) -> ParseState {
    ParseState {
        index: st.index,
        diagnostics: st.diagnostics.push(DiagnosticView { code, message, span: span_at(ctx, at) }),
    }
}

/// The operand types of a binary operation: unsigned when either is.
pub open spec fn usual(l: Value, r: Value) -> bool {
    l.unsigned || r.unsigned
}

/// The signed reading of `bits`.
pub open spec fn signed(bits: u64) -> i64 {
    bits as i64
}

/// Signed division as std's `wrapping_div` computes it, for a nonzero divisor.
pub open spec fn signed_div(a: i64, b: i64) -> i64 {
    if a == i64::MIN && b == -1 {
        a
    } else {
        match a.checked_div(b) {
            Some(q) => q,
            None => 0,
        }
    }
}

/// Signed remainder as std's `wrapping_rem` computes it, for a nonzero divisor.
pub open spec fn signed_rem(a: i64, b: i64) -> i64 {
    if a == i64::MIN && b == -1 {
        0
    } else {
        match a.checked_rem(b) {
            Some(r) => r,
            None => 0,
        }
    }
}

/// `+ - * / %` after the usual conversions; a divisor is nonzero.
pub open spec fn arithmetic(l: Value, r: Value, op: Seq<char>) -> Value {
    let unsigned = usual(l, r);
    let bits: u64 = if op == "+"@ {
        l.bits.wrapping_add(r.bits)
    } else if op == "-"@ {
        l.bits.wrapping_sub(r.bits)
    } else if op == "*"@ {
        l.bits.wrapping_mul(r.bits)
    } else if op == "/"@ {
        if unsigned {
            if r.bits == 0 {
                0
            } else {
                l.bits / r.bits
            }
        } else {
            signed_div(signed(l.bits), signed(r.bits)) as u64
        }
    } else {
        if unsigned {
            if r.bits == 0 {
                0
            } else {
                l.bits % r.bits
            }
        } else {
            signed_rem(signed(l.bits), signed(r.bits)) as u64
        }
    };
    Value { bits, unsigned }
}

/// `| ^ &` after the usual conversions.
pub open spec fn bitwise(l: Value, r: Value, op: Seq<char>) -> Value {
    let bits: u64 = if op == "|"@ {
        l.bits | r.bits
    } else if op == "^"@ {
        l.bits ^ r.bits
    } else {
        l.bits & r.bits
    };
    Value { bits, unsigned: usual(l, r) }
}

/// `== != < > <= >=` after the usual conversions.
pub open spec fn compare(l: Value, r: Value, op: Seq<char>) -> Value {
    let (a, b): (int, int) = if usual(l, r) {
        (l.bits as int, r.bits as int)
    } else {
        (signed(l.bits) as int, signed(r.bits) as int)
    };
    boolean(
        if op == "=="@ {
            a == b
        } else if op == "!="@ {
            a != b
        } else if op == "<"@ {
            a < b
        } else if op == ">"@ {
            a > b
        } else if op == "<="@ {
            a <= b
        } else {
            a >= b
        },
    )
}

/// `<< >>`: the shift count is the low 32 bits of the right operand.
pub open spec fn shift(l: Value, r: Value, op: Seq<char>) -> Value {
    if op == "<<"@ {
        Value { bits: l.bits.wrapping_shl(r.bits as u32), unsigned: l.unsigned }
    } else if l.unsigned {
        Value { bits: l.bits.wrapping_shr(r.bits as u32), unsigned: true }
    } else {
        Value { bits: signed(l.bits).wrapping_shr(r.bits as u32) as u64, unsigned: false }
    }
}

/// The binary operators of a precedence level: 11 `||`, 10 `&&`, 9 `|`, 8
/// `^`, 7 `&`, 6 equality, 5 relational, 4 shifts, 3 additive, 2
/// multiplicative.
pub open spec fn level_operator(level: nat, op: Seq<char>) -> bool {
    if level == 11 {
        op == "||"@
    } else if level == 10 {
        op == "&&"@
    } else if level == 9 {
        op == "|"@
    } else if level == 8 {
        op == "^"@
    } else if level == 7 {
        op == "&"@
    } else if level == 6 {
        op == "=="@ || op == "!="@
    } else if level == 5 {
        op == "<"@ || op == ">"@ || op == "<="@ || op == ">="@
    } else if level == 4 {
        op == "<<"@ || op == ">>"@
    } else if level == 3 {
        op == "+"@ || op == "-"@
    } else if level == 2 {
        op == "*"@ || op == "/"@ || op == "%"@
    } else {
        false
    }
}

/// Whether the right operand of a level-`level` operator is evaluated.
pub open spec fn right_evaluated(level: nat, left: Value, eval: bool) -> bool {
    if level == 11 {
        eval && !truthy(left)
    } else if level == 10 {
        eval && truthy(left)
    } else {
        eval
    }
}

/// The result of a level-`level` operator once its right operand is parsed
/// (`st` stands after it), with the error an evaluated shift or division
/// reports.
pub open spec fn combine(
    ctx: ParseContext,
    level: nat,
    st: ParseState,
    left: Value,
    right: Value,
    op: Seq<char>,
    eval: bool,
) -> (Value, ParseState) {
    let before = if st.index > 0 {
        st.index - 1
    } else {
        0
    };
    if level == 11 {
        (boolean(truthy(left) || truthy(right)), st)
    } else if level == 10 {
        (boolean(truthy(left) && truthy(right)), st)
    } else if level >= 7 {
        (bitwise(left, right, op), st)
    } else if level >= 5 {
        (compare(left, right, op), st)
    } else if level == 4 {
        if eval && right.bits >= 64 {
            (zero(), error_at(ctx, st, before, "CCC1207"@, "shift count is too large"@))
        } else {
            (shift(left, right, op), st)
        }
    } else if level == 3 {
        (arithmetic(left, right, op), st)
    } else {
        if eval && (op == "/"@ || op == "%"@) && right.bits == 0 {
            (
                zero(),
                error_at(
                    ctx,
                    st,
                    before,
                    "CCC1208"@,
                    "division by zero in conditional expression"@,
                ),
            )
        } else if right.bits != 0 || op == "*"@ {
            (arithmetic(left, right, op), st)
        } else {
            (left, st)
        }
    }
}

/// A unary operator.
pub open spec fn unary_operator(op: Seq<char>) -> bool {
    op == "+"@ || op == "-"@ || op == "!"@ || op == "~"@
}

pub open spec fn apply_unary(op: Seq<char>, v: Value) -> Value {
    if op == "+"@ {
        v
    } else if op == "-"@ {
        Value { bits: 0u64.wrapping_sub(v.bits), unsigned: v.unsigned }
    } else if op == "!"@ {
        boolean(!truthy(v))
    } else {
        Value { bits: !v.bits, unsigned: v.unsigned }
    }
}

/// The value of a primary token that is not `(`; `st` stands after it.
pub open spec fn primary_value(ctx: ParseContext, token: TokenView, st: ParseState) -> (Value, ParseState) {
    if token.kind == PpTokenKind::PpNumber {
        match integer_constant_spec(token.spelling) {
            Ok(integer) => if integer.value <= u64::MAX {
                (
                    Value {
                        bits: integer.value as u64,
                        unsigned: integer.suffix.unsigned || integer.value > i64::MAX,
                    },
                    st,
                )
            } else {
                (
                    zero(),
                    ParseState {
                        index: st.index,
                        diagnostics: st.diagnostics.push(
                            DiagnosticView {
                                code: "CCC1211"@,
                                message: "integer constant is too large for a preprocessor expression"@,
                                span: Some(token.span),
                            },
                        ),
                    },
                )
            },
            Err(message) => (
                zero(),
                ParseState {
                    index: st.index,
                    diagnostics: st.diagnostics.push(
                        DiagnosticView { code: "CCC1211"@, message, span: Some(token.span) },
                    ),
                },
            ),
        }
    } else if token.kind == PpTokenKind::CharacterConstant {
        match character_constant_spec(token.spelling) {
            Ok(character) => (
                Value {
                    bits: character.value,
                    unsigned: match character.prefix {
                        CharacterConstantPrefix::Unprefixed => false,
                        CharacterConstantPrefix::Wide => !ctx.wchar_signed,
                        _ => true,
                    },
                },
                st,
            ),
            Err(message) => (
                zero(),
                ParseState {
                    index: st.index,
                    diagnostics: st.diagnostics.push(
                        DiagnosticView { code: "CCC1212"@, message, span: Some(token.span) },
                    ),
                },
            ),
        }
    } else {
        (
            zero(),
            error_at(
                ctx,
                st,
                st.index - 1,
                "CCC1213"@,
                "invalid token in conditional expression"@,
            ),
        )
    }
}

/// Parsing at precedence `level` from `st`: 12 is a conditional expression,
/// 2 to 11 the binary levels, 1 a unary and 0 a primary expression. It
/// yields the value and where parsing stands after it.
pub open spec fn parse_level(ctx: ParseContext, level: nat, st: ParseState, eval: bool) -> (
    Value,
    ParseState,
)
    decreases ctx.tokens.len() - st.index, level, 1nat,
{
    if st.index < 0 {
        (zero(), st)
    } else if level == 0 {
        if next_is(ctx, st, "("@) {
            let inner = parse_level(ctx, 12, advance(st), eval);
            if next_is(ctx, inner.1, ")"@) {
                (inner.0, advance(inner.1))
            } else {
                (
                    inner.0,
                    error_at(
                        ctx,
                        inner.1,
                        inner.1.index,
                        "CCC1209"@,
                        "expected ')' in conditional expression"@,
                    ),
                )
            }
        } else if st.index >= ctx.tokens.len() {
            (zero(), error_at(ctx, st, st.index, "CCC1210"@, "expected expression"@))
        } else {
            primary_value(ctx, ctx.tokens[st.index], advance(st))
        }
    } else if level == 1 {
        if st.index < ctx.tokens.len() && unary_operator(ctx.tokens[st.index].spelling) {
            let operand = parse_level(ctx, 1, advance(st), eval);
            (apply_unary(ctx.tokens[st.index].spelling, operand.0), operand.1)
        } else {
            parse_level(ctx, 0, st, eval)
        }
    } else if level >= 12 {
        let condition = parse_level(ctx, 11, st, eval);
        if condition.1.index < st.index || !next_is(ctx, condition.1, "?"@) {
            condition
        } else {
            let c = truthy(condition.0);
            let when_true = parse_level(ctx, 12, advance(condition.1), eval && c);
            if when_true.1.index < condition.1.index + 1 {
                when_true
            } else if !next_is(ctx, when_true.1, ":"@) {
                (
                    zero(),
                    error_at(
                        ctx,
                        when_true.1,
                        when_true.1.index,
                        "CCC1206"@,
                        "expected ':' in conditional expression"@,
                    ),
                )
            } else {
                let when_false = parse_level(ctx, 12, advance(when_true.1), eval && !c);
                (
                    if c {
                        when_true.0
                    } else {
                        when_false.0
                    },
                    when_false.1,
                )
            }
        }
    } else {
        let left = parse_level(ctx, (level - 1) as nat, st, eval);
        if left.1.index < st.index || left.1.index > ctx.tokens.len() {
            left
        } else {
            parse_rest(ctx, level, left.1, eval, left.0)
        }
    }
}

/// The rest of a level-`level` chain after the operand `left`.
pub open spec fn parse_rest(ctx: ParseContext, level: nat, st: ParseState, eval: bool, left: Value) -> (
    Value,
    ParseState,
)
    decreases ctx.tokens.len() - st.index, level, 0nat,
{
    if 2 <= level <= 11 && 0 <= st.index < ctx.tokens.len() && level_operator(
        level,
        ctx.tokens[st.index].spelling,
    ) {
        let op = ctx.tokens[st.index].spelling;
        let right = parse_level(
            ctx,
            (level - 1) as nat,
            advance(st),
            right_evaluated(level, left, eval),
        );
        let combined = combine(ctx, level, right.1, left, right.0, op, eval);
        if combined.1.index < st.index + 1 || combined.1.index > ctx.tokens.len() {
            combined
        } else {
            parse_rest(ctx, level, combined.1, eval, combined.0)
        }
    } else {
        (left, st)
    }
}

/* Laws of the bitwise operators */

/// The bitwise operators of a controlling expression act on the operands'
/// bits: `^` undoes itself and clears a value against itself, `|` is the
/// sum of `^` and `&` (the bits set in exactly one operand plus those set in
/// both), `&` keeps no more than either operand and `|` no less, and each
/// result is unsigned when an operand is.
pub proof fn lemma_bitwise_operators(l: Value, r: Value)
    ensures
        bitwise(bitwise(l, r, "^"@), r, "^"@).bits == l.bits,
        bitwise(l, l, "^"@).bits == 0,
        bitwise(l, r, "|"@).bits as int == bitwise(l, r, "^"@).bits as int + bitwise(l, r, "&"@).bits as int,
        bitwise(l, r, "&"@).bits <= l.bits,
        bitwise(l, r, "&"@).bits <= r.bits,
        bitwise(l, r, "|"@).bits >= l.bits,
        bitwise(l, r, "|"@).bits >= r.bits,
        bitwise(l, l, "&"@).bits == l.bits,
        bitwise(l, l, "|"@).bits == l.bits,
        bitwise(l, r, "^"@).unsigned == (l.unsigned || r.unsigned),
        bitwise(l, r, "|"@).unsigned == (l.unsigned || r.unsigned),
        bitwise(l, r, "&"@).unsigned == (l.unsigned || r.unsigned),
{
    reveal_strlit("|");
    reveal_strlit("^");
    reveal_strlit("&");
    assert("|"@ != "^"@ && "|"@ != "&"@ && "^"@ != "&"@) by {
        assert("|"@[0] != "^"@[0]);
        assert("|"@[0] != "&"@[0]);
        assert("^"@[0] != "&"@[0]);
    }
    let a = l.bits;
    let b = r.bits;
    assert((a ^ b) ^ b == a) by (bit_vector);
    assert(a ^ a == 0) by (bit_vector);
    assert(a & b <= a) by (bit_vector);
    assert(a & b <= b) by (bit_vector);
    assert(a | b >= a) by (bit_vector);
    assert(a | b >= b) by (bit_vector);
    assert(a & a == a) by (bit_vector);
    assert(a | a == a) by (bit_vector);
    assert(a ^ b <= 0xffff_ffff_ffff_ffffu64 - (a & b)) by (bit_vector);
    assert((a ^ b) + (a & b) == a | b) by (bit_vector)
        requires
            a ^ b <= 0xffff_ffff_ffff_ffffu64 - (a & b),
    ;
}

/// The comparison operators give `1` or `0` and agree with one another:
/// `<` is `>` with the operands swapped, `<=` and `>=` are the negations
/// of `>` and `<`, `!=` is the negation of `==`, a value equals itself and
/// is not less than itself; between unsigned operands, and between signed
/// operands that are not negative, they order the values as numbers; a
/// negative signed value is less than a positive one.
pub proof fn lemma_comparison_operators(l: Value, r: Value)
    ensures
        compare(l, r, "<"@).bits <= 1,
        compare(l, r, "<"@) == compare(r, l, ">"@),
        truthy(compare(l, r, "<="@)) == !truthy(compare(l, r, ">"@)),
        truthy(compare(l, r, ">="@)) == !truthy(compare(l, r, "<"@)),
        truthy(compare(l, r, "!="@)) == !truthy(compare(l, r, "=="@)),
        truthy(compare(l, r, "=="@)) == (l.bits == r.bits),
        truthy(compare(l, l, "=="@)),
        !truthy(compare(l, l, "<"@)),
        compare(l, r, "<"@).unsigned == false,
        (l.unsigned || r.unsigned || (l.bits <= i64::MAX && r.bits <= i64::MAX)) ==> truthy(
            compare(l, r, "<"@),
        ) == (l.bits < r.bits),
        (!l.unsigned && !r.unsigned && l.bits > i64::MAX && 0 < r.bits <= i64::MAX) ==> truthy(
            compare(l, r, "<"@),
        ),
{
    reveal_strlit("==");
    reveal_strlit("!=");
    reveal_strlit("<");
    reveal_strlit(">");
    reveal_strlit("<=");
    reveal_strlit(">=");
    assert("<"@ != ">"@) by {
        assert("<"@[0] != ">"@[0]);
    }
    assert("=="@ != "!="@ && "=="@ != "<="@ && "=="@ != ">="@ && "!="@ != "<="@ && "!="@ != ">="@
        && "<="@ != ">="@) by {
        assert("=="@[0] != "!="@[0]);
        assert("=="@[0] != "<="@[0]);
        assert("=="@[0] != ">="@[0]);
        assert("!="@[0] != "<="@[0]);
        assert("!="@[0] != ">="@[0]);
        assert("<="@[0] != ">="@[0]);
    }
    assert("<"@.len() == 1 && ">"@.len() == 1 && "=="@.len() == 2 && "!="@.len() == 2 && "<="@.len()
        == 2 && ">="@.len() == 2);
    assert("<"@ != "=="@ && "<"@ != "!="@ && ">"@ != "=="@ && ">"@ != "!="@ && "<="@ != "<"@ && "<="@
        != ">"@ && ">="@ != "<"@ && ">="@ != ">"@);
    let a = l.bits;
    let b = r.bits;
    if !l.unsigned && !r.unsigned {
        if a <= i64::MAX && b <= i64::MAX {
            assert(signed(a) as int == a as int);
            assert(signed(b) as int == b as int);
        }
        if a > i64::MAX && 0 < b <= i64::MAX {
            assert((a as i64) < 0) by (bit_vector)
                requires
                    a > 0x7fff_ffff_ffff_ffffu64,
            ;
            assert(signed(b) as int == b as int);
        }
        assert(((a as i64) == (b as i64)) == (a == b)) by (bit_vector);
    }
}

/// The additive and multiplicative operators wrap around 2^64: subtracting
/// what was added gives the value back, `+` and `*` do not depend on the
/// order of their operands, and multiplying by one changes nothing; for a
/// nonzero unsigned divisor, `/` and `%` give the quotient and a remainder
/// smaller than the divisor that together rebuild the dividend; for
/// signed operands that are not negative they agree with the unsigned
/// operators.
pub proof fn lemma_arithmetic_operators(l: Value, r: Value)
    ensures
        arithmetic(arithmetic(l, r, "+"@), r, "-"@).bits == l.bits,
        arithmetic(l, r, "+"@).bits == arithmetic(r, l, "+"@).bits,
        arithmetic(l, r, "*"@).bits == arithmetic(r, l, "*"@).bits,
        r.bits == 1 ==> arithmetic(l, r, "*"@).bits == l.bits,
        (l.bits as int + r.bits as int) <= u64::MAX ==> arithmetic(l, r, "+"@).bits == l.bits + r.bits,
        (l.bits as int * r.bits as int) <= u64::MAX ==> arithmetic(l, r, "*"@).bits == l.bits * r.bits,
        arithmetic(l, r, "+"@).unsigned == (l.unsigned || r.unsigned),
        r.bits != 0 && (l.unsigned || r.unsigned || (l.bits <= i64::MAX && r.bits <= i64::MAX)) ==> {
            let q = arithmetic(l, r, "/"@).bits;
            let m = arithmetic(l, r, "%"@).bits;
            &&& m < r.bits
            &&& q as int * r.bits as int + m as int == l.bits as int
        },
{
    reveal_strlit("+");
    reveal_strlit("-");
    reveal_strlit("*");
    reveal_strlit("/");
    reveal_strlit("%");
    assert("+"@[0] != "-"@[0] && "+"@[0] != "*"@[0] && "+"@[0] != "/"@[0] && "-"@[0] != "*"@[0]
        && "-"@[0] != "/"@[0] && "*"@[0] != "/"@[0]);
    let a = l.bits;
    let b = r.bits;
    assert(a.wrapping_add(b).wrapping_sub(b) == a) by {
        let s = a.wrapping_add(b);
        assert(s as int == (a as int + b as int) % 0x1_0000_0000_0000_0000);
    }
    assert(a.wrapping_mul(b) == b.wrapping_mul(a)) by (nonlinear_arith);
    if b == 1 {
        assert(b as nat == 1nat);
        assert(a as nat * b as nat == a as nat) by (nonlinear_arith)
            requires
                b as nat == 1nat,
        ;
        vstd::arithmetic::div_mod::lemma_small_mod(a as nat, 0x1_0000_0000_0000_0000nat);
    }
    if b != 0 && (l.unsigned || r.unsigned || (a <= i64::MAX && b <= i64::MAX)) {
        if !(l.unsigned || r.unsigned) {
            assert(signed(a) as int == a as int);
            assert(signed(b) as int == b as int);
            assert(!(signed(a) == i64::MIN && signed(b) == -1));
        }
        assert((a / b) as int * b as int + (a % b) as int == a as int) by (nonlinear_arith)
            requires
                b != 0,
        ;
    }
}

/// The shift operators, for a count below 64: `<<` multiplies by two to
/// the count when the product fits, `>>` divides an unsigned or
/// non-negative value by two to the count and keeps a negative signed
/// value negative; the result has the left operand's type.
pub proof fn lemma_shift_operators(l: Value, r: Value)
    ensures
        shift(l, r, "<<"@).unsigned == l.unsigned,
        shift(l, r, ">>"@).unsigned == l.unsigned,
        r.bits < 64 && l.bits as int * vstd::arithmetic::power2::pow2(r.bits as nat) as int <= u64::MAX
            ==> shift(l, r, "<<"@).bits as int == l.bits as int * vstd::arithmetic::power2::pow2(
            r.bits as nat,
        ) as int,
        r.bits < 64 && (l.unsigned || l.bits <= i64::MAX) ==> shift(l, r, ">>"@).bits as int == l.bits as int
            / vstd::arithmetic::power2::pow2(r.bits as nat) as int,
        r.bits < 64 && !l.unsigned && l.bits > i64::MAX ==> shift(l, r, ">>"@).bits > i64::MAX,
{
    reveal_strlit("<<");
    reveal_strlit(">>");
    assert("<<"@[0] != ">>"@[0]);
    let a = l.bits;
    let b = r.bits;
    if b < 64 {
        let k = b as u32;
        assert(k as u64 == b);
        assert(k % 64 == k);
        if a as int * vstd::arithmetic::power2::pow2(b as nat) as int <= u64::MAX {
            assert((a << k) == (a << b)) by (bit_vector)
                requires
                    k as u64 == b,
                    b < 64,
            ;
            vstd::bits::lemma_u64_shl_is_mul(a, b);
        }
        if l.unsigned || a <= i64::MAX {
            assert((a >> k) == (a >> b)) by (bit_vector)
                requires
                    k as u64 == b,
                    b < 64,
            ;
            vstd::bits::lemma_u64_shr_is_div(a, b);
            if !l.unsigned {
                assert(((a as i64) >> k) as u64 == a >> b) by (bit_vector)
                    requires
                        k as u64 == b,
                        b < 64,
                        a <= 0x7fff_ffff_ffff_ffffu64,
                ;
            }
        }
        if !l.unsigned && a > i64::MAX {
            assert(((a as i64) >> k) as u64 > 0x7fff_ffff_ffff_ffffu64) by (bit_vector)
                requires
                    k < 64,
                    a > 0x7fff_ffff_ffff_ffffu64,
            ;
        }
    }
}

/// The unary operators: `+` changes nothing, `-` and `~` undo themselves,
/// `-x` added to `x` wraps to zero, `~x` shares no bit with `x`, `!` gives
/// `1` exactly for zero and `0` otherwise; `-`, `~` and `+` keep the
/// operand's type and `!` gives a signed result.
pub proof fn lemma_unary_operators(v: Value)
    ensures
        apply_unary("+"@, v) == v,
        apply_unary("-"@, apply_unary("-"@, v)) == v,
        apply_unary("~"@, apply_unary("~"@, v)) == v,
        v.bits.wrapping_add(apply_unary("-"@, v).bits) == 0,
        v.bits & apply_unary("~"@, v).bits == 0,
        v.bits | apply_unary("~"@, v).bits == u64::MAX,
        apply_unary("!"@, v).bits == if v.bits == 0 {
            1u64
        } else {
            0u64
        },
        !apply_unary("!"@, v).unsigned,
        apply_unary("-"@, v).unsigned == v.unsigned,
        apply_unary("~"@, v).unsigned == v.unsigned,
{
    reveal_strlit("+");
    reveal_strlit("-");
    reveal_strlit("!");
    reveal_strlit("~");
    assert("+"@[0] != "-"@[0] && "+"@[0] != "!"@[0] && "+"@[0] != "~"@[0] && "-"@[0] != "!"@[0]
        && "-"@[0] != "~"@[0] && "!"@[0] != "~"@[0]);
    let a = v.bits;
    assert(0u64.wrapping_sub(0u64.wrapping_sub(a)) == a) by {
        let n = 0u64.wrapping_sub(a);
        assert(n as int == (0 - a as int) % 0x1_0000_0000_0000_0000);
    }
    assert(a.wrapping_add(0u64.wrapping_sub(a)) == 0) by {
        let n = 0u64.wrapping_sub(a);
        assert(n as int == (0 - a as int) % 0x1_0000_0000_0000_0000);
    }
    assert(!!a == a) by (bit_vector);
    assert(a & !a == 0) by (bit_vector);
    assert(a | !a == 0xffff_ffff_ffff_ffffu64) by (bit_vector);
}

/* Executable evaluation */

/// An expression parser's position and the diagnostics it has reported.
pub struct ExpressionParser {
    pub index: usize,
    pub diagnostics: Vec<PpDiagnostic>,
}

pub open spec fn state_of(p: ExpressionParser) -> ParseState {
    ParseState { index: p.index as int, diagnostics: diagnostic_views(p.diagnostics@) }
}

pub open spec fn context(tokens: Seq<TokenView>, wchar_signed: bool) -> ParseContext {
    ParseContext { tokens, wchar_signed }
}

fn zero_value() -> (result: Value)
    ensures
        result == zero(),
{
    Value { bits: 0, unsigned: false }
}

fn boolean_value(b: bool) -> (result: Value)
    ensures
        result == boolean(b),
{
    Value {
        bits: if b {
            1
        } else {
            0
        },
        unsigned: false,
    }
}

fn next_is_exec(tokens: &[PpToken], index: usize, spelling: &str) -> (result: bool)
    ensures
        result == next_is(
            context(token_views(tokens@), false),
            ParseState { index: index as int, diagnostics: Seq::empty() },
            spelling@,
        ),
{
    index < tokens.len() && str_eq(tokens[index].spelling.as_str(), spelling)
}

fn report(
    tokens: &[PpToken],
    p: &mut ExpressionParser,
    at: usize,
    code: &'static str,
    message: &str,
)
    requires
        all_plain(old(p).diagnostics@),
    ensures
        all_plain(final(p).diagnostics@),
        final(p).index == old(p).index,
        forall|w: bool| state_of(*final(p)) == error_at(
            context(token_views(tokens@), w),
            state_of(*old(p)),
            at as int,
            code@,
            message@,
        ),
{
    let span = if at < tokens.len() {
        Some(tokens[at].span)
    } else if tokens.len() > 0 {
        Some(tokens[tokens.len() - 1].span)
    } else {
        None
    };
    let ghost before = p.diagnostics@;
    p.diagnostics.push(PpDiagnostic {
        severity: PpSeverity::Error,
        category: PpDiagnosticCategory::General,
        code,
        message: message.to_owned(),
        span,
    });
    assert(diagnostic_views(p.diagnostics@) =~= diagnostic_views(before).push(
        DiagnosticView { code: code@, message: message@, span },
    ));
}

fn signed_div_exec(a: i64, b: i64) -> (result: i64)
    ensures
        result == signed_div(a, b),
{
    if a == i64::MIN && b == -1 {
        a
    } else {
        match a.checked_div(b) {
            Some(q) => q,
            None => 0,
        }
    }
}

fn signed_rem_exec(a: i64, b: i64) -> (result: i64)
    ensures
        result == signed_rem(a, b),
{
    if a == i64::MIN && b == -1 {
        0
    } else {
        match a.checked_rem(b) {
            Some(r) => r,
            None => 0,
        }
    }
}

fn arithmetic_exec(l: Value, r: Value, op: &str) -> (result: Value)
    ensures
        result == arithmetic(l, r, op@),
{
    let unsigned = l.unsigned || r.unsigned;
    let bits: u64 = if str_eq(op, "+") {
        l.bits.wrapping_add(r.bits)
    } else if str_eq(op, "-") {
        l.bits.wrapping_sub(r.bits)
    } else if str_eq(op, "*") {
        l.bits.wrapping_mul(r.bits)
    } else if str_eq(op, "/") {
        if unsigned {
            if r.bits == 0 {
                0
            } else {
                l.bits / r.bits
            }
        } else {
            signed_div_exec(l.bits as i64, r.bits as i64) as u64
        }
    } else {
        if unsigned {
            if r.bits == 0 {
                0
            } else {
                l.bits % r.bits
            }
        } else {
            signed_rem_exec(l.bits as i64, r.bits as i64) as u64
        }
    };
    Value { bits, unsigned }
}

fn bitwise_exec(l: Value, r: Value, op: &str) -> (result: Value)
    ensures
        result == bitwise(l, r, op@),
{
    let bits: u64 = if str_eq(op, "|") {
        l.bits | r.bits
    } else if str_eq(op, "^") {
        l.bits ^ r.bits
    } else {
        l.bits & r.bits
    };
    Value { bits, unsigned: l.unsigned || r.unsigned }
}

fn compare_exec(l: Value, r: Value, op: &str) -> (result: Value)
    ensures
        result == compare(l, r, op@),
{
    let unsigned = l.unsigned || r.unsigned;
    let (less, equal) = if unsigned {
        (l.bits < r.bits, l.bits == r.bits)
    } else {
        ((l.bits as i64) < (r.bits as i64), (l.bits as i64) == (r.bits as i64))
    };
    let b = if str_eq(op, "==") {
        equal
    } else if str_eq(op, "!=") {
        !equal
    } else if str_eq(op, "<") {
        less
    } else if str_eq(op, ">") {
        !less && !equal
    } else if str_eq(op, "<=") {
        less || equal
    } else {
        !less
    };
    boolean_value(b)
}

fn shift_exec(l: Value, r: Value, op: &str) -> (result: Value)
    ensures
        result == shift(l, r, op@),
{
    if str_eq(op, "<<") {
        Value { bits: l.bits.wrapping_shl(r.bits as u32), unsigned: l.unsigned }
    } else if l.unsigned {
        Value { bits: l.bits.wrapping_shr(r.bits as u32), unsigned: true }
    } else {
        Value { bits: (l.bits as i64).wrapping_shr(r.bits as u32) as u64, unsigned: false }
    }
}

fn level_operator_exec(level: u8, op: &str) -> (result: bool)
    ensures
        result == level_operator(level as nat, op@),
{
    if level == 11 {
        str_eq(op, "||")
    } else if level == 10 {
        str_eq(op, "&&")
    } else if level == 9 {
        str_eq(op, "|")
    } else if level == 8 {
        str_eq(op, "^")
    } else if level == 7 {
        str_eq(op, "&")
    } else if level == 6 {
        str_eq(op, "==") || str_eq(op, "!=")
    } else if level == 5 {
        str_eq(op, "<") || str_eq(op, ">") || str_eq(op, "<=") || str_eq(op, ">=")
    } else if level == 4 {
        str_eq(op, "<<") || str_eq(op, ">>")
    } else if level == 3 {
        str_eq(op, "+") || str_eq(op, "-")
    } else if level == 2 {
        str_eq(op, "*") || str_eq(op, "/") || str_eq(op, "%")
    } else {
        false
    }
}

fn unary_operator_exec(op: &str) -> (result: bool)
    ensures
        result == unary_operator(op@),
{
    str_eq(op, "+") || str_eq(op, "-") || str_eq(op, "!") || str_eq(op, "~")
}

fn apply_unary_exec(op: &str, v: Value) -> (result: Value)
    ensures
        result == apply_unary(op@, v),
{
    if str_eq(op, "+") {
        v
    } else if str_eq(op, "-") {
        Value { bits: 0u64.wrapping_sub(v.bits), unsigned: v.unsigned }
    } else if str_eq(op, "!") {
        boolean_value(v.bits == 0)
    } else {
        Value { bits: !v.bits, unsigned: v.unsigned }
    }
}

fn primary_value_exec(tokens: &[PpToken], wchar_signed: bool, p: &mut ExpressionParser, at: usize) -> (result: Value)
    requires
        all_plain(old(p).diagnostics@),
        at < tokens.len(),
        old(p).index == at + 1,
    ensures
        all_plain(final(p).diagnostics@),
        (result, state_of(*final(p))) == primary_value(
            context(token_views(tokens@), wchar_signed),
            token_views(tokens@)[at as int],
            state_of(*old(p)),
        ),
        final(p).index == old(p).index,
{
    let token = &tokens[at];
    let ghost before = p.diagnostics@;
    if token.kind == PpTokenKind::PpNumber {
        match decode_integer_constant(token.spelling.as_str()) {
            Ok(integer) => {
                if integer.value <= u64::MAX as u128 {
                    Value {
                        bits: integer.value as u64,
                        unsigned: integer.suffix.unsigned || integer.value > i64::MAX as u128,
                    }
                } else {
                    p.diagnostics.push(PpDiagnostic {
                        severity: PpSeverity::Error,
                        category: PpDiagnosticCategory::General,
                        code: "CCC1211",
                        message: "integer constant is too large for a preprocessor expression".to_owned(),
                        span: Some(token.span),
                    });
                    assert(diagnostic_views(p.diagnostics@) =~= diagnostic_views(before).push(
                        diagnostic_view(p.diagnostics@.last()),
                    ));
                    zero_value()
                }
            },
            Err(error) => {
                p.diagnostics.push(PpDiagnostic {
                    severity: PpSeverity::Error,
                    category: PpDiagnosticCategory::General,
                    code: "CCC1211",
                    message: error.message,
                    span: Some(token.span),
                });
                assert(diagnostic_views(p.diagnostics@) =~= diagnostic_views(before).push(
                    diagnostic_view(p.diagnostics@.last()),
                ));
                zero_value()
            },
        }
    } else if token.kind == PpTokenKind::CharacterConstant {
        match decode_character_constant(token.spelling.as_str()) {
            Ok(character) => Value {
                bits: character.value,
                unsigned: match character.prefix {
                    CharacterConstantPrefix::Unprefixed => false,
                    CharacterConstantPrefix::Wide => !wchar_signed,
                    _ => true,
                },
            },
            Err(error) => {
                p.diagnostics.push(PpDiagnostic {
                    severity: PpSeverity::Error,
                    category: PpDiagnosticCategory::General,
                    code: "CCC1212",
                    message: error.message,
                    span: Some(token.span),
                });
                assert(diagnostic_views(p.diagnostics@) =~= diagnostic_views(before).push(
                    diagnostic_view(p.diagnostics@.last()),
                ));
                zero_value()
            },
        }
    } else {
        report(tokens, p, at, "CCC1213", "invalid token in conditional expression");
        zero_value()
    }
}

fn combine_exec(
    tokens: &[PpToken],
    p: &mut ExpressionParser,
    level: u8,
    left: Value,
    right: Value,
    op: &str,
    eval: bool,
) -> (result: Value)
    requires
        all_plain(old(p).diagnostics@),
        2 <= level <= 11,
    ensures
        all_plain(final(p).diagnostics@),
        forall|w: bool| (result, state_of(*final(p))) == combine(
            context(token_views(tokens@), w),
            level as nat,
            state_of(*old(p)),
            left,
            right,
            op@,
            eval,
        ),
        final(p).index == old(p).index,
{
    let before: usize = if p.index > 0 {
        p.index - 1
    } else {
        0
    };
    if level == 11 {
        boolean_value(left.bits != 0 || right.bits != 0)
    } else if level == 10 {
        boolean_value(left.bits != 0 && right.bits != 0)
    } else if level >= 7 {
        bitwise_exec(left, right, op)
    } else if level >= 5 {
        compare_exec(left, right, op)
    } else if level == 4 {
        if eval && right.bits >= 64 {
            report(tokens, p, before, "CCC1207", "shift count is too large");
            zero_value()
        } else {
            shift_exec(left, right, op)
        }
    } else if level == 3 {
        arithmetic_exec(left, right, op)
    } else {
        if eval && (str_eq(op, "/") || str_eq(op, "%")) && right.bits == 0 {
            report(tokens, p, before, "CCC1208", "division by zero in conditional expression");
            zero_value()
        } else if right.bits != 0 || str_eq(op, "*") {
            arithmetic_exec(left, right, op)
        } else {
            left
        }
    }
}

fn parse_level_exec(tokens: &[PpToken], wchar_signed: bool, p: &mut ExpressionParser, level: u8, eval: bool) -> (result: Value)
    requires
        all_plain(old(p).diagnostics@),
        old(p).index <= tokens.len(),
        level <= 12,
    ensures
        all_plain(final(p).diagnostics@),
        (result, state_of(*final(p))) == parse_level(
            context(token_views(tokens@), wchar_signed),
            level as nat,
            state_of(*old(p)),
            eval,
        ),
        old(p).index <= final(p).index <= tokens.len(),
    decreases tokens.len() - old(p).index, level, 1nat,
{
    let ghost ctx = context(token_views(tokens@), wchar_signed);
    let ghost st = state_of(*p);
    if level == 0 {
        if next_is_exec(tokens, p.index, "(") {
            p.index = p.index + 1;
            let value = parse_level_exec(tokens, wchar_signed, p, 12, eval);
            if next_is_exec(tokens, p.index, ")") {
                p.index = p.index + 1;
            } else {
                let at = p.index;
                report(tokens, p, at, "CCC1209", "expected ')' in conditional expression");
            }
            value
        } else if p.index >= tokens.len() {
            let at = p.index;
            report(tokens, p, at, "CCC1210", "expected expression");
            zero_value()
        } else {
            let at = p.index;
            p.index = p.index + 1;
            primary_value_exec(tokens, wchar_signed, p, at)
        }
    } else if level == 1 {
        if p.index < tokens.len() && unary_operator_exec(tokens[p.index].spelling.as_str()) {
            let at = p.index;
            p.index = p.index + 1;
            let operand = parse_level_exec(tokens, wchar_signed, p, 1, eval);
            apply_unary_exec(tokens[at].spelling.as_str(), operand)
        } else {
            parse_level_exec(tokens, wchar_signed, p, 0, eval)
        }
    } else if level >= 12 {
        let condition = parse_level_exec(tokens, wchar_signed, p, 11, eval);
        if !next_is_exec(tokens, p.index, "?") {
            return condition;
        }
        let c = condition.bits != 0;
        p.index = p.index + 1;
        let when_true = parse_level_exec(tokens, wchar_signed, p, 12, eval && c);
        if !next_is_exec(tokens, p.index, ":") {
            let at = p.index;
            report(tokens, p, at, "CCC1206", "expected ':' in conditional expression");
            return zero_value();
        }
        p.index = p.index + 1;
        let when_false = parse_level_exec(tokens, wchar_signed, p, 12, eval && !c);
        if c {
            when_true
        } else {
            when_false
        }
    } else {
        let left = parse_level_exec(tokens, wchar_signed, p, level - 1, eval);
        parse_rest_exec(tokens, wchar_signed, p, level, eval, left)
    }
}

fn parse_rest_exec(
    tokens: &[PpToken],
    wchar_signed: bool,
    p: &mut ExpressionParser,
    level: u8,
    eval: bool,
    left: Value,
) -> (result: Value)
    requires
        all_plain(old(p).diagnostics@),
        old(p).index <= tokens.len(),
        2 <= level <= 11,
    ensures
        all_plain(final(p).diagnostics@),
        (result, state_of(*final(p))) == parse_rest(
            context(token_views(tokens@), wchar_signed),
            level as nat,
            state_of(*old(p)),
            eval,
            left,
        ),
        old(p).index <= final(p).index <= tokens.len(),
    decreases tokens.len() - old(p).index, level, 0nat,
{
    if p.index < tokens.len() && level_operator_exec(level, tokens[p.index].spelling.as_str()) {
        let at = p.index;
        p.index = p.index + 1;
        let right_eval = if level == 11 {
            eval && left.bits == 0
        } else if level == 10 {
            eval && left.bits != 0
        } else {
            eval
        };
        let right = parse_level_exec(tokens, wchar_signed, p, level - 1, right_eval);
        let combined = combine_exec(tokens, p, level, left, right, tokens[at].spelling.as_str(), eval);
        parse_rest_exec(tokens, wchar_signed, p, level, eval, combined)
    } else {
        left
    }
}

/* The controlling expression */

/// An identifier that survives macro replacement evaluates as the number 0.
pub open spec fn as_operand(t: TokenView) -> TokenView {
    if t.kind == PpTokenKind::Identifier {
        TokenView { kind: PpTokenKind::PpNumber, spelling: "0"@, ..t }
    } else {
        t
    }
}

/// The value of the expression `tokens` and the diagnostics of its evaluation.
pub open spec fn expression_outcome(tokens: Seq<TokenView>, wchar_signed: bool) -> (Value, ParseState) {
    let ctx = ParseContext {
        tokens: Seq::new(tokens.len(), |i: int| as_operand(tokens[i])),
        wchar_signed,
    };
    let parsed = parse_level(ctx, 12, ParseState { index: 0, diagnostics: Seq::empty() }, true);
    if parsed.1.index < tokens.len() {
        (
            parsed.0,
            error_at(
                ctx,
                parsed.1,
                parsed.1.index,
                "CCC1201"@,
                "unexpected token in conditional expression"@,
            ),
        )
    } else {
        parsed
    }
}

/// The truth of a controlling expression and its diagnostics.
pub struct ConditionResult {
    pub value: bool,
    pub diagnostics: Vec<PpDiagnostic>,
}

/// Evaluates a controlling expression whose macros are replaced.
pub fn evaluate_expression(tokens: &[PpToken], wchar_is_signed: bool) -> (result: ConditionResult)
    ensures
        result.value == truthy(expression_outcome(token_views(tokens@), wchar_is_signed).0),
        diagnostic_views(result.diagnostics@) == expression_outcome(
            token_views(tokens@),
            wchar_is_signed,
        ).1.diagnostics,
        all_plain(result.diagnostics@),
{
    let mut operands: Vec<PpToken> = Vec::new();
    let mut i: usize = 0;
    while i < tokens.len()
        invariant
            i <= tokens.len(),
            operands.len() == i,
            forall|k: int| 0 <= k < i ==> token_view(#[trigger] operands[k]) == as_operand(
                token_view(tokens[k]),
            ),
        decreases tokens.len() - i,
    {
        let token = &tokens[i];
        let operand = if token.kind == PpTokenKind::Identifier {
            PpToken {
                kind: PpTokenKind::PpNumber,
                span: token.span,
                spelling: "0".to_owned(),
                leading_space: token.leading_space,
                at_start_of_line: token.at_start_of_line,
                logical_line: token.logical_line,
                is_system_header: token.is_system_header,
                hide_set: copy_names(&token.hide_set),
                expansion_depth: token.expansion_depth,
            }
        } else {
            PpToken {
                kind: token.kind,
                span: token.span,
                spelling: token.spelling.clone(),
                leading_space: token.leading_space,
                at_start_of_line: token.at_start_of_line,
                logical_line: token.logical_line,
                is_system_header: token.is_system_header,
                hide_set: copy_names(&token.hide_set),
                expansion_depth: token.expansion_depth,
            }
        };
        operands.push(operand);
        i = i + 1;
    }
    let ghost ctx = ParseContext {
        tokens: Seq::new(tokens@.len(), |k: int| as_operand(token_views(tokens@)[k])),
        wchar_signed: wchar_is_signed,
    };
    assert(token_views(operands@) =~= ctx.tokens);
    let mut parser = ExpressionParser { index: 0, diagnostics: Vec::new() };
    assert(diagnostic_views(parser.diagnostics@) =~= Seq::<DiagnosticView>::empty());
    let value = parse_level_exec(operands.as_slice(), wchar_is_signed, &mut parser, 12, true);
    if parser.index < operands.len() {
        let at = parser.index;
        report(operands.as_slice(), &mut parser, at, "CCC1201", "unexpected token in conditional expression");
    }
    ConditionResult { value: value.bits != 0, diagnostics: parser.diagnostics }
}

/* The `defined` operator */

/// The name a token stands for: its canonical identifier, or its spelling.
pub open spec fn key_of(t: TokenView) -> Seq<char> {
    match canonical_identifier(t.spelling) {
        Some(key) => key,
        None => t.spelling,
    }
}

/// The number a `defined` operator at `reference` is replaced by.
pub open spec fn defined_number(reference: TokenView, value: bool) -> TokenView {
    TokenView {
        kind: PpTokenKind::PpNumber,
        spelling: if value {
            "1"@
        } else {
            "0"@
        },
        span: reference.span,
        leading_space: reference.leading_space,
        at_start_of_line: reference.at_start_of_line,
        logical_line: reference.logical_line,
        is_system_header: false,
    }
}

/// What one step of `defined` replacement at `k` yields: the tokens it
/// emits, the diagnostics it reports, and where it resumes.
pub open spec fn defined_step(toks: Seq<TokenView>, names: Set<Seq<char>>, k: int) -> (
    Seq<TokenView>,
    Seq<DiagnosticView>,
    int,
) {
    let t = toks[k];
    if t.kind == PpTokenKind::Identifier && key_of(t) == "defined"@ {
        let parenthesized = k + 1 < toks.len() && toks[k + 1].spelling == "("@;
        let name_index = if parenthesized {
            k + 2
        } else {
            k + 1
        };
        if !(name_index < toks.len() && toks[name_index].kind == PpTokenKind::Identifier) {
            (
                Seq::empty(),
                seq![
                    DiagnosticView {
                        code: "CCC1202"@,
                        message: "defined requires an identifier operand"@,
                        span: Some(t.span),
                    },
                ],
                k + 1,
            )
        } else if parenthesized && !(name_index + 1 < toks.len() && toks[name_index + 1].spelling
            == ")"@) {
            (
                Seq::empty(),
                seq![
                    DiagnosticView {
                        code: "CCC1203"@,
                        message: "missing ')' after defined operand"@,
                        span: Some(t.span),
                    },
                ],
                k + 1,
            )
        } else {
            (
                seq![defined_number(t, names.contains(key_of(toks[name_index])))],
                Seq::empty(),
                if parenthesized {
                    name_index + 2
                } else {
                    name_index + 1
                },
            )
        }
    } else {
        (seq![t], Seq::empty(), k + 1)
    }
}

/// `toks` from `k` with every `defined X` and `defined(X)` replaced by 1
/// when `X` names a macro and by 0 otherwise; a malformed operator is
/// reported and dropped.
pub open spec fn replace_defined_from(toks: Seq<TokenView>, names: Set<Seq<char>>, k: int) -> (
    Seq<TokenView>,
    Seq<DiagnosticView>,
)
    decreases toks.len() - k,
{
    if k < 0 || k >= toks.len() {
        (Seq::empty(), Seq::empty())
    } else {
        let step = defined_step(toks, names, k);
        if step.2 <= k {
            (Seq::empty(), Seq::empty())
        } else {
            let rest = replace_defined_from(toks, names, step.2);
            (step.0 + rest.0, step.1 + rest.1)
        }
    }
}

/// The names of `strings`.
pub open spec fn name_set(strings: Seq<String>) -> Set<Seq<char>> {
    Set::new(|n: Seq<char>| exists|i: int| 0 <= i < strings.len() && (#[trigger] strings[i])@ == n)
}

fn contains_name(names: &[String], name: &str) -> (result: bool)
    ensures
        result == name_set(names@).contains(name@),
{
    let mut i: usize = 0;
    while i < names.len()
        invariant
            i <= names.len(),
            forall|j: int| 0 <= j < i ==> (#[trigger] names@[j])@ != name@,
        decreases names.len() - i,
    {
        if str_eq(names[i].as_str(), name) {
            assert(names@[i as int]@ == name@);
            return true;
        }
        i = i + 1;
    }
    false
}

fn number_token(reference: &PpToken, value: bool) -> (result: PpToken)
    ensures
        token_view(result) == defined_number(token_view(*reference), value),
{
    PpToken {
        kind: PpTokenKind::PpNumber,
        span: reference.span,
        spelling: if value {
            "1".to_owned()
        } else {
            "0".to_owned()
        },
        leading_space: reference.leading_space,
        at_start_of_line: reference.at_start_of_line,
        logical_line: reference.logical_line,
        is_system_header: false,
        hide_set: Vec::new(),
        expansion_depth: 0,
    }
}

fn copy_token(t: &PpToken) -> (result: PpToken)
    ensures
        token_view(result) == token_view(*t),
{
    PpToken {
        kind: t.kind,
        span: t.span,
        spelling: t.spelling.clone(),
        leading_space: t.leading_space,
        at_start_of_line: t.at_start_of_line,
        logical_line: t.logical_line,
        is_system_header: t.is_system_header,
        hide_set: copy_names(&t.hide_set),
        expansion_depth: t.expansion_depth,
    }
}

/// Replaces the `defined` operators of `tokens`, `defined` naming the macros.
pub fn replace_defined(defined: &[String], tokens: &[PpToken]) -> (result: (
    Vec<PpToken>,
    Vec<PpDiagnostic>,
))
    ensures
        (token_views(result.0@), diagnostic_views(result.1@)) == replace_defined_from(
            token_views(tokens@),
            name_set(defined@),
            0,
        ),
        all_plain(result.1@),
{
    let ghost toks = token_views(tokens@);
    let ghost names = name_set(defined@);
    let mut output: Vec<PpToken> = Vec::new();
    let mut diagnostics: Vec<PpDiagnostic> = Vec::new();
    let mut k: usize = 0;
    proof {
        let whole = replace_defined_from(toks, names, 0);
        assert(token_views(output@) + whole.0 =~= whole.0);
        assert(diagnostic_views(diagnostics@) + whole.1 =~= whole.1);
    }
    while k < tokens.len()
        invariant
            k <= tokens.len(),
            toks == token_views(tokens@),
            names == name_set(defined@),
            all_plain(diagnostics@),
            ({
                let whole = replace_defined_from(toks, names, 0);
                let rest = replace_defined_from(toks, names, k as int);
                whole.0 == token_views(output@) + rest.0 && whole.1 == diagnostic_views(
                    diagnostics@,
                ) + rest.1
            }),
        decreases tokens.len() - k,
    {
        let ghost step = defined_step(toks, names, k as int);
        let ghost before_tokens = token_views(output@);
        let ghost before_diagnostics = diagnostic_views(diagnostics@);
        let token = &tokens[k];
        let is_defined = token.kind == PpTokenKind::Identifier && str_eq(
            token.identifier_key().as_str(),
            "defined",
        );
        let next: usize;
        if is_defined {
            let parenthesized = k + 1 < tokens.len() && str_eq(tokens[k + 1].spelling.as_str(), "(");
            let name_index = if parenthesized {
                k + 2
            } else {
                k + 1
            };
            if !(name_index < tokens.len() && tokens[name_index].kind == PpTokenKind::Identifier) {
                diagnostics.push(PpDiagnostic {
                    severity: PpSeverity::Error,
                    category: PpDiagnosticCategory::General,
                    code: "CCC1202",
                    message: "defined requires an identifier operand".to_owned(),
                    span: Some(token.span),
                });
                next = k + 1;
            } else if parenthesized && !(name_index + 1 < tokens.len() && str_eq(
                tokens[name_index + 1].spelling.as_str(),
                ")",
            )) {
                diagnostics.push(PpDiagnostic {
                    severity: PpSeverity::Error,
                    category: PpDiagnosticCategory::General,
                    code: "CCC1203",
                    message: "missing ')' after defined operand".to_owned(),
                    span: Some(token.span),
                });
                next = k + 1;
            } else {
                let key = tokens[name_index].identifier_key();
                let present = contains_name(defined, key.as_str());
                output.push(number_token(token, present));
                next = if parenthesized {
                    name_index + 2
                } else {
                    name_index + 1
                };
            }
        } else {
            output.push(copy_token(token));
            next = k + 1;
        }
        proof {
            assert(token_views(output@) =~= before_tokens + step.0);
            assert(diagnostic_views(diagnostics@) =~= before_diagnostics + step.1);
            let rest = replace_defined_from(toks, names, next as int);
            assert(step.0 + rest.0 + Seq::<TokenView>::empty() =~= step.0 + rest.0);
            assert(before_tokens + (step.0 + rest.0) =~= token_views(output@) + rest.0);
            assert(before_diagnostics + (step.1 + rest.1) =~= diagnostic_views(diagnostics@)
                + rest.1);
        }
        k = next;
    }
    proof {
        assert(token_views(output@) + Seq::<TokenView>::empty() =~= token_views(output@));
        assert(diagnostic_views(diagnostics@) + Seq::<DiagnosticView>::empty() =~= diagnostic_views(
            diagnostics@,
        ));
    }
    (output, diagnostics)
}

} // verus!
