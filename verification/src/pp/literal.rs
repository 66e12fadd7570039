use vstd::prelude::*;

use crate::text::{
    all_digits, char_from_u32, string_from_chars, string_from_utf8, chars_of, count_hex_run, digit_value, digit_value_exec,
    digits_value, hex_run, is_hex_digit, is_octal_digit, lemma_digits_value_bound, lemma_hex_run,
    octal_run, parse_unsigned, power,
    parse_unsigned_radix, push_utf16, push_utf8, utf16_units, utf8_len, utf8_shorter_than,
    utf8_units,
};

verus! {

/// The `u`/`U` and `l`/`L`/`ll`/`LL` suffix of an integer constant.
#[derive(Clone, Copy, Debug, PartialEq, Eq, Structural)]
pub struct IntegerSuffix {
    pub unsigned: bool,
    pub long_count: u8,
}

impl Default for IntegerSuffix {
    fn default() -> (result: Self)
        ensures
            result == (IntegerSuffix { unsigned: false, long_count: 0 }),
    {
        IntegerSuffix { unsigned: false, long_count: 0 }
    }
}

#[derive(Clone, Copy, Debug, PartialEq, Eq, Structural)]
pub struct IntegerConstant {
    pub value: u128,
    pub radix: u32,
    pub suffix: IntegerSuffix,
}

/// A literal that could not be decoded, with the reason.
#[derive(Clone, Debug, PartialEq, Eq)]
pub struct LiteralError {
    pub message: String,
}

pub fn literal_error(message: &str) -> (result: LiteralError)
    ensures
        result.message@ == message@,
{
    LiteralError { message: message.to_owned() }
}

/// The view of a decoding outcome: the decoded value, or the error message.
pub open spec fn outcome<T>(result: Result<T, LiteralError>) -> Result<T, Seq<char>> {
    match result {
        Ok(value) => Ok(value),
        Err(error) => Err(error.message@),
    }
}

/* Integer constants */

pub open spec fn is_integer_suffix_char(c: char) -> bool {
    c == 'u' || c == 'U' || c == 'l' || c == 'L'
}

/// Length of the longest run of suffix letters that ends `s`.
pub open spec fn integer_suffix_len(s: Seq<char>) -> nat
    decreases s.len(),
{
    if s.len() == 0 {
        0
    } else if is_integer_suffix_char(s.last()) {
        integer_suffix_len(s.drop_last()) + 1
    } else {
        0
    }
}

/// Reads suffix letters left to right: one `u`/`U`, and one `l`/`L` that may be
/// doubled with the same letter.
pub open spec fn parse_integer_suffix(t: Seq<char>, acc: IntegerSuffix) -> Option<IntegerSuffix>
    decreases t.len(),
{
    if t.len() == 0 {
        Some(acc)
    } else if (t[0] == 'u' || t[0] == 'U') && !acc.unsigned {
        parse_integer_suffix(t.drop_first(), IntegerSuffix { unsigned: true, ..acc })
    } else if (t[0] == 'l' || t[0] == 'L') && acc.long_count == 0 {
        if t.len() > 1 && t[1] == t[0] {
            parse_integer_suffix(t.subrange(2, t.len() as int), IntegerSuffix { long_count: 2, ..acc })
        } else {
            parse_integer_suffix(t.drop_first(), IntegerSuffix { long_count: 1, ..acc })
        }
    } else {
        None
    }
}

/// The radix selected by the prefix of `digits`, and where the digits proper start.
pub open spec fn integer_radix(d: Seq<char>) -> (int, int) {
    if d.len() >= 2 && d[0] == '0' && (d[1] == 'x' || d[1] == 'X') {
        (16, 2)
    } else if d.len() >= 2 && d[0] == '0' && (d[1] == 'b' || d[1] == 'B') {
        (2, 2)
    } else if d.len() > 1 && d[0] == '0' {
        (8, 1)
    } else {
        (10, 0)
    }
}

/// What `decode_integer_constant` gives for the spelling `s`.
pub open spec fn integer_constant_spec(s: Seq<char>) -> Result<IntegerConstant, Seq<char>> {
    let k = s.len() - integer_suffix_len(s);
    let digits = s.take(k);
    match parse_integer_suffix(s.skip(k), IntegerSuffix { unsigned: false, long_count: 0 }) {
        None => Err("invalid integer suffix"@),
        Some(suffix) => {
            let (radix, start) = integer_radix(digits);
            let body = digits.skip(start);
            if body.len() == 0 {
                Err("integer constant has no digits"@)
            } else {
                match parse_unsigned(body, radix, u128::MAX as int) {
                    None => Err("integer constant is invalid or too large"@),
                    Some(value) => Ok(
                        IntegerConstant { value: value as u128, radix: radix as u32, suffix },
                    ),
                }
            }
        },
    }
}

/// Decodes a C integer constant: an optional base prefix (`0x`, `0b`, or a
/// leading `0` for octal), its digits, and an unsigned/long suffix.
#[verifier::loop_isolation(false)]
#[verifier::rlimit(40)]
pub fn decode_integer_constant(spelling: &str) -> (result: Result<IntegerConstant, LiteralError>)
    ensures
        outcome(result) == integer_constant_spec(spelling@),
{
    let s = chars_of(spelling);
    let n = s.len();
    let mut k = n;
    assert(s@.take(n as int) =~= s@);
    while k > 0 && (s[k - 1] == 'u' || s[k - 1] == 'U' || s[k - 1] == 'l' || s[k - 1] == 'L')
        invariant
            k <= n == s.len(),
            integer_suffix_len(s@) == (n - k) + integer_suffix_len(s@.take(k as int)),
        decreases k,
    {
        assert(s@.take(k as int).drop_last() =~= s@.take(k - 1));
        k = k - 1;
    }
    proof {
        if k > 0 {
            assert(s@.take(k as int).last() == s@[k - 1]);
        }
        assert(integer_suffix_len(s@.take(k as int)) == 0);
    }
    let mut suffix = IntegerSuffix::default();
    let mut i = k;
    while i < n
        invariant
            k <= i <= n == s.len(),
            parse_integer_suffix(s@.skip(k as int), IntegerSuffix { unsigned: false, long_count: 0 })
                == parse_integer_suffix(s@.skip(i as int), suffix),
        decreases n - i,
    {
        let c = s[i];
        let ghost t = s@.skip(i as int);
        assert(t[0] == c);
        if (c == 'u' || c == 'U') && !suffix.unsigned {
            assert(t.drop_first() =~= s@.skip(i + 1));
            suffix.unsigned = true;
            i = i + 1;
        } else if (c == 'l' || c == 'L') && suffix.long_count == 0 {
            if i + 1 < n && s[i + 1] == c {
                assert(t[1] == s@[i + 1]);
                assert(t.subrange(2, t.len() as int) =~= s@.skip(i + 2));
                suffix.long_count = 2;
                i = i + 2;
            } else {
                assert(t.drop_first() =~= s@.skip(i + 1));
                suffix.long_count = 1;
                i = i + 1;
            }
        } else {
            assert(t.len() > 0);
            assert(parse_integer_suffix(t, suffix) is None);
            return Err(literal_error("invalid integer suffix"));
        }
    }
    assert(s@.skip(n as int).len() == 0);
    let ghost digits = s@.take(k as int);
    let (radix, start): (u32, usize) = if k >= 2 && s[0] == '0' && (s[1] == 'x' || s[1] == 'X') {
        (16, 2)
    } else if k >= 2 && s[0] == '0' && (s[1] == 'b' || s[1] == 'B') {
        (2, 2)
    } else if k > 1 && s[0] == '0' {
        (8, 1)
    } else {
        (10, 0)
    };
    assert(integer_radix(digits) == (radix as int, start as int));
    assert(digits.skip(start as int) =~= s@.subrange(start as int, k as int));
    if start == k {
        return Err(literal_error("integer constant has no digits"));
    }
    match parse_unsigned_radix(&s, start, k, radix, u128::MAX) {
        Some(value) => Ok(IntegerConstant { value, radix, suffix }),
        None => Err(literal_error("integer constant is invalid or too large")),
    }
}

/// Digits ending a constant are never read as its suffix.
proof fn lemma_no_suffix_after_a_digit(s: Seq<char>, radix: int)
    requires
        s.len() > 0,
        radix <= 16,
        digit_value(s.last()) < radix,
    ensures
        integer_suffix_len(s) == 0,
        s.take(s.len() - integer_suffix_len(s)) == s,
        s.skip(s.len() - integer_suffix_len(s)) == Seq::<char>::empty(),
        parse_integer_suffix(Seq::<char>::empty(), IntegerSuffix { unsigned: false, long_count: 0 })
            == Some(IntegerSuffix { unsigned: false, long_count: 0 }),
{
    assert(!is_integer_suffix_char(s.last()));
    assert(s.take(s.len() as int) =~= s);
    assert(s.skip(s.len() as int) =~= Seq::<char>::empty());
}

/// A constant with its base prefix ending at `start`, no suffix, and digits
/// of the base after the prefix, decodes to their value.
proof fn lemma_unsuffixed_decode(s: Seq<char>, radix: int, start: int)
    requires
        integer_radix(s) == (radix, start),
        2 <= radix <= 16,
        0 <= start < s.len(),
        all_digits(s.skip(start), radix),
        digits_value(s.skip(start), radix) <= u128::MAX,
    ensures
        integer_constant_spec(s) == Ok::<IntegerConstant, Seq<char>>(
            IntegerConstant {
                value: digits_value(s.skip(start), radix) as u128,
                radix: radix as u32,
                suffix: IntegerSuffix { unsigned: false, long_count: 0 },
            },
        ),
{
    let body = s.skip(start);
    assert(body[body.len() - 1] == s.last());
    assert(digit_value(body[body.len() - 1]) < radix);
    lemma_no_suffix_after_a_digit(s, 16);
    assert(digit_value(body[0]) < radix);
    assert(digit_value('+') == 36);
}

/// A constant made of a base prefix and digits of that base decodes to the
/// digits' value in that base, with no suffix: `0x` and `0X` give base 16,
/// `0b` and `0B` base 2, a leading `0` base 8, and digits that do not start
/// with `0` base 10; the case of the prefix letter does not matter.
#[verifier::spinoff_prover]
#[verifier::rlimit(100)]
pub proof fn lemma_integer_constant_bases(d: Seq<char>)
    requires
        d.len() > 0,
    ensures
        all_digits(d, 16) && digits_value(d, 16) <= u128::MAX ==> {
            let hex = Ok::<IntegerConstant, Seq<char>>(
                IntegerConstant {
                    value: digits_value(d, 16) as u128,
                    radix: 16,
                    suffix: IntegerSuffix { unsigned: false, long_count: 0 },
                },
            );
            &&& integer_constant_spec(seq!['0', 'x'] + d) == hex
            &&& integer_constant_spec(seq!['0', 'X'] + d) == hex
        },
        all_digits(d, 2) && digits_value(d, 2) <= u128::MAX ==> {
            let binary = Ok::<IntegerConstant, Seq<char>>(
                IntegerConstant {
                    value: digits_value(d, 2) as u128,
                    radix: 2,
                    suffix: IntegerSuffix { unsigned: false, long_count: 0 },
                },
            );
            &&& integer_constant_spec(seq!['0', 'b'] + d) == binary
            &&& integer_constant_spec(seq!['0', 'B'] + d) == binary
        },
        all_digits(d, 8) && digits_value(d, 8) <= u128::MAX ==> integer_constant_spec(seq!['0'] + d)
            == Ok::<IntegerConstant, Seq<char>>(
            IntegerConstant {
                value: digits_value(d, 8) as u128,
                radix: 8,
                suffix: IntegerSuffix { unsigned: false, long_count: 0 },
            },
        ),
        all_digits(d, 10) && d[0] != '0' && digits_value(d, 10) <= u128::MAX ==> integer_constant_spec(d)
            == Ok::<IntegerConstant, Seq<char>>(
            IntegerConstant {
                value: digits_value(d, 10) as u128,
                radix: 10,
                suffix: IntegerSuffix { unsigned: false, long_count: 0 },
            },
        ),
{
    if all_digits(d, 16) && digits_value(d, 16) <= u128::MAX {
        let x = seq!['0', 'x'] + d;
        let big_x = seq!['0', 'X'] + d;
        assert(x.skip(2) =~= d);
        assert(big_x.skip(2) =~= d);
        lemma_unsuffixed_decode(x, 16, 2);
        lemma_unsuffixed_decode(big_x, 16, 2);
    }
    if all_digits(d, 2) && digits_value(d, 2) <= u128::MAX {
        let b = seq!['0', 'b'] + d;
        let big_b = seq!['0', 'B'] + d;
        assert(b.skip(2) =~= d);
        assert(big_b.skip(2) =~= d);
        lemma_unsuffixed_decode(b, 2, 2);
        lemma_unsuffixed_decode(big_b, 2, 2);
    }
    if all_digits(d, 8) && digits_value(d, 8) <= u128::MAX {
        let o = seq!['0'] + d;
        assert(o.skip(1) =~= d);
        assert(o[1] == d[0]);
        assert(digit_value(d[0]) < 8);
        lemma_unsuffixed_decode(o, 8, 1);
    }
    if all_digits(d, 10) && d[0] != '0' && digits_value(d, 10) <= u128::MAX {
        assert(d.skip(0) =~= d);
        lemma_unsuffixed_decode(d, 10, 0);
    }
}

proof fn lemma_suffix_run(d: Seq<char>, t: Seq<char>)
    requires
        d.len() > 0,
        !is_integer_suffix_char(d.last()),
        forall|k: int| 0 <= k < t.len() ==> is_integer_suffix_char(#[trigger] t[k]),
    ensures
        integer_suffix_len(d + t) == t.len(),
        (d + t).take((d + t).len() - t.len()) == d,
        (d + t).skip((d + t).len() - t.len()) == t,
    decreases t.len(),
{
    if t.len() == 0 {
        assert(d + t =~= d);
    } else {
        lemma_suffix_run(d, t.drop_last());
        assert((d + t).drop_last() =~= d + t.drop_last());
        assert((d + t).last() == t.last());
    }
    assert((d + t).take((d + t).len() - t.len()) =~= d);
    assert((d + t).skip((d + t).len() - t.len()) =~= t);
}

/// A decimal constant followed by suffix letters decodes as its digits with
/// what the letters read as.
proof fn lemma_suffixed_decimal(d: Seq<char>, t: Seq<char>)
    requires
        d.len() > 0,
        d[0] != '0',
        all_digits(d, 10),
        digits_value(d, 10) <= u128::MAX,
        forall|k: int| 0 <= k < t.len() ==> is_integer_suffix_char(#[trigger] t[k]),
    ensures
        integer_constant_spec(d + t) == match parse_integer_suffix(
            t,
            IntegerSuffix { unsigned: false, long_count: 0 },
        ) {
            Some(suffix) => Ok::<IntegerConstant, Seq<char>>(
                IntegerConstant { value: digits_value(d, 10) as u128, radix: 10, suffix },
            ),
            None => Err("invalid integer suffix"@),
        },
{
    assert(digit_value(d[d.len() - 1]) < 10);
    assert(!is_integer_suffix_char(d.last()));
    lemma_suffix_run(d, t);
    assert(digit_value(d[0]) < 10);
    assert(digit_value('+') == 36);
    assert(d.skip(0) =~= d);
}

/// The suffix letters of a decimal constant: `u` or `U` makes it unsigned,
/// `l` or `L` long and `ll` or `LL` long long; the digits' value and base
/// stay as they are.
#[verifier::spinoff_prover]
#[verifier::rlimit(100)]
pub proof fn lemma_integer_suffix_letters(d: Seq<char>)
    requires
        d.len() > 0,
        d[0] != '0',
        all_digits(d, 10),
        digits_value(d, 10) <= u128::MAX,
    ensures
        ({
            let value = digits_value(d, 10) as u128;
            &&& integer_constant_spec(d + seq!['u']) == Ok::<IntegerConstant, Seq<char>>(
                IntegerConstant { value, radix: 10, suffix: IntegerSuffix { unsigned: true, long_count: 0 } },
            )
            &&& integer_constant_spec(d + seq!['U']) == Ok::<IntegerConstant, Seq<char>>(
                IntegerConstant { value, radix: 10, suffix: IntegerSuffix { unsigned: true, long_count: 0 } },
            )
            &&& integer_constant_spec(d + seq!['l']) == Ok::<IntegerConstant, Seq<char>>(
                IntegerConstant { value, radix: 10, suffix: IntegerSuffix { unsigned: false, long_count: 1 } },
            )
            &&& integer_constant_spec(d + seq!['L']) == Ok::<IntegerConstant, Seq<char>>(
                IntegerConstant { value, radix: 10, suffix: IntegerSuffix { unsigned: false, long_count: 1 } },
            )
            &&& integer_constant_spec(d + seq!['l', 'l']) == Ok::<IntegerConstant, Seq<char>>(
                IntegerConstant { value, radix: 10, suffix: IntegerSuffix { unsigned: false, long_count: 2 } },
            )
            &&& integer_constant_spec(d + seq!['L', 'L']) == Ok::<IntegerConstant, Seq<char>>(
                IntegerConstant { value, radix: 10, suffix: IntegerSuffix { unsigned: false, long_count: 2 } },
            )
        }),
{
    assert(seq!['u'].drop_first() =~= Seq::<char>::empty());
    assert(parse_integer_suffix(Seq::<char>::empty(), IntegerSuffix { unsigned: true, long_count: 0 }) == Some(IntegerSuffix { unsigned: true, long_count: 0 }));
    assert(parse_integer_suffix(seq!['u'], IntegerSuffix { unsigned: false, long_count: 0 }) == Some(IntegerSuffix { unsigned: true, long_count: 0 }));
    lemma_suffixed_decimal(d, seq!['u']);
    assert(seq!['U'].drop_first() =~= Seq::<char>::empty());
    assert(parse_integer_suffix(Seq::<char>::empty(), IntegerSuffix { unsigned: true, long_count: 0 }) == Some(IntegerSuffix { unsigned: true, long_count: 0 }));
    assert(parse_integer_suffix(seq!['U'], IntegerSuffix { unsigned: false, long_count: 0 }) == Some(IntegerSuffix { unsigned: true, long_count: 0 }));
    lemma_suffixed_decimal(d, seq!['U']);
    assert(seq!['l'].drop_first() =~= Seq::<char>::empty());
    assert(parse_integer_suffix(Seq::<char>::empty(), IntegerSuffix { unsigned: false, long_count: 1 }) == Some(IntegerSuffix { unsigned: false, long_count: 1 }));
    assert(parse_integer_suffix(seq!['l'], IntegerSuffix { unsigned: false, long_count: 0 }) == Some(IntegerSuffix { unsigned: false, long_count: 1 }));
    lemma_suffixed_decimal(d, seq!['l']);
    assert(seq!['L'].drop_first() =~= Seq::<char>::empty());
    assert(parse_integer_suffix(Seq::<char>::empty(), IntegerSuffix { unsigned: false, long_count: 1 }) == Some(IntegerSuffix { unsigned: false, long_count: 1 }));
    assert(parse_integer_suffix(seq!['L'], IntegerSuffix { unsigned: false, long_count: 0 }) == Some(IntegerSuffix { unsigned: false, long_count: 1 }));
    lemma_suffixed_decimal(d, seq!['L']);
    assert(seq!['l', 'l'].subrange(2, 2) =~= Seq::<char>::empty());
    assert(parse_integer_suffix(Seq::<char>::empty(), IntegerSuffix { unsigned: false, long_count: 2 }) == Some(IntegerSuffix { unsigned: false, long_count: 2 }));
    assert(parse_integer_suffix(seq!['l', 'l'], IntegerSuffix { unsigned: false, long_count: 0 }) == Some(IntegerSuffix { unsigned: false, long_count: 2 }));
    lemma_suffixed_decimal(d, seq!['l', 'l']);
    assert(seq!['L', 'L'].subrange(2, 2) =~= Seq::<char>::empty());
    assert(parse_integer_suffix(Seq::<char>::empty(), IntegerSuffix { unsigned: false, long_count: 2 }) == Some(IntegerSuffix { unsigned: false, long_count: 2 }));
    assert(parse_integer_suffix(seq!['L', 'L'], IntegerSuffix { unsigned: false, long_count: 0 }) == Some(IntegerSuffix { unsigned: false, long_count: 2 }));
    lemma_suffixed_decimal(d, seq!['L', 'L']);
}

/// `u` goes with `l` or `ll` in either order: the constant is then
/// unsigned and long or long long.
pub proof fn lemma_integer_suffix_orders(d: Seq<char>)
    requires
        d.len() > 0,
        d[0] != '0',
        all_digits(d, 10),
        digits_value(d, 10) <= u128::MAX,
    ensures
        ({
            let value = digits_value(d, 10) as u128;
            &&& integer_constant_spec(d + seq!['u', 'l']) == Ok::<IntegerConstant, Seq<char>>(
                IntegerConstant { value, radix: 10, suffix: IntegerSuffix { unsigned: true, long_count: 1 } },
            )
            &&& integer_constant_spec(d + seq!['L', 'U']) == Ok::<IntegerConstant, Seq<char>>(
                IntegerConstant { value, radix: 10, suffix: IntegerSuffix { unsigned: true, long_count: 1 } },
            )
            &&& integer_constant_spec(d + seq!['u', 'l', 'l']) == Ok::<IntegerConstant, Seq<char>>(
                IntegerConstant { value, radix: 10, suffix: IntegerSuffix { unsigned: true, long_count: 2 } },
            )
            &&& integer_constant_spec(d + seq!['L', 'L', 'u']) == Ok::<IntegerConstant, Seq<char>>(
                IntegerConstant { value, radix: 10, suffix: IntegerSuffix { unsigned: true, long_count: 2 } },
            )
        }),
{
    assert(seq!['u', 'l'].drop_first() =~= seq!['l']);
    assert(seq!['l'].drop_first() =~= Seq::<char>::empty());
    assert(parse_integer_suffix(Seq::<char>::empty(), IntegerSuffix { unsigned: true, long_count: 1 }) == Some(IntegerSuffix { unsigned: true, long_count: 1 }));
    assert(parse_integer_suffix(seq!['l'], IntegerSuffix { unsigned: true, long_count: 0 }) == Some(IntegerSuffix { unsigned: true, long_count: 1 }));
    assert(parse_integer_suffix(seq!['u', 'l'], IntegerSuffix { unsigned: false, long_count: 0 }) == Some(IntegerSuffix { unsigned: true, long_count: 1 }));
    lemma_suffixed_decimal(d, seq!['u', 'l']);
    assert(seq!['L', 'U'].drop_first() =~= seq!['U']);
    assert(seq!['U'].drop_first() =~= Seq::<char>::empty());
    assert(parse_integer_suffix(Seq::<char>::empty(), IntegerSuffix { unsigned: true, long_count: 1 }) == Some(IntegerSuffix { unsigned: true, long_count: 1 }));
    assert(parse_integer_suffix(seq!['U'], IntegerSuffix { unsigned: false, long_count: 1 }) == Some(IntegerSuffix { unsigned: true, long_count: 1 }));
    assert(parse_integer_suffix(seq!['L', 'U'], IntegerSuffix { unsigned: false, long_count: 0 }) == Some(IntegerSuffix { unsigned: true, long_count: 1 }));
    lemma_suffixed_decimal(d, seq!['L', 'U']);
    assert(seq!['u', 'l', 'l'].drop_first() =~= seq!['l', 'l']);
    assert(seq!['l', 'l'].subrange(2, 2) =~= Seq::<char>::empty());
    assert(parse_integer_suffix(Seq::<char>::empty(), IntegerSuffix { unsigned: true, long_count: 2 }) == Some(IntegerSuffix { unsigned: true, long_count: 2 }));
    assert(parse_integer_suffix(seq!['l', 'l'], IntegerSuffix { unsigned: true, long_count: 0 }) == Some(IntegerSuffix { unsigned: true, long_count: 2 }));
    assert(parse_integer_suffix(seq!['u', 'l', 'l'], IntegerSuffix { unsigned: false, long_count: 0 }) == Some(IntegerSuffix { unsigned: true, long_count: 2 }));
    lemma_suffixed_decimal(d, seq!['u', 'l', 'l']);
    assert(seq!['L', 'L', 'u'].subrange(2, 3) =~= seq!['u']);
    assert(seq!['u'].drop_first() =~= Seq::<char>::empty());
    assert(parse_integer_suffix(Seq::<char>::empty(), IntegerSuffix { unsigned: true, long_count: 2 }) == Some(IntegerSuffix { unsigned: true, long_count: 2 }));
    assert(parse_integer_suffix(seq!['u'], IntegerSuffix { unsigned: false, long_count: 2 }) == Some(IntegerSuffix { unsigned: true, long_count: 2 }));
    assert(parse_integer_suffix(seq!['L', 'L', 'u'], IntegerSuffix { unsigned: false, long_count: 0 }) == Some(IntegerSuffix { unsigned: true, long_count: 2 }));
    lemma_suffixed_decimal(d, seq!['L', 'L', 'u']);
}

/// A suffix letter given twice, `l` and `L` mixed in one `ll`, or a third
/// `l` makes the suffix invalid.
pub proof fn lemma_integer_suffix_refusals(d: Seq<char>)
    requires
        d.len() > 0,
        d[0] != '0',
        all_digits(d, 10),
        digits_value(d, 10) <= u128::MAX,
    ensures
        integer_constant_spec(d + seq!['u', 'u']) == Err::<IntegerConstant, Seq<char>>(
            "invalid integer suffix"@,
        ),
        integer_constant_spec(d + seq!['l', 'L']) == Err::<IntegerConstant, Seq<char>>(
            "invalid integer suffix"@,
        ),
        integer_constant_spec(d + seq!['l', 'l', 'l']) == Err::<IntegerConstant, Seq<char>>(
            "invalid integer suffix"@,
        ),
{
    assert(seq!['u', 'u'].drop_first() =~= seq!['u']);
    assert(parse_integer_suffix(seq!['u'], IntegerSuffix { unsigned: true, long_count: 0 }) is None);
    assert(parse_integer_suffix(seq!['u', 'u'], IntegerSuffix { unsigned: false, long_count: 0 }) is None);
    lemma_suffixed_decimal(d, seq!['u', 'u']);
    assert(seq!['l', 'L'].drop_first() =~= seq!['L']);
    assert(parse_integer_suffix(seq!['L'], IntegerSuffix { unsigned: false, long_count: 1 }) is None);
    assert(parse_integer_suffix(seq!['l', 'L'], IntegerSuffix { unsigned: false, long_count: 0 }) is None);
    lemma_suffixed_decimal(d, seq!['l', 'L']);
    assert(seq!['l', 'l', 'l'].subrange(2, 3) =~= seq!['l']);
    assert(parse_integer_suffix(seq!['l'], IntegerSuffix { unsigned: false, long_count: 2 }) is None);
    assert(parse_integer_suffix(seq!['l', 'l', 'l'], IntegerSuffix { unsigned: false, long_count: 0 }) is None);
    lemma_suffixed_decimal(d, seq!['l', 'l', 'l']);
}

/* Floating constants */

/// The type a floating constant's suffix selects.
#[derive(Clone, Copy, Debug, PartialEq, Eq, Structural)]
pub enum FloatingConstantSuffix {
    Float,
    Double,
    LongDouble,
}

/// The digits of a floating constant, checked for form; its value is
/// computed from them in floating point.
#[derive(Clone, Debug, PartialEq, Eq)]
pub enum FloatingConstantDigits {
    /// A decimal constant, spelled without its suffix.
    Decimal(String),
    /// A hexadecimal constant: its integer and fraction hex digits and its
    /// binary exponent.
    Hexadecimal(String, String, i32),
}

/// The form of a floating constant: its digits and its suffix.
#[derive(Clone, Debug, PartialEq, Eq)]
pub struct FloatingConstantForm {
    pub digits: FloatingConstantDigits,
    pub suffix: FloatingConstantSuffix,
}

/// The view of floating-constant digits.
pub enum DigitsView {
    Decimal(Seq<char>),
    Hexadecimal(Seq<char>, Seq<char>, i32),
}

pub open spec fn digits_view(digits: FloatingConstantDigits) -> DigitsView {
    match digits {
        FloatingConstantDigits::Decimal(number) => DigitsView::Decimal(number@),
        FloatingConstantDigits::Hexadecimal(integer, fraction, exponent) => DigitsView::Hexadecimal(
            integer@,
            fraction@,
            exponent,
        ),
    }
}

/// The view of a floating-constant split: its digits and suffix, or the error message.
pub open spec fn form_outcome(result: Result<FloatingConstantForm, LiteralError>) -> Result<
    (DigitsView, FloatingConstantSuffix),
    Seq<char>,
> {
    match result {
        Ok(form) => Ok((digits_view(form.digits), form.suffix)),
        Err(error) => Err(error.message@),
    }
}

/// The first index at or after `i` of `a` or `b` in `s`.
pub open spec fn first_of(s: Seq<char>, a: char, b: char, i: int) -> Option<int>
    decreases s.len() - i,
{
    if i < 0 || i >= s.len() {
        None
    } else if s[i] == a || s[i] == b {
        Some(i)
    } else {
        first_of(s, a, b, i + 1)
    }
}

/// What std's `i32` parsing accepts: an optional sign, then at least one
/// decimal digit, with a value that fits.
pub open spec fn parse_i32(s: Seq<char>) -> Option<i32> {
    if s.len() > 0 && s[0] == '-' {
        let body = s.drop_first();
        if body.len() == 0 || !all_digits(body, 10) || digits_value(body, 10) > 0x8000_0000 {
            None
        } else {
            Some((0 - digits_value(body, 10)) as i32)
        }
    } else {
        match parse_unsigned(s, 10, 0x7fff_ffff) {
            Some(v) => Some(v as i32),
            None => None,
        }
    }
}

/// The digits after `0x`: a mantissa, `p` or `P` and a decimal exponent.
pub open spec fn hexadecimal_form(h: Seq<char>) -> Result<DigitsView, Seq<char>> {
    match first_of(h, 'p', 'P', 0) {
        None => Err("hexadecimal floating constant requires a binary exponent"@),
        Some(k) => match parse_i32(h.skip(k + 1)) {
            None => Err("invalid hexadecimal floating exponent"@),
            Some(exponent) => {
                let mantissa = h.take(k);
                let (integer, fraction) = match first_of(mantissa, '.', '.', 0) {
                    Some(d) => (mantissa.take(d), mantissa.skip(d + 1)),
                    None => (mantissa, Seq::empty()),
                };
                if integer.len() == 0 && fraction.len() == 0 {
                    Err("hexadecimal floating constant has no digits"@)
                } else if !(all_digits(integer, 16) && all_digits(fraction, 16)) {
                    Err("invalid hexadecimal floating mantissa"@)
                } else {
                    Ok(DigitsView::Hexadecimal(integer, fraction, exponent))
                }
            },
        },
    }
}

/// The form of the floating constant `s`.
pub open spec fn floating_form_spec(s: Seq<char>) -> Result<(DigitsView, FloatingConstantSuffix), Seq<char>> {
    let (number, suffix) = if s.len() > 0 && (s.last() == 'f' || s.last() == 'F') {
        (s.drop_last(), FloatingConstantSuffix::Float)
    } else if s.len() > 0 && (s.last() == 'l' || s.last() == 'L') {
        (s.drop_last(), FloatingConstantSuffix::LongDouble)
    } else {
        (s, FloatingConstantSuffix::Double)
    };
    if number.len() == 0 {
        Err("floating constant has no digits"@)
    } else if number.len() >= 2 && number[0] == '0' && (number[1] == 'x' || number[1] == 'X') {
        match hexadecimal_form(number.skip(2)) {
            Ok(digits) => Ok((digits, suffix)),
            Err(message) => Err(message),
        }
    } else if !(number.contains('.') || number.contains('e') || number.contains('E')) {
        Err("decimal floating constant requires a decimal point or exponent"@)
    } else {
        Ok((DigitsView::Decimal(number), suffix))
    }
}

/// The first index in `s[from..end]` of `a` or `b`.
fn find_either(s: &Vec<char>, from: usize, end: usize, a: char, b: char) -> (result: Option<usize>)
    requires
        from <= end <= s.len(),
    ensures
        match result {
            Some(k) => from <= k < end && first_of(s@.subrange(from as int, end as int), a, b, 0)
                == Some((k - from) as int),
            None => first_of(s@.subrange(from as int, end as int), a, b, 0) is None,
        },
{
    let ghost t = s@.subrange(from as int, end as int);
    let mut i = from;
    while i < end
        invariant
            from <= i <= end <= s.len(),
            t == s@.subrange(from as int, end as int),
            first_of(t, a, b, 0) == first_of(t, a, b, i - from),
        decreases end - i,
    {
        assert(t[i - from] == s@[i as int]);
        if s[i] == a || s[i] == b {
            return Some(i);
        }
        i = i + 1;
    }
    None
}

/// Whether every character of `s[from..end]` is a hexadecimal digit.
fn all_hex(s: &Vec<char>, from: usize, end: usize) -> (result: bool)
    requires
        from <= end <= s.len(),
    ensures
        result == all_digits(s@.subrange(from as int, end as int), 16),
{
    let mut i = from;
    while i < end
        invariant
            from <= i <= end <= s.len(),
            all_digits(s@.subrange(from as int, i as int), 16),
        decreases end - i,
    {
        if digit_value_exec(s[i]) >= 16 {
            assert(s@.subrange(from as int, end as int)[i - from] == s@[i as int]);
            return false;
        }
        i = i + 1;
        assert forall|j: int| 0 <= j < i - from implies #[trigger] digit_value(
            s@.subrange(from as int, i as int)[j],
        ) < 16 by {
            if j < i - 1 - from {
                assert(s@.subrange(from as int, i as int)[j] == s@.subrange(
                    from as int,
                    i - 1,
                )[j]);
            }
        }
    }
    true
}

/// Parses `s[from..end]` as std parses an `i32`.
fn parse_i32_range(s: &Vec<char>, from: usize, end: usize) -> (result: Option<i32>)
    requires
        from <= end <= s.len(),
    ensures
        result == parse_i32(s@.subrange(from as int, end as int)),
{
    let ghost t = s@.subrange(from as int, end as int);
    if from < end && s[from] == '-' {
        assert(t[0] == '-');
        assert(t.drop_first() =~= s@.subrange(from + 1, end as int));
        if from + 1 == end || s[from + 1] == '+' {
            if from + 1 < end {
                assert(t.drop_first()[0] == '+');
                assert(digit_value('+') == 36);
            }
            return None;
        }
        match parse_unsigned_radix(s, from + 1, end, 10, 0x8000_0000) {
            Some(v) => {
                assert(s@.subrange(from + 1, end as int)[0] != '+');
                Some((0 - (v as i64)) as i32)
            },
            None => {
                assert(s@.subrange(from + 1, end as int)[0] != '+');
                None
            },
        }
    } else {
        if from < end {
            assert(t[0] == s@[from as int]);
        }
        match parse_unsigned_radix(s, from, end, 10, 0x7fff_ffff) {
            Some(v) => Some(v as i32),
            None => None,
        }
    }
}

/// The view of hexadecimal digits, or the error message.
pub open spec fn hex_outcome(result: Result<FloatingConstantDigits, LiteralError>) -> Result<
    DigitsView,
    Seq<char>,
> {
    match result {
        Ok(digits) => Ok(digits_view(digits)),
        Err(error) => Err(error.message@),
    }
}

/// Checks the digits of a hexadecimal floating constant, `s[2..end]`.
fn hexadecimal_digits(s: &Vec<char>, end: usize) -> (result: Result<
    FloatingConstantDigits,
    LiteralError,
>)
    requires
        2 <= end <= s.len(),
    ensures
        hex_outcome(result) == hexadecimal_form(s@.subrange(2, end as int)),
{
    let ghost h = s@.subrange(2, end as int);
    match find_either(s, 2, end, 'p', 'P') {
        None => Err(literal_error("hexadecimal floating constant requires a binary exponent")),
        Some(p) => {
            let k = p - 2;
            assert(h.skip(k + 1) =~= s@.subrange(p + 1, end as int));
            let exponent = match parse_i32_range(s, p + 1, end) {
                None => {
                    return Err(literal_error("invalid hexadecimal floating exponent"));
                },
                Some(e) => e,
            };
            let ghost mantissa = h.take(k as int);
            assert(mantissa =~= s@.subrange(2, p as int));
            let (int_end, frac_start) = match find_either(s, 2, p, '.', '.') {
                Some(d) => {
                    assert(mantissa.take(d - 2) =~= s@.subrange(2, d as int));
                    assert(mantissa.skip(d - 2 + 1) =~= s@.subrange(d + 1, p as int));
                    (d, d + 1)
                },
                None => {
                    assert(s@.subrange(p as int, p as int) =~= Seq::<char>::empty());
                    (p, p)
                },
            };
            if int_end == 2 && frac_start == p {
                return Err(literal_error("hexadecimal floating constant has no digits"));
            }
            if !(all_hex(s, 2, int_end) && all_hex(s, frac_start, p)) {
                return Err(literal_error("invalid hexadecimal floating mantissa"));
            }
            let integer = chars_to_string(s, 2, int_end);
            let fraction = chars_to_string(s, frac_start, p);
            Ok(FloatingConstantDigits::Hexadecimal(integer, fraction, exponent))
        },
    }
}

/// Whether `s[..end]` holds a decimal point or an exponent mark.
fn has_decimal_mark(s: &Vec<char>, end: usize) -> (result: bool)
    requires
        end <= s.len(),
    ensures
        result == (s@.take(end as int).contains('.') || s@.take(end as int).contains('e')
            || s@.take(end as int).contains('E')),
{
    let ghost number = s@.take(end as int);
    let mut i: usize = 0;
    while i < end
        invariant
            i <= end <= s.len(),
            number == s@.take(end as int),
            forall|j: int| 0 <= j < i ==> #[trigger] s@[j] != '.' && s@[j] != 'e' && s@[j] != 'E',
        decreases end - i,
    {
        if s[i] == '.' || s[i] == 'e' || s[i] == 'E' {
            assert(number[i as int] == s@[i as int]);
            return true;
        }
        i = i + 1;
    }
    assert forall|j: int| 0 <= j < number.len() implies number[j] != '.' && number[j] != 'e'
        && number[j] != 'E' by {
        assert(number[j] == s@[j]);
    }
    false
}

/// Splits a floating constant into its suffix and checked digits.
pub fn floating_constant_form(spelling: &str) -> (result: Result<FloatingConstantForm, LiteralError>)
    ensures
        form_outcome(result) == floating_form_spec(spelling@),
{
    let s = chars_of(spelling);
    let n = s.len();
    let (end, suffix) = if n > 0 && (s[n - 1] == 'f' || s[n - 1] == 'F') {
        (n - 1, FloatingConstantSuffix::Float)
    } else if n > 0 && (s[n - 1] == 'l' || s[n - 1] == 'L') {
        (n - 1, FloatingConstantSuffix::LongDouble)
    } else {
        (n, FloatingConstantSuffix::Double)
    };
    let ghost number = s@.take(end as int);
    proof {
        if end < n {
            assert(number =~= s@.drop_last());
        } else {
            assert(number =~= s@);
        }
    }
    if end == 0 {
        return Err(literal_error("floating constant has no digits"));
    }
    if end >= 2 && s[0] == '0' && (s[1] == 'x' || s[1] == 'X') {
        assert(number.skip(2) =~= s@.subrange(2, end as int));
        match hexadecimal_digits(&s, end) {
            Ok(digits) => Ok(FloatingConstantForm { digits, suffix }),
            Err(error) => Err(error),
        }
    } else if !has_decimal_mark(&s, end) {
        Err(literal_error("decimal floating constant requires a decimal point or exponent"))
    } else {
        assert(number =~= s@.subrange(0, end as int));
        let text = chars_to_string(&s, 0, end);
        Ok(FloatingConstantForm { digits: FloatingConstantDigits::Decimal(text), suffix })
    }
}

/// The string of `s[from..end]`.
pub(crate) fn chars_to_string(s: &Vec<char>, from: usize, end: usize) -> (result: String)
    requires
        from <= end <= s.len(),
    ensures
        result@ == s@.subrange(from as int, end as int),
{
    let mut out: Vec<char> = Vec::new();
    let mut i = from;
    while i < end
        invariant
            from <= i <= end <= s.len(),
            out@ == s@.subrange(from as int, i as int),
        decreases end - i,
    {
        out.push(s[i]);
        i = i + 1;
        assert(out@ =~= s@.subrange(from as int, i as int));
    }
    string_from_chars(out.as_slice())
}

/* Escape sequences */

/// A universal character name must not denote a basic character below U+00A0
/// other than `$`, `@` and the grave accent.
pub open spec fn disallowed_ucn(v: u32) -> bool {
    v < 0xA0 && v != 0x24 && v != 0x40 && v != 0x60
}

pub fn is_disallowed_ucn(character: char) -> (result: bool)
    ensures
        result == disallowed_ucn(character as u32),
{
    let value = character as u32;
    value < 0xA0 && !(character == '$' || character == '@' || character == '`')
}

/// The value of a one-character escape such as `\n`.
pub open spec fn simple_escape(c: char) -> Option<u32> {
    if c == '\'' {
        Some(0x27)
    } else if c == '"' {
        Some(0x22)
    } else if c == '?' {
        Some(0x3f)
    } else if c == '\\' {
        Some(0x5c)
    } else if c == 'a' {
        Some(7)
    } else if c == 'b' {
        Some(8)
    } else if c == 'f' {
        Some(12)
    } else if c == 'n' {
        Some(10)
    } else if c == 'r' {
        Some(13)
    } else if c == 't' {
        Some(9)
    } else if c == 'v' {
        Some(11)
    } else {
        None
    }
}

/// The one-character escapes stand for the characters Rust writes the same
/// way (`\a`, `\f` and `\v` for the alert, form feed and vertical tab
/// controls), and a backslash before any other letter is not one.
pub proof fn lemma_simple_escapes(c: char)
    ensures
        simple_escape('n') == Some('\n' as u32),
        simple_escape('t') == Some('\t' as u32),
        simple_escape('r') == Some('\r' as u32),
        simple_escape('\\') == Some('\\' as u32),
        simple_escape('\'') == Some('\'' as u32),
        simple_escape('"') == Some('"' as u32),
        simple_escape('?') == Some('?' as u32),
        simple_escape('a') == Some('\x07' as u32),
        simple_escape('b') == Some('\x08' as u32),
        simple_escape('f') == Some('\x0c' as u32),
        simple_escape('v') == Some('\x0b' as u32),
        simple_escape('0') is None,
        simple_escape('x') is None,
        simple_escape('e') is None,
        simple_escape(c) is Some ==> simple_escape(c)->0 < 0x80,
{
}

/// A hexadecimal escape takes every hex digit that follows `\x` and stands
/// for their value, when it fits in 32 bits; an octal escape takes at most
/// three octal digits.
pub proof fn lemma_numeric_escapes(digits: Seq<char>, rest: Seq<char>)
    requires
        digits.len() > 0,
    ensures
        all_digits(digits, 16) && (rest.len() == 0 || !is_hex_digit(rest[0])) && digits_value(digits, 16)
            <= u32::MAX ==> escape_spec(seq!['\\', 'x'] + digits + rest) == Ok::<(u32, int), Seq<char>>(
            (digits_value(digits, 16) as u32, 2 + digits.len() as int),
        ),
        digits.len() <= 3 && all_digits(digits, 8) && (rest.len() == 0 || !is_octal_digit(rest[0])
            || digits.len() == 3) ==> escape_spec(seq!['\\'] + digits + rest) == Ok::<(u32, int), Seq<char>>(
            (digits_value(digits, 8) as u32, 1 + digits.len() as int),
        ),
{
    if all_digits(digits, 16) && (rest.len() == 0 || !is_hex_digit(rest[0])) && digits_value(digits, 16)
        <= u32::MAX {
        let t = seq!['\\', 'x'] + digits + rest;
        assert(t.skip(2) =~= digits + rest);
        lemma_hex_run_over(digits, rest);
        assert(t.subrange(2, 2 + digits.len() as int) =~= digits);
        assert(digit_value(digits[0]) < 16);
        assert(digit_value('+') == 36);
        assert(t[1] == 'x');
    }
    if digits.len() <= 3 && all_digits(digits, 8) && (rest.len() == 0 || !is_octal_digit(rest[0])
        || digits.len() == 3) {
        let t = seq!['\\'] + digits + rest;
        assert(t.skip(1) =~= digits + rest);
        lemma_octal_run_over(digits, rest, 3);
        assert(t.subrange(1, 1 + digits.len() as int) =~= digits);
        assert(t[1] == digits[0]);
        assert(digit_value(digits[0]) < 8);
    }
}

proof fn lemma_hex_run_over(digits: Seq<char>, rest: Seq<char>)
    requires
        all_digits(digits, 16),
        rest.len() == 0 || !is_hex_digit(rest[0]),
    ensures
        hex_run(digits + rest) == digits.len(),
    decreases digits.len(),
{
    if digits.len() == 0 {
        assert(digits + rest =~= rest);
    } else {
        assert((digits + rest).drop_first() =~= digits.drop_first() + rest);
        assert(digit_value(digits[0]) < 16);
        lemma_hex_run_over(digits.drop_first(), rest);
    }
}

proof fn lemma_octal_run_over(digits: Seq<char>, rest: Seq<char>, limit: nat)
    requires
        all_digits(digits, 8),
        digits.len() <= limit,
        rest.len() == 0 || !is_octal_digit(rest[0]) || digits.len() == limit,
    ensures
        octal_run(digits + rest, limit) == digits.len(),
    decreases digits.len(),
{
    if digits.len() == 0 {
        assert(digits + rest =~= rest);
    } else {
        assert((digits + rest).drop_first() =~= digits.drop_first() + rest);
        assert(digit_value(digits[0]) < 8);
        lemma_octal_run_over(digits.drop_first(), rest, (limit - 1) as nat);
    }
}

/// Decoding of the universal character name that starts `rest` (a backslash
/// followed by `u` or `U`): its value and its length in characters.
pub open spec fn ucn_spec(rest: Seq<char>) -> Result<(u32, int), Seq<char>> {
    let count: int = if rest[1] == 'u' { 4 } else { 8 };
    if utf8_len(rest.skip(2)) < count {
        Err("incomplete universal character name"@)
    } else if !(rest.len() >= 2 + count && all_digits(rest.subrange(2, 2 + count), 16)) {
        Err("invalid universal character name"@)
    } else {
        let value = digits_value(rest.subrange(2, 2 + count), 16);
        if !vstd::utf8::is_scalar(value as u32) {
            Err("invalid Unicode scalar value"@)
        } else if disallowed_ucn(value as u32) {
            Err("universal character name names a disallowed character"@)
        } else {
            Ok((value as u32, 2 + count))
        }
    }
}

/// Decoding of the escape sequence that starts `rest` (whose first character
/// is a backslash): its value and its length in characters.
pub open spec fn escape_spec(rest: Seq<char>) -> Result<(u32, int), Seq<char>> {
    if rest.len() < 2 {
        Err("incomplete escape sequence"@)
    } else {
        let c = rest[1];
        if simple_escape(c) is Some {
            Ok((simple_escape(c)->0, 2))
        } else if c == 'x' {
            let count = hex_run(rest.skip(2)) as int;
            if count == 0 {
                Err("hex escape has no digits"@)
            } else {
                match parse_unsigned(rest.subrange(2, 2 + count), 16, u32::MAX as int) {
                    None => Err("hex escape is too large"@),
                    Some(value) => Ok((value as u32, 2 + count)),
                }
            }
        } else if c == 'u' || c == 'U' {
            ucn_spec(rest)
        } else if is_octal_digit(c) {
            let count = octal_run(rest.skip(1), 3) as int;
            Ok((digits_value(rest.subrange(1, 1 + count), 8) as u32, 1 + count))
        } else {
            Err("unknown escape sequence"@)
        }
    }
}

fn simple_escape_exec(c: char) -> (result: Option<u32>)
    ensures
        result == simple_escape(c),
{
    if c == '\'' {
        Some(0x27)
    } else if c == '"' {
        Some(0x22)
    } else if c == '?' {
        Some(0x3f)
    } else if c == '\\' {
        Some(0x5c)
    } else if c == 'a' {
        Some(7)
    } else if c == 'b' {
        Some(8)
    } else if c == 'f' {
        Some(12)
    } else if c == 'n' {
        Some(10)
    } else if c == 'r' {
        Some(13)
    } else if c == 't' {
        Some(9)
    } else if c == 'v' {
        Some(11)
    } else {
        None
    }
}

/// Decodes the universal character name at `s[start..end]`.
#[verifier::loop_isolation(false)]
pub(crate) fn decode_universal_character_name(s: &Vec<char>, start: usize, end: usize) -> (result: Result<
    (u32, usize),
    LiteralError,
>)
    requires
        start + 1 < end <= s.len(),
        s@[start as int] == '\\',
        s@[start + 1] == 'u' || s@[start + 1] == 'U',
    ensures
        match result {
            Ok((value, length)) => ucn_spec(s@.subrange(start as int, end as int)) == Ok::<
                (u32, int),
                Seq<char>,
            >((value, length as int)),
            Err(error) => ucn_spec(s@.subrange(start as int, end as int)) == Err::<
                (u32, int),
                Seq<char>,
            >(error.message@),
        },
{
    let ghost rest = s@.subrange(start as int, end as int);
    let count: usize = if s[start + 1] == 'u' { 4 } else { 8 };
    assert(rest.skip(2) =~= s@.subrange(start + 2, end as int));
    if utf8_shorter_than(s, start + 2, end, count) {
        return Err(literal_error("incomplete universal character name"));
    }
    if end - start < 2 + count {
        return Err(literal_error("invalid universal character name"));
    }
    assert(rest.subrange(2, 2 + count) =~= s@.subrange(start + 2, start + 2 + count));
    let mut i = start + 2;
    while i < start + 2 + count
        invariant
            start + 2 <= i <= start + 2 + count <= end <= s.len(),
            forall|j: int| start + 2 <= j < i ==> #[trigger] digit_value(s@[j]) < 16,
        decreases start + 2 + count - i,
    {
        if digit_value_exec(s[i]) >= 16 {
            assert(rest.subrange(2, 2 + count as int)[i - start - 2] == s@[i as int]);
            return Err(literal_error("invalid universal character name"));
        }
        i = i + 1;
    }
    assert(all_digits(rest.subrange(2, 2 + count as int), 16)) by {
        assert forall|j: int| 0 <= j < count implies #[trigger] digit_value(
            rest.subrange(2, 2 + count as int)[j],
        ) < 16 by {
            assert(rest.subrange(2, 2 + count as int)[j] == s@[start + 2 + j]);
        }
    }
    proof {
        let body = rest.subrange(2, 2 + count as int);
        lemma_digits_value_bound(body, 16);
        assert(power(16, 4) == 65536) by {
            reveal_with_fuel(power, 5);
        }
        assert(power(16, 8) == 0x1_0000_0000) by {
            reveal_with_fuel(power, 9);
        }
        assert(digit_value(body[0]) < 16);
        assert(digit_value('+') == 36);
        assert(body[0] != '+');
    }
    let value = match parse_unsigned_radix(s, start + 2, start + 2 + count, 16, 0xffff_ffff) {
        Some(v) => v as u32,
        None => {
            return Err(literal_error("invalid universal character name"));
        },
    };
    let character = match char_from_u32(value) {
        Some(c) => c,
        None => {
            return Err(literal_error("invalid Unicode scalar value"));
        },
    };
    if is_disallowed_ucn(character) {
        return Err(literal_error("universal character name names a disallowed character"));
    }
    Ok((value, 2 + count))
}

/// How far the check of universal character names in a character constant's
/// body `sp[..end]` moves from `k`: past one character, past an escape, past a
/// universal character name, or to the end after a final backslash; or why a
/// universal character name is invalid.
pub open spec fn ucn_check_step(sp: Seq<char>, k: int, end: int) -> Result<int, Seq<char>> {
    if sp[k] != '\\' {
        Ok(1)
    } else if k + 1 >= end {
        Ok(end - k)
    } else if sp[k + 1] == 'u' || sp[k + 1] == 'U' {
        match ucn_spec(sp.subrange(k, end)) {
            Err(message) => Err(message),
            Ok((_, length)) => Ok(length),
        }
    } else {
        Ok(2)
    }
}

/// Whether every universal character name in `sp[k..end]` is valid.
pub open spec fn ucn_check(sp: Seq<char>, k: int, end: int) -> Result<(), Seq<char>>
    decreases end - k,
{
    if k < 0 || k >= end {
        Ok(())
    } else {
        match ucn_check_step(sp, k, end) {
            Err(message) => Err(message),
            Ok(step) => if 0 < step <= end - k {
                ucn_check(sp, k + step, end)
            } else {
                Ok(())
            },
        }
    }
}

/// Whether the universal character names of a character constant are valid:
/// its body lies between its first quote and its last character.
pub open spec fn character_ucns(sp: Seq<char>) -> Result<(), Seq<char>> {
    match first_of(sp, '\'', '\'', 0) {
        None => Err("invalid character constant"@),
        Some(q) => if q + 1 > sp.len() - 1 {
            Err("invalid character constant"@)
        } else {
            ucn_check(sp, q + 1, sp.len() - 1)
        },
    }
}

/// Checks the universal character names of a character constant's spelling.
pub fn validate_character_constant_ucns(spelling: &str) -> (result: Result<(), LiteralError>)
    ensures
        outcome(result) == character_ucns(spelling@),
{
    let s = chars_of(spelling);
    let n = s.len();
    let q = match find_either(&s, 0, n, '\'', '\'') {
        None => {
            assert(s@.subrange(0, n as int) =~= s@);
            return Err(literal_error("invalid character constant"));
        },
        Some(q) => q,
    };
    assert(s@.subrange(0, n as int) =~= s@);
    if q + 1 > n - 1 {
        return Err(literal_error("invalid character constant"));
    }
    let end = n - 1;
    let mut k = q + 1;
    while k < end
        invariant
            q + 1 <= k <= end < n == s.len(),
            s@ == spelling@,
            character_ucns(s@) == ucn_check(s@, k as int, end as int),
        decreases end - k,
    {
        if s[k] != '\\' {
            k = k + 1;
        } else if k + 1 >= end {
            k = end;
        } else if s[k + 1] == 'u' || s[k + 1] == 'U' {
            match decode_universal_character_name(&s, k, end) {
                Err(error) => {
                    return Err(error);
                },
                Ok((_, length)) => {
                    proof {
                        let r = ucn_spec(s@.subrange(k as int, end as int));
                        assert(r matches Ok((_, l)) && l > 0);
                    }
                    k = k + length;
                },
            }
        } else {
            k = k + 2;
        }
    }
    Ok(())
}

/// Decodes the escape sequence at `s[start..end]`, which starts with a backslash.
#[verifier::loop_isolation(false)]
fn decode_escape(s: &Vec<char>, start: usize, end: usize) -> (result: Result<
    (u32, usize),
    LiteralError,
>)
    requires
        start < end <= s.len(),
        s@[start as int] == '\\',
    ensures
        match result {
            Ok((value, length)) => escape_spec(s@.subrange(start as int, end as int)) == Ok::<
                (u32, int),
                Seq<char>,
            >((value, length as int)),
            Err(error) => escape_spec(s@.subrange(start as int, end as int)) == Err::<
                (u32, int),
                Seq<char>,
            >(error.message@),
        },
{
    let ghost rest = s@.subrange(start as int, end as int);
    if end - start < 2 {
        return Err(literal_error("incomplete escape sequence"));
    }
    let c = s[start + 1];
    assert(rest[1] == c);
    if let Some(value) = simple_escape_exec(c) {
        return Ok((value, 2));
    }
    if c == 'x' {
        let count = count_hex_run(s, start + 2, end);
        assert(rest.skip(2) =~= s@.subrange(start + 2, end as int));
        if count == 0 {
            return Err(literal_error("hex escape has no digits"));
        }
        proof {
            lemma_hex_run(s@.subrange(start + 2, end as int));
        }
        assert(rest.subrange(2, 2 + count as int) =~= s@.subrange(start + 2, start + 2 + count));
        return match parse_unsigned_radix(s, start + 2, start + 2 + count, 16, 0xffff_ffff) {
            Some(value) => Ok((value as u32, 2 + count)),
            None => Err(literal_error("hex escape is too large")),
        };
    }
    if c == 'u' || c == 'U' {
        return decode_universal_character_name(s, start, end);
    }
    if (c as u32) >= 0x30 && (c as u32) <= 0x37 {
        let mut count: usize = 0;
        assert(rest.skip(1) =~= s@.subrange(start + 1, end as int));
        while count < 3 && start + 1 + count < end && (s[start + 1 + count] as u32) >= 0x30 && (s[
            start + 1 + count] as u32) <= 0x37
            invariant
                start + 1 + count <= end <= s.len(),
                count <= 3,
                octal_run(rest.skip(1), 3) == count + octal_run(
                    s@.subrange(start + 1 + count, end as int),
                    (3 - count) as nat,
                ),
                forall|j: int| 0 <= j < count ==> is_octal_digit(#[trigger] s@[start + 1 + j]),
            decreases 3 - count,
        {
            let ghost t = s@.subrange(start + 1 + count, end as int);
            assert(t.drop_first() =~= s@.subrange(start + 1 + count + 1, end as int));
            assert(t[0] == s@[start + 1 + count]);
            count = count + 1;
        }
        proof {
            let t = s@.subrange(start + 1 + count, end as int);
            if count < 3 && start + 1 + count < end {
                assert(t[0] == s@[start + 1 + count]);
            }
            assert(octal_run(t, (3 - count) as nat) == 0);
            assert(rest.skip(1) =~= s@.subrange(start + 1, end as int));
        }
        let mut value: u32 = 0;
        let mut i: usize = 0;
        while i < count
            invariant
                i <= count <= 3,
                start + 1 + count <= end <= s.len(),
                forall|j: int| 0 <= j < count ==> is_octal_digit(#[trigger] s@[start + 1 + j]),
                value == digits_value(s@.subrange(start + 1, start + 1 + i), 8),
                value < power(8, i as nat),
            decreases count - i,
        {
            let ghost p = s@.subrange(start + 1, start + 1 + i + 1);
            assert(p.drop_last() =~= s@.subrange(start + 1, start + 1 + i));
            assert(p.last() == s@[start + 1 + i]);
            let d = (s[start + 1 + i] as u32) - 0x30;
            assert(power(8, (i + 1) as nat) == power(8, i as nat) * 8);
            assert(value * 8 + d < power(8, (i + 1) as nat)) by (nonlinear_arith)
                requires
                    value < power(8, i as nat),
                    d < 8,
                    power(8, (i + 1) as nat) == power(8, i as nat) * 8,
            ;
            assert(power(8, (i + 1) as nat) <= 512) by {
                reveal_with_fuel(power, 4);
            }
            value = value * 8 + d;
            i = i + 1;
        }
        assert(rest.subrange(1, 1 + count as int) =~= s@.subrange(start + 1, start + 1 + count));
        return Ok((value, 1 + count));
    }
    Err(literal_error("unknown escape sequence"))
}

/// An accepted escape is at least two characters long and lies inside `rest`.
pub proof fn lemma_escape_length(rest: Seq<char>)
    requires
        rest.len() > 0,
        escape_spec(rest) is Ok,
    ensures
        2 <= escape_spec(rest)->Ok_0.1 <= rest.len(),
{
    let c = rest[1];
    if simple_escape(c) is Some {
    } else if c == 'x' {
        lemma_hex_run(rest.skip(2));
    } else if c == 'u' || c == 'U' {
    } else if is_octal_digit(c) {
        lemma_octal_run(rest.skip(1), 3);
        assert(rest.skip(1)[0] == c);
    }
}

pub proof fn lemma_octal_run(t: Seq<char>, limit: nat)
    ensures
        octal_run(t, limit) <= t.len(),
        octal_run(t, limit) <= limit,
        limit > 0 && t.len() > 0 && is_octal_digit(t[0]) ==> octal_run(t, limit) >= 1,
    decreases t.len(),
{
    if limit > 0 && t.len() > 0 && is_octal_digit(t[0]) {
        lemma_octal_run(t.drop_first(), (limit - 1) as nat);
    }
}

/* Character constants */

#[derive(Clone, Copy, Debug, PartialEq, Eq, Structural)]
pub enum CharacterConstantPrefix {
    Unprefixed,
    Wide,
    Utf16,
    Utf32,
}

impl Default for CharacterConstantPrefix {
    fn default() -> (result: Self)
        ensures
            result == CharacterConstantPrefix::Unprefixed,
    {
        CharacterConstantPrefix::Unprefixed
    }
}

#[derive(Clone, Copy, Debug, PartialEq, Eq, Structural)]
pub struct CharacterConstant {
    pub value: u64,
    pub character_count: usize,
    pub prefix: CharacterConstantPrefix,
}

/// Prepends `values` to a decoding outcome.
pub open spec fn prepend_units(values: Seq<u32>, rest: Result<Seq<u32>, Seq<char>>) -> Result<
    Seq<u32>,
    Seq<char>,
> {
    match rest {
        Ok(tail) => Ok(values + tail),
        Err(message) => Err(message),
    }
}

/// The values of the characters and escapes of a character-constant body.
pub open spec fn character_values(body: Seq<char>) -> Result<Seq<u32>, Seq<char>>
    decreases body.len(),
{
    if body.len() == 0 {
        Ok(seq![])
    } else if body[0] == '\\' {
        match escape_spec(body) {
            Err(message) => Err(message),
            Ok((value, length)) => {
                proof {
                    lemma_escape_length(body);
                }
                prepend_units(seq![value], character_values(body.skip(length)))
            },
        }
    } else {
        prepend_units(seq![body[0] as u32], character_values(body.drop_first()))
    }
}

/// The value of an unprefixed multi-character constant: each character's low
/// byte shifted in from the right, modulo 2^64.
pub open spec fn narrow_character_value(values: Seq<u32>) -> int
    decreases values.len(),
{
    if values.len() == 0 {
        0
    } else {
        (narrow_character_value(values.drop_last()) * 256 + values.last() % 256)
            % 0x1_0000_0000_0000_0000
    }
}

/// The encoding prefix of a character constant and its length.
pub open spec fn character_prefix(s: Seq<char>) -> (CharacterConstantPrefix, int) {
    if s.len() > 0 && s[0] == 'L' {
        (CharacterConstantPrefix::Wide, 1)
    } else if s.len() > 0 && s[0] == 'u' {
        (CharacterConstantPrefix::Utf16, 1)
    } else if s.len() > 0 && s[0] == 'U' {
        (CharacterConstantPrefix::Utf32, 1)
    } else {
        (CharacterConstantPrefix::Unprefixed, 0)
    }
}

/// `rest` is `delimiter`, a body, and `delimiter` again.
pub open spec fn is_delimited(rest: Seq<char>, delimiter: char) -> bool {
    rest.len() >= 2 && rest[0] == delimiter && rest.last() == delimiter
}

/// What `decode_character_constant` gives for the spelling `s`.
pub open spec fn character_constant_spec(s: Seq<char>) -> Result<CharacterConstant, Seq<char>> {
    let (prefix, start) = character_prefix(s);
    let rest = s.skip(start);
    if s.len() >= 3 && s[0] == 'u' && s[1] == '8' && s[2] == '\'' {
        Err("the u8 prefix is not valid on a character constant"@)
    } else if !is_delimited(rest, '\'') {
        Err("invalid character constant"@)
    } else {
        match character_values(rest.subrange(1, rest.len() - 1)) {
            Err(message) => Err(message),
            Ok(values) => if values.len() == 0 {
                Err("empty character constant"@)
            } else if prefix != CharacterConstantPrefix::Unprefixed && values.len() != 1 {
                Err("a prefixed character constant must contain exactly one character"@)
            } else {
                let value: int = if prefix == CharacterConstantPrefix::Unprefixed {
                    narrow_character_value(values)
                } else {
                    values[0] as int
                };
                if prefix == CharacterConstantPrefix::Utf16 && value > 0xFFFF {
                    Err("character is not representable in a UTF-16 code unit"@)
                } else {
                    Ok(
                        CharacterConstant {
                            value: value as u64,
                            character_count: values.len() as usize,
                            prefix,
                        },
                    )
                }
            },
        }
    }
}

proof fn lemma_plain_character_values(a: char, b: char)
    requires
        a != '\\',
        b != '\\',
    ensures
        character_values(seq![a]) == Ok::<Seq<u32>, Seq<char>>(seq![a as u32]),
        character_values(seq![a, b]) == Ok::<Seq<u32>, Seq<char>>(seq![a as u32, b as u32]),
{
    let empty = Seq::<char>::empty();
    assert(seq![a].drop_first() =~= empty);
    assert(seq![b].drop_first() =~= empty);
    assert(seq![a, b].drop_first() =~= seq![b]);
    assert(character_values(empty) == Ok::<Seq<u32>, Seq<char>>(seq![]));
    assert(seq![a as u32] + Seq::<u32>::empty() =~= seq![a as u32]);
    assert(seq![b as u32] + Seq::<u32>::empty() =~= seq![b as u32]);
    assert(seq![a as u32] + seq![b as u32] =~= seq![a as u32, b as u32]);
    assert(character_values(seq![b]) == Ok::<Seq<u32>, Seq<char>>(seq![b as u32]));
    assert(seq![a, b][0] == a);
}

/// A character constant of one ordinary character (no backslash) stands for
/// that character: its low byte when unprefixed, its whole value with `L`
/// or `U`, and with `u` when it fits in 16 bits (otherwise `u` refuses it);
/// two ordinary characters unprefixed give the first's low byte times 256
/// plus the second's.
pub proof fn lemma_plain_character_constants(a: char, b: char)
    requires
        a != '\\',
        b != '\\',
    ensures
        character_constant_spec(seq!['\'', a, '\'']) == Ok::<CharacterConstant, Seq<char>>(
            CharacterConstant {
                value: (a as u32 % 256) as u64,
                character_count: 1,
                prefix: CharacterConstantPrefix::Unprefixed,
            },
        ),
        character_constant_spec(seq!['L', '\'', a, '\'']) == Ok::<CharacterConstant, Seq<char>>(
            CharacterConstant { value: a as u32 as u64, character_count: 1, prefix: CharacterConstantPrefix::Wide },
        ),
        character_constant_spec(seq!['U', '\'', a, '\'']) == Ok::<CharacterConstant, Seq<char>>(
            CharacterConstant { value: a as u32 as u64, character_count: 1, prefix: CharacterConstantPrefix::Utf32 },
        ),
        (a as u32) <= 0xFFFF ==> character_constant_spec(seq!['u', '\'', a, '\''])
            == Ok::<CharacterConstant, Seq<char>>(
            CharacterConstant { value: a as u32 as u64, character_count: 1, prefix: CharacterConstantPrefix::Utf16 },
        ),
        (a as u32) > 0xFFFF ==> character_constant_spec(seq!['u', '\'', a, '\'']) is Err,
        character_constant_spec(seq!['\'', a, b, '\'']) == Ok::<CharacterConstant, Seq<char>>(
            CharacterConstant {
                value: ((a as u32 % 256) * 256 + b as u32 % 256) as u64,
                character_count: 2,
                prefix: CharacterConstantPrefix::Unprefixed,
            },
        ),
{
    lemma_plain_character_values(a, b);
    let one = seq!['\'', a, '\''];
    let two = seq!['\'', a, b, '\''];
    assert(one.skip(0) =~= one);
    assert(two.skip(0) =~= two);
    assert(one.subrange(1, 2) =~= seq![a]);
    assert(two.subrange(1, 3) =~= seq![a, b]);
    let wide = seq!['L', '\'', a, '\''];
    let big = seq!['U', '\'', a, '\''];
    let small = seq!['u', '\'', a, '\''];
    assert(wide.skip(1) =~= one);
    assert(big.skip(1) =~= one);
    assert(small.skip(1) =~= one);
    let v1 = seq![a as u32];
    assert(v1.drop_last() =~= Seq::<u32>::empty());
    assert(narrow_character_value(Seq::<u32>::empty()) == 0);
    let low: int = (a as u32 % 256) as int;
    assert(0 * 256 + low == low);
    vstd::arithmetic::div_mod::lemma_small_mod(low as nat, 0x1_0000_0000_0000_0000nat);
    assert(narrow_character_value(v1) == (a as u32 % 256) as int);
    let v2 = seq![a as u32, b as u32];
    assert(v2.drop_last() =~= v1);
    assert(narrow_character_value(v2) == ((a as u32 % 256) as int * 256 + b as u32 % 256) as int
        % 0x1_0000_0000_0000_0000);
    assert(((a as u32 % 256) as int * 256 + b as u32 % 256) < 0x1_0000_0000_0000_0000);
}

/// Decodes the characters and escapes of `s[start..end]`.
#[verifier::loop_isolation(false)]
fn decode_character_values(s: &Vec<char>, start: usize, end: usize) -> (result: Result<
    Vec<u32>,
    LiteralError,
>)
    requires
        start <= end <= s.len(),
    ensures
        match result {
            Ok(values) => character_values(s@.subrange(start as int, end as int)) == Ok::<
                Seq<u32>,
                Seq<char>,
            >(values@),
            Err(error) => character_values(s@.subrange(start as int, end as int)) == Err::<
                Seq<u32>,
                Seq<char>,
            >(error.message@),
        },
{
    let ghost body = s@.subrange(start as int, end as int);
    let mut values: Vec<u32> = Vec::new();
    let mut index = start;
    while index < end
        invariant
            start <= index <= end <= s.len(),
            character_values(body) == prepend_units(
                values@,
                character_values(s@.subrange(index as int, end as int)),
            ),
        decreases end - index,
    {
        let ghost t = s@.subrange(index as int, end as int);
        assert(t[0] == s@[index as int]);
        if s[index] == '\\' {
            match decode_escape(s, index, end) {
                Ok((value, length)) => {
                    proof {
                        lemma_escape_length(t);
                        assert(t.skip(length as int) =~= s@.subrange(index + length, end as int));
                        assert(values@ + (seq![value] + character_values(
                            s@.subrange(index + length, end as int),
                        )->Ok_0) =~= values@.push(value) + character_values(
                            s@.subrange(index + length, end as int),
                        )->Ok_0);
                    }
                    values.push(value);
                    index = index + length;
                },
                Err(error) => {
                    return Err(error);
                },
            }
        } else {
            proof {
                assert(t.drop_first() =~= s@.subrange(index + 1, end as int));
                assert(values@ + (seq![s@[index as int] as u32] + character_values(
                    s@.subrange(index + 1, end as int),
                )->Ok_0) =~= values@.push(s@[index as int] as u32) + character_values(
                    s@.subrange(index + 1, end as int),
                )->Ok_0);
            }
            values.push(s[index] as u32);
            index = index + 1;
        }
    }
    assert(s@.subrange(end as int, end as int) =~= Seq::<char>::empty());
    assert(values@ + Seq::<u32>::empty() =~= values@);
    Ok(values)
}

/// Decodes a character constant with an optional `L`, `u` or `U` prefix.
pub fn decode_character_constant(spelling: &str) -> (result: Result<
    CharacterConstant,
    LiteralError,
>)
    ensures
        outcome(result) == character_constant_spec(spelling@),
{
    let s = chars_of(spelling);
    let n = s.len();
    if n >= 3 && s[0] == 'u' && s[1] == '8' && s[2] == '\'' {
        return Err(literal_error("the u8 prefix is not valid on a character constant"));
    }
    let (prefix, start): (CharacterConstantPrefix, usize) = if n > 0 && s[0] == 'L' {
        (CharacterConstantPrefix::Wide, 1)
    } else if n > 0 && s[0] == 'u' {
        (CharacterConstantPrefix::Utf16, 1)
    } else if n > 0 && s[0] == 'U' {
        (CharacterConstantPrefix::Utf32, 1)
    } else {
        (CharacterConstantPrefix::Unprefixed, 0)
    };
    let ghost rest = s@.skip(start as int);
    if !(n - start >= 2 && s[start] == '\'' && s[n - 1] == '\'') {
        return Err(literal_error("invalid character constant"));
    }
    assert(rest.subrange(1, rest.len() - 1) =~= s@.subrange(start + 1, n - 1));
    let values = decode_character_values(&s, start + 1, n - 1)?;
    if values.len() == 0 {
        return Err(literal_error("empty character constant"));
    }
    let value: u64 = if prefix == CharacterConstantPrefix::Unprefixed {
        let mut accumulator: u64 = 0;
        let mut i: usize = 0;
        while i < values.len()
            invariant
                i <= values.len(),
                accumulator == narrow_character_value(values@.take(i as int)),
            decreases values.len() - i,
        {
            let v = values[i];
            assert(values@.take(i + 1).drop_last() =~= values@.take(i as int));
            let next = accumulator.wrapping_shl(8) | ((v & 0xff) as u64);
            assert(next == (accumulator * 256 + v % 256) % 0x1_0000_0000_0000_0000) by (bit_vector)
                requires
                    next == (accumulator << 8) | ((v & 0xff) as u64),
            ;
            accumulator = next;
            i = i + 1;
        }
        assert(values@.take(values.len() as int) =~= values@);
        accumulator
    } else {
        if values.len() != 1 {
            return Err(
                literal_error("a prefixed character constant must contain exactly one character"),
            );
        }
        values[0] as u64
    };
    if prefix == CharacterConstantPrefix::Utf16 && value > 0xFFFF {
        return Err(literal_error("character is not representable in a UTF-16 code unit"));
    }
    Ok(CharacterConstant { value, character_count: values.len(), prefix })
}

/* String literals */

#[derive(Clone, Copy, Debug, PartialEq, Eq, Structural)]
pub enum StringLiteralPrefix {
    Unprefixed,
    Utf8,
    Wide,
    Utf16,
    Utf32,
}

impl Default for StringLiteralPrefix {
    fn default() -> (result: Self)
        ensures
            result == StringLiteralPrefix::Unprefixed,
    {
        StringLiteralPrefix::Unprefixed
    }
}

/// A decoded string literal.
#[derive(Clone, Debug, PartialEq, Eq)]
pub struct StringLiteral {
    pub prefix: StringLiteralPrefix,
    /// Decoded code units without the implicit trailing null code unit.
    pub code_units: Vec<u32>,
}

impl View for StringLiteral {
    type V = (StringLiteralPrefix, Seq<u32>);

    open spec fn view(&self) -> (StringLiteralPrefix, Seq<u32>) {
        (self.prefix, self.code_units@)
    }
}

/// The view of a string-literal decoding outcome.
pub open spec fn string_outcome(result: Result<StringLiteral, LiteralError>) -> Result<
    (StringLiteralPrefix, Seq<u32>),
    Seq<char>,
> {
    match result {
        Ok(literal) => Ok(literal@),
        Err(error) => Err(error.message@),
    }
}

/// The code units that one decoded value contributes to a string with
/// `prefix`; `character` is the character it denotes, when it denotes one.
pub open spec fn encode_units(prefix: StringLiteralPrefix, value: u32, character: Option<char>) -> Result<
    Seq<u32>,
    Seq<char>,
> {
    match prefix {
        StringLiteralPrefix::Unprefixed | StringLiteralPrefix::Utf8 => match character {
            Some(c) => Ok(utf8_units(c as u32)),
            None => if value <= 0xFF {
                Ok(seq![value])
            } else {
                Err("escape value is not representable in an 8-bit string code unit"@)
            },
        },
        StringLiteralPrefix::Utf16 => match character {
            Some(c) => Ok(utf16_units(c as u32)),
            None => if value <= 0xFFFF {
                Ok(seq![value])
            } else {
                Err("escape value is not representable in a UTF-16 code unit"@)
            },
        },
        StringLiteralPrefix::Wide | StringLiteralPrefix::Utf32 => Ok(seq![value]),
    }
}

/// The next piece of a string-literal body: its value, its length in
/// characters, and the character it denotes when it denotes one.
pub open spec fn string_piece(t: Seq<char>) -> Result<(u32, int, Option<char>), Seq<char>> {
    if t[0] == '\\' {
        match escape_spec(t) {
            Err(message) => Err(message),
            Ok((value, length)) => Ok(
                (
                    value,
                    length,
                    if t[1] == 'u' || t[1] == 'U' {
                        Some(value as char)
                    } else {
                        None
                    },
                ),
            ),
        }
    } else {
        Ok((t[0] as u32, 1, Some(t[0])))
    }
}

pub proof fn lemma_string_piece_length(t: Seq<char>)
    requires
        t.len() > 0,
        string_piece(t) is Ok,
    ensures
        1 <= string_piece(t)->Ok_0.1 <= t.len(),
{
    if t[0] == '\\' {
        lemma_escape_length(t);
    }
}

/// The code units of a string-literal body with the given prefix.
pub open spec fn string_units(body: Seq<char>, prefix: StringLiteralPrefix) -> Result<
    Seq<u32>,
    Seq<char>,
>
    decreases body.len(),
{
    if body.len() == 0 {
        Ok(seq![])
    } else {
        match string_piece(body) {
            Err(message) => Err(message),
            Ok((value, length, character)) => {
                proof {
                    lemma_string_piece_length(body);
                }
                match encode_units(prefix, value, character) {
                    Err(message) => Err(message),
                    Ok(units) => prepend_units(units, string_units(body.skip(length), prefix)),
                }
            },
        }
    }
}

/// The encoding prefix of a string literal and its length.
pub open spec fn string_prefix(s: Seq<char>) -> (StringLiteralPrefix, int) {
    if s.len() >= 2 && s[0] == 'u' && s[1] == '8' {
        (StringLiteralPrefix::Utf8, 2)
    } else if s.len() > 0 && s[0] == 'L' {
        (StringLiteralPrefix::Wide, 1)
    } else if s.len() > 0 && s[0] == 'u' {
        (StringLiteralPrefix::Utf16, 1)
    } else if s.len() > 0 && s[0] == 'U' {
        (StringLiteralPrefix::Utf32, 1)
    } else {
        (StringLiteralPrefix::Unprefixed, 0)
    }
}

/// What `decode_string_literal` gives for the spelling `s`.
pub open spec fn string_literal_spec(s: Seq<char>) -> Result<
    (StringLiteralPrefix, Seq<u32>),
    Seq<char>,
> {
    let (prefix, start) = string_prefix(s);
    let rest = s.skip(start);
    if !is_delimited(rest, '"') {
        Err("invalid string literal"@)
    } else {
        match string_units(rest.subrange(1, rest.len() - 1), prefix) {
            Err(message) => Err(message),
            Ok(units) => Ok((prefix, units)),
        }
    }
}

/// Appends the code units that one decoded value contributes.
fn append_string_code_units(
    output: &mut Vec<u32>,
    prefix: StringLiteralPrefix,
    value: u32,
    character: Option<char>,
) -> (result: Result<(), LiteralError>)
    ensures
        match result {
            Ok(()) => encode_units(prefix, value, character) is Ok && final(output)@ == old(
                output,
            )@ + encode_units(prefix, value, character)->Ok_0,
            Err(error) => encode_units(prefix, value, character) == Err::<Seq<u32>, Seq<char>>(
                error.message@,
            ),
        },
{
    match prefix {
        StringLiteralPrefix::Unprefixed | StringLiteralPrefix::Utf8 => {
            if let Some(c) = character {
                push_utf8(output, c);
            } else if value <= 0xFF {
                output.push(value);
            } else {
                return Err(
                    literal_error("escape value is not representable in an 8-bit string code unit"),
                );
            }
        },
        StringLiteralPrefix::Utf16 => {
            if let Some(c) = character {
                push_utf16(output, c);
            } else if value <= 0xFFFF {
                output.push(value);
            } else {
                return Err(
                    literal_error("escape value is not representable in a UTF-16 code unit"),
                );
            }
        },
        StringLiteralPrefix::Wide | StringLiteralPrefix::Utf32 => {
            output.push(value);
        },
    }
    Ok(())
}

/// Decodes the piece of a string-literal body that starts at `s[index]`.
fn next_string_piece(s: &Vec<char>, index: usize, end: usize) -> (result: Result<
    (u32, usize, Option<char>),
    LiteralError,
>)
    requires
        index < end <= s.len(),
    ensures
        match result {
            Ok((value, length, character)) => string_piece(s@.subrange(index as int, end as int))
                == Ok::<(u32, int, Option<char>), Seq<char>>((value, length as int, character)),
            Err(error) => string_piece(s@.subrange(index as int, end as int)) == Err::<
                (u32, int, Option<char>),
                Seq<char>,
            >(error.message@),
        },
{
    let ghost t = s@.subrange(index as int, end as int);
    assert(t[0] == s@[index as int]);
    if s[index] == '\\' {
        if index + 1 == end {
            return Err(literal_error("incomplete escape sequence"));
        }
        let marker = s[index + 1];
        assert(t[1] == marker);
        let (value, length) = decode_escape(s, index, end)?;
        let character = if marker == 'u' || marker == 'U' {
            char_from_u32(value)
        } else {
            None
        };
        proof {
            if marker == 'u' || marker == 'U' {
                let c = character->Some_0;
                vstd::utf8::char_u32_cast(c, value);
            }
        }
        Ok((value, length, character))
    } else {
        Ok((s[index] as u32, 1, Some(s[index])))
    }
}

/// Decodes the body `s[start..end]` of a string literal with `prefix`.
fn decode_string_units(s: &Vec<char>, start: usize, end: usize, prefix: StringLiteralPrefix) -> (result: Result<
    Vec<u32>,
    LiteralError,
>)
    requires
        start <= end <= s.len(),
    ensures
        match result {
            Ok(units) => string_units(s@.subrange(start as int, end as int), prefix) == Ok::<
                Seq<u32>,
                Seq<char>,
            >(units@),
            Err(error) => string_units(s@.subrange(start as int, end as int), prefix) == Err::<
                Seq<u32>,
                Seq<char>,
            >(error.message@),
        },
{
    let ghost body = s@.subrange(start as int, end as int);
    let mut code_units: Vec<u32> = Vec::new();
    let mut index = start;
    while index < end
        invariant
            start <= index <= end <= s.len(),
            body == s@.subrange(start as int, end as int),
            string_units(body, prefix) == prepend_units(
                code_units@,
                string_units(s@.subrange(index as int, end as int), prefix),
            ),
        decreases end - index,
    {
        let ghost t = s@.subrange(index as int, end as int);
        let (value, length, character) = next_string_piece(s, index, end)?;
        proof {
            lemma_string_piece_length(t);
        }
        let ghost before = code_units@;
        append_string_code_units(&mut code_units, prefix, value, character)?;
        proof {
            let next = s@.subrange(index + length, end as int);
            assert(t.skip(length as int) =~= next);
            let units = encode_units(prefix, value, character)->Ok_0;
            match string_units(next, prefix) {
                Ok(tail) => {
                    assert(before + (units + tail) =~= code_units@ + tail);
                },
                Err(_) => {},
            }
        }
        index = index + length;
    }
    assert(s@.subrange(end as int, end as int) =~= Seq::<char>::empty());
    assert(code_units@ + Seq::<u32>::empty() =~= code_units@);
    Ok(code_units)
}

/// Decodes a string literal with an optional `u8`, `L`, `u` or `U` prefix into
/// the code units of its encoding.
pub fn decode_string_literal(spelling: &str) -> (result: Result<StringLiteral, LiteralError>)
    ensures
        string_outcome(result) == string_literal_spec(spelling@),
{
    let s = chars_of(spelling);
    let n = s.len();
    let (prefix, start): (StringLiteralPrefix, usize) = if n >= 2 && s[0] == 'u' && s[1] == '8' {
        (StringLiteralPrefix::Utf8, 2)
    } else if n > 0 && s[0] == 'L' {
        (StringLiteralPrefix::Wide, 1)
    } else if n > 0 && s[0] == 'u' {
        (StringLiteralPrefix::Utf16, 1)
    } else if n > 0 && s[0] == 'U' {
        (StringLiteralPrefix::Utf32, 1)
    } else {
        (StringLiteralPrefix::Unprefixed, 0)
    };
    let ghost rest = s@.skip(start as int);
    if !(n - start >= 2 && s[start] == '"' && s[n - 1] == '"') {
        return Err(literal_error("invalid string literal"));
    }
    assert(rest.subrange(1, rest.len() - 1) =~= s@.subrange(start + 1, n - 1));
    let code_units = decode_string_units(&s, start + 1, n - 1, prefix)?;
    Ok(StringLiteral { prefix, code_units })
}

/// The prefix shared by all prefixed literals among `prefixes`, starting from
/// `selected`; `None` when two prefixed literals disagree.
pub open spec fn common_prefix(prefixes: Seq<StringLiteralPrefix>, selected: StringLiteralPrefix) -> Option<
    StringLiteralPrefix,
>
    decreases prefixes.len(),
{
    if prefixes.len() == 0 {
        Some(selected)
    } else if prefixes[0] == StringLiteralPrefix::Unprefixed {
        common_prefix(prefixes.drop_first(), selected)
    } else if selected == StringLiteralPrefix::Unprefixed || selected == prefixes[0] {
        common_prefix(prefixes.drop_first(), prefixes[0])
    } else {
        None
    }
}

/// The code units of `chars` in the encoding of `prefix`.
pub open spec fn reencode(prefix: StringLiteralPrefix, chars: Seq<char>) -> Seq<u32>
    decreases chars.len(),
{
    if chars.len() == 0 {
        seq![]
    } else {
        encode_units(prefix, chars[0] as u32, Some(chars[0]))->Ok_0 + reencode(
            prefix,
            chars.drop_first(),
        )
    }
}

/// The code units that one literal contributes to a concatenation with the
/// selected `prefix`: an ordinary literal is read back as UTF-8 and re-encoded.
pub open spec fn literal_units(
    literal: (StringLiteralPrefix, Seq<u32>),
    prefix: StringLiteralPrefix,
) -> Result<Seq<u32>, Seq<char>> {
    if literal.0 == StringLiteralPrefix::Unprefixed && prefix != StringLiteralPrefix::Unprefixed {
        if !(forall|i: int| 0 <= i < literal.1.len() ==> #[trigger] literal.1[i] <= 0xFF) {
            Err("ordinary string code unit is out of range"@)
        } else {
            let bytes = literal.1.map_values(|unit: u32| unit as u8);
            if !vstd::utf8::valid_utf8(bytes) {
                Err("ordinary string is not valid UTF-8"@)
            } else {
                Ok(reencode(prefix, vstd::utf8::decode_utf8(bytes)))
            }
        }
    } else {
        Ok(literal.1)
    }
}

pub open spec fn concatenated_units(
    literals: Seq<(StringLiteralPrefix, Seq<u32>)>,
    prefix: StringLiteralPrefix,
) -> Result<Seq<u32>, Seq<char>>
    decreases literals.len(),
{
    if literals.len() == 0 {
        Ok(seq![])
    } else {
        match literal_units(literals[0], prefix) {
            Err(message) => Err(message),
            Ok(units) => prepend_units(units, concatenated_units(literals.drop_first(), prefix)),
        }
    }
}

/// What `concatenate_string_literals` gives for the literals `literals`.
pub open spec fn concatenation_spec(literals: Seq<(StringLiteralPrefix, Seq<u32>)>) -> Result<
    (StringLiteralPrefix, Seq<u32>),
    Seq<char>,
> {
    match common_prefix(
        literals.map_values(|literal: (StringLiteralPrefix, Seq<u32>)| literal.0),
        StringLiteralPrefix::Unprefixed,
    ) {
        None => Err("adjacent string literals have incompatible encoding prefixes"@),
        Some(prefix) => match concatenated_units(literals, prefix) {
            Err(message) => Err(message),
            Ok(units) => Ok((prefix, units)),
        },
    }
}

/// Appends the units of `literal` as it contributes to a concatenation.
#[verifier::loop_isolation(false)]
fn append_literal_units(
    output: &mut Vec<u32>,
    literal: &StringLiteral,
    prefix: StringLiteralPrefix,
) -> (result: Result<(), LiteralError>)
    ensures
        match result {
            Ok(()) => literal_units(literal@, prefix) is Ok && final(output)@ == old(output)@
                + literal_units(literal@, prefix)->Ok_0,
            Err(error) => literal_units(literal@, prefix) == Err::<Seq<u32>, Seq<char>>(
                error.message@,
            ),
        },
{
    if !(literal.prefix == StringLiteralPrefix::Unprefixed && prefix
        != StringLiteralPrefix::Unprefixed) {
        let mut i: usize = 0;
        let ghost start = output@;
        while i < literal.code_units.len()
            invariant
                i <= literal.code_units.len(),
                output@ == start + literal.code_units@.take(i as int),
            decreases literal.code_units.len() - i,
        {
            output.push(literal.code_units[i]);
            assert(literal.code_units@.take(i + 1) =~= literal.code_units@.take(i as int).push(
                literal.code_units@[i as int],
            ));
            i = i + 1;
        }
        assert(literal.code_units@.take(i as int) =~= literal.code_units@);
        return Ok(());
    }
    let units = &literal.code_units;
    let mut bytes: Vec<u8> = Vec::new();
    let mut i: usize = 0;
    while i < units.len()
        invariant
            i <= units.len(),
            bytes@ == units@.take(i as int).map_values(|unit: u32| unit as u8),
            forall|j: int| 0 <= j < i ==> #[trigger] units@[j] <= 0xFF,
        decreases units.len() - i,
    {
        if units[i] > 0xFF {
            assert(literal@.1[i as int] > 0xFF);
            return Err(literal_error("ordinary string code unit is out of range"));
        }
        bytes.push(units[i] as u8);
        assert(units@.take(i + 1).map_values(|unit: u32| unit as u8) =~= units@.take(
            i as int,
        ).map_values(|unit: u32| unit as u8).push(units@[i as int] as u8));
        i = i + 1;
    }
    assert(units@.take(i as int) =~= units@);
    let text = match string_from_utf8(bytes) {
        Some(text) => text,
        None => {
            return Err(literal_error("ordinary string is not valid UTF-8"));
        },
    };
    let chars = chars_of(text.as_str());
    let ghost decoded = chars@;
    let ghost start = output@;
    let mut k: usize = 0;
    while k < chars.len()
        invariant
            k <= chars.len(),
            chars@ == decoded,
            output@ == start + reencode(prefix, decoded.take(k as int)),
        decreases chars.len() - k,
    {
        let c = chars[k];
        let ghost before = output@;
        let appended = append_string_code_units(output, prefix, c as u32, Some(c));
        proof {
            lemma_reencode_split(prefix, decoded, k as int);
        }
        match appended {
            Ok(()) => {},
            Err(error) => {
                return Err(error);
            },
        }
        k = k + 1;
    }
    assert(decoded.take(k as int) =~= decoded);
    Ok(())
}

/// Re-encoding distributes over a split of the characters.
pub proof fn lemma_reencode_split(prefix: StringLiteralPrefix, chars: Seq<char>, k: int)
    requires
        0 <= k < chars.len(),
    ensures
        reencode(prefix, chars.take(k + 1)) == reencode(prefix, chars.take(k)) + encode_units(
            prefix,
            chars[k] as u32,
            Some(chars[k]),
        )->Ok_0,
    decreases k,
{
    if k == 0 {
        assert(chars.take(1).drop_first() =~= Seq::<char>::empty());
        assert(chars.take(0) =~= Seq::<char>::empty());
    } else {
        lemma_reencode_split(prefix, chars.drop_first(), k - 1);
        assert(chars.take(k + 1).drop_first() =~= chars.drop_first().take(k));
        assert(chars.take(k).drop_first() =~= chars.drop_first().take(k - 1));
    }
}

/// Concatenates adjacent string literals. Prefixed literals must agree on
/// their prefix; ordinary literals are re-encoded in that prefix's encoding.
#[verifier::loop_isolation(false)]
pub fn concatenate_string_literals(literals: &[StringLiteral]) -> (result: Result<
    StringLiteral,
    LiteralError,
>)
    ensures
        string_outcome(result) == concatenation_spec(
            literals@.map_values(|literal: StringLiteral| literal@),
        ),
{
    let ghost views = literals@.map_values(|literal: StringLiteral| literal@);
    let ghost prefixes = views.map_values(|literal: (StringLiteralPrefix, Seq<u32>)| literal.0);
    let mut selected = StringLiteralPrefix::Unprefixed;
    let mut i: usize = 0;
    assert(prefixes.skip(0) =~= prefixes);
    while i < literals.len()
        invariant
            i <= literals.len(),
            prefixes.len() == literals.len(),
            common_prefix(prefixes, StringLiteralPrefix::Unprefixed) == common_prefix(
                prefixes.skip(i as int),
                selected,
            ),
        decreases literals.len() - i,
    {
        let p = literals[i].prefix;
        let ghost t = prefixes.skip(i as int);
        assert(t[0] == p);
        assert(t.drop_first() =~= prefixes.skip(i + 1));
        if p != StringLiteralPrefix::Unprefixed {
            if selected == StringLiteralPrefix::Unprefixed || selected == p {
                selected = p;
            } else {
                return Err(
                    literal_error("adjacent string literals have incompatible encoding prefixes"),
                );
            }
        }
        i = i + 1;
    }
    assert(prefixes.skip(i as int).len() == 0);
    let prefix = selected;
    let mut code_units: Vec<u32> = Vec::new();
    let mut j: usize = 0;
    proof {
        assert(views.skip(0) =~= views);
        match concatenated_units(views, prefix) {
            Ok(all) => {
                assert(code_units@ + all =~= all);
            },
            Err(_) => {},
        }
    }
    while j < literals.len()
        invariant
            j <= literals.len(),
            views.len() == literals.len(),
            concatenated_units(views, prefix) == prepend_units(
                code_units@,
                concatenated_units(views.skip(j as int), prefix),
            ),
        decreases literals.len() - j,
    {
        let ghost t = views.skip(j as int);
        assert(t[0] == literals@[j as int]@);
        assert(t.drop_first() =~= views.skip(j + 1));
        let ghost before = code_units@;
        append_literal_units(&mut code_units, &literals[j], prefix)?;
        proof {
            let units = literal_units(t[0], prefix)->Ok_0;
            match concatenated_units(views.skip(j + 1), prefix) {
                Ok(tail) => {
                    assert(before + (units + tail) =~= code_units@ + tail);
                },
                Err(_) => {},
            }
        }
        j = j + 1;
    }
    assert(views.skip(j as int).len() == 0);
    assert(code_units@ + Seq::<u32>::empty() =~= code_units@);
    Ok(StringLiteral { prefix, code_units })
}

/// The code units of `literals` one after another.
pub open spec fn units_in_order(literals: Seq<(StringLiteralPrefix, Seq<u32>)>) -> Seq<u32>
    decreases literals.len(),
{
    if literals.len() == 0 {
        seq![]
    } else {
        literals[0].1 + units_in_order(literals.drop_first())
    }
}

/// Concatenating no literal gives the empty ordinary literal.
pub proof fn lemma_concatenating_nothing()
    ensures
        concatenation_spec(Seq::empty()) == Ok::<(StringLiteralPrefix, Seq<u32>), Seq<char>>(
            (StringLiteralPrefix::Unprefixed, Seq::<u32>::empty()),
        ),
{
    let none = Seq::<(StringLiteralPrefix, Seq<u32>)>::empty();
    assert(none.map_values(|literal: (StringLiteralPrefix, Seq<u32>)| literal.0) =~= Seq::empty());
}

/// Concatenating one literal gives it back.
pub proof fn lemma_concatenating_one(literal: (StringLiteralPrefix, Seq<u32>))
    ensures
        concatenation_spec(seq![literal]) == Ok::<(StringLiteralPrefix, Seq<u32>), Seq<char>>(literal),
{
    let one = seq![literal];
    let prefixes = one.map_values(|l: (StringLiteralPrefix, Seq<u32>)| l.0);
    assert(prefixes.drop_first() =~= Seq::<StringLiteralPrefix>::empty());
    assert(one.drop_first() =~= Seq::<(StringLiteralPrefix, Seq<u32>)>::empty());
    assert(literal.1 + Seq::<u32>::empty() =~= literal.1);
    assert(prefixes.len() == 1);
    assert(prefixes[0] == literal.0);
    assert(common_prefix(prefixes.drop_first(), literal.0) == Some(literal.0));
    assert(common_prefix(prefixes.drop_first(), StringLiteralPrefix::Unprefixed) == Some(
        StringLiteralPrefix::Unprefixed,
    ));
    assert(common_prefix(prefixes, StringLiteralPrefix::Unprefixed) == Some(literal.0));
    assert(one[0] == literal);
    assert(literal_units(literal, literal.0) == Ok::<Seq<u32>, Seq<char>>(literal.1));
    assert(concatenated_units(one.drop_first(), literal.0) == Ok::<Seq<u32>, Seq<char>>(seq![]));
    assert(concatenated_units(one, literal.0) == Ok::<Seq<u32>, Seq<char>>(literal.1));
}

proof fn lemma_unprefixed_prefix(prefixes: Seq<StringLiteralPrefix>)
    requires
        forall|i: int| 0 <= i < prefixes.len() ==> prefixes[i] == StringLiteralPrefix::Unprefixed,
    ensures
        common_prefix(prefixes, StringLiteralPrefix::Unprefixed) == Some(StringLiteralPrefix::Unprefixed),
    decreases prefixes.len(),
{
    if prefixes.len() > 0 {
        lemma_unprefixed_prefix(prefixes.drop_first());
    }
}

proof fn lemma_unprefixed_units(literals: Seq<(StringLiteralPrefix, Seq<u32>)>)
    requires
        forall|i: int| 0 <= i < literals.len() ==> (#[trigger] literals[i]).0 == StringLiteralPrefix::Unprefixed,
    ensures
        concatenated_units(literals, StringLiteralPrefix::Unprefixed) == Ok::<Seq<u32>, Seq<char>>(
            units_in_order(literals),
        ),
    decreases literals.len(),
{
    if literals.len() > 0 {
        let rest = literals.drop_first();
        assert forall|i: int| 0 <= i < rest.len() implies (#[trigger] rest[i]).0
            == StringLiteralPrefix::Unprefixed by {
            assert(rest[i] == literals[i + 1]);
        }
        lemma_unprefixed_units(rest);
        assert(literals[0].0 == StringLiteralPrefix::Unprefixed);
    }
}

/// Ordinary literals concatenate to the ordinary literal of their code
/// units in order.
pub proof fn lemma_concatenating_ordinary_literals(literals: Seq<(StringLiteralPrefix, Seq<u32>)>)
    requires
        forall|i: int| 0 <= i < literals.len() ==> (#[trigger] literals[i]).0 == StringLiteralPrefix::Unprefixed,
    ensures
        concatenation_spec(literals) == Ok::<(StringLiteralPrefix, Seq<u32>), Seq<char>>(
            (StringLiteralPrefix::Unprefixed, units_in_order(literals)),
        ),
{
    let prefixes = literals.map_values(|literal: (StringLiteralPrefix, Seq<u32>)| literal.0);
    assert forall|i: int| 0 <= i < prefixes.len() implies prefixes[i] == StringLiteralPrefix::Unprefixed by {
        assert(literals[i].0 == StringLiteralPrefix::Unprefixed);
    }
    lemma_unprefixed_prefix(prefixes);
    lemma_unprefixed_units(literals);
}

} // verus!
