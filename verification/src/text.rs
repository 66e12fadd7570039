use vstd::prelude::*;

verus! {

/// The characters of `s`, in order.
pub fn chars_of(s: &str) -> (result: Vec<char>)
    ensures
        result@ == s@,
{
    let mut result: Vec<char> = Vec::new();
    for c in it: s.chars()
        invariant
            result@ == it.seq().take(it.index() as int),
    {
        result.push(c);
    }
    proof {
        broadcast use vstd::string::axiom_spec_iter;
    }
    result
}

/// Builds an owned string holding exactly `chars`.
#[verifier::external_body]
pub fn string_from_chars(chars: &[char]) -> (result: String)
    ensures
        result@ == chars@,
{
    chars.iter().collect()
}

} // verus!

verus! {

/// The value of `c` as a digit in any radix up to 36, or 36 when `c` is no
/// ASCII letter or digit.
pub open spec fn digit_value(c: char) -> int {
    let v = c as u32;
    if 0x30 <= v <= 0x39 {
        v - 0x30
    } else if 0x61 <= v <= 0x7a {
        v - 0x61 + 10
    } else if 0x41 <= v <= 0x5a {
        v - 0x41 + 10
    } else {
        36
    }
}

/// Every character of `s` is a digit of `radix`.
pub open spec fn all_digits(s: Seq<char>, radix: int) -> bool {
    forall|i: int| 0 <= i < s.len() ==> #[trigger] digit_value(s[i]) < radix
}

/// The positional value of the digits `s` in `radix`, most significant first.
pub open spec fn digits_value(s: Seq<char>, radix: int) -> int
    decreases s.len(),
{
    if s.len() == 0 {
        0
    } else {
        digits_value(s.drop_last(), radix) * radix + digit_value(s.last())
    }
}

/// What std's unsigned `from_str_radix` accepts: an optional `+`, then at
/// least one digit of `radix`, with a value no greater than `max`.
pub open spec fn parse_unsigned(s: Seq<char>, radix: int, max: int) -> Option<int> {
    let body = if s.len() > 0 && s[0] == '+' {
        s.drop_first()
    } else {
        s
    };
    if body.len() == 0 || !all_digits(body, radix) || digits_value(body, radix) > max {
        None
    } else {
        Some(digits_value(body, radix))
    }
}

/// ASCII hexadecimal digit.
pub open spec fn is_hex_digit(c: char) -> bool {
    digit_value(c) < 16
}

pub proof fn lemma_digits_value_nonneg(s: Seq<char>, radix: int)
    requires
        radix >= 1,
        all_digits(s, radix),
    ensures
        digits_value(s, radix) >= 0,
    decreases s.len(),
{
    if s.len() > 0 {
        lemma_digits_value_nonneg(s.drop_last(), radix);
        assert(digit_value(s[s.len() - 1]) >= 0);
        assert(digits_value(s.drop_last(), radix) * radix >= 0) by (nonlinear_arith)
            requires
                digits_value(s.drop_last(), radix) >= 0,
                radix >= 1,
        ;
    }
}

/// A prefix of valid digits never has a larger value than the whole.
pub proof fn lemma_digits_value_prefix(s: Seq<char>, radix: int, i: int)
    requires
        radix >= 1,
        0 <= i <= s.len(),
        all_digits(s, radix),
    ensures
        digits_value(s.take(i), radix) <= digits_value(s, radix),
    decreases s.len(),
{
    if i < s.len() {
        let p = s.drop_last();
        assert(p.take(i) =~= s.take(i));
        lemma_digits_value_prefix(p, radix, i);
        lemma_digits_value_nonneg(p, radix);
        let a = digits_value(p, radix);
        assert(a * radix >= a) by (nonlinear_arith)
            requires
                a >= 0,
                radix >= 1,
        ;
        assert(digit_value(s[s.len() - 1]) >= 0);
    } else {
        assert(s.take(i) =~= s);
    }
}

/// The value of the ASCII letter or digit `c`, or 36 for any other character.
pub fn digit_value_exec(c: char) -> (v: u32)
    ensures
        v == digit_value(c),
{
    let code = c as u32;
    if 0x30 <= code && code <= 0x39 {
        code - 0x30
    } else if 0x61 <= code && code <= 0x7a {
        code - 0x61 + 10
    } else if 0x41 <= code && code <= 0x5a {
        code - 0x41 + 10
    } else {
        36
    }
}

/// Parses `s[start..end]` as std's unsigned `from_str_radix` does, refusing
/// values above `max`.
#[verifier::loop_isolation(false)]
pub fn parse_unsigned_radix(
    s: &Vec<char>,
    start: usize,
    end: usize,
    radix: u32,
    max: u128,
) -> (result: Option<u128>)
    requires
        start <= end <= s.len(),
        2 <= radix <= 36,
    ensures
        match result {
            Some(v) => parse_unsigned(s@.subrange(start as int, end as int), radix as int, max as int)
                == Some(v as int),
            None => parse_unsigned(s@.subrange(start as int, end as int), radix as int, max as int)
                is None,
        },
{
    let ghost whole = s@.subrange(start as int, end as int);
    let mut first = start;
    if start < end && s[start] == '+' {
        first = start + 1;
    }
    let ghost body = s@.subrange(first as int, end as int);
    assert(body =~= (if whole.len() > 0 && whole[0] == '+' {
        whole.drop_first()
    } else {
        whole
    }));
    if first == end {
        return None;
    }
    let mut value: u128 = 0;
    let mut i = first;
    while i < end
        invariant
            first <= i <= end <= s.len(),
            body == s@.subrange(first as int, end as int),
            2 <= radix <= 36,
            all_digits(body.take(i - first), radix as int),
            value as int == digits_value(body.take(i - first), radix as int),
            value <= max,
        decreases end - i,
    {
        let d = digit_value_exec(s[i]);
        let ghost k = i - first;
        assert(body[k] == s@[i as int]);
        if d >= radix {
            assert(!all_digits(body, radix as int));
            return None;
        }
        proof {
            let t = body.take(k + 1);
            assert(t.drop_last() =~= body.take(k));
            assert(t.last() == s@[i as int]);
            assert forall|j: int| 0 <= j < t.len() implies #[trigger] digit_value(t[j]) < radix by {
                if j < k {
                    assert(t[j] == body.take(k)[j]);
                }
            }
        }
        let next = match value.checked_mul(radix as u128) {
            Some(m) => m.checked_add(d as u128),
            None => None,
        };
        match next {
            Some(n) if n <= max => {
                value = n;
            },
            _ => {
                proof {
                    if all_digits(body, radix as int) {
                        lemma_digits_value_prefix(body, radix as int, k + 1);
                        lemma_digits_value_nonneg(body.take(k), radix as int);
                    }
                }
                return None;
            },
        }
        i = i + 1;
    }
    assert(body.take(end - first) =~= body);
    Some(value)
}

} // verus!

verus! {

/// Number of bytes in the UTF-8 encoding of `c`.
pub open spec fn char_utf8_width(c: char) -> int {
    let v = c as u32;
    if v < 0x80 {
        1
    } else if v < 0x800 {
        2
    } else if v < 0x10000 {
        3
    } else {
        4
    }
}

/// Number of bytes in the UTF-8 encoding of `s`.
pub open spec fn utf8_len(s: Seq<char>) -> int
    decreases s.len(),
{
    if s.len() == 0 {
        0
    } else {
        utf8_len(s.drop_last()) + char_utf8_width(s.last())
    }
}

pub proof fn lemma_utf8_len_nonneg(s: Seq<char>)
    ensures
        utf8_len(s) >= s.len(),
    decreases s.len(),
{
    if s.len() > 0 {
        lemma_utf8_len_nonneg(s.drop_last());
    }
}

pub fn char_utf8_width_exec(c: char) -> (w: usize)
    ensures
        w == char_utf8_width(c),
{
    let v = c as u32;
    if v < 0x80 {
        1
    } else if v < 0x800 {
        2
    } else if v < 0x10000 {
        3
    } else {
        4
    }
}

/// Whether the UTF-8 encoding of `s[start..end]` has fewer than `count` bytes.
pub fn utf8_shorter_than(s: &Vec<char>, start: usize, end: usize, count: usize) -> (result: bool)
    requires
        start <= end <= s.len(),
        count <= 16,
    ensures
        result == (utf8_len(s@.subrange(start as int, end as int)) < count),
{
    if count == 0 {
        proof {
            lemma_utf8_len_nonneg(s@.subrange(start as int, end as int));
        }
        return false;
    }
    let mut total: usize = 0;
    let mut i = start;
    while i < end
        invariant
            start <= i <= end <= s.len(),
            count <= 16,
            total == utf8_len(s@.subrange(start as int, i as int)),
            total < count,
        decreases end - i,
    {
        assert(s@.subrange(start as int, i + 1).drop_last() =~= s@.subrange(start as int, i as int));
        total = total + char_utf8_width_exec(s[i]);
        i = i + 1;
        if total >= count {
            proof {
                lemma_utf8_len_prefix(s@.subrange(start as int, end as int), i - start);
                assert(s@.subrange(start as int, end as int).take(i - start) =~= s@.subrange(
                    start as int,
                    i as int,
                ));
            }
            return false;
        }
    }
    true
}

/// A prefix never encodes to more bytes than the whole.
pub proof fn lemma_utf8_len_prefix(s: Seq<char>, i: int)
    requires
        0 <= i <= s.len(),
    ensures
        utf8_len(s.take(i)) <= utf8_len(s),
    decreases s.len(),
{
    if i < s.len() {
        assert(s.drop_last().take(i) =~= s.take(i));
        lemma_utf8_len_prefix(s.drop_last(), i);
    } else {
        assert(s.take(i) =~= s);
    }
}

/// Number of leading hexadecimal digits of `t`.
pub open spec fn hex_run(t: Seq<char>) -> nat
    decreases t.len(),
{
    if t.len() > 0 && is_hex_digit(t[0]) {
        1 + hex_run(t.drop_first())
    } else {
        0
    }
}

/// Number of leading octal digits of `t`, at most `limit`.
pub open spec fn octal_run(t: Seq<char>, limit: nat) -> nat
    decreases t.len(),
{
    if limit > 0 && t.len() > 0 && 0x30 <= (t[0] as u32) <= 0x37 {
        1 + octal_run(t.drop_first(), (limit - 1) as nat)
    } else {
        0
    }
}

pub proof fn lemma_hex_run(t: Seq<char>)
    ensures
        hex_run(t) <= t.len(),
        forall|i: int| 0 <= i < hex_run(t) ==> #[trigger] is_hex_digit(t[i]),
        hex_run(t) < t.len() ==> !is_hex_digit(t[hex_run(t) as int]),
    decreases t.len(),
{
    if t.len() > 0 && is_hex_digit(t[0]) {
        lemma_hex_run(t.drop_first());
        assert forall|i: int| 0 <= i < hex_run(t) implies #[trigger] is_hex_digit(t[i]) by {
            if i > 0 {
                assert(t[i] == t.drop_first()[i - 1]);
            }
        }
    }
}

/// Counts the hexadecimal digits that start at `s[start]` before `end`.
pub fn count_hex_run(s: &Vec<char>, start: usize, end: usize) -> (count: usize)
    requires
        start <= end <= s.len(),
    ensures
        count == hex_run(s@.subrange(start as int, end as int)),
{
    let mut i = end;
    let mut count: usize = 0;
    // Scan right to left so that the run length is built up incrementally.
    while i > start
        invariant
            start <= i <= end <= s.len(),
            count == hex_run(s@.subrange(i as int, end as int)),
            count <= end - i,
        decreases i,
    {
        let ghost t = s@.subrange(i - 1, end as int);
        assert(t.drop_first() =~= s@.subrange(i as int, end as int));
        assert(t[0] == s@[i - 1]);
        if digit_value_exec(s[i - 1]) < 16 {
            count = count + 1;
        } else {
            count = 0;
        }
        i = i - 1;
    }
    count
}

} // verus!

verus! {

/// std's `char::from_u32`: the character whose scalar value is `v`, or `None`
/// when `v` is above U+10FFFF or names a surrogate.
#[verifier::external_body]
pub fn char_from_u32(v: u32) -> (result: Option<char>)
    ensures
        result is Some <==> vstd::utf8::is_scalar(v),
        result matches Some(c) ==> c as u32 == v,
{
    char::from_u32(v)
}

} // verus!

verus! {

/// `b` raised to the power `n`.
pub open spec fn power(b: int, n: nat) -> int
    decreases n,
{
    if n == 0 {
        1
    } else {
        b * power(b, (n - 1) as nat)
    }
}

/// `n` valid digits of `radix` are worth less than `radix` to the `n`.
pub proof fn lemma_digits_value_bound(s: Seq<char>, radix: int)
    requires
        radix >= 1,
        all_digits(s, radix),
    ensures
        0 <= digits_value(s, radix) < power(radix, s.len()),
    decreases s.len(),
{
    if s.len() > 0 {
        let p = s.drop_last();
        lemma_digits_value_bound(p, radix);
        let a = digits_value(p, radix);
        let d = digit_value(s[s.len() - 1]);
        let m = power(radix, p.len());
        assert(0 <= d < radix);
        assert(power(radix, s.len()) == radix * m);
        assert(0 <= a * radix + d < radix * m) by (nonlinear_arith)
            requires
                0 <= a < m,
                0 <= d < radix,
        ;
    }
}

pub open spec fn is_octal_digit(c: char) -> bool {
    0x30 <= (c as u32) <= 0x37
}

} // verus!

verus! {

/// The UTF-8 code units of the scalar `v`, widened to `u32`.
pub open spec fn utf8_units(v: u32) -> Seq<u32> {
    vstd::utf8::encode_scalar(v).map_values(|b: u8| b as u32)
}

/// The UTF-16 code units of the scalar `v`: itself, or a surrogate pair.
pub open spec fn utf16_units(v: u32) -> Seq<u32> {
    if v <= 0xFFFF {
        seq![v]
    } else {
        seq![
            (0xD800 + (v - 0x10000) / 0x400) as u32,
            (0xDC00 + (v - 0x10000) % 0x400) as u32,
        ]
    }
}

/// Appends the UTF-8 encoding of `c`.
pub fn push_utf8(output: &mut Vec<u32>, c: char)
    ensures
        final(output)@ == old(output)@ + utf8_units(c as u32),
{
    let v = c as u32;
    proof {
        vstd::utf8::char_is_scalar(c);
    }
    let ghost e = vstd::utf8::encode_scalar(v);
    if v <= 0x7F {
        assert(e.len() == 1);
        output.push(v & 0x7F);
        assert(((v & 0x7F) as u8) as u32 == v & 0x7F) by (bit_vector)
            requires
                v <= 0x7F,
        ;
    } else if v <= 0x7FF {
        let b0 = 0xC0 | ((v >> 6) & 0x1F);
        let b1 = 0x80 | (v & 0x3F);
        assert(b0 == (0xC0u8 | ((v >> 6) & 0x1F) as u8) as u32) by (bit_vector)
            requires
                b0 == 0xC0 | ((v >> 6) & 0x1F),
        ;
        assert(b1 == (0x80u8 | (v & 0x3F) as u8) as u32) by (bit_vector)
            requires
                b1 == 0x80 | (v & 0x3F),
        ;
        output.push(b0);
        output.push(b1);
    } else if v <= 0xFFFF {
        let b0 = 0xE0 | ((v >> 12) & 0x0F);
        let b1 = 0x80 | ((v >> 6) & 0x3F);
        let b2 = 0x80 | (v & 0x3F);
        assert(b0 == (0xE0u8 | ((v >> 12) & 0x0F) as u8) as u32) by (bit_vector)
            requires
                b0 == 0xE0 | ((v >> 12) & 0x0F),
        ;
        assert(b1 == (0x80u8 | ((v >> 6) & 0x3F) as u8) as u32) by (bit_vector)
            requires
                b1 == 0x80 | ((v >> 6) & 0x3F),
        ;
        assert(b2 == (0x80u8 | (v & 0x3F) as u8) as u32) by (bit_vector)
            requires
                b2 == 0x80 | (v & 0x3F),
        ;
        output.push(b0);
        output.push(b1);
        output.push(b2);
    } else {
        let b0 = 0xF0 | ((v >> 18) & 0x7);
        let b1 = 0x80 | ((v >> 12) & 0x3F);
        let b2 = 0x80 | ((v >> 6) & 0x3F);
        let b3 = 0x80 | (v & 0x3F);
        assert(b0 == (0xF0u8 | ((v >> 18) & 0x7) as u8) as u32) by (bit_vector)
            requires
                b0 == 0xF0 | ((v >> 18) & 0x7),
        ;
        assert(b1 == (0x80u8 | ((v >> 12) & 0x3F) as u8) as u32) by (bit_vector)
            requires
                b1 == 0x80 | ((v >> 12) & 0x3F),
        ;
        assert(b2 == (0x80u8 | ((v >> 6) & 0x3F) as u8) as u32) by (bit_vector)
            requires
                b2 == 0x80 | ((v >> 6) & 0x3F),
        ;
        assert(b3 == (0x80u8 | (v & 0x3F) as u8) as u32) by (bit_vector)
            requires
                b3 == 0x80 | (v & 0x3F),
        ;
        output.push(b0);
        output.push(b1);
        output.push(b2);
        output.push(b3);
    }
    assert(final(output)@ =~= old(output)@ + utf8_units(v));
}

/// Appends the UTF-16 encoding of `c`.
pub fn push_utf16(output: &mut Vec<u32>, c: char)
    ensures
        final(output)@ == old(output)@ + utf16_units(c as u32),
{
    let v = c as u32;
    if v <= 0xFFFF {
        output.push(v);
    } else {
        proof {
            vstd::utf8::char_is_scalar(c);
        }
        let w = v - 0x10000;
        output.push(0xD800 + w / 0x400);
        output.push(0xDC00 + w % 0x400);
    }
    assert(final(output)@ =~= old(output)@ + utf16_units(v));
}

} // verus!

verus! {

/// std's `String::from_utf8`: the text that `bytes` encode, or `None` when
/// they are not valid UTF-8.
#[verifier::external_body]
pub fn string_from_utf8(bytes: Vec<u8>) -> (result: Option<String>)
    ensures
        result is Some <==> vstd::utf8::valid_utf8(bytes@),
        result matches Some(text) ==> text@ == vstd::utf8::decode_utf8(bytes@),
{
    String::from_utf8(bytes).ok()
}

} // verus!

verus! {

/// Appends the characters of `s`.
pub fn push_str(output: &mut Vec<char>, s: &str)
    ensures
        final(output)@ == old(output)@ + s@,
{
    let ghost start = output@;
    for c in it: s.chars()
        invariant
            output@ == start + it.seq().take(it.index() as int),
    {
        output.push(c);
        proof {
            assert(it.seq().take(it.index() + 1) =~= it.seq().take(it.index() as int).push(c));
        }
    }
    proof {
        broadcast use vstd::string::axiom_spec_iter;

    }
}

/// The concatenation of two texts.
pub fn concat2(a: &str, b: &str) -> (result: String)
    ensures
        result@ == a@ + b@,
{
    let mut chars: Vec<char> = Vec::new();
    push_str(&mut chars, a);
    push_str(&mut chars, b);
    string_from_chars(chars.as_slice())
}

/// The concatenation of three texts.
pub fn concat3(a: &str, b: &str, c: &str) -> (result: String)
    ensures
        result@ == a@ + b@ + c@,
{
    let mut chars: Vec<char> = Vec::new();
    push_str(&mut chars, a);
    push_str(&mut chars, b);
    push_str(&mut chars, c);
    string_from_chars(chars.as_slice())
}

/// The concatenation of seven texts.
pub fn concat7(a: &str, b: &str, c: &str, d: &str, e: &str, f: &str, g: &str) -> (result: String)
    ensures
        result@ == a@ + b@ + c@ + d@ + e@ + f@ + g@,
{
    let mut chars: Vec<char> = Vec::new();
    push_str(&mut chars, a);
    push_str(&mut chars, b);
    push_str(&mut chars, c);
    push_str(&mut chars, d);
    push_str(&mut chars, e);
    push_str(&mut chars, f);
    push_str(&mut chars, g);
    string_from_chars(chars.as_slice())
}

/// The concatenation of four texts.
pub fn concat4(a: &str, b: &str, c: &str, d: &str) -> (result: String)
    ensures
        result@ == a@ + b@ + c@ + d@,
{
    let mut chars: Vec<char> = Vec::new();
    push_str(&mut chars, a);
    push_str(&mut chars, b);
    push_str(&mut chars, c);
    push_str(&mut chars, d);
    string_from_chars(chars.as_slice())
}

/// The concatenation of five texts.
pub fn concat5(a: &str, b: &str, c: &str, d: &str, e: &str) -> (result: String)
    ensures
        result@ == a@ + b@ + c@ + d@ + e@,
{
    let mut chars: Vec<char> = Vec::new();
    push_str(&mut chars, a);
    push_str(&mut chars, b);
    push_str(&mut chars, c);
    push_str(&mut chars, d);
    push_str(&mut chars, e);
    string_from_chars(chars.as_slice())
}

/// `s` begins with `prefix`.
pub open spec fn has_prefix(s: Seq<char>, prefix: Seq<char>) -> bool {
    prefix.len() <= s.len() && s.take(prefix.len() as int) == prefix
}

/// `s` without `prefix`, when it begins with it.
pub fn strip_prefix(s: &str, prefix: &str) -> (result: Option<String>)
    ensures
        match result {
            Some(rest) => has_prefix(s@, prefix@) && rest@ == s@.skip(prefix@.len() as int),
            None => !has_prefix(s@, prefix@),
        },
{
    if !starts_with(s, prefix) {
        return None;
    }
    let chars = chars_of(s);
    let start = chars_of(prefix).len();
    let mut rest: Vec<char> = Vec::new();
    let mut i = start;
    while i < chars.len()
        invariant
            start <= i <= chars@.len(),
            chars@ == s@,
            rest@ == s@.subrange(start as int, i as int),
        decreases chars.len() - i,
    {
        rest.push(chars[i]);
        i = i + 1;
        assert(rest@ =~= s@.subrange(start as int, i as int));
    }
    Some(string_from_chars(rest.as_slice()))
}

/// `s` starts with `prefix`.
pub fn starts_with(s: &str, prefix: &str) -> (result: bool)
    ensures
        result == (prefix@.len() <= s@.len() && s@.take(prefix@.len() as int) == prefix@),
{
    let a = chars_of(s);
    let b = chars_of(prefix);
    if b.len() > a.len() {
        return false;
    }
    let mut i: usize = 0;
    while i < b.len()
        invariant
            i <= b.len() <= a.len(),
            a@ == s@,
            b@ == prefix@,
            forall|j: int| 0 <= j < i ==> a@[j] == b@[j],
        decreases b.len() - i,
    {
        if a[i] != b[i] {
            assert(s@.take(prefix@.len() as int)[i as int] != prefix@[i as int]);
            return false;
        }
        i = i + 1;
    }
    assert(s@.take(prefix@.len() as int) =~= prefix@);
    true
}

/// Whether two texts are equal.
pub fn str_eq(a: &str, b: &str) -> (result: bool)
    ensures
        result == (a@ == b@),
{
    let x = chars_of(a);
    let y = chars_of(b);
    if x.len() != y.len() {
        return false;
    }
    let mut i: usize = 0;
    while i < x.len()
        invariant
            i <= x.len() == y.len(),
            x@ == a@,
            y@ == b@,
            forall|j: int| 0 <= j < i ==> x@[j] == y@[j],
        decreases x.len() - i,
    {
        if x[i] != y[i] {
            return false;
        }
        i = i + 1;
    }
    assert(x@ =~= y@);
    true
}

} // verus!

verus! {

/// The `count` low bytes of `n`, least significant first.
pub open spec fn le_bytes(n: nat, count: nat) -> Seq<u8>
    decreases count,
{
    if count == 0 {
        seq![]
    } else {
        seq![(n % 256) as u8] + le_bytes(n / 256, (count - 1) as nat)
    }
}

/// Appends the eight little-endian bytes of `n`.
pub fn push_le64(output: &mut Vec<u8>, n: u64)
    ensures
        final(output)@ == old(output)@ + le_bytes(n as nat, 8),
{
    let ghost start = output@;
    let mut rest = n;
    let mut i: usize = 0;
    while i < 8
        invariant
            i <= 8,
            le_bytes(n as nat, 8) == output@.subrange(start.len() as int, output@.len() as int)
                + le_bytes(rest as nat, (8 - i) as nat),
            output@.take(start.len() as int) == start,
            output@.len() == start.len() + i,
        decreases 8 - i,
    {
        let ghost before = output@;
        output.push((rest % 256) as u8);
        proof {
            let tail = le_bytes((rest / 256) as nat, (8 - i - 1) as nat);
            assert(le_bytes(rest as nat, (8 - i) as nat) == seq![(rest % 256) as u8] + tail);
            assert(output@.subrange(start.len() as int, output@.len() as int) =~= before.subrange(
                start.len() as int,
                before.len() as int,
            ).push((rest % 256) as u8));
            assert(output@.take(start.len() as int) =~= before.take(start.len() as int));
        }
        rest = rest / 256;
        i = i + 1;
    }
    assert(output@ =~= start + output@.subrange(start.len() as int, output@.len() as int));
}

/// Appends the bytes of `data`.
pub fn push_bytes(output: &mut Vec<u8>, data: &[u8])
    ensures
        final(output)@ == old(output)@ + data@,
{
    let ghost start = output@;
    let mut i: usize = 0;
    while i < data.len()
        invariant
            i <= data.len(),
            output@ == start + data@.take(i as int),
        decreases data.len() - i,
    {
        output.push(data[i]);
        assert(data@.take(i + 1) =~= data@.take(i as int).push(data@[i as int]));
        i = i + 1;
    }
    assert(data@.take(i as int) =~= data@);
}

/// The lowercase hexadecimal digit for `d < 16`.
pub open spec fn hex_char(d: int) -> char {
    if d < 10 {
        (0x30 + d) as char
    } else {
        (0x61 + d - 10) as char
    }
}

/// Two lowercase hexadecimal digits per byte.
pub open spec fn lower_hex(bytes: Seq<u8>) -> Seq<char>
    decreases bytes.len(),
{
    if bytes.len() == 0 {
        seq![]
    } else {
        lower_hex(bytes.drop_last()) + seq![
            hex_char(bytes.last() as int / 16),
            hex_char(bytes.last() as int % 16),
        ]
    }
}

pub fn hex_char_exec(d: u8) -> (c: char)
    requires
        d < 16,
    ensures
        c == hex_char(d as int),
{
    let digits: [char; 16] = [
        '0',
        '1',
        '2',
        '3',
        '4',
        '5',
        '6',
        '7',
        '8',
        '9',
        'a',
        'b',
        'c',
        'd',
        'e',
        'f',
    ];
    let c = digits[d as usize];
    assert(c == hex_char(d as int)) by {
        assert(hex_char(0) == '0');
        assert(hex_char(1) == '1');
        assert(hex_char(2) == '2');
        assert(hex_char(3) == '3');
        assert(hex_char(4) == '4');
        assert(hex_char(5) == '5');
        assert(hex_char(6) == '6');
        assert(hex_char(7) == '7');
        assert(hex_char(8) == '8');
        assert(hex_char(9) == '9');
        assert(hex_char(10) == 'a');
        assert(hex_char(11) == 'b');
        assert(hex_char(12) == 'c');
        assert(hex_char(13) == 'd');
        assert(hex_char(14) == 'e');
        assert(hex_char(15) == 'f');
    }
    c
}

/// Appends two lowercase hexadecimal digits for each byte of `bytes`.
pub fn push_lower_hex(output: &mut Vec<char>, bytes: &[u8])
    ensures
        final(output)@ == old(output)@ + lower_hex(bytes@),
{
    let ghost start = output@;
    let mut i: usize = 0;
    while i < bytes.len()
        invariant
            i <= bytes.len(),
            output@ == start + lower_hex(bytes@.take(i as int)),
        decreases bytes.len() - i,
    {
        let b = bytes[i];
        output.push(hex_char_exec(b / 16));
        output.push(hex_char_exec(b % 16));
        assert(bytes@.take(i + 1).drop_last() =~= bytes@.take(i as int));
        assert(output@ =~= start + lower_hex(bytes@.take(i + 1)));
        i = i + 1;
    }
    assert(bytes@.take(i as int) =~= bytes@);
}

} // verus!

verus! {

/// Lexicographic order of texts by character value, which is also the byte
/// order of their UTF-8 encodings.
pub open spec fn text_lt(a: Seq<char>, b: Seq<char>) -> bool
    decreases a.len(),
{
    if a.len() == 0 {
        b.len() > 0
    } else if b.len() == 0 {
        false
    } else if a[0] != b[0] {
        (a[0] as u32) < (b[0] as u32)
    } else {
        text_lt(a.drop_first(), b.drop_first())
    }
}

pub open spec fn text_le(a: Seq<char>, b: Seq<char>) -> bool {
    a == b || text_lt(a, b)
}

pub proof fn lemma_text_lt_irreflexive(a: Seq<char>)
    ensures
        !text_lt(a, a),
    decreases a.len(),
{
    if a.len() > 0 {
        lemma_text_lt_irreflexive(a.drop_first());
    }
}

pub proof fn lemma_text_lt_total(a: Seq<char>, b: Seq<char>)
    ensures
        a == b || text_lt(a, b) || text_lt(b, a),
    decreases a.len(),
{
    if a.len() > 0 && b.len() > 0 {
        vstd::utf8::char_u32_cast(a[0], a[0] as u32);
        vstd::utf8::char_u32_cast(b[0], b[0] as u32);
        if a[0] == b[0] {
            lemma_text_lt_total(a.drop_first(), b.drop_first());
            if a.drop_first() == b.drop_first() {
                assert(a =~= seq![a[0]] + a.drop_first());
                assert(b =~= seq![b[0]] + b.drop_first());
            }
        }
    } else if a.len() == 0 && b.len() == 0 {
        assert(a =~= b);
    }
}

pub proof fn lemma_text_lt_asymmetric(a: Seq<char>, b: Seq<char>)
    requires
        text_lt(a, b),
    ensures
        !text_lt(b, a),
    decreases a.len(),
{
    if a.len() > 0 && b.len() > 0 && a[0] == b[0] {
        lemma_text_lt_asymmetric(a.drop_first(), b.drop_first());
    }
}

pub proof fn lemma_text_lt_transitive(a: Seq<char>, b: Seq<char>, c: Seq<char>)
    requires
        text_lt(a, b),
        text_lt(b, c),
    ensures
        text_lt(a, c),
    decreases a.len(),
{
    if a.len() > 0 && b.len() > 0 && c.len() > 0 && a[0] == b[0] && b[0] == c[0] {
        lemma_text_lt_transitive(a.drop_first(), b.drop_first(), c.drop_first());
    }
}

/// Whether `a` sorts strictly before `b`.
pub fn text_less(a: &str, b: &str) -> (result: bool)
    ensures
        result == text_lt(a@, b@),
{
    let x = chars_of(a);
    let y = chars_of(b);
    let mut i: usize = 0;
    assert(x@.skip(0) =~= x@);
    assert(y@.skip(0) =~= y@);
    while i < x.len() && i < y.len()
        invariant
            i <= x.len(),
            i <= y.len(),
            x@ == a@,
            y@ == b@,
            text_lt(a@, b@) == text_lt(x@.skip(i as int), y@.skip(i as int)),
        decreases x.len() - i,
    {
        let ghost xs = x@.skip(i as int);
        let ghost ys = y@.skip(i as int);
        assert(xs[0] == x@[i as int]);
        assert(ys[0] == y@[i as int]);
        if x[i] != y[i] {
            return (x[i] as u32) < (y[i] as u32);
        }
        assert(xs.drop_first() =~= x@.skip(i + 1));
        assert(ys.drop_first() =~= y@.skip(i + 1));
        i = i + 1;
    }
    i == x.len() && i < y.len()
}

/// The decimal spelling of `n`.
pub open spec fn decimal(n: nat) -> Seq<char>
    decreases n,
{
    if n < 10 {
        seq![hex_char(n as int)]
    } else {
        decimal(n / 10) + seq![hex_char((n % 10) as int)]
    }
}

/// Appends the decimal spelling of `n`.
pub fn push_decimal(output: &mut Vec<char>, n: u64)
    ensures
        final(output)@ == old(output)@ + decimal(n as nat),
    decreases n,
{
    if n >= 10 {
        push_decimal(output, n / 10);
    }
    output.push(hex_char_exec((n % 10) as u8));
    assert(output@ =~= old(output)@ + decimal(n as nat));
}

} // verus!

verus! {

/* Lines, whitespace and substrings */

/// Whether `c` has Unicode's White_Space property, which `char::is_whitespace`
/// tests.
pub open spec fn unicode_whitespace(c: char) -> bool {
    let v = c as u32;
    (0x9 <= v <= 0xD) || v == 0x20 || v == 0x85 || v == 0xA0 || v == 0x1680 || (0x2000 <= v
        <= 0x200A) || v == 0x2028 || v == 0x2029 || v == 0x202F || v == 0x205F || v == 0x3000
}

pub fn is_unicode_whitespace(c: char) -> (result: bool)
    ensures
        result == unicode_whitespace(c),
{
    let v = c as u32;
    (0x9 <= v && v <= 0xD) || v == 0x20 || v == 0x85 || v == 0xA0 || v == 0x1680 || (0x2000 <= v
        && v <= 0x200A) || v == 0x2028 || v == 0x2029 || v == 0x202F || v == 0x205F || v == 0x3000
}

/// `s` without its leading whitespace.
pub open spec fn trim_start_ws(s: Seq<char>) -> Seq<char>
    decreases s.len(),
{
    if s.len() > 0 && unicode_whitespace(s[0]) {
        trim_start_ws(s.drop_first())
    } else {
        s
    }
}

/// `s` without its trailing whitespace.
pub open spec fn trim_end_ws(s: Seq<char>) -> Seq<char>
    decreases s.len(),
{
    if s.len() > 0 && unicode_whitespace(s.last()) {
        trim_end_ws(s.drop_last())
    } else {
        s
    }
}

/// `s` without leading and trailing whitespace, as `str::trim` gives it.
pub open spec fn trim_ws(s: Seq<char>) -> Seq<char> {
    trim_end_ws(trim_start_ws(s))
}

/// `str::trim`, on characters.
pub fn trim_chars(s: &Vec<char>) -> (result: Vec<char>)
    ensures
        result@ == trim_ws(s@),
{
    let mut start: usize = 0;
    assert(s@.skip(0) =~= s@);
    while start < s.len() && is_unicode_whitespace(s[start])
        invariant
            start <= s@.len(),
            trim_start_ws(s@.skip(start as int)) == trim_start_ws(s@),
        decreases s.len() - start,
    {
        assert(s@.skip(start as int).drop_first() =~= s@.skip(start + 1));
        start = start + 1;
    }
    let ghost front = s@.skip(start as int);
    let mut end: usize = s.len();
    assert(front.take(front.len() as int) =~= front);
    while end > start && is_unicode_whitespace(s[end - 1])
        invariant
            start <= end <= s@.len(),
            front == s@.skip(start as int),
            trim_end_ws(front.take(end - start)) == trim_end_ws(front),
        decreases end - start,
    {
        assert(front.take(end - start).drop_last() =~= front.take(end - 1 - start));
        assert(front.take(end - start).last() == s@[end - 1]);
        end = end - 1;
    }
    let mut out: Vec<char> = Vec::new();
    let mut i = start;
    while i < end
        invariant
            start <= i <= end <= s@.len(),
            out@ == s@.subrange(start as int, i as int),
        decreases end - i,
    {
        out.push(s[i]);
        i = i + 1;
        assert(out@ =~= s@.subrange(start as int, i as int));
    }
    assert(out@ =~= front.take(end - start));
    out
}

/// The index of the first newline at or after `i`, or the length.
pub open spec fn newline_from(t: Seq<char>, i: int) -> int
    decreases t.len() - i,
{
    if i < 0 || i >= t.len() {
        t.len() as int
    } else if t[i] == '\n' {
        i
    } else {
        newline_from(t, i + 1)
    }
}

pub proof fn lemma_newline_from_bounds(t: Seq<char>, i: int)
    requires
        0 <= i,
    ensures
        i <= t.len() ==> i <= newline_from(t, i) <= t.len(),
        i > t.len() ==> newline_from(t, i) == t.len(),
    decreases t.len() - i,
{
    if i < t.len() && t[i] != '\n' {
        lemma_newline_from_bounds(t, i + 1);
    }
}

/// A line without its ending: the newline, and a carriage return before it.
pub open spec fn line_text(piece: Seq<char>, ended: bool) -> Seq<char> {
    if ended && piece.len() > 0 && piece.last() == '\r' {
        piece.drop_last()
    } else {
        piece
    }
}

/// The lines of `t` from `i` on, as `str::lines` splits them: at each
/// newline, with a carriage return before it dropped, and no empty line after
/// a final newline.
pub open spec fn lines_from(t: Seq<char>, i: int) -> Seq<Seq<char>>
    decreases t.len() - i,
    via lines_from_decreases
{
    if i < 0 || i >= t.len() {
        seq![]
    } else {
        let e = newline_from(t, i);
        if e < t.len() {
            seq![line_text(t.subrange(i, e), true)] + lines_from(t, e + 1)
        } else {
            seq![t.subrange(i, e)]
        }
    }
}

#[via_fn]
proof fn lines_from_decreases(t: Seq<char>, i: int) {
    if 0 <= i < t.len() {
        lemma_newline_from_bounds(t, i);
    }
}

pub open spec fn text_lines(t: Seq<char>) -> Seq<Seq<char>> {
    lines_from(t, 0)
}

pub open spec fn strings_view(items: Seq<String>) -> Seq<Seq<char>> {
    items.map_values(|item: String| item@)
}

/// `str::lines`.
pub fn lines_of(text: &str) -> (result: Vec<String>)
    ensures
        strings_view(result@) == text_lines(text@),
{
    let s = chars_of(text);
    let mut out: Vec<String> = Vec::new();
    let mut i: usize = 0;
    assert(strings_view(out@) + lines_from(s@, 0) =~= lines_from(s@, 0));
    while i < s.len()
        invariant
            i <= s@.len(),
            s@ == text@,
            strings_view(out@) + lines_from(s@, i as int) == text_lines(text@),
        decreases s.len() + 1 - i,
    {
        let mut e = i;
        while e < s.len() && s[e] != '\n'
            invariant
                i <= e <= s@.len(),
                newline_from(s@, i as int) == newline_from(s@, e as int),
            decreases s.len() - e,
        {
            e = e + 1;
        }
        let mut end = e;
        if e < s.len() && end > i && s[end - 1] == '\r' {
            end = end - 1;
        }
        let mut piece: Vec<char> = Vec::new();
        let mut k = i;
        while k < end
            invariant
                i <= k <= end <= e <= s@.len(),
                piece@ == s@.subrange(i as int, k as int),
            decreases end - k,
        {
            piece.push(s[k]);
            k = k + 1;
            assert(piece@ =~= s@.subrange(i as int, k as int));
        }
        let ghost whole = s@.subrange(i as int, e as int);
        assert(piece@ =~= line_text(whole, e < s.len()));
        let line = string_from_chars(piece.as_slice());
        assert(strings_view(out@.push(line)) =~= strings_view(out@).push(line@));
        out.push(line);
        assert(lines_from(s@, i as int) == seq![line_text(whole, e < s.len())] + lines_from(
            s@,
            e + 1,
        ));
        assert(strings_view(out@) + lines_from(s@, e + 1) =~= strings_view(out@).drop_last() + (
        seq![line_text(whole, e < s.len())] + lines_from(s@, e + 1)));
        if e < s.len() {
            i = e + 1;
        } else {
            i = e;
        }
    }
    assert(strings_view(out@) + seq![] =~= strings_view(out@));
    out
}

/// Whether `s` ends with `suffix`.
pub open spec fn has_suffix(s: Seq<char>, suffix: Seq<char>) -> bool {
    suffix.len() <= s.len() && s.skip(s.len() - suffix.len()) == suffix
}

/// `s` without `suffix`, when it ends with it.
pub fn strip_suffix_chars(s: &Vec<char>, suffix: &str) -> (result: Option<Vec<char>>)
    ensures
        match result {
            Some(rest) => has_suffix(s@, suffix@) && rest@ == s@.take(s@.len() - suffix@.len()),
            None => !has_suffix(s@, suffix@),
        },
{
    let x = chars_of(suffix);
    if x.len() > s.len() {
        return None;
    }
    let base = s.len() - x.len();
    let mut j: usize = 0;
    while j < x.len()
        invariant
            j <= x@.len(),
            s@.len() <= usize::MAX,
            x@.len() <= s@.len(),
            base + x@.len() == s@.len(),
            x@ == suffix@,
            forall|k: int| 0 <= k < j ==> s@[base + k] == x@[k],
        decreases x.len() - j,
    {
        if s[base + j] != x[j] {
            assert(s@.skip(base as int)[j as int] != suffix@[j as int]);
            return None;
        }
        j = j + 1;
    }
    assert(s@.skip(base as int) =~= suffix@);
    let mut rest: Vec<char> = Vec::new();
    let mut i: usize = 0;
    while i < base
        invariant
            i <= base <= s@.len(),
            rest@ == s@.take(i as int),
        decreases base - i,
    {
        rest.push(s[i]);
        i = i + 1;
        assert(rest@ =~= s@.take(i as int));
    }
    Some(rest)
}

/// Whether `pattern` occurs in `s`.
pub open spec fn contains_text(s: Seq<char>, pattern: Seq<char>) -> bool {
    exists|i: int| 0 <= i && i + pattern.len() <= s.len() && #[trigger] s.subrange(i, i + pattern.len()) == pattern
}

/// Whether `pattern` occurs in `s`.
pub fn find_text(s: &Vec<char>, pattern: &str) -> (result: bool)
    ensures
        result == contains_text(s@, pattern@),
{
    let p = chars_of(pattern);
    if p.len() > s.len() {
        return false;
    }
    let last = s.len() - p.len();
    let mut i: usize = 0;
    while i <= last
        invariant_except_break
            s@.len() <= usize::MAX,
            last + p@.len() == s@.len(),
            p@.len() <= s@.len(),
            p@ == pattern@,
            forall|k: int| 0 <= k < i && k <= last ==> #[trigger] s@.subrange(k, k + p@.len()) != p@,
        ensures
            forall|k: int| 0 <= k <= last ==> #[trigger] s@.subrange(k, k + p@.len()) != p@,
        decreases last + 1 - i,
    {
        let mut j: usize = 0;
        while j < p.len() && s[i + j] == p[j]
            invariant
                i <= last,
                j <= p@.len(),
                s@.len() <= usize::MAX,
                p@.len() <= s@.len(),
                last + p@.len() == s@.len(),
                forall|k: int| 0 <= k < j ==> s@[i + k] == p@[k],
            decreases p.len() - j,
        {
            j = j + 1;
        }
        if j == p.len() {
            assert(s@.subrange(i as int, i + p@.len()) =~= p@);
            return true;
        }
        assert(s@.subrange(i as int, i + p@.len())[j as int] != p@[j as int]);
        if i == last {
            break;
        }
        i = i + 1;
    }
    proof {
        if contains_text(s@, pattern@) {
            let k = choose|k: int|
                0 <= k && k + pattern@.len() <= s@.len() && #[trigger] s@.subrange(k, k + pattern@.len())
                    == pattern@;
            assert(k <= last);
        }
    }
    false
}

} // verus!
