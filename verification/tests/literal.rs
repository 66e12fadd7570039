use ccc::pp::literal::{
    CharacterConstantPrefix, FloatingConstantDigits, FloatingConstantSuffix, IntegerSuffix,
    StringLiteral, StringLiteralPrefix, concatenate_string_literals, decode_character_constant,
    decode_integer_constant, decode_string_literal, floating_constant_form,
};

#[test]
fn decodes_integer_bases_and_suffixes() {
    assert_eq!(decode_integer_constant("0xffUL").unwrap().value, 255);
    assert_eq!(decode_integer_constant("077").unwrap().value, 63);
    assert_eq!(decode_integer_constant("0b101").unwrap().value, 5);
}

#[test]
fn decodes_character_escapes() {
    assert_eq!(decode_character_constant("'\\n'").unwrap().value, 10);
    assert_eq!(decode_character_constant("'\\x41'").unwrap().value, 65);
}

#[test]
fn preserves_full_prefixed_character_values_and_prefixes() {
    for (spelling, prefix) in [
        ("L'中'", CharacterConstantPrefix::Wide),
        ("u'中'", CharacterConstantPrefix::Utf16),
        ("U'中'", CharacterConstantPrefix::Utf32),
    ] {
        let character = decode_character_constant(spelling).unwrap();
        assert_eq!(character.value, 20_013, "{spelling}");
        assert_eq!(character.prefix, prefix, "{spelling}");
        assert_eq!(character.character_count, 1, "{spelling}");
    }
}

#[test]
fn rejects_utf8_character_constants_and_unrepresentable_utf16_values() {
    assert!(decode_character_constant("u8'a'").is_err());
    assert!(decode_character_constant("u'😀'").is_err());
}

#[test]
fn rejects_disallowed_universal_character_names_in_character_constants() {
    for spelling in [r"'\u0041'", r"L'\u0041'", r"u'\u0041'", r"U'\u0041'"] {
        let error = decode_character_constant(spelling).unwrap_err();
        assert!(error.message.contains("disallowed"), "{spelling}: {error:?}");
    }

    for spelling in [r"L'\u0024'", r"u'\u0040'", r"U'\u0060'"] {
        assert!(decode_character_constant(spelling).is_ok(), "{spelling}");
    }

    assert!(decode_character_constant(r"'\u中中'").is_err());
}

#[test]
fn decodes_string_prefixes_escapes_and_unicode_code_units() {
    assert_eq!(
        decode_string_literal(r#""A\n中""#).unwrap(),
        StringLiteral {
            prefix: StringLiteralPrefix::Unprefixed,
            code_units: vec![65, 10, 0xe4, 0xb8, 0xad],
        }
    );
    assert_eq!(
        decode_string_literal(r#"u"A😀""#).unwrap().code_units,
        vec![65, 0xd83d, 0xde00]
    );
    assert_eq!(
        decode_string_literal(r#"U"A😀""#).unwrap().code_units,
        vec![65, 0x1f600]
    );
    assert_eq!(
        decode_string_literal(r#"u8"A😀""#).unwrap().code_units,
        vec![65, 0xf0, 0x9f, 0x98, 0x80]
    );
}

#[test]
fn concatenates_ordinary_and_compatible_prefixed_strings() {
    let literals = [
        decode_string_literal(r#"u"left ""#).unwrap(),
        decode_string_literal(r#""right""#).unwrap(),
    ];
    assert_eq!(
        concatenate_string_literals(&literals).unwrap(),
        StringLiteral {
            prefix: StringLiteralPrefix::Utf16,
            code_units: "left right".encode_utf16().map(u32::from).collect(),
        }
    );

    let incompatible = [
        decode_string_literal(r#"u"left""#).unwrap(),
        decode_string_literal(r#"U"right""#).unwrap(),
    ];
    assert!(concatenate_string_literals(&incompatible).is_err());
}

#[test]
fn rejects_string_escape_values_that_do_not_fit_the_element_type() {
    assert!(decode_string_literal(r#""\x100""#).is_err());
    assert!(decode_string_literal(r#"u"\x10000""#).is_err());
}

#[test]
fn integer_errors_name_their_cause() {
    assert_eq!(
        decode_integer_constant("1uu").unwrap_err().message,
        "invalid integer suffix"
    );
    assert_eq!(
        decode_integer_constant("0x").unwrap_err().message,
        "integer constant has no digits"
    );
    assert_eq!(
        decode_integer_constant("09").unwrap_err().message,
        "integer constant is invalid or too large"
    );
    assert_eq!(
        decode_integer_constant("0x100000000000000000000000000000000")
            .unwrap_err()
            .message,
        "integer constant is invalid or too large"
    );
    let value = decode_integer_constant("123llu").unwrap();
    assert_eq!(value.value, 123);
    assert_eq!(value.radix, 10);
    assert_eq!(
        value.suffix,
        IntegerSuffix {
            unsigned: true,
            long_count: 2
        }
    );
    assert!(decode_integer_constant("1lL").is_err());
    assert_eq!(
        decode_integer_constant("340282366920938463463374607431768211455")
            .unwrap()
            .value,
        u128::MAX
    );
}

#[test]
fn multi_character_constants_shift_in_low_bytes() {
    let value = decode_character_constant("'ab'").unwrap();
    assert_eq!(value.value, 0x6162);
    assert_eq!(value.character_count, 2);
    assert_eq!(
        decode_character_constant("'\\101\\7'").unwrap().value,
        (0o101 << 8) | 7
    );
    assert_eq!(
        decode_character_constant("L'ab'").unwrap_err().message,
        "a prefixed character constant must contain exactly one character"
    );
    assert_eq!(
        decode_character_constant("''").unwrap_err().message,
        "empty character constant"
    );
    assert_eq!(
        decode_character_constant("'\\q'").unwrap_err().message,
        "unknown escape sequence"
    );
    assert_eq!(
        decode_character_constant("'\\x'").unwrap_err().message,
        "hex escape has no digits"
    );
    assert_eq!(
        decode_character_constant("'\\x123456789'").unwrap_err().message,
        "hex escape is too large"
    );
    assert_eq!(
        decode_character_constant(r"'\u12'").unwrap_err().message,
        "incomplete universal character name"
    );
    assert_eq!(
        decode_character_constant(r"'\uD800'").unwrap_err().message,
        "invalid Unicode scalar value"
    );
    assert_eq!(
        decode_character_constant(r"'\u中中'").unwrap_err().message,
        "invalid universal character name"
    );
}

#[test]
fn ordinary_strings_that_are_not_utf8_cannot_join_prefixed_ones() {
    let literals = [
        decode_string_literal(r#"u"a""#).unwrap(),
        decode_string_literal(r#""\xff""#).unwrap(),
    ];
    assert_eq!(
        concatenate_string_literals(&literals).unwrap_err().message,
        "ordinary string is not valid UTF-8"
    );
    let joined = concatenate_string_literals(&[
        decode_string_literal(r#""x""#).unwrap(),
        decode_string_literal(r#""\u00e9""#).unwrap(),
    ])
    .unwrap();
    assert_eq!(joined.prefix, StringLiteralPrefix::Unprefixed);
    assert_eq!(joined.code_units, vec![0x78, 0xc3, 0xa9]);
}

#[test]
fn splits_floating_constants_into_checked_digits_and_suffixes() {
    let form = floating_constant_form("1.25f").unwrap();
    assert_eq!(form.suffix, FloatingConstantSuffix::Float);
    assert_eq!(form.digits, FloatingConstantDigits::Decimal("1.25".to_owned()));
    let form = floating_constant_form("1e2").unwrap();
    assert_eq!(form.suffix, FloatingConstantSuffix::Double);
    let form = floating_constant_form("0x1.8p+2").unwrap();
    assert_eq!(
        form.digits,
        FloatingConstantDigits::Hexadecimal("1".to_owned(), "8".to_owned(), 2)
    );
    let form = floating_constant_form("0x1p-2L").unwrap();
    assert_eq!(form.suffix, FloatingConstantSuffix::LongDouble);
    assert_eq!(
        form.digits,
        FloatingConstantDigits::Hexadecimal("1".to_owned(), String::new(), -2)
    );
}

#[test]
fn rejects_malformed_floating_constant_spellings() {
    for (spelling, message) in [
        ("1f", "decimal floating constant requires a decimal point or exponent"),
        ("0x1.0", "hexadecimal floating constant requires a binary exponent"),
        ("0xp1", "hexadecimal floating constant has no digits"),
        ("0x1p", "invalid hexadecimal floating exponent"),
        ("0x1p-+2", "invalid hexadecimal floating exponent"),
        ("0x1p99999999999", "invalid hexadecimal floating exponent"),
        ("0xg.1p1", "invalid hexadecimal floating mantissa"),
        ("f", "floating constant has no digits"),
    ] {
        assert_eq!(floating_constant_form(spelling).unwrap_err().message, message, "{spelling}");
    }
    assert!(floating_constant_form("1e9999").is_ok());
}
