use waw::value::{from_native, parse_ty, NativeValue, Ty, Value, ValueError};

fn v(ty: Ty, lit: &str) -> Value {
    Value { ty, value: lit.to_string() }
}

#[test]
fn bool_round_trip() {
    assert_eq!(v(Ty::Bool, "true").val().unwrap(), NativeValue::Bool(true));
    assert_eq!(v(Ty::Bool, "false").val().unwrap(), NativeValue::Bool(false));
    assert_eq!(from_native(&NativeValue::Bool(true)), "true");
    assert_eq!(from_native(&NativeValue::Bool(false)), "false");
}

#[test]
fn bool_rejects_other_text() {
    assert_eq!(v(Ty::Bool, "TRUE").val().unwrap_err(), ValueError::ParseMismatch);
    assert_eq!(v(Ty::Bool, "1").val().unwrap_err(), ValueError::ParseMismatch);
    assert_eq!(v(Ty::Bool, "").val().unwrap_err(), ValueError::ParseMismatch);
}

#[test]
fn s32_round_trip() {
    assert_eq!(v(Ty::S32, "5").val().unwrap(), NativeValue::S32(5));
    assert_eq!(v(Ty::S32, "-42").val().unwrap(), NativeValue::S32(-42));
    assert_eq!(from_native(&NativeValue::S32(5)), "5");
    assert_eq!(from_native(&NativeValue::S32(-42)), "-42");
}

#[test]
fn integer_boundaries_accepted() {
    assert_eq!(v(Ty::S8, "127").val().unwrap(), NativeValue::S8(127));
    assert_eq!(v(Ty::S8, "-128").val().unwrap(), NativeValue::S8(-128));
    assert_eq!(v(Ty::U8, "255").val().unwrap(), NativeValue::U8(255));
    assert_eq!(v(Ty::S16, "-32768").val().unwrap(), NativeValue::S16(-32768));
    assert_eq!(v(Ty::U16, "65535").val().unwrap(), NativeValue::U16(65535));
    assert_eq!(
        v(Ty::S32, "-2147483648").val().unwrap(),
        NativeValue::S32(-2147483648)
    );
    assert_eq!(
        v(Ty::U32, "4294967295").val().unwrap(),
        NativeValue::U32(4294967295)
    );
    assert_eq!(
        v(Ty::S64, "-9223372036854775808").val().unwrap(),
        NativeValue::S64(i64::MIN)
    );
    assert_eq!(
        v(Ty::S64, "9223372036854775807").val().unwrap(),
        NativeValue::S64(i64::MAX)
    );
    assert_eq!(
        v(Ty::U64, "18446744073709551615").val().unwrap(),
        NativeValue::U64(u64::MAX)
    );
}

#[test]
fn integer_out_of_range_never_wraps() {
    assert_eq!(v(Ty::S8, "128").val().unwrap_err(), ValueError::ParseMismatch);
    assert_eq!(v(Ty::S8, "-129").val().unwrap_err(), ValueError::ParseMismatch);
    assert_eq!(v(Ty::U8, "256").val().unwrap_err(), ValueError::ParseMismatch);
    assert_eq!(v(Ty::U16, "65536").val().unwrap_err(), ValueError::ParseMismatch);
    assert_eq!(v(Ty::S32, "2147483648").val().unwrap_err(), ValueError::ParseMismatch);
    assert_eq!(v(Ty::U32, "4294967296").val().unwrap_err(), ValueError::ParseMismatch);
    assert_eq!(
        v(Ty::S64, "9223372036854775808").val().unwrap_err(),
        ValueError::ParseMismatch
    );
    assert_eq!(
        v(Ty::U64, "18446744073709551616").val().unwrap_err(),
        ValueError::ParseMismatch
    );
}

#[test]
fn s8_literal_200_rejected() {
    assert_eq!(v(Ty::S8, "200").val().unwrap_err(), ValueError::ParseMismatch);
}

#[test]
fn unsigned_rejects_minus() {
    assert_eq!(v(Ty::U8, "-1").val().unwrap_err(), ValueError::ParseMismatch);
    assert_eq!(v(Ty::U8, "-0").val().unwrap_err(), ValueError::ParseMismatch);
    // a signed type accepts the negative zero spelling
    assert_eq!(v(Ty::S8, "-0").val().unwrap(), NativeValue::S8(0));
}

#[test]
fn integer_syntax_rejected() {
    assert_eq!(v(Ty::U8, "007").val().unwrap_err(), ValueError::ParseMismatch);
    assert_eq!(v(Ty::U8, "").val().unwrap_err(), ValueError::ParseMismatch);
    assert_eq!(v(Ty::U8, "+1").val().unwrap_err(), ValueError::ParseMismatch);
    assert_eq!(v(Ty::S8, "1.0").val().unwrap_err(), ValueError::ParseMismatch);
    assert_eq!(v(Ty::U8, " 1").val().unwrap_err(), ValueError::ParseMismatch);
    assert_eq!(v(Ty::U8, "0").val().unwrap(), NativeValue::U8(0));
}

#[test]
fn string_round_trip() {
    assert_eq!(
        v(Ty::Str, "\"hi\"").val().unwrap(),
        NativeValue::Str("hi".to_string())
    );
    assert_eq!(from_native(&NativeValue::Str("hi".to_string())), "\"hi\"");
}

#[test]
fn string_escapes() {
    assert_eq!(
        v(Ty::Str, "\"a\\nb\"").val().unwrap(),
        NativeValue::Str("a\nb".to_string())
    );
    assert_eq!(
        v(Ty::Str, "\"q\\\"q\"").val().unwrap(),
        NativeValue::Str("q\"q".to_string())
    );
    assert_eq!(
        v(Ty::Str, "\"\\u{41}\"").val().unwrap(),
        NativeValue::Str("A".to_string())
    );
    assert_eq!(from_native(&NativeValue::Str("a\nb".to_string())), "\"a\\nb\"");
    // decoding inverts the canonical rendering
    let rendered = from_native(&NativeValue::Str("tab\t and \\ and \"q\"".to_string()));
    assert_eq!(
        v(Ty::Str, &rendered).val().unwrap(),
        NativeValue::Str("tab\t and \\ and \"q\"".to_string())
    );
}

#[test]
fn string_rejects_malformed() {
    assert_eq!(v(Ty::Str, "hi").val().unwrap_err(), ValueError::ParseMismatch);
    assert_eq!(v(Ty::Str, "\"hi").val().unwrap_err(), ValueError::ParseMismatch);
    assert_eq!(v(Ty::Str, "\"\\x\"").val().unwrap_err(), ValueError::ParseMismatch);
    assert_eq!(v(Ty::Str, "\"\\u{}\"").val().unwrap_err(), ValueError::ParseMismatch);
    assert_eq!(
        v(Ty::Str, "\"\\u{1234567}\"").val().unwrap_err(),
        ValueError::ParseMismatch
    );
}

#[test]
fn char_round_trip() {
    assert_eq!(v(Ty::Char, "'x'").val().unwrap(), NativeValue::Char('x'));
    assert_eq!(v(Ty::Char, "'\\n'").val().unwrap(), NativeValue::Char('\n'));
    assert_eq!(
        v(Ty::Char, "'\\u{1F44B}'").val().unwrap(),
        NativeValue::Char('\u{1F44B}')
    );
    assert_eq!(from_native(&NativeValue::Char('x')), "'x'");
    assert_eq!(from_native(&NativeValue::Char('\n')), "'\\n'");
    assert_eq!(from_native(&NativeValue::Char('\u{1F44B}')), "'\u{1F44B}'");
}

#[test]
fn char_rejects_malformed() {
    assert_eq!(v(Ty::Char, "''").val().unwrap_err(), ValueError::ParseMismatch);
    assert_eq!(v(Ty::Char, "'ab'").val().unwrap_err(), ValueError::ParseMismatch);
    // a surrogate code point is not a Unicode scalar value
    assert_eq!(
        v(Ty::Char, "'\\u{d800}'").val().unwrap_err(),
        ValueError::ParseMismatch
    );
}

#[test]
fn float_literals_validated() {
    assert_eq!(
        v(Ty::Float32, "1.5").val().unwrap(),
        NativeValue::Float32("1.5".to_string())
    );
    assert_eq!(
        v(Ty::Float64, "2.25e3").val().unwrap(),
        NativeValue::Float64("2.25e3".to_string())
    );
    assert_eq!(
        v(Ty::Float32, "nan").val().unwrap(),
        NativeValue::Float32("nan".to_string())
    );
    assert_eq!(v(Ty::Float32, "abc").val().unwrap_err(), ValueError::ParseMismatch);
    assert_eq!(v(Ty::Float64, "1..2").val().unwrap_err(), ValueError::ParseMismatch);
    assert_eq!(from_native(&NativeValue::Float32("1.5".to_string())), "1.5");
}

#[test]
fn float_literal_is_one_bare_token() {
    // no surrounding whitespace or comment trivia, and no panic on text
    // ending in a comment opener
    assert_eq!(v(Ty::Float32, "//").val().unwrap_err(), ValueError::ParseMismatch);
    assert_eq!(v(Ty::Float32, "1.5//").val().unwrap_err(), ValueError::ParseMismatch);
    assert_eq!(v(Ty::Float64, "1.5//x").val().unwrap_err(), ValueError::ParseMismatch);
    assert_eq!(v(Ty::Float32, " 1.5").val().unwrap_err(), ValueError::ParseMismatch);
    assert_eq!(v(Ty::Float64, "1.5 ").val().unwrap_err(), ValueError::ParseMismatch);
    assert_eq!(
        v(Ty::Float32, "-inf").val().unwrap(),
        NativeValue::Float32("-inf".to_string())
    );
}

#[test]
fn type_tags_recognized() {
    assert_eq!(parse_ty("bool"), Some(Ty::Bool));
    assert_eq!(parse_ty("s8"), Some(Ty::S8));
    assert_eq!(parse_ty("u8"), Some(Ty::U8));
    assert_eq!(parse_ty("s16"), Some(Ty::S16));
    assert_eq!(parse_ty("u16"), Some(Ty::U16));
    assert_eq!(parse_ty("s32"), Some(Ty::S32));
    assert_eq!(parse_ty("u32"), Some(Ty::U32));
    assert_eq!(parse_ty("s64"), Some(Ty::S64));
    assert_eq!(parse_ty("u64"), Some(Ty::U64));
    assert_eq!(parse_ty("float32"), Some(Ty::Float32));
    assert_eq!(parse_ty("float64"), Some(Ty::Float64));
    assert_eq!(parse_ty("char"), Some(Ty::Char));
    assert_eq!(parse_ty("string"), Some(Ty::Str));
    assert_eq!(parse_ty("i32"), None);
    assert_eq!(parse_ty(""), None);
    assert_eq!(parse_ty("Bool"), None);
}
