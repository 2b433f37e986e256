//! Typed literal values and their marshalling into native call values.
//!
//! A [`Value`] pairs a declared primitive type with a textual payload. The
//! payload is converted on demand ([`Value::val`]) into a [`NativeValue`],
//! and a native result is rendered back into text ([`from_native`]).

use vstd::prelude::*;

use crate::text::{
    char_canon, char_literal_parse, chars_of, dec_value, is_dec_digit, is_sint_literal,
    is_string_literal, is_uint_literal, lemma_char_canon_round_trip,
    lemma_sint_canon_round_trip, lemma_string_canon_round_trip, lemma_uint_canon_round_trip,
    parse_char_literal, parse_signed, parse_string_literal, parse_unsigned,
    render_char_literal, render_i64, render_string_literal, render_u64, sint_canon, sint_value,
    string_canon, string_from_chars, string_literal_value, uint_canon,
};

verus! {

/// The primitive types the marshaller recognizes.
#[derive(Clone, Copy, Debug, PartialEq, Eq, Structural)]
pub enum Ty {
    Bool,
    S8,
    U8,
    S16,
    U16,
    S32,
    U32,
    S64,
    U64,
    Float32,
    Float64,
    Char,
    Str,
}

/// A typed literal: a declared primitive type and its textual payload.
#[derive(Debug, Clone)]
pub struct Value {
    pub ty: Ty,
    pub value: String,
}

/// A native call value: a tagged variant over the recognized primitive
/// kinds. Floating-point values are carried in their validated textual form;
/// the sandbox boundary owns their bit-level representation.
#[derive(Debug, Clone, PartialEq, Eq)]
pub enum NativeValue {
    Bool(bool),
    S8(i8),
    U8(u8),
    S16(i16),
    U16(u16),
    S32(i32),
    U32(u32),
    S64(i64),
    U64(u64),
    Float32(String),
    Float64(String),
    Char(char),
    Str(String),
}

/// The single conversion failure: the literal does not match the declared
/// type's grammar.
#[derive(Clone, Copy, Debug, PartialEq, Eq, Structural)]
pub enum ValueError {
    ParseMismatch,
}

/// Acceptance of a `float32` literal by the sandbox value grammar; it depends
/// on the text alone.
pub uninterp spec fn wave_float32(lit: Seq<char>) -> bool;

/// Acceptance of a `float64` literal by the sandbox value grammar; it depends
/// on the text alone.
pub uninterp spec fn wave_float64(lit: Seq<char>) -> bool;

/// A character that can stand in a floating-point literal: a decimal digit,
/// a sign, the decimal point, an exponent mark, or a letter of `inf`/`nan`.
pub open spec fn is_float_char(c: char) -> bool {
    ||| is_dec_digit(c)
    ||| c == '-'
    ||| c == '+'
    ||| c == '.'
    ||| c == 'e'
    ||| c == 'E'
    ||| c == 'i'
    ||| c == 'n'
    ||| c == 'f'
    ||| c == 'a'
}

/// Every character of the literal belongs to a floating-point token: no
/// whitespace, no comment, nothing a lexer would skip around the number.
pub open spec fn float_chars_ok(lit: Seq<char>) -> bool {
    forall|i: int| 0 <= i < lit.len() ==> is_float_char(#[trigger] lit[i])
}

fn float_chars_ok_exec(chars: &Vec<char>) -> (r: bool)
    ensures
        r == float_chars_ok(chars@),
{
    let mut i: usize = 0;
    while i < chars.len()
        invariant
            i <= chars@.len(),
            forall|k: int| 0 <= k < i ==> is_float_char(#[trigger] chars@[k]),
        decreases chars@.len() - i,
    {
        let c = chars[i];
        let digit = '0' as u32 <= c as u32 && c as u32 <= '9' as u32;
        if !(digit || c == '-' || c == '+' || c == '.' || c == 'e' || c == 'E' || c == 'i' || c
            == 'n' || c == 'f' || c == 'a') {
            assert(!is_float_char(chars@[i as int]));
            return false;
        }
        i = i + 1;
    }
    true
}

/// Relies on wasm_wave::from_str with wasm_wave's own value type: whether a
/// float32 literal parses is a function of the text alone. The character
/// restriction keeps the lexer away from whitespace and comment handling,
/// whose comment skipping does not return on text ending in `//`.
#[verifier::external_body]
fn wave_float32_ok(lit: &str) -> (r: bool)
    requires
        float_chars_ok(lit@),
    ensures
        r == wave_float32(lit@),
{
    wasm_wave::from_str::<wasm_wave::value::Value>(&wasm_wave::value::Type::F32, lit).is_ok()
}

/// Relies on wasm_wave::from_str with wasm_wave's own value type: whether a
/// float64 literal parses is a function of the text alone. The character
/// restriction keeps the lexer away from whitespace and comment handling,
/// whose comment skipping does not return on text ending in `//`.
#[verifier::external_body]
fn wave_float64_ok(lit: &str) -> (r: bool)
    requires
        float_chars_ok(lit@),
    ensures
        r == wave_float64(lit@),
{
    wasm_wave::from_str::<wasm_wave::value::Value>(&wasm_wave::value::Type::F64, lit).is_ok()
}

/// The keyword `true`.
pub open spec fn true_lit() -> Seq<char> {
    seq!['t', 'r', 'u', 'e']
}

/// The keyword `false`.
pub open spec fn false_lit() -> Seq<char> {
    seq!['f', 'a', 'l', 's', 'e']
}

/// The boolean a literal denotes, if it is one of the two keywords.
pub open spec fn bool_value(lit: Seq<char>) -> Option<bool> {
    if lit == true_lit() {
        Some(true)
    } else if lit == false_lit() {
        Some(false)
    } else {
        None
    }
}

/// `ty` is one of the integer types.
pub open spec fn is_int_ty(ty: Ty) -> bool {
    ty is S8 || ty is U8 || ty is S16 || ty is U16 || ty is S32 || ty is U32 || ty is S64
        || ty is U64
}

/// `ty` is a signed integer type.
pub open spec fn is_signed_ty(ty: Ty) -> bool {
    ty is S8 || ty is S16 || ty is S32 || ty is S64
}

/// The smallest value representable in an integer type.
pub open spec fn int_min(ty: Ty) -> int {
    match ty {
        Ty::S8 => -128,
        Ty::S16 => -32768,
        Ty::S32 => -2147483648,
        Ty::S64 => -9223372036854775808,
        _ => 0,
    }
}

/// The largest value representable in an integer type.
pub open spec fn int_max(ty: Ty) -> int {
    match ty {
        Ty::S8 => 127,
        Ty::U8 => 255,
        Ty::S16 => 32767,
        Ty::U16 => 65535,
        Ty::S32 => 2147483647,
        Ty::U32 => 4294967295,
        Ty::S64 => 9223372036854775807,
        Ty::U64 => 0xFFFF_FFFF_FFFF_FFFF,
        _ => 0,
    }
}

/// The number an integer literal denotes under `ty`'s grammar: signed types
/// allow a leading minus, unsigned types do not.
pub open spec fn int_value_of(ty: Ty, lit: Seq<char>) -> int {
    if is_signed_ty(ty) {
        sint_value(lit)
    } else {
        dec_value(lit)
    }
}

/// The literal's shape matches `ty`'s integer grammar, before range checking.
pub open spec fn int_shape_ok(ty: Ty, lit: Seq<char>) -> bool {
    if is_signed_ty(ty) {
        is_sint_literal(lit)
    } else {
        is_uint_literal(lit)
    }
}

/// The literal is a valid textual encoding of the declared type: the
/// conversion contract of the marshaller.
pub open spec fn valid_literal(ty: Ty, lit: Seq<char>) -> bool {
    match ty {
        Ty::Bool => bool_value(lit) is Some,
        Ty::Char => char_literal_parse(lit) is Some,
        Ty::Str => is_string_literal(lit),
        Ty::Float32 => float_chars_ok(lit) && wave_float32(lit),
        Ty::Float64 => float_chars_ok(lit) && wave_float64(lit),
        _ => int_shape_ok(ty, lit) && int_min(ty) <= int_value_of(ty, lit) <= int_max(ty),
    }
}

/// `n` is the native value denoted by the literal `lit` under type `ty`.
pub open spec fn native_matches(n: NativeValue, ty: Ty, lit: Seq<char>) -> bool {
    match ty {
        Ty::Bool => n matches NativeValue::Bool(b) && Some(b) == bool_value(lit),
        Ty::S8 => n matches NativeValue::S8(x) && x as int == sint_value(lit),
        Ty::U8 => n matches NativeValue::U8(x) && x as int == dec_value(lit),
        Ty::S16 => n matches NativeValue::S16(x) && x as int == sint_value(lit),
        Ty::U16 => n matches NativeValue::U16(x) && x as int == dec_value(lit),
        Ty::S32 => n matches NativeValue::S32(x) && x as int == sint_value(lit),
        Ty::U32 => n matches NativeValue::U32(x) && x as int == dec_value(lit),
        Ty::S64 => n matches NativeValue::S64(x) && x as int == sint_value(lit),
        Ty::U64 => n matches NativeValue::U64(x) && x as int == dec_value(lit),
        Ty::Float32 => n matches NativeValue::Float32(s) && s@ == lit,
        Ty::Float64 => n matches NativeValue::Float64(s) && s@ == lit,
        Ty::Char => n matches NativeValue::Char(c) && Some(c) == char_literal_parse(lit),
        Ty::Str => n matches NativeValue::Str(s) && Some(s@) == string_literal_value_opt(lit),
    }
}

/// The character sequence a string literal denotes, if well formed.
pub open spec fn string_literal_value_opt(lit: Seq<char>) -> Option<Seq<char>> {
    if is_string_literal(lit) {
        Some(string_literal_value(lit))
    } else {
        None
    }
}

/// The type-tag names of the manifest, mapped to the types they declare.
pub open spec fn ty_of_name(s: Seq<char>) -> Option<Ty> {
    if s == seq!['b', 'o', 'o', 'l'] {
        Some(Ty::Bool)
    } else if s == seq!['s', '8'] {
        Some(Ty::S8)
    } else if s == seq!['u', '8'] {
        Some(Ty::U8)
    } else if s == seq!['s', '1', '6'] {
        Some(Ty::S16)
    } else if s == seq!['u', '1', '6'] {
        Some(Ty::U16)
    } else if s == seq!['s', '3', '2'] {
        Some(Ty::S32)
    } else if s == seq!['u', '3', '2'] {
        Some(Ty::U32)
    } else if s == seq!['s', '6', '4'] {
        Some(Ty::S64)
    } else if s == seq!['u', '6', '4'] {
        Some(Ty::U64)
    } else if s == seq!['f', 'l', 'o', 'a', 't', '3', '2'] {
        Some(Ty::Float32)
    } else if s == seq!['f', 'l', 'o', 'a', 't', '6', '4'] {
        Some(Ty::Float64)
    } else if s == seq!['c', 'h', 'a', 'r'] {
        Some(Ty::Char)
    } else if s == seq!['s', 't', 'r', 'i', 'n', 'g'] {
        Some(Ty::Str)
    } else {
        None
    }
}

/// Recognizes a manifest type-tag name.
pub fn parse_ty(tag: &str) -> (r: Option<Ty>)
    ensures
        r == ty_of_name(tag@),
{
    let v = chars_of(tag);
    let n = v.len();
    let r = if n == 2 {
        if v[0] == 's' && v[1] == '8' {
            assert(v@ =~= seq!['s','8']);
            Some(Ty::S8)
        } else if v[0] == 'u' && v[1] == '8' {
            assert(v@ =~= seq!['u','8']);
            Some(Ty::U8)
        } else {
            None
        }
    } else if n == 3 {
        if v[0] == 's' && v[1] == '1' && v[2] == '6' {
            assert(v@ =~= seq!['s','1','6']);
            Some(Ty::S16)
        } else if v[0] == 'u' && v[1] == '1' && v[2] == '6' {
            assert(v@ =~= seq!['u','1','6']);
            Some(Ty::U16)
        } else if v[0] == 's' && v[1] == '3' && v[2] == '2' {
            assert(v@ =~= seq!['s','3','2']);
            Some(Ty::S32)
        } else if v[0] == 'u' && v[1] == '3' && v[2] == '2' {
            assert(v@ =~= seq!['u','3','2']);
            Some(Ty::U32)
        } else if v[0] == 's' && v[1] == '6' && v[2] == '4' {
            assert(v@ =~= seq!['s','6','4']);
            Some(Ty::S64)
        } else if v[0] == 'u' && v[1] == '6' && v[2] == '4' {
            assert(v@ =~= seq!['u','6','4']);
            Some(Ty::U64)
        } else {
            None
        }
    } else if n == 4 {
        if v[0] == 'b' && v[1] == 'o' && v[2] == 'o' && v[3] == 'l' {
            assert(v@ =~= seq!['b','o','o','l']);
            Some(Ty::Bool)
        } else if v[0] == 'c' && v[1] == 'h' && v[2] == 'a' && v[3] == 'r' {
            assert(v@ =~= seq!['c','h','a','r']);
            Some(Ty::Char)
        } else {
            None
        }
    } else if n == 6 {
        if v[0] == 's' && v[1] == 't' && v[2] == 'r' && v[3] == 'i' && v[4] == 'n' && v[5] == 'g' {
            assert(v@ =~= seq!['s','t','r','i','n','g']);
            Some(Ty::Str)
        } else {
            None
        }
    } else if n == 7 {
        if v[0] == 'f' && v[1] == 'l' && v[2] == 'o' && v[3] == 'a' && v[4] == 't' && v[5] == '3'
            && v[6] == '2' {
            assert(v@ =~= seq!['f','l','o','a','t','3','2']);
            Some(Ty::Float32)
        } else if v[0] == 'f' && v[1] == 'l' && v[2] == 'o' && v[3] == 'a' && v[4] == 't' && v[5]
            == '6' && v[6] == '4' {
            assert(v@ =~= seq!['f','l','o','a','t','6','4']);
            Some(Ty::Float64)
        } else {
            None
        }
    } else {
        None
    };
    r
}

impl Value {
    /// Converts the literal into the native value its declared type gives it.
    /// Succeeds exactly when the literal matches the type's grammar, range
    /// included.
    pub fn val(&self) -> (r: Result<NativeValue, ValueError>)
        ensures
            r is Ok <==> valid_literal(self.ty, self.value@),
            r is Ok ==> native_matches(r->Ok_0, self.ty, self.value@),
            r is Err ==> r->Err_0 == ValueError::ParseMismatch,
    {
        let chars = chars_of(self.value.as_str());
        proof {
            assert(chars@.skip(0) =~= chars@);
        }
        match self.ty {
            Ty::Bool => {
                if chars.len() == 4 && chars[0] == 't' && chars[1] == 'r' && chars[2] == 'u'
                    && chars[3] == 'e' {
                    assert(chars@ =~= true_lit());
                    Ok(NativeValue::Bool(true))
                } else if chars.len() == 5 && chars[0] == 'f' && chars[1] == 'a' && chars[2] == 'l'
                    && chars[3] == 's' && chars[4] == 'e' {
                    assert(chars@ =~= false_lit());
                    Ok(NativeValue::Bool(false))
                } else {
                    assert(chars@ != true_lit());
                    assert(chars@ != false_lit());
                    Err(ValueError::ParseMismatch)
                }
            },
            Ty::S8 => match parse_signed(&chars, 127, 128) {
                Some(x) => Ok(NativeValue::S8(x as i8)),
                None => Err(ValueError::ParseMismatch),
            },
            Ty::U8 => match parse_unsigned(&chars, 0, 255) {
                Some(x) => Ok(NativeValue::U8(x as u8)),
                None => Err(ValueError::ParseMismatch),
            },
            Ty::S16 => match parse_signed(&chars, 32767, 32768) {
                Some(x) => Ok(NativeValue::S16(x as i16)),
                None => Err(ValueError::ParseMismatch),
            },
            Ty::U16 => match parse_unsigned(&chars, 0, 65535) {
                Some(x) => Ok(NativeValue::U16(x as u16)),
                None => Err(ValueError::ParseMismatch),
            },
            Ty::S32 => match parse_signed(&chars, 2147483647, 2147483648) {
                Some(x) => Ok(NativeValue::S32(x as i32)),
                None => Err(ValueError::ParseMismatch),
            },
            Ty::U32 => match parse_unsigned(&chars, 0, 4294967295) {
                Some(x) => Ok(NativeValue::U32(x as u32)),
                None => Err(ValueError::ParseMismatch),
            },
            Ty::S64 => match parse_signed(&chars, 9223372036854775807, 9223372036854775808) {
                Some(x) => Ok(NativeValue::S64(x)),
                None => Err(ValueError::ParseMismatch),
            },
            Ty::U64 => match parse_unsigned(&chars, 0, 0xFFFF_FFFF_FFFF_FFFF) {
                Some(x) => Ok(NativeValue::U64(x)),
                None => Err(ValueError::ParseMismatch),
            },
            Ty::Float32 => {
                if float_chars_ok_exec(&chars) && wave_float32_ok(self.value.as_str()) {
                    Ok(NativeValue::Float32(self.value.clone()))
                } else {
                    Err(ValueError::ParseMismatch)
                }
            },
            Ty::Float64 => {
                if float_chars_ok_exec(&chars) && wave_float64_ok(self.value.as_str()) {
                    Ok(NativeValue::Float64(self.value.clone()))
                } else {
                    Err(ValueError::ParseMismatch)
                }
            },
            Ty::Char => match parse_char_literal(&chars) {
                Some(c) => Ok(NativeValue::Char(c)),
                None => Err(ValueError::ParseMismatch),
            },
            Ty::Str => match parse_string_literal(&chars) {
                Some(t) => Ok(NativeValue::Str(string_from_chars(&t))),
                None => Err(ValueError::ParseMismatch),
            },
        }
    }
}

/// The canonical textual rendering of a native value.
pub open spec fn render_native(n: NativeValue) -> Seq<char> {
    match n {
        NativeValue::Bool(b) => if b {
            true_lit()
        } else {
            false_lit()
        },
        NativeValue::S8(x) => sint_canon(x as int),
        NativeValue::U8(x) => uint_canon(x as int),
        NativeValue::S16(x) => sint_canon(x as int),
        NativeValue::U16(x) => uint_canon(x as int),
        NativeValue::S32(x) => sint_canon(x as int),
        NativeValue::U32(x) => uint_canon(x as int),
        NativeValue::S64(x) => sint_canon(x as int),
        NativeValue::U64(x) => uint_canon(x as int),
        NativeValue::Float32(s) => s@,
        NativeValue::Float64(s) => s@,
        NativeValue::Char(c) => char_canon(c),
        NativeValue::Str(s) => string_canon(s@),
    }
}

/// Renders a native value back into its canonical textual form.
pub fn from_native(n: &NativeValue) -> (r: String)
    ensures
        r@ == render_native(*n),
{
    match n {
        NativeValue::Bool(b) => {
            proof {
                reveal_strlit("true");
                reveal_strlit("false");
                assert("true"@ =~= true_lit());
                assert("false"@ =~= false_lit());
            }
            if *b {
                "true".to_owned()
            } else {
                "false".to_owned()
            }
        },
        NativeValue::S8(x) => string_from_chars(&render_i64(*x as i64)),
        NativeValue::U8(x) => string_from_chars(&render_u64(*x as u64)),
        NativeValue::S16(x) => string_from_chars(&render_i64(*x as i64)),
        NativeValue::U16(x) => string_from_chars(&render_u64(*x as u64)),
        NativeValue::S32(x) => string_from_chars(&render_i64(*x as i64)),
        NativeValue::U32(x) => string_from_chars(&render_u64(*x as u64)),
        NativeValue::S64(x) => string_from_chars(&render_i64(*x)),
        NativeValue::U64(x) => string_from_chars(&render_u64(*x)),
        NativeValue::Float32(s) => s.clone(),
        NativeValue::Float64(s) => s.clone(),
        NativeValue::Char(c) => string_from_chars(&render_char_literal(*c)),
        NativeValue::Str(s) => {
            let cs = chars_of(s.as_str());
            string_from_chars(&render_string_literal(&cs))
        },
    }
}

/// Round-trip law: a native value converted from a valid literal renders back
/// to a literal that is again valid for the declared type and denotes the
/// same native value.
pub proof fn lemma_value_round_trip(ty: Ty, lit: Seq<char>, n: NativeValue)
    requires
        valid_literal(ty, lit),
        native_matches(n, ty, lit),
    ensures
        valid_literal(ty, render_native(n)),
        native_matches(n, ty, render_native(n)),
{
    match ty {
        Ty::Bool => {
            assert(true_lit() != false_lit()) by {
                assert(true_lit().len() == 4);
                assert(false_lit().len() == 5);
            }
        },
        Ty::S8 => lemma_sint_canon_round_trip(n->S8_0 as int),
        Ty::U8 => lemma_uint_canon_round_trip(n->U8_0 as int),
        Ty::S16 => lemma_sint_canon_round_trip(n->S16_0 as int),
        Ty::U16 => lemma_uint_canon_round_trip(n->U16_0 as int),
        Ty::S32 => lemma_sint_canon_round_trip(n->S32_0 as int),
        Ty::U32 => lemma_uint_canon_round_trip(n->U32_0 as int),
        Ty::S64 => lemma_sint_canon_round_trip(n->S64_0 as int),
        Ty::U64 => lemma_uint_canon_round_trip(n->U64_0 as int),
        Ty::Float32 => {},
        Ty::Float64 => {},
        Ty::Char => lemma_char_canon_round_trip(n->Char_0),
        Ty::Str => lemma_string_canon_round_trip(n->Str_0@),
    }
}

/// Range law: an integer literal whose value lies outside the declared
/// type's representable range is never accepted, whatever its shape.
pub proof fn lemma_integer_range_checked(ty: Ty, lit: Seq<char>)
    requires
        is_int_ty(ty),
    ensures
        !(int_min(ty) <= int_value_of(ty, lit) <= int_max(ty)) ==> !valid_literal(ty, lit),
{
}

} // verus!
