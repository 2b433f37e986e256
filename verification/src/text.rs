//! The canonical value-text grammar for primitive values: decimal integers,
//! quoted and escaped characters and strings, and the boolean keywords.
//!
//! Every literal form is defined here as a specification over character
//! sequences; the executable parsers and renderers are proved against those
//! definitions.

use vstd::prelude::*;

verus! {

// ---------------------------------------------------------------------------
// Decimal digits and integer literals
// ---------------------------------------------------------------------------

/// `c` is one of the decimal digits `0` through `9`.
pub open spec fn is_dec_digit(c: char) -> bool {
    '0' as u32 <= c as u32 && c as u32 <= '9' as u32
}

/// The numeric value of a decimal digit.
pub open spec fn digit_val(c: char) -> int {
    c as u32 - '0' as u32
}

/// Every character of `s` is a decimal digit.
pub open spec fn all_dec_digits(s: Seq<char>) -> bool {
    forall|i: int| 0 <= i < s.len() ==> is_dec_digit(#[trigger] s[i])
}

/// The number denoted by a digit string, most significant digit first.
pub open spec fn dec_value(s: Seq<char>) -> int
    decreases s.len(),
{
    if s.len() == 0 {
        0
    } else {
        dec_value(s.drop_last()) * 10 + digit_val(s.last())
    }
}

/// An unsigned decimal literal: at least one digit, and no leading zero
/// (the single digit `0` stands alone).
pub open spec fn is_uint_literal(s: Seq<char>) -> bool {
    &&& s.len() > 0
    &&& all_dec_digits(s)
    &&& (s.len() == 1 || s[0] != '0')
}

/// A signed decimal literal: an unsigned literal, optionally preceded by `-`.
pub open spec fn is_sint_literal(s: Seq<char>) -> bool {
    if s.len() > 0 && s[0] == '-' {
        is_uint_literal(s.skip(1))
    } else {
        is_uint_literal(s)
    }
}

/// The number denoted by a signed decimal literal.
pub open spec fn sint_value(s: Seq<char>) -> int {
    if s.len() > 0 && s[0] == '-' {
        -dec_value(s.skip(1))
    } else {
        dec_value(s)
    }
}

proof fn lemma_dec_value_nonneg(s: Seq<char>)
    requires
        all_dec_digits(s),
    ensures
        dec_value(s) >= 0,
    decreases s.len(),
{
    if s.len() > 0 {
        assert(all_dec_digits(s.drop_last()));
        lemma_dec_value_nonneg(s.drop_last());
    }
}

proof fn lemma_dec_take_step(s: Seq<char>, i: int)
    requires
        0 <= i < s.len(),
    ensures
        dec_value(s.take(i + 1)) == dec_value(s.take(i)) * 10 + digit_val(s[i]),
{
    assert(s.take(i + 1).drop_last() =~= s.take(i));
    assert(s.take(i + 1).last() == s[i]);
}

proof fn lemma_dec_prefix_le(s: Seq<char>, i: int)
    requires
        all_dec_digits(s),
        0 <= i <= s.len(),
    ensures
        dec_value(s.take(i)) <= dec_value(s),
    decreases s.len() - i,
{
    if i < s.len() {
        assert(all_dec_digits(s.take(i))) by {
            assert(forall|j: int| 0 <= j < i ==> s.take(i)[j] == #[trigger] s[j]);
        }
        lemma_dec_value_nonneg(s.take(i));
        lemma_dec_take_step(s, i);
        lemma_dec_prefix_le(s, i + 1);
    } else {
        assert(s.take(i) =~= s);
    }
}

/// Parses the digits of `s` from position `from` to the end as an unsigned
/// decimal literal whose value is at most `max`.
pub fn parse_unsigned(s: &Vec<char>, from: usize, max: u64) -> (r: Option<u64>)
    requires
        from <= s@.len(),
    ensures
        r is Some <==> is_uint_literal(s@.skip(from as int)) && dec_value(s@.skip(from as int))
            <= max,
        r is Some ==> r->0 as int == dec_value(s@.skip(from as int)),
{
    let ghost sub = s@.skip(from as int);
    let len = s.len();
    if from == len {
        return None;
    }
    if s[from] == '0' && len - from > 1 {
        // a leading zero is never part of a canonical literal
        assert(sub[0] == '0');
        return None;
    }
    let mut acc: u64 = 0;
    let mut i: usize = from;
    while i < len
        invariant
            from <= i <= len,
            len == s@.len(),
            sub == s@.skip(from as int),
            all_dec_digits(sub.take(i - from)),
            acc as int == dec_value(sub.take(i - from)),
            acc <= max,
        decreases len - i,
    {
        let c = s[i];
        let u = c as u32;
        if u < '0' as u32 || u > '9' as u32 {
            assert(!is_dec_digit(sub[i - from]));
            return None;
        }
        let d = (u - '0' as u32) as u64;
        proof {
            lemma_dec_take_step(sub, i - from);
        }
        assert(all_dec_digits(sub.take(i + 1 - from))) by {
            assert(forall|j: int| 0 <= j < i + 1 - from ==> sub.take(i + 1 - from)[j]
                == #[trigger] sub[j]);
            assert(is_dec_digit(sub[i - from]));
        }
        if acc > max / 10 || (acc == max / 10 && d > max % 10) {
            // the prefix already exceeds `max`, so the whole literal does
            proof {
                if all_dec_digits(sub) {
                    lemma_dec_prefix_le(sub, i + 1 - from);
                }
            }
            return None;
        }
        acc = acc * 10 + d;
        i = i + 1;
    }
    assert(sub.take(i - from) =~= sub);
    Some(acc)
}

/// Parses the whole of `s` as a signed decimal literal whose value lies in
/// `[-(neg_mag as int), pos_max as int]`.
pub fn parse_signed(s: &Vec<char>, pos_max: u64, neg_mag: u64) -> (r: Option<i64>)
    requires
        pos_max <= i64::MAX as u64,
        neg_mag <= i64::MAX as u64 + 1,
    ensures
        r is Some <==> is_sint_literal(s@) && -(neg_mag as int) <= sint_value(s@) <= pos_max as int,
        r is Some ==> r->0 as int == sint_value(s@),
{
    if s.len() > 0 && s[0] == '-' {
        match parse_unsigned(s, 1, neg_mag) {
            Some(mag) => {
                proof {
                    lemma_dec_value_nonneg(s@.skip(1));
                }
                if mag > i64::MAX as u64 {
                    Some(i64::MIN)
                } else {
                    Some(-(mag as i64))
                }
            },
            None => None,
        }
    } else {
        match parse_unsigned(s, 0, pos_max) {
            Some(v) => {
                proof {
                    assert(s@.skip(0) =~= s@);
                    lemma_dec_value_nonneg(s@);
                }
                Some(v as i64)
            },
            None => {
                proof {
                    assert(s@.skip(0) =~= s@);
                }
                None
            },
        }
    }
}

// ---------------------------------------------------------------------------
// Canonical decimal rendering
// ---------------------------------------------------------------------------

/// The digit character for a value between 0 and 9.
pub open spec fn digit_char(d: int) -> char {
    if d == 0 {
        '0'
    } else if d == 1 {
        '1'
    } else if d == 2 {
        '2'
    } else if d == 3 {
        '3'
    } else if d == 4 {
        '4'
    } else if d == 5 {
        '5'
    } else if d == 6 {
        '6'
    } else if d == 7 {
        '7'
    } else if d == 8 {
        '8'
    } else {
        '9'
    }
}

/// The canonical decimal rendering of a non-negative number: no sign and no
/// leading zeros.
pub open spec fn uint_canon(n: int) -> Seq<char>
    decreases n,
{
    if n < 10 {
        seq![digit_char(n)]
    } else {
        uint_canon(n / 10).push(digit_char(n % 10))
    }
}

/// The canonical decimal rendering of a number: `-` before the magnitude when
/// negative.
pub open spec fn sint_canon(n: int) -> Seq<char> {
    if n < 0 {
        seq!['-'] + uint_canon(-n)
    } else {
        uint_canon(n)
    }
}

fn digit_char_exec(d: u64) -> (c: char)
    requires
        d < 10,
    ensures
        c == digit_char(d as int),
{
    match d {
        0 => '0',
        1 => '1',
        2 => '2',
        3 => '3',
        4 => '4',
        5 => '5',
        6 => '6',
        7 => '7',
        8 => '8',
        _ => '9',
    }
}

/// Renders `n` as its canonical decimal digit string.
pub fn render_u64(n: u64) -> (r: Vec<char>)
    ensures
        r@ == uint_canon(n as int),
    decreases n,
{
    if n < 10 {
        let mut v: Vec<char> = Vec::new();
        v.push(digit_char_exec(n));
        assert(v@ =~= uint_canon(n as int));
        v
    } else {
        let mut v = render_u64(n / 10);
        v.push(digit_char_exec(n % 10));
        v
    }
}

/// Renders `n` as its canonical decimal form, `-` first when negative.
pub fn render_i64(n: i64) -> (r: Vec<char>)
    ensures
        r@ == sint_canon(n as int),
{
    if n >= 0 {
        render_u64(n as u64)
    } else {
        let mag: u64 = if n == i64::MIN {
            9223372036854775808u64
        } else {
            (-n) as u64
        };
        assert(mag as int == -(n as int));
        let mut v: Vec<char> = Vec::new();
        v.push('-');
        let mut digits = render_u64(mag);
        v.append(&mut digits);
        assert(v@ =~= sint_canon(n as int));
        v
    }
}

/// A canonical decimal rendering is itself a valid unsigned literal, and
/// denotes the number it was rendered from.
pub proof fn lemma_uint_canon_round_trip(n: int)
    requires
        n >= 0,
    ensures
        is_uint_literal(uint_canon(n)),
        dec_value(uint_canon(n)) == n,
    decreases n,
{
    if n < 10 {
        let s = uint_canon(n);
        assert(s.len() == 1);
        assert(s[0] == digit_char(n));
        assert(is_dec_digit(s[0]));
        assert(s.drop_last() =~= Seq::<char>::empty());
        assert(dec_value(Seq::<char>::empty()) == 0);
        assert(dec_value(s) == digit_val(digit_char(n)));
    } else {
        lemma_uint_canon_round_trip(n / 10);
        let p = uint_canon(n / 10);
        let s = uint_canon(n);
        assert(s == p.push(digit_char(n % 10)));
        assert(s.drop_last() =~= p);
        assert(s.last() == digit_char(n % 10));
        assert(dec_value(s) == (n / 10) * 10 + (n % 10));
        assert(all_dec_digits(s)) by {
            assert(forall|i: int| 0 <= i < p.len() ==> s[i] == #[trigger] p[i]);
            assert(is_dec_digit(digit_char(n % 10)));
        }
        assert(s[0] == p[0]);
        assert(dec_value(p) == n / 10 >= 1);
        if p.len() == 1 {
            assert(p.drop_last() =~= Seq::<char>::empty());
            assert(dec_value(Seq::<char>::empty()) == 0);
            assert(dec_value(p) == digit_val(p[0]));
            assert(p[0] != '0');
        }
    }
}

/// A canonical signed rendering is a valid signed literal for its number.
pub proof fn lemma_sint_canon_round_trip(n: int)
    ensures
        is_sint_literal(sint_canon(n)),
        sint_value(sint_canon(n)) == n,
{
    if n < 0 {
        lemma_uint_canon_round_trip(-n);
        let s = sint_canon(n);
        assert(s[0] == '-');
        assert(s.skip(1) =~= uint_canon(-n));
    } else {
        lemma_uint_canon_round_trip(n);
        let s = sint_canon(n);
        assert(s == uint_canon(n));
        if s.len() > 0 && s[0] == '-' {
            assert(is_dec_digit(s[0]));
            assert(false);
        }
    }
}

// ---------------------------------------------------------------------------
// Hexadecimal digits, for `\u{...}` escapes
// ---------------------------------------------------------------------------

/// `c` is a hexadecimal digit, in either case.
pub open spec fn is_hex_digit(c: char) -> bool {
    ||| is_dec_digit(c)
    ||| ('a' as u32 <= c as u32 && c as u32 <= 'f' as u32)
    ||| ('A' as u32 <= c as u32 && c as u32 <= 'F' as u32)
}

/// The numeric value of a hexadecimal digit.
pub open spec fn hex_digit_val(c: char) -> int {
    if is_dec_digit(c) {
        digit_val(c)
    } else if 'a' as u32 <= c as u32 && c as u32 <= 'f' as u32 {
        c as u32 - 'a' as u32 + 10
    } else {
        c as u32 - 'A' as u32 + 10
    }
}

/// The number denoted by a hexadecimal digit string.
pub open spec fn hex_value(s: Seq<char>) -> int
    decreases s.len(),
{
    if s.len() == 0 {
        0
    } else {
        hex_value(s.drop_last()) * 16 + hex_digit_val(s.last())
    }
}

/// The length of the run of hexadecimal digits starting at position `i`.
pub open spec fn hex_digit_count(s: Seq<char>, i: int) -> int
    decreases s.len() - i
        when 0 <= i <= s.len()
{
    if i < s.len() && is_hex_digit(s[i]) {
        1 + hex_digit_count(s, i + 1)
    } else {
        0
    }
}

/// 16 to the `k`th power.
pub open spec fn pow16(k: nat) -> int
    decreases k,
{
    if k == 0 {
        1
    } else {
        16 * pow16((k - 1) as nat)
    }
}

proof fn lemma_pow16_mono(a: nat, b: nat)
    requires
        a <= b,
    ensures
        0 < pow16(a) <= pow16(b),
    decreases b,
{
    if b > 0 {
        if a == b {
            lemma_pow16_mono(0, (b - 1) as nat);
        } else {
            lemma_pow16_mono(a, (b - 1) as nat);
        }
    }
}

proof fn lemma_hex_value_nonneg(s: Seq<char>)
    requires
        forall|j: int| 0 <= j < s.len() ==> is_hex_digit(#[trigger] s[j]),
    ensures
        hex_value(s) >= 0,
    decreases s.len(),
{
    if s.len() > 0 {
        lemma_hex_value_nonneg(s.drop_last());
    }
}

proof fn lemma_hex_count_run(s: Seq<char>, a: int, b: int)
    requires
        0 <= a <= b <= s.len(),
        forall|j: int| a <= j < b ==> is_hex_digit(#[trigger] s[j]),
        b == s.len() || !is_hex_digit(s[b]),
    ensures
        hex_digit_count(s, a) == b - a,
    decreases b - a,
{
    if a < b {
        lemma_hex_count_run(s, a + 1, b);
    }
}

proof fn lemma_hex_count_nonneg(s: Seq<char>, i: int)
    requires
        0 <= i <= s.len(),
    ensures
        hex_digit_count(s, i) >= 0,
    decreases s.len() - i,
{
    if i < s.len() && is_hex_digit(s[i]) {
        lemma_hex_count_nonneg(s, i + 1);
    }
}

proof fn lemma_hex_count_at_least(s: Seq<char>, a: int, b: int)
    requires
        0 <= a <= b <= s.len(),
        forall|j: int| a <= j < b ==> is_hex_digit(#[trigger] s[j]),
    ensures
        hex_digit_count(s, a) >= b - a,
    decreases b - a,
{
    if a < b {
        assert(is_hex_digit(s[a]));
        lemma_hex_count_at_least(s, a + 1, b);
        assert(hex_digit_count(s, a) == 1 + hex_digit_count(s, a + 1));
    } else {
        lemma_hex_count_nonneg(s, a);
    }
}

// ---------------------------------------------------------------------------
// Escape sequences
// ---------------------------------------------------------------------------

/// Reads one escape sequence at the front of `s` (which must start with a
/// backslash): the escaped character and the number of characters consumed.
pub open spec fn escape_parse(s: Seq<char>) -> Option<(char, int)> {
    if s.len() < 2 || s[0] != '\\' {
        None
    } else if s[1] == '\\' {
        Some(('\\', 2))
    } else if s[1] == '"' {
        Some(('"', 2))
    } else if s[1] == '\'' {
        Some(('\'', 2))
    } else if s[1] == 'n' {
        Some(('\n', 2))
    } else if s[1] == 'r' {
        Some(('\r', 2))
    } else if s[1] == 't' {
        Some(('\t', 2))
    } else if s[1] == 'u' {
        if s.len() >= 4 && s[2] == '{' {
            let k = hex_digit_count(s, 3);
            if 1 <= k && k <= 6 && 3 + k < s.len() && s[3 + k] == '}' {
                let v = hex_value(s.subrange(3, 3 + k));
                if 0 <= v < 0x100000000 && vstd::utf8::is_scalar(v as u32) {
                    Some(((v as u32) as char, 4 + k))
                } else {
                    None
                }
            } else {
                None
            }
        } else {
            None
        }
    } else {
        None
    }
}

/// Decodes the inner text of a quoted string: raw characters other than a
/// quote, backslash or newline, and escape sequences.
pub open spec fn unescape_inner(s: Seq<char>) -> Option<Seq<char>>
    decreases s.len(),
{
    if s.len() == 0 {
        Some(Seq::<char>::empty())
    } else if s[0] == '\\' {
        match escape_parse(s) {
            Some((c, k)) => if 1 <= k && k <= s.len() {
                match unescape_inner(s.skip(k)) {
                    Some(t) => Some(seq![c] + t),
                    None => None,
                }
            } else {
                None
            },
            None => None,
        }
    } else if s[0] == '"' || s[0] == '\n' {
        None
    } else {
        match unescape_inner(s.skip(1)) {
            Some(t) => Some(seq![s[0]] + t),
            None => None,
        }
    }
}

/// `s` is a well-formed double-quoted string literal. The canonical form is
/// the single-line quoted, escaped encoding: a triple-quoted multiline
/// spelling is deliberately not part of the grammar.
pub open spec fn is_string_literal(s: Seq<char>) -> bool {
    &&& s.len() >= 2
    &&& s[0] == '"'
    &&& s.last() == '"'
    &&& unescape_inner(s.subrange(1, s.len() - 1)) is Some
}

/// The character sequence a string literal denotes.
pub open spec fn string_literal_value(s: Seq<char>) -> Seq<char> {
    unescape_inner(s.subrange(1, s.len() - 1))->0
}

/// The character a single-quoted character literal denotes, if well formed.
pub open spec fn char_literal_parse(s: Seq<char>) -> Option<char> {
    if s.len() >= 3 && s[0] == '\'' && s.last() == '\'' {
        let inner = s.subrange(1, s.len() - 1);
        if inner[0] == '\\' {
            match escape_parse(inner) {
                Some((c, k)) => if k == inner.len() {
                    Some(c)
                } else {
                    None
                },
                None => None,
            }
        } else if inner.len() == 1 && inner[0] != '\'' && inner[0] != '\n' {
            Some(inner[0])
        } else {
            None
        }
    } else {
        None
    }
}

// ---------------------------------------------------------------------------
// Canonical escaped rendering
// ---------------------------------------------------------------------------

/// The hexadecimal digit character (lower case) for a value between 0 and 15.
pub open spec fn hex_digit_char(d: int) -> char {
    if d < 10 {
        digit_char(d)
    } else if d == 10 {
        'a'
    } else if d == 11 {
        'b'
    } else if d == 12 {
        'c'
    } else if d == 13 {
        'd'
    } else if d == 14 {
        'e'
    } else {
        'f'
    }
}

/// The canonical hexadecimal rendering of a non-negative number.
pub open spec fn hex_canon(n: int) -> Seq<char>
    decreases n,
{
    if n < 16 {
        seq![hex_digit_char(n)]
    } else {
        hex_canon(n / 16).push(hex_digit_char(n % 16))
    }
}

/// A control character: the Unicode `Cc` category.
pub open spec fn is_control_char(c: char) -> bool {
    (c as u32) < 0x20 || (0x7f <= c as u32 && c as u32 <= 0x9f)
}

/// The canonical rendering of one character inside a quoted literal.
pub open spec fn escape_char(c: char) -> Seq<char> {
    if c == '\\' {
        seq!['\\', '\\']
    } else if c == '"' {
        seq!['\\', '"']
    } else if c == '\'' {
        seq!['\\', '\'']
    } else if c == '\n' {
        seq!['\\', 'n']
    } else if c == '\r' {
        seq!['\\', 'r']
    } else if c == '\t' {
        seq!['\\', 't']
    } else if is_control_char(c) {
        seq!['\\', 'u', '{'] + hex_canon((c as u32) as int) + seq!['}']
    } else {
        seq![c]
    }
}

/// The canonical rendering of the inner text of a quoted literal.
pub open spec fn escape_seq(s: Seq<char>) -> Seq<char>
    decreases s.len(),
{
    if s.len() == 0 {
        Seq::<char>::empty()
    } else {
        escape_char(s[0]) + escape_seq(s.drop_first())
    }
}

/// The canonical double-quoted rendering of a character sequence.
pub open spec fn string_canon(s: Seq<char>) -> Seq<char> {
    seq!['"'] + escape_seq(s) + seq!['"']
}

/// The canonical single-quoted rendering of a character.
pub open spec fn char_canon(c: char) -> Seq<char> {
    seq!['\''] + escape_char(c) + seq!['\'']
}

// ---------------------------------------------------------------------------
// Executable escape handling
// ---------------------------------------------------------------------------

/// Relies on char::from_u32: it returns a character exactly for Unicode
/// scalar values, and that character's code point is the given value.
#[verifier::external_body]
fn char_from_scalar(u: u32) -> (r: Option<char>)
    ensures
        r is Some <==> vstd::utf8::is_scalar(u),
        r is Some ==> r->0 as u32 == u,
{
    char::from_u32(u)
}

fn is_hex_exec(c: char) -> (b: bool)
    ensures
        b == is_hex_digit(c),
{
    let u = c as u32;
    ('0' as u32 <= u && u <= '9' as u32) || ('a' as u32 <= u && u <= 'f' as u32) || ('A' as u32
        <= u && u <= 'F' as u32)
}

fn hex_val_exec(c: char) -> (r: Option<u32>)
    ensures
        r is Some <==> is_hex_digit(c),
        r is Some ==> r->0 as int == hex_digit_val(c),
{
    let u = c as u32;
    if '0' as u32 <= u && u <= '9' as u32 {
        Some(u - '0' as u32)
    } else if 'a' as u32 <= u && u <= 'f' as u32 {
        Some(u - 'a' as u32 + 10)
    } else if 'A' as u32 <= u && u <= 'F' as u32 {
        Some(u - 'A' as u32 + 10)
    } else {
        None
    }
}

/// Reads one escape sequence of `s` starting at position `i`, looking no
/// further than position `end`.
#[verifier::loop_isolation(false)]
fn escape_parse_exec(s: &Vec<char>, i: usize, end: usize) -> (r: Option<(char, usize)>)
    requires
        i < end,
        end <= s@.len(),
        s@[i as int] == '\\',
    ensures
        ({
            let sub = s@.subrange(i as int, end as int);
            match r {
                Some(p) => escape_parse(sub) == Some((p.0, p.1 as int)),
                None => escape_parse(sub) is None,
            }
        }),
{
    let ghost sub = s@.subrange(i as int, end as int);
    if i + 1 >= end {
        proof {
            assert(sub.len() < 2);
        }
        return None;
    }
    assert(sub[0] == '\\');
    assert(sub[1] == s@[i + 1]);
    let e = s[i + 1];
    match e {
        '\\' => Some(('\\', 2)),
        '"' => Some(('"', 2)),
        '\'' => Some(('\'', 2)),
        'n' => Some(('\n', 2)),
        'r' => Some(('\r', 2)),
        't' => Some(('\t', 2)),
        'u' => {
            if end - i < 4 {
                return None;
            }
            assert(sub[2] == s@[i + 2]);
            if s[i + 2] != '{' {
                return None;
            }
            let mut j: usize = i + 3;
            let mut v: u32 = 0;
            while j < end && is_hex_exec(s[j])
                invariant
                    i + 3 <= j <= end,
                    forall|q: int| i + 3 <= q < j ==> is_hex_digit(#[trigger] s@[q]),
                    v as int == hex_value(s@.subrange(i as int + 3, j as int)),
                    j - i - 3 <= 6,
                    (v as int) < pow16((j - i - 3) as nat),
                decreases end - j,
            {
                if j - i - 3 == 6 {
                    // a seventh digit: the hexadecimal run is too long
                    proof {
                        assert(forall|q: int| 3 <= q < 10 ==> is_hex_digit(#[trigger] sub[q]));
                        lemma_hex_count_at_least(sub, 3, 10);
                    }
                    return None;
                }
                let d = match hex_val_exec(s[j]) {
                    Some(d) => d,
                    None => 0,
                };
                proof {
                    lemma_pow16_mono((j - i - 3 + 1) as nat, 6);
                    assert(pow16(0) == 1);
                    assert(pow16(1) == 16);
                    assert(pow16(2) == 256);
                    assert(pow16(3) == 4096);
                    assert(pow16(4) == 65536);
                    assert(pow16(5) == 1048576);
                    assert(pow16(6) == 16777216);
                    assert(s@.subrange(i as int + 3, j as int + 1).drop_last() =~= s@.subrange(
                        i as int + 3,
                        j as int,
                    ));
                    assert(s@.subrange(i as int + 3, j as int + 1).last() == s@[j as int]);
                }
                v = v * 16 + d;
                j = j + 1;
            }
            let cnt = j - i - 3;
            proof {
                assert(forall|q: int| 3 <= q < j - i ==> is_hex_digit(#[trigger] sub[q]));
                assert(j - i == sub.len() || !is_hex_digit(sub[j - i]));
                lemma_hex_count_run(sub, 3, j as int - i);
            }
            if cnt == 0 {
                return None;
            }
            if j >= end {
                return None;
            }
            assert(sub[j - i] == s@[j as int]);
            if s[j] != '}' {
                return None;
            }
            assert(sub.subrange(3, 3 + cnt as int) =~= s@.subrange(i as int + 3, j as int));
            match char_from_scalar(v) {
                Some(c) => {
                    proof {
                        vstd::utf8::char_u32_cast(c, v);
                    }
                    Some((c, cnt + 4))
                },
                None => None,
            }
        },
        _ => None,
    }
}

/// Decodes the characters of `s` between `from` and `to` as the inner text of
/// a quoted string.
pub fn unescape_exec(s: &Vec<char>, from: usize, to: usize) -> (r: Option<Vec<char>>)
    requires
        from <= to <= s@.len(),
    ensures
        ({
            let inner = s@.subrange(from as int, to as int);
            match r {
                Some(v) => unescape_inner(inner) == Some(v@),
                None => unescape_inner(inner) is None,
            }
        }),
{
    let ghost inner = s@.subrange(from as int, to as int);
    let mut out: Vec<char> = Vec::new();
    let mut i = from;
    while i < to
        invariant
            from <= i <= to <= s@.len(),
            inner == s@.subrange(from as int, to as int),
            unescape_inner(inner) == (match unescape_inner(s@.subrange(i as int, to as int)) {
                Some(t) => Some(out@ + t),
                None => None::<Seq<char>>,
            }),
        decreases to - i,
    {
        let ghost rem = s@.subrange(i as int, to as int);
        assert(rem[0] == s@[i as int]);
        let c = s[i];
        if c == '\\' {
            match escape_parse_exec(s, i, to) {
                Some((ch, k)) => {
                    proof {
                        assert(escape_parse(rem) == Some((ch, k as int)));
                        assert(1 <= k as int <= rem.len());
                        assert(rem.skip(k as int) =~= s@.subrange(i as int + k as int, to as int));
                    }
                    let ghost old_out = out@;
                    out.push(ch);
                    proof {
                        if unescape_inner(s@.subrange(i as int + k as int, to as int)) is Some {
                            let t = unescape_inner(
                                s@.subrange(i as int + k as int, to as int),
                            )->0;
                            assert(old_out + (seq![ch] + t) =~= out@ + t);
                        }
                    }
                    i = i + k;
                },
                None => {
                    return None;
                },
            }
        } else if c == '"' || c == '\n' {
            return None;
        } else {
            proof {
                assert(rem.skip(1) =~= s@.subrange(i as int + 1, to as int));
            }
            let ghost old_out = out@;
            out.push(c);
            proof {
                if unescape_inner(s@.subrange(i as int + 1, to as int)) is Some {
                    let t = unescape_inner(s@.subrange(i as int + 1, to as int))->0;
                    assert(old_out + (seq![c] + t) =~= out@ + t);
                }
            }
            i = i + 1;
        }
    }
    proof {
        assert(s@.subrange(i as int, to as int) =~= Seq::<char>::empty());
        assert(unescape_inner(Seq::<char>::empty()) == Some(Seq::<char>::empty()));
        assert(out@ + Seq::<char>::empty() =~= out@);
    }
    Some(out)
}

/// Parses the whole of `s` as a double-quoted string literal.
pub fn parse_string_literal(s: &Vec<char>) -> (r: Option<Vec<char>>)
    ensures
        r is Some <==> is_string_literal(s@),
        r is Some ==> r->0@ == string_literal_value(s@),
{
    let len = s.len();
    if len < 2 {
        return None;
    }
    if s[0] != '"' {
        return None;
    }
    if s[len - 1] != '"' {
        return None;
    }
    unescape_exec(s, 1, len - 1)
}

/// Parses the whole of `s` as a single-quoted character literal.
pub fn parse_char_literal(s: &Vec<char>) -> (r: Option<char>)
    ensures
        r == char_literal_parse(s@),
{
    let len = s.len();
    if len < 3 {
        return None;
    }
    if s[0] != '\'' {
        return None;
    }
    if s[len - 1] != '\'' {
        return None;
    }
    let ghost inner = s@.subrange(1, s@.len() - 1);
    assert(inner[0] == s@[1]);
    if s[1] == '\\' {
        match escape_parse_exec(s, 1, len - 1) {
            Some((c, k)) => {
                assert(s@.subrange(1, (len - 1) as int) =~= inner);
                if k == len - 2 {
                    Some(c)
                } else {
                    None
                }
            },
            None => {
                assert(s@.subrange(1, (len - 1) as int) =~= inner);
                None
            },
        }
    } else if len == 3 && s[1] != '\'' && s[1] != '\n' {
        Some(s[1])
    } else {
        None
    }
}

fn hex_digit_char_exec(d: u32) -> (c: char)
    requires
        d < 16,
    ensures
        c == hex_digit_char(d as int),
{
    match d {
        0 => '0',
        1 => '1',
        2 => '2',
        3 => '3',
        4 => '4',
        5 => '5',
        6 => '6',
        7 => '7',
        8 => '8',
        9 => '9',
        10 => 'a',
        11 => 'b',
        12 => 'c',
        13 => 'd',
        14 => 'e',
        _ => 'f',
    }
}

fn render_hex_u32(n: u32) -> (r: Vec<char>)
    ensures
        r@ == hex_canon(n as int),
    decreases n,
{
    if n < 16 {
        let mut v: Vec<char> = Vec::new();
        v.push(hex_digit_char_exec(n));
        assert(v@ =~= hex_canon(n as int));
        v
    } else {
        let mut v = render_hex_u32(n / 16);
        v.push(hex_digit_char_exec(n % 16));
        v
    }
}

/// Appends the canonical escaped rendering of `c` to `out`.
fn push_escaped(out: &mut Vec<char>, c: char)
    ensures
        final(out)@ == old(out)@ + escape_char(c),
{
    let ghost start = out@;
    match c {
        '\\' => {
            out.push('\\');
            out.push('\\');
            assert(out@ =~= start + escape_char(c));
        },
        '"' => {
            out.push('\\');
            out.push('"');
            assert(out@ =~= start + escape_char(c));
        },
        '\'' => {
            out.push('\\');
            out.push('\'');
            assert(out@ =~= start + escape_char(c));
        },
        '\n' => {
            out.push('\\');
            out.push('n');
            assert(out@ =~= start + escape_char(c));
        },
        '\r' => {
            out.push('\\');
            out.push('r');
            assert(out@ =~= start + escape_char(c));
        },
        '\t' => {
            out.push('\\');
            out.push('t');
            assert(out@ =~= start + escape_char(c));
        },
        _ => {
            let u = c as u32;
            if u < 0x20 || (0x7f <= u && u <= 0x9f) {
                out.push('\\');
                out.push('u');
                out.push('{');
                let mut h = render_hex_u32(u);
                out.append(&mut h);
                out.push('}');
                assert(out@ =~= start + escape_char(c));
            } else {
                out.push(c);
                assert(out@ =~= start + escape_char(c));
            }
        },
    }
}

proof fn lemma_escape_seq_push(t: Seq<char>, c: char)
    ensures
        escape_seq(t.push(c)) == escape_seq(t) + escape_char(c),
    decreases t.len(),
{
    if t.len() == 0 {
        assert(t.push(c)[0] == c);
        assert(t.push(c).drop_first() =~= Seq::<char>::empty());
        assert(escape_seq(Seq::<char>::empty()) =~= Seq::<char>::empty());
        assert(escape_seq(t.push(c)) =~= escape_seq(t) + escape_char(c));
    } else {
        assert(t.push(c).drop_first() =~= t.drop_first().push(c));
        lemma_escape_seq_push(t.drop_first(), c);
        assert(t.push(c)[0] == t[0]);
        assert(escape_char(t[0]) + (escape_seq(t.drop_first()) + escape_char(c)) =~= (escape_char(
            t[0],
        ) + escape_seq(t.drop_first())) + escape_char(c));
    }
}

/// Renders the inner text of a quoted literal, escaping as needed.
fn escape_all(s: &Vec<char>) -> (out: Vec<char>)
    ensures
        out@ == escape_seq(s@),
{
    let mut out: Vec<char> = Vec::new();
    let mut i: usize = 0;
    while i < s.len()
        invariant
            i <= s@.len(),
            out@ == escape_seq(s@.take(i as int)),
        decreases s@.len() - i,
    {
        proof {
            lemma_escape_seq_push(s@.take(i as int), s@[i as int]);
            assert(s@.take(i as int + 1) =~= s@.take(i as int).push(s@[i as int]));
        }
        push_escaped(&mut out, s[i]);
        i = i + 1;
    }
    assert(s@.take(i as int) =~= s@);
    out
}

/// Renders `s` as a double-quoted, escaped string literal.
pub fn render_string_literal(s: &Vec<char>) -> (r: Vec<char>)
    ensures
        r@ == string_canon(s@),
{
    let mut out: Vec<char> = Vec::new();
    out.push('"');
    let mut body = escape_all(s);
    out.append(&mut body);
    out.push('"');
    assert(out@ =~= string_canon(s@));
    out
}

/// Renders `c` as a single-quoted, escaped character literal.
pub fn render_char_literal(c: char) -> (r: Vec<char>)
    ensures
        r@ == char_canon(c),
{
    let mut out: Vec<char> = Vec::new();
    out.push('\'');
    push_escaped(&mut out, c);
    out.push('\'');
    assert(out@ =~= char_canon(c));
    out
}

// ---------------------------------------------------------------------------
// Escaping round trips
// ---------------------------------------------------------------------------

proof fn lemma_hex_canon_round_trip(n: int)
    requires
        n >= 0,
    ensures
        hex_canon(n).len() >= 1,
        forall|j: int| 0 <= j < hex_canon(n).len() ==> is_hex_digit(#[trigger] hex_canon(n)[j]),
        hex_value(hex_canon(n)) == n,
    decreases n,
{
    if n < 16 {
        let s = hex_canon(n);
        assert(s[0] == hex_digit_char(n));
        assert(is_hex_digit(s[0]));
        assert(s.drop_last() =~= Seq::<char>::empty());
        assert(hex_value(Seq::<char>::empty()) == 0);
        assert(hex_digit_val(hex_digit_char(n)) == n);
    } else {
        lemma_hex_canon_round_trip(n / 16);
        let p = hex_canon(n / 16);
        let s = hex_canon(n);
        assert(s == p.push(hex_digit_char(n % 16)));
        assert(s.drop_last() =~= p);
        assert(s.last() == hex_digit_char(n % 16));
        assert(is_hex_digit(hex_digit_char(n % 16)));
        assert(forall|j: int| 0 <= j < p.len() ==> s[j] == #[trigger] p[j]);
        assert(hex_value(s) == (n / 16) * 16 + (n % 16));
    }
}

proof fn lemma_hex_canon_len(n: int, k: nat)
    requires
        0 <= n < pow16(k),
        k >= 1,
    ensures
        hex_canon(n).len() <= k,
    decreases k,
{
    if n < 16 {
    } else {
        assert(pow16(k) == 16 * pow16((k - 1) as nat));
        lemma_hex_canon_len(n / 16, (k - 1) as nat);
    }
}

proof fn lemma_escape_parse_of_escape_char(c: char, rest: Seq<char>)
    requires
        escape_char(c).len() >= 2,
    ensures
        escape_parse(escape_char(c) + rest) == Some((c, escape_char(c).len() as int)),
{
    broadcast use vstd::utf8::char_is_scalar, vstd::utf8::char_u32_cast;

    let e = escape_char(c);
    let s = e + rest;
    if c == '\\' || c == '"' || c == '\'' || c == '\n' || c == '\r' || c == '\t' {
        assert(s[0] == '\\');
        assert(s[1] == e[1]);
    } else {
        assert(is_control_char(c));
        let u = (c as u32) as int;
        let h = hex_canon(u);
        lemma_hex_canon_round_trip(u);
        assert(pow16(0) == 1);
        assert(pow16(1) == 16);
        assert(pow16(2) == 256);
        assert(pow16(3) == 4096);
        assert(pow16(4) == 65536);
        assert(pow16(5) == 1048576);
        assert(pow16(6) == 16777216);
        lemma_hex_canon_len(u, 6);
        let hl = h.len() as int;
        assert(e == seq!['\\', 'u', '{'] + h + seq!['}']);
        assert(s[0] == '\\');
        assert(s[1] == 'u');
        assert(s[2] == '{');
        assert(forall|q: int| 0 <= q < hl ==> s[3 + q] == #[trigger] h[q]);
        assert(s[3 + hl] == '}');
        assert(!is_hex_digit('}'));
        assert(forall|q: int| 3 <= q < 3 + hl ==> is_hex_digit(#[trigger] s[q]));
        lemma_hex_count_run(s, 3, 3 + hl);
        assert(hex_digit_count(s, 3) == hl);
        assert(s.subrange(3, 3 + hl) =~= h);
        assert(hex_value(s.subrange(3, 3 + hl)) == u);
        assert(vstd::utf8::is_scalar(c as u32));
        assert((u as u32) as char == c);
        assert(escape_parse(s) == Some((c, 4 + hl)));
        assert(e.len() == 4 + hl);
    }
}

/// Decoding inverts canonical escaping: the rendered inner text of a quoted
/// string parses back to exactly the original characters.
pub proof fn lemma_unescape_escape(t: Seq<char>)
    ensures
        unescape_inner(escape_seq(t)) == Some(t),
    decreases t.len(),
{
    if t.len() == 0 {
        assert(t =~= Seq::<char>::empty());
    } else {
        let c = t[0];
        let e = escape_char(c);
        let rest = escape_seq(t.drop_first());
        let s = escape_seq(t);
        assert(s == e + rest);
        lemma_unescape_escape(t.drop_first());
        if e.len() == 1 {
            assert(e[0] == c);
            assert(c != '\\' && c != '"' && c != '\n');
            assert(s[0] == c);
            assert(s.skip(1) =~= rest);
            assert(seq![c] + t.drop_first() =~= t);
        } else {
            assert(e[0] == '\\');
            assert(s[0] == '\\');
            lemma_escape_parse_of_escape_char(c, rest);
            assert(escape_parse(s) == Some((c, e.len() as int)));
            assert(1 <= e.len() <= s.len());
            assert(s.skip(e.len() as int) =~= rest);
            assert(seq![c] + t.drop_first() =~= t);
        }
    }
}

/// The canonical string rendering is a well-formed string literal denoting
/// exactly the rendered characters.
pub proof fn lemma_string_canon_round_trip(t: Seq<char>)
    ensures
        is_string_literal(string_canon(t)),
        string_literal_value(string_canon(t)) == t,
{
    let s = string_canon(t);
    assert(s[0] == '"');
    assert(s.last() == '"');
    assert(s.subrange(1, s.len() - 1) =~= escape_seq(t));
    lemma_unescape_escape(t);
}

/// The canonical character rendering is a well-formed character literal
/// denoting exactly the rendered character.
pub proof fn lemma_char_canon_round_trip(c: char)
    ensures
        char_literal_parse(char_canon(c)) == Some(c),
{
    let s = char_canon(c);
    let e = escape_char(c);
    assert(s[0] == '\'');
    assert(s.last() == '\'');
    let inner = s.subrange(1, s.len() - 1);
    assert(inner =~= e);
    if e.len() == 1 {
        assert(e[0] == c);
        assert(c != '\'' && c != '\n' && c != '\\');
        assert(inner[0] == c);
    } else {
        assert(e[0] == '\\');
        assert(inner[0] == '\\');
        lemma_escape_parse_of_escape_char(c, Seq::<char>::empty());
        assert(e + Seq::<char>::empty() =~= e);
        assert(escape_parse(inner) == Some((c, e.len() as int)));
    }
}

// ---------------------------------------------------------------------------
// Strings and character vectors
// ---------------------------------------------------------------------------

/// The characters of `s`, in order, as a vector.
pub fn chars_of(s: &str) -> (r: Vec<char>)
    ensures
        r@ == s@,
{
    let n = s.unicode_len();
    let mut r: Vec<char> = Vec::new();
    let mut i: usize = 0;
    while i < n
        invariant
            i <= n,
            n == s@.len(),
            r@ == s@.take(i as int),
        decreases n - i,
    {
        r.push(s.get_char(i));
        proof {
            assert(s@.take(i as int + 1) =~= s@.take(i as int).push(s@[i as int]));
        }
        i = i + 1;
    }
    assert(s@.take(i as int) =~= s@);
    r
}

/// Relies on String's FromIterator over characters: collecting yields a
/// string holding exactly the iterated characters, in order.
#[verifier::external_body]
pub(crate) fn string_from_chars(v: &Vec<char>) -> (s: String)
    ensures
        s@ == v@,
{
    v.iter().collect()
}

} // verus!
