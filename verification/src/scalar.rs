//! Classification of a raw input value as the JSON value it stands for:
//! `true`/`false` are booleans, decimal integers are integers, values that
//! parse as finite floating-point numbers are numbers, JSON-shaped values
//! that parse as JSON are JSON, and everything else stays a string.
use vstd::prelude::*;

use crate::text::{chars_of, decimal, digit_char, lemma_decimal_digits, str_equals};

verus! {

/// An ASCII decimal digit.
pub open spec fn is_digit(c: char) -> bool {
    '0' <= c && c <= '9'
}

/// Every character is an ASCII decimal digit.
pub open spec fn all_digits(d: Seq<char>) -> bool {
    forall|i: int| 0 <= i < d.len() ==> is_digit(#[trigger] d[i])
}

/// The value of a string of decimal digits.
pub open spec fn digits_value(d: Seq<char>) -> int
    decreases d.len(),
{
    if d.len() == 0 {
        0
    } else {
        digits_value(d.drop_last()) * 10 + (d.last() as int - '0' as int)
    }
}

/// The `i64` that a string denotes in the grammar of `i64::from_str`: an
/// optional `+` or `-`, then one or more decimal digits, with the value in
/// range; none otherwise.
pub open spec fn parsed_i64(s: Seq<char>) -> Option<i64> {
    let signed = s.len() > 0 && (s[0] == '-' || s[0] == '+');
    let digits = if signed {
        s.drop_first()
    } else {
        s
    };
    let magnitude = digits_value(digits);
    let value = if s.len() > 0 && s[0] == '-' {
        -magnitude
    } else {
        magnitude
    };
    if digits.len() > 0 && all_digits(digits) && i64::MIN <= value <= i64::MAX {
        Some(value as i64)
    } else {
        None
    }
}

/// A white-space character in the sense of `char::is_whitespace` (the
/// Unicode `White_Space` property).
pub open spec fn is_white_space(c: char) -> bool {
    ('\t' <= c && c <= '\r') || c == ' ' || c == '\u{85}' || c == '\u{a0}' || c == '\u{1680}'
        || ('\u{2000}' <= c && c <= '\u{200a}') || c == '\u{2028}' || c == '\u{2029}' || c
        == '\u{202f}' || c == '\u{205f}' || c == '\u{3000}'
}

/// The first character that is not white space, if any.
pub open spec fn first_non_white(s: Seq<char>) -> Option<char>
    decreases s.len(),
{
    if s.len() == 0 {
        None
    } else if is_white_space(s[0]) {
        first_non_white(s.drop_first())
    } else {
        Some(s[0])
    }
}

/// After leading white space, the value starts with `{` or `[`.
pub open spec fn json_shaped(s: Seq<char>) -> bool {
    first_non_white(s) == Some('{') || first_non_white(s) == Some('[')
}

/// Whether `serde_json` parses the text as a JSON document.
pub uninterp spec fn json_text_is_valid(text: Seq<char>) -> bool;

/// Whether the text is a JSON document.
///
/// Trusted: calls `serde_json::from_str::<serde_json::Value>` and reports
/// whether it returned `Ok`. The contract names that answer and states
/// nothing more of it; it depends on the text alone.
#[verifier::external_body]
fn is_json_text(text: &str) -> (r: bool)
    ensures
        r == json_text_is_valid(text@),
{
    serde_json::from_str::<serde_json::Value>(text).is_ok()
}

/// What a raw value is taken for.
#[derive(Debug, Clone, Copy, PartialEq, Eq)]
pub enum ScalarKind {
    Bool(bool),
    Integer(i64),
    Float,
    Json,
    Text,
}

/// The kind of a raw value: `true`/`false` first, then an `i64`, then a
/// finite float (`finite_float`), then JSON when the value is JSON-shaped
/// and valid (`valid_json`), else a string.
pub open spec fn scalar_kind(s: Seq<char>, finite_float: bool, valid_json: bool) -> ScalarKind {
    if s == seq!['t', 'r', 'u', 'e'] {
        ScalarKind::Bool(true)
    } else if s == seq!['f', 'a', 'l', 's', 'e'] {
        ScalarKind::Bool(false)
    } else if parsed_i64(s) is Some {
        ScalarKind::Integer(parsed_i64(s).unwrap())
    } else if finite_float {
        ScalarKind::Float
    } else if json_shaped(s) && valid_json {
        ScalarKind::Json
    } else {
        ScalarKind::Text
    }
}

/// A raw input value, classified. The text-carrying variants hold the raw
/// value: a number to read as a float, a JSON document, or a plain string.
#[derive(Debug, Clone, PartialEq, Eq)]
pub enum InputValue {
    Bool(bool),
    Integer(i64),
    Float(String),
    Json(String),
    Text(String),
}

/// `v` is the value of the raw text `s` of the given kind.
pub open spec fn describes(v: InputValue, s: Seq<char>, kind: ScalarKind) -> bool {
    match kind {
        ScalarKind::Bool(b) => v == InputValue::Bool(b),
        ScalarKind::Integer(n) => v == InputValue::Integer(n),
        ScalarKind::Float => v matches InputValue::Float(t) && t@ == s,
        ScalarKind::Json => v matches InputValue::Json(t) && t@ == s,
        ScalarKind::Text => v matches InputValue::Text(t) && t@ == s,
    }
}

proof fn lemma_digits_value_nonnegative(d: Seq<char>)
    requires
        all_digits(d),
    ensures
        digits_value(d) >= 0,
    decreases d.len(),
{
    if d.len() > 0 {
        assert(all_digits(d.drop_last())) by {
            assert forall|i: int| 0 <= i < d.drop_last().len() implies is_digit(
                #[trigger] d.drop_last()[i],
            ) by {
                assert(d.drop_last()[i] == d[i]);
            }
        }
        lemma_digits_value_nonnegative(d.drop_last());
        assert(is_digit(d[d.len() - 1]));
    }
}

/// The `i64` that `s` denotes, as `str::parse::<i64>` reads it.
pub fn parse_i64(s: &str) -> (r: Option<i64>)
    ensures
        r == parsed_i64(s@),
{
    let cs = chars_of(s);
    let n = cs.len();
    if n == 0 {
        return None;
    }
    let negative = cs[0] == '-';
    let start: usize = if cs[0] == '-' || cs[0] == '+' {
        1
    } else {
        0
    };
    let ghost digits = if start == 1 {
        s@.drop_first()
    } else {
        s@
    };
    assert(digits =~= s@.skip(start as int));
    if start == n {
        assert(digits.len() == 0);
        return None;
    }
    let limit: u128 = 9223372036854775808;
    let mut acc: u128 = 0;
    let mut over = false;
    let mut i: usize = start;
    while i < n
        invariant
            start <= i <= n,
            n == s@.len(),
            n > 0,
            start <= 1,
            (start == 1) == (s@[0] == '-' || s@[0] == '+'),
            negative == (s@[0] == '-'),
            cs@ == s@,
            digits == s@.skip(start as int),
            limit == 9223372036854775808,
            all_digits(digits.take(i - start)),
            !over ==> acc == digits_value(digits.take(i - start)) && acc <= limit,
            over ==> digits_value(digits.take(i - start)) > limit,
        decreases n - i,
    {
        let c = cs[i];
        assert(digits[i - start] == c);
        if !('0' <= c && c <= '9') {
            assert(!all_digits(digits));
            assert(digits == if s@[0] == '-' || s@[0] == '+' {
                s@.drop_first()
            } else {
                s@
            });
            return None;
        }
        let d: u128 = ((c as u8) - 48) as u128;
        assert(d as int == c as int - '0' as int);
        let ghost prev = digits.take(i - start);
        let ghost next = digits.take(i + 1 - start);
        assert(next.drop_last() =~= prev);
        assert(next.last() == c);
        assert(digits_value(next) == digits_value(prev) * 10 + d);
        assert(all_digits(next)) by {
            assert forall|j: int| 0 <= j < next.len() implies is_digit(#[trigger] next[j]) by {
                if j < prev.len() {
                    assert(next[j] == prev[j]);
                }
            }
        }
        proof {
            lemma_digits_value_nonnegative(prev);
        }
        if !over {
            let candidate = acc * 10 + d;
            if candidate > limit {
                over = true;
            } else {
                acc = candidate;
            }
        }
        i = i + 1;
    }
    assert(digits.take(n - start) =~= digits);
    if over {
        return None;
    }
    if negative {
        assert(s@[0] == '-');
        if acc == limit {
            Some(i64::MIN)
        } else {
            let m: i64 = acc as i64;
            Some(-m)
        }
    } else {
        if acc < limit {
            Some(acc as i64)
        } else {
            None
        }
    }
}

/// Whether the value, after leading white space, starts with `{` or `[`.
pub fn is_json_shaped(s: &str) -> (r: bool)
    ensures
        r == json_shaped(s@),
{
    let cs = chars_of(s);
    let n = cs.len();
    let mut i: usize = 0;
    assert(s@.skip(0) =~= s@);
    while i < n
        invariant
            i <= n,
            n == s@.len(),
            cs@ == s@,
            first_non_white(s@) == first_non_white(s@.skip(i as int)),
        decreases n - i,
    {
        let c = cs[i];
        assert(s@.skip(i as int)[0] == c);
        assert(s@.skip(i as int).drop_first() =~= s@.skip(i + 1));
        if !is_white_space_char(c) {
            return c == '{' || c == '[';
        }
        i = i + 1;
    }
    assert(s@.skip(n as int).len() == 0);
    false
}

/// Whether `c` is white space (see `is_white_space`).
pub fn is_white_space_char(c: char) -> (r: bool)
    ensures
        r == is_white_space(c),
{
    ('\t' <= c && c <= '\r') || c == ' ' || c == '\u{85}' || c == '\u{a0}' || c == '\u{1680}'
        || ('\u{2000}' <= c && c <= '\u{200a}') || c == '\u{2028}' || c == '\u{2029}' || c
        == '\u{202f}' || c == '\u{205f}' || c == '\u{3000}'
}

/// Classifies the raw value `s`, given whether it reads as a finite float
/// and whether it is a valid JSON document.
pub fn classify_scalar(s: &str, finite_float: bool, valid_json: bool) -> (r: InputValue)
    ensures
        describes(r, s@, scalar_kind(s@, finite_float, valid_json)),
{
    proof {
        reveal_strlit("true");
        reveal_strlit("false");
        assert("true"@ =~= seq!['t', 'r', 'u', 'e']);
        assert("false"@ =~= seq!['f', 'a', 'l', 's', 'e']);
    }
    if str_equals(s, "true") {
        return InputValue::Bool(true);
    }
    if str_equals(s, "false") {
        return InputValue::Bool(false);
    }
    match parse_i64(s) {
        Some(n) => {
            return InputValue::Integer(n);
        },
        None => {},
    }
    if finite_float {
        return InputValue::Float(String::from_str(s));
    }
    if is_json_shaped(s) && valid_json {
        return InputValue::Json(String::from_str(s));
    }
    InputValue::Text(String::from_str(s))
}

/// Classifies the raw value `s` as the JSON value it stands for, given
/// whether it reads as a finite float; whether a JSON-shaped value is valid
/// JSON is asked of `serde_json`.
pub fn parse_scalar(s: &str, finite_float: bool) -> (r: InputValue)
    ensures
        describes(r, s@, scalar_kind(s@, finite_float, json_text_is_valid(s@))),
{
    let valid_json = if is_json_shaped(s) {
        is_json_text(s)
    } else {
        false
    };
    proof {
        if !json_shaped(s@) {
            assert(scalar_kind(s@, finite_float, valid_json) == scalar_kind(
                s@,
                finite_float,
                json_text_is_valid(s@),
            ));
        }
    }
    classify_scalar(s, finite_float, valid_json)
}

/// The value of the decimal rendering of `n` is `n`.
proof fn lemma_digits_value_of_decimal(n: nat)
    ensures
        digits_value(decimal(n)) == n,
        all_digits(decimal(n)),
    decreases n,
{
    lemma_decimal_digits(n);
    let d = decimal(n);
    assert forall|i: int| 0 <= i < d.len() implies is_digit(#[trigger] d[i]) by {}
    if n < 10 {
        assert(d.drop_last() =~= Seq::<char>::empty());
        assert(digits_value(d.drop_last()) == 0);
        assert(d.last() == digit_char(n));
        assert(digit_char(n) as int == n + 48);
    } else {
        lemma_digits_value_of_decimal(n / 10);
        assert(d.drop_last() =~= decimal(n / 10));
        assert(d.last() == digit_char(n % 10));
        assert(digit_char(n % 10) as int == n % 10 + 48);
        assert(n == (n / 10) * 10 + n % 10);
    }
}

/// Law: what each kind of raw value is taken for. Only the exact texts
/// `true` and `false` are booleans; any other text that reads as an `i64`
/// is that integer; a text taken for a float does not read as an integer or
/// boolean and was said to be a finite float; a text taken for JSON is none
/// of those, is JSON-shaped and valid; everything else is a string.
pub proof fn lemma_scalar_kinds(s: Seq<char>, finite_float: bool, valid_json: bool)
    ensures
        (scalar_kind(s, finite_float, valid_json) == ScalarKind::Bool(true)) <==> s == seq![
            't',
            'r',
            'u',
            'e',
        ],
        (scalar_kind(s, finite_float, valid_json) == ScalarKind::Bool(false)) <==> s == seq![
            'f',
            'a',
            'l',
            's',
            'e',
        ],
        s != seq!['t', 'r', 'u', 'e'] && s != seq!['f', 'a', 'l', 's', 'e'] ==> (
        scalar_kind(s, finite_float, valid_json) is Bool <==> false),
        s != seq!['t', 'r', 'u', 'e'] && s != seq!['f', 'a', 'l', 's', 'e'] && parsed_i64(s) is Some
            ==> scalar_kind(s, finite_float, valid_json) == ScalarKind::Integer(
            parsed_i64(s).unwrap(),
        ),
        scalar_kind(s, finite_float, valid_json) matches ScalarKind::Integer(n) ==> parsed_i64(s)
            == Some(n),
        scalar_kind(s, finite_float, valid_json) is Float ==> finite_float && parsed_i64(s) is None,
        scalar_kind(s, finite_float, valid_json) is Json ==> valid_json && json_shaped(s)
            && !finite_float && parsed_i64(s) is None,
        scalar_kind(s, finite_float, valid_json) is Text ==> !finite_float && parsed_i64(s) is None
            && !(json_shaped(s) && valid_json),
{
}

/// Law: decimal integers are numbers: the decimal rendering of any `n` up
/// to `i64::MAX`, with or without a `-`, reads as that integer, and is taken
/// for that integer whatever the float and JSON answers are.
pub proof fn lemma_decimal_integers_are_integers(n: nat, finite_float: bool, valid_json: bool)
    requires
        n <= i64::MAX,
    ensures
        parsed_i64(decimal(n)) == Some(n as i64),
        parsed_i64(seq!['-'] + decimal(n)) == Some((-(n as int)) as i64),
        scalar_kind(decimal(n), finite_float, valid_json) == ScalarKind::Integer(n as i64),
        scalar_kind(seq!['-'] + decimal(n), finite_float, valid_json) == ScalarKind::Integer(
            (-(n as int)) as i64,
        ),
{
    lemma_digits_value_of_decimal(n);
    let d = decimal(n);
    let m = seq!['-'] + d;
    assert(is_digit(d[0]));
    assert(d[0] != '-' && d[0] != '+');
    assert(m[0] == '-');
    assert(m.drop_first() =~= d);
    assert(d != seq!['t', 'r', 'u', 'e']) by {
        if d == seq!['t', 'r', 'u', 'e'] {
            assert(d[0] == 't');
        }
    }
    assert(d != seq!['f', 'a', 'l', 's', 'e']) by {
        if d == seq!['f', 'a', 'l', 's', 'e'] {
            assert(d[0] == 'f');
        }
    }
    assert(m != seq!['t', 'r', 'u', 'e']) by {
        if m == seq!['t', 'r', 'u', 'e'] {
            assert(m[0] == 't');
        }
    }
    assert(m != seq!['f', 'a', 'l', 's', 'e']) by {
        if m == seq!['f', 'a', 'l', 's', 'e'] {
            assert(m[0] == 'f');
        }
    }
}

} // verus!
