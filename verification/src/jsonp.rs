//! JSON parsing: a recursive-descent parser for the `Value` type.
//!
//! The accepted grammar is standard JSON: `null`, `true`, `false`, numbers,
//! strings with the usual escapes (`\uXXXX` limited to scalar values in the
//! basic plane), arrays, and objects.  A number without fraction or exponent
//! that fits a signed 64-bit integer becomes `Int`; any other number keeps
//! its literal text as `Float`.  A duplicate object key replaces the earlier
//! value in place.  Every function is pinned exactly to its specification
//! mirror, so what the parser returns on any input is fully determined.

use vstd::prelude::*;
use crate::value::{Value, Val, dvs, dvf};

verus! {

broadcast use vstd::std_specs::vec::group_vec_axioms;

/// Relies on char::from_u32: `Some` exactly for valid scalar values
/// (not a surrogate, at most 0x10FFFF), and then the character with
/// that code.
pub assume_specification[ char::from_u32 ](i: u32) -> (r: Option<char>)
    ensures
        if (0xD800 <= i < 0xE000) || i > 0x10FFFF {
            r is None
        } else {
            r == Some(i as char)
        },
;

/// JSON whitespace.
pub open spec fn is_ws(c: char) -> bool {
    c == ' ' || c == '\t' || c == '\n' || c == '\r'
}

/// ASCII decimal digit.
pub open spec fn is_digit(c: char) -> bool {
    '0' <= c && c <= '9'
}

/// First position at or after `i` holding no whitespace.
pub open spec fn spec_skip_ws(s: Seq<char>, i: int) -> int
    decreases s.len() - i,
{
    if 0 <= i < s.len() && is_ws(s[i]) {
        spec_skip_ws(s, i + 1)
    } else {
        i
    }
}

/// First position at or after `i` holding no digit.
pub open spec fn spec_skip_digits(s: Seq<char>, i: int) -> int
    decreases s.len() - i,
{
    if 0 <= i < s.len() && is_digit(s[i]) {
        spec_skip_digits(s, i + 1)
    } else {
        i
    }
}

pub proof fn skip_ws_bounds(s: Seq<char>, i: int)
    requires
        0 <= i <= s.len(),
    ensures
        i <= spec_skip_ws(s, i) <= s.len(),
    decreases s.len() - i,
{
    if i < s.len() && is_ws(s[i]) {
        skip_ws_bounds(s, i + 1);
    }
}

pub proof fn skip_digits_bounds(s: Seq<char>, i: int)
    requires
        0 <= i <= s.len(),
    ensures
        i <= spec_skip_digits(s, i) <= s.len(),
    decreases s.len() - i,
{
    if i < s.len() && is_digit(s[i]) {
        skip_digits_bounds(s, i + 1);
    }
}

/// Where the number token starting exactly at `i` ends, if one does.
pub open spec fn spec_scan_number(s: Seq<char>, i: int) -> Option<int> {
    let a = if 0 <= i < s.len() && s[i] == '-' {
        i + 1
    } else {
        i
    };
    if !(0 <= a < s.len() && is_digit(s[a])) {
        None
    } else {
        let b = if s[a] == '0' {
            a + 1
        } else {
            spec_skip_digits(s, a)
        };
        let c = if b < s.len() && s[b] == '.' {
            if b + 1 < s.len() && is_digit(s[b + 1]) {
                spec_skip_digits(s, b + 1)
            } else {
                -1
            }
        } else {
            b
        };
        if c < 0 {
            None
        } else {
            let d = if c < s.len() && (s[c] == 'e' || s[c] == 'E') {
                let e0 = if c + 1 < s.len() && (s[c + 1] == '+' || s[c + 1] == '-') {
                    c + 2
                } else {
                    c + 1
                };
                if e0 < s.len() && is_digit(s[e0]) {
                    spec_skip_digits(s, e0)
                } else {
                    -1
                }
            } else {
                c
            };
            if d < 0 {
                None
            } else {
                Some(d)
            }
        }
    }
}

/// The value of the digit run `s[a..b)`, unless it exceeds `u64::MAX`.
pub open spec fn spec_digits_val(s: Seq<char>, a: int, b: int) -> Option<u64>
    decreases b - a,
{
    if a >= b {
        Some(0u64)
    } else {
        match spec_digits_val(s, a, b - 1) {
            None => None,
            Some(acc) => {
                let d = (s[b - 1] as int) - 48;
                if acc > 1844674407370955161u64 || (acc == 1844674407370955161u64 && d > 5) {
                    None
                } else {
                    Some((10 * acc + d) as u64)
                }
            },
        }
    }
}

/// The parse of the number token starting exactly at `i`.
pub open spec fn spec_parse_number(s: Seq<char>, i: int) -> (Option<Val>, int) {
    match spec_scan_number(s, i) {
        None => (None, i),
        Some(end) => {
            let neg = s[i] == '-';
            let a = if neg {
                i + 1
            } else {
                i
            };
            let b = if s[a] == '0' {
                a + 1
            } else {
                spec_skip_digits(s, a)
            };
            if b == end {
                match spec_digits_val(s, a, b) {
                    Some(m) => if !neg && m <= 0x7FFFFFFFFFFFFFFFu64 {
                        (Some(Val::Int(m as int)), end)
                    } else if neg && m <= 0x8000000000000000u64 {
                        (Some(Val::Int(-(m as int))), end)
                    } else {
                        (Some(Val::Float(s.subrange(i, end))), end)
                    },
                    None => (Some(Val::Float(s.subrange(i, end))), end),
                }
            } else {
                (Some(Val::Float(s.subrange(i, end))), end)
            }
        },
    }
}

/// Hexadecimal digit value, or -1.
pub open spec fn hex_val(c: char) -> int {
    if '0' <= c && c <= '9' {
        (c as int) - 48
    } else if 'a' <= c && c <= 'f' {
        (c as int) - 87
    } else if 'A' <= c && c <= 'F' {
        (c as int) - 55
    } else {
        -1
    }
}

/// The parse of a string body: `i` stands just after the opening quote,
/// `acc` holds what was read so far.  Returns the body and the position
/// just after the closing quote.
pub open spec fn spec_parse_str_body(s: Seq<char>, i: int, acc: Seq<char>) -> (Option<
    Seq<char>,
>, int)
    decreases s.len() - i,
{
    if !(0 <= i < s.len()) {
        (None, i)
    } else {
        let c = s[i];
        if c == '"' {
            (Some(acc), i + 1)
        } else if c == '\\' {
            if i + 1 >= s.len() {
                (None, i + 1)
            } else {
                let e = s[i + 1];
                if e == '"' {
                    spec_parse_str_body(s, i + 2, acc.push('"'))
                } else if e == '\\' {
                    spec_parse_str_body(s, i + 2, acc.push('\\'))
                } else if e == '/' {
                    spec_parse_str_body(s, i + 2, acc.push('/'))
                } else if e == 'b' {
                    spec_parse_str_body(s, i + 2, acc.push('\u{8}'))
                } else if e == 'f' {
                    spec_parse_str_body(s, i + 2, acc.push('\u{c}'))
                } else if e == 'n' {
                    spec_parse_str_body(s, i + 2, acc.push('\u{a}'))
                } else if e == 'r' {
                    spec_parse_str_body(s, i + 2, acc.push('\u{d}'))
                } else if e == 't' {
                    spec_parse_str_body(s, i + 2, acc.push('\u{9}'))
                } else if e == 'u' {
                    if i + 6 <= s.len() && hex_val(s[i + 2]) >= 0 && hex_val(s[i + 3]) >= 0
                        && hex_val(s[i + 4]) >= 0 && hex_val(s[i + 5]) >= 0 {
                        let code = 4096 * hex_val(s[i + 2]) + 256 * hex_val(s[i + 3]) + 16
                            * hex_val(s[i + 4]) + hex_val(s[i + 5]);
                        if 0xD800 <= code < 0xE000 {
                            (None, i + 6)
                        } else {
                            spec_parse_str_body(s, i + 6, acc.push((code as u32) as char))
                        }
                    } else {
                        (None, i + 2)
                    }
                } else {
                    (None, i + 2)
                }
            }
        } else if (c as u32) < 32 {
            (None, i)
        } else {
            spec_parse_str_body(s, i + 1, acc.push(c))
        }
    }
}

/// Index of the first field named `key`, or -1.
pub open spec fn spec_key_idx(fields: Seq<(Seq<char>, Val)>, key: Seq<char>) -> int
    decreases fields.len(),
{
    if fields.len() == 0 {
        -1
    } else if fields[0].0 == key {
        0
    } else {
        let r = spec_key_idx(fields.drop_first(), key);
        if r < 0 {
            -1
        } else {
            r + 1
        }
    }
}

pub proof fn key_idx_props(fields: Seq<(Seq<char>, Val)>, key: Seq<char>)
    ensures
        spec_key_idx(fields, key) < 0 ==> forall|j: int|
            0 <= j < fields.len() ==> fields[j].0 != key,
        spec_key_idx(fields, key) >= 0 ==> {
            let idx = spec_key_idx(fields, key);
            &&& 0 <= idx < fields.len()
            &&& fields[idx].0 == key
            &&& forall|j: int| 0 <= j < idx ==> fields[j].0 != key
        },
    decreases fields.len(),
{
    if fields.len() > 0 && fields[0].0 != key {
        key_idx_props(fields.drop_first(), key);
        assert(forall|j: int|
            1 <= j < fields.len() ==> fields[j] == fields.drop_first()[j - 1]);
    }
}

/// Replace the value under `key` if present, else append the pair.
pub open spec fn spec_obj_set(fields: Seq<(Seq<char>, Val)>, key: Seq<char>, v: Val) -> Seq<
    (Seq<char>, Val),
> {
    let idx = spec_key_idx(fields, key);
    if idx < 0 {
        fields.push((key, v))
    } else {
        fields.update(idx, (key, v))
    }
}

/// The parse of a value starting at `i` (leading whitespace allowed).
pub open spec fn spec_parse_value(s: Seq<char>, i: int) -> (Option<Val>, int)
    decreases s.len() - i, 2int,
{
    if !(0 <= i <= s.len()) {
        (None, i)
    } else {
        let j = spec_skip_ws(s, i);
        proof {
            skip_ws_bounds(s, i);
        }
        if j >= s.len() {
            (None, j)
        } else {
            let c = s[j];
            if c == 'n' {
                if s.len() - j >= 4 && s[j + 1] == 'u' && s[j + 2] == 'l' && s[j + 3] == 'l' {
                    (Some(Val::Null), j + 4)
                } else {
                    (None, j)
                }
            } else if c == 't' {
                if s.len() - j >= 4 && s[j + 1] == 'r' && s[j + 2] == 'u' && s[j + 3] == 'e' {
                    (Some(Val::Bool(true)), j + 4)
                } else {
                    (None, j)
                }
            } else if c == 'f' {
                if j + 5 <= s.len() && s[j + 1] == 'a' && s[j + 2] == 'l' && s[j + 3] == 's' && s[j
                    + 4] == 'e' {
                    (Some(Val::Bool(false)), j + 5)
                } else {
                    (None, j)
                }
            } else if c == '"' {
                let (body, k) = spec_parse_str_body(s, j + 1, Seq::empty());
                match body {
                    Some(t) => (Some(Val::Str(t)), k),
                    None => (None, k),
                }
            } else if c == '[' {
                spec_parse_elems(s, j + 1, true, Seq::empty())
            } else if c == '{' {
                spec_parse_fields(s, j + 1, true, Seq::empty())
            } else if c == '-' || is_digit(c) {
                spec_parse_number(s, j)
            } else {
                (None, j)
            }
        }
    }
}

/// The parse of array elements: `i` stands just after `[` or after a comma.
pub open spec fn spec_parse_elems(s: Seq<char>, i: int, first: bool, acc: Seq<Val>) -> (Option<
    Val,
>, int)
    decreases s.len() - i, 3int,
{
    if !(0 <= i <= s.len()) {
        (None, i)
    } else {
        let j = spec_skip_ws(s, i);
        proof {
            skip_ws_bounds(s, i);
        }
        if j >= s.len() {
            (None, j)
        } else if first && s[j] == ']' {
            (Some(Val::Arr(acc)), j + 1)
        } else {
            let (ov, k) = spec_parse_value(s, j);
            match ov {
                None => (None, k),
                Some(v) => {
                    let kc = if k < j { j } else if k > s.len() { s.len() as int } else { k };
                    let j2 = spec_skip_ws(s, kc);
                    proof {
                        skip_ws_bounds(s, kc);
                    }
                    if j2 >= s.len() {
                        (None, j2)
                    } else if s[j2] == ']' {
                        (Some(Val::Arr(acc.push(v))), j2 + 1)
                    } else if s[j2] == ',' && j2 + 1 > i {
                        spec_parse_elems(s, j2 + 1, false, acc.push(v))
                    } else {
                        (None, j2)
                    }
                },
            }
        }
    }
}

/// The parse of object fields: `i` stands just after `{` or after a comma.
pub open spec fn spec_parse_fields(
    s: Seq<char>,
    i: int,
    first: bool,
    acc: Seq<(Seq<char>, Val)>,
) -> (Option<Val>, int)
    decreases s.len() - i, 3int,
{
    if !(0 <= i <= s.len()) {
        (None, i)
    } else {
        let j = spec_skip_ws(s, i);
        proof {
            skip_ws_bounds(s, i);
        }
        if j >= s.len() {
            (None, j)
        } else if first && s[j] == '}' {
            (Some(Val::Obj(acc)), j + 1)
        } else if s[j] != '"' {
            (None, j)
        } else {
            let (body, k) = spec_parse_str_body(s, j + 1, Seq::empty());
            match body {
                None => (None, k),
                Some(key) => {
                    let kc = if k < j { j } else if k > s.len() { s.len() as int } else { k };
                    let j2 = spec_skip_ws(s, kc);
                    proof {
                        skip_ws_bounds(s, kc);
                    }
                    if !(j2 < s.len() && s[j2] == ':') {
                        (None, j2)
                    } else if !(j2 + 1 > j) {
                        (None, j2)
                    } else {
                        let (ov, m) = spec_parse_value(s, j2 + 1);
                        match ov {
                            None => (None, m),
                            Some(v) => {
                                let acc2 = spec_obj_set(acc, key, v);
                                let mc = if m < j2 + 1 { j2 + 1 } else if m > s.len() { s.len() as int } else { m };
                                let j3 = spec_skip_ws(s, mc);
                                proof {
                                    skip_ws_bounds(s, mc);
                                }
                                if j3 >= s.len() {
                                    (None, j3)
                                } else if s[j3] == '}' {
                                    (Some(Val::Obj(acc2)), j3 + 1)
                                } else if s[j3] == ',' && j3 + 1 > i {
                                    spec_parse_fields(s, j3 + 1, false, acc2)
                                } else {
                                    (None, j3)
                                }
                            },
                        }
                    }
                },
            }
        }
    }
}

/// The parse of a whole text: one value, with nothing but whitespace after it.
pub open spec fn spec_parse_json(s: Seq<char>) -> Option<Val> {
    let (ov, j) = spec_parse_value(s, 0);
    match ov {
        Some(v) => if 0 <= j <= s.len() && spec_skip_ws(s, j) == s.len() {
            Some(v)
        } else {
            None
        },
        None => None,
    }
}

/// Exact test for `is_ws`.
fn ws_c(c: char) -> (r: bool)
    ensures
        r == is_ws(c),
{
    c == ' ' || c == '\t' || c == '\n' || c == '\r'
}

/// Exact test for `is_digit`.
fn digit_c(c: char) -> (r: bool)
    ensures
        r == is_digit(c),
{
    '0' <= c && c <= '9'
}

/// Exact computation of `hex_val`.
fn hexv(c: char) -> (r: i32)
    ensures
        r as int == hex_val(c),
{
    if '0' <= c && c <= '9' {
        ((c as u32) as i32) - 48
    } else if 'a' <= c && c <= 'f' {
        ((c as u32) as i32) - 87
    } else if 'A' <= c && c <= 'F' {
        ((c as u32) as i32) - 55
    } else {
        -1
    }
}

/// Exact computation of `spec_skip_ws`.
pub fn skip_ws_at(s: &Vec<char>, i: usize) -> (j: usize)
    requires
        i <= s@.len(),
    ensures
        j as int == spec_skip_ws(s@, i as int),
        i <= j <= s@.len(),
{
    let mut k: usize = i;
    loop
        invariant
            i <= k <= s@.len(),
            spec_skip_ws(s@, i as int) == spec_skip_ws(s@, k as int),
        decreases s@.len() - k,
    {
        if k >= s.len() {
            return k;
        }
        if !ws_c(s[k]) {
            return k;
        }
        k += 1;
    }
}

/// Exact computation of `spec_skip_digits`; every passed position holds a digit.
pub fn skip_digits_at(s: &Vec<char>, i: usize) -> (j: usize)
    requires
        i <= s@.len(),
    ensures
        j as int == spec_skip_digits(s@, i as int),
        i <= j <= s@.len(),
        forall|k: int| i <= k < j ==> is_digit(s@[k]),
{
    let mut k: usize = i;
    loop
        invariant
            i <= k <= s@.len(),
            spec_skip_digits(s@, i as int) == spec_skip_digits(s@, k as int),
            forall|m: int| i <= m < k ==> is_digit(s@[m]),
        decreases s@.len() - k,
    {
        if k >= s.len() {
            return k;
        }
        if !digit_c(s[k]) {
            return k;
        }
        k += 1;
    }
}

/// Exact computation of `spec_digits_val` over a run of digits.
fn digits_val_at(s: &Vec<char>, a: usize, b: usize) -> (r: Option<u64>)
    requires
        a <= b <= s@.len(),
        forall|k: int| a <= k < b ==> is_digit(s@[k]),
    ensures
        r == spec_digits_val(s@, a as int, b as int),
    decreases b - a,
{
    if a >= b {
        Some(0)
    } else {
        match digits_val_at(s, a, b - 1) {
            None => None,
            Some(acc) => {
                let d: u64 = (((s[b - 1] as u32) as u64)) - 48;
                if acc > 1844674407370955161u64 || (acc == 1844674407370955161u64 && d > 5) {
                    None
                } else {
                    Some(10 * acc + d)
                }
            },
        }
    }
}

/// Exact computation of `spec_parse_number`.
pub fn parse_number_at(s: &Vec<char>, i: usize) -> (r: (Option<Value>, usize))
    requires
        i <= s@.len(),
    ensures
        (r.1 as int) == spec_parse_number(s@, i as int).1,
        (match (r.0, spec_parse_number(s@, i as int).0) {
            (Some(v), Some(w)) => v.dv() == w,
            (None, None) => true,
            _ => false,
        }),
        r.1 <= s@.len(),
{
    let a: usize = if i < s.len() && s[i] == '-' {
        i + 1
    } else {
        i
    };
    if !(a < s.len() && digit_c(s[a])) {
        return (None, i);
    }
    let b: usize = if s[a] == '0' {
        a + 1
    } else {
        skip_digits_at(s, a)
    };
    let mut end: usize = b;
    let mut bad: bool = false;
    if b < s.len() && s[b] == '.' {
        if b + 1 < s.len() && digit_c(s[b + 1]) {
            end = skip_digits_at(s, b + 1);
        } else {
            bad = true;
        }
    }
    if bad {
        return (None, i);
    }
    let c = end;
    if c < s.len() && (s[c] == 'e' || s[c] == 'E') {
        let e0: usize = if c + 1 < s.len() && (s[c + 1] == '+' || s[c + 1] == '-') {
            c + 2
        } else {
            c + 1
        };
        if e0 < s.len() && digit_c(s[e0]) {
            end = skip_digits_at(s, e0);
        } else {
            bad = true;
        }
    }
    if bad {
        return (None, i);
    }
    assert(spec_scan_number(s@, i as int) == Some(end as int));
    let neg = s[i] == '-';
    if b == end {
        match digits_val_at(s, a, b) {
            Some(m) => {
                if !neg && m <= 0x7FFFFFFFFFFFFFFFu64 {
                    return (Some(Value::Int(m as i64)), end);
                }
                if neg && m <= 0x8000000000000000u64 {
                    if m == 0x8000000000000000u64 {
                        return (Some(Value::Int(i64::MIN)), end);
                    }
                    return (Some(Value::Int(-(m as i64))), end);
                }
                return (Some(Value::Float(crate::chars::copy_range(s, i, end))), end);
            },
            None => {
                return (Some(Value::Float(crate::chars::copy_range(s, i, end))), end);
            },
        }
    }
    (Some(Value::Float(crate::chars::copy_range(s, i, end))), end)
}

/// Exact computation of `spec_parse_str_body`.
pub fn parse_str_body_at(s: &Vec<char>, i: usize, acc: Vec<char>) -> (r: (Option<Vec<char>>, usize))
    requires
        i <= s@.len(),
    ensures
        (r.1 as int) == spec_parse_str_body(s@, i as int, acc@).1,
        (match (r.0, spec_parse_str_body(s@, i as int, acc@).0) {
            (Some(t), Some(w)) => t@ == w,
            (None, None) => true,
            _ => false,
        }),
        r.1 <= s@.len(),
    decreases s@.len() - i,
{
    let mut acc = acc;
    if i >= s.len() {
        return (None, i);
    }
    let c = s[i];
    if c == '"' {
        return (Some(acc), i + 1);
    }
    if c == '\\' {
        if i + 1 >= s.len() {
            return (None, i + 1);
        }
        let e = s[i + 1];
        if e == '"' || e == '\\' || e == '/' {
            acc.push(e);
            return parse_str_body_at(s, i + 2, acc);
        }
        if e == 'b' {
            acc.push('\u{8}');
            return parse_str_body_at(s, i + 2, acc);
        }
        if e == 'f' {
            acc.push('\u{c}');
            return parse_str_body_at(s, i + 2, acc);
        }
        if e == 'n' {
            acc.push('\u{a}');
            return parse_str_body_at(s, i + 2, acc);
        }
        if e == 'r' {
            acc.push('\u{d}');
            return parse_str_body_at(s, i + 2, acc);
        }
        if e == 't' {
            acc.push('\u{9}');
            return parse_str_body_at(s, i + 2, acc);
        }
        if e == 'u' {
            if s.len() - i >= 6 && hexv(s[i + 2]) >= 0 && hexv(s[i + 3]) >= 0 && hexv(s[i + 4]) >= 0
                && hexv(s[i + 5]) >= 0 {
                let code: u32 = (4096 * hexv(s[i + 2]) + 256 * hexv(s[i + 3]) + 16 * hexv(s[i + 4])
                    + hexv(s[i + 5])) as u32;
                if 0xD800 <= code && code < 0xE000 {
                    return (None, i + 6);
                }
                match char::from_u32(code) {
                    Some(ch) => {
                        acc.push(ch);
                        return parse_str_body_at(s, i + 6, acc);
                    },
                    None => {
                        assert(false);
                        return (None, i + 6);
                    },
                }
            }
            return (None, i + 2);
        }
        return (None, i + 2);
    }
    if (c as u32) < 32 {
        return (None, i);
    }
    acc.push(c);
    parse_str_body_at(s, i + 1, acc)
}

/// Exact computation of `spec_obj_set`, in place.
pub fn obj_set(fields: &mut Vec<(Vec<char>, Value)>, key: Vec<char>, v: Value)
    ensures
        dvf(final(fields)@) == spec_obj_set(dvf(old(fields)@), key@, v.dv()),
{
    let ghost idx = spec_key_idx(dvf(fields@), key@);
    let ghost p: (Vec<char>, Value) = (key, v);
    proof {
        key_idx_props(dvf(fields@), key@);
        if idx < 0 {
            assert forall|j: int| 0 <= j < fields@.len() implies fields@[j].0@ != key@ by {
                assert(dvf(fields@)[j].0 == fields@[j].0@);
            }
        } else {
            assert(dvf(fields@)[idx].0 == fields@[idx].0@);
            assert forall|j: int| 0 <= j < idx implies fields@[j].0@ != key@ by {
                assert(dvf(fields@)[j].0 == fields@[j].0@);
            }
        }
    }
    let mut k: usize = 0;
    while k < fields.len()
        invariant
            0 <= k <= fields@.len(),
            fields@ == old(fields)@,
            p.0 == key,
            p.1 == v,
            forall|j: int| 0 <= j < k ==> fields@[j].0@ != key@,
            idx == spec_key_idx(dvf(fields@), key@),
            idx < 0 ==> forall|j: int| 0 <= j < fields@.len() ==> fields@[j].0@ != key@,
            idx >= 0 ==> 0 <= idx < fields@.len() && fields@[idx].0@ == key@ && forall|j: int|
                0 <= j < idx ==> fields@[j].0@ != key@,
        decreases fields@.len() - k,
    {
        if crate::chars::eq_chars(&fields[k].0, &key) {
            assert(idx == k as int);
            let _ = fields.remove(k);
            fields.insert(k, (key, v));
            proof {
                assert(fields@ =~= old(fields)@.update(k as int, p));
                assert forall|j: int|
                    0 <= j < dvf(fields@).len() implies dvf(fields@)[j] == spec_obj_set(
                    dvf(old(fields)@),
                    p.0@,
                    p.1.dv(),
                )[j] by {
                    assert(spec_obj_set(dvf(old(fields)@), p.0@, p.1.dv()) == dvf(
                        old(fields)@,
                    ).update(idx, (p.0@, p.1.dv())));
                }
                assert(dvf(fields@) =~= spec_obj_set(dvf(old(fields)@), p.0@, p.1.dv()));
            }
            return ;
        }
        k += 1;
    }
    assert(idx < 0);
    fields.push((key, v));
    proof {
        assert(fields@ =~= old(fields)@.push(p));
        assert forall|j: int|
            0 <= j < dvf(fields@).len() implies dvf(fields@)[j] == spec_obj_set(
            dvf(old(fields)@),
            p.0@,
            p.1.dv(),
        )[j] by {
            assert(spec_obj_set(dvf(old(fields)@), p.0@, p.1.dv()) == dvf(old(fields)@).push(
                (p.0@, p.1.dv()),
            ));
        }
        assert(dvf(fields@) =~= spec_obj_set(dvf(old(fields)@), p.0@, p.1.dv()));
    }
}

/// Exact computation of `spec_parse_value`.
pub fn parse_value_at(s: &Vec<char>, i: usize) -> (r: (Option<Value>, usize))
    requires
        i <= s@.len(),
    ensures
        (r.1 as int) == spec_parse_value(s@, i as int).1,
        (match (r.0, spec_parse_value(s@, i as int).0) {
            (Some(v), Some(w)) => v.dv() == w,
            (None, None) => true,
            _ => false,
        }),
        r.1 <= s@.len(),
    decreases s@.len() - i, 2int,
{
    let j = skip_ws_at(s, i);
    if j >= s.len() {
        return (None, j);
    }
    let c = s[j];
    if c == 'n' {
        if s.len() - j >= 4 && s[j + 1] == 'u' && s[j + 2] == 'l' && s[j + 3] == 'l' {
            return (Some(Value::Null), j + 4);
        }
        return (None, j);
    }
    if c == 't' {
        if s.len() - j >= 4 && s[j + 1] == 'r' && s[j + 2] == 'u' && s[j + 3] == 'e' {
            return (Some(Value::Bool(true)), j + 4);
        }
        return (None, j);
    }
    if c == 'f' {
        if s.len() - j >= 5 && s[j + 1] == 'a' && s[j + 2] == 'l' && s[j + 3] == 's' && s[j + 4]
            == 'e' {
            return (Some(Value::Bool(false)), j + 5);
        }
        return (None, j);
    }
    if c == '"' {
        let (body, k) = parse_str_body_at(s, j + 1, Vec::new());
        match body {
            Some(t) => {
                return (Some(Value::Str(t)), k);
            },
            None => {
                return (None, k);
            },
        }
    }
    if c == '[' {
        let acc0: Vec<Value> = Vec::new();
        proof {
            assert(dvs(acc0@) =~= Seq::<Val>::empty());
        }
        return parse_elems_at(s, j + 1, true, acc0);
    }
    if c == '{' {
        let acc0: Vec<(Vec<char>, Value)> = Vec::new();
        proof {
            assert(dvf(acc0@) =~= Seq::<(Seq<char>, Val)>::empty());
        }
        return parse_fields_at(s, j + 1, true, acc0);
    }
    if c == '-' || digit_c(c) {
        return parse_number_at(s, j);
    }
    (None, j)
}

/// Exact computation of `spec_parse_elems`.
pub fn parse_elems_at(s: &Vec<char>, i: usize, first: bool, acc: Vec<Value>) -> (r: (
    Option<Value>,
    usize,
))
    requires
        i <= s@.len(),
    ensures
        (r.1 as int) == spec_parse_elems(s@, i as int, first, dvs(acc@)).1,
        (match (r.0, spec_parse_elems(s@, i as int, first, dvs(acc@)).0) {
            (Some(v), Some(w)) => v.dv() == w,
            (None, None) => true,
            _ => false,
        }),
        r.1 <= s@.len(),
    decreases s@.len() - i, 3int,
{
    let mut acc = acc;
    let j = skip_ws_at(s, i);
    if j >= s.len() {
        return (None, j);
    }
    if first && s[j] == ']' {
        let out = Value::Arr(acc);
        proof {
            assert(out.dv()->Arr_0 =~= dvs(out->Arr_0@));
        }
        return (Some(out), j + 1);
    }
    let (ov, k) = parse_value_at(s, j);
    match ov {
        None => (None, k),
        Some(v) => {
            let kc: usize = if k < j {
                j
            } else if k > s.len() {
                s.len()
            } else {
                k
            };
            let j2 = skip_ws_at(s, kc);
            if j2 >= s.len() {
                return (None, j2);
            }
            if s[j2] == ']' {
                let ghost accdv = dvs(acc@);
                acc.push(v);
                assert(dvs(acc@) =~= accdv.push(v.dv()));
                let out = Value::Arr(acc);
                proof {
                    assert(out.dv()->Arr_0 =~= dvs(out->Arr_0@));
                }
                return (Some(out), j2 + 1);
            }
            if s[j2] == ',' && j2 + 1 > i {
                let ghost accdv = dvs(acc@);
                acc.push(v);
                assert(dvs(acc@) =~= accdv.push(v.dv()));
                return parse_elems_at(s, j2 + 1, false, acc);
            }
            (None, j2)
        },
    }
}

/// Exact computation of `spec_parse_fields`.
pub fn parse_fields_at(s: &Vec<char>, i: usize, first: bool, acc: Vec<(Vec<char>, Value)>) -> (r: (
    Option<Value>,
    usize,
))
    requires
        i <= s@.len(),
    ensures
        (r.1 as int) == spec_parse_fields(s@, i as int, first, dvf(acc@)).1,
        (match (r.0, spec_parse_fields(s@, i as int, first, dvf(acc@)).0) {
            (Some(v), Some(w)) => v.dv() == w,
            (None, None) => true,
            _ => false,
        }),
        r.1 <= s@.len(),
    decreases s@.len() - i, 3int,
{
    let mut acc = acc;
    let j = skip_ws_at(s, i);
    if j >= s.len() {
        return (None, j);
    }
    if first && s[j] == '}' {
        let out = Value::Obj(acc);
        proof {
            assert(out.dv()->Obj_0 =~= dvf(out->Obj_0@));
        }
        return (Some(out), j + 1);
    }
    if s[j] != '"' {
        return (None, j);
    }
    let (body, k) = parse_str_body_at(s, j + 1, Vec::new());
    match body {
        None => (None, k),
        Some(key) => {
            let kc: usize = if k < j {
                j
            } else if k > s.len() {
                s.len()
            } else {
                k
            };
            let j2 = skip_ws_at(s, kc);
            if !(j2 < s.len() && s[j2] == ':') {
                return (None, j2);
            }
            if !(j2 + 1 > j) {
                return (None, j2);
            }
            let (ov, m) = parse_value_at(s, j2 + 1);
            match ov {
                None => (None, m),
                Some(v) => {
                    let ghost accdv = dvf(acc@);
                    proof {
                        key_idx_props(accdv, key@);
                    }
                    obj_set(&mut acc, key, v);
                    let mc: usize = if m < j2 + 1 {
                        j2 + 1
                    } else if m > s.len() {
                        s.len()
                    } else {
                        m
                    };
                    let j3 = skip_ws_at(s, mc);
                    if j3 >= s.len() {
                        return (None, j3);
                    }
                    if s[j3] == '}' {
                        let out = Value::Obj(acc);
                        proof {
                            assert(out.dv()->Obj_0 =~= dvf(out->Obj_0@));
                        }
                        return (Some(out), j3 + 1);
                    }
                    if s[j3] == ',' && j3 + 1 > i {
                        return parse_fields_at(s, j3 + 1, false, acc);
                    }
                    (None, j3)
                },
            }
        },
    }
}

/// Exact computation of `spec_parse_json`: one value with only
/// whitespace around it, or nothing.
pub fn parse_json(s: &Vec<char>) -> (r: Option<Value>)
    ensures
        (match (r, spec_parse_json(s@)) {
            (Some(v), Some(w)) => v.dv() == w,
            (None, None) => true,
            _ => false,
        }),
{
    let (ov, j) = parse_value_at(s, 0);
    match ov {
        Some(v) => {
            if skip_ws_at(s, j) == s.len() {
                Some(v)
            } else {
                None
            }
        },
        None => None,
    }
}

} // verus!
