//! JSON text: a verified serializer and parser for the `Value` type.
//!
//! The serializer follows the common compact convention: no whitespace,
//! `"` and `\` and control characters escaped (with the usual short forms
//! for backspace, tab, newline, form feed and carriage return), everything
//! else written as is.  Its output is pinned exactly by `json_text`.

use vstd::prelude::*;
use crate::value::{Value, Val, arr_elem_smaller, obj_elem_smaller};

verus! {

broadcast use vstd::std_specs::vec::group_vec_axioms;

/// The decimal digit character for `n` (0 to 9).
pub open spec fn dec_digit(n: int) -> char {
    ((48 + n) as u8) as char
}

/// The hexadecimal digit character for `n` (0 to 15), lower case.
pub open spec fn hex_digit(n: int) -> char {
    if n < 10 {
        ((48 + n) as u8) as char
    } else {
        ((87 + n) as u8) as char
    }
}

/// Decimal digit string of a natural number.
pub open spec fn dec_digits(n: nat) -> Seq<char>
    decreases n,
{
    if n < 10 {
        seq![dec_digit(n as int)]
    } else {
        dec_digits(n / 10) + seq![dec_digit((n % 10) as int)]
    }
}

/// Decimal literal of an integer.
pub open spec fn int_lit(i: int) -> Seq<char> {
    if i < 0 {
        seq!['-'] + dec_digits((-i) as nat)
    } else {
        dec_digits(i as nat)
    }
}

/// JSON escape of one character.
pub open spec fn esc_char(c: char) -> Seq<char> {
    if c == '"' {
        seq!['\\', '"']
    } else if c == '\\' {
        seq!['\\', '\\']
    } else if c == '\u{8}' {
        seq!['\\', 'b']
    } else if c == '\u{9}' {
        seq!['\\', 't']
    } else if c == '\u{a}' {
        seq!['\\', 'n']
    } else if c == '\u{c}' {
        seq!['\\', 'f']
    } else if c == '\u{d}' {
        seq!['\\', 'r']
    } else if (c as u32) < 32 {
        seq!['\\', 'u', '0', '0', hex_digit((c as u32 / 16) as int), hex_digit((c as u32 % 16) as int)]
    } else {
        seq![c]
    }
}

/// JSON escape of a string body.
pub open spec fn esc_str(s: Seq<char>) -> Seq<char>
    decreases s.len(),
{
    if s.len() == 0 {
        Seq::empty()
    } else {
        esc_str(s.drop_last()) + esc_char(s.last())
    }
}

/// A JSON string literal: quoted, escaped body.
pub open spec fn str_lit(s: Seq<char>) -> Seq<char> {
    seq!['"'] + esc_str(s) + seq!['"']
}

/// The compact JSON text of a value.
pub open spec fn json_text(v: Val) -> Seq<char>
    decreases v, 1int,
{
    match v {
        Val::Null => seq!['n', 'u', 'l', 'l'],
        Val::Bool(b) => if b {
            seq!['t', 'r', 'u', 'e']
        } else {
            seq!['f', 'a', 'l', 's', 'e']
        },
        Val::Int(i) => int_lit(i),
        Val::Float(t) => t,
        Val::Str(t) => str_lit(t),
        Val::Arr(elems) => seq!['['] + json_items(elems) + seq![']'],
        Val::Obj(fields) => seq!['{'] + json_fields(fields) + seq!['}'],
    }
}

/// The comma-separated JSON texts of list elements.
pub open spec fn json_items(elems: Seq<Val>) -> Seq<char>
    decreases elems, 0int,
{
    if elems.len() == 0 {
        Seq::empty()
    } else if elems.len() == 1 {
        json_text(elems[0])
    } else {
        json_items(elems.drop_last()) + seq![','] + json_text(elems.last())
    }
}

/// The comma-separated JSON texts of mapping fields.
pub open spec fn json_fields(fields: Seq<(Seq<char>, Val)>) -> Seq<char>
    decreases fields, 0int,
{
    if fields.len() == 0 {
        Seq::empty()
    } else if fields.len() == 1 {
        str_lit(fields[0].0) + seq![':'] + json_text(fields[0].1)
    } else {
        json_fields(fields.drop_last()) + seq![','] + str_lit(fields.last().0) + seq![':']
            + json_text(fields.last().1)
    }
}

/// Push the decimal digits of `n` onto `out`.
pub fn push_dec(n: u64, out: &mut Vec<char>)
    ensures
        final(out)@ == old(out)@ + dec_digits(n as nat),
    decreases n,
{
    if n < 10 {
        let d: u8 = 48 + (n as u8);
        out.push(d as char);
        assert(out@ =~= old(out)@ + dec_digits(n as nat));
    } else {
        push_dec(n / 10, out);
        let d: u8 = 48 + ((n % 10) as u8);
        out.push(d as char);
        assert(out@ =~= old(out)@ + dec_digits(n as nat));
    }
}

/// Push the decimal literal of `i` onto `out`.
pub fn push_int(i: i64, out: &mut Vec<char>)
    ensures
        final(out)@ == old(out)@ + int_lit(i as int),
{
    if i >= 0 {
        push_dec(i as u64, out);
    } else {
        out.push('-');
        let m: u64 = (-(i as i128)) as u64;
        assert(m as nat == (-(i as int)) as nat);
        push_dec(m, out);
        assert(out@ =~= old(out)@ + int_lit(i as int));
    }
}

/// Push the JSON string literal of `s` onto `out`.
pub fn push_str_lit(s: &Vec<char>, out: &mut Vec<char>)
    ensures
        final(out)@ == old(out)@ + str_lit(s@),
{
    out.push('"');
    let mut i: usize = 0;
    while i < s.len()
        invariant
            0 <= i <= s@.len(),
            out@ == old(out)@ + seq!['"'] + esc_str(s@.subrange(0, i as int)),
        decreases s@.len() - i,
    {
        let c = s[i];
        let ghost pre = out@;
        if c == '"' {
            out.push('\\');
            out.push('"');
        } else if c == '\\' {
            out.push('\\');
            out.push('\\');
        } else if c == '\u{8}' {
            out.push('\\');
            out.push('b');
        } else if c == '\u{9}' {
            out.push('\\');
            out.push('t');
        } else if c == '\u{a}' {
            out.push('\\');
            out.push('n');
        } else if c == '\u{c}' {
            out.push('\\');
            out.push('f');
        } else if c == '\u{d}' {
            out.push('\\');
            out.push('r');
        } else if (c as u32) < 32 {
            out.push('\\');
            out.push('u');
            out.push('0');
            out.push('0');
            let hi: u32 = (c as u32) / 16;
            let lo: u32 = (c as u32) % 16;
            let hc: u8 = if hi < 10 { 48 + (hi as u8) } else { 87 + (hi as u8) };
            let lc: u8 = if lo < 10 { 48 + (lo as u8) } else { 87 + (lo as u8) };
            out.push(hc as char);
            out.push(lc as char);
        } else {
            out.push(c);
        }
        proof {
            assert(out@ =~= pre + esc_char(s@[i as int]));
            assert(s@.subrange(0, i + 1).drop_last() =~= s@.subrange(0, i as int));
            assert(esc_str(s@.subrange(0, i + 1)) == esc_str(s@.subrange(0, i as int)) + esc_char(
                s@[i as int],
            ));
            assert(out@ =~= old(out)@ + seq!['"'] + esc_str(s@.subrange(0, i + 1)));
        }
        i += 1;
    }
    out.push('"');
    proof {
        assert(s@.subrange(0, s@.len() as int) =~= s@);
        assert(out@ =~= old(out)@ + str_lit(s@));
    }
}

/// Push the compact JSON text of `v` onto `out`.
#[verifier::loop_isolation(false)]
#[verifier::rlimit(60)]
pub fn push_json(v: &Value, out: &mut Vec<char>)
    ensures
        final(out)@ == old(out)@ + json_text(v.dv()),
    decreases v.dv(), 1int,
{
    match v {
        Value::Null => {
            out.push('n');
            out.push('u');
            out.push('l');
            out.push('l');
            assert(out@ =~= old(out)@ + json_text(v.dv()));
        },
        Value::Bool(b) => {
            if *b {
                out.push('t');
                out.push('r');
                out.push('u');
                out.push('e');
            } else {
                out.push('f');
                out.push('a');
                out.push('l');
                out.push('s');
                out.push('e');
            }
            assert(out@ =~= old(out)@ + json_text(v.dv()));
        },
        Value::Int(i) => {
            push_int(*i, out);
        },
        Value::Float(t) => {
            let mut k: usize = 0;
            while k < t.len()
                invariant
                    0 <= k <= t@.len(),
                    out@ == old(out)@ + t@.subrange(0, k as int),
                decreases t@.len() - k,
            {
                out.push(t[k]);
                assert(out@ =~= old(out)@ + t@.subrange(0, k + 1));
                k += 1;
            }
            assert(t@.subrange(0, t@.len() as int) =~= t@);
        },
        Value::Str(t) => {
            push_str_lit(t, out);
        },
        Value::Arr(a) => {
            out.push('[');
            let ghost elems = v.dv()->Arr_0;
            assert(elems.len() == a@.len());
            let mut i: usize = 0;
            while i < a.len()
                invariant
                    0 <= i <= a@.len(),
                    out@ == old(out)@ + seq!['['] + json_items(elems.subrange(0, i as int)),
                decreases a@.len() - i,
            {
                if i > 0 {
                    out.push(',');
                }
                proof {
                    arr_elem_smaller(*v, i as int);
                }
                let ghost pre = out@;
                push_json(&a[i], out);
                proof {
                    assert(elems.subrange(0, i + 1).drop_last() =~= elems.subrange(0, i as int));
                    assert(elems.subrange(0, i + 1).last() == elems[i as int]);
                    assert(elems[i as int] == a@[i as int].dv());
                    if i == 0 {
                        assert(elems.subrange(0, 1).len() == 1);
                        assert(out@ =~= old(out)@ + seq!['['] + json_items(elems.subrange(0, 1)));
                    } else {
                        assert(out@ =~= old(out)@ + seq!['['] + json_items(
                            elems.subrange(0, i + 1),
                        ));
                    }
                }
                i += 1;
            }
            out.push(']');
            proof {
                assert(elems.subrange(0, elems.len() as int) =~= elems);
                assert(out@ =~= old(out)@ + json_text(v.dv()));
            }
        },
        Value::Obj(o) => {
            out.push('{');
            let ghost fields = v.dv()->Obj_0;
            assert(fields.len() == o@.len());
            let mut i: usize = 0;
            while i < o.len()
                invariant
                    0 <= i <= o@.len(),
                    out@ == old(out)@ + seq!['{'] + json_fields(fields.subrange(0, i as int)),
                decreases o@.len() - i,
            {
                if i > 0 {
                    out.push(',');
                }
                push_str_lit(&o[i].0, out);
                out.push(':');
                proof {
                    obj_elem_smaller(*v, i as int);
                }
                push_json(&o[i].1, out);
                proof {
                    assert(fields.subrange(0, i + 1).drop_last() =~= fields.subrange(0, i as int));
                    assert(fields.subrange(0, i + 1).last() == fields[i as int]);
                    assert(fields[i as int].0 == o@[i as int].0@);
                    assert(fields[i as int].1 == o@[i as int].1.dv());
                    if i == 0 {
                        assert(fields.subrange(0, 1).len() == 1);
                        assert(out@ =~= old(out)@ + seq!['{'] + json_fields(fields.subrange(0, 1)));
                    } else {
                        assert(out@ =~= old(out)@ + seq!['{'] + json_fields(
                            fields.subrange(0, i + 1),
                        ));
                    }
                }
                i += 1;
            }
            out.push('}');
            proof {
                assert(fields.subrange(0, fields.len() as int) =~= fields);
                assert(out@ =~= old(out)@ + json_text(v.dv()));
            }
        },
    }
}

/// The compact JSON text of `v`, as a character vector.
pub fn to_json_chars(v: &Value) -> (r: Vec<char>)
    ensures
        r@ == json_text(v.dv()),
{
    let mut out: Vec<char> = Vec::new();
    push_json(v, &mut out);
    out
}

/// The compact JSON text of `v`, as a string.
pub fn to_json_string(v: &Value) -> (r: String)
    ensures
        r@ == json_text(v.dv()),
{
    let out = to_json_chars(v);
    crate::chars::chars_to_string(out.as_slice())
}

} // verus!
