//! The SurrealDB export parser: `INSERT [INTO <table>] [ ... ];`
//! statements.  Fragments are normalized into JSON (bare keys quoted,
//! single quotes swapped for double ones, trailing `f` stripped from
//! float literals, `id` fields removed) and then read by the JSON parser.
//! The table name comes from the `INTO` form when present, else from the
//! most recent `-- TABLE DATA: <table>` header, else `unknown_table`.

use vstd::prelude::*;
use crate::value::{Value, Val, dvf};
use crate::record::{Record, emit_record, rec_view, recs_match, build_record};
use crate::chars::{str_to_chars, copy_range, match_at, sub_at};
use crate::jsonp::{parse_json, spec_parse_json};
use crate::parser::{
    trim,
    spec_trim,
    skip_space,
    spec_skip_space,
    skip_ident,
    spec_skip_ident,
    find_sub_kw,
    spec_find_sub_at,
    replace2,
    spec_replace2,
    is_ident,
    ident_c,
    all_wf,
};

verus! {

broadcast use vstd::std_specs::vec::group_vec_axioms;

/// Skipping whitespace never moves backwards.
pub proof fn skip_space_bounds(c: Seq<char>, i: int)
    requires
        0 <= i <= c.len(),
    ensures
        i <= spec_skip_space(c, i) <= c.len(),
    decreases c.len() - i,
{
    if i < c.len() && crate::html::is_space(c[i]) {
        skip_space_bounds(c, i + 1);
    }
}

/// ASCII decimal digit.
pub open spec fn is_digit(c: char) -> bool {
    '0' <= c && c <= '9'
}

/// A decimal digit test.
fn dig(c: char) -> (r: bool)
    ensures
        r == is_digit(c),
{
    '0' <= c && c <= '9'
}

/// End of the value run of an `id` field: the next comma or closing brace.
pub open spec fn spec_skip_value(s: Seq<char>, i: int) -> int
    decreases s.len() - i,
{
    if 0 <= i < s.len() && s[i] != ',' && s[i] != '}' {
        spec_skip_value(s, i + 1)
    } else {
        i
    }
}

/// One step of the `id`-field removal walk: either the span of a matched
/// `id` field ends here (the position after it), or nothing matches.
pub open spec fn spec_id_span(s: Seq<char>, i: int) -> Option<int> {
    if !(0 <= i < s.len()) {
        None
    } else {
        let k = if s[i] == ',' {
            spec_skip_space(s, i + 1)
        } else {
            i as int
        };
        let keypos = if 0 <= k < s.len() && (s[k] == '\'' || s[k] == '"') {
            k + 1
        } else {
            k
        };
        let quote: char = if 0 <= k < s.len() && (s[k] == '\'' || s[k] == '"') {
            s[k]
        } else {
            ' '
        };
        let boundary_ok = keypos == 0 || (0 <= keypos - 1 < s.len() && !is_ident(s[keypos - 1]))
            || (keypos >= 1 && 0 <= keypos - 1 < s.len() && s[keypos - 1] == quote && quote != ' ');
        if boundary_ok && 0 <= keypos && s.len() - keypos > 1 && keypos < s.len() && (s[keypos]
            == 'i' || s[keypos] == 'I') && (s[keypos + 1] == 'd' || s[keypos + 1] == 'D') {
            let m = if keypos + 2 < s.len() && (s[keypos + 2] == '\'' || s[keypos + 2] == '"') {
                keypos + 3
            } else {
                keypos + 2
            };
            let m2 = spec_skip_space(s, m);
            if m2 < s.len() && s[m2] == ':' {
                let v0 = spec_skip_space(s, m2 + 1);
                let v1 = spec_skip_value(s, v0);
                if v1 > v0 {
                    let after = if v1 < s.len() && s[v1] == ',' && s[i] != ',' {
                        v1 + 1
                    } else {
                        v1
                    };
                    if after > i {
                        Some(after)
                    } else {
                        None
                    }
                } else {
                    None
                }
            } else {
                None
            }
        } else {
            None
        }
    }
}

/// The `id`-field removal walk over a fragment.
pub open spec fn spec_strip_id_from(s: Seq<char>, i: int, acc: Seq<char>) -> Seq<char>
    decreases s.len() - i,
{
    if !(0 <= i < s.len()) {
        acc
    } else {
        match spec_id_span(s, i) {
            Some(after) => if after <= s.len() {
                spec_strip_id_from(s, after, acc)
            } else {
                acc
            },
            None => spec_strip_id_from(s, i + 1, acc.push(s[i])),
        }
    }
}

/// Remove every `id` field of a fragment; exact.
#[verifier::loop_isolation(false)]
fn strip_id_text(s: &Vec<char>) -> (r: Vec<char>)
    ensures
        r@ == spec_strip_id_from(s@, 0, Seq::empty()),
{
    let mut out: Vec<char> = Vec::new();
    let mut i: usize = 0;
    while i < s.len()
        invariant
            0 <= i <= s@.len(),
            spec_strip_id_from(s@, 0, Seq::empty()) == spec_strip_id_from(s@, i as int, out@),
        decreases s@.len() - i,
    {
        let mut k = i;
        if s[k] == ',' {
            k = skip_space(s, k + 1);
        }
        let mut keypos = k;
        let mut quote: char = ' ';
        if keypos < s.len() && (s[keypos] == '\'' || s[keypos] == '"') {
            quote = s[keypos];
            keypos += 1;
        }
        let boundary_ok = keypos == 0 || !ident_c(s[keypos - 1]) || (keypos >= 1 && s[keypos - 1]
            == quote && quote != ' ');
        let mut matched = false;
        if boundary_ok && keypos < s.len() && s.len() - keypos > 1 && (s[keypos] == 'i' || s[keypos]
            == 'I') && (s[keypos + 1] == 'd' || s[keypos + 1] == 'D') {
            let mut m = keypos + 2;
            if m < s.len() && (s[m] == '\'' || s[m] == '"') {
                m += 1;
            }
            let m2 = skip_space(s, m);
            if m2 < s.len() && s[m2] == ':' {
                let v0 = skip_space(s, m2 + 1);
                let mut v1 = v0;
                while v1 < s.len() && s[v1] != ',' && s[v1] != '}'
                    invariant
                        v0 <= v1 <= s@.len(),
                        spec_skip_value(s@, v0 as int) == spec_skip_value(s@, v1 as int),
                    decreases s@.len() - v1,
                {
                    v1 += 1;
                }
                proof {
                    assert(v1 as int == spec_skip_value(s@, v0 as int));
                }
                if v1 > v0 {
                    let after: usize = if v1 < s.len() && s[v1] == ',' && s[i] != ',' {
                        v1 + 1
                    } else {
                        v1
                    };
                    if after > i {
                        proof {
                            assert(spec_id_span(s@, i as int) == Some(after as int));
                        }
                        i = after;
                        matched = true;
                    }
                }
            }
        }
        if !matched {
            proof {
                assert(spec_id_span(s@, i as int) is None);
            }
            out.push(s[i]);
            i += 1;
        }
    }
    out
}

/// First position at or after `i` that is neither a comma nor a space.
pub open spec fn spec_skip_cs(s: Seq<char>, i: int) -> int
    decreases s.len() - i,
{
    if 0 <= i < s.len() && (s[i] == ',' || s[i] == ' ') {
        spec_skip_cs(s, i + 1)
    } else {
        i
    }
}

/// Last position at or before `j` bounding trailing commas and spaces.
pub open spec fn spec_rskip_cs(s: Seq<char>, j: int) -> int
    decreases j,
{
    if 0 < j <= s.len() && (s[j - 1] == ',' || s[j - 1] == ' ') {
        spec_rskip_cs(s, j - 1)
    } else {
        j
    }
}

/// Leading and trailing commas and spaces removed.
pub open spec fn spec_trim_cs(s: Seq<char>) -> Seq<char> {
    let a = spec_skip_cs(s, 0);
    let b = spec_rskip_cs(s, s.len() as int);
    if a <= b {
        s.subrange(a, b)
    } else {
        Seq::empty()
    }
}

/// Strip leading and trailing commas and spaces; exact.
#[verifier::loop_isolation(false)]
fn trim_comma_space(s: &Vec<char>) -> (r: Vec<char>)
    ensures
        r@ == spec_trim_cs(s@),
{
    let mut a: usize = 0;
    while a < s.len() && (s[a] == ',' || s[a] == ' ')
        invariant
            0 <= a <= s@.len(),
            spec_skip_cs(s@, 0) == spec_skip_cs(s@, a as int),
        decreases s@.len() - a,
    {
        a += 1;
    }
    let mut b: usize = s.len();
    while b > 0 && (s[b - 1] == ',' || s[b - 1] == ' ')
        invariant
            0 <= b <= s@.len(),
            spec_rskip_cs(s@, s@.len() as int) == spec_rskip_cs(s@, b as int),
        decreases b,
    {
        b -= 1;
    }
    if a <= b {
        copy_range(s, a, b)
    } else {
        Vec::new()
    }
}

/// The bare-key quoting walk: an identifier outside every string, not
/// already quoted and followed (after spaces) by a colon, gains quotes.
pub open spec fn spec_quote_keys_from(
    s: Seq<char>,
    i: int,
    in_sq: bool,
    in_dq: bool,
    acc: Seq<char>,
) -> Seq<char>
    decreases s.len() - i,
{
    if !(0 <= i < s.len()) {
        acc
    } else {
        let c = s[i];
        if c == '\'' && !in_dq {
            spec_quote_keys_from(s, i + 1, !in_sq, in_dq, acc.push(c))
        } else if c == '"' && !in_sq {
            spec_quote_keys_from(s, i + 1, in_sq, !in_dq, acc.push(c))
        } else if !in_sq && !in_dq && is_ident(c) && !is_digit(c) && (i == 0 || (!is_ident(
            s[i - 1],
        ) && s[i - 1] != '"' && s[i - 1] != '\'')) {
            let e = spec_skip_ident(s, i);
            let w = spec_skip_space(s, e);
            if w < s.len() && s[w] == ':' && e > i {
                spec_quote_keys_from(
                    s,
                    e,
                    in_sq,
                    in_dq,
                    acc + seq!['"'] + s.subrange(i, e) + seq!['"'],
                )
            } else {
                spec_quote_keys_from(s, i + 1, in_sq, in_dq, acc.push(c))
            }
        } else {
            spec_quote_keys_from(s, i + 1, in_sq, in_dq, acc.push(c))
        }
    }
}

/// Quote every bare key; exact.
#[verifier::loop_isolation(false)]
fn quote_keys(s: &Vec<char>) -> (r: Vec<char>)
    ensures
        r@ == spec_quote_keys_from(s@, 0, false, false, Seq::empty()),
{
    let mut out: Vec<char> = Vec::new();
    let mut i: usize = 0;
    let mut in_sq: bool = false;
    let mut in_dq: bool = false;
    while i < s.len()
        invariant
            0 <= i <= s@.len(),
            spec_quote_keys_from(s@, 0, false, false, Seq::empty()) == spec_quote_keys_from(
                s@,
                i as int,
                in_sq,
                in_dq,
                out@,
            ),
        decreases s@.len() - i,
    {
        let c = s[i];
        if c == '\'' && !in_dq {
            in_sq = !in_sq;
            out.push(c);
            i += 1;
        } else if c == '"' && !in_sq {
            in_dq = !in_dq;
            out.push(c);
            i += 1;
        } else if !in_sq && !in_dq && ident_c(c) && !dig(c) && (i == 0 || (!ident_c(s[i - 1]) && s[i
            - 1] != '"' && s[i - 1] != '\'')) {
            let e = skip_ident(s, i);
            let w = skip_space(s, e);
            if w < s.len() && s[w] == ':' && e > i {
                let ghost pre = out@;
                out.push('"');
                crate::chars::push_range(s, i, e, &mut out);
                out.push('"');
                proof {
                    assert(out@ =~= pre + seq!['"'] + s@.subrange(i as int, e as int)
                        + seq!['"']);
                }
                i = e;
            } else {
                out.push(c);
                i += 1;
            }
        } else {
            out.push(c);
            i += 1;
        }
    }
    out
}

/// Every single quote swapped for a double one.
pub open spec fn spec_swap_quotes(s: Seq<char>) -> Seq<char> {
    Seq::new(
        s.len(),
        |i: int| if 0 <= i < s.len() && s[i] == '\'' {
            '"'
        } else if 0 <= i < s.len() {
            s[i]
        } else {
            ' '
        },
    )
}

/// Swap every single quote for a double one; exact.
#[verifier::loop_isolation(false)]
fn swap_quotes(s: &Vec<char>) -> (r: Vec<char>)
    ensures
        r@ == spec_swap_quotes(s@),
{
    let mut out: Vec<char> = Vec::new();
    let mut i: usize = 0;
    while i < s.len()
        invariant
            0 <= i <= s@.len(),
            out@.len() == i,
            forall|j: int| 0 <= j < i ==> out@[j] == spec_swap_quotes(s@)[j],
        decreases s@.len() - i,
    {
        if s[i] == '\'' {
            out.push('"');
        } else {
            out.push(s[i]);
        }
        i += 1;
    }
    assert(out@ =~= spec_swap_quotes(s@));
    out
}

/// First position at or before `j` bounding a trailing digit run.
pub open spec fn spec_back_digits(s: Seq<char>, j: int) -> int
    decreases j,
{
    if 0 < j <= s.len() && is_digit(s[j - 1]) {
        spec_back_digits(s, j - 1)
    } else {
        j
    }
}

/// The `f` at position `i` ends a `<digits>.<digits>f` literal.
pub open spec fn spec_drops_f(s: Seq<char>, i: int) -> bool {
    &&& 0 <= i < s.len()
    &&& s[i] == 'f'
    &&& (i + 1 >= s.len() || !is_ident(s[i + 1]))
    &&& i > 0
    &&& is_digit(s[i - 1])
    &&& {
        let j = spec_back_digits(s, i);
        j > 0 && j < i && s[j - 1] == '.' && j >= 2 && is_digit(s[j - 2])
    }
}

/// The float-suffix removal walk.
pub open spec fn spec_strip_f_from(s: Seq<char>, i: int, acc: Seq<char>) -> Seq<char>
    decreases s.len() - i,
{
    if !(0 <= i < s.len()) {
        acc
    } else if spec_drops_f(s, i) {
        spec_strip_f_from(s, i + 1, acc)
    } else {
        spec_strip_f_from(s, i + 1, acc.push(s[i]))
    }
}

/// Drop the `f` suffix of every `<digits>.<digits>f` literal; exact.
#[verifier::loop_isolation(false)]
fn strip_float_suffix(s: &Vec<char>) -> (r: Vec<char>)
    ensures
        r@ == spec_strip_f_from(s@, 0, Seq::empty()),
{
    let mut out: Vec<char> = Vec::new();
    let mut i: usize = 0;
    while i < s.len()
        invariant
            0 <= i <= s@.len(),
            spec_strip_f_from(s@, 0, Seq::empty()) == spec_strip_f_from(s@, i as int, out@),
        decreases s@.len() - i,
    {
        let c = s[i];
        let mut drop_f = false;
        if c == 'f' && (i + 1 >= s.len() || !ident_c(s[i + 1])) && i > 0 && dig(s[i - 1]) {
            let mut j = i;
            while j > 0 && dig(s[j - 1])
                invariant
                    0 <= j <= i < s@.len(),
                    spec_back_digits(s@, i as int) == spec_back_digits(s@, j as int),
                decreases j,
            {
                j -= 1;
            }
            proof {
                assert(j as int == spec_back_digits(s@, i as int));
            }
            if j > 0 && j < i && s[j - 1] == '.' && j >= 2 && dig(s[j - 2]) {
                drop_f = true;
            }
        }
        proof {
            assert(drop_f == spec_drops_f(s@, i as int));
        }
        if !drop_f {
            out.push(c);
        }
        i += 1;
    }
    out
}

/// A fragment with braces restored around its trimmed text.
pub open spec fn spec_braced(t: Seq<char>) -> Seq<char> {
    let left = if !(t.len() > 0 && t[0] == '{') {
        seq!['{']
    } else {
        Seq::<char>::empty()
    };
    let right = if !(t.len() > 0 && t[t.len() - 1] == '}') {
        seq!['}']
    } else {
        Seq::<char>::empty()
    };
    left + t + right
}

/// The fields of one normalized fragment, if it reads as a JSON mapping.
pub open spec fn spec_fragment_fields(fragment: Seq<char>) -> Option<Seq<(Seq<char>, Val)>> {
    let obj = spec_braced(spec_trim(fragment));
    let no_id = spec_strip_id_from(obj, 0, Seq::empty());
    let c0 = spec_trim_cs(no_id);
    let c1 = spec_replace2(c0, ',', ',', ',');
    let c2 = spec_replace2(c1, '{', ',', '{');
    let c3 = spec_replace2(c2, ',', '}', '}');
    let body = spec_braced(c3);
    if body.len() <= 2 {
        None
    } else {
        let quoted = spec_quote_keys_from(body, 0, false, false, Seq::empty());
        let swapped = spec_swap_quotes(quoted);
        let fixed = spec_strip_f_from(swapped, 0, Seq::empty());
        match spec_parse_json(fixed) {
            Some(v) => if v is Obj {
                Some(v->Obj_0)
            } else {
                None
            },
            None => None,
        }
    }
}

/// Restore braces around a trimmed fragment; exact.
#[verifier::loop_isolation(false)]
fn braced(t: &Vec<char>) -> (r: Vec<char>)
    ensures
        r@ == spec_braced(t@),
{
    let mut out: Vec<char> = Vec::new();
    if !(t.len() > 0 && t[0] == '{') {
        out.push('{');
    }
    crate::chars::push_range(t, 0, t.len(), &mut out);
    if !(t.len() > 0 && t[t.len() - 1] == '}') {
        out.push('}');
    }
    proof {
        assert(out@ =~= spec_braced(t@));
    }
    out
}

/// Normalize one fragment and read it as a JSON mapping; exact.
#[verifier::loop_isolation(false)]
fn fragment_fields(fragment: &Vec<char>) -> (r: Option<Vec<(Vec<char>, Value)>>)
    ensures
        (match (r, spec_fragment_fields(fragment@)) {
            (Some(fields), Some(w)) => dvf(fields@) == w,
            (None, None) => true,
            _ => false,
        }),
{
    let t0 = trim(fragment);
    let obj = braced(&t0);
    let no_id = strip_id_text(&obj);
    let cleaned0 = trim_comma_space(&no_id);
    let cleaned1 = replace2(&cleaned0, ',', ',', ',');
    let cleaned2 = replace2(&cleaned1, '{', ',', '{');
    let cleaned3 = replace2(&cleaned2, ',', '}', '}');
    let body = braced(&cleaned3);
    if body.len() <= 2 {
        return None;
    }
    let quoted = quote_keys(&body);
    let swapped = swap_quotes(&quoted);
    let fixed = strip_float_suffix(&swapped);
    match parse_json(&fixed) {
        Some(v) => {
            let ghost vd = v.dv();
            match v {
                Value::Obj(fields) => {
                    proof {
                        assert(vd->Obj_0 =~= dvf(fields@));
                    }
                    Some(fields)
                },
                _ => {
                    proof {
                        assert(!(vd is Obj));
                    }
                    None
                },
            }
        },
        None => None,
    }
}

/// The table headers of the chunk at or after `hp`: each `-- TABLE DATA:`
/// marker with a name, paired with its position.
pub open spec fn spec_headers_at(c: Seq<char>, hp: int) -> Seq<(int, Seq<char>)>
    decreases c.len() + 1 - hp,
{
    if !(0 <= hp <= c.len()) {
        Seq::empty()
    } else {
        match spec_find_sub_at(c, "-- TABLE DATA: "@, hp) {
            None => Seq::empty(),
            Some(p) => {
                if p >= c.len() || p + 1 <= hp {
                    Seq::empty()
                } else {
                    let n0 = spec_skip_space(c, p + "-- TABLE DATA: "@.len());
                    let n1 = spec_skip_ident(c, n0);
                    (if n1 > n0 {
                        seq![(p, c.subrange(n0, n1))]
                    } else {
                        Seq::<(int, Seq<char>)>::empty()
                    }) + spec_headers_at(c, p + 1)
                }
            },
        }
    }
}

/// The table of the last header before `p`, if any.
pub open spec fn spec_pick_header(headers: Seq<(int, Seq<char>)>, p: int, i: int, best: Option<
    Seq<char>,
>) -> Option<Seq<char>>
    decreases headers.len() - i,
{
    if !(0 <= i < headers.len()) {
        best
    } else {
        spec_pick_header(
            headers,
            p,
            i + 1,
            if headers[i].0 < p {
                Some(headers[i].1)
            } else {
                best
            },
        )
    }
}

/// The fragment split of an array body: pieces cut before each `, {`
/// boundary, the brace itself dropped (it is restored per fragment).
pub open spec fn spec_frags_at(b: Seq<char>, start: int, i: int, acc: Seq<Seq<char>>) -> Seq<
    Seq<char>,
>
    decreases b.len() - i,
{
    if !(0 <= start <= i < b.len()) {
        acc.push(b.subrange(if 0 <= start <= b.len() {
            start
        } else {
            0
        }, b.len() as int))
    } else if b[i] == ',' {
        let j = spec_skip_space(b, i + 1);
        if j < b.len() && b[j] == '{' && j + 1 > i {
            spec_frags_at(b, j + 1, j + 1, acc.push(b.subrange(start, i)))
        } else {
            spec_frags_at(b, start, i + 1, acc)
        }
    } else {
        spec_frags_at(b, start, i + 1, acc)
    }
}

/// The records of the fragments from `gi` on.
pub open spec fn spec_sur_frags(frags: Seq<Seq<char>>, table: Seq<char>, gi: int) -> Seq<
    (Seq<char>, Seq<(Seq<char>, Val)>),
>
    decreases frags.len() - gi,
{
    if !(0 <= gi < frags.len()) {
        Seq::empty()
    } else {
        (match spec_fragment_fields(frags[gi]) {
            Some(fields) => emit_record(table, fields),
            None => Seq::empty(),
        }) + spec_sur_frags(frags, table, gi + 1)
    }
}

/// The scan for the closing bracket of an insert array: square-bracket
/// depth and both quote kinds respected.
pub open spec fn spec_sur_end(c: Seq<char>, e: int, depth: int, in_sq: bool, in_dq: bool) -> Option<
    int,
>
    decreases c.len() - e,
{
    if !(0 <= e < c.len()) {
        None
    } else {
        let ch = c[e];
        if ch == '\'' && !in_dq {
            spec_sur_end(c, e + 1, depth, !in_sq, in_dq)
        } else if ch == '"' && !in_sq {
            spec_sur_end(c, e + 1, depth, in_sq, !in_dq)
        } else if ch == '[' && !in_sq && !in_dq {
            spec_sur_end(c, e + 1, if depth < e {
                depth + 1
            } else {
                depth
            }, in_sq, in_dq)
        } else if ch == ']' && !in_sq && !in_dq {
            if depth <= 1 {
                Some(e + 1)
            } else {
                spec_sur_end(c, e + 1, depth - 1, in_sq, in_dq)
            }
        } else {
            spec_sur_end(c, e + 1, depth, in_sq, in_dq)
        }
    }
}

/// The parse of every insert statement at or after `pos`, with the table
/// headers of the whole chunk in hand.
pub open spec fn spec_parse_surreal_at(
    c: Seq<char>,
    headers: Seq<(int, Seq<char>)>,
    pos: int,
) -> Seq<(Seq<char>, Seq<(Seq<char>, Val)>)>
    decreases c.len() + 1 - pos,
{
    if !(0 <= pos <= c.len()) {
        Seq::empty()
    } else {
        match spec_find_sub_at(c, "INSERT"@, pos) {
            None => Seq::empty(),
            Some(p) => {
                let next = if p < c.len() {
                    p + 1
                } else {
                    c.len() as int
                };
                if next <= pos {
                    Seq::empty()
                } else {
                    let k0 = spec_skip_space(c, p + "INSERT"@.len());
                    let has_into = sub_at(c, "INTO"@, k0);
                    let n0 = spec_skip_space(c, k0 + "INTO"@.len());
                    let n1 = spec_skip_ident(c, n0);
                    let explicit = has_into && n1 > n0;
                    let k = if explicit {
                        spec_skip_space(c, n1)
                    } else {
                        k0
                    };
                    if !(k < c.len() && c[k] == '[') {
                        spec_parse_surreal_at(c, headers, next)
                    } else {
                        match spec_sur_end(c, k + 1, 1, false, false) {
                            None => Seq::empty(),
                            Some(e) => {
                                let semi = spec_skip_space(c, e);
                                if !(semi < c.len() && c[semi] == ';') {
                                    spec_parse_surreal_at(c, headers, next)
                                } else {
                                    let table = if explicit {
                                        c.subrange(n0, n1)
                                    } else {
                                        match spec_pick_header(headers, p, 0, None) {
                                            Some(t) => t,
                                            None => "unknown_table"@,
                                        }
                                    };
                                    let body = c.subrange(k + 1, e - 1);
                                    let frags = spec_frags_at(body, 0, 0, Seq::empty());
                                    spec_sur_frags(frags, table, 0) + spec_parse_surreal_at(
                                        c,
                                        headers,
                                        next,
                                    )
                                }
                            },
                        }
                    }
                }
            },
        }
    }
}

/// The parse of a whole SurrealDB chunk.
pub open spec fn spec_parse_surreal(c: Seq<char>) -> Seq<(Seq<char>, Seq<(Seq<char>, Val)>)> {
    spec_parse_surreal_at(c, spec_headers_at(c, 0), 0)
}

/// The mathematical views of a record vector.
pub open spec fn recs_views(recs: Seq<Record>) -> Seq<(Seq<char>, Seq<(Seq<char>, Val)>)> {
    Seq::new(
        recs.len(),
        |i: int| if 0 <= i < recs.len() {
            rec_view(recs[i])
        } else {
            (Seq::empty(), Seq::empty())
        },
    )
}

/// The header views of the gathered header vector.
pub open spec fn header_views(h: Seq<(usize, Vec<char>)>) -> Seq<(int, Seq<char>)> {
    Seq::new(
        h.len(),
        |i: int| if 0 <= i < h.len() {
            (h[i].0 as int, h[i].1@)
        } else {
            (0int, Seq::empty())
        },
    )
}

/// Parse every `INSERT [INTO <table>] [ ... ];` statement of the chunk,
/// exactly as `spec_parse_surreal` states it: fragments that fail JSON
/// reconstruction contribute nothing, the rest come in statement and
/// fragment order, each meets the emission rules, and the table falls
/// back to the nearest preceding header or `unknown_table`; `None`
/// exactly when nothing yields a record.
#[verifier::loop_isolation(false)]
#[verifier::rlimit(100)]
pub fn parse_surreal(content: &Vec<char>) -> (r: Option<Vec<Record>>)
    ensures
        (match r {
            Some(recs) => recs_match(recs@, spec_parse_surreal(content@)) && recs@.len() > 0
                && all_wf(recs@),
            None => spec_parse_surreal(content@).len() == 0,
        }),
{
    let header_pat = str_to_chars("-- TABLE DATA: ");
    let mut headers: Vec<(usize, Vec<char>)> = Vec::new();
    let mut hp: usize = 0;
    proof {
        assert(header_views(headers@) =~= Seq::<(int, Seq<char>)>::empty());
    }
    loop
        invariant
            hp <= content@.len(),
            spec_headers_at(content@, 0) == header_views(headers@) + spec_headers_at(
                content@,
                hp as int,
            ),
        decreases content@.len() + 1 - hp,
    {
        let p = match find_sub_kw(content, header_pat.as_slice(), hp) {
            Some(p) => p,
            None => {
                proof {
                    assert(spec_headers_at(content@, 0) =~= header_views(headers@));
                }
                break ;
            },
        };
        if p >= content.len() || p + 1 <= hp {
            proof {
                assert(spec_headers_at(content@, hp as int) =~= Seq::<(int, Seq<char>)>::empty());
                assert(spec_headers_at(content@, 0) =~= header_views(headers@));
            }
            break ;
        }
        let n0 = skip_space(content, p + header_pat.len());
        let n1 = skip_ident(content, n0);
        if n1 > n0 {
            let ghost hpre = header_views(headers@);
            headers.push((p, copy_range(content, n0, n1)));
            proof {
                assert(header_views(headers@) =~= hpre.push(
                    (headers@.last().0 as int, headers@.last().1@),
                ));
                assert(spec_headers_at(content@, 0) =~= header_views(headers@)
                    + spec_headers_at(content@, p + 1));
            }
        } else {
            proof {
                assert(spec_headers_at(content@, 0) =~= header_views(headers@)
                    + spec_headers_at(content@, p + 1));
            }
        }
        hp = p + 1;
    }
    let ghost hviews = header_views(headers@);
    let insert_pat = str_to_chars("INSERT");
    let into_pat = str_to_chars("INTO");
    let unknown = str_to_chars("unknown_table");
    let mut records: Vec<Record> = Vec::new();
    let mut pos: usize = 0;
    proof {
        reveal_strlit("unknown_table");
        assert(recs_views(records@) =~= Seq::<(Seq<char>, Seq<(Seq<char>, Val)>)>::empty());
    }
    loop
        invariant
            pos <= content@.len(),
            all_wf(records@),
            hviews == header_views(headers@),
            hviews == spec_headers_at(content@, 0),
            unknown@ == "unknown_table"@,
            spec_parse_surreal(content@) == recs_views(records@) + spec_parse_surreal_at(
                content@,
                hviews,
                pos as int,
            ),
        decreases content@.len() - pos,
    {
        let p = match find_sub_kw(content, insert_pat.as_slice(), pos) {
            Some(p) => p,
            None => {
                proof {
                    assert(spec_parse_surreal(content@) =~= recs_views(records@));
                }
                break ;
            },
        };
        let next = if p < content.len() {
            p + 1
        } else {
            content.len()
        };
        if next <= pos {
            proof {
                assert(spec_parse_surreal(content@) =~= recs_views(records@));
            }
            break ;
        }
        let k0 = skip_space(content, p + insert_pat.len());
        let has_into = match_at(content, into_pat.as_slice(), k0);
        let mut explicit: bool = false;
        let mut n0: usize = 0;
        let mut n1: usize = 0;
        if has_into {
            n0 = skip_space(content, k0 + into_pat.len());
            n1 = skip_ident(content, n0);
            if n1 > n0 {
                explicit = true;
            }
        }
        let k = if explicit {
            skip_space(content, n1)
        } else {
            k0
        };
        proof {
            if explicit {
                assert(k as int == spec_skip_space(content@, spec_skip_ident(
                    content@,
                    spec_skip_space(content@, k0 + "INTO"@.len()),
                )));
            }
        }
        if !(k < content.len() && content[k] == '[') {
            proof {
                assert(spec_parse_surreal_at(content@, hviews, pos as int)
                    == spec_parse_surreal_at(content@, hviews, next as int));
            }
            pos = next;
            continue ;
        }
        let mut e: usize = k + 1;
        let mut depth: usize = 1;
        let mut in_sq: bool = false;
        let mut in_dq: bool = false;
        let mut closed: bool = false;
        while e < content.len() && !closed
            invariant
                k < e <= content@.len(),
                closed ==> k + 2 <= e && Some(e as int) == spec_sur_end(
                    content@,
                    k + 1,
                    1,
                    false,
                    false,
                ),
                !closed ==> spec_sur_end(content@, k + 1, 1, false, false) == spec_sur_end(
                    content@,
                    e as int,
                    depth as int,
                    in_sq,
                    in_dq,
                ),
            decreases content@.len() - e,
        {
            let c = content[e];
            if c == '\'' && !in_dq {
                in_sq = !in_sq;
            } else if c == '"' && !in_sq {
                in_dq = !in_dq;
            } else if c == '[' && !in_sq && !in_dq {
                if depth < e {
                    depth += 1;
                }
            } else if c == ']' && !in_sq && !in_dq {
                if depth <= 1 {
                    closed = true;
                } else {
                    depth -= 1;
                }
            }
            e += 1;
        }
        if !closed {
            proof {
                assert(spec_sur_end(content@, k + 1, 1, false, false) is None);
                assert(spec_parse_surreal_at(content@, hviews, pos as int) =~= Seq::<
                    (Seq<char>, Seq<(Seq<char>, Val)>),
                >::empty());
                assert(spec_parse_surreal(content@) =~= recs_views(records@));
            }
            break ;
        }
        let semi = skip_space(content, e);
        if !(semi < content.len() && content[semi] == ';') {
            proof {
                assert(spec_parse_surreal_at(content@, hviews, pos as int)
                    == spec_parse_surreal_at(content@, hviews, next as int));
            }
            pos = next;
            continue ;
        }
        let table: Vec<char> = if explicit {
            copy_range(content, n0, n1)
        } else {
            let mut best: Option<usize> = None;
            let mut hi: usize = 0;
            while hi < headers.len()
                invariant
                    0 <= hi <= headers@.len(),
                    hviews == header_views(headers@),
                    (match best {
                        Some(b) => b < headers@.len() && spec_pick_header(
                            hviews,
                            p as int,
                            hi as int,
                            Some(headers@[b as int].1@),
                        ) == spec_pick_header(hviews, p as int, 0, None),
                        None => spec_pick_header(hviews, p as int, hi as int, None)
                            == spec_pick_header(hviews, p as int, 0, None),
                    }),
                decreases headers@.len() - hi,
            {
                if headers[hi].0 < p {
                    best = Some(hi);
                }
                hi += 1;
            }
            match best {
                Some(b) => crate::value::clone_chars(&headers[b].1),
                None => crate::value::clone_chars(&unknown),
            }
        };
        proof {
            if explicit {
                assert(table@ == content@.subrange(n0 as int, n1 as int));
            } else {
                match spec_pick_header(hviews, p as int, 0, None) {
                    Some(t) => {
                        assert(table@ == t);
                    },
                    None => {
                        assert(table@ == "unknown_table"@);
                    },
                }
            }
        }
        let body = copy_range(content, k + 1, e - 1);
        let ghost frags_spec = spec_frags_at(body@, 0, 0, Seq::empty());
        let mut frag_start: usize = 0;
        let mut fi: usize = 0;
        let mut frags: Vec<Vec<char>> = Vec::new();
        proof {
            assert(crate::parser::views(frags@) =~= Seq::<Seq<char>>::empty());
        }
        while fi < body.len()
            invariant
                0 <= frag_start <= fi <= body@.len(),
                frags_spec == spec_frags_at(
                    body@,
                    frag_start as int,
                    fi as int,
                    crate::parser::views(frags@),
                ),
            decreases body@.len() - fi,
        {
            if body[fi] == ',' {
                let j = skip_space(&body, fi + 1);
                if j < body.len() && body[j] == '{' {
                    let ghost fpre = crate::parser::views(frags@);
                    frags.push(copy_range(&body, frag_start, fi));
                    proof {
                        assert(crate::parser::views(frags@) =~= fpre.push(frags@.last()@));
                    }
                    frag_start = j + 1;
                    fi = j + 1;
                    continue ;
                }
            }
            fi += 1;
        }
        let ghost fpre = crate::parser::views(frags@);
        frags.push(copy_range(&body, frag_start, body.len()));
        proof {
            assert(crate::parser::views(frags@) =~= fpre.push(frags@.last()@));
            assert(frags_spec =~= crate::parser::views(frags@));
        }
        let ghost fv = crate::parser::views(frags@);
        proof {
            assert(spec_parse_surreal_at(content@, hviews, pos as int) == spec_sur_frags(
                fv,
                table@,
                0,
            ) + spec_parse_surreal_at(content@, hviews, next as int));
        }
        let mut gi: usize = 0;
        let ghost base = recs_views(records@);
        while gi < frags.len()
            invariant
                0 <= gi <= frags@.len(),
                all_wf(records@),
                fv == crate::parser::views(frags@),
                base + spec_sur_frags(fv, table@, 0) =~= recs_views(records@) + spec_sur_frags(
                    fv,
                    table@,
                    gi as int,
                ),
            decreases frags@.len() - gi,
        {
            proof {
                assert(fv[gi as int] == frags@[gi as int]@);
            }
            let ghost row = (match spec_fragment_fields(fv[gi as int]) {
                Some(fields) => emit_record(table@, fields),
                None => Seq::<(Seq<char>, Seq<(Seq<char>, Val)>)>::empty(),
            });
            match fragment_fields(&frags[gi]) {
                Some(fields) => {
                    match build_record(crate::value::clone_chars(&table), fields) {
                        Some(rec) => {
                            let ghost rpre = records@;
                            records.push(rec);
                            proof {
                                assert(recs_views(records@) =~= recs_views(rpre).push(
                                    rec_view(records@[records@.len() - 1]),
                                ));
                                assert(row == seq![rec_view(records@[records@.len() - 1])]);
                                assert(base + spec_sur_frags(fv, table@, 0) =~= recs_views(
                                    records@,
                                ) + spec_sur_frags(fv, table@, gi + 1));
                            }
                        },
                        None => {
                            proof {
                                assert(row =~= Seq::<
                                    (Seq<char>, Seq<(Seq<char>, Val)>),
                                >::empty());
                                assert(base + spec_sur_frags(fv, table@, 0) =~= recs_views(
                                    records@,
                                ) + spec_sur_frags(fv, table@, gi + 1));
                            }
                        },
                    }
                },
                None => {
                    proof {
                        assert(row =~= Seq::<(Seq<char>, Seq<(Seq<char>, Val)>)>::empty());
                        assert(base + spec_sur_frags(fv, table@, 0) =~= recs_views(records@)
                            + spec_sur_frags(fv, table@, gi + 1));
                    }
                },
            }
            gi += 1;
        }
        proof {
            assert(spec_sur_frags(fv, table@, fv.len() as int) =~= Seq::<
                (Seq<char>, Seq<(Seq<char>, Val)>),
            >::empty());
            assert(base + spec_sur_frags(fv, table@, 0) =~= recs_views(records@));
            assert(spec_parse_surreal(content@) == recs_views(records@) + spec_parse_surreal_at(
                content@,
                hviews,
                next as int,
            ));
        }
        pos = next;
    }
    if records.len() == 0 {
        proof {
            assert(spec_parse_surreal(content@) =~= Seq::<
                (Seq<char>, Seq<(Seq<char>, Val)>),
            >::empty());
        }
        None
    } else {
        proof {
            assert(recs_match(records@, spec_parse_surreal(content@)));
        }
        Some(records)
    }
}

} // verus!
