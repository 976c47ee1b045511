//! The Oracle dump parser: `Insert into <qualified> (cols) values (...);`
//! statements, with function-call values kept whole and `to_timestamp`
//! unwrapped to its first quoted argument.

use vstd::prelude::*;
use crate::value::{Value, Val};
use crate::record::{Record, mk_record, clean_record_fields, ascii_lower};
use crate::chars::{str_to_chars, copy_range};
use crate::jsonp::{parse_json, spec_parse_json, spec_parse_number};
use crate::parser::{
    trim,
    spec_trim,
    split_char,
    spec_split,
    views,
    skip_space,
    spec_skip_space,
    find_char,
    spec_find_char,
    find_sub_kw,
    spec_find_sub_at,
    all_wf,
    is_ident,
    ident_c,
};
use crate::value::dvf;
use crate::record::{emit_record, rec_view, recs_match, build_record};

verus! {

broadcast use vstd::std_specs::vec::group_vec_axioms;

/// `pat` (lower case) matches `s` at `i` without regard to ASCII case.
pub open spec fn ci_at(s: Seq<char>, pat: Seq<char>, i: int) -> bool {
    0 <= i && i + pat.len() <= s.len() && forall|k: int|
        0 <= k < pat.len() ==> ascii_lower(s[i + k]) == pat[k]
}

/// Exact test for `ci_at`.
#[verifier::loop_isolation(false)]
pub fn match_ci_at(s: &Vec<char>, pat: &[char], i: usize) -> (r: bool)
    requires
        i <= s@.len(),
    ensures
        r == ci_at(s@, pat@, i as int),
{
    if s.len() - i < pat.len() {
        return false;
    }
    let mut j: usize = 0;
    while j < pat.len()
        invariant
            0 <= j <= pat@.len(),
            i + pat@.len() <= s@.len(),
            forall|k: int| 0 <= k < j ==> ascii_lower(s@[i + k]) == pat@[k],
        decreases pat@.len() - j,
    {
        let c = s[i + j];
        let lc = if 'A' <= c && c <= 'Z' {
            (((c as u8) + 32) as u8) as char
        } else {
            c
        };
        if lc != pat[j] {
            return false;
        }
        j += 1;
    }
    true
}

/// The value tokenizer walk: quote state and parenthesis depth, splitting
/// at top-level commas, quotes kept in the tokens.
pub open spec fn spec_ora_scan(
    s: Seq<char>,
    i: int,
    in_str: bool,
    depth: int,
    cur: Seq<char>,
    acc: Seq<Seq<char>>,
    ncols: int,
) -> Seq<Seq<char>>
    decreases s.len() - i,
{
    if !(0 <= i < s.len()) {
        if cur.len() > 0 || acc.len() < ncols {
            acc.push(spec_trim(cur))
        } else {
            acc
        }
    } else {
        let c = s[i];
        if c == '\'' && !in_str {
            spec_ora_scan(s, i + 1, true, depth, cur.push('\''), acc, ncols)
        } else if c == '\'' && in_str {
            if i + 1 < s.len() && s[i + 1] == '\'' {
                spec_ora_scan(s, i + 2, true, depth, cur.push('\'').push('\''), acc, ncols)
            } else {
                spec_ora_scan(s, i + 1, false, depth, cur.push('\''), acc, ncols)
            }
        } else if c == '(' {
            spec_ora_scan(s, i + 1, in_str, if in_str { depth } else { depth + 1 }, cur.push('('), acc, ncols)
        } else if c == ')' {
            spec_ora_scan(
                s,
                i + 1,
                in_str,
                if !in_str && depth > 0 {
                    depth - 1
                } else {
                    depth
                },
                cur.push(')'),
                acc,
                ncols,
            )
        } else if c == ',' && !in_str && depth == 0 {
            spec_ora_scan(s, i + 1, in_str, depth, Seq::empty(), acc.push(spec_trim(cur)), ncols)
        } else {
            spec_ora_scan(s, i + 1, in_str, depth, cur.push(c), acc, ncols)
        }
    }
}

/// Exact computation of `spec_ora_scan` from the start of a values text.
#[verifier::loop_isolation(false)]
pub fn ora_tokenize(s: &Vec<char>, ncols: usize) -> (r: Vec<Vec<char>>)
    ensures
        crate::parser::views(r@) == spec_ora_scan(
            s@,
            0,
            false,
            0,
            Seq::empty(),
            Seq::empty(),
            ncols as int,
        ),
{
    let mut acc: Vec<Vec<char>> = Vec::new();
    let ghost mut vs: Seq<Seq<char>> = Seq::empty();
    let mut cur: Vec<char> = Vec::new();
    let mut in_str: bool = false;
    let mut depth: usize = 0;
    let mut i: usize = 0;
    let ghost target = spec_ora_scan(s@, 0, false, 0, Seq::empty(), Seq::empty(), ncols as int);
    while i < s.len()
        invariant
            0 <= i <= s@.len(),
            depth <= i,
            target == spec_ora_scan(s@, i as int, in_str, depth as int, cur@, vs, ncols as int),
            crate::parser::views(acc@) =~= vs,
        decreases s@.len() - i,
    {
        let c = s[i];
        if c == '\'' && !in_str {
            cur.push('\'');
            in_str = true;
            i += 1;
        } else if c == '\'' && in_str {
            if i + 1 < s.len() && s[i + 1] == '\'' {
                cur.push('\'');
                cur.push('\'');
                i += 2;
            } else {
                cur.push('\'');
                in_str = false;
                i += 1;
            }
        } else if c == '(' {
            cur.push('(');
            if !in_str {
                depth += 1;
            }
            i += 1;
        } else if c == ')' {
            cur.push(')');
            if !in_str && depth > 0 {
                depth -= 1;
            }
            i += 1;
        } else if c == ',' && !in_str && depth == 0 {
            let piece = trim(&cur);
            proof {
                vs = vs.push(piece@);
            }
            acc.push(piece);
            assert(crate::parser::views(acc@) =~= vs);
            cur = Vec::new();
            i += 1;
        } else {
            cur.push(c);
            i += 1;
        }
    }
    if cur.len() > 0 || acc.len() < ncols {
        let piece = trim(&cur);
        proof {
            vs = vs.push(piece@);
        }
        acc.push(piece);
        assert(crate::parser::views(acc@) =~= vs);
    }
    acc
}

/// The token is `NULL`, without regard to ASCII case.
pub open spec fn is_null_ci(t: Seq<char>) -> bool {
    t.len() == 4 && ascii_lower(t[0]) == 'n' && ascii_lower(t[1]) == 'u' && ascii_lower(t[2])
        == 'l' && ascii_lower(t[3]) == 'l'
}

/// The decoding rule for one Oracle value token.
pub open spec fn spec_ora_value(t: Seq<char>) -> Val {
    if is_null_ci(t) {
        Val::Null
    } else if t.len() >= 2 && t[0] == '\'' && t[t.len() - 1] == '\'' {
        let inner = crate::parser::spec_undouble(t.subrange(1, t.len() - 1));
        if inner.len() >= 2 && ((inner[0] == '{' && inner[inner.len() - 1] == '}') || (inner[0]
            == '[' && inner[inner.len() - 1] == ']')) {
            match spec_parse_json(inner) {
                Some(v) => v,
                None => Val::Str(inner),
            }
        } else {
            Val::Str(inner)
        }
    } else if ci_at(t, "to_timestamp("@, 0) {
        let q1 = spec_find_char(t, 0, '\'');
        if q1 < 0 {
            Val::Str("timestamp_parse_error"@)
        } else {
            let q2 = spec_find_char(t, q1 + 1, '\'');
            if q2 < 0 {
                Val::Str("timestamp_parse_error"@)
            } else {
                Val::Str(t.subrange(q1 + 1, q2))
            }
        }
    } else {
        let (ov, end) = spec_parse_number(t, 0);
        match ov {
            Some(v) => if end == t.len() {
                v
            } else {
                Val::Str(t)
            },
            None => Val::Str(t),
        }
    }
}

/// Exact computation of `spec_ora_value`.
#[verifier::loop_isolation(false)]
pub fn ora_value(t: &Vec<char>) -> (r: Value)
    ensures
        r.dv() == spec_ora_value(t@),
{
    if t.len() == 4 {
        let mut lowered: Vec<char> = Vec::new();
        let mut k: usize = 0;
        while k < 4
            invariant
                0 <= k <= 4,
                t@.len() == 4,
                lowered@.len() == k,
                forall|j: int| 0 <= j < k ==> lowered@[j] == ascii_lower(t@[j]),
            decreases 4 - k,
        {
            let c = t[k];
            let lc = if 'A' <= c && c <= 'Z' {
                (((c as u8) + 32) as u8) as char
            } else {
                c
            };
            lowered.push(lc);
            k += 1;
        }
        if lowered[0] == 'n' && lowered[1] == 'u' && lowered[2] == 'l' && lowered[3] == 'l' {
            return Value::Null;
        }
    }
    assert(!is_null_ci(t@));
    if t.len() >= 2 && t[0] == '\'' && t[t.len() - 1] == '\'' {
        let body = copy_range(t, 1, t.len() - 1);
        let inner = crate::parser::undouble_quotes(&body);
        if inner.len() >= 2 && ((inner[0] == '{' && inner[inner.len() - 1] == '}') || (inner[0]
            == '[' && inner[inner.len() - 1] == ']')) {
            match parse_json(&inner) {
                Some(v) => {
                    return v;
                },
                None => {
                    return Value::Str(inner);
                },
            }
        }
        return Value::Str(inner);
    }
    let ts_pat = str_to_chars("to_timestamp(");
    if match_ci_at(t, ts_pat.as_slice(), 0) {
        let q1 = match find_char(t, 0, '\'') {
            Some(q) => q,
            None => {
                return Value::Str(str_to_chars("timestamp_parse_error"));
            },
        };
        let q2 = match find_char(t, q1 + 1, '\'') {
            Some(q) => q,
            None => {
                return Value::Str(str_to_chars("timestamp_parse_error"));
            },
        };
        return Value::Str(copy_range(t, q1 + 1, q2));
    }
    let (ov, end) = crate::jsonp::parse_number_at(t, 0);
    match ov {
        Some(v) => {
            if end == t.len() {
                v
            } else {
                Value::Str(crate::value::clone_chars(t))
            }
        },
        None => Value::Str(crate::value::clone_chars(t)),
    }
}

/// A character of a qualified table name: identifier, dot or quote.
pub open spec fn is_qual(ch: char) -> bool {
    is_ident(ch) || ch == '.' || ch == '"'
}

/// First position at or after `i` with no qualified-name character.
pub open spec fn spec_skip_qual(c: Seq<char>, i: int) -> int
    decreases c.len() - i,
{
    if 0 <= i < c.len() && is_qual(c[i]) {
        spec_skip_qual(c, i + 1)
    } else {
        i
    }
}

/// The table of a qualified name: quotes dropped, everything before the
/// last dot discarded.
pub open spec fn spec_table_of(q: Seq<char>, i: int, acc: Seq<char>) -> Seq<char>
    decreases q.len() - i,
{
    if !(0 <= i < q.len()) {
        acc
    } else if q[i] == '.' {
        spec_table_of(q, i + 1, Seq::empty())
    } else if q[i] == '"' {
        spec_table_of(q, i + 1, acc)
    } else {
        spec_table_of(q, i + 1, acc.push(q[i]))
    }
}

/// The text with every double quote dropped.
pub open spec fn spec_strip_dq(s: Seq<char>, i: int, acc: Seq<char>) -> Seq<char>
    decreases s.len() - i,
{
    if !(0 <= i < s.len()) {
        acc
    } else if s[i] == '"' {
        spec_strip_dq(s, i + 1, acc)
    } else {
        spec_strip_dq(s, i + 1, acc.push(s[i]))
    }
}

/// The parse of every insert statement at or after `pos`, in order: the
/// qualified table, the column list, the `values` tokenization, and one
/// emitted record per statement whose token count matches its columns.
pub open spec fn spec_parse_oracle_at(c: Seq<char>, pos: int) -> Seq<
    (Seq<char>, Seq<(Seq<char>, Val)>),
>
    decreases c.len() + 1 - pos,
{
    if !(0 <= pos <= c.len()) {
        Seq::empty()
    } else {
        match spec_find_sub_at(c, "Insert into "@, pos) {
            None => Seq::empty(),
            Some(p) => {
                let next = if p < c.len() {
                    p + 1
                } else {
                    c.len() as int
                };
                if next <= pos {
                    Seq::empty()
                } else {
                    let t0 = p + "Insert into "@.len();
                    let t1 = spec_skip_qual(c, t0);
                    let table = spec_table_of(c.subrange(t0, t1), 0, Seq::empty());
                    let q = spec_skip_space(c, t1);
                    if !(q < c.len() && c[q] == '(') {
                        spec_parse_oracle_at(c, next)
                    } else {
                        let cp = spec_find_char(c, q + 1, ')');
                        if cp < 0 {
                            Seq::empty()
                        } else {
                            let cols = spec_split(c.subrange(q + 1, cp), ',');
                            let vk = spec_skip_space(c, cp + 1);
                            if !ci_at(c, "values"@, vk) {
                                spec_parse_oracle_at(c, next)
                            } else {
                                let vo = spec_skip_space(c, vk + "values"@.len());
                                if !(vo < c.len() && c[vo] == '(') {
                                    spec_parse_oracle_at(c, next)
                                } else {
                                    match spec_find_sub_at(c, ");"@, vo + 1) {
                                        None => Seq::empty(),
                                        Some(vend) => {
                                            let vals = spec_ora_scan(
                                                c.subrange(vo + 1, vend),
                                                0,
                                                false,
                                                0,
                                                Seq::empty(),
                                                Seq::empty(),
                                                cols.len() as int,
                                            );
                                            let recs = if vals.len() != cols.len() {
                                                Seq::<(Seq<char>, Seq<(Seq<char>, Val)>)>::empty()
                                            } else {
                                                emit_record(
                                                    table,
                                                    Seq::new(
                                                        cols.len() as nat,
                                                        |i: int| if 0 <= i < cols.len() {
                                                            (
                                                                spec_strip_dq(
                                                                    spec_trim(cols[i]),
                                                                    0,
                                                                    Seq::empty(),
                                                                ),
                                                                spec_ora_value(vals[i]),
                                                            )
                                                        } else {
                                                            (Seq::empty(), Val::Null)
                                                        },
                                                    ),
                                                )
                                            };
                                            recs + spec_parse_oracle_at(c, next)
                                        },
                                    }
                                }
                            }
                        }
                    }
                }
            },
        }
    }
}

/// The parse of a whole Oracle chunk.
pub open spec fn spec_parse_oracle(c: Seq<char>) -> Seq<(Seq<char>, Seq<(Seq<char>, Val)>)> {
    spec_parse_oracle_at(c, 0)
}

/// The mathematical views of a record vector.
pub open spec fn recs_views(recs: Seq<Record>) -> Seq<(Seq<char>, Seq<(Seq<char>, Val)>)> {
    Seq::new(
        recs.len(),
        |i: int| if 0 <= i < recs.len() {
            rec_view(recs[i])
        } else {
            (Seq::empty(), Seq::empty())
        },
    )
}

/// Parse every `Insert into <qualified> (cols) values (...);` statement,
/// exactly as `spec_parse_oracle` states it: records come in statement
/// order and each meets the emission rules; `None` exactly when no
/// statement yields a record.
#[verifier::loop_isolation(false)]
pub fn parse_oracle(content: &Vec<char>) -> (r: Option<Vec<Record>>)
    ensures
        (match r {
            Some(recs) => recs_match(recs@, spec_parse_oracle(content@)) && recs@.len() > 0
                && all_wf(recs@),
            None => spec_parse_oracle(content@).len() == 0,
        }),
{
    let mut records: Vec<Record> = Vec::new();
    let pat = str_to_chars("Insert into ");
    let values_kw = str_to_chars("values");
    let closer = str_to_chars(");");
    let mut pos: usize = 0;
    proof {
        assert(recs_views(records@) =~= Seq::<(Seq<char>, Seq<(Seq<char>, Val)>)>::empty());
    }
    loop
        invariant
            pos <= content@.len(),
            all_wf(records@),
            spec_parse_oracle(content@) == recs_views(records@) + spec_parse_oracle_at(
                content@,
                pos as int,
            ),
        decreases content@.len() - pos,
    {
        let ghost no_more = Seq::<(Seq<char>, Seq<(Seq<char>, Val)>)>::empty();
        let p = match find_sub_kw(content, pat.as_slice(), pos) {
            Some(p) => p,
            None => {
                proof {
                    assert(spec_parse_oracle(content@) =~= recs_views(records@));
                }
                break ;
            },
        };
        let next = if p < content.len() {
            p + 1
        } else {
            content.len()
        };
        if next <= pos {
            proof {
                assert(spec_parse_oracle(content@) =~= recs_views(records@));
            }
            break ;
        }
        let t0 = p + pat.len();
        let mut t1: usize = t0;
        while t1 < content.len() && (ident_c(content[t1]) || content[t1] == '.' || content[t1]
            == '"')
            invariant
                t0 <= t1 <= content@.len(),
                spec_skip_qual(content@, t0 as int) == spec_skip_qual(content@, t1 as int),
            decreases content@.len() - t1,
        {
            t1 += 1;
        }
        proof {
            assert(t1 as int == spec_skip_qual(content@, t0 as int));
        }
        let qualified = copy_range(content, t0, t1);
        let mut table: Vec<char> = Vec::new();
        let mut ti: usize = 0;
        while ti < qualified.len()
            invariant
                0 <= ti <= qualified@.len(),
                spec_table_of(qualified@, 0, Seq::empty()) == spec_table_of(
                    qualified@,
                    ti as int,
                    table@,
                ),
            decreases qualified@.len() - ti,
        {
            let ch = qualified[ti];
            if ch == '.' {
                table = Vec::new();
            } else if ch != '"' {
                table.push(ch);
            }
            ti += 1;
        }
        proof {
            assert(table@ == spec_table_of(qualified@, 0, Seq::empty()));
        }
        let q = skip_space(content, t1);
        if !(q < content.len() && content[q] == '(') {
            proof {
                assert(spec_parse_oracle_at(content@, pos as int) == spec_parse_oracle_at(
                    content@,
                    next as int,
                ));
            }
            pos = next;
            continue ;
        }
        let cp = match find_char(content, q + 1, ')') {
            Some(cp) => cp,
            None => {
                proof {
                    assert(spec_parse_oracle_at(content@, pos as int) =~= no_more);
                    assert(spec_parse_oracle(content@) =~= recs_views(records@));
                }
                break ;
            },
        };
        let cols_text = copy_range(content, q + 1, cp);
        let raw_cols = split_char(&cols_text, ',');
        let vk = skip_space(content, cp + 1);
        if !match_ci_at(content, values_kw.as_slice(), vk) {
            proof {
                assert(spec_parse_oracle_at(content@, pos as int) == spec_parse_oracle_at(
                    content@,
                    next as int,
                ));
            }
            pos = next;
            continue ;
        }
        let vo = skip_space(content, vk + values_kw.len());
        if !(vo < content.len() && content[vo] == '(') {
            proof {
                assert(spec_parse_oracle_at(content@, pos as int) == spec_parse_oracle_at(
                    content@,
                    next as int,
                ));
            }
            pos = next;
            continue ;
        }
        let vend = match find_sub_kw(content, closer.as_slice(), vo + 1) {
            Some(e) => e,
            None => {
                proof {
                    assert(spec_parse_oracle_at(content@, pos as int) =~= no_more);
                    assert(spec_parse_oracle(content@) =~= recs_views(records@));
                }
                break ;
            },
        };
        let values_text = copy_range(content, vo + 1, vend);
        let fields = ora_tokenize(&values_text, raw_cols.len());
        let ghost colviews = views(raw_cols@);
        let ghost vals = views(fields@);
        if fields.len() != raw_cols.len() {
            proof {
                assert(vals.len() != colviews.len());
                assert(spec_parse_oracle_at(content@, pos as int) == spec_parse_oracle_at(
                    content@,
                    next as int,
                ));
            }
            pos = next;
            continue ;
        }
        let mut kv: Vec<(Vec<char>, Value)> = Vec::new();
        let mut fi: usize = 0;
        while fi < fields.len()
            invariant
                0 <= fi <= fields@.len(),
                fields@.len() == raw_cols@.len(),
                colviews == views(raw_cols@),
                vals == views(fields@),
                dvf(kv@).len() == fi,
                forall|j: int|
                    0 <= j < fi ==> #[trigger] dvf(kv@)[j] == (
                        spec_strip_dq(spec_trim(colviews[j]), 0, Seq::empty()),
                        spec_ora_value(vals[j]),
                    ),
            decreases fields@.len() - fi,
        {
            let tcol = trim(&raw_cols[fi]);
            let mut col: Vec<char> = Vec::new();
            let mut ci: usize = 0;
            while ci < tcol.len()
                invariant
                    0 <= ci <= tcol@.len(),
                    spec_strip_dq(tcol@, 0, Seq::empty()) == spec_strip_dq(
                        tcol@,
                        ci as int,
                        col@,
                    ),
                decreases tcol@.len() - ci,
            {
                if tcol[ci] != '"' {
                    col.push(tcol[ci]);
                }
                ci += 1;
            }
            proof {
                assert(col@ == spec_strip_dq(tcol@, 0, Seq::empty()));
                assert(colviews[fi as int] == raw_cols@[fi as int]@);
                assert(vals[fi as int] == fields@[fi as int]@);
            }
            let value = ora_value(&fields[fi]);
            let ghost pre = kv@;
            kv.push((col, value));
            proof {
                crate::value::dvf_push(pre, kv@);
            }
            fi += 1;
        }
        proof {
            assert(dvf(kv@) =~= Seq::new(
                colviews.len() as nat,
                |i: int| if 0 <= i < colviews.len() {
                    (
                        spec_strip_dq(spec_trim(colviews[i]), 0, Seq::empty()),
                        spec_ora_value(vals[i]),
                    )
                } else {
                    (Seq::empty(), Val::Null)
                },
            ));
        }
        let ghost row = emit_record(table@, dvf(kv@));
        proof {
            assert(spec_parse_oracle_at(content@, pos as int) == row + spec_parse_oracle_at(
                content@,
                next as int,
            ));
        }
        match build_record(table, kv) {
            Some(rec) => {
                let ghost rpre = records@;
                records.push(rec);
                proof {
                    assert(recs_views(records@) =~= recs_views(rpre).push(
                        rec_view(records@[records@.len() - 1]),
                    ));
                    assert(row == seq![rec_view(records@[records@.len() - 1])]);
                    assert(spec_parse_oracle(content@) == recs_views(records@)
                        + spec_parse_oracle_at(content@, next as int));
                }
            },
            None => {
                proof {
                    assert(row =~= Seq::<(Seq<char>, Seq<(Seq<char>, Val)>)>::empty());
                    assert(spec_parse_oracle(content@) == recs_views(records@)
                        + spec_parse_oracle_at(content@, next as int));
                }
            },
        }
        pos = next;
    }
    if records.len() == 0 {
        proof {
            assert(spec_parse_oracle(content@) =~= Seq::<
                (Seq<char>, Seq<(Seq<char>, Val)>),
            >::empty());
        }
        None
    } else {
        proof {
            assert(recs_match(records@, spec_parse_oracle(content@)));
        }
        Some(records)
    }
}

} // verus!
