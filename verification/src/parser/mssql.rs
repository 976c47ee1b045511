//! The MSSQL dump parser: `INSERT [schema].[table] [(cols)] VALUES (...)`
//! statements, with `N'...'` strings, doubled-quote escapes and `CAST`
//! wrappers unwrapped to their inner value.

use vstd::prelude::*;
use crate::value::{Value, Val};
use crate::record::{Record, mk_record, clean_record_fields};
use crate::chars::{str_to_chars, copy_range, match_at, contains_sub, sub_at};
use crate::jsonp::{parse_json, spec_parse_json, spec_parse_number};
use crate::parser::{
    trim,
    spec_trim,
    split_char,
    spec_split,
    views,
    skip_space,
    spec_skip_space,
    skip_ident,
    spec_skip_ident,
    find_char,
    spec_find_char,
    find_sub_kw,
    spec_find_sub_at,
    all_wf,
};
use crate::value::dvf;
use crate::record::{emit_record, rec_view, recs_match, build_record};

verus! {

broadcast use vstd::std_specs::vec::group_vec_axioms;

/// Positional default column names: `id`, `name`, `description`, then
/// `column<i>`.
pub open spec fn spec_default_col(i: int) -> Seq<char> {
    if i == 0 {
        "id"@
    } else if i == 1 {
        "name"@
    } else if i == 2 {
        "description"@
    } else {
        "column"@ + crate::json::dec_digits(i as nat)
    }
}

/// Exact computation of `spec_default_col`.
pub fn default_col(i: usize) -> (r: Vec<char>)
    ensures
        r@ == spec_default_col(i as int),
{
    if i == 0 {
        let v = str_to_chars("id");
        proof {
            assert(v@ == "id"@);
        }
        v
    } else if i == 1 {
        str_to_chars("name")
    } else if i == 2 {
        str_to_chars("description")
    } else {
        let mut v = str_to_chars("column");
        crate::json::push_dec(i as u64, &mut v);
        v
    }
}

/// The group tokenizer walk: `N'` opens a string, `''` escapes inside it,
/// parentheses outside strings track depth, top-level commas split.
pub open spec fn spec_ms_scan(
    s: Seq<char>,
    i: int,
    in_str: bool,
    depth: int,
    cur: Seq<char>,
    acc: Seq<Seq<char>>,
) -> Seq<Seq<char>>
    decreases s.len() - i,
{
    if !(0 <= i < s.len()) {
        if cur.len() > 0 {
            acc.push(spec_trim(cur))
        } else {
            acc
        }
    } else {
        let c = s[i];
        if c == '\'' && !in_str {
            if cur.len() > 0 && cur[cur.len() - 1] == 'N' {
                spec_ms_scan(s, i + 1, true, depth, cur.push('\''), acc)
            } else {
                spec_ms_scan(s, i + 1, in_str, depth, cur.push('\''), acc)
            }
        } else if c == '\'' && in_str {
            if i + 1 < s.len() && s[i + 1] == '\'' {
                spec_ms_scan(s, i + 2, true, depth, cur.push('\'').push('\''), acc)
            } else {
                spec_ms_scan(s, i + 1, false, depth, cur.push('\''), acc)
            }
        } else if c == '(' && !in_str {
            spec_ms_scan(s, i + 1, in_str, depth + 1, cur.push('('), acc)
        } else if c == ')' && !in_str {
            spec_ms_scan(
                s,
                i + 1,
                in_str,
                if depth > 0 {
                    depth - 1
                } else {
                    depth
                },
                cur.push(')'),
                acc,
            )
        } else if c == ',' && !in_str && depth == 0 {
            spec_ms_scan(s, i + 1, in_str, depth, Seq::empty(), acc.push(spec_trim(cur)))
        } else {
            spec_ms_scan(s, i + 1, in_str, depth, cur.push(c), acc)
        }
    }
}

/// Exact computation of `spec_ms_scan` from the start of a group body.
#[verifier::loop_isolation(false)]
pub fn ms_tokenize(s: &Vec<char>) -> (r: Vec<Vec<char>>)
    ensures
        crate::parser::views(r@) == spec_ms_scan(s@, 0, false, 0, Seq::empty(), Seq::empty()),
{
    let mut acc: Vec<Vec<char>> = Vec::new();
    let ghost mut vs: Seq<Seq<char>> = Seq::empty();
    let mut cur: Vec<char> = Vec::new();
    let mut in_str: bool = false;
    let mut depth: usize = 0;
    let mut i: usize = 0;
    let ghost target = spec_ms_scan(s@, 0, false, 0, Seq::empty(), Seq::empty());
    while i < s.len()
        invariant
            0 <= i <= s@.len(),
            depth <= i,
            target == spec_ms_scan(s@, i as int, in_str, depth as int, cur@, vs),
            crate::parser::views(acc@) =~= vs,
        decreases s@.len() - i,
    {
        let c = s[i];
        if c == '\'' && !in_str {
            if cur.len() > 0 && cur[cur.len() - 1] == 'N' {
                cur.push('\'');
                in_str = true;
            } else {
                cur.push('\'');
            }
            i += 1;
        } else if c == '\'' && in_str {
            if i + 1 < s.len() && s[i + 1] == '\'' {
                cur.push('\'');
                cur.push('\'');
                i += 2;
            } else {
                cur.push('\'');
                in_str = false;
                i += 1;
            }
        } else if c == '(' && !in_str {
            cur.push('(');
            depth += 1;
            i += 1;
        } else if c == ')' && !in_str {
            cur.push(')');
            if depth > 0 {
                depth -= 1;
            }
            i += 1;
        } else if c == ',' && !in_str && depth == 0 {
            let piece = trim(&cur);
            proof {
                vs = vs.push(piece@);
            }
            acc.push(piece);
            assert(crate::parser::views(acc@) =~= vs);
            cur = Vec::new();
            i += 1;
        } else {
            cur.push(c);
            i += 1;
        }
    }
    if cur.len() > 0 {
        let piece = trim(&cur);
        proof {
            vs = vs.push(piece@);
        }
        acc.push(piece);
        assert(crate::parser::views(acc@) =~= vs);
    }
    acc
}

/// Where the `CAST` inner value ends: the first ` AS` at or after `a`.
pub open spec fn spec_cast_end(t: Seq<char>, a: int) -> Option<int> {
    crate::parser::spec_find_sub_at(t, " AS"@, a)
}

/// The decoding rule for one MSSQL value token.
pub open spec fn spec_ms_value(t: Seq<char>) -> Val
    decreases t.len(),
{
    if t == "NULL"@ {
        Val::Null
    } else if t.len() >= 3 && t[0] == 'N' && t[1] == '\'' && t[t.len() - 1] == '\'' {
        let inner = crate::parser::spec_undouble(t.subrange(2, t.len() - 1));
        if inner.len() >= 2 && ((inner[0] == '{' && inner[inner.len() - 1] == '}') || (inner[0]
            == '[' && inner[inner.len() - 1] == ']')) {
            match spec_parse_json(inner) {
                Some(v) => v,
                None => Val::Str(inner),
            }
        } else {
            Val::Str(inner)
        }
    } else if t.len() >= 5 && t.subrange(0, 5) == "CAST("@ {
        match spec_cast_end(t, 5) {
            Some(e) => {
                let a = crate::parser::spec_skip_space(t, 5);
                let a2 = if a < t.len() && t[a] == 'N' && a + 1 < t.len() && t[a + 1] == '\'' {
                    a + 2
                } else if a < t.len() && t[a] == '\'' {
                    a + 1
                } else {
                    a
                };
                if a2 <= e && e <= t.len() {
                    let body = t.subrange(a2, e);
                    let inner = if body.len() > 0 && body[body.len() - 1] == '\'' {
                        body.subrange(0, body.len() - 1)
                    } else {
                        body
                    };
                    if inner.len() < t.len() {
                        spec_ms_value(spec_trim_len_le(inner))
                    } else {
                        Val::Str(t)
                    }
                } else {
                    Val::Str(t)
                }
            },
            None => Val::Str(t),
        }
    } else if t == "0"@ {
        Val::Bool(false)
    } else if t == "1"@ {
        Val::Bool(true)
    } else {
        let (ov, end) = spec_parse_number(t, 0);
        match ov {
            Some(v) => if end == t.len() {
                v
            } else {
                Val::Str(t)
            },
            None => Val::Str(t),
        }
    }
}

/// Trimming never lengthens a sequence; a form of `spec_trim` whose
/// result is visibly no longer than its argument.
pub open spec fn spec_trim_len_le(s: Seq<char>) -> Seq<char> {
    let t = spec_trim(s);
    if t.len() <= s.len() {
        t
    } else {
        s
    }
}

/// Exact computation of `spec_ms_value`.
#[verifier::loop_isolation(false)]
pub fn ms_value(t: &Vec<char>) -> (r: Value)
    ensures
        r.dv() == spec_ms_value(t@),
    decreases t@.len(),
{
    let null_lit = str_to_chars("NULL");
    if crate::chars::eq_chars(t, &null_lit) {
        proof {
            assert(t@ == "NULL"@);
        }
        return Value::Null;
    }
    if t.len() >= 3 && t[0] == 'N' && t[1] == '\'' && t[t.len() - 1] == '\'' {
        let body = copy_range(t, 2, t.len() - 1);
        let inner = crate::parser::undouble_quotes(&body);
        if inner.len() >= 2 && ((inner[0] == '{' && inner[inner.len() - 1] == '}') || (inner[0]
            == '[' && inner[inner.len() - 1] == ']')) {
            match parse_json(&inner) {
                Some(v) => {
                    return v;
                },
                None => {
                    return Value::Str(inner);
                },
            }
        }
        return Value::Str(inner);
    }
    let cast_pat = str_to_chars("CAST(");
    let is_cast = t.len() >= 5 && match_at(t, cast_pat.as_slice(), 0);
    proof {
        reveal_strlit("CAST(");
    }
    if is_cast {
        proof {
            assert(t@.subrange(0, 5) == "CAST("@);
        }
        let as_pat = str_to_chars(" AS");
        match find_sub_kw(t, as_pat.as_slice(), 5) {
            Some(e) => {
                let a = skip_space(t, 5);
                let a2: usize = if a < t.len() && t[a] == 'N' && a + 1 < t.len() && t[a + 1]
                    == '\'' {
                    a + 2
                } else if a < t.len() && t[a] == '\'' {
                    a + 1
                } else {
                    a
                };
                if a2 <= e && e <= t.len() {
                    let body = copy_range(t, a2, e);
                    let inner = if body.len() > 0 && body[body.len() - 1] == '\'' {
                        copy_range(&body, 0, body.len() - 1)
                    } else {
                        body
                    };
                    if inner.len() < t.len() {
                        let tr = trim(&inner);
                        if tr.len() <= inner.len() {
                            assert(tr@ == spec_trim_len_le(inner@));
                            return ms_value(&tr);
                        }
                        assert(inner@ == spec_trim_len_le(inner@));
                        return ms_value(&inner);
                    }
                    return Value::Str(crate::value::clone_chars(t));
                }
                return Value::Str(crate::value::clone_chars(t));
            },
            None => {
                return Value::Str(crate::value::clone_chars(t));
            },
        }
    }
    assert(!(t@.len() >= 5 && t@.subrange(0, 5) == "CAST("@));
    if t.len() == 1 && t[0] == '0' {
        proof {
            reveal_strlit("0");
            reveal_strlit("1");
            assert(t@ =~= "0"@);
        }
        return Value::Bool(false);
    }
    if t.len() == 1 && t[0] == '1' {
        proof {
            reveal_strlit("0");
            reveal_strlit("1");
            assert(t@ =~= "1"@);
        }
        return Value::Bool(true);
    }
    proof {
        reveal_strlit("0");
        reveal_strlit("1");
    }
    let (ov, end) = crate::jsonp::parse_number_at(t, 0);
    match ov {
        Some(v) => {
            if end == t.len() {
                v
            } else {
                Value::Str(crate::value::clone_chars(t))
            }
        },
        None => Value::Str(crate::value::clone_chars(t)),
    }
}

/// Every record's table names a bracketed insert target of the chunk.
pub open spec fn tables_tied(recs: Seq<Record>, c: Seq<char>) -> bool {
    forall|i: int|
        0 <= i < recs.len() ==> contains_sub(c, "].["@ + (#[trigger] recs[i]).table@ + seq![']'])
}

/// The mathematical views of a record vector.
pub open spec fn recs_views(recs: Seq<Record>) -> Seq<(Seq<char>, Seq<(Seq<char>, Val)>)> {
    Seq::new(
        recs.len(),
        |i: int| if 0 <= i < recs.len() {
            rec_view(recs[i])
        } else {
            (Seq::empty(), Seq::empty())
        },
    )
}

/// The text with every square bracket dropped.
pub open spec fn spec_strip_brackets(s: Seq<char>, i: int, acc: Seq<char>) -> Seq<char>
    decreases s.len() - i,
{
    if !(0 <= i < s.len()) {
        acc
    } else if s[i] == '[' || s[i] == ']' {
        spec_strip_brackets(s, i + 1, acc)
    } else {
        spec_strip_brackets(s, i + 1, acc.push(s[i]))
    }
}

/// The scan for the end of a values group: `N'` strings, doubled quotes
/// and parenthesis depth respected; the position just after the closing
/// parenthesis.
pub open spec fn spec_ms_group_end(c: Seq<char>, e: int, depth: int, in_str: bool) -> Option<int>
    decreases c.len() - e,
{
    if !(0 <= e < c.len()) {
        None
    } else {
        let ch = c[e];
        if ch == '\'' && !in_str && e > 0 && c[e - 1] == 'N' {
            spec_ms_group_end(c, e + 1, depth, true)
        } else if ch == '\'' && in_str {
            if e + 1 < c.len() && c[e + 1] == '\'' {
                spec_ms_group_end(c, e + 2, depth, true)
            } else {
                spec_ms_group_end(c, e + 1, depth, false)
            }
        } else if ch == '(' && !in_str {
            spec_ms_group_end(c, e + 1, depth + 1, in_str)
        } else if ch == ')' && !in_str {
            if depth == 1 {
                Some(e + 1)
            } else {
                spec_ms_group_end(c, e + 1, depth - 1, in_str)
            }
        } else {
            spec_ms_group_end(c, e + 1, depth, in_str)
        }
    }
}

/// The records of one values group: positional defaults when no column
/// list was given, one record when the counts agree.
pub open spec fn spec_ms_group(
    c: Seq<char>,
    open: int,
    e: int,
    table: Seq<char>,
    cols_opt: Option<Seq<Seq<char>>>,
) -> Seq<(Seq<char>, Seq<(Seq<char>, Val)>)> {
    let vals = spec_ms_scan(c.subrange(open + 1, e - 1), 0, false, 0, Seq::empty(), Seq::empty());
    let cols = match cols_opt {
        Some(cv) => cv,
        None => Seq::new(vals.len(), |i: int| spec_default_col(i)),
    };
    if vals.len() != cols.len() {
        Seq::empty()
    } else {
        emit_record(
            table,
            Seq::new(
                cols.len() as nat,
                |i: int| if 0 <= i < cols.len() {
                    (cols[i], spec_ms_value(vals[i]))
                } else {
                    (Seq::empty(), Val::Null)
                },
            ),
        )
    }
}

/// The records of the comma-separated values groups from `g` on.
pub open spec fn spec_ms_groups(
    c: Seq<char>,
    g: int,
    table: Seq<char>,
    cols_opt: Option<Seq<Seq<char>>>,
) -> Seq<(Seq<char>, Seq<(Seq<char>, Val)>)>
    decreases c.len() + 1 - g,
{
    if !(0 <= g < c.len() && c[g] == '(') {
        Seq::empty()
    } else {
        match spec_ms_group_end(c, g + 1, 1, false) {
            None => Seq::empty(),
            Some(e) => {
                let recs = spec_ms_group(c, g, e, table, cols_opt);
                let g2 = spec_skip_space(c, e);
                let g3 = if g2 < c.len() && c[g2] == ',' {
                    spec_skip_space(c, g2 + 1)
                } else {
                    g2
                };
                if g3 <= g || g3 > c.len() {
                    recs
                } else {
                    recs + spec_ms_groups(c, g3, table, cols_opt)
                }
            },
        }
    }
}

/// The column names of an insert's own list: trimmed, brackets dropped.
pub open spec fn spec_ms_cols(cols: Seq<Seq<char>>) -> Seq<Seq<char>> {
    Seq::new(
        cols.len(),
        |i: int| if 0 <= i < cols.len() {
            spec_strip_brackets(spec_trim(cols[i]), 0, Seq::empty())
        } else {
            Seq::empty()
        },
    )
}

/// The parse of every bracketed insert statement at or after `pos`.
pub open spec fn spec_parse_mssql_at(c: Seq<char>, pos: int) -> Seq<
    (Seq<char>, Seq<(Seq<char>, Val)>),
>
    decreases c.len() + 1 - pos,
{
    if !(0 <= pos <= c.len()) {
        Seq::empty()
    } else {
        match spec_find_sub_at(c, "INSERT ["@, pos) {
            None => Seq::empty(),
            Some(p) => {
                let next = if p < c.len() {
                    p + 1
                } else {
                    c.len() as int
                };
                if next <= pos {
                    Seq::empty()
                } else {
                    let after = p + "INSERT ["@.len();
                    let t0 = if sub_at(c, "dbo].["@, after) {
                        after + "dbo].["@.len()
                    } else if sub_at(c, "DB_OWNER].["@, after) {
                        after + "DB_OWNER].["@.len()
                    } else {
                        -1
                    };
                    if t0 < 0 {
                        spec_parse_mssql_at(c, next)
                    } else {
                        let t1 = spec_skip_ident(c, t0);
                        if !(t1 < c.len() && c[t1] == ']') {
                            spec_parse_mssql_at(c, next)
                        } else {
                            let table = c.subrange(t0, t1);
                            let k0 = spec_skip_space(c, t1 + 1);
                            if k0 < c.len() && c[k0] == '(' {
                                let cp = spec_find_char(c, k0 + 1, ')');
                                if cp < 0 {
                                    Seq::empty()
                                } else {
                                    let cols = spec_ms_cols(
                                        spec_split(c.subrange(k0 + 1, cp), ','),
                                    );
                                    let k = spec_skip_space(c, cp + 1);
                                    if !sub_at(c, "VALUES"@, k) {
                                        spec_parse_mssql_at(c, next)
                                    } else {
                                        let g0 = spec_skip_space(c, k + "VALUES"@.len());
                                        let cols_opt = if cols.len() > 0 {
                                            Some(cols)
                                        } else {
                                            None
                                        };
                                        spec_ms_groups(c, g0, table, cols_opt)
                                            + spec_parse_mssql_at(c, next)
                                    }
                                }
                            } else {
                                if !sub_at(c, "VALUES"@, k0) {
                                    spec_parse_mssql_at(c, next)
                                } else {
                                    let g0 = spec_skip_space(c, k0 + "VALUES"@.len());
                                    spec_ms_groups(c, g0, table, None) + spec_parse_mssql_at(
                                        c,
                                        next,
                                    )
                                }
                            }
                        }
                    }
                }
            },
        }
    }
}

/// The parse of a whole MSSQL chunk.
pub open spec fn spec_parse_mssql(c: Seq<char>) -> Seq<(Seq<char>, Seq<(Seq<char>, Val)>)> {
    spec_parse_mssql_at(c, 0)
}

/// Parse every `INSERT [schema].[table] [(cols)] VALUES (...)[,(...)]`
/// statement, exactly as `spec_parse_mssql` states it: records come in
/// statement and group order, each meets the emission rules and its table
/// names an insert target of the chunk; `None` exactly when nothing
/// yields a record.
#[verifier::loop_isolation(false)]
#[verifier::rlimit(60)]
pub fn parse_mssql(content: &Vec<char>) -> (r: Option<Vec<Record>>)
    ensures
        (match r {
            Some(recs) => recs_match(recs@, spec_parse_mssql(content@)) && recs@.len() > 0
                && all_wf(recs@) && tables_tied(recs@, content@),
            None => spec_parse_mssql(content@).len() == 0,
        }),
{
    let mut records: Vec<Record> = Vec::new();
    let pat = str_to_chars("INSERT [");
    let dbo = str_to_chars("dbo].[");
    let owner = str_to_chars("DB_OWNER].[");
    let values_kw = str_to_chars("VALUES");
    let mut pos: usize = 0;
    proof {
        assert(recs_views(records@) =~= Seq::<(Seq<char>, Seq<(Seq<char>, Val)>)>::empty());
    }
    loop
        invariant
            pos <= content@.len(),
            all_wf(records@),
            tables_tied(records@, content@),
            spec_parse_mssql(content@) == recs_views(records@) + spec_parse_mssql_at(
                content@,
                pos as int,
            ),
        decreases content@.len() - pos,
    {
        let p = match find_sub_kw(content, pat.as_slice(), pos) {
            Some(p) => p,
            None => {
                proof {
                    assert(spec_parse_mssql(content@) =~= recs_views(records@));
                }
                break ;
            },
        };
        let next = if p < content.len() {
            p + 1
        } else {
            content.len()
        };
        if next <= pos {
            proof {
                assert(spec_parse_mssql(content@) =~= recs_views(records@));
            }
            break ;
        }
        let after = p + pat.len();
        let t0: usize;
        if match_at(content, dbo.as_slice(), after) {
            t0 = after + dbo.len();
            proof {
                reveal_strlit("dbo].[");
                reveal_strlit("].[");
                assert forall|k: int| 0 <= k < 3 implies content@[t0 - 3 + k] == "].["@[k] by {
                    assert(content@.subrange(after as int, after + dbo@.len())[3 + k] == dbo@[3
                        + k]);
                }
                assert(content@.subrange(t0 - 3, t0 as int) =~= "].["@);
            }
        } else if match_at(content, owner.as_slice(), after) {
            t0 = after + owner.len();
            proof {
                reveal_strlit("DB_OWNER].[");
                reveal_strlit("].[");
                assert forall|k: int| 0 <= k < 3 implies content@[t0 - 3 + k] == "].["@[k] by {
                    assert(content@.subrange(after as int, after + owner@.len())[8 + k] == owner@[8
                        + k]);
                }
                assert(content@.subrange(t0 - 3, t0 as int) =~= "].["@);
            }
        } else {
            proof {
                assert(spec_parse_mssql_at(content@, pos as int) == spec_parse_mssql_at(
                    content@,
                    next as int,
                ));
            }
            pos = next;
            continue ;
        }
        let t1 = skip_ident(content, t0);
        if !(t1 < content.len() && content[t1] == ']') {
            proof {
                assert(spec_parse_mssql_at(content@, pos as int) == spec_parse_mssql_at(
                    content@,
                    next as int,
                ));
            }
            pos = next;
            continue ;
        }
        let table = copy_range(content, t0, t1);
        proof {
            assert(t0 >= 3);
            assert(content@.subrange(t0 - 3, t1 + 1) =~= "].["@ + table@ + seq![']']);
            assert(sub_at(content@, "].["@ + table@ + seq![']'], t0 - 3));
        }
        let mut cols: Vec<Vec<char>> = Vec::new();
        let mut have_cols: bool = false;
        let mut k = skip_space(content, t1 + 1);
        let ghost mut colviews: Seq<Seq<char>> = Seq::empty();
        if k < content.len() && content[k] == '(' {
            let cp = match find_char(content, k + 1, ')') {
                Some(cp) => cp,
                None => {
                    proof {
                        assert(spec_parse_mssql_at(content@, pos as int) =~= Seq::<
                            (Seq<char>, Seq<(Seq<char>, Val)>),
                        >::empty());
                        assert(spec_parse_mssql(content@) =~= recs_views(records@));
                    }
                    break ;
                },
            };
            let cols_text = copy_range(content, k + 1, cp);
            let raw_cols = split_char(&cols_text, ',');
            let ghost rawviews = views(raw_cols@);
            let mut ci: usize = 0;
            while ci < raw_cols.len()
                invariant
                    0 <= ci <= raw_cols@.len(),
                    rawviews == views(raw_cols@),
                    views(cols@).len() == ci,
                    forall|j: int|
                        0 <= j < ci ==> #[trigger] views(cols@)[j] == spec_strip_brackets(
                            spec_trim(rawviews[j]),
                            0,
                            Seq::empty(),
                        ),
                decreases raw_cols@.len() - ci,
            {
                let tcol = trim(&raw_cols[ci]);
                let mut col: Vec<char> = Vec::new();
                let mut cj: usize = 0;
                while cj < tcol.len()
                    invariant
                        0 <= cj <= tcol@.len(),
                        spec_strip_brackets(tcol@, 0, Seq::empty()) == spec_strip_brackets(
                            tcol@,
                            cj as int,
                            col@,
                        ),
                    decreases tcol@.len() - cj,
                {
                    if tcol[cj] != '[' && tcol[cj] != ']' {
                        col.push(tcol[cj]);
                    }
                    cj += 1;
                }
                proof {
                    assert(col@ == spec_strip_brackets(tcol@, 0, Seq::empty()));
                    assert(rawviews[ci as int] == raw_cols@[ci as int]@);
                }
                let ghost cpre = views(cols@);
                cols.push(col);
                proof {
                    assert(views(cols@) =~= cpre.push(cols@.last()@));
                }
                ci += 1;
            }
            proof {
                colviews = spec_ms_cols(rawviews);
                assert(views(cols@) =~= colviews);
            }
            have_cols = true;
            k = skip_space(content, cp + 1);
        }
        if !match_at(content, values_kw.as_slice(), k) {
            proof {
                assert(spec_parse_mssql_at(content@, pos as int) == spec_parse_mssql_at(
                    content@,
                    next as int,
                ));
            }
            pos = next;
            continue ;
        }
        let mut g = skip_space(content, k + values_kw.len());
        let ghost cols_opt: Option<Seq<Seq<char>>> = if have_cols && colviews.len() > 0 {
            Some(colviews)
        } else {
            None
        };
        proof {
            assert(spec_parse_mssql_at(content@, pos as int) == spec_ms_groups(
                content@,
                g as int,
                table@,
                cols_opt,
            ) + spec_parse_mssql_at(content@, next as int));
        }
        while g < content.len() && content[g] == '('
            invariant
                g <= content@.len(),
                all_wf(records@),
                tables_tied(records@, content@),
                contains_sub(content@, "].["@ + table@ + seq![']']),
                have_cols && colviews.len() > 0 ==> views(cols@) == colviews,
                cols_opt == (if have_cols && colviews.len() > 0 {
                    Some(colviews)
                } else {
                    Option::<Seq<Seq<char>>>::None
                }),
                spec_parse_mssql(content@) == recs_views(records@) + spec_ms_groups(
                    content@,
                    g as int,
                    table@,
                    cols_opt,
                ) + spec_parse_mssql_at(content@, next as int),
            decreases content@.len() - g,
        {
            let open = g;
            let mut e: usize = open + 1;
            let mut depth: usize = 1;
            let mut in_str: bool = false;
            let mut closed: bool = false;
            while e < content.len() && !closed
                invariant
                    open < e <= content@.len(),
                    depth <= e,
                    depth >= 1,
                    closed ==> open + 2 <= e && Some(e as int) == spec_ms_group_end(
                        content@,
                        open + 1,
                        1,
                        false,
                    ),
                    !closed ==> spec_ms_group_end(content@, open + 1, 1, false)
                        == spec_ms_group_end(content@, e as int, depth as int, in_str),
                decreases content@.len() - e,
            {
                let c = content[e];
                if c == '\'' && !in_str && e > 0 && content[e - 1] == 'N' {
                    in_str = true;
                    e += 1;
                } else if c == '\'' && in_str {
                    if e + 1 < content.len() && content[e + 1] == '\'' {
                        e += 2;
                    } else {
                        in_str = false;
                        e += 1;
                    }
                } else if c == '(' && !in_str {
                    depth += 1;
                    e += 1;
                } else if c == ')' && !in_str {
                    if depth == 1 {
                        closed = true;
                        e += 1;
                    } else {
                        depth -= 1;
                        e += 1;
                    }
                } else {
                    e += 1;
                }
            }
            if !closed {
                proof {
                    assert(spec_ms_group_end(content@, open + 1, 1, false) is None);
                    assert(spec_ms_groups(content@, g as int, table@, cols_opt) =~= Seq::<
                        (Seq<char>, Seq<(Seq<char>, Val)>),
                    >::empty());
                    assert(spec_parse_mssql(content@) == recs_views(records@)
                        + spec_parse_mssql_at(content@, next as int));
                }
                break ;
            }
            let body = copy_range(content, open + 1, e - 1);
            let fields = ms_tokenize(&body);
            let ghost vals = views(fields@);
            let col_names: Vec<Vec<char>> = if have_cols && cols.len() > 0 {
                let mut cc: Vec<Vec<char>> = Vec::new();
                let mut ci: usize = 0;
                while ci < cols.len()
                    invariant
                        0 <= ci <= cols@.len(),
                        views(cc@).len() == ci,
                        forall|j: int|
                            0 <= j < ci ==> #[trigger] views(cc@)[j] == views(cols@)[j],
                    decreases cols@.len() - ci,
                {
                    let ghost cpre = views(cc@);
                    cc.push(crate::value::clone_chars(&cols[ci]));
                    proof {
                        assert(views(cc@) =~= cpre.push(cc@.last()@));
                    }
                    ci += 1;
                }
                proof {
                    assert(views(cc@) =~= colviews);
                }
                cc
            } else {
                let mut cc: Vec<Vec<char>> = Vec::new();
                let mut ci: usize = 0;
                while ci < fields.len()
                    invariant
                        0 <= ci <= fields@.len(),
                        views(cc@).len() == ci,
                        forall|j: int|
                            0 <= j < ci ==> #[trigger] views(cc@)[j] == spec_default_col(j),
                    decreases fields@.len() - ci,
                {
                    let ghost cpre = views(cc@);
                    cc.push(default_col(ci));
                    proof {
                        assert(views(cc@) =~= cpre.push(cc@.last()@));
                    }
                    ci += 1;
                }
                proof {
                    assert(views(cc@) =~= Seq::new(vals.len(), |i: int| spec_default_col(i)));
                }
                cc
            };
            let ghost cnviews = views(col_names@);
            let ghost row = spec_ms_group(content@, open as int, e as int, table@, cols_opt);
            if fields.len() == col_names.len() {
                let mut kv: Vec<(Vec<char>, Value)> = Vec::new();
                let mut fi: usize = 0;
                while fi < fields.len()
                    invariant
                        0 <= fi <= fields@.len(),
                        fields@.len() == col_names@.len(),
                        cnviews == views(col_names@),
                        vals == views(fields@),
                        dvf(kv@).len() == fi,
                        forall|j: int|
                            0 <= j < fi ==> #[trigger] dvf(kv@)[j] == (
                                cnviews[j],
                                spec_ms_value(vals[j]),
                            ),
                    decreases fields@.len() - fi,
                {
                    let value = ms_value(&fields[fi]);
                    let ghost pre = kv@;
                    kv.push((crate::value::clone_chars(&col_names[fi]), value));
                    proof {
                        crate::value::dvf_push(pre, kv@);
                        assert(cnviews[fi as int] == col_names@[fi as int]@);
                        assert(vals[fi as int] == fields@[fi as int]@);
                    }
                    fi += 1;
                }
                proof {
                    assert(dvf(kv@) =~= Seq::new(
                        cnviews.len() as nat,
                        |i: int| if 0 <= i < cnviews.len() {
                            (cnviews[i], spec_ms_value(vals[i]))
                        } else {
                            (Seq::empty(), Val::Null)
                        },
                    ));
                    assert(row == emit_record(table@, dvf(kv@)));
                }
                match build_record(crate::value::clone_chars(&table), kv) {
                    Some(rec) => {
                        proof {
                            assert(rec.table@ == table@) by {
                                assert(emit_record(table@, dvf(kv@))[0] == (
                                    rec.table@,
                                    rec.fdv(),
                                ));
                            }
                        }
                        let ghost rpre = records@;
                        records.push(rec);
                        proof {
                            assert(recs_views(records@) =~= recs_views(rpre).push(
                                rec_view(records@[records@.len() - 1]),
                            ));
                            assert(row == seq![rec_view(records@[records@.len() - 1])]);
                        }
                    },
                    None => {
                        proof {
                            assert(row =~= Seq::<(Seq<char>, Seq<(Seq<char>, Val)>)>::empty());
                        }
                    },
                }
            } else {
                proof {
                    assert(vals.len() != cnviews.len());
                    assert(row =~= Seq::<(Seq<char>, Seq<(Seq<char>, Val)>)>::empty());
                }
            }
            let g2 = skip_space(content, e);
            let g3: usize = if g2 < content.len() && content[g2] == ',' {
                skip_space(content, g2 + 1)
            } else {
                g2
            };
            if g3 <= g {
                proof {
                    assert(spec_ms_groups(content@, g as int, table@, cols_opt) == row);
                    assert(spec_parse_mssql(content@) == recs_views(records@)
                        + spec_parse_mssql_at(content@, next as int));
                }
                break ;
            }
            proof {
                assert(spec_ms_groups(content@, g as int, table@, cols_opt) == row
                    + spec_ms_groups(content@, g3 as int, table@, cols_opt));
            }
            g = g3;
        }
        proof {
            if !(g < content@.len() && content@[g as int] == '(') {
                assert(spec_ms_groups(content@, g as int, table@, cols_opt) =~= Seq::<
                    (Seq<char>, Seq<(Seq<char>, Val)>),
                >::empty());
            }
        }
        pos = next;
    }
    if records.len() == 0 {
        proof {
            assert(spec_parse_mssql(content@) =~= Seq::<
                (Seq<char>, Seq<(Seq<char>, Val)>),
            >::empty());
        }
        None
    } else {
        proof {
            assert(recs_match(records@, spec_parse_mssql(content@)));
        }
        Some(records)
    }
}

} // verus!
