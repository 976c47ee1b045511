//! The MySQL dump parser: columns harvested from `CREATE TABLE`
//! statements or taken from the insert's own column list, rows from
//! `INSERT INTO <table> [(cols)] VALUES (...)[,(...)];`, with
//! backslash-escape and quote state tracked through every row.

use vstd::prelude::*;
use crate::value::{Value, Val};
use crate::record::{Record, mk_record, clean_record_fields};
use crate::chars::{str_to_chars, copy_range, match_at, contains_sub, sub_at};
use crate::jsonp::{parse_json, spec_parse_json, spec_parse_number};
use crate::parser::{
    trim,
    spec_trim,
    split_char,
    spec_split,
    views,
    skip_space,
    spec_skip_space,
    skip_ident,
    spec_skip_ident,
    harvest_create_tables,
    lookup_cols,
    spec_lookup,
    spec_harvest,
    tc_views,
    find_char,
    spec_find_char,
    find_sub_kw,
    spec_find_sub_at,
    eq_lit,
    replace2,
    spec_replace2,
    trim_char,
    spec_trim_char,
    parse_array,
    spec_parse_array,
    all_wf,
};
use crate::parser::mssql::{default_col, spec_default_col};
use crate::parser::TableCols;
use crate::value::dvf;
use crate::record::{emit_record, rec_view, recs_match, build_record};

verus! {

broadcast use vstd::std_specs::vec::group_vec_axioms;

/// The row tokenizer walk: backslash escapes, single-quote state, quotes
/// and escapes kept, split at top-level commas.
pub open spec fn spec_my_scan(
    s: Seq<char>,
    i: int,
    in_str: bool,
    esc: bool,
    cur: Seq<char>,
    acc: Seq<Seq<char>>,
) -> Seq<Seq<char>>
    decreases s.len() - i,
{
    if !(0 <= i < s.len()) {
        if cur.len() > 0 {
            acc.push(spec_trim(cur))
        } else {
            acc
        }
    } else {
        let c = s[i];
        if esc {
            spec_my_scan(s, i + 1, in_str, false, cur.push(c), acc)
        } else if c == '\\' {
            spec_my_scan(s, i + 1, in_str, true, cur.push(c), acc)
        } else if c == '\'' {
            spec_my_scan(s, i + 1, !in_str, false, cur.push(c), acc)
        } else if c == ',' && !in_str {
            spec_my_scan(s, i + 1, in_str, false, Seq::empty(), acc.push(spec_trim(cur)))
        } else {
            spec_my_scan(s, i + 1, in_str, false, cur.push(c), acc)
        }
    }
}

/// Exact computation of `spec_my_scan` from the start of a row body.
#[verifier::loop_isolation(false)]
pub fn my_tokenize(s: &Vec<char>) -> (r: Vec<Vec<char>>)
    ensures
        crate::parser::views(r@) == spec_my_scan(s@, 0, false, false, Seq::empty(), Seq::empty()),
{
    let mut acc: Vec<Vec<char>> = Vec::new();
    let ghost mut vs: Seq<Seq<char>> = Seq::empty();
    let mut cur: Vec<char> = Vec::new();
    let mut in_str: bool = false;
    let mut esc: bool = false;
    let mut i: usize = 0;
    let ghost target = spec_my_scan(s@, 0, false, false, Seq::empty(), Seq::empty());
    while i < s.len()
        invariant
            0 <= i <= s@.len(),
            target == spec_my_scan(s@, i as int, in_str, esc, cur@, vs),
            crate::parser::views(acc@) =~= vs,
        decreases s@.len() - i,
    {
        let c = s[i];
        if esc {
            cur.push(c);
            esc = false;
        } else if c == '\\' {
            cur.push(c);
            esc = true;
        } else if c == '\'' {
            cur.push(c);
            in_str = !in_str;
        } else if c == ',' && !in_str {
            let piece = trim(&cur);
            proof {
                vs = vs.push(piece@);
            }
            acc.push(piece);
            assert(crate::parser::views(acc@) =~= vs);
            cur = Vec::new();
        } else {
            cur.push(c);
        }
        i += 1;
    }
    if cur.len() > 0 {
        let piece = trim(&cur);
        proof {
            vs = vs.push(piece@);
        }
        acc.push(piece);
        assert(crate::parser::views(acc@) =~= vs);
    }
    acc
}

/// The unescaping chain for a quoted MySQL string: outer quotes stripped,
/// then `''`, `\\` and `\'` undone, in that order.
pub open spec fn spec_my_unquote(t: Seq<char>) -> Seq<char> {
    let inner = spec_trim_char(t, '\'');
    let r1 = spec_replace2(inner, '\'', '\'', '\'');
    let r2 = spec_replace2(r1, '\\', '\\', '\\');
    spec_replace2(r2, '\\', '\'', '\'')
}

/// The decoding rule for one MySQL value token.
pub open spec fn spec_my_value(t: Seq<char>) -> Val {
    if t == "NULL"@ {
        Val::Null
    } else if t.len() >= 2 && t[0] == '\'' && t[t.len() - 1] == '\'' {
        let u = spec_my_unquote(t);
        if u.len() >= 2 && ((u[0] == '{' && u[u.len() - 1] == '}') || (u[0] == '[' && u[u.len()
            - 1] == ']')) {
            let pot = spec_replace2(u, '\\', '"', '"');
            match spec_parse_json(pot) {
                Some(v) => v,
                None => Val::Str(u),
            }
        } else {
            Val::Str(u)
        }
    } else if t.len() >= 2 && t[0] == '{' && t[t.len() - 1] == '}' {
        match spec_parse_json(t) {
            Some(v) => v,
            None => match spec_parse_array(t) {
                Some(v) => v,
                None => Val::Str(t),
            },
        }
    } else if t.len() >= 2 && t[0] == '[' && t[t.len() - 1] == ']' {
        match spec_parse_json(t) {
            Some(v) => v,
            None => Val::Str(t),
        }
    } else {
        let (ov, end) = spec_parse_number(t, 0);
        match ov {
            Some(v) => if end == t.len() {
                v
            } else {
                Val::Str(t)
            },
            None => Val::Str(t),
        }
    }
}

/// Exact computation of `spec_my_value`.
#[verifier::loop_isolation(false)]
pub fn my_value(t: &Vec<char>) -> (r: Value)
    ensures
        r.dv() == spec_my_value(t@),
{
    if eq_lit(t, "NULL") {
        return Value::Null;
    }
    if t.len() >= 2 && t[0] == '\'' && t[t.len() - 1] == '\'' {
        let inner = trim_char(t, '\'');
        let r1 = replace2(&inner, '\'', '\'', '\'');
        let r2 = replace2(&r1, '\\', '\\', '\\');
        let u = replace2(&r2, '\\', '\'', '\'');
        if u.len() >= 2 && ((u[0] == '{' && u[u.len() - 1] == '}') || (u[0] == '[' && u[u.len()
            - 1] == ']')) {
            let pot = replace2(&u, '\\', '"', '"');
            match parse_json(&pot) {
                Some(v) => {
                    return v;
                },
                None => {
                    return Value::Str(u);
                },
            }
        }
        return Value::Str(u);
    }
    if t.len() >= 2 && t[0] == '{' && t[t.len() - 1] == '}' {
        match parse_json(t) {
            Some(v) => {
                return v;
            },
            None => {
                match parse_array(t) {
                    Some(v) => {
                        return v;
                    },
                    None => {
                        return Value::Str(crate::value::clone_chars(t));
                    },
                }
            },
        }
    }
    if t.len() >= 2 && t[0] == '[' && t[t.len() - 1] == ']' {
        match parse_json(t) {
            Some(v) => {
                return v;
            },
            None => {
                return Value::Str(crate::value::clone_chars(t));
            },
        }
    }
    let (ov, end) = crate::jsonp::parse_number_at(t, 0);
    match ov {
        Some(v) => {
            if end == t.len() {
                v
            } else {
                Value::Str(crate::value::clone_chars(t))
            }
        },
        None => Value::Str(crate::value::clone_chars(t)),
    }
}

/// Every record's table occurs verbatim in the chunk.
pub open spec fn tables_tied(recs: Seq<Record>, c: Seq<char>) -> bool {
    forall|i: int| 0 <= i < recs.len() ==> contains_sub(c, (#[trigger] recs[i]).table@)
}

/// The mathematical views of a record vector.
pub open spec fn recs_views(recs: Seq<Record>) -> Seq<(Seq<char>, Seq<(Seq<char>, Val)>)> {
    Seq::new(
        recs.len(),
        |i: int| if 0 <= i < recs.len() {
            rec_view(recs[i])
        } else {
            (Seq::empty(), Seq::empty())
        },
    )
}

/// The scan for the end of a values group: backslash escapes and
/// single-quote state respected; the position just after the closing
/// parenthesis.
pub open spec fn spec_my_group_end(c: Seq<char>, e: int, in_str: bool, esc: bool) -> Option<int>
    decreases c.len() - e,
{
    if !(0 <= e < c.len()) {
        None
    } else {
        let ch = c[e];
        if esc {
            spec_my_group_end(c, e + 1, in_str, false)
        } else if ch == '\\' {
            spec_my_group_end(c, e + 1, in_str, true)
        } else if ch == '\'' {
            spec_my_group_end(c, e + 1, !in_str, false)
        } else if ch == ')' && !in_str {
            Some(e + 1)
        } else {
            spec_my_group_end(c, e + 1, in_str, false)
        }
    }
}

/// A column name of an insert's own list: trimmed, then backticks, single
/// and double quotes stripped from the ends.
pub open spec fn spec_my_col(s: Seq<char>) -> Seq<char> {
    spec_trim_char(spec_trim_char(spec_trim_char(spec_trim(s), '`'), '\''), '"')
}

/// The column names a group uses and the width remembered for later
/// groups: the insert's own list first, then the harvested list, then
/// positional defaults sized by the first such group.
pub open spec fn spec_my_group_cols(
    own: Seq<Seq<char>>,
    tcs: Seq<(Seq<char>, Seq<Seq<char>>)>,
    table: Seq<char>,
    inf: Option<int>,
    nvals: int,
) -> (Seq<Seq<char>>, Option<int>) {
    if own.len() > 0 {
        (own, inf)
    } else {
        match spec_lookup(tcs, table) {
            Some(cs) => (cs, inf),
            None => {
                let w = match inf {
                    Some(w) => w,
                    None => nvals,
                };
                (Seq::new(w as nat, |i: int| spec_default_col(i)), Some(w))
            },
        }
    }
}

/// The records of the comma-separated values groups from `g` on.
pub open spec fn spec_my_groups(
    c: Seq<char>,
    g: int,
    table: Seq<char>,
    own: Seq<Seq<char>>,
    tcs: Seq<(Seq<char>, Seq<Seq<char>>)>,
    inf: Option<int>,
) -> Seq<(Seq<char>, Seq<(Seq<char>, Val)>)>
    decreases c.len() + 1 - g,
{
    if !(0 <= g < c.len() && c[g] == '(') {
        Seq::empty()
    } else {
        match spec_my_group_end(c, g + 1, false, false) {
            None => Seq::empty(),
            Some(e) => {
                let vals = spec_my_scan(
                    c.subrange(g + 1, e - 1),
                    0,
                    false,
                    false,
                    Seq::empty(),
                    Seq::empty(),
                );
                let (cols, inf2) = spec_my_group_cols(own, tcs, table, inf, vals.len() as int);
                let recs = if vals.len() != cols.len() {
                    Seq::<(Seq<char>, Seq<(Seq<char>, Val)>)>::empty()
                } else {
                    emit_record(
                        table,
                        Seq::new(
                            cols.len() as nat,
                            |i: int| if 0 <= i < cols.len() {
                                (cols[i], spec_my_value(vals[i]))
                            } else {
                                (Seq::empty(), Val::Null)
                            },
                        ),
                    )
                };
                let g2 = spec_skip_space(c, e);
                let g3 = if g2 < c.len() && c[g2] == ',' {
                    spec_skip_space(c, g2 + 1)
                } else {
                    g2
                };
                if g3 <= g || g3 > c.len() {
                    recs
                } else {
                    recs + spec_my_groups(c, g3, table, own, tcs, inf2)
                }
            },
        }
    }
}

/// The parse of every insert statement at or after `pos`, against the
/// harvested column lists `tcs`.
pub open spec fn spec_parse_mysql_at(
    c: Seq<char>,
    tcs: Seq<(Seq<char>, Seq<Seq<char>>)>,
    pos: int,
) -> Seq<(Seq<char>, Seq<(Seq<char>, Val)>)>
    decreases c.len() + 1 - pos,
{
    if !(0 <= pos <= c.len()) {
        Seq::empty()
    } else {
        match spec_find_sub_at(c, "INSERT INTO"@, pos) {
            None => Seq::empty(),
            Some(p) => {
                let next = if p < c.len() {
                    p + 1
                } else {
                    c.len() as int
                };
                if next <= pos {
                    Seq::empty()
                } else {
                    let k0 = spec_skip_space(c, p + "INSERT INTO"@.len());
                    let k = if k0 < c.len() && (c[k0] == '`' || c[k0] == '\'' || c[k0] == '"') {
                        k0 + 1
                    } else {
                        k0
                    };
                    let t1 = spec_skip_ident(c, k);
                    let table = c.subrange(k, t1);
                    let q = if t1 < c.len() && (c[t1] == '`' || c[t1] == '\'' || c[t1] == '"') {
                        t1 + 1
                    } else {
                        t1
                    };
                    if table.len() == 0 {
                        spec_parse_mysql_at(c, tcs, next)
                    } else {
                        let k2 = spec_skip_space(c, q);
                        if k2 < c.len() && c[k2] == '(' {
                            let cp = spec_find_char(c, k2 + 1, ')');
                            if cp < 0 {
                                Seq::empty()
                            } else {
                                let raw = spec_split(c.subrange(k2 + 1, cp), ',');
                                let own = Seq::new(
                                    raw.len(),
                                    |i: int| if 0 <= i < raw.len() {
                                        spec_my_col(raw[i])
                                    } else {
                                        Seq::empty()
                                    },
                                );
                                let k3 = spec_skip_space(c, cp + 1);
                                if !sub_at(c, "VALUES"@, k3) {
                                    spec_parse_mysql_at(c, tcs, next)
                                } else {
                                    let g0 = spec_skip_space(c, k3 + "VALUES"@.len());
                                    spec_my_groups(c, g0, table, own, tcs, None)
                                        + spec_parse_mysql_at(c, tcs, next)
                                }
                            }
                        } else {
                            if !sub_at(c, "VALUES"@, k2) {
                                spec_parse_mysql_at(c, tcs, next)
                            } else {
                                let g0 = spec_skip_space(c, k2 + "VALUES"@.len());
                                spec_my_groups(c, g0, table, Seq::empty(), tcs, None)
                                    + spec_parse_mysql_at(c, tcs, next)
                            }
                        }
                    }
                }
            },
        }
    }
}

/// The parse of a whole MySQL chunk: its harvested column lists drive the
/// statements without their own list.
pub open spec fn spec_parse_mysql(c: Seq<char>) -> Seq<(Seq<char>, Seq<(Seq<char>, Val)>)> {
    spec_parse_mysql_at(c, spec_harvest(c), 0)
}

/// Parse the comma-separated values groups of one insert statement,
/// appending exactly the records `spec_my_groups` states.
#[verifier::loop_isolation(false)]
#[verifier::rlimit(100)]
fn my_statement_groups(
    content: &Vec<char>,
    g0: usize,
    table: &Vec<char>,
    insert_cols: &Vec<Vec<char>>,
    tables: &TableCols,
    records: &mut Vec<Record>,
)
    requires
        g0 <= content@.len(),
        all_wf(old(records)@),
        tables_tied(old(records)@, content@),
        contains_sub(content@, table@),
    ensures
        all_wf(final(records)@),
        tables_tied(final(records)@, content@),
        recs_views(final(records)@) == recs_views(old(records)@) + spec_my_groups(
            content@,
            g0 as int,
            table@,
            views(insert_cols@),
            tc_views(tables.names@),
            None,
        ),
{
    let ghost own = views(insert_cols@);
    let ghost tcs = tc_views(tables.names@);
    let ghost base = recs_views(records@);
    let mut g = g0;
        let mut inferred: usize = 0;
        let mut have_inferred: bool = false;
        while g < content.len() && content[g] == '('
            invariant
                g <= content@.len(),
                all_wf(records@),
                tables_tied(records@, content@),
                contains_sub(content@, table@),
                tcs == tc_views(tables.names@),
                own == views(insert_cols@),
                base + spec_my_groups(
                    content@,
                    g0 as int,
                    table@,
                    own,
                    tcs,
                    None,
                ) =~= recs_views(records@) + spec_my_groups(
                    content@,
                    g as int,
                    table@,
                    own,
                    tcs,
                    if have_inferred {
                        Some(inferred as int)
                    } else {
                        Option::<int>::None
                    },
                ),
            decreases content@.len() - g,
        {
            let ghost inf = if have_inferred {
                Some(inferred as int)
            } else {
                Option::<int>::None
            };
            let open = g;
            let mut e: usize = open + 1;
            let mut in_str: bool = false;
            let mut esc: bool = false;
            let mut closed: bool = false;
            while e < content.len() && !closed
                invariant
                    open < e <= content@.len(),
                    closed ==> open + 2 <= e && Some(e as int) == spec_my_group_end(
                        content@,
                        open + 1,
                        false,
                        false,
                    ),
                    !closed ==> spec_my_group_end(content@, open + 1, false, false)
                        == spec_my_group_end(content@, e as int, in_str, esc),
                decreases content@.len() - e,
            {
                let c = content[e];
                if esc {
                    esc = false;
                    e += 1;
                } else if c == '\\' {
                    esc = true;
                    e += 1;
                } else if c == '\'' {
                    in_str = !in_str;
                    e += 1;
                } else if c == ')' && !in_str {
                    closed = true;
                    e += 1;
                } else {
                    e += 1;
                }
            }
            if !closed {
                proof {
                    assert(spec_my_group_end(content@, open + 1, false, false) is None);
                    assert(spec_my_groups(content@, g as int, table@, own, tcs, inf) =~= Seq::<
                        (Seq<char>, Seq<(Seq<char>, Val)>),
                    >::empty());
                }
                proof {
                    assert(base + spec_my_groups(content@, g0 as int, table@, own, tcs, None)
                        =~= recs_views(records@));
                }
                return ;
            }
            let body = copy_range(content, open + 1, e - 1);
            let fields = my_tokenize(&body);
            let ghost vals = views(fields@);
            let ghost pair = spec_my_group_cols(own, tcs, table@, inf, vals.len() as int);
            let col_names: Vec<Vec<char>> = if insert_cols.len() > 0 {
                let mut cc: Vec<Vec<char>> = Vec::new();
                let mut ci: usize = 0;
                while ci < insert_cols.len()
                    invariant
                        0 <= ci <= insert_cols@.len(),
                        views(cc@).len() == ci,
                        forall|j: int|
                            0 <= j < ci ==> #[trigger] views(cc@)[j] == views(insert_cols@)[j],
                    decreases insert_cols@.len() - ci,
                {
                    let ghost cpre = views(cc@);
                    cc.push(crate::value::clone_chars(&insert_cols[ci]));
                    proof {
                        assert(views(cc@) =~= cpre.push(cc@.last()@));
                    }
                    ci += 1;
                }
                proof {
                    assert(views(cc@) =~= own);
                    assert(pair == (own, inf));
                }
                cc
            } else {
                match lookup_cols(&tables, &table) {
                    Some(cols) => {
                        let mut cc: Vec<Vec<char>> = Vec::new();
                        let mut ci: usize = 0;
                        while ci < cols.len()
                            invariant
                                0 <= ci <= cols@.len(),
                                views(cc@).len() == ci,
                                forall|j: int|
                                    0 <= j < ci ==> #[trigger] views(cc@)[j] == views(cols@)[j],
                            decreases cols@.len() - ci,
                        {
                            let ghost cpre = views(cc@);
                            cc.push(crate::value::clone_chars(&cols[ci]));
                            proof {
                                assert(views(cc@) =~= cpre.push(cc@.last()@));
                            }
                            ci += 1;
                        }
                        proof {
                            assert(own.len() == 0);
                            assert(Some(views(cols@)) == spec_lookup(tcs, table@));
                            assert(views(cc@) =~= views(cols@));
                            assert(pair == (views(cols@), inf));
                        }
                        cc
                    },
                    None => {
                        let width = if have_inferred {
                            inferred
                        } else {
                            inferred = fields.len();
                            have_inferred = true;
                            fields.len()
                        };
                        let mut cc: Vec<Vec<char>> = Vec::new();
                        let mut ci: usize = 0;
                        while ci < width
                            invariant
                                0 <= ci <= width,
                                views(cc@).len() == ci,
                                forall|j: int|
                                    0 <= j < ci ==> #[trigger] views(cc@)[j] == spec_default_col(
                                        j,
                                    ),
                            decreases width - ci,
                        {
                            let ghost cpre = views(cc@);
                            cc.push(default_col(ci));
                            proof {
                                assert(views(cc@) =~= cpre.push(cc@.last()@));
                            }
                            ci += 1;
                        }
                        proof {
                            assert(own.len() == 0);
                            assert(spec_lookup(tcs, table@) is None);
                            assert(views(cc@) =~= Seq::new(
                                width as nat,
                                |i: int| spec_default_col(i),
                            ));
                            assert(pair == (
                                Seq::new(width as nat, |i: int| spec_default_col(i)),
                                Some(width as int),
                            ));
                        }
                        cc
                    },
                }
            };
            let ghost inf2 = pair.1;
            proof {
                assert(inf2 == (if have_inferred {
                    Some(inferred as int)
                } else {
                    Option::<int>::None
                }));
            }
            let ghost cnviews = views(col_names@);
            proof {
                assert(cnviews == pair.0);
            }
            let ghost row = (if vals.len() != cnviews.len() {
                Seq::<(Seq<char>, Seq<(Seq<char>, Val)>)>::empty()
            } else {
                emit_record(
                    table@,
                    Seq::new(
                        cnviews.len() as nat,
                        |i: int| if 0 <= i < cnviews.len() {
                            (cnviews[i], spec_my_value(vals[i]))
                        } else {
                            (Seq::empty(), Val::Null)
                        },
                    ),
                )
            });
            if fields.len() == col_names.len() {
                let mut kv: Vec<(Vec<char>, Value)> = Vec::new();
                let mut fi: usize = 0;
                while fi < fields.len()
                    invariant
                        0 <= fi <= fields@.len(),
                        fields@.len() == col_names@.len(),
                        cnviews == views(col_names@),
                        vals == views(fields@),
                        dvf(kv@).len() == fi,
                        forall|j: int|
                            0 <= j < fi ==> #[trigger] dvf(kv@)[j] == (
                                cnviews[j],
                                spec_my_value(vals[j]),
                            ),
                    decreases fields@.len() - fi,
                {
                    let value = my_value(&fields[fi]);
                    let ghost pre = kv@;
                    kv.push((crate::value::clone_chars(&col_names[fi]), value));
                    proof {
                        crate::value::dvf_push(pre, kv@);
                        assert(cnviews[fi as int] == col_names@[fi as int]@);
                        assert(vals[fi as int] == fields@[fi as int]@);
                    }
                    fi += 1;
                }
                proof {
                    assert(dvf(kv@) =~= Seq::new(
                        cnviews.len() as nat,
                        |i: int| if 0 <= i < cnviews.len() {
                            (cnviews[i], spec_my_value(vals[i]))
                        } else {
                            (Seq::empty(), Val::Null)
                        },
                    ));
                    assert(row == emit_record(table@, dvf(kv@)));
                }
                match build_record(crate::value::clone_chars(&table), kv) {
                    Some(rec) => {
                        proof {
                            assert(rec.table@ == table@) by {
                                assert(emit_record(table@, dvf(kv@))[0] == (
                                    rec.table@,
                                    rec.fdv(),
                                ));
                            }
                        }
                        let ghost rpre = records@;
                        records.push(rec);
                        proof {
                            assert(recs_views(records@) =~= recs_views(rpre).push(
                                rec_view(records@[records@.len() - 1]),
                            ));
                            assert(row == seq![rec_view(records@[records@.len() - 1])]);
                        }
                    },
                    None => {
                        proof {
                            assert(row =~= Seq::<(Seq<char>, Seq<(Seq<char>, Val)>)>::empty());
                        }
                    },
                }
            } else {
                proof {
                    assert(vals.len() != cnviews.len());
                    assert(row =~= Seq::<(Seq<char>, Seq<(Seq<char>, Val)>)>::empty());
                }
            }
            let g2 = skip_space(content, e);
            let g3: usize = if g2 < content.len() && content[g2] == ',' {
                skip_space(content, g2 + 1)
            } else {
                g2
            };
            if g3 <= g {
                proof {
                    assert(spec_my_groups(content@, g as int, table@, own, tcs, inf) == row);
                    assert(base + spec_my_groups(content@, g0 as int, table@, own, tcs, None)
                        =~= recs_views(records@));
                }
                return ;
            }
            proof {
                assert(spec_my_groups(content@, g as int, table@, own, tcs, inf) == row
                    + spec_my_groups(content@, g3 as int, table@, own, tcs, inf2));
            }
            g = g3;
        }
        proof {
            if !(g < content@.len() && content@[g as int] == '(') {
                assert(spec_my_groups(
                    content@,
                    g as int,
                    table@,
                    own,
                    tcs,
                    if have_inferred {
                        Some(inferred as int)
                    } else {
                        Option::<int>::None
                    },
                ) =~= Seq::<(Seq<char>, Seq<(Seq<char>, Val)>)>::empty());
                assert(base + spec_my_groups(content@, g0 as int, table@, own, tcs, None)
                    =~= recs_views(records@));
            }
        }
    proof {
        assert(base + spec_my_groups(content@, g0 as int, table@, own, tcs, None) =~= recs_views(
            records@,
        ));
    }
}

/// Parse every `INSERT INTO <table> [(cols)] VALUES (...)[,(...)];`
/// statement, exactly as `spec_parse_mysql` states it: columns come from
/// the insert's own list, the harvested `CREATE TABLE` lists, or
/// positional defaults; records come in statement and group order, each
/// meets the emission rules and its table occurs in the chunk; `None`
/// exactly when nothing yields a record.
#[verifier::loop_isolation(false)]
#[verifier::rlimit(100)]
pub fn parse_mysql(content: &Vec<char>) -> (r: Option<Vec<Record>>)
    ensures
        (match r {
            Some(recs) => recs_match(recs@, spec_parse_mysql(content@)) && recs@.len() > 0
                && all_wf(recs@) && tables_tied(recs@, content@),
            None => spec_parse_mysql(content@).len() == 0,
        }),
{
    let tables = harvest_create_tables(content);
    let ghost tcs = tc_views(tables.names@);
    let mut records: Vec<Record> = Vec::new();
    let pat = str_to_chars("INSERT INTO");
    let values_kw = str_to_chars("VALUES");
    let mut pos: usize = 0;
    proof {
        assert(recs_views(records@) =~= Seq::<(Seq<char>, Seq<(Seq<char>, Val)>)>::empty());
    }
    loop
        invariant
            pos <= content@.len(),
            all_wf(records@),
            tables_tied(records@, content@),
            tcs == tc_views(tables.names@),
            tcs == spec_harvest(content@),
            spec_parse_mysql(content@) == recs_views(records@) + spec_parse_mysql_at(
                content@,
                tcs,
                pos as int,
            ),
        decreases content@.len() - pos,
    {
        let p = match find_sub_kw(content, pat.as_slice(), pos) {
            Some(p) => p,
            None => {
                proof {
                    assert(spec_parse_mysql(content@) =~= recs_views(records@));
                }
                break ;
            },
        };
        let next = if p < content.len() {
            p + 1
        } else {
            content.len()
        };
        if next <= pos {
            proof {
                assert(spec_parse_mysql(content@) =~= recs_views(records@));
            }
            break ;
        }
        let mut k = skip_space(content, p + pat.len());
        if k < content.len() && (content[k] == '`' || content[k] == '\'' || content[k] == '"') {
            k += 1;
        }
        let t1 = skip_ident(content, k);
        let table = copy_range(content, k, t1);
        proof {
            assert(content@.subrange(k as int, t1 as int) =~= table@);
            assert(sub_at(content@, table@, k as int));
        }
        let mut q = t1;
        if q < content.len() && (content[q] == '`' || content[q] == '\'' || content[q] == '"') {
            q += 1;
        }
        if table.len() == 0 {
            proof {
                assert(spec_parse_mysql_at(content@, tcs, pos as int) == spec_parse_mysql_at(
                    content@,
                    tcs,
                    next as int,
                ));
            }
            pos = next;
            continue ;
        }
        let mut insert_cols: Vec<Vec<char>> = Vec::new();
        let mut k2 = skip_space(content, q);
        let ghost mut own: Seq<Seq<char>> = Seq::empty();
        let mut broke: bool = false;
        if k2 < content.len() && content[k2] == '(' {
            match find_char(content, k2 + 1, ')') {
                Some(cp) => {
                    let cols_text = copy_range(content, k2 + 1, cp);
                    let raw_cols = split_char(&cols_text, ',');
                    let ghost rawviews = views(raw_cols@);
                    let mut ci: usize = 0;
                    while ci < raw_cols.len()
                        invariant
                            0 <= ci <= raw_cols@.len(),
                            rawviews == views(raw_cols@),
                            views(insert_cols@).len() == ci,
                            forall|j: int|
                                0 <= j < ci ==> #[trigger] views(insert_cols@)[j] == spec_my_col(
                                    rawviews[j],
                                ),
                        decreases raw_cols@.len() - ci,
                    {
                        let t0 = trim(&raw_cols[ci]);
                        let t1b = trim_char(&t0, '`');
                        let t2 = trim_char(&t1b, '\'');
                        let t3 = trim_char(&t2, '"');
                        proof {
                            assert(rawviews[ci as int] == raw_cols@[ci as int]@);
                        }
                        let ghost cpre = views(insert_cols@);
                        insert_cols.push(t3);
                        proof {
                            assert(views(insert_cols@) =~= cpre.push(insert_cols@.last()@));
                        }
                        ci += 1;
                    }
                    proof {
                        own = Seq::new(
                            rawviews.len(),
                            |i: int| if 0 <= i < rawviews.len() {
                                spec_my_col(rawviews[i])
                            } else {
                                Seq::empty()
                            },
                        );
                        assert(views(insert_cols@) =~= own);
                    }
                    k2 = skip_space(content, cp + 1);
                },
                None => {
                    broke = true;
                },
            }
        }
        if broke {
            proof {
                assert(spec_parse_mysql_at(content@, tcs, pos as int) =~= Seq::<
                    (Seq<char>, Seq<(Seq<char>, Val)>),
                >::empty());
                assert(spec_parse_mysql(content@) =~= recs_views(records@));
            }
            break ;
        }
        if !match_at(content, values_kw.as_slice(), k2) {
            proof {
                assert(spec_parse_mysql_at(content@, tcs, pos as int) == spec_parse_mysql_at(
                    content@,
                    tcs,
                    next as int,
                ));
            }
            pos = next;
            continue ;
        }
        let g0 = skip_space(content, k2 + values_kw.len());
        proof {
            assert(spec_parse_mysql_at(content@, tcs, pos as int) == spec_my_groups(
                content@,
                g0 as int,
                table@,
                own,
                tcs,
                None,
            ) + spec_parse_mysql_at(content@, tcs, next as int));
        }
        proof {
            assert(own =~= views(insert_cols@));
        }
        let ghost rpre = recs_views(records@);
        let ghost grp = spec_my_groups(content@, g0 as int, table@, own, tcs, None);
        my_statement_groups(content, g0, &table, &insert_cols, &tables, &mut records);
        proof {
            assert(own == views(insert_cols@));
            assert(recs_views(records@) == rpre + grp);
            assert(rpre + (grp + spec_parse_mysql_at(content@, tcs, next as int)) =~= (rpre + grp)
                + spec_parse_mysql_at(content@, tcs, next as int));
            assert(spec_parse_mysql(content@) == recs_views(records@) + spec_parse_mysql_at(
                content@,
                tcs,
                next as int,
            ));
        }
        pos = next;
    }
    if records.len() == 0 {
        proof {
            assert(spec_parse_mysql(content@) =~= Seq::<
                (Seq<char>, Seq<(Seq<char>, Val)>),
            >::empty());
        }
        None
    } else {
        proof {
            assert(recs_match(records@, spec_parse_mysql(content@)));
        }
        Some(records)
    }
}

} // verus!
