//! The SQLite dump parser: columns harvested from `CREATE TABLE`
//! statements, rows from `INSERT INTO <table> VALUES (...);`, with the
//! `sqlite_sequence` bookkeeping table skipped.

use vstd::prelude::*;
use crate::value::{Value, Val};
use crate::record::{Record, mk_record, clean_record_fields};
use crate::chars::{str_to_chars, copy_range, match_at, contains_sub, sub_at};
use crate::jsonp::{parse_json, spec_parse_json, spec_parse_number};
use crate::parser::{
    trim,
    spec_trim,
    skip_space,
    spec_skip_space,
    skip_ident,
    spec_skip_ident,
    harvest_create_tables,
    lookup_cols,
    spec_lookup,
    spec_harvest,
    tc_views,
    find_sub_kw,
    spec_find_sub_at,
    views,
    eq_lit,
    all_wf,
};
use crate::value::dvf;
use crate::record::{emit_record, rec_view, recs_match, build_record};

verus! {

broadcast use vstd::std_specs::vec::group_vec_axioms;

/// The row tokenizer walk: doubled quotes escape inside strings, quotes
/// kept, split at top-level commas.
pub open spec fn spec_sq_scan(
    s: Seq<char>,
    i: int,
    in_str: bool,
    cur: Seq<char>,
    acc: Seq<Seq<char>>,
) -> Seq<Seq<char>>
    decreases s.len() - i,
{
    if !(0 <= i < s.len()) {
        acc.push(spec_trim(cur))
    } else {
        let c = s[i];
        if c == '\'' {
            if in_str && i + 1 < s.len() && s[i + 1] == '\'' {
                spec_sq_scan(s, i + 2, in_str, cur.push('\'').push('\''), acc)
            } else {
                spec_sq_scan(s, i + 1, !in_str, cur.push('\''), acc)
            }
        } else if c == ',' && !in_str {
            spec_sq_scan(s, i + 1, in_str, Seq::empty(), acc.push(spec_trim(cur)))
        } else {
            spec_sq_scan(s, i + 1, in_str, cur.push(c), acc)
        }
    }
}

/// Exact computation of `spec_sq_scan` from the start of a row body.
#[verifier::loop_isolation(false)]
pub fn sq_tokenize(s: &Vec<char>) -> (r: Vec<Vec<char>>)
    ensures
        crate::parser::views(r@) == spec_sq_scan(s@, 0, false, Seq::empty(), Seq::empty()),
{
    let mut acc: Vec<Vec<char>> = Vec::new();
    let ghost mut vs: Seq<Seq<char>> = Seq::empty();
    let mut cur: Vec<char> = Vec::new();
    let mut in_str: bool = false;
    let mut i: usize = 0;
    let ghost target = spec_sq_scan(s@, 0, false, Seq::empty(), Seq::empty());
    while i < s.len()
        invariant
            0 <= i <= s@.len(),
            target == spec_sq_scan(s@, i as int, in_str, cur@, vs),
            crate::parser::views(acc@) =~= vs,
        decreases s@.len() - i,
    {
        let c = s[i];
        if c == '\'' {
            if in_str && i + 1 < s.len() && s[i + 1] == '\'' {
                cur.push('\'');
                cur.push('\'');
                i += 2;
            } else {
                cur.push('\'');
                in_str = !in_str;
                i += 1;
            }
        } else if c == ',' && !in_str {
            let piece = trim(&cur);
            proof {
                vs = vs.push(piece@);
            }
            acc.push(piece);
            assert(crate::parser::views(acc@) =~= vs);
            cur = Vec::new();
            i += 1;
        } else {
            cur.push(c);
            i += 1;
        }
    }
    let piece = trim(&cur);
    proof {
        vs = vs.push(piece@);
    }
    acc.push(piece);
    assert(crate::parser::views(acc@) =~= vs);
    acc
}

/// The decoding rule for one SQLite value token.
pub open spec fn spec_sq_value(t: Seq<char>) -> Val {
    if t == "NULL"@ {
        Val::Null
    } else if t.len() >= 2 && t[0] == '\'' && t[t.len() - 1] == '\'' {
        let inner = crate::parser::spec_undouble(t.subrange(1, t.len() - 1));
        if inner.len() >= 2 && ((inner[0] == '{' && inner[inner.len() - 1] == '}') || (inner[0]
            == '[' && inner[inner.len() - 1] == ']')) {
            match spec_parse_json(inner) {
                Some(v) => v,
                None => Val::Str(inner),
            }
        } else {
            Val::Str(inner)
        }
    } else {
        let (ov, end) = spec_parse_number(t, 0);
        match ov {
            Some(v) => if end == t.len() {
                v
            } else {
                Val::Str(t)
            },
            None => Val::Str(t),
        }
    }
}

/// Exact computation of `spec_sq_value`.
#[verifier::loop_isolation(false)]
pub fn sq_value(t: &Vec<char>) -> (r: Value)
    ensures
        r.dv() == spec_sq_value(t@),
{
    if eq_lit(t, "NULL") {
        return Value::Null;
    }
    if t.len() >= 2 && t[0] == '\'' && t[t.len() - 1] == '\'' {
        let body = copy_range(t, 1, t.len() - 1);
        let inner = crate::parser::undouble_quotes(&body);
        if inner.len() >= 2 && ((inner[0] == '{' && inner[inner.len() - 1] == '}') || (inner[0]
            == '[' && inner[inner.len() - 1] == ']')) {
            match parse_json(&inner) {
                Some(v) => {
                    return v;
                },
                None => {
                    return Value::Str(inner);
                },
            }
        }
        return Value::Str(inner);
    }
    let (ov, end) = crate::jsonp::parse_number_at(t, 0);
    match ov {
        Some(v) => {
            if end == t.len() {
                v
            } else {
                Value::Str(crate::value::clone_chars(t))
            }
        },
        None => Value::Str(crate::value::clone_chars(t)),
    }
}

/// Every record's table occurs verbatim in the chunk.
pub open spec fn tables_tied(recs: Seq<Record>, c: Seq<char>) -> bool {
    forall|i: int| 0 <= i < recs.len() ==> contains_sub(c, (#[trigger] recs[i]).table@)
}

/// The mathematical views of a record vector.
pub open spec fn recs_views(recs: Seq<Record>) -> Seq<(Seq<char>, Seq<(Seq<char>, Val)>)> {
    Seq::new(
        recs.len(),
        |i: int| if 0 <= i < recs.len() {
            rec_view(recs[i])
        } else {
            (Seq::empty(), Seq::empty())
        },
    )
}

/// The parse of every insert statement at or after `pos`, against the
/// harvested column lists `tcs`: the `sqlite_sequence` table, a table
/// with no harvested columns, and a row whose token count mismatches are
/// all stepped over.
pub open spec fn spec_parse_sqlite_at(
    c: Seq<char>,
    tcs: Seq<(Seq<char>, Seq<Seq<char>>)>,
    pos: int,
) -> Seq<(Seq<char>, Seq<(Seq<char>, Val)>)>
    decreases c.len() + 1 - pos,
{
    if !(0 <= pos <= c.len()) {
        Seq::empty()
    } else {
        match spec_find_sub_at(c, "INSERT INTO"@, pos) {
            None => Seq::empty(),
            Some(p) => {
                let next = if p < c.len() {
                    p + 1
                } else {
                    c.len() as int
                };
                if next <= pos {
                    Seq::empty()
                } else {
                    let k0 = spec_skip_space(c, p + "INSERT INTO"@.len());
                    let k = if k0 < c.len() && (c[k0] == '`' || c[k0] == '"') {
                        k0 + 1
                    } else {
                        k0
                    };
                    let t1 = spec_skip_ident(c, k);
                    let table = c.subrange(k, t1);
                    let q = if t1 < c.len() && (c[t1] == '`' || c[t1] == '"') {
                        t1 + 1
                    } else {
                        t1
                    };
                    if table.len() == 0 || table == "sqlite_sequence"@ {
                        spec_parse_sqlite_at(c, tcs, next)
                    } else {
                        match spec_lookup(tcs, table) {
                            None => spec_parse_sqlite_at(c, tcs, next),
                            Some(cols) => {
                                let vk = spec_skip_space(c, q);
                                if !sub_at(c, "VALUES"@, vk) {
                                    spec_parse_sqlite_at(c, tcs, next)
                                } else {
                                    let vo = spec_skip_space(c, vk + "VALUES"@.len());
                                    if !(vo < c.len() && c[vo] == '(') {
                                        spec_parse_sqlite_at(c, tcs, next)
                                    } else {
                                        match spec_find_sub_at(c, ");"@, vo + 1) {
                                            None => Seq::empty(),
                                            Some(vend) => {
                                                let vals = spec_sq_scan(
                                                    c.subrange(vo + 1, vend),
                                                    0,
                                                    false,
                                                    Seq::empty(),
                                                    Seq::empty(),
                                                );
                                                let recs = if vals.len() != cols.len() {
                                                    Seq::<
                                                        (Seq<char>, Seq<(Seq<char>, Val)>),
                                                    >::empty()
                                                } else {
                                                    emit_record(
                                                        table,
                                                        Seq::new(
                                                            cols.len() as nat,
                                                            |i: int| if 0 <= i < cols.len() {
                                                                (cols[i], spec_sq_value(vals[i]))
                                                            } else {
                                                                (Seq::empty(), Val::Null)
                                                            },
                                                        ),
                                                    )
                                                };
                                                recs + spec_parse_sqlite_at(c, tcs, next)
                                            },
                                        }
                                    }
                                }
                            },
                        }
                    }
                }
            },
        }
    }
}

/// The parse of a whole SQLite chunk: its harvested column lists drive
/// every insert statement.
pub open spec fn spec_parse_sqlite(c: Seq<char>) -> Seq<(Seq<char>, Seq<(Seq<char>, Val)>)> {
    if spec_harvest(c).len() == 0 {
        Seq::empty()
    } else {
        spec_parse_sqlite_at(c, spec_harvest(c), 0)
    }
}

/// Parse every `INSERT INTO <table> VALUES (...);` statement against the
/// harvested `CREATE TABLE` column lists, exactly as `spec_parse_sqlite`
/// states it: records come in statement order, each meets the emission
/// rules, no `sqlite_sequence` record is emitted, and every record's
/// table occurs in the chunk; `None` exactly when nothing yields a record.
#[verifier::loop_isolation(false)]
pub fn parse_sqlite(content: &Vec<char>) -> (r: Option<Vec<Record>>)
    ensures
        (match r {
            Some(recs) => recs_match(recs@, spec_parse_sqlite(content@)) && recs@.len() > 0
                && all_wf(recs@) && tables_tied(recs@, content@),
            None => spec_parse_sqlite(content@).len() == 0,
        }),
{
    let tables = harvest_create_tables(content);
    let ghost tcs = tc_views(tables.names@);
    if tables.names.len() == 0 {
        proof {
            assert(spec_harvest(content@).len() == 0);
        }
        return None;
    }
    let mut records: Vec<Record> = Vec::new();
    let pat = str_to_chars("INSERT INTO");
    let values_kw = str_to_chars("VALUES");
    let closer = str_to_chars(");");
    let mut pos: usize = 0;
    proof {
        assert(recs_views(records@) =~= Seq::<(Seq<char>, Seq<(Seq<char>, Val)>)>::empty());
    }
    loop
        invariant
            pos <= content@.len(),
            all_wf(records@),
            tables_tied(records@, content@),
            tcs == tc_views(tables.names@),
            tcs == spec_harvest(content@),
            tcs.len() > 0,
            spec_parse_sqlite(content@) == recs_views(records@) + spec_parse_sqlite_at(
                content@,
                tcs,
                pos as int,
            ),
        decreases content@.len() - pos,
    {
        let p = match find_sub_kw(content, pat.as_slice(), pos) {
            Some(p) => p,
            None => {
                proof {
                    assert(spec_parse_sqlite(content@) =~= recs_views(records@));
                }
                break ;
            },
        };
        let next = if p < content.len() {
            p + 1
        } else {
            content.len()
        };
        if next <= pos {
            proof {
                assert(spec_parse_sqlite(content@) =~= recs_views(records@));
            }
            break ;
        }
        let mut k = skip_space(content, p + pat.len());
        if k < content.len() && (content[k] == '`' || content[k] == '"') {
            k += 1;
        }
        let t1 = skip_ident(content, k);
        let table = copy_range(content, k, t1);
        proof {
            assert(content@.subrange(k as int, t1 as int) =~= table@);
            assert(sub_at(content@, table@, k as int));
        }
        let mut q = t1;
        if q < content.len() && (content[q] == '`' || content[q] == '"') {
            q += 1;
        }
        if table.len() == 0 || eq_lit(&table, "sqlite_sequence") {
            proof {
                assert(spec_parse_sqlite_at(content@, tcs, pos as int) == spec_parse_sqlite_at(
                    content@,
                    tcs,
                    next as int,
                ));
            }
            pos = next;
            continue ;
        }
        let cols = match lookup_cols(&tables, &table) {
            Some(c2) => c2,
            None => {
                proof {
                    assert(spec_parse_sqlite_at(content@, tcs, pos as int)
                        == spec_parse_sqlite_at(content@, tcs, next as int));
                }
                pos = next;
                continue ;
            },
        };
        let ghost colviews = views(cols@);
        proof {
            assert(Some(colviews) == spec_lookup(tcs, table@));
        }
        let vk = skip_space(content, q);
        if !match_at(content, values_kw.as_slice(), vk) {
            proof {
                assert(spec_parse_sqlite_at(content@, tcs, pos as int) == spec_parse_sqlite_at(
                    content@,
                    tcs,
                    next as int,
                ));
            }
            pos = next;
            continue ;
        }
        let vo = skip_space(content, vk + values_kw.len());
        if !(vo < content.len() && content[vo] == '(') {
            proof {
                assert(spec_parse_sqlite_at(content@, tcs, pos as int) == spec_parse_sqlite_at(
                    content@,
                    tcs,
                    next as int,
                ));
            }
            pos = next;
            continue ;
        }
        let vend = match find_sub_kw(content, closer.as_slice(), vo + 1) {
            Some(e) => e,
            None => {
                proof {
                    assert(spec_parse_sqlite_at(content@, tcs, pos as int) =~= Seq::<
                        (Seq<char>, Seq<(Seq<char>, Val)>),
                    >::empty());
                    assert(spec_parse_sqlite(content@) =~= recs_views(records@));
                }
                break ;
            },
        };
        let values_text = copy_range(content, vo + 1, vend);
        let fields = sq_tokenize(&values_text);
        let ghost vals = views(fields@);
        if fields.len() != cols.len() {
            proof {
                assert(vals.len() != colviews.len());
                assert(spec_parse_sqlite_at(content@, tcs, pos as int) == spec_parse_sqlite_at(
                    content@,
                    tcs,
                    next as int,
                ));
            }
            pos = next;
            continue ;
        }
        let mut kv: Vec<(Vec<char>, Value)> = Vec::new();
        let mut fi: usize = 0;
        while fi < fields.len()
            invariant
                0 <= fi <= fields@.len(),
                fields@.len() == cols@.len(),
                colviews == views(cols@),
                vals == views(fields@),
                dvf(kv@).len() == fi,
                forall|j: int|
                    0 <= j < fi ==> #[trigger] dvf(kv@)[j] == (
                        colviews[j],
                        spec_sq_value(vals[j]),
                    ),
            decreases fields@.len() - fi,
        {
            let col = crate::value::clone_chars(&cols[fi]);
            let value = sq_value(&fields[fi]);
            let ghost pre = kv@;
            kv.push((col, value));
            proof {
                crate::value::dvf_push(pre, kv@);
                assert(colviews[fi as int] == cols@[fi as int]@);
                assert(vals[fi as int] == fields@[fi as int]@);
            }
            fi += 1;
        }
        proof {
            assert(dvf(kv@) =~= Seq::new(
                colviews.len() as nat,
                |i: int| if 0 <= i < colviews.len() {
                    (colviews[i], spec_sq_value(vals[i]))
                } else {
                    (Seq::empty(), Val::Null)
                },
            ));
        }
        let ghost row = emit_record(table@, dvf(kv@));
        proof {
            assert(spec_parse_sqlite_at(content@, tcs, pos as int) == row
                + spec_parse_sqlite_at(content@, tcs, next as int));
        }
        match build_record(table, kv) {
            Some(rec) => {
                proof {
                    assert(rec.table@ == table@) by {
                        assert(emit_record(table@, dvf(kv@))[0] == (rec.table@, rec.fdv()));
                    }
                }
                let ghost rpre = records@;
                records.push(rec);
                proof {
                    assert(recs_views(records@) =~= recs_views(rpre).push(
                        rec_view(records@[records@.len() - 1]),
                    ));
                    assert(row == seq![rec_view(records@[records@.len() - 1])]);
                    assert(spec_parse_sqlite(content@) == recs_views(records@)
                        + spec_parse_sqlite_at(content@, tcs, next as int));
                }
            },
            None => {
                proof {
                    assert(row =~= Seq::<(Seq<char>, Seq<(Seq<char>, Val)>)>::empty());
                    assert(spec_parse_sqlite(content@) == recs_views(records@)
                        + spec_parse_sqlite_at(content@, tcs, next as int));
                }
            },
        }
        pos = next;
    }
    if records.len() == 0 {
        proof {
            assert(spec_parse_sqlite(content@) =~= Seq::<
                (Seq<char>, Seq<(Seq<char>, Val)>),
            >::empty());
        }
        None
    } else {
        proof {
            assert(recs_match(records@, spec_parse_sqlite(content@)));
        }
        Some(records)
    }
}

} // verus!
