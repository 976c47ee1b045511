//! The Postgres dump parser: `COPY public.<table> (cols) FROM stdin;`
//! blocks followed by tab-separated rows up to `\.`.

use vstd::prelude::*;
use crate::value::{Value, Val, dvf};
use crate::record::{Record, mk_record, clean_record_fields};
use crate::chars::{str_to_chars, copy_range, match_at, contains_sub, sub_at};
use crate::jsonp::{parse_json, spec_parse_json};
use crate::parser::{
    trim,
    spec_trim,
    split_char,
    spec_split,
    views,
    skip_space,
    spec_skip_space,
    skip_ident,
    spec_skip_ident,
    find_char,
    spec_find_char,
    find_sub_kw,
    spec_find_sub_at,
    parse_array,
    spec_parse_array,
    all_wf,
};
use crate::record::{emit_record, rec_view, recs_match, build_record};

verus! {

broadcast use vstd::std_specs::vec::group_vec_axioms;

/// The shared walk for one backslash escape.
pub open spec fn spec_pg_unescape_from(s: Seq<char>, i: int, acc: Seq<char>) -> Seq<char>
    decreases s.len() - i,
{
    if !(0 <= i < s.len()) {
        acc
    } else if s[i] == '\\' && i + 1 < s.len() && s[i + 1] == '\\' {
        spec_pg_unescape_from(s, i + 2, acc.push('\\'))
    } else if s[i] == '\\' && i + 1 < s.len() && s[i + 1] == 't' {
        spec_pg_unescape_from(s, i + 2, acc.push('\u{9}'))
    } else if s[i] == '\\' && i + 1 < s.len() && s[i + 1] == 'n' {
        spec_pg_unescape_from(s, i + 2, acc.push('\u{a}'))
    } else {
        spec_pg_unescape_from(s, i + 1, acc.push(s[i]))
    }
}

/// `\\`, `\t` and `\n` undone throughout `s`.
pub open spec fn spec_pg_unescape(s: Seq<char>) -> Seq<char> {
    spec_pg_unescape_from(s, 0, Seq::empty())
}

/// Exact computation of `spec_pg_unescape`.
#[verifier::loop_isolation(false)]
fn pg_unescape(s: &Vec<char>) -> (r: Vec<char>)
    ensures
        r@ == spec_pg_unescape(s@),
{
    let mut out: Vec<char> = Vec::new();
    let mut i: usize = 0;
    while i < s.len()
        invariant
            0 <= i <= s@.len(),
            spec_pg_unescape(s@) == spec_pg_unescape_from(s@, i as int, out@),
        decreases s@.len() - i,
    {
        if s[i] == '\\' && i + 1 < s.len() && s[i + 1] == '\\' {
            out.push('\\');
            i += 2;
        } else if s[i] == '\\' && i + 1 < s.len() && s[i + 1] == 't' {
            out.push('\u{9}');
            i += 2;
        } else if s[i] == '\\' && i + 1 < s.len() && s[i + 1] == 'n' {
            out.push('\u{a}');
            i += 2;
        } else {
            out.push(s[i]);
            i += 1;
        }
    }
    out
}

/// The decoding rule for one tab-separated field: `\N` is null; a braced
/// or bracketed token is read as JSON, a braced one failing that as an
/// array literal; anything else is an unescaped string.
pub open spec fn spec_pg_value(t: Seq<char>) -> Val {
    if t == seq!['\\', 'N'] {
        Val::Null
    } else if t.len() >= 2 && ((t[0] == '{' && t[t.len() - 1] == '}') || (t[0] == '[' && t[t.len()
        - 1] == ']')) {
        match spec_parse_json(t) {
            Some(v) => v,
            None => if t[0] == '{' {
                match spec_parse_array(t) {
                    Some(v) => v,
                    None => Val::Str(t),
                }
            } else {
                Val::Str(t)
            },
        }
    } else {
        Val::Str(spec_pg_unescape(t))
    }
}

/// Exact computation of `spec_pg_value`.
#[verifier::loop_isolation(false)]
pub fn pg_value(t: &Vec<char>) -> (r: Value)
    ensures
        r.dv() == spec_pg_value(t@),
{
    if t.len() == 2 && t[0] == '\\' && t[1] == 'N' {
        assert(t@ =~= seq!['\\', 'N']);
        return Value::Null;
    }
    assert(t@ != seq!['\\', 'N']) by {
        if t@ == seq!['\\', 'N'] {
            assert(t@.len() == 2 && t@[0] == '\\' && t@[1] == 'N');
        }
    }
    if t.len() >= 2 && ((t[0] == '{' && t[t.len() - 1] == '}') || (t[0] == '[' && t[t.len() - 1]
        == ']')) {
        match parse_json(t) {
            Some(v) => v,
            None => {
                if t[0] == '{' {
                    match parse_array(t) {
                        Some(v) => v,
                        None => Value::Str(crate::value::clone_chars(t)),
                    }
                } else {
                    Value::Str(crate::value::clone_chars(t))
                }
            },
        }
    } else {
        Value::Str(pg_unescape(t))
    }
}

/// Every record's table names a `COPY public.<table>` target of the chunk.
pub open spec fn tables_tied(recs: Seq<Record>, c: Seq<char>) -> bool {
    forall|i: int|
        0 <= i < recs.len() ==> contains_sub(c, "COPY public."@ + (#[trigger] recs[i]).table@)
}

/// The mathematical views of a record vector.
pub open spec fn recs_views(recs: Seq<Record>) -> Seq<(Seq<char>, Seq<(Seq<char>, Val)>)> {
    Seq::new(
        recs.len(),
        |i: int| if 0 <= i < recs.len() {
            rec_view(recs[i])
        } else {
            (Seq::empty(), Seq::empty())
        },
    )
}

/// The records of one tab-separated row: nothing for a blank line or a
/// column-count mismatch, else one record with trimmed column names and
/// decoded values, under the shared emission rule.
pub open spec fn spec_pg_row(cols: Seq<Seq<char>>, line: Seq<char>, table: Seq<char>) -> Seq<
    (Seq<char>, Seq<(Seq<char>, Val)>),
> {
    if spec_trim(line).len() == 0 {
        Seq::empty()
    } else {
        let vals = spec_split(line, '\t');
        if vals.len() != cols.len() {
            Seq::empty()
        } else {
            emit_record(
                table,
                Seq::new(
                    cols.len() as nat,
                    |i: int| if 0 <= i < cols.len() {
                        (spec_trim(cols[i]), spec_pg_value(vals[i]))
                    } else {
                        (Seq::empty(), Val::Null)
                    },
                ),
            )
        }
    }
}

/// The records of the rows from line `li` on, in order.
pub open spec fn spec_pg_rows(
    cols: Seq<Seq<char>>,
    lines: Seq<Seq<char>>,
    table: Seq<char>,
    li: int,
) -> Seq<(Seq<char>, Seq<(Seq<char>, Val)>)>
    decreases lines.len() - li,
{
    if !(0 <= li < lines.len()) {
        Seq::empty()
    } else {
        spec_pg_row(cols, lines[li], table) + spec_pg_rows(cols, lines, table, li + 1)
    }
}

/// The parse of every COPY block at or after `pos`, in order: find the
/// next `COPY public.` marker, read the table, the column list, the
/// `FROM stdin;` header and the rows up to the terminator, then go on
/// after the block; a block that fails a shape check is stepped over.
pub open spec fn spec_parse_postgres_at(c: Seq<char>, pos: int) -> Seq<
    (Seq<char>, Seq<(Seq<char>, Val)>),
>
    decreases c.len() + 1 - pos,
{
    if !(0 <= pos <= c.len()) {
        Seq::empty()
    } else {
        match spec_find_sub_at(c, "COPY public."@, pos) {
            None => Seq::empty(),
            Some(p) => {
                let next = if p < c.len() {
                    p + 1
                } else {
                    c.len() as int
                };
                if next <= pos {
                    Seq::empty()
                } else {
                    let t0 = p + "COPY public."@.len();
                    let t1 = spec_skip_ident(c, t0);
                    let table = c.subrange(t0, t1);
                    let q = spec_skip_space(c, t1);
                    if table.len() == 0 || q >= c.len() || c[q] != '(' {
                        spec_parse_postgres_at(c, next)
                    } else {
                        let cp = spec_find_char(c, q + 1, ')');
                        if cp < 0 {
                            Seq::empty()
                        } else {
                            let cols = spec_split(c.subrange(q + 1, cp), ',');
                            let after = spec_skip_space(c, cp + 1);
                            if !crate::chars::sub_at(c, "FROM stdin;"@, after) {
                                spec_parse_postgres_at(c, next)
                            } else {
                                let rows_at = after + "FROM stdin;"@.len();
                                if !(rows_at < c.len() && c[rows_at] == '\n') {
                                    spec_parse_postgres_at(c, next)
                                } else {
                                    match spec_find_sub_at(c, "\n\\."@, rows_at + 1) {
                                        None => Seq::empty(),
                                        Some(rend) => {
                                            let lines = spec_split(
                                                c.subrange(rows_at + 1, rend),
                                                '\n',
                                            );
                                            let recs = spec_pg_rows(cols, lines, table, 0);
                                            let next2 = if rend < c.len() && rend + 1 > pos {
                                                rend + 1
                                            } else {
                                                next
                                            };
                                            if next2 <= pos {
                                                recs
                                            } else {
                                                recs + spec_parse_postgres_at(c, next2)
                                            }
                                        },
                                    }
                                }
                            }
                        }
                    }
                }
            },
        }
    }
}

/// The parse of a whole Postgres chunk.
pub open spec fn spec_parse_postgres(c: Seq<char>) -> Seq<(Seq<char>, Seq<(Seq<char>, Val)>)> {
    spec_parse_postgres_at(c, 0)
}

/// Parse every `COPY public.<table> (...) FROM stdin;` block of the
/// chunk, exactly as `spec_parse_postgres` states it: records come in
/// block and row order, each meets the emission rules and its table names
/// a COPY target; `None` exactly when no block yields a record.
#[verifier::loop_isolation(false)]
pub fn parse_postgres(content: &Vec<char>) -> (r: Option<Vec<Record>>)
    ensures
        (match r {
            Some(recs) => recs_match(recs@, spec_parse_postgres(content@)) && recs@.len() > 0
                && all_wf(recs@) && tables_tied(recs@, content@),
            None => spec_parse_postgres(content@).len() == 0,
        }),
{
    let mut records: Vec<Record> = Vec::new();
    let pat = str_to_chars("COPY public.");
    let from_stdin = str_to_chars("FROM stdin;");
    let terminator = str_to_chars("\n\\.");
    let mut pos: usize = 0;
    proof {
        reveal_strlit("COPY public.");
        assert(recs_views(records@) =~= Seq::<(Seq<char>, Seq<(Seq<char>, Val)>)>::empty());
    }
    loop
        invariant
            pos <= content@.len(),
            all_wf(records@),
            tables_tied(records@, content@),
            spec_parse_postgres(content@) == recs_views(records@) + spec_parse_postgres_at(
                content@,
                pos as int,
            ),
        decreases content@.len() - pos,
    {
        let p = match find_sub_kw(content, pat.as_slice(), pos) {
            Some(p) => p,
            None => {
                proof {
                    assert(spec_parse_postgres(content@) =~= recs_views(records@));
                }
                break ;
            },
        };
        let next = if p < content.len() {
            p + 1
        } else {
            content.len()
        };
        if next <= pos {
            proof {
                assert(spec_parse_postgres_at(content@, pos as int) =~= Seq::<
                    (Seq<char>, Seq<(Seq<char>, Val)>),
                >::empty());
                assert(spec_parse_postgres(content@) =~= recs_views(records@));
            }
            break ;
        }
        let t0 = p + pat.len();
        let t1 = skip_ident(content, t0);
        let table = copy_range(content, t0, t1);
        proof {
            assert(content@.subrange(p as int, t1 as int) =~= "COPY public."@ + table@);
            assert(sub_at(content@, "COPY public."@ + table@, p as int));
        }
        let q = skip_space(content, t1);
        if table.len() == 0 || q >= content.len() || content[q] != '(' {
            proof {
                assert(spec_parse_postgres_at(content@, pos as int) == spec_parse_postgres_at(
                    content@,
                    next as int,
                ));
            }
            pos = next;
            continue ;
        }
        let cp = match find_char(content, q + 1, ')') {
            Some(cp) => cp,
            None => {
                proof {
                    assert(spec_parse_postgres_at(content@, pos as int) =~= Seq::<
                        (Seq<char>, Seq<(Seq<char>, Val)>),
                    >::empty());
                    assert(spec_parse_postgres(content@) =~= recs_views(records@));
                }
                break ;
            },
        };
        let cols_text = copy_range(content, q + 1, cp);
        let raw_cols = split_char(&cols_text, ',');
        let after = skip_space(content, cp + 1);
        if !match_at(content, from_stdin.as_slice(), after) {
            proof {
                assert(spec_parse_postgres_at(content@, pos as int) == spec_parse_postgres_at(
                    content@,
                    next as int,
                ));
            }
            pos = next;
            continue ;
        }
        let rows_at = after + from_stdin.len();
        if !(rows_at < content.len() && content[rows_at] == '\n') {
            proof {
                assert(spec_parse_postgres_at(content@, pos as int) == spec_parse_postgres_at(
                    content@,
                    next as int,
                ));
            }
            pos = next;
            continue ;
        }
        let rows_begin = rows_at + 1;
        let rend = match find_sub_kw(content, terminator.as_slice(), rows_begin) {
            Some(e) => e,
            None => {
                proof {
                    assert(spec_parse_postgres_at(content@, pos as int) =~= Seq::<
                        (Seq<char>, Seq<(Seq<char>, Val)>),
                    >::empty());
                    assert(spec_parse_postgres(content@) =~= recs_views(records@));
                }
                break ;
            },
        };
        let rows_text = copy_range(content, rows_begin, rend);
        let lines = split_char(&rows_text, '\n');
        let ghost colviews = views(raw_cols@);
        let ghost lineviews = views(lines@);
        let ghost base = recs_views(records@);
        let ghost block = spec_pg_rows(colviews, lineviews, table@, 0);
        proof {
            assert(spec_parse_postgres_at(content@, pos as int) == block
                + spec_parse_postgres_at(
                content@,
                if rend < content@.len() && rend + 1 > pos {
                    rend + 1
                } else {
                    next as int
                },
            ));
        }
        let mut li: usize = 0;
        while li < lines.len()
            invariant
                0 <= li <= lines@.len(),
                all_wf(records@),
                tables_tied(records@, content@),
                contains_sub(content@, "COPY public."@ + table@),
                base + block =~= recs_views(records@) + spec_pg_rows(
                    colviews,
                    lineviews,
                    table@,
                    li as int,
                ),
            decreases lines@.len() - li,
        {
            let ghost row = spec_pg_row(colviews, lineviews[li as int], table@);
            proof {
                assert(lines@[li as int]@ == lineviews[li as int]);
            }
            let line = &lines[li];
            let lt = trim(line);
            if lt.len() == 0 {
                proof {
                    assert(row =~= Seq::<(Seq<char>, Seq<(Seq<char>, Val)>)>::empty());
                    assert(base + block =~= recs_views(records@) + spec_pg_rows(
                        colviews,
                        lineviews,
                        table@,
                        li + 1,
                    ));
                }
                li += 1;
                continue ;
            }
            let fields = split_char(line, '\t');
            if fields.len() != raw_cols.len() {
                proof {
                    assert(views(fields@).len() == fields@.len());
                    assert(row =~= Seq::<(Seq<char>, Seq<(Seq<char>, Val)>)>::empty());
                    assert(base + block =~= recs_views(records@) + spec_pg_rows(
                        colviews,
                        lineviews,
                        table@,
                        li + 1,
                    ));
                }
                li += 1;
                continue ;
            }
            let mut kv: Vec<(Vec<char>, Value)> = Vec::new();
            let mut fi: usize = 0;
            while fi < fields.len()
                invariant
                    0 <= fi <= fields@.len(),
                    fields@.len() == raw_cols@.len(),
                    dvf(kv@).len() == fi,
                    forall|j: int|
                        0 <= j < fi ==> #[trigger] dvf(kv@)[j] == (
                            spec_trim(colviews[j]),
                            spec_pg_value(views(fields@)[j]),
                        ),
                decreases fields@.len() - fi,
            {
                let col = trim(&raw_cols[fi]);
                let value = pg_value(&fields[fi]);
                let ghost pre = kv@;
                kv.push((col, value));
                proof {
                    crate::value::dvf_push(pre, kv@);
                    assert(colviews[fi as int] == raw_cols@[fi as int]@);
                    assert(views(fields@)[fi as int] == fields@[fi as int]@);
                }
                fi += 1;
            }
            let ghost vals = spec_split(lineviews[li as int], '\t');
            proof {
                assert(views(fields@) == vals);
                assert(dvf(kv@) =~= Seq::new(
                    colviews.len() as nat,
                    |i: int| if 0 <= i < colviews.len() {
                        (spec_trim(colviews[i]), spec_pg_value(vals[i]))
                    } else {
                        (Seq::empty(), Val::Null)
                    },
                ));
            }
            match build_record(crate::value::clone_chars(&table), kv) {
                Some(rec) => {
                    proof {
                        assert(rec.table@ == table@) by {
                            assert(emit_record(table@, dvf(kv@))[0] == (rec.table@, rec.fdv()));
                        }
                    }
                    let ghost rpre = records@;
                    records.push(rec);
                    proof {
                        assert(recs_views(records@) =~= recs_views(rpre).push(
                            rec_view(records@[records@.len() - 1]),
                        ));
                        assert(row == seq![rec_view(records@[records@.len() - 1])]);
                        assert(base + block =~= recs_views(records@) + spec_pg_rows(
                            colviews,
                            lineviews,
                            table@,
                            li + 1,
                        ));
                    }
                },
                None => {
                    proof {
                        assert(row =~= Seq::<(Seq<char>, Seq<(Seq<char>, Val)>)>::empty());
                        assert(base + block =~= recs_views(records@) + spec_pg_rows(
                            colviews,
                            lineviews,
                            table@,
                            li + 1,
                        ));
                    }
                },
            }
            li += 1;
        }
        proof {
            assert(spec_pg_rows(colviews, lineviews, table@, lineviews.len() as int) =~= Seq::<
                (Seq<char>, Seq<(Seq<char>, Val)>),
            >::empty());
            assert(base + block =~= recs_views(records@));
        }
        if rend < content.len() && rend + 1 > pos {
            pos = rend + 1;
        } else {
            if next <= pos {
                proof {
                    assert(spec_parse_postgres(content@) =~= recs_views(records@)
                        + spec_parse_postgres_at(content@, next as int));
                }
                pos = next;
                break ;
            }
            pos = next;
        }
    }
    if records.len() == 0 {
        proof {
            assert(spec_parse_postgres(content@) =~= Seq::<
                (Seq<char>, Seq<(Seq<char>, Val)>),
            >::empty());
        }
        None
    } else {
        proof {
            assert(recs_match(records@, spec_parse_postgres(content@)));
        }
        Some(records)
    }
}

} // verus!
