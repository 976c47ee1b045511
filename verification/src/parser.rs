//! The dialect parser suite: shared scanning helpers and dispatch.

use vstd::prelude::*;
use crate::chars::{str_to_chars, find_sub};
use crate::html::{is_space, space_c};
use crate::record::Record;
use crate::value::{Value, Val};
use crate::detect::Format;

pub mod surreal;
pub mod mysql;
pub mod postgres;
pub mod oracle;
pub mod sqlite;
pub mod mssql;

verus! {

broadcast use vstd::std_specs::vec::group_vec_axioms;

/// First position at or after `i` with no whitespace.
pub open spec fn spec_skip_space(s: Seq<char>, i: int) -> int
    decreases s.len() - i,
{
    if 0 <= i < s.len() && is_space(s[i]) {
        spec_skip_space(s, i + 1)
    } else {
        i
    }
}

/// Exact computation of `spec_skip_space`.
#[verifier::loop_isolation(false)]
pub fn skip_space(s: &Vec<char>, i: usize) -> (j: usize)
    requires
        i <= s@.len(),
    ensures
        j as int == spec_skip_space(s@, i as int),
        i <= j <= s@.len(),
{
    let mut k: usize = i;
    loop
        invariant
            i <= k <= s@.len(),
            spec_skip_space(s@, i as int) == spec_skip_space(s@, k as int),
        decreases s@.len() - k,
    {
        if k >= s.len() {
            return k;
        }
        if !space_c(s[k]) {
            return k;
        }
        k += 1;
    }
}

/// Last position at or before `j` bounding trailing whitespace: characters
/// from the result to `j` are whitespace.
pub open spec fn spec_rskip_space(s: Seq<char>, j: int) -> int
    decreases j,
{
    if 0 < j <= s.len() && is_space(s[j - 1]) {
        spec_rskip_space(s, j - 1)
    } else {
        j
    }
}

/// Exact computation of `spec_rskip_space`.
#[verifier::loop_isolation(false)]
pub fn rskip_space(s: &Vec<char>, j: usize) -> (r: usize)
    requires
        j <= s@.len(),
    ensures
        r as int == spec_rskip_space(s@, j as int),
        r <= j,
{
    let mut k: usize = j;
    loop
        invariant
            0 <= k <= j <= s@.len(),
            spec_rskip_space(s@, j as int) == spec_rskip_space(s@, k as int),
        decreases k,
    {
        if k == 0 {
            return k;
        }
        if !space_c(s[k - 1]) {
            return k;
        }
        k -= 1;
    }
}

/// The trimmed form of `s`: outer whitespace removed.
pub open spec fn spec_trim(s: Seq<char>) -> Seq<char> {
    let a = spec_skip_space(s, 0);
    let b = spec_rskip_space(s, s.len() as int);
    if a <= b {
        s.subrange(a, b)
    } else {
        Seq::empty()
    }
}

/// Exact computation of `spec_trim`.
pub fn trim(s: &Vec<char>) -> (r: Vec<char>)
    ensures
        r@ == spec_trim(s@),
{
    let a = skip_space(s, 0);
    let b = rskip_space(s, s.len());
    if a <= b {
        crate::chars::copy_range(s, a, b)
    } else {
        Vec::new()
    }
}

/// Splitting at every occurrence of `sep`, one character at a time.
pub open spec fn spec_split_from(
    s: Seq<char>,
    i: int,
    sep: char,
    cur: Seq<char>,
    acc: Seq<Seq<char>>,
) -> Seq<Seq<char>>
    decreases s.len() - i,
{
    if !(0 <= i < s.len()) {
        acc.push(cur)
    } else if s[i] == sep {
        spec_split_from(s, i + 1, sep, Seq::empty(), acc.push(cur))
    } else {
        spec_split_from(s, i + 1, sep, cur.push(s[i]), acc)
    }
}

/// The pieces of `s` between occurrences of `sep`.
pub open spec fn spec_split(s: Seq<char>, sep: char) -> Seq<Seq<char>> {
    spec_split_from(s, 0, sep, Seq::empty(), Seq::empty())
}

/// The views of a vector of character vectors.
pub open spec fn views(v: Seq<Vec<char>>) -> Seq<Seq<char>> {
    Seq::new(v.len(), |i: int| if 0 <= i < v.len() { v[i]@ } else { Seq::empty() })
}

/// Exact computation of `spec_split`.
#[verifier::loop_isolation(false)]
pub fn split_char(s: &Vec<char>, sep: char) -> (r: Vec<Vec<char>>)
    ensures
        views(r@) == spec_split(s@, sep),
{
    let mut acc: Vec<Vec<char>> = Vec::new();
    let mut cur: Vec<char> = Vec::new();
    let mut i: usize = 0;
    proof {
        assert(views(acc@) =~= Seq::<Seq<char>>::empty());
    }
    while i < s.len()
        invariant
            0 <= i <= s@.len(),
            spec_split(s@, sep) == spec_split_from(s@, i as int, sep, cur@, views(acc@)),
        decreases s@.len() - i,
    {
        let c = s[i];
        if c == sep {
            let ghost pa = views(acc@);
            acc.push(cur);
            assert(views(acc@) =~= pa.push(acc@.last()@));
            cur = Vec::new();
        } else {
            cur.push(c);
        }
        i += 1;
    }
    let ghost pa = views(acc@);
    acc.push(cur);
    assert(views(acc@) =~= pa.push(acc@.last()@));
    acc
}

/// An identifier character: letter, digit or underscore.
pub open spec fn is_ident(c: char) -> bool {
    ('a' <= c && c <= 'z') || ('A' <= c && c <= 'Z') || ('0' <= c && c <= '9') || c == '_'
}

/// Exact test for `is_ident`.
pub fn ident_c(c: char) -> (r: bool)
    ensures
        r == is_ident(c),
{
    ('a' <= c && c <= 'z') || ('A' <= c && c <= 'Z') || ('0' <= c && c <= '9') || c == '_'
}

/// First position at or after `i` with no identifier character.
pub open spec fn spec_skip_ident(s: Seq<char>, i: int) -> int
    decreases s.len() - i,
{
    if 0 <= i < s.len() && is_ident(s[i]) {
        spec_skip_ident(s, i + 1)
    } else {
        i
    }
}

/// Exact computation of `spec_skip_ident`.
#[verifier::loop_isolation(false)]
pub fn skip_ident(s: &Vec<char>, i: usize) -> (j: usize)
    requires
        i <= s@.len(),
    ensures
        j as int == spec_skip_ident(s@, i as int),
        i <= j <= s@.len(),
{
    let mut k: usize = i;
    loop
        invariant
            i <= k <= s@.len(),
            spec_skip_ident(s@, i as int) == spec_skip_ident(s@, k as int),
        decreases s@.len() - k,
    {
        if k >= s.len() {
            return k;
        }
        if !ident_c(s[k]) {
            return k;
        }
        k += 1;
    }
}

/// Undoubling of quotes: every `''` becomes `'`.
pub open spec fn spec_undouble_from(s: Seq<char>, i: int, acc: Seq<char>) -> Seq<char>
    decreases s.len() - i,
{
    if !(0 <= i < s.len()) {
        acc
    } else if s[i] == '\'' && i + 1 < s.len() && s[i + 1] == '\'' {
        spec_undouble_from(s, i + 2, acc.push('\''))
    } else {
        spec_undouble_from(s, i + 1, acc.push(s[i]))
    }
}

/// `''` collapsed to `'` throughout `s`.
pub open spec fn spec_undouble(s: Seq<char>) -> Seq<char> {
    spec_undouble_from(s, 0, Seq::empty())
}

/// Exact computation of `spec_undouble`.
#[verifier::loop_isolation(false)]
pub fn undouble_quotes(s: &Vec<char>) -> (r: Vec<char>)
    ensures
        r@ == spec_undouble(s@),
{
    let mut out: Vec<char> = Vec::new();
    let mut i: usize = 0;
    while i < s.len()
        invariant
            0 <= i <= s@.len(),
            spec_undouble(s@) == spec_undouble_from(s@, i as int, out@),
        decreases s@.len() - i,
    {
        if s[i] == '\'' && i + 1 < s.len() && s[i + 1] == '\'' {
            out.push('\'');
            i += 2;
        } else {
            out.push(s[i]);
            i += 1;
        }
    }
    out
}

/// Every record of every parser meets the emission rules.
pub open spec fn all_wf(recs: Seq<Record>) -> bool {
    forall|i: int| 0 <= i < recs.len() ==> (#[trigger] recs[i]).wf()
}

/// The mathematical views of a record vector.
pub open spec fn recs_views(recs: Seq<Record>) -> Seq<(Seq<char>, Seq<(Seq<char>, Val)>)> {
    Seq::new(
        recs.len(),
        |i: int| if 0 <= i < recs.len() {
            crate::record::rec_view(recs[i])
        } else {
            (Seq::empty(), Seq::empty())
        },
    )
}

/// The parse of one chunk under a dialect.
pub open spec fn spec_parse_with(c: Seq<char>, format: Format) -> Seq<
    (Seq<char>, Seq<(Seq<char>, Val)>),
> {
    match format {
        Format::Surreal => surreal::spec_parse_surreal(c),
        Format::Mysql => mysql::spec_parse_mysql(c),
        Format::Postgres => postgres::spec_parse_postgres(c),
        Format::Oracle => oracle::spec_parse_oracle(c),
        Format::Sqlite => sqlite::spec_parse_sqlite(c),
        Format::Mssql => mssql::spec_parse_mssql(c),
        Format::Unknown => Seq::empty(),
    }
}

/// Dispatch a chunk to the parser for `format`; exact: `Some` holds the
/// dialect's parse, `None` comes exactly when that parse is empty.
pub fn parse_with_regex(chunk: &Vec<char>, format: Format) -> (r: Option<Vec<Record>>)
    ensures
        (match r {
            Some(recs) => crate::record::recs_match(recs@, spec_parse_with(chunk@, format))
                && recs@.len() > 0 && all_wf(recs@),
            None => spec_parse_with(chunk@, format).len() == 0,
        }),
{
    match format {
        Format::Surreal => surreal::parse_surreal(chunk),
        Format::Mysql => mysql::parse_mysql(chunk),
        Format::Postgres => postgres::parse_postgres(chunk),
        Format::Oracle => oracle::parse_oracle(chunk),
        Format::Sqlite => sqlite::parse_sqlite(chunk),
        Format::Mssql => mssql::parse_mssql(chunk),
        Format::Unknown => None,
    }
}

/// The positions of every `Insert into` marker at or after `from`.
pub open spec fn spec_insert_starts(c: Seq<char>, from: int) -> Seq<int>
    decreases c.len() + 1 - from,
{
    if !(0 <= from <= c.len()) {
        Seq::empty()
    } else {
        match spec_find_sub_at(c, "Insert into"@, from) {
            None => Seq::empty(),
            Some(p) => {
                if p >= c.len() || p + 1 <= from {
                    seq![p]
                } else {
                    seq![p] + spec_insert_starts(c, p + 1)
                }
            },
        }
    }
}

/// The parse of the Oracle chunk cut at marker `gi` of `starts`: from the
/// marker to the next one (or the end).
pub open spec fn spec_oracle_chunks(c: Seq<char>, starts: Seq<int>, gi: int) -> Seq<
    (Seq<char>, Seq<(Seq<char>, Val)>),
>
    decreases starts.len() - gi,
{
    if !(0 <= gi < starts.len()) {
        Seq::empty()
    } else {
        let lo = starts[gi];
        let hi = if gi + 1 < starts.len() {
            starts[gi + 1]
        } else {
            c.len() as int
        };
        (if 0 <= lo <= hi <= c.len() {
            oracle::spec_parse_oracle(c.subrange(lo, hi))
        } else {
            Seq::<(Seq<char>, Seq<(Seq<char>, Val)>)>::empty()
        }) + spec_oracle_chunks(c, starts, gi + 1)
    }
}

/// The parse of a whole dump: an Oracle dump is cut at each `Insert into`
/// marker and the cuts parsed in order; every other dialect is handed
/// over whole.
pub open spec fn spec_parse_export(c: Seq<char>, format: Format) -> Seq<
    (Seq<char>, Seq<(Seq<char>, Val)>),
> {
    if format is Oracle {
        let starts = spec_insert_starts(c, 0);
        if starts.len() == 0 {
            spec_parse_with(c, format)
        } else {
            spec_oracle_chunks(c, starts, 0)
        }
    } else {
        spec_parse_with(c, format)
    }
}

/// Parse a whole dump, exactly as `spec_parse_export` states it: records
/// keep the order of their statements; a chunk whose parse yields nothing
/// contributes nothing while the others still appear; the function never
/// fails.
#[verifier::loop_isolation(false)]
pub fn parse_database_export(content: &Vec<char>, format: Format) -> (r: Vec<Record>)
    ensures
        crate::record::recs_match(r@, spec_parse_export(content@, format)),
        all_wf(r@),
{
    let mut all: Vec<Record> = Vec::new();
    proof {
        assert(recs_views(all@) =~= Seq::<(Seq<char>, Seq<(Seq<char>, Val)>)>::empty());
    }
    if matches!(format, Format::Oracle) {
        let pat = str_to_chars("Insert into");
        let mut starts: Vec<usize> = Vec::new();
        let mut from: usize = 0;
        let ghost sspec = spec_insert_starts(content@, 0);
        proof {
            assert(crate::parser::usizes(starts@) =~= Seq::<int>::empty());
        }
        loop
            invariant
                from <= content@.len(),
                forall|k: int| 0 <= k < starts@.len() ==> starts@[k] <= content@.len(),
                sspec =~= usizes(starts@) + spec_insert_starts(content@, from as int),
            decreases content@.len() + 1 - from,
        {
            match find_sub_kw(content, pat.as_slice(), from) {
                Some(p) => {
                    let ghost spre = usizes(starts@);
                    starts.push(p);
                    proof {
                        assert(usizes(starts@) =~= spre.push(p as int));
                    }
                    if p >= content.len() || p + 1 <= from {
                        proof {
                            assert(sspec =~= usizes(starts@));
                        }
                        break ;
                    }
                    from = p + 1;
                },
                None => {
                    proof {
                        assert(sspec =~= usizes(starts@));
                    }
                    break ;
                },
            }
        }
        if starts.len() == 0 {
            proof {
                assert(sspec.len() == 0);
            }
            match parse_with_regex(content, format) {
                Some(mut recs) => {
                    proof {
                        assert(recs_views(recs@) =~= spec_parse_export(content@, format));
                    }
                    append_all(&mut all, &mut recs);
                    proof {
                        assert(recs_views(all@) =~= spec_parse_export(content@, format));
                    }
                },
                None => {
                    proof {
                        assert(recs_views(all@) =~= spec_parse_export(content@, format));
                    }
                },
            }
        } else {
            let mut gi: usize = 0;
            while gi < starts.len()
                invariant
                    all_wf(all@),
                    sspec == usizes(starts@),
                    sspec.len() == starts@.len() > 0,
                    forall|k: int| 0 <= k < starts@.len() ==> starts@[k] <= content@.len(),
                    spec_oracle_chunks(content@, sspec, 0) =~= recs_views(all@)
                        + spec_oracle_chunks(content@, sspec, gi as int),
                decreases starts@.len() - gi,
            {
                let lo = starts[gi];
                let hi = if gi + 1 < starts.len() {
                    starts[gi + 1]
                } else {
                    content.len()
                };
                let ghost chunk_recs = (if 0 <= lo as int <= hi as int <= content@.len() {
                    oracle::spec_parse_oracle(content@.subrange(lo as int, hi as int))
                } else {
                    Seq::<(Seq<char>, Seq<(Seq<char>, Val)>)>::empty()
                });
                if lo <= hi {
                    let piece = crate::chars::copy_range(content, lo, hi);
                    match parse_with_regex(&piece, format) {
                        Some(mut recs) => {
                            let ghost rv = recs_views(recs@);
                            proof {
                                assert(rv =~= chunk_recs);
                            }
                            let ghost apre = recs_views(all@);
                            append_all(&mut all, &mut recs);
                            proof {
                                assert(recs_views(all@) =~= apre + rv);
                                assert(spec_oracle_chunks(content@, sspec, 0) =~= recs_views(all@)
                                    + spec_oracle_chunks(content@, sspec, gi + 1));
                            }
                        },
                        None => {
                            proof {
                                assert(chunk_recs.len() == 0);
                                assert(spec_oracle_chunks(content@, sspec, 0) =~= recs_views(all@)
                                    + spec_oracle_chunks(content@, sspec, gi + 1));
                            }
                        },
                    }
                } else {
                    proof {
                        assert(chunk_recs.len() == 0);
                        assert(spec_oracle_chunks(content@, sspec, 0) =~= recs_views(all@)
                            + spec_oracle_chunks(content@, sspec, gi + 1));
                    }
                }
                gi += 1;
            }
            proof {
                assert(spec_oracle_chunks(content@, sspec, sspec.len() as int) =~= Seq::<
                    (Seq<char>, Seq<(Seq<char>, Val)>),
                >::empty());
                assert(recs_views(all@) =~= spec_oracle_chunks(content@, sspec, 0));
                assert(recs_views(all@) =~= spec_parse_export(content@, format));
            }
        }
    } else {
        match parse_with_regex(content, format) {
            Some(mut recs) => {
                proof {
                    assert(recs_views(recs@) =~= spec_parse_with(content@, format));
                }
                append_all(&mut all, &mut recs);
                proof {
                    assert(recs_views(all@) =~= spec_parse_export(content@, format));
                }
            },
            None => {
                proof {
                    assert(spec_parse_with(content@, format).len() == 0);
                    assert(recs_views(all@) =~= spec_parse_export(content@, format));
                }
            },
        }
    }
    proof {
        assert(crate::record::recs_match(all@, spec_parse_export(content@, format)));
    }
    all
}

/// The integer views of a position vector.
pub open spec fn usizes(v: Seq<usize>) -> Seq<int> {
    Seq::new(v.len(), |i: int| if 0 <= i < v.len() { v[i] as int } else { 0int })
}

/// Append all records of `src` onto `dst`, keeping well-formedness.
pub fn append_all(dst: &mut Vec<Record>, src: &mut Vec<Record>)
    requires
        all_wf(old(dst)@),
        all_wf(old(src)@),
    ensures
        final(dst)@ == old(dst)@ + old(src)@,
        all_wf(final(dst)@),
{
    dst.append(src);
    assert forall|i: int| 0 <= i < dst@.len() implies (#[trigger] dst@[i]).wf() by {
        if i < old(dst)@.len() {
            assert(dst@[i] == old(dst)@[i]);
        } else {
            assert(dst@[i] == old(src)@[i - old(dst)@.len()]);
        }
    }
}

/// First index of `c` in `s` at or after `i`, or -1.
pub open spec fn spec_find_char(s: Seq<char>, i: int, c: char) -> int
    decreases s.len() - i,
{
    if !(0 <= i < s.len()) {
        -1
    } else if s[i] == c {
        i
    } else {
        spec_find_char(s, i + 1, c)
    }
}

/// Exact computation of `spec_find_char`.
#[verifier::loop_isolation(false)]
pub fn find_char(s: &Vec<char>, i: usize, c: char) -> (r: Option<usize>)
    requires
        i <= s@.len(),
    ensures
        (match r {
            Some(j) => j as int == spec_find_char(s@, i as int, c) && i <= j < s@.len(),
            None => spec_find_char(s@, i as int, c) == -1,
        }),
{
    let mut k: usize = i;
    loop
        invariant
            i <= k <= s@.len(),
            spec_find_char(s@, i as int, c) == spec_find_char(s@, k as int, c),
        decreases s@.len() - k,
    {
        if k >= s.len() {
            return None;
        }
        if s[k] == c {
            return Some(k);
        }
        k += 1;
    }
}

/// Last index of `c` in `s` strictly before `j`, or -1.
pub open spec fn spec_rfind_char(s: Seq<char>, j: int, c: char) -> int
    decreases j,
{
    if !(0 < j <= s.len()) {
        -1
    } else if s[j - 1] == c {
        j - 1
    } else {
        spec_rfind_char(s, j - 1, c)
    }
}

/// Exact computation of `spec_rfind_char`.
#[verifier::loop_isolation(false)]
pub fn rfind_char(s: &Vec<char>, j: usize, c: char) -> (r: Option<usize>)
    requires
        j <= s@.len(),
    ensures
        (match r {
            Some(k) => k as int == spec_rfind_char(s@, j as int, c) && k < j,
            None => spec_rfind_char(s@, j as int, c) == -1,
        }),
{
    let mut k: usize = j;
    loop
        invariant
            0 <= k <= j <= s@.len(),
            spec_rfind_char(s@, j as int, c) == spec_rfind_char(s@, k as int, c),
        decreases k,
    {
        if k == 0 {
            return None;
        }
        if s[k - 1] == c {
            return Some(k - 1);
        }
        k -= 1;
    }
}

/// The scan for the end of a bracketed array: depth, string and escape
/// state as the extraction walk tracks them.  Returns the position just
/// after the closing bracket.
pub open spec fn spec_eja_scan(s: Seq<char>, i: int, depth: int, in_str: bool, esc: bool) -> Option<
    int,
>
    decreases s.len() - i,
{
    if !(0 <= i < s.len()) {
        None
    } else {
        let c = s[i];
        if c == '[' && !in_str {
            spec_eja_scan(s, i + 1, depth + 1, in_str, esc)
        } else if c == ']' && !in_str {
            if depth - 1 == 0 {
                Some(i + 1)
            } else {
                spec_eja_scan(s, i + 1, depth - 1, in_str, esc)
            }
        } else if c == '"' && !esc {
            spec_eja_scan(s, i + 1, depth, !in_str, esc)
        } else if c == '\\' && in_str && !esc {
            spec_eja_scan(s, i + 1, depth, in_str, true)
        } else {
            spec_eja_scan(s, i + 1, depth, in_str, false)
        }
    }
}

/// Where the first balanced bracketed array of `s` stands, if one does.
pub open spec fn spec_extract_json_array(s: Seq<char>) -> Option<(int, int)> {
    let open = spec_find_char(s, 0, '[');
    if open < 0 {
        None
    } else {
        match spec_eja_scan(s, open + 1, 1, false, false) {
            Some(end) => Some((open, end)),
            None => None,
        }
    }
}

/// The first balanced `[...]` run of `s`, with nesting, quoted strings and
/// escapes respected; exact.
#[verifier::loop_isolation(false)]
pub fn extract_json_array(text: &Vec<char>) -> (r: Option<Vec<char>>)
    ensures
        (match (r, spec_extract_json_array(text@)) {
            (Some(v), Some((a, b))) => 0 <= a <= b <= text@.len() && v@ == text@.subrange(a, b),
            (None, None) => true,
            _ => false,
        }),
{
    let n = text.len();
    let open = match find_char(text, 0, '[') {
        Some(p) => p,
        None => {
            return None;
        },
    };
    assert(open < n);
    let mut i: usize = open + 1;
    let mut depth: usize = 1;
    let mut in_str: bool = false;
    let mut esc: bool = false;
    loop
        invariant
            open < i <= text@.len(),
            depth >= 1,
            depth <= i,
            spec_eja_scan(text@, open + 1, 1, false, false) == spec_eja_scan(
                text@,
                i as int,
                depth as int,
                in_str,
                esc,
            ),
        decreases text@.len() - i,
    {
        if i >= text.len() {
            return None;
        }
        let c = text[i];
        if c == '[' && !in_str {
            depth += 1;
        } else if c == ']' && !in_str {
            if depth == 1 {
                return Some(crate::chars::copy_range(text, open, i + 1));
            }
            depth -= 1;
        } else if c == '"' && !esc {
            in_str = !in_str;
        } else if c == '\\' && in_str && !esc {
            esc = true;
        } else {
            esc = false;
        }
        i += 1;
    }
}

/// The repair rule for almost-JSON text: keep the span from the first `[`
/// to the last `]`; else, when the text does not open with `[`, the first
/// balanced bracketed run; else `[]` when the text opens with neither `[`
/// nor `{`; else the text unchanged.
pub open spec fn spec_fix_json_text(s: Seq<char>) -> Seq<char> {
    let a = spec_find_char(s, 0, '[');
    let b = spec_rfind_char(s, s.len() as int, ']');
    if 0 <= a && 0 <= b && a < b {
        s.subrange(a, b + 1)
    } else {
        let t = spec_trim(s);
        if !(t.len() > 0 && t[0] == '[') {
            if a >= 0 {
                match spec_eja_scan(s, a + 1, 1, false, false) {
                    Some(end) => s.subrange(a, end),
                    None => {
                        if !(t.len() > 0 && (t[0] == '[' || t[0] == '{')) {
                            seq!['[', ']']
                        } else {
                            s
                        }
                    },
                }
            } else {
                if !(t.len() > 0 && (t[0] == '[' || t[0] == '{')) {
                    seq!['[', ']']
                } else {
                    s
                }
            }
        } else {
            s
        }
    }
}

/// Repair almost-JSON text so that it can be read as an array; exact.
#[verifier::loop_isolation(false)]
pub fn fix_json_text(text: &Vec<char>) -> (r: Vec<char>)
    ensures
        r@ == spec_fix_json_text(text@),
{
    let a = find_char(text, 0, '[');
    let b = rfind_char(text, text.len(), ']');
    match (a, b) {
        (Some(x), Some(y)) => {
            if x < y {
                return crate::chars::copy_range(text, x, y + 1);
            }
        },
        _ => {},
    }
    let t = trim(text);
    let opens_sq = t.len() > 0 && t[0] == '[';
    let opens_any = t.len() > 0 && (t[0] == '[' || t[0] == '{');
    if !opens_sq {
        match a {
            Some(x) => {
                let n = text.len();
                assert(x < n);
                let mut i: usize = x + 1;
                let mut depth: usize = 1;
                let mut in_str: bool = false;
                let mut esc: bool = false;
                loop
                    invariant
                        x < i <= text@.len(),
                        depth >= 1,
                        depth <= i,
                        spec_eja_scan(text@, x + 1, 1, false, false) == spec_eja_scan(
                            text@,
                            i as int,
                            depth as int,
                            in_str,
                            esc,
                        ),
                    decreases text@.len() - i,
                {
                    if i >= text.len() {
                        break ;
                    }
                    let c = text[i];
                    if c == '[' && !in_str {
                        depth += 1;
                    } else if c == ']' && !in_str {
                        if depth == 1 {
                            return crate::chars::copy_range(text, x, i + 1);
                        }
                        depth -= 1;
                    } else if c == '"' && !esc {
                        in_str = !in_str;
                    } else if c == '\\' && in_str && !esc {
                        esc = true;
                    } else {
                        esc = false;
                    }
                    i += 1;
                }
                if !opens_any {
                    let mut v: Vec<char> = Vec::new();
                    v.push('[');
                    v.push(']');
                    assert(v@ =~= seq!['[', ']']);
                    return v;
                }
                return crate::value::clone_chars(text);
            },
            None => {
                if !opens_any {
                    let mut v: Vec<char> = Vec::new();
                    v.push('[');
                    v.push(']');
                    assert(v@ =~= seq!['[', ']']);
                    return v;
                }
                return crate::value::clone_chars(text);
            },
        }
    }
    crate::value::clone_chars(text)
}

/// The element-splitting walk for brace-array text: backslash escapes,
/// double-quote state, splits at top-level commas, each piece trimmed.
pub open spec fn spec_array_scan(
    s: Seq<char>,
    i: int,
    in_q: bool,
    esc: bool,
    cur: Seq<char>,
    acc: Seq<Seq<char>>,
) -> Seq<Seq<char>>
    decreases s.len() - i,
{
    if !(0 <= i < s.len()) {
        acc.push(spec_trim(cur))
    } else {
        let c = s[i];
        if esc {
            spec_array_scan(s, i + 1, in_q, false, cur.push(c), acc)
        } else if c == '\\' {
            spec_array_scan(s, i + 1, in_q, true, cur, acc)
        } else if c == '"' {
            spec_array_scan(s, i + 1, !in_q, false, cur, acc)
        } else if c == ',' && !in_q {
            spec_array_scan(s, i + 1, in_q, false, Seq::empty(), acc.push(spec_trim(cur)))
        } else {
            spec_array_scan(s, i + 1, in_q, false, cur.push(c), acc)
        }
    }
}

/// String pieces lifted to string values.
pub open spec fn strs_to_vals(ss: Seq<Seq<char>>) -> Seq<Val> {
    Seq::new(ss.len(), |i: int| if 0 <= i < ss.len() { Val::Str(ss[i]) } else { Val::Null })
}

/// The parse of a brace-array literal: the body split into trimmed string
/// elements, or an empty list for an empty body.
pub open spec fn spec_parse_array(t: Seq<char>) -> Option<Val> {
    if t.len() < 2 {
        None
    } else {
        let content = t.subrange(1, t.len() - 1);
        if content.len() == 0 {
            Some(Val::Arr(Seq::empty()))
        } else {
            Some(
                Val::Arr(
                    strs_to_vals(spec_array_scan(content, 0, false, false, Seq::empty(), Seq::empty())),
                ),
            )
        }
    }
}

/// Read a delimited array literal as a list of trimmed strings; exact.
#[verifier::loop_isolation(false)]
pub fn parse_array(array_str: &Vec<char>) -> (r: Option<Value>)
    ensures
        (match (r, spec_parse_array(array_str@)) {
            (Some(v), Some(w)) => v.dv() == w,
            (None, None) => true,
            _ => false,
        }),
{
    if array_str.len() < 2 {
        return None;
    }
    let content = crate::chars::copy_range(array_str, 1, array_str.len() - 1);
    if content.len() == 0 {
        let out = Value::Arr(Vec::new());
        proof {
            assert(out.dv()->Arr_0 =~= Seq::<Val>::empty());
        }
        return Some(out);
    }
    let mut elems: Vec<Value> = Vec::new();
    let ghost mut vs: Seq<Seq<char>> = Seq::empty();
    let mut cur: Vec<char> = Vec::new();
    let mut in_q: bool = false;
    let mut esc: bool = false;
    let mut i: usize = 0;
    let ghost target = spec_array_scan(content@, 0, false, false, Seq::empty(), Seq::empty());
    while i < content.len()
        invariant
            0 <= i <= content@.len(),
            target == spec_array_scan(content@, i as int, in_q, esc, cur@, vs),
            elems@.len() == vs.len(),
            forall|k: int| 0 <= k < vs.len() ==> (#[trigger] elems@[k]).dv() == Val::Str(vs[k]),
        decreases content@.len() - i,
    {
        let c = content[i];
        if esc {
            cur.push(c);
            esc = false;
        } else if c == '\\' {
            esc = true;
        } else if c == '"' {
            in_q = !in_q;
        } else if c == ',' && !in_q {
            let piece = trim(&cur);
            proof {
                vs = vs.push(piece@);
            }
            elems.push(Value::Str(piece));
            cur = Vec::new();
        } else {
            cur.push(c);
        }
        i += 1;
    }
    let piece = trim(&cur);
    proof {
        vs = vs.push(piece@);
    }
    elems.push(Value::Str(piece));
    let out = Value::Arr(elems);
    proof {
        assert(target == vs);
        assert forall|k: int| 0 <= k < vs.len() implies out.dv()->Arr_0[k] == strs_to_vals(
            vs,
        )[k] by {
            assert(out.dv()->Arr_0[k] == out->Arr_0@[k].dv());
        }
        assert(out.dv()->Arr_0 =~= strs_to_vals(vs));
    }
    Some(out)
}

/// First occurrence of `pat` in `s` at or after `i`, as a position.
pub open spec fn spec_find_sub_at(s: Seq<char>, pat: Seq<char>, i: int) -> Option<int>
    decreases s.len() + 1 - i,
{
    if !(0 <= i && i + pat.len() <= s.len()) {
        None
    } else if s.subrange(i, i + pat.len()) == pat {
        Some(i)
    } else {
        spec_find_sub_at(s, pat, i + 1)
    }
}

/// Exact computation of `spec_find_sub_at`.
#[verifier::loop_isolation(false)]
pub fn find_sub_kw(s: &Vec<char>, pat: &[char], from: usize) -> (r: Option<usize>)
    requires
        from <= s@.len(),
    ensures
        (match r {
            Some(j) => Some(j as int) == spec_find_sub_at(s@, pat@, from as int) && from <= j
                && j + pat@.len() <= s@.len() && s@.subrange(j as int, j + pat@.len()) == pat@,
            None => spec_find_sub_at(s@, pat@, from as int) is None,
        }),
{
    let mut k: usize = from;
    loop
        invariant
            from <= k <= s@.len(),
            spec_find_sub_at(s@, pat@, from as int) == spec_find_sub_at(s@, pat@, k as int),
        decreases s@.len() + 1 - k,
    {
        if s.len() - k < pat.len() {
            return None;
        }
        if crate::chars::match_at(s, pat, k) {
            assert(s@.subrange(k as int, k + pat@.len()) == pat@);
            return Some(k);
        }
        if k == s.len() {
            proof {
                assert(s@.subrange(k as int, k + pat@.len()) =~= pat@);
                assert(false);
            }
            return None;
        }
        k += 1;
    }
}

/// The column-list splitting walk: top-level commas only, parentheses
/// tracked outside single-quoted strings.
pub open spec fn spec_cols_scan(
    s: Seq<char>,
    i: int,
    in_str: bool,
    depth: int,
    cur: Seq<char>,
    acc: Seq<Seq<char>>,
) -> Seq<Seq<char>>
    decreases s.len() - i,
{
    if !(0 <= i < s.len()) {
        acc.push(spec_trim(cur))
    } else {
        let c = s[i];
        if c == '\'' {
            spec_cols_scan(s, i + 1, !in_str, depth, cur.push(c), acc)
        } else if c == '(' && !in_str {
            spec_cols_scan(s, i + 1, in_str, depth + 1, cur.push(c), acc)
        } else if c == ')' && !in_str {
            spec_cols_scan(
                s,
                i + 1,
                in_str,
                if depth > 0 {
                    depth - 1
                } else {
                    depth
                },
                cur.push(c),
                acc,
            )
        } else if c == ',' && !in_str && depth == 0 {
            spec_cols_scan(s, i + 1, in_str, depth, Seq::empty(), acc.push(spec_trim(cur)))
        } else {
            spec_cols_scan(s, i + 1, in_str, depth, cur.push(c), acc)
        }
    }
}

/// Exact computation of `spec_cols_scan` from the start of a column list.
#[verifier::loop_isolation(false)]
pub fn split_cols(s: &Vec<char>) -> (r: Vec<Vec<char>>)
    ensures
        views(r@) == spec_cols_scan(s@, 0, false, 0, Seq::empty(), Seq::empty()),
{
    let mut acc: Vec<Vec<char>> = Vec::new();
    let ghost mut vs: Seq<Seq<char>> = Seq::empty();
    let mut cur: Vec<char> = Vec::new();
    let mut in_str: bool = false;
    let mut depth: usize = 0;
    let mut i: usize = 0;
    let ghost target = spec_cols_scan(s@, 0, false, 0, Seq::empty(), Seq::empty());
    while i < s.len()
        invariant
            0 <= i <= s@.len(),
            depth <= i,
            target == spec_cols_scan(s@, i as int, in_str, depth as int, cur@, vs),
            views(acc@) =~= vs,
        decreases s@.len() - i,
    {
        let c = s[i];
        if c == '\'' {
            cur.push(c);
            in_str = !in_str;
        } else if c == '(' && !in_str {
            cur.push(c);
            depth += 1;
        } else if c == ')' && !in_str {
            cur.push(c);
            if depth > 0 {
                depth -= 1;
            }
        } else if c == ',' && !in_str && depth == 0 {
            let piece = trim(&cur);
            proof {
                vs = vs.push(piece@);
            }
            acc.push(piece);
            assert(views(acc@) =~= vs);
            cur = Vec::new();
        } else {
            cur.push(c);
        }
        i += 1;
    }
    let piece = trim(&cur);
    proof {
        vs = vs.push(piece@);
    }
    acc.push(piece);
    assert(views(acc@) =~= vs);
    acc
}

/// The scan for the closing parenthesis: depth and single-quote string
/// state, yielding the position just after the match.
pub open spec fn spec_close_paren(s: Seq<char>, i: int, depth: int, in_str: bool) -> Option<int>
    decreases s.len() - i,
{
    if !(0 <= i < s.len()) {
        None
    } else {
        let c = s[i];
        if c == '\'' {
            spec_close_paren(s, i + 1, depth, !in_str)
        } else if c == '(' && !in_str {
            spec_close_paren(s, i + 1, depth + 1, in_str)
        } else if c == ')' && !in_str {
            if depth == 1 {
                Some(i + 1)
            } else {
                spec_close_paren(s, i + 1, depth - 1, in_str)
            }
        } else {
            spec_close_paren(s, i + 1, depth, in_str)
        }
    }
}

/// Find the position just after the parenthesis closing the one at
/// `open`, single-quoted strings respected; exact.
#[verifier::loop_isolation(false)]
pub fn find_close_paren(s: &Vec<char>, open: usize) -> (r: Option<usize>)
    requires
        open < s@.len(),
    ensures
        (match r {
            Some(e) => open + 2 <= e <= s@.len() && Some(e as int) == spec_close_paren(
                s@,
                open + 1,
                1,
                false,
            ),
            None => spec_close_paren(s@, open + 1, 1, false) is None,
        }),
{
    let n = s.len();
    assert(open < n);
    let mut i: usize = open + 1;
    let mut depth: usize = 1;
    let mut in_str: bool = false;
    while i < s.len()
        invariant
            open < i <= s@.len(),
            1 <= depth <= i,
            spec_close_paren(s@, open + 1, 1, false) == spec_close_paren(
                s@,
                i as int,
                depth as int,
                in_str,
            ),
        decreases s@.len() - i,
    {
        let c = s[i];
        if c == '\'' {
            in_str = !in_str;
        } else if c == '(' && !in_str {
            depth += 1;
        } else if c == ')' && !in_str {
            if depth == 1 {
                return Some(i + 1);
            }
            depth -= 1;
        }
        i += 1;
    }
    None
}

/// The first identifier run of a trimmed column definition, a leading
/// backtick or double quote skipped.
pub open spec fn spec_first_ident(piece: Seq<char>) -> Seq<char> {
    let t = spec_trim(piece);
    let start: int = if t.len() > 0 && (t[0] == '`' || t[0] == '"') {
        1
    } else {
        0
    };
    t.subrange(start, spec_skip_ident(t, start))
}

/// Exact computation of `spec_first_ident`.
#[verifier::loop_isolation(false)]
pub fn first_ident(piece: &Vec<char>) -> (r: Vec<char>)
    ensures
        r@ == spec_first_ident(piece@),
{
    let t = trim(piece);
    let mut start: usize = 0;
    if t.len() > 0 && (t[0] == '`' || t[0] == '"') {
        start = 1;
    }
    let e = skip_ident(&t, start);
    crate::chars::copy_range(&t, start, e)
}

/// The piece opens (without regard to ASCII case) with one of the words
/// that name a constraint rather than a column, or is a comment line.
pub open spec fn spec_is_constraint(piece: Seq<char>) -> bool {
    let t = spec_trim(piece);
    let lw = crate::db::lower_seq(spec_first_ident(t));
    ||| lw == "primary"@
    ||| lw == "key"@
    ||| lw == "constraint"@
    ||| lw == "unique"@
    ||| lw == "fulltext"@
    ||| lw == "spatial"@
    ||| lw == "foreign"@
    ||| lw == "index"@
    ||| lw == "check"@
    ||| (t.len() >= 2 && t[0] == '-' && t[1] == '-')
}

/// Exact test for `spec_is_constraint`.
#[verifier::loop_isolation(false)]
pub fn is_constraint_piece(piece: &Vec<char>) -> (r: bool)
    ensures
        r == spec_is_constraint(piece@),
{
    let t = trim(piece);
    let name = first_ident(&t);
    proof {
        assert(name@ == spec_first_ident(spec_trim(piece@)));
    }
    let lw = crate::db::to_ascii_lower(&name);
    eq_lit(&lw, "primary") || eq_lit(&lw, "key") || eq_lit(&lw, "constraint") || eq_lit(&lw, "unique")
        || eq_lit(&lw, "fulltext") || eq_lit(&lw, "spatial") || eq_lit(&lw, "foreign") || eq_lit(
        &lw,
        "index",
    ) || eq_lit(&lw, "check") || (t.len() >= 2 && t[0] == '-' && t[1] == '-')
}

/// The vector equals the literal, character for character.
#[verifier::loop_isolation(false)]
pub fn eq_lit(v: &Vec<char>, lit: &str) -> (r: bool)
    ensures
        r == (v@ == lit@),
{
    let lv = str_to_chars(lit);
    crate::chars::eq_chars(v, &lv)
}

/// Harvested column lists, one per table.
pub struct TableCols {
    pub names: Vec<(Vec<char>, Vec<Vec<char>>)>,
}

/// The mathematical views of harvested column lists.
pub open spec fn tc_views(names: Seq<(Vec<char>, Vec<Vec<char>>)>) -> Seq<
    (Seq<char>, Seq<Seq<char>>),
> {
    Seq::new(
        names.len(),
        |i: int| if 0 <= i < names.len() {
            (names[i].0@, views(names[i].1@))
        } else {
            (Seq::empty(), Seq::empty())
        },
    )
}

/// The column names of a split column list, from piece `i` on: the first
/// identifier of every non-empty, non-constraint piece that has one.
pub open spec fn spec_cols_list(pieces: Seq<Seq<char>>, i: int) -> Seq<Seq<char>>
    decreases pieces.len() - i,
{
    if !(0 <= i < pieces.len()) {
        Seq::empty()
    } else {
        let t = spec_trim(pieces[i]);
        let rest = spec_cols_list(pieces, i + 1);
        if t.len() > 0 && !spec_is_constraint(t) && spec_first_ident(t).len() > 0 {
            seq![spec_first_ident(t)] + rest
        } else {
            rest
        }
    }
}

/// The harvested tables at or after `pos`, in order: for each
/// `CREATE TABLE` statement, the table name and its column names; a
/// statement with no columns left contributes nothing.
pub open spec fn spec_harvest_at(c: Seq<char>, pos: int) -> Seq<(Seq<char>, Seq<Seq<char>>)>
    decreases c.len() + 1 - pos,
{
    if !(0 <= pos <= c.len()) {
        Seq::empty()
    } else {
        match spec_find_sub_at(c, "CREATE TABLE"@, pos) {
            None => Seq::empty(),
            Some(p) => {
                let next = if p < c.len() {
                    p + 1
                } else {
                    c.len() as int
                };
                if next <= pos {
                    Seq::empty()
                } else {
                    let k0 = spec_skip_space(c, p + "CREATE TABLE"@.len());
                    let k1 = if crate::chars::sub_at(c, "IF NOT EXISTS"@, k0) {
                        spec_skip_space(c, k0 + "IF NOT EXISTS"@.len())
                    } else {
                        k0
                    };
                    let k2 = if k1 < c.len() && (c[k1] == '`' || c[k1] == '\'' || c[k1] == '"') {
                        k1 + 1
                    } else {
                        k1
                    };
                    let t1 = spec_skip_ident(c, k2);
                    let table = c.subrange(k2, t1);
                    let q = if t1 < c.len() && (c[t1] == '`' || c[t1] == '\'' || c[t1] == '"') {
                        t1 + 1
                    } else {
                        t1
                    };
                    let q2 = spec_skip_space(c, q);
                    if !(q2 < c.len() && c[q2] == '(') || table.len() == 0 {
                        spec_harvest_at(c, next)
                    } else {
                        match spec_close_paren(c, q2 + 1, 1, false) {
                            None => Seq::empty(),
                            Some(e) => {
                                let pieces = spec_cols_scan(
                                    c.subrange(q2 + 1, e - 1),
                                    0,
                                    false,
                                    0,
                                    Seq::empty(),
                                    Seq::empty(),
                                );
                                let cols = spec_cols_list(pieces, 0);
                                (if cols.len() > 0 {
                                    seq![(table, cols)]
                                } else {
                                    Seq::<(Seq<char>, Seq<Seq<char>>)>::empty()
                                }) + spec_harvest_at(c, next)
                            },
                        }
                    }
                }
            },
        }
    }
}

/// The harvested tables of a whole chunk.
pub open spec fn spec_harvest(c: Seq<char>) -> Seq<(Seq<char>, Seq<Seq<char>>)> {
    spec_harvest_at(c, 0)
}

/// The columns of the first harvested entry for `table`.
pub open spec fn spec_lookup(tcs: Seq<(Seq<char>, Seq<Seq<char>>)>, table: Seq<char>) -> Option<
    Seq<Seq<char>>,
>
    decreases tcs.len(),
{
    if tcs.len() == 0 {
        None
    } else if tcs[0].0 == table {
        Some(tcs[0].1)
    } else {
        spec_lookup(tcs.drop_first(), table)
    }
}

/// Look a table's columns up by name; exact first match.
#[verifier::loop_isolation(false)]
pub fn lookup_cols<'a>(tc: &'a TableCols, table: &Vec<char>) -> (r: Option<&'a Vec<Vec<char>>>)
    ensures
        (match r {
            Some(cols) => Some(views(cols@)) == spec_lookup(tc_views(tc.names@), table@),
            None => spec_lookup(tc_views(tc.names@), table@) is None,
        }),
{
    let ghost tv = tc_views(tc.names@);
    let mut i: usize = 0;
    proof {
        assert(tv.subrange(0, tv.len() as int) =~= tv);
    }
    while i < tc.names.len()
        invariant
            0 <= i <= tc.names@.len(),
            tv == tc_views(tc.names@),
            spec_lookup(tv, table@) == spec_lookup(
                tv.subrange(i as int, tv.len() as int),
                table@,
            ),
        decreases tc.names@.len() - i,
    {
        proof {
            assert(tv.subrange(i as int, tv.len() as int).drop_first() =~= tv.subrange(
                i + 1,
                tv.len() as int,
            ));
            assert(tv.subrange(i as int, tv.len() as int)[0] == tv[i as int]);
        }
        if crate::chars::eq_chars(&tc.names[i].0, table) {
            return Some(&tc.names[i].1);
        }
        i += 1;
    }
    None
}

/// Harvest `CREATE TABLE <name> ( ... )` column lists from a chunk,
/// exactly as `spec_harvest` states it.
#[verifier::loop_isolation(false)]
pub fn harvest_create_tables(content: &Vec<char>) -> (r: TableCols)
    ensures
        tc_views(r.names@) == spec_harvest(content@),
{
    let mut out = TableCols { names: Vec::new() };
    let pat = str_to_chars("CREATE TABLE");
    let ine = str_to_chars("IF NOT EXISTS");
    let mut pos: usize = 0;
    proof {
        assert(tc_views(out.names@) =~= Seq::<(Seq<char>, Seq<Seq<char>>)>::empty());
    }
    loop
        invariant
            pos <= content@.len(),
            spec_harvest(content@) == tc_views(out.names@) + spec_harvest_at(
                content@,
                pos as int,
            ),
        decreases content@.len() - pos,
    {
        let p = match find_sub_kw(content, pat.as_slice(), pos) {
            Some(p) => p,
            None => {
                proof {
                    assert(spec_harvest(content@) =~= tc_views(out.names@));
                }
                break ;
            },
        };
        let next = if p < content.len() {
            p + 1
        } else {
            content.len()
        };
        if next <= pos {
            proof {
                assert(spec_harvest(content@) =~= tc_views(out.names@));
            }
            break ;
        }
        let mut k = skip_space(content, p + pat.len());
        if crate::chars::match_at(content, ine.as_slice(), k) {
            k = skip_space(content, k + ine.len());
        }
        if k < content.len() && (content[k] == '`' || content[k] == '\'' || content[k] == '"') {
            k += 1;
        }
        let t1 = skip_ident(content, k);
        let table = crate::chars::copy_range(content, k, t1);
        let mut q = t1;
        if q < content.len() && (content[q] == '`' || content[q] == '\'' || content[q] == '"') {
            q += 1;
        }
        let q2 = skip_space(content, q);
        if !(q2 < content.len() && content[q2] == '(') || table.len() == 0 {
            proof {
                assert(spec_harvest_at(content@, pos as int) == spec_harvest_at(
                    content@,
                    next as int,
                ));
            }
            pos = next;
            continue ;
        }
        let e = match find_close_paren(content, q2) {
            Some(e) => e,
            None => {
                proof {
                    assert(spec_harvest_at(content@, pos as int) =~= Seq::<
                        (Seq<char>, Seq<Seq<char>>),
                    >::empty());
                    assert(spec_harvest(content@) =~= tc_views(out.names@));
                }
                break ;
            },
        };
        let body = crate::chars::copy_range(content, q2 + 1, e - 1);
        let pieces = split_cols(&body);
        let ghost pviews = views(pieces@);
        let mut cols: Vec<Vec<char>> = Vec::new();
        let mut ci: usize = 0;
        proof {
            assert(views(cols@) =~= Seq::<Seq<char>>::empty());
        }
        while ci < pieces.len()
            invariant
                0 <= ci <= pieces@.len(),
                pviews == views(pieces@),
                spec_cols_list(pviews, 0) =~= views(cols@) + spec_cols_list(pviews, ci as int),
            decreases pieces@.len() - ci,
        {
            proof {
                assert(pviews[ci as int] == pieces@[ci as int]@);
            }
            let piece = &pieces[ci];
            let t = trim(piece);
            if t.len() > 0 && !is_constraint_piece(&t) {
                let name = first_ident(&t);
                proof {
                    assert(spec_is_constraint(t@) == spec_is_constraint(
                        spec_trim(pviews[ci as int]),
                    ));
                    assert(name@ == spec_first_ident(spec_trim(pviews[ci as int])));
                }
                if name.len() > 0 {
                    let ghost cpre = views(cols@);
                    cols.push(name);
                    proof {
                        assert(views(cols@) =~= cpre.push(cols@.last()@));
                        assert(spec_cols_list(pviews, 0) =~= views(cols@) + spec_cols_list(
                            pviews,
                            ci + 1,
                        ));
                    }
                } else {
                    assert(spec_cols_list(pviews, 0) =~= views(cols@) + spec_cols_list(
                        pviews,
                        ci + 1,
                    ));
                }
            } else {
                proof {
                    assert(spec_is_constraint(t@) == spec_is_constraint(
                        spec_trim(pviews[ci as int]),
                    ));
                    assert(spec_cols_list(pviews, 0) =~= views(cols@) + spec_cols_list(
                        pviews,
                        ci + 1,
                    ));
                }
            }
            ci += 1;
        }
        proof {
            assert(spec_cols_list(pviews, pviews.len() as int) =~= Seq::<Seq<char>>::empty());
            assert(views(cols@) =~= spec_cols_list(pviews, 0));
        }
        if cols.len() > 0 {
            let ghost opre = tc_views(out.names@);
            let ghost cv = views(cols@);
            out.names.push((table, cols));
            proof {
                assert(tc_views(out.names@) =~= opre.push(
                    (out.names@.last().0@, views(out.names@.last().1@)),
                ));
                assert(spec_harvest(content@) == tc_views(out.names@) + spec_harvest_at(
                    content@,
                    next as int,
                ));
            }
        } else {
            proof {
                assert(views(cols@).len() == 0);
                assert(spec_harvest(content@) == tc_views(out.names@) + spec_harvest_at(
                    content@,
                    next as int,
                ));
            }
        }
        pos = next;
    }
    out
}

/// Replacement of a two-character pattern by one character, one walk from
/// the left.
pub open spec fn spec_replace2_from(
    s: Seq<char>,
    i: int,
    a: char,
    b: char,
    to: char,
    acc: Seq<char>,
) -> Seq<char>
    decreases s.len() - i,
{
    if !(0 <= i < s.len()) {
        acc
    } else if s[i] == a && i + 1 < s.len() && s[i + 1] == b {
        spec_replace2_from(s, i + 2, a, b, to, acc.push(to))
    } else {
        spec_replace2_from(s, i + 1, a, b, to, acc.push(s[i]))
    }
}

/// Every `ab` in `s` replaced by `to`.
pub open spec fn spec_replace2(s: Seq<char>, a: char, b: char, to: char) -> Seq<char> {
    spec_replace2_from(s, 0, a, b, to, Seq::empty())
}

/// Exact computation of `spec_replace2`.
#[verifier::loop_isolation(false)]
pub fn replace2(s: &Vec<char>, a: char, b: char, to: char) -> (r: Vec<char>)
    ensures
        r@ == spec_replace2(s@, a, b, to),
{
    let mut out: Vec<char> = Vec::new();
    let mut i: usize = 0;
    while i < s.len()
        invariant
            0 <= i <= s@.len(),
            spec_replace2(s@, a, b, to) == spec_replace2_from(s@, i as int, a, b, to, out@),
        decreases s@.len() - i,
    {
        if s[i] == a && i + 1 < s.len() && s[i + 1] == b {
            out.push(to);
            i += 2;
        } else {
            out.push(s[i]);
            i += 1;
        }
    }
    out
}

/// First position at or after `i` whose character is not `c`.
pub open spec fn spec_skip_char(s: Seq<char>, i: int, c: char) -> int
    decreases s.len() - i,
{
    if 0 <= i < s.len() && s[i] == c {
        spec_skip_char(s, i + 1, c)
    } else {
        i
    }
}

/// Last position at or before `j` bounding a trailing run of `c`.
pub open spec fn spec_rskip_char(s: Seq<char>, j: int, c: char) -> int
    decreases j,
{
    if 0 < j <= s.len() && s[j - 1] == c {
        spec_rskip_char(s, j - 1, c)
    } else {
        j
    }
}

/// `s` with every leading and trailing `c` removed.
pub open spec fn spec_trim_char(s: Seq<char>, c: char) -> Seq<char> {
    let a = spec_skip_char(s, 0, c);
    let b = spec_rskip_char(s, s.len() as int, c);
    if a <= b {
        s.subrange(a, b)
    } else {
        Seq::empty()
    }
}

/// Exact computation of `spec_trim_char`.
#[verifier::loop_isolation(false)]
pub fn trim_char(s: &Vec<char>, c: char) -> (r: Vec<char>)
    ensures
        r@ == spec_trim_char(s@, c),
{
    let mut a: usize = 0;
    loop
        invariant
            0 <= a <= s@.len(),
            spec_skip_char(s@, 0, c) == spec_skip_char(s@, a as int, c),
        decreases s@.len() - a,
    {
        if a >= s.len() {
            break ;
        }
        if s[a] != c {
            break ;
        }
        a += 1;
    }
    let mut b: usize = s.len();
    loop
        invariant
            0 <= b <= s@.len(),
            spec_rskip_char(s@, s@.len() as int, c) == spec_rskip_char(s@, b as int, c),
        decreases b,
    {
        if b == 0 {
            break ;
        }
        if s[b - 1] != c {
            break ;
        }
        b -= 1;
    }
    if a <= b {
        crate::chars::copy_range(s, a, b)
    } else {
        Vec::new()
    }
}

} // verus!
