//! Dump-format detection by textual signature.

use vstd::prelude::*;
use crate::chars::{contains_sub, starts_with, ends_with, contains, begins_with, finishes_with, str_to_chars, chars_to_string};
use crate::parser::{spec_split, spec_trim, split_char, trim, views, eq_lit};

verus! {

/// Some line of `c` consists of `GO` alone (up to surrounding whitespace).
pub open spec fn has_go_line(c: Seq<char>) -> bool {
    exists|i: int|
        0 <= i < spec_split(c, '\n').len() && spec_trim(#[trigger] spec_split(c, '\n')[i])
            == "GO"@
}

/// Exact test for `has_go_line`.
#[verifier::loop_isolation(false)]
pub fn go_line(c: &Vec<char>) -> (r: bool)
    ensures
        r == has_go_line(c@),
{
    let lines = split_char(c, '\n');
    let mut i: usize = 0;
    while i < lines.len()
        invariant
            0 <= i <= lines@.len(),
            views(lines@) == spec_split(c@, '\n'),
            forall|j: int| 0 <= j < i ==> spec_trim(#[trigger] spec_split(c@, '\n')[j]) != "GO"@,
        decreases lines@.len() - i,
    {
        let t = trim(&lines[i]);
        proof {
            assert(lines@[i as int]@ == spec_split(c@, '\n')[i as int]);
        }
        if eq_lit(&t, "GO") {
            assert(spec_trim(spec_split(c@, '\n')[i as int]) == "GO"@);
            return true;
        }
        i += 1;
    }
    false
}

/// The dump dialects the parsers understand.
#[derive(PartialEq, Eq, Structural, Clone, Copy, Debug)]
pub enum Format {
    Mssql,
    Mysql,
    Postgres,
    Oracle,
    Sqlite,
    Surreal,
    Unknown,
}

/// The classification rule: suffix first, then signature groups in a fixed
/// order, so that a dump holding signatures of several dialects goes to the
/// first group that matches.
pub open spec fn spec_detect(path: Seq<char>, c: Seq<char>) -> Format {
    if ends_with(path, ".surql"@) {
        Format::Surreal
    } else if contains_sub(c, "REM INSERTING into"@) || contains_sub(c, "SET DEFINE OFF;"@)
        || contains_sub(c, "Insert into "@) || (contains_sub(c, "CREATE TABLE \""@)
        && contains_sub(c, "PCTFREE"@) && contains_sub(c, "TABLESPACE"@)) || contains_sub(
        c,
        "BUFFER_POOL DEFAULT FLASH_CACHE DEFAULT CELL_FLASH_CACHE DEFAULT"@,
    ) || contains_sub(c, "USING INDEX PCTFREE"@) || contains_sub(c, "ALTER SESSION SET EVENTS"@)
        || contains_sub(c, "DBMS_LOGREP_IMP"@) {
        Format::Oracle
    } else if (contains_sub(c, "COPY "@) && contains_sub(c, " FROM stdin;"@)) || contains_sub(
        c,
        "PostgreSQL database dump"@,
    ) || (contains_sub(c, "SET "@) && contains_sub(c, "standard_conforming_strings"@))
        || contains_sub(c, "ALTER TABLE ONLY"@) || (contains_sub(c, "CREATE TYPE"@)
        && contains_sub(c, "AS ENUM"@)) || (contains_sub(c, "CREATE SEQUENCE"@) && contains_sub(
        c,
        "OWNED BY"@,
    )) {
        Format::Postgres
    } else if starts_with(c, "PRAGMA foreign_keys=OFF;"@) || (contains_sub(c, "BEGIN TRANSACTION;"@)
        && contains_sub(c, "COMMIT;"@) && contains_sub(c, "CREATE TABLE"@) && !contains_sub(
        c,
        "ENGINE=InnoDB"@,
    ) && !contains_sub(c, "TABLESPACE"@) && contains_sub(c, "INSERT INTO "@)) || contains_sub(
        c,
        "sqlite_sequence"@,
    ) {
        Format::Sqlite
    } else if contains_sub(c, "SET ANSI_NULLS ON"@) || contains_sub(c, "SET QUOTED_IDENTIFIER ON"@)
        || contains_sub(c, "CREATE TABLE [dbo]."@) || contains_sub(c, "INSERT [dbo]."@)
        || contains_sub(c, "WITH (PAD_INDEX = OFF"@) || has_go_line(c) {
        Format::Mssql
    } else if contains_sub(c, "ENGINE=InnoDB"@) || contains_sub(c, "LOCK TABLES"@) || contains_sub(
        c,
        "/*!40"@,
    ) || contains_sub(c, "AUTO_INCREMENT"@) || contains_sub(c, "COLLATE=utf8mb4"@) {
        Format::Mysql
    } else {
        Format::Unknown
    }
}

/// `pat` (a literal) occurs in `c`; exact.
fn has(c: &Vec<char>, pat: &str) -> (r: bool)
    ensures
        r == contains_sub(c@, pat@),
{
    let pv = str_to_chars(pat);
    contains(c, pv.as_slice())
}

/// Exact computation of `spec_detect`.
pub fn detect(path: &Vec<char>, c: &Vec<char>) -> (r: Format)
    ensures
        r == spec_detect(path@, c@),
{
    let surql = str_to_chars(".surql");
    if finishes_with(path, surql.as_slice()) {
        return Format::Surreal;
    }
    if has(c, "REM INSERTING into") || has(c, "SET DEFINE OFF;") || has(c, "Insert into ") || (has(
        c,
        "CREATE TABLE \"",
    ) && has(c, "PCTFREE") && has(c, "TABLESPACE")) || has(
        c,
        "BUFFER_POOL DEFAULT FLASH_CACHE DEFAULT CELL_FLASH_CACHE DEFAULT",
    ) || has(c, "USING INDEX PCTFREE") || has(c, "ALTER SESSION SET EVENTS") || has(
        c,
        "DBMS_LOGREP_IMP",
    ) {
        return Format::Oracle;
    }
    if (has(c, "COPY ") && has(c, " FROM stdin;")) || has(c, "PostgreSQL database dump") || (has(
        c,
        "SET ",
    ) && has(c, "standard_conforming_strings")) || has(c, "ALTER TABLE ONLY") || (has(
        c,
        "CREATE TYPE",
    ) && has(c, "AS ENUM")) || (has(c, "CREATE SEQUENCE") && has(c, "OWNED BY")) {
        return Format::Postgres;
    }
    let pragma = str_to_chars("PRAGMA foreign_keys=OFF;");
    let innodb = has(c, "ENGINE=InnoDB");
    let tablespace = has(c, "TABLESPACE");
    if begins_with(c, pragma.as_slice()) || (has(c, "BEGIN TRANSACTION;") && has(c, "COMMIT;")
        && has(c, "CREATE TABLE") && !innodb && !tablespace && has(
        c,
        "INSERT INTO ",
    )) || has(c, "sqlite_sequence") {
        return Format::Sqlite;
    }
    if has(c, "SET ANSI_NULLS ON") || has(c, "SET QUOTED_IDENTIFIER ON") || has(
        c,
        "CREATE TABLE [dbo].",
    ) || has(c, "INSERT [dbo].") || has(c, "WITH (PAD_INDEX = OFF") || go_line(c) {
        return Format::Mssql;
    }
    if has(c, "ENGINE=InnoDB") || has(c, "LOCK TABLES") || has(c, "/*!40") || has(
        c,
        "AUTO_INCREMENT",
    ) || has(c, "COLLATE=utf8mb4") {
        return Format::Mysql;
    }
    Format::Unknown
}

/// The name of a format, as the configuration surface spells it.
pub open spec fn format_name(f: Format) -> Seq<char> {
    match f {
        Format::Mssql => "mssql"@,
        Format::Mysql => "mysql"@,
        Format::Postgres => "postgres"@,
        Format::Oracle => "oracle"@,
        Format::Sqlite => "sqlite"@,
        Format::Surreal => "surreal"@,
        Format::Unknown => "unknown"@,
    }
}

/// The name of a format, as a string.
pub fn format_name_str(f: Format) -> (r: String)
    ensures
        r@ == format_name(f),
{
    match f {
        Format::Mssql => {
            let v = str_to_chars("mssql");
            chars_to_string(v.as_slice())
        },
        Format::Mysql => {
            let v = str_to_chars("mysql");
            chars_to_string(v.as_slice())
        },
        Format::Postgres => {
            let v = str_to_chars("postgres");
            chars_to_string(v.as_slice())
        },
        Format::Oracle => {
            let v = str_to_chars("oracle");
            chars_to_string(v.as_slice())
        },
        Format::Sqlite => {
            let v = str_to_chars("sqlite");
            chars_to_string(v.as_slice())
        },
        Format::Surreal => {
            let v = str_to_chars("surreal");
            chars_to_string(v.as_slice())
        },
        Format::Unknown => {
            let v = str_to_chars("unknown");
            chars_to_string(v.as_slice())
        },
    }
}

/// Classify a dump by file suffix and content signatures; exact.
pub fn detect_format(file_path: &str, content: &str) -> (r: String)
    ensures
        r@ == format_name(spec_detect(file_path@, content@)),
{
    let p = str_to_chars(file_path);
    let c = str_to_chars(content);
    format_name_str(detect(&p, &c))
}

} // verus!
