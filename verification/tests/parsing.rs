use db2vec::chars::{str_to_chars, chars_to_string};
use db2vec::detect::detect_format;
use db2vec::json::to_json_string;
use db2vec::batch::meta_value;
use db2vec::record::Record;
use db2vec::parser::{parse_with_regex, parse_database_export, parse_array, extract_json_array, fix_json_text};
use db2vec::detect::Format;

fn record_json(rec: &Record) -> String {
    let v = meta_value(rec);
    to_json_string(&v)
}

fn cv(s: &str) -> Vec<char> {
    str_to_chars(s)
}

#[test]
fn detects_each_dialect() {
    assert_eq!(detect_format("dump.surql", "whatever"), "surreal");
    assert_eq!(detect_format("d.sql", "REM INSERTING into T"), "oracle");
    assert_eq!(
        detect_format("d.sql", "COPY public.u (a) FROM stdin;\n1\n\\."),
        "postgres"
    );
    assert_eq!(detect_format("d.sql", "PRAGMA foreign_keys=OFF;"), "sqlite");
    assert_eq!(detect_format("d.sql", "SET ANSI_NULLS ON"), "mssql");
    assert_eq!(detect_format("d.sql", "ENGINE=InnoDB"), "mysql");
    assert_eq!(detect_format("d.sql", "nothing to see"), "unknown");
}

#[test]
fn detection_order_prefers_oracle() {
    // A dump holding both Oracle and MySQL signatures goes to the first
    // matching group.
    assert_eq!(
        detect_format("d.sql", "SET DEFINE OFF;\nENGINE=InnoDB"),
        "oracle"
    );
}

#[test]
fn surreal_scenario_emits_one_clean_record() {
    let chunk = cv("-- TABLE DATA: person\nINSERT [ { id: person:1, name: 'Ada', score: 9.5f } ]; ");
    let recs = parse_with_regex(&chunk, Format::Surreal).expect("records");
    assert_eq!(recs.len(), 1);
    assert_eq!(chars_to_string(&recs[0].table), "person");
    assert_eq!(
        record_json(&recs[0]),
        "{\"table\":\"person\",\"name\":\"Ada\",\"score\":9.5}"
    );
}

#[test]
fn mysql_scenario_harvests_columns_and_json() {
    let chunk = cv(
        "CREATE TABLE t (id INT, payload JSON, note VARCHAR(10));\nINSERT INTO t VALUES (1,'{\"k\":1}','hi'),(2,'[1,2]','');",
    );
    let recs = parse_with_regex(&chunk, Format::Mysql).expect("records");
    assert_eq!(recs.len(), 2);
    assert_eq!(
        record_json(&recs[0]),
        "{\"table\":\"t\",\"payload\":{\"k\":1},\"note\":\"hi\"}"
    );
    assert_eq!(
        record_json(&recs[1]),
        "{\"table\":\"t\",\"payload\":[1,2],\"note\":\"\"}"
    );
}

#[test]
fn postgres_scenario_reads_copy_rows() {
    let chunk = cv("COPY public.u (a,b) FROM stdin;\n1\tx\n2\t\\N\n\\.");
    let recs = parse_with_regex(&chunk, Format::Postgres).expect("records");
    assert_eq!(recs.len(), 2);
    assert_eq!(record_json(&recs[0]), "{\"table\":\"u\",\"a\":\"1\",\"b\":\"x\"}");
    assert_eq!(record_json(&recs[1]), "{\"table\":\"u\",\"a\":\"2\",\"b\":null}");
}

#[test]
fn oracle_scenario_unwraps_timestamp() {
    let chunk = cv(
        "Insert into S.T (\"A\",\"B\") values (42, to_timestamp('2024-01-02','YYYY-MM-DD'));",
    );
    let recs = parse_with_regex(&chunk, Format::Oracle).expect("records");
    assert_eq!(recs.len(), 1);
    assert_eq!(chars_to_string(&recs[0].table), "T");
    assert_eq!(
        record_json(&recs[0]),
        "{\"table\":\"T\",\"A\":42,\"B\":\"2024-01-02\"}"
    );
}

#[test]
fn mssql_scenario_unescapes_n_string() {
    let chunk = cv("INSERT [dbo].[X] ([n]) VALUES (N'it''s');");
    let recs = parse_with_regex(&chunk, Format::Mssql).expect("records");
    assert_eq!(recs.len(), 1);
    assert_eq!(chars_to_string(&recs[0].table), "X");
    assert_eq!(record_json(&recs[0]), "{\"table\":\"X\",\"n\":\"it's\"}");
}

#[test]
fn mssql_cast_and_booleans() {
    let chunk = cv("INSERT [dbo].[Y] ([a],[b],[c]) VALUES (CAST(N'7' AS NVARCHAR), 1, NULL);");
    let recs = parse_with_regex(&chunk, Format::Mssql).expect("records");
    assert_eq!(recs.len(), 1);
    assert_eq!(
        record_json(&recs[0]),
        "{\"table\":\"Y\",\"a\":7,\"b\":true,\"c\":null}"
    );
}

#[test]
fn sqlite_parses_quoted_rows() {
    let chunk = cv(
        "CREATE TABLE notes (id INTEGER, body TEXT);\nINSERT INTO notes VALUES (1,'it''s fine');",
    );
    let recs = parse_with_regex(&chunk, Format::Sqlite).expect("records");
    assert_eq!(recs.len(), 1);
    assert_eq!(
        record_json(&recs[0]),
        "{\"table\":\"notes\",\"body\":\"it's fine\"}"
    );
}

#[test]
fn sqlite_skips_sequence_table() {
    let chunk = cv(
        "CREATE TABLE t (id INTEGER, v TEXT);\nINSERT INTO sqlite_sequence VALUES (1,'x');\nINSERT INTO t VALUES (2,'y');",
    );
    let recs = parse_with_regex(&chunk, Format::Sqlite).expect("records");
    assert_eq!(recs.len(), 1);
    assert_eq!(record_json(&recs[0]), "{\"table\":\"t\",\"v\":\"y\"}");
}

#[test]
fn records_keep_dump_order() {
    let chunk = cv("COPY public.u (a) FROM stdin;\nfirst\nsecond\nthird\n\\.");
    let recs = parse_database_export(&chunk, Format::Postgres);
    assert_eq!(recs.len(), 3);
    assert_eq!(record_json(&recs[0]), "{\"table\":\"u\",\"a\":\"first\"}");
    assert_eq!(record_json(&recs[1]), "{\"table\":\"u\",\"a\":\"second\"}");
    assert_eq!(record_json(&recs[2]), "{\"table\":\"u\",\"a\":\"third\"}");
}

#[test]
fn id_fields_are_stripped_case_insensitively() {
    let chunk = cv("COPY public.u (Id,b) FROM stdin;\n7\tx\n\\.");
    let recs = parse_with_regex(&chunk, Format::Postgres).expect("records");
    assert_eq!(recs.len(), 1);
    assert_eq!(record_json(&recs[0]), "{\"table\":\"u\",\"b\":\"x\"}");
}

#[test]
fn record_collapsing_to_table_only_is_dropped() {
    let chunk = cv("COPY public.u (id) FROM stdin;\n7\n\\.");
    assert!(parse_with_regex(&chunk, Format::Postgres).is_none());
}

#[test]
fn mismatched_row_width_is_skipped() {
    let chunk = cv("COPY public.u (a,b) FROM stdin;\n1\n2\tx\n\\.");
    let recs = parse_with_regex(&chunk, Format::Postgres).expect("records");
    assert_eq!(recs.len(), 1);
    assert_eq!(record_json(&recs[0]), "{\"table\":\"u\",\"a\":\"2\",\"b\":\"x\"}");
}

#[test]
fn parse_array_splits_on_top_level_commas() {
    let v = parse_array(&cv("{a,\"b,c\",d}")).expect("array");
    assert_eq!(to_json_string(&v), "[\"a\",\"b,c\",\"d\"]");
}

#[test]
fn extract_json_array_respects_strings() {
    let out = extract_json_array(&cv("noise [1, \"a]b\", [2]] tail")).expect("span");
    assert_eq!(chars_to_string(&out), "[1, \"a]b\", [2]]");
    assert!(extract_json_array(&cv("no brackets")).is_none());
}

#[test]
fn fix_json_text_trims_to_array() {
    assert_eq!(chars_to_string(&fix_json_text(&cv("xx [1,2] yy"))), "[1,2]");
    assert_eq!(chars_to_string(&fix_json_text(&cv("plain words"))), "[]");
}

#[test]
fn surreal_explicit_into_overrides_headers() {
    let chunk = cv("-- TABLE DATA: other\nINSERT INTO city [ { name: 'Ada' } ];");
    let recs = parse_with_regex(&chunk, Format::Surreal).expect("records");
    assert_eq!(recs.len(), 1);
    assert_eq!(chars_to_string(&recs[0].table), "city");
}

#[test]
fn surreal_without_any_table_uses_the_fallback() {
    let chunk = cv("INSERT [ { name: 'Ada' } ];");
    let recs = parse_with_regex(&chunk, Format::Surreal).expect("records");
    assert_eq!(recs.len(), 1);
    assert_eq!(chars_to_string(&recs[0].table), "unknown_table");
}
