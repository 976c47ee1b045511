use db2vec::chars::{str_to_chars, chars_to_string};
use db2vec::value::Value;
use db2vec::record::Record;
use db2vec::json::to_json_string;
use db2vec::jsonp::parse_json;
use db2vec::embed::{prepare_chunk, process_records_with_embeddings, record_text, EmbedError, PreparedRecord};
use db2vec::batch::{plan_batches, group_by_table, meta_value, measure_record};
use db2vec::html::clean_html_in_value;
use db2vec::exclude::{Excluder, ExcludeEntry, FieldExclude};
use db2vec::reader::decode_dump;
use db2vec::detect::detect_format;
use db2vec::embed::{collect_item_vectors, plan_provider, ProviderPlan};

fn cv(s: &str) -> Vec<char> {
    str_to_chars(s)
}

fn rec(table: &str, fields: Vec<(&str, Value)>) -> Record {
    let mut fs: Vec<(Vec<char>, Value)> = Vec::new();
    for (k, v) in fields {
        fs.push((cv(k), v));
    }
    Record { table: cv(table), fields: fs }
}

#[test]
fn embedding_count_mismatch_aborts_with_no_output() {
    let records = vec![
        rec("t", vec![("a", Value::Int(1))]),
        rec("t", vec![("a", Value::Int(2))]),
        rec("t", vec![("a", Value::Int(3))]),
        rec("t", vec![("a", Value::Int(4))]),
    ];
    // One chunk of four texts, but only three vectors come back.
    let responses = vec![vec![vec![0u32; 4], vec![0u32; 4], vec![0u32; 4]]];
    let out = process_records_with_embeddings(records, responses, 4, 4);
    match out {
        Err(EmbedError::CountMismatch { expected, got }) => {
            assert_eq!(expected, 4);
            assert_eq!(got, 3);
        },
        _ => panic!("a mismatched count must abort the run"),
    }
}

#[test]
fn embedding_dimension_mismatch_aborts() {
    let records = vec![rec("t", vec![("a", Value::Int(1))])];
    let responses = vec![vec![vec![0u32; 3]]];
    let out = process_records_with_embeddings(records, responses, 16, 4);
    assert!(matches!(out, Err(EmbedError::DimensionMismatch { .. })));
}

#[test]
fn prepared_records_keep_order_and_dimension() {
    let records = vec![
        rec("a", vec![("k", Value::Int(1))]),
        rec("b", vec![("k", Value::Int(2))]),
        rec("a", vec![("k", Value::Int(3))]),
    ];
    let responses = vec![
        vec![vec![1u32, 2, 3, 4], vec![5u32, 6, 7, 8]],
        vec![vec![9u32, 10, 11, 12]],
    ];
    let out = process_records_with_embeddings(records, responses, 2, 4).expect("prepared");
    assert_eq!(out.len(), 3);
    for p in &out {
        assert_eq!(p.vector.len(), 4);
        assert_eq!(p.id.len(), 36);
    }
    assert_eq!(chars_to_string(&out[0].table), "a");
    assert_eq!(chars_to_string(&out[1].table), "b");
    assert_eq!(chars_to_string(&out[2].table), "a");
    assert_eq!(out[0].vector, vec![1, 2, 3, 4]);
    assert_eq!(out[2].vector, vec![9, 10, 11, 12]);
}

fn prepared(table: &str, id: &str, dim: usize, field: &str, v: i64) -> PreparedRecord {
    PreparedRecord {
        table: cv(table),
        id: cv(id),
        vector: vec![0u32; dim],
        meta: rec(table, vec![(field, Value::Int(v))]),
    }
}

#[test]
fn driver_round_trip_shape() {
    // Two prepared records for one table with dimension four make one
    // store call with both records, vectors four components long.
    let items = vec![
        prepared("t", "00000000-0000-4000-8000-000000000001", 4, "a", 1),
        prepared("t", "00000000-0000-4000-8000-000000000002", 4, "a", 2),
    ];
    let groups = group_by_table(items);
    assert_eq!(groups.len(), 1);
    assert_eq!(chars_to_string(&groups[0].0), "t");
    let (_, items) = groups.into_iter().next().unwrap();
    let batches = plan_batches(items, 12 * 1024 * 1024, 10);
    assert_eq!(batches.len(), 1);
    assert_eq!(batches[0].len(), 2);
    for p in &batches[0] {
        assert_eq!(p.vector.len(), 4);
    }
}

#[test]
fn batches_respect_count_ceiling_and_order() {
    let mut items = Vec::new();
    for i in 0..5 {
        items.push(prepared("t", "x", 2, "n", i));
    }
    let batches = plan_batches(items, 1024 * 1024, 2);
    assert_eq!(batches.len(), 3);
    assert_eq!(batches[0].len(), 2);
    assert_eq!(batches[1].len(), 2);
    assert_eq!(batches[2].len(), 1);
    let mut n = 0i64;
    for b in &batches {
        for p in b {
            match p.meta.fields[0].1 {
                Value::Int(v) => {
                    assert_eq!(v, n);
                    n += 1;
                },
                _ => panic!("unexpected field"),
            }
        }
    }
}

#[test]
fn batches_respect_byte_budget() {
    let a = prepared("t", "id-a", 2, "n", 1);
    let unit = measure_record(&a) as usize;
    let items = vec![
        prepared("t", "id-a", 2, "n", 1),
        prepared("t", "id-a", 2, "n", 2),
        prepared("t", "id-a", 2, "n", 3),
    ];
    // A budget of two records to the batch.
    let batches = plan_batches(items, 2 * unit, 10);
    assert_eq!(batches.len(), 2);
    assert_eq!(batches[0].len(), 2);
    assert_eq!(batches[1].len(), 1);
}

#[test]
fn groups_split_by_table_preserving_order() {
    let items = vec![
        prepared("a", "1", 2, "n", 1),
        prepared("b", "2", 2, "n", 2),
        prepared("a", "3", 2, "n", 3),
    ];
    let groups = group_by_table(items);
    assert_eq!(groups.len(), 2);
    assert_eq!(chars_to_string(&groups[0].0), "a");
    assert_eq!(groups_ids(&groups[0].1), vec!["1", "3"]);
    assert_eq!(chars_to_string(&groups[1].0), "b");
    assert_eq!(groups_ids(&groups[1].1), vec!["2"]);
}

fn groups_ids(items: &Vec<PreparedRecord>) -> Vec<String> {
    items.iter().map(|p| chars_to_string(&p.id)).collect()
}

#[test]
fn record_text_joins_fields() {
    let r = rec("t", vec![("name", Value::Str(cv("Ada"))), ("score", Value::Int(9))]);
    assert_eq!(chars_to_string(&record_text(&r)), "name: \"Ada\", score: 9");
}

#[test]
fn json_round_trip_and_failures() {
    let v = parse_json(&cv("{\"a\":[1,2.5,null,true],\"b\":\"x\\ny\"}")).expect("json");
    assert_eq!(
        to_json_string(&v),
        "{\"a\":[1,2.5,null,true],\"b\":\"x\\ny\"}"
    );
    assert!(parse_json(&cv("{\"a\":1,}")).is_none());
    assert!(parse_json(&cv("[1,2] trailing")).is_none());
    assert!(parse_json(&cv("")).is_none());
    let nested = parse_json(&cv(" [ {\"k\" : \"v\"} , 2 ] ")).expect("json");
    assert_eq!(to_json_string(&nested), "[{\"k\":\"v\"},2]");
}

#[test]
fn json_numbers_split_ints_and_floats() {
    let v = parse_json(&cv("[0,-7,9.5,1e3,9223372036854775807,9223372036854775808]")).expect("json");
    assert_eq!(
        to_json_string(&v),
        "[0,-7,9.5,1e3,9223372036854775807,9223372036854775808]"
    );
    match parse_json(&cv("42")).expect("int") {
        Value::Int(i) => assert_eq!(i, 42),
        _ => panic!("expected an integer"),
    }
    match parse_json(&cv("9.5")).expect("float") {
        Value::Float(t) => assert_eq!(chars_to_string(t.as_slice()), "9.5"),
        _ => panic!("expected a float literal"),
    }
}

#[test]
fn json_escapes_round_trip() {
    let v = parse_json(&cv("\"a\\\"b\\\\c\\u0041\\t\"")).expect("string");
    match &v {
        Value::Str(t) => assert_eq!(chars_to_string(t.as_slice()), "a\"b\\cA\t"),
        _ => panic!("expected a string"),
    }
    assert_eq!(to_json_string(&v), "\"a\\\"b\\\\cA\\t\"");
}

#[test]
fn cleaning_without_markup_is_identity() {
    let v = Value::Str(cv("no markup here > just a sign"));
    let before = to_json_string(&v);
    let after = to_json_string(&clean_html_in_value(v));
    assert_eq!(before, after);
}

#[test]
fn cleaning_twice_equals_cleaning_once() {
    let v = Value::Obj(vec![
        (cv("a"), Value::Str(cv("<p>hello   <b>world</b></p>"))),
        (cv("b"), Value::Arr(vec![Value::Str(cv("<i>x</i>  y"))])),
    ]);
    let once = clean_html_in_value(v);
    let first = to_json_string(&once);
    let twice = clean_html_in_value(once);
    assert_eq!(first, to_json_string(&twice));
    assert!(!first.contains('<'));
}

#[test]
fn excluder_drops_tables_and_fields() {
    let ex = Excluder {
        entries: vec![ExcludeEntry {
            table: cv("secret"),
            ignore_table: true,
            exclude_fields: Vec::new(),
        }, ExcludeEntry {
            table: cv("t"),
            ignore_table: false,
            exclude_fields: vec![
                (cv("password"), FieldExclude::All(true)),
                (cv("nested"), FieldExclude::Sub(vec![cv("ssn")])),
            ],
        }],
    };
    assert!(ex.ignore_table(&cv("secret")));
    assert!(!ex.ignore_table(&cv("t")));
    assert!(!ex.ignore_table(&cv("other")));
    let r = rec(
        "t",
        vec![
            ("password", Value::Str(cv("p"))),
            ("nested", Value::Obj(vec![
                (cv("ssn"), Value::Str(cv("123"))),
                (cv("name"), Value::Str(cv("Ada"))),
            ])),
            ("keep", Value::Int(1)),
        ],
    );
    let filtered = ex.filter_record(r);
    let v = meta_value(&filtered);
    assert_eq!(
        to_json_string(&v),
        "{\"table\":\"t\",\"nested\":{\"name\":\"Ada\"},\"keep\":1}"
    );
}

#[test]
fn decode_dump_handles_both_encodings() {
    let utf8 = b"hello".to_vec();
    assert_eq!(decode_dump(utf8).unwrap(), "hello");
    // FF FE mark, then "hi" in UTF-16LE.
    let utf16 = vec![0xffu8, 0xfe, 0x68, 0x00, 0x69, 0x00];
    assert_eq!(decode_dump(utf16).unwrap(), "hi");
    let bad = vec![0xc3u8, 0x28];
    assert!(decode_dump(bad).is_err());
}

#[test]
fn prepare_chunk_checks_each_vector() {
    let chunk = vec![rec("t", vec![("a", Value::Int(1))]), rec("t", vec![("a", Value::Int(2))])];
    let ok = prepare_chunk(chunk, vec![vec![0u32; 4], vec![0u32; 4]], 4).expect("prepared");
    assert_eq!(ok.len(), 2);
    let chunk2 = vec![rec("t", vec![("a", Value::Int(1))])];
    assert!(prepare_chunk(chunk2, vec![vec![0u32; 5]], 4).is_err());
}

#[test]
fn empty_inputs_yield_empty_plans() {
    let batches = plan_batches(Vec::new(), 1024, 4);
    assert_eq!(batches.len(), 0);
    let groups = group_by_table(Vec::new());
    assert_eq!(groups.len(), 0);
    let out = process_records_with_embeddings(Vec::new(), Vec::new(), 4, 4).expect("empty");
    assert_eq!(out.len(), 0);
}

#[test]
fn oversized_single_record_stands_alone() {
    let items = vec![prepared("t", "id-very-long", 64, "n", 1)];
    // A budget far below one record still yields a batch of one.
    let batches = plan_batches(items, 4, 10);
    assert_eq!(batches.len(), 1);
    assert_eq!(batches[0].len(), 1);
}

#[test]
fn minted_identifiers_have_uuid_shape() {
    let chunk = vec![rec("t", vec![("a", Value::Int(1))]), rec("t", vec![("a", Value::Int(2))])];
    let out = prepare_chunk(chunk, vec![vec![0u32; 2], vec![0u32; 2]], 2).expect("prepared");
    let id = &out[0].id;
    assert_eq!(id.len(), 36);
    assert_eq!(id[8], '-');
    assert_eq!(id[13], '-');
    assert_eq!(id[18], '-');
    assert_eq!(id[23], '-');
    assert_ne!(
        chars_to_string(out[0].id.as_slice()),
        chars_to_string(out[1].id.as_slice())
    );
}

#[test]
fn whitespace_normalization_is_exact() {
    let normalize_ws = db2vec::html::normalize_ws;
    assert_eq!(chars_to_string(normalize_ws(&cv("  a \t b\n\nc  ")).as_slice()), "a b c");
    assert_eq!(chars_to_string(normalize_ws(&cv("")).as_slice()), "");
    assert_eq!(chars_to_string(normalize_ws(&cv("   ")).as_slice()), "");
    assert_eq!(chars_to_string(normalize_ws(&cv("one")).as_slice()), "one");
}

#[test]
fn duplicate_object_keys_keep_the_last_value() {
    let v = parse_json(&cv("{\"a\":1,\"b\":2,\"a\":3}")).expect("json");
    assert_eq!(to_json_string(&v), "{\"a\":3,\"b\":2}");
}

#[test]
fn detection_needs_a_standalone_go_line() {
    // The word inside another identifier is not an MSSQL marker.
    assert_eq!(detect_format("d.sql", "TABLE CATEGORIES HERE"), "unknown");
    assert_eq!(detect_format("d.sql", "line one\nGO\nline two"), "mssql");
    assert_eq!(detect_format("d.sql", "line one\n  GO  \nline two"), "mssql");
}

#[test]
fn batch_items_refuse_missing_vectors() {
    let ok = collect_item_vectors(vec![Some(vec![1u32]), Some(vec![2u32])]).expect("all present");
    assert_eq!(ok, vec![vec![1u32], vec![2u32]]);
    assert!(collect_item_vectors(vec![Some(vec![1u32]), None]).is_err());
}

#[test]
fn provider_plans_follow_the_configuration() {
    let plan = plan_provider(&cv("Ollama"), None, &cv("m"), &cv("T"), false).expect("plan");
    match plan {
        ProviderPlan::Ollama { url } => {
            assert_eq!(chars_to_string(url.as_slice()), "http://localhost:11434/api/embeddings");
        },
        _ => panic!("expected the Ollama plan"),
    }
    let plan = plan_provider(&cv("tei"), Some(cv("http://host:80/")), &cv("m"), &cv("T"), false)
        .expect("plan");
    match plan {
        ProviderPlan::Tei { url } => {
            assert_eq!(chars_to_string(url.as_slice()), "http://host:80/embed");
        },
        _ => panic!("expected the TEI plan"),
    }
    let plan = plan_provider(&cv("google"), None, &cv("models/text-model"), &cv("T"), true)
        .expect("plan");
    match plan {
        ProviderPlan::Google { model, task_type } => {
            assert_eq!(chars_to_string(model.as_slice()), "text-model");
            assert_eq!(chars_to_string(task_type.as_slice()), "T");
        },
        _ => panic!("expected the Google plan"),
    }
    assert!(plan_provider(&cv("google"), None, &cv("m"), &cv("T"), false).is_none());
    assert!(plan_provider(&cv("other"), None, &cv("m"), &cv("T"), true).is_none());
}

#[test]
fn excluder_leaves_unmatched_records_unchanged() {
    let ex = Excluder { entries: Vec::new() };
    let r = rec("t", vec![("keep", Value::Int(1))]);
    let before = to_json_string(&meta_value(&r));
    let after = to_json_string(&meta_value(&ex.filter_record(r)));
    assert_eq!(before, after);
}
