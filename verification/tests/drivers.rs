use db2vec::chars::{str_to_chars, chars_to_string};
use db2vec::value::Value;
use db2vec::record::Record;
use db2vec::json::to_json_string;
use db2vec::db::{
    RedisDatabase, qdrant_metric, milvus_metric, shape_vector_zero, shape_vector_pad,
    chroma_metadata, chroma_id, chroma_is_benign, pinecone_metadata, pinecone_is_local,
    milvus_entity_fields, milvus_needs_creation, exists_is_benign, surreal_basic_auth,
    surreal_create_stmt, surreal_record_meta, redis_item_meta, redis_item_key, redis_group_key,
    redis_index_name, to_ascii_lower, pinecone_resolve_host,
};

fn cv(s: &str) -> Vec<char> {
    str_to_chars(s)
}

fn rec(table: &str, fields: Vec<(&str, Value)>) -> Record {
    let mut fs: Vec<(Vec<char>, Value)> = Vec::new();
    for (k, v) in fields {
        fs.push((cv(k), v));
    }
    Record { table: cv(table), fields: fs }
}

#[test]
fn metric_mappings() {
    let d = RedisDatabase::new(4, cv("Cosine"), false);
    assert_eq!(d.map_metric_to_redis(), "COSINE");
    let d = RedisDatabase::new(4, cv("euclidean"), false);
    assert_eq!(d.map_metric_to_redis(), "L2");
    let d = RedisDatabase::new(4, cv("dotproduct"), false);
    assert_eq!(d.map_metric_to_redis(), "IP");
    let d = RedisDatabase::new(4, cv("weird"), false);
    assert_eq!(d.map_metric_to_redis(), "COSINE");
    assert_eq!(qdrant_metric(&cv("cosine")), "Cosine");
    assert_eq!(qdrant_metric(&cv("dot")), "Dot");
    assert_eq!(qdrant_metric(&cv("nonsense")), "Cosine");
    assert_eq!(milvus_metric(&cv("cosine")).unwrap(), "COSINE");
    assert_eq!(milvus_metric(&cv("dot_product")).unwrap(), "IP");
    assert_eq!(milvus_metric(&cv("l2")).unwrap(), "L2");
    assert!(milvus_metric(&cv("nonsense")).is_none());
}

#[test]
fn vector_shaping_rules() {
    let v = vec![1u32, 2, 3];
    assert_eq!(shape_vector_zero(&v, 3), vec![1, 2, 3]);
    assert_eq!(shape_vector_zero(&v, 4), vec![0, 0, 0, 0]);
    assert_eq!(shape_vector_pad(&v, 5), vec![1, 2, 3, 0, 0]);
    assert_eq!(shape_vector_pad(&v, 2), vec![1, 2]);
    assert_eq!(shape_vector_pad(&v, 3), vec![1, 2, 3]);
}

#[test]
fn chroma_keeps_only_scalars() {
    let r = rec(
        "t",
        vec![
            ("a", Value::Str(cv("x"))),
            ("b", Value::Arr(vec![Value::Int(1)])),
            ("c", Value::Int(2)),
            ("d", Value::Null),
        ],
    );
    let m = chroma_metadata(&r);
    assert_eq!(to_json_string(&m), "{\"a\":\"x\",\"c\":2}");
    let empty = rec("t", vec![("b", Value::Arr(vec![]))]);
    assert_eq!(to_json_string(&chroma_metadata(&empty)), "null");
    assert_eq!(chars_to_string(&chroma_id(&cv("t"), &cv("u1"))), "t:u1");
    assert!(chroma_is_benign(false, &cv("oops Error in compaction oops")));
    assert!(!chroma_is_benign(false, &cv("other failure")));
    assert!(chroma_is_benign(true, &cv("")));
}

#[test]
fn pinecone_stringifies_structures_and_drops_nulls() {
    let r = rec(
        "t",
        vec![
            ("a", Value::Null),
            ("b", Value::Obj(vec![(cv("k"), Value::Int(1))])),
            ("c", Value::Str(cv("s"))),
        ],
    );
    let m = pinecone_metadata(&cv("t"), &r);
    assert_eq!(
        to_json_string(&m),
        "{\"table\":\"t\",\"b\":\"{\\\"k\\\":1}\",\"c\":\"s\"}"
    );
    assert!(pinecone_is_local(&cv("http://localhost:5080")));
    assert!(pinecone_is_local(&cv("http://127.0.0.1")));
    assert!(!pinecone_is_local(&cv("https://api.pinecone.io")));
}

#[test]
fn milvus_entity_rewrites_keys() {
    let r = rec(
        "t",
        vec![
            ("id", Value::Int(1)),
            ("vector", Value::Int(2)),
            ("a.b", Value::Str(cv("x"))),
            ("plain", Value::Int(3)),
        ],
    );
    let fields = milvus_entity_fields(&r);
    assert_eq!(fields.len(), 2);
    assert_eq!(chars_to_string(&fields[0].0), "a_b");
    assert_eq!(chars_to_string(&fields[1].0), "plain");
    assert!(milvus_needs_creation(false, &cv("collection not found")));
    assert!(!milvus_needs_creation(true, &cv("collection not found")));
    assert!(!milvus_needs_creation(false, &cv("other error")));
}

#[test]
fn surreal_shaping() {
    assert_eq!(
        surreal_basic_auth(&cv("user"), &cv("pass")),
        "Basic dXNlcjpwYXNz"
    );
    let stmt = surreal_create_stmt(&cv("t"), &cv("u1"), &cv("{\"a\":1}"));
    assert_eq!(
        chars_to_string(&stmt),
        "CREATE t:`u1` CONTENT {\"a\":1};\n"
    );
    let r = rec("T", vec![("a", Value::Int(1))]);
    let m = surreal_record_meta(&cv("T"), &r);
    assert_eq!(
        to_json_string(&m),
        "{\"a\":1,\"original_table\":\"T\"}"
    );
    assert!(exists_is_benign(false, &cv("namespace already exists")));
    assert!(!exists_is_benign(false, &cv("denied")));
}

#[test]
fn redis_shaping() {
    assert_eq!(chars_to_string(&redis_item_key(&cv("t"), &cv("u1"))), "item:t:u1");
    assert_eq!(chars_to_string(&redis_group_key(&cv("t"))), "table:t");
    assert_eq!(chars_to_string(&redis_index_name(&cv("t"))), "idx:t");
    assert_eq!(chars_to_string(&to_ascii_lower(&cv("MyTable"))), "mytable");
    let r = rec(
        "T",
        vec![
            ("vector", Value::Int(1)),
            ("source_table", Value::Str(cv("x"))),
            ("keep", Value::Int(2)),
        ],
    );
    let m = redis_item_meta(&cv("T"), &cv("u1"), &r);
    assert_eq!(
        to_json_string(&m),
        "{\"source_table\":\"T\",\"original_id\":\"u1\",\"keep\":2}"
    );
}

#[test]
fn pinecone_host_resolution() {
    let local = pinecone_resolve_host(&cv("http://localhost:5080"), None).unwrap();
    assert_eq!(chars_to_string(&local), "http://localhost:5080");
    let svc = pinecone_resolve_host(&cv("idx.svc.env.pinecone.io"), None).unwrap();
    assert_eq!(chars_to_string(&svc), "https://idx.svc.env.pinecone.io");
    let kept = pinecone_resolve_host(&cv("https://idx.svc.env.pinecone.io"), None).unwrap();
    assert_eq!(chars_to_string(&kept), "https://idx.svc.env.pinecone.io");
    let created = pinecone_resolve_host(
        &cv("something-else"),
        Some(cv("https://made.example")),
    )
    .unwrap();
    assert_eq!(chars_to_string(&created), "https://made.example");
    assert!(pinecone_resolve_host(&cv("something-else"), None).is_none());
}
