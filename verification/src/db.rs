//! Vector-store driver logic: metric mapping, vector shaping, payload and
//! key construction, and the benign-conflict decisions, for the six
//! backends.  Everything here is pure computation; the callers perform the
//! actual wire traffic and hand responses back as plain values.

use vstd::prelude::*;
use crate::value::{Value, Val, dvf, clone_chars, clone_value};
use crate::record::{Record, ascii_lower};
use crate::chars::{str_to_chars, chars_to_string, contains_sub, contains, eq_chars};
use vstd::string::StrSliceExecFns;

verus! {

broadcast use vstd::std_specs::vec::group_vec_axioms;

/// ASCII lower case of a whole sequence.
pub open spec fn lower_seq(s: Seq<char>) -> Seq<char> {
    Seq::new(s.len(), |i: int| if 0 <= i < s.len() { ascii_lower(s[i]) } else { ' ' })
}

/// Exact computation of `lower_seq`.
#[verifier::loop_isolation(false)]
pub fn to_ascii_lower(s: &Vec<char>) -> (r: Vec<char>)
    ensures
        r@ == lower_seq(s@),
{
    let mut out: Vec<char> = Vec::new();
    let mut i: usize = 0;
    while i < s.len()
        invariant
            0 <= i <= s@.len(),
            out@.len() == i,
            forall|j: int| 0 <= j < i ==> out@[j] == ascii_lower(s@[j]),
        decreases s@.len() - i,
    {
        let c = s[i];
        if 'A' <= c && c <= 'Z' {
            out.push((((c as u8) + 32) as u8) as char);
        } else {
            out.push(c);
        }
        i += 1;
    }
    assert(out@ =~= lower_seq(s@));
    out
}

/// ASCII upper case of a whole sequence.
pub open spec fn ascii_upper(c: char) -> char {
    if 'a' <= c && c <= 'z' {
        (((c as u8) - 32) as u8) as char
    } else {
        c
    }
}

/// ASCII upper case of a whole sequence.
pub open spec fn upper_seq(s: Seq<char>) -> Seq<char> {
    Seq::new(s.len(), |i: int| if 0 <= i < s.len() { ascii_upper(s[i]) } else { ' ' })
}

/// Exact computation of `upper_seq`.
#[verifier::loop_isolation(false)]
pub fn to_ascii_upper(s: &Vec<char>) -> (r: Vec<char>)
    ensures
        r@ == upper_seq(s@),
{
    let mut out: Vec<char> = Vec::new();
    let mut i: usize = 0;
    while i < s.len()
        invariant
            0 <= i <= s@.len(),
            out@.len() == i,
            forall|j: int| 0 <= j < i ==> out@[j] == ascii_upper(s@[j]),
        decreases s@.len() - i,
    {
        let c = s[i];
        if 'a' <= c && c <= 'z' {
            out.push((((c as u8) - 32) as u8) as char);
        } else {
            out.push(c);
        }
        i += 1;
    }
    assert(out@ =~= upper_seq(s@));
    out
}

/// The Redis distance keyword for a configured metric: `cosine` maps to
/// `COSINE`, `l2` and `euclidean` to `L2`, `ip`, `dotproduct` and
/// `innerproduct` to `IP`; anything else falls back to `COSINE`.
pub open spec fn spec_redis_metric(m: Seq<char>) -> Seq<char> {
    let l = lower_seq(m);
    if l == "cosine"@ {
        "COSINE"@
    } else if l == "l2"@ || l == "euclidean"@ {
        "L2"@
    } else if l == "ip"@ || l == "dotproduct"@ || l == "innerproduct"@ {
        "IP"@
    } else {
        "COSINE"@
    }
}

/// The Qdrant distance name for a configured metric; unknown metrics fall
/// back to `Cosine`.
pub open spec fn spec_qdrant_metric(m: Seq<char>) -> Seq<char> {
    let l = lower_seq(m);
    if l == "cosine"@ {
        "Cosine"@
    } else if l == "euclidean"@ {
        "Euclidean"@
    } else if l == "dotproduct"@ || l == "dot"@ {
        "Dot"@
    } else {
        "Cosine"@
    }
}

/// The Milvus metric name for a configured metric; unknown metrics are
/// refused.
pub open spec fn spec_milvus_metric(m: Seq<char>) -> Option<Seq<char>> {
    let u = upper_seq(m);
    if u == "COSINE"@ || u == "COSINE_SIMILARITY"@ {
        Some("COSINE"@)
    } else if u == "IP"@ || u == "DOT_PRODUCT"@ {
        Some("IP"@)
    } else if u == "L2"@ || u == "EUCLIDEAN"@ {
        Some("L2"@)
    } else {
        None
    }
}

/// The Redis driver configuration.
pub struct RedisDatabase {
    pub dimension: usize,
    pub metric: Vec<char>,
    pub group_redis: bool,
}

impl RedisDatabase {
    /// Remember the write configuration.
    pub fn new(dimension: usize, metric: Vec<char>, group_redis: bool) -> (r: RedisDatabase)
        ensures
            r.dimension == dimension,
            r.metric@ == metric@,
            r.group_redis == group_redis,
    {
        RedisDatabase { dimension, metric, group_redis }
    }

    /// The Redis distance keyword for this configuration; exact.
    pub fn map_metric_to_redis(&self) -> (r: String)
        ensures
            r@ == spec_redis_metric(self.metric@),
    {
        let l = to_ascii_lower(&self.metric);
        if eq_lit_db(&l, "cosine") {
            chars_of("COSINE")
        } else if eq_lit_db(&l, "l2") || eq_lit_db(&l, "euclidean") {
            chars_of("L2")
        } else if eq_lit_db(&l, "ip") || eq_lit_db(&l, "dotproduct") || eq_lit_db(
            &l,
            "innerproduct",
        ) {
            chars_of("IP")
        } else {
            chars_of("COSINE")
        }
    }
}

/// The vector equals the literal.
fn eq_lit_db(v: &Vec<char>, lit: &str) -> (r: bool)
    ensures
        r == (v@ == lit@),
{
    let lv = str_to_chars(lit);
    eq_chars(v, &lv)
}

/// The literal as a string.
fn chars_of(lit: &str) -> (r: String)
    ensures
        r@ == lit@,
{
    let v = str_to_chars(lit);
    chars_to_string(v.as_slice())
}

/// The Qdrant distance name for a configured metric; exact.
pub fn qdrant_metric(metric: &Vec<char>) -> (r: String)
    ensures
        r@ == spec_qdrant_metric(metric@),
{
    let l = to_ascii_lower(metric);
    if eq_lit_db(&l, "cosine") {
        chars_of("Cosine")
    } else if eq_lit_db(&l, "euclidean") {
        chars_of("Euclidean")
    } else if eq_lit_db(&l, "dotproduct") || eq_lit_db(&l, "dot") {
        chars_of("Dot")
    } else {
        chars_of("Cosine")
    }
}

/// The Milvus metric name for a configured metric; exact.
pub fn milvus_metric(metric: &Vec<char>) -> (r: Option<String>)
    ensures
        (match (r, spec_milvus_metric(metric@)) {
            (Some(v), Some(w)) => v@ == w,
            (None, None) => true,
            _ => false,
        }),
{
    let u = to_ascii_upper(metric);
    if eq_lit_db(&u, "COSINE") || eq_lit_db(&u, "COSINE_SIMILARITY") {
        Some(chars_of("COSINE"))
    } else if eq_lit_db(&u, "IP") || eq_lit_db(&u, "DOT_PRODUCT") {
        Some(chars_of("IP"))
    } else if eq_lit_db(&u, "L2") || eq_lit_db(&u, "EUCLIDEAN") {
        Some(chars_of("L2"))
    } else {
        None
    }
}

/// A vector of `dim` zero components (the bit pattern of 0.0 is 0).
pub fn zero_vector(dim: usize) -> (r: Vec<u32>)
    ensures
        r@.len() == dim,
        forall|i: int| 0 <= i < dim ==> r@[i] == 0u32,
{
    let mut out: Vec<u32> = Vec::new();
    let mut i: usize = 0;
    while i < dim
        invariant
            0 <= i <= dim,
            out@.len() == i,
            forall|j: int| 0 <= j < i ==> out@[j] == 0u32,
        decreases dim - i,
    {
        out.push(0);
        i += 1;
    }
    out
}

/// Shape a vector to the configured dimension by zero-filling: a vector of
/// the right length is kept; any other is replaced by zeros (the rule of
/// the Qdrant and Milvus drivers).
pub fn shape_vector_zero(v: &Vec<u32>, dim: usize) -> (r: Vec<u32>)
    ensures
        r@.len() == dim,
        v@.len() == dim ==> r@ == v@,
        v@.len() != dim ==> forall|i: int| 0 <= i < dim ==> r@[i] == 0u32,
{
    if v.len() == dim {
        let mut out: Vec<u32> = Vec::new();
        let mut i: usize = 0;
        while i < v.len()
            invariant
                0 <= i <= v@.len(),
                out@ =~= v@.subrange(0, i as int),
            decreases v@.len() - i,
        {
            out.push(v[i]);
            assert(out@ =~= v@.subrange(0, i + 1));
            i += 1;
        }
        assert(out@ =~= v@);
        out
    } else {
        zero_vector(dim)
    }
}

/// Shape a vector to the configured dimension by truncating or
/// zero-padding (the rule of the Chroma and Pinecone drivers).
pub fn shape_vector_pad(v: &Vec<u32>, dim: usize) -> (r: Vec<u32>)
    ensures
        r@.len() == dim,
        v@.len() == dim ==> r@ == v@,
        forall|i: int| 0 <= i < dim && i < v@.len() ==> r@[i] == v@[i],
        forall|i: int| v@.len() <= i < dim ==> r@[i] == 0u32,
{
    let mut out: Vec<u32> = Vec::new();
    let mut i: usize = 0;
    while i < dim
        invariant
            0 <= i <= dim,
            out@.len() == i,
            forall|j: int| 0 <= j < i && j < v@.len() ==> out@[j] == v@[j],
            forall|j: int| v@.len() <= j < i ==> out@[j] == 0u32,
        decreases dim - i,
    {
        if i < v.len() {
            out.push(v[i]);
        } else {
            out.push(0);
        }
        i += 1;
    }
    proof {
        if v@.len() == dim {
            assert(out@ =~= v@);
        }
    }
    out
}

/// A value is scalar: a string, a number or a boolean.
pub open spec fn is_scalar(v: Val) -> bool {
    v matches Val::Str(_) || v matches Val::Int(_) || v matches Val::Float(_) || v matches Val::Bool(
        _,
    )
}

/// Whether a field pair carries a scalar value.
pub open spec fn scalar_field(p: (Seq<char>, Val)) -> bool {
    is_scalar(p.1)
}

/// The Chroma metadata for a record: only scalar fields are kept; a
/// record with none yields null (the backend refuses structured values).
#[verifier::loop_isolation(false)]
pub fn chroma_metadata(rec: &Record) -> (r: Value)
    ensures
        (if dvf(rec.fields@).filter(|p: (Seq<char>, Val)| is_scalar(p.1)).len() == 0 {
            r.dv() == Val::Null
        } else {
            r.dv() == Val::Obj(dvf(rec.fields@).filter(|p: (Seq<char>, Val)| is_scalar(p.1)))
        }),
{
    let ghost pred = |p: (Seq<char>, Val)| is_scalar(p.1);
    let mut out: Vec<(Vec<char>, Value)> = Vec::new();
    let mut i: usize = 0;
    proof {
        reveal_with_fuel(Seq::filter, 2);
        assert(dvf(rec.fields@.subrange(0, 0)).filter(pred) =~= Seq::<(Seq<char>, Val)>::empty());
    }
    while i < rec.fields.len()
        invariant
            0 <= i <= rec.fields@.len(),
            pred == (|p: (Seq<char>, Val)| is_scalar(p.1)),
            dvf(out@) =~= dvf(rec.fields@.subrange(0, i as int)).filter(pred),
        decreases rec.fields@.len() - i,
    {
        let keep = match &rec.fields[i].1 {
            Value::Str(_) => true,
            Value::Int(_) => true,
            Value::Float(_) => true,
            Value::Bool(_) => true,
            _ => false,
        };
        proof {
            reveal_with_fuel(Seq::filter, 2);
            assert(dvf(rec.fields@.subrange(0, i + 1)).drop_last() =~= dvf(
                rec.fields@.subrange(0, i as int),
            ));
            assert(dvf(rec.fields@.subrange(0, i + 1)).last() == (rec.fields@[i as int].0@,
            rec.fields@[i as int].1.dv()));
        }
        if keep {
            let k = clone_chars(&rec.fields[i].0);
            let v = clone_value(&rec.fields[i].1);
            out.push((k, v));
            assert(dvf(out@) =~= dvf(rec.fields@.subrange(0, i + 1)).filter(pred));
        } else {
            assert(dvf(out@) =~= dvf(rec.fields@.subrange(0, i + 1)).filter(pred));
        }
        i += 1;
    }
    proof {
        assert(rec.fields@.subrange(0, rec.fields@.len() as int) =~= rec.fields@);
    }
    if out.len() == 0 {
        assert(dvf(out@).len() == 0);
        Value::Null
    } else {
        let r = Value::Obj(out);
        proof {
            assert(r.dv()->Obj_0 =~= dvf(r->Obj_0@));
        }
        r
    }
}

/// The namespaced Chroma record identifier `<table>:<id>`; exact.
pub fn chroma_id(table: &Vec<char>, id: &Vec<char>) -> (r: Vec<char>)
    ensures
        r@ == table@ + seq![':'] + id@,
{
    let mut out = clone_chars(table);
    out.push(':');
    crate::chars::push_range(id, 0, id.len(), &mut out);
    assert(out@ =~= table@ + seq![':'] + id@);
    out
}

/// A Chroma write failure is benign exactly when the response body speaks
/// of an error in compaction; exact.
pub fn chroma_is_benign(status_success: bool, body: &Vec<char>) -> (r: bool)
    ensures
        r == (status_success || contains_sub(body@, "Error in compaction"@)),
{
    if status_success {
        return true;
    }
    let pat = str_to_chars("Error in compaction");
    contains(body, pat.as_slice())
}

/// One field of the Pinecone metadata: nulls are dropped, mappings and
/// lists are stringified as JSON, scalars stay.
pub open spec fn pinecone_field(p: (Seq<char>, Val)) -> Seq<(Seq<char>, Val)> {
    match p.1 {
        Val::Null => Seq::empty(),
        Val::Obj(_) => seq![(p.0, Val::Str(crate::json::json_text(p.1)))],
        Val::Arr(_) => seq![(p.0, Val::Str(crate::json::json_text(p.1)))],
        _ => seq![p],
    }
}

/// The Pinecone metadata fields for a record, `table` first, one walk.
pub open spec fn spec_pinecone_fields(fields: Seq<(Seq<char>, Val)>) -> Seq<(Seq<char>, Val)>
    decreases fields.len(),
{
    if fields.len() == 0 {
        Seq::empty()
    } else {
        spec_pinecone_fields(fields.drop_last()) + pinecone_field(fields.last())
    }
}

/// The Pinecone metadata for a record: the `table` entry, then every
/// field with nulls dropped and structured values stringified; exact.
#[verifier::loop_isolation(false)]
pub fn pinecone_metadata(table: &Vec<char>, rec: &Record) -> (r: Value)
    ensures
        r.dv() == Val::Obj(
            seq![("table"@, Val::Str(table@))] + spec_pinecone_fields(dvf(rec.fields@)),
        ),
{
    let mut out: Vec<(Vec<char>, Value)> = Vec::new();
    out.push((str_to_chars("table"), Value::Str(clone_chars(table))));
    let ghost base = seq![("table"@, Val::Str(table@))];
    assert(dvf(out@) =~= base + spec_pinecone_fields(dvf(rec.fields@.subrange(0, 0))));
    let mut i: usize = 0;
    while i < rec.fields.len()
        invariant
            0 <= i <= rec.fields@.len(),
            dvf(out@) =~= base + spec_pinecone_fields(dvf(rec.fields@.subrange(0, i as int))),
        decreases rec.fields@.len() - i,
    {
        proof {
            assert(dvf(rec.fields@.subrange(0, i + 1)).drop_last() =~= dvf(
                rec.fields@.subrange(0, i as int),
            ));
            assert(dvf(rec.fields@.subrange(0, i + 1)).last() == (rec.fields@[i as int].0@,
            rec.fields@[i as int].1.dv()));
        }
        let mut add: Option<(Vec<char>, Value)> = None;
        match &rec.fields[i].1 {
            Value::Null => {},
            Value::Obj(_) => {
                let k = clone_chars(&rec.fields[i].0);
                let txt = crate::json::to_json_chars(&rec.fields[i].1);
                add = Some((k, Value::Str(txt)));
            },
            Value::Arr(_) => {
                let k = clone_chars(&rec.fields[i].0);
                let txt = crate::json::to_json_chars(&rec.fields[i].1);
                add = Some((k, Value::Str(txt)));
            },
            _ => {
                let k = clone_chars(&rec.fields[i].0);
                let v = clone_value(&rec.fields[i].1);
                add = Some((k, v));
            },
        }
        match add {
            Some(pair) => {
                let ghost fpre = out@;
                out.push(pair);
                proof {
                    crate::value::dvf_push(fpre, out@);
                }
            },
            None => {},
        }
        assert(dvf(out@) =~= base + spec_pinecone_fields(dvf(rec.fields@.subrange(0, i + 1))));
        i += 1;
    }
    proof {
        assert(rec.fields@.subrange(0, rec.fields@.len() as int) =~= rec.fields@);
    }
    let r = Value::Obj(out);
    proof {
        assert(r.dv()->Obj_0 =~= dvf(r->Obj_0@));
    }
    r
}

/// The Pinecone data-plane host for a configuration: a local host is used
/// as it stands; a `.svc.`-qualified Pinecone host is used with an
/// `https://` scheme added when missing; otherwise the host the create or
/// describe call reported; nothing, when none of these is at hand.
pub open spec fn spec_pinecone_host(
    vector_host: Seq<char>,
    from_create: Option<Seq<char>>,
) -> Option<Seq<char>> {
    if contains_sub(vector_host, "localhost"@) || contains_sub(vector_host, "127.0.0.1"@)
        || contains_sub(vector_host, "::1"@) {
        Some(vector_host)
    } else if contains_sub(vector_host, ".svc."@) && contains_sub(vector_host, ".pinecone.io"@) {
        if crate::chars::starts_with(vector_host, "https://"@) {
            Some(vector_host)
        } else {
            Some("https://"@ + vector_host)
        }
    } else {
        from_create
    }
}

/// Resolve the Pinecone data-plane host; exact.
pub fn pinecone_resolve_host(vector_host: &Vec<char>, host_from_create: Option<Vec<char>>) -> (r:
    Option<Vec<char>>)
    ensures
        (match (r, spec_pinecone_host(
            vector_host@,
            (match host_from_create {
                Some(h) => Some(h@),
                None => None,
            }),
        )) {
            (Some(v), Some(w)) => v@ == w,
            (None, None) => true,
            _ => false,
        }),
{
    if pinecone_is_local(vector_host) {
        return Some(clone_chars(vector_host));
    }
    let svc = str_to_chars(".svc.");
    let pio = str_to_chars(".pinecone.io");
    if contains(vector_host, svc.as_slice()) && contains(vector_host, pio.as_slice()) {
        let scheme = str_to_chars("https://");
        if crate::chars::begins_with(vector_host, scheme.as_slice()) {
            return Some(clone_chars(vector_host));
        }
        let mut out = str_to_chars("https://");
        crate::chars::push_range(vector_host, 0, vector_host.len(), &mut out);
        assert(out@ =~= "https://"@ + vector_host@);
        return Some(out);
    }
    host_from_create
}

/// The Pinecone host is local exactly when it names a loopback address.
pub fn pinecone_is_local(host: &Vec<char>) -> (r: bool)
    ensures
        r == (contains_sub(host@, "localhost"@) || contains_sub(host@, "127.0.0.1"@)
            || contains_sub(host@, "::1"@)),
{
    let a = str_to_chars("localhost");
    let b = str_to_chars("127.0.0.1");
    let c = str_to_chars("::1");
    contains(host, a.as_slice()) || contains(host, b.as_slice()) || contains(host, c.as_slice())
}

/// One field of a Milvus entity: `id` and `vector` are reserved, every
/// dot in a key becomes an underscore.
pub open spec fn milvus_field(p: (Seq<char>, Val)) -> Seq<(Seq<char>, Val)> {
    if p.0 == "id"@ || p.0 == "vector"@ {
        Seq::empty()
    } else {
        seq![(Seq::new(p.0.len(), |i: int| if 0 <= i < p.0.len() && p.0[i] == '.' { '_' } else if 0 <= i < p.0.len() { p.0[i] } else { ' ' }), p.1)]
    }
}

/// The dynamic fields of a Milvus entity, one walk.
pub open spec fn spec_milvus_fields(fields: Seq<(Seq<char>, Val)>) -> Seq<(Seq<char>, Val)>
    decreases fields.len(),
{
    if fields.len() == 0 {
        Seq::empty()
    } else {
        spec_milvus_fields(fields.drop_last()) + milvus_field(fields.last())
    }
}

/// The dynamic metadata fields of a Milvus entity: reserved keys dropped,
/// dots in keys rewritten to underscores; exact.
#[verifier::loop_isolation(false)]
pub fn milvus_entity_fields(rec: &Record) -> (r: Vec<(Vec<char>, Value)>)
    ensures
        dvf(r@) == spec_milvus_fields(dvf(rec.fields@)),
{
    let mut out: Vec<(Vec<char>, Value)> = Vec::new();
    assert(dvf(out@) =~= spec_milvus_fields(dvf(rec.fields@.subrange(0, 0))));
    let mut i: usize = 0;
    while i < rec.fields.len()
        invariant
            0 <= i <= rec.fields@.len(),
            dvf(out@) =~= spec_milvus_fields(dvf(rec.fields@.subrange(0, i as int))),
        decreases rec.fields@.len() - i,
    {
        proof {
            assert(dvf(rec.fields@.subrange(0, i + 1)).drop_last() =~= dvf(
                rec.fields@.subrange(0, i as int),
            ));
            assert(dvf(rec.fields@.subrange(0, i + 1)).last() == (rec.fields@[i as int].0@,
            rec.fields@[i as int].1.dv()));
        }
        let key = &rec.fields[i].0;
        if eq_lit_db(key, "id") || eq_lit_db(key, "vector") {
        } else {
            let mut nk: Vec<char> = Vec::new();
            let mut k: usize = 0;
            while k < key.len()
                invariant
                    0 <= k <= key@.len(),
                    nk@.len() == k,
                    forall|j: int| 0 <= j < k ==> nk@[j] == (if key@[j] == '.' {
                        '_'
                    } else {
                        key@[j]
                    }),
                decreases key@.len() - k,
            {
                if key[k] == '.' {
                    nk.push('_');
                } else {
                    nk.push(key[k]);
                }
                k += 1;
            }
            let v = clone_value(&rec.fields[i].1);
            proof {
                assert(nk@ =~= Seq::new(
                    key@.len(),
                    |j: int| if 0 <= j < key@.len() && key@[j] == '.' {
                        '_'
                    } else if 0 <= j < key@.len() {
                        key@[j]
                    } else {
                        ' '
                    },
                ));
            }
            let ghost fpre = out@;
            out.push((nk, v));
            proof {
                crate::value::dvf_push(fpre, out@);
            }
        }
        assert(dvf(out@) =~= spec_milvus_fields(dvf(rec.fields@.subrange(0, i + 1))));
        i += 1;
    }
    proof {
        assert(rec.fields@.subrange(0, rec.fields@.len() as int) =~= rec.fields@);
    }
    out
}

/// A Milvus stats probe means the collection must be created exactly when
/// its code is non-zero and its message speaks of a missing collection.
pub fn milvus_needs_creation(code_is_zero: bool, message: &Vec<char>) -> (r: bool)
    ensures
        r == (!code_is_zero && (contains_sub(message@, "collection not found"@) || contains_sub(
            message@,
            "collection does not exist"@,
        ))),
{
    if code_is_zero {
        return false;
    }
    let a = str_to_chars("collection not found");
    let b = str_to_chars("collection does not exist");
    contains(message, a.as_slice()) || contains(message, b.as_slice())
}

/// A provisioning response is benign exactly when it reports success or
/// says the container already exists.
pub fn exists_is_benign(status_success: bool, body: &Vec<char>) -> (r: bool)
    ensures
        r == (status_success || contains_sub(body@, "already exists"@)),
{
    if status_success {
        return true;
    }
    let pat = str_to_chars("already exists");
    contains(body, pat.as_slice())
}

/// What base64 encoding returns for some bytes: a deterministic function
/// of the bytes alone.
pub uninterp spec fn b64_of(bytes: Seq<u8>) -> Seq<char>;

/// Relies on base64's standard-alphabet engine: encodes the bytes, four
/// characters for every three bytes, a deterministic function of the
/// input.
#[verifier::external_body]
fn b64_encode(bytes: &Vec<u8>) -> (r: String)
    ensures
        r@ == b64_of(bytes@),
        r@.len() == 4 * ((bytes@.len() + 2) / 3),
{
    base64::Engine::encode(&base64::engine::general_purpose::STANDARD, bytes)
}

/// The SurrealDB Basic authentication header for a user and password:
/// `Basic ` followed by the base64 encoding of `user:pass`.
pub fn surreal_basic_auth(user: &Vec<char>, pass: &Vec<char>) -> (r: String)
    ensures
        r@ == "Basic "@ + b64_of(vstd::utf8::encode_utf8(user@ + seq![':'] + pass@)),
{
    let mut cred = clone_chars(user);
    cred.push(':');
    crate::chars::push_range(pass, 0, pass.len(), &mut cred);
    assert(cred@ =~= user@ + seq![':'] + pass@);
    let cs = chars_to_string(cred.as_slice());
    let bytes = cs.as_str().as_bytes_vec();
    proof {
        assert(bytes@ == vstd::utf8::encode_utf8(cs@));
    }
    let enc = b64_encode(&bytes);
    let ev = str_to_chars(enc.as_str());
    let mut out = str_to_chars("Basic ");
    crate::chars::push_range(&ev, 0, ev.len(), &mut out);
    assert(out@ =~= "Basic "@ + b64_of(vstd::utf8::encode_utf8(user@ + seq![':'] + pass@)));
    chars_to_string(out.as_slice())
}

/// The SurrealDB import statement for one record:
/// ``CREATE <table>:`<id>` CONTENT <json>;`` with a trailing newline;
/// exact.
pub fn surreal_create_stmt(table: &Vec<char>, id: &Vec<char>, content: &Vec<char>) -> (r: Vec<
    char,
>)
    ensures
        r@ == "CREATE "@ + table@ + seq![':', '`'] + id@ + seq!['`', ' '] + "CONTENT "@ + content@
            + seq![';', '\n'],
{
    let mut out = str_to_chars("CREATE ");
    crate::chars::push_range(table, 0, table.len(), &mut out);
    out.push(':');
    out.push('`');
    crate::chars::push_range(id, 0, id.len(), &mut out);
    out.push('`');
    out.push(' ');
    let kw = str_to_chars("CONTENT ");
    crate::chars::push_range(&kw, 0, kw.len(), &mut out);
    crate::chars::push_range(content, 0, content.len(), &mut out);
    out.push(';');
    out.push('\n');
    assert(out@ =~= "CREATE "@ + table@ + seq![':', '`'] + id@ + seq!['`', ' '] + "CONTENT "@
        + content@ + seq![';', '\n']);
    out
}

/// The SurrealDB record content for a driver write: the record's fields
/// together with the original table under `original_table`; the vector is
/// appended by the caller, which owns the float rendering.
pub fn surreal_record_meta(table: &Vec<char>, rec: &Record) -> (r: Value)
    ensures
        r.dv() == Val::Obj(rec.fdv() + seq![("original_table"@, Val::Str(table@))]),
{
    let mut fields: Vec<(Vec<char>, Value)> = Vec::new();
    let mut i: usize = 0;
    while i < rec.fields.len()
        invariant
            0 <= i <= rec.fields@.len(),
            dvf(fields@) =~= rec.fdv().subrange(0, i as int),
        decreases rec.fields@.len() - i,
    {
        let k = clone_chars(&rec.fields[i].0);
        let v = clone_value(&rec.fields[i].1);
        let ghost fpre = fields@;
        fields.push((k, v));
        proof {
            crate::value::dvf_push(fpre, fields@);
        }
        assert(dvf(fields@) =~= rec.fdv().subrange(0, i + 1));
        i += 1;
    }
    let ghost fpre2 = fields@;
    fields.push((str_to_chars("original_table"), Value::Str(clone_chars(table))));
    proof {
        crate::value::dvf_push(fpre2, fields@);
    }
    proof {
        assert(rec.fdv().subrange(0, rec.fdv().len() as int) =~= rec.fdv());
        assert(dvf(fields@) =~= rec.fdv() + seq![("original_table"@, Val::Str(table@))]);
    }
    let r = Value::Obj(fields);
    proof {
        assert(r.dv()->Obj_0 =~= dvf(r->Obj_0@));
    }
    r
}

/// The Redis document for one indexed item: `source_table` and
/// `original_id` first, then every field of the record except the
/// reserved `vector` and `source_table` keys; the vector itself is
/// appended by the caller.
pub open spec fn redis_keep(p: (Seq<char>, Val)) -> bool {
    p.0 != "vector"@ && p.0 != "source_table"@
}

/// The Redis document fields for one indexed item; exact.
#[verifier::loop_isolation(false)]
pub fn redis_item_meta(table: &Vec<char>, id: &Vec<char>, rec: &Record) -> (r: Value)
    ensures
        r.dv() == Val::Obj(
            seq![("source_table"@, Val::Str(table@)), ("original_id"@, Val::Str(id@))]
                + rec.fdv().filter(|p: (Seq<char>, Val)| redis_keep(p)),
        ),
{
    let ghost pred = |p: (Seq<char>, Val)| redis_keep(p);
    let ghost base = seq![("source_table"@, Val::Str(table@)), ("original_id"@, Val::Str(id@))];
    let mut out: Vec<(Vec<char>, Value)> = Vec::new();
    out.push((str_to_chars("source_table"), Value::Str(clone_chars(table))));
    out.push((str_to_chars("original_id"), Value::Str(clone_chars(id))));
    proof {
        reveal_with_fuel(Seq::filter, 2);
        assert(dvf(out@) =~= base + rec.fdv().subrange(0, 0).filter(pred));
    }
    let mut i: usize = 0;
    while i < rec.fields.len()
        invariant
            0 <= i <= rec.fields@.len(),
            pred == (|p: (Seq<char>, Val)| redis_keep(p)),
            dvf(out@) =~= base + rec.fdv().subrange(0, i as int).filter(pred),
        decreases rec.fields@.len() - i,
    {
        proof {
            reveal_with_fuel(Seq::filter, 2);
            assert(rec.fdv().subrange(0, i + 1).drop_last() =~= rec.fdv().subrange(0, i as int));
            assert(rec.fdv().subrange(0, i + 1).last() == rec.fdv()[i as int]);
        }
        let key = &rec.fields[i].0;
        if eq_lit_db(key, "vector") || eq_lit_db(key, "source_table") {
            assert(!pred(rec.fdv()[i as int]));
        } else {
            let k = clone_chars(key);
            let v = clone_value(&rec.fields[i].1);
            let ghost fpre = out@;
            out.push((k, v));
            proof {
                crate::value::dvf_push(fpre, out@);
            }
        }
        assert(dvf(out@) =~= base + rec.fdv().subrange(0, i + 1).filter(pred));
        i += 1;
    }
    proof {
        assert(rec.fdv().subrange(0, rec.fdv().len() as int) =~= rec.fdv());
    }
    let r = Value::Obj(out);
    proof {
        assert(r.dv()->Obj_0 =~= dvf(r->Obj_0@));
    }
    r
}

/// The Redis key of one indexed item: `item:<table>:<id>`; exact.
pub fn redis_item_key(table: &Vec<char>, id: &Vec<char>) -> (r: Vec<char>)
    ensures
        r@ == "item:"@ + table@ + seq![':'] + id@,
{
    let mut out = str_to_chars("item:");
    crate::chars::push_range(table, 0, table.len(), &mut out);
    out.push(':');
    crate::chars::push_range(id, 0, id.len(), &mut out);
    assert(out@ =~= "item:"@ + table@ + seq![':'] + id@);
    out
}

/// The Redis key of a grouped table document: `table:<table>`; exact.
pub fn redis_group_key(table: &Vec<char>) -> (r: Vec<char>)
    ensures
        r@ == "table:"@ + table@,
{
    let mut out = str_to_chars("table:");
    crate::chars::push_range(table, 0, table.len(), &mut out);
    assert(out@ =~= "table:"@ + table@);
    out
}

/// The Redis index name of a table: `idx:<table>`; exact.
pub fn redis_index_name(table: &Vec<char>) -> (r: Vec<char>)
    ensures
        r@ == "idx:"@ + table@,
{
    let mut out = str_to_chars("idx:");
    crate::chars::push_range(table, 0, table.len(), &mut out);
    assert(out@ =~= "idx:"@ + table@);
    out
}

/// The index schema entry a field contributes: text fields index as
/// sortable text, numbers and booleans as numerics, anything else not at
/// all; the reserved keys contribute nothing.
pub open spec fn redis_schema_entry(p: (Seq<char>, Val)) -> Seq<(Seq<char>, bool)> {
    if p.0 == "vector"@ || p.0 == "source_table"@ || p.0 == "original_id"@ {
        Seq::empty()
    } else {
        match p.1 {
            Val::Str(_) => seq![(p.0, true)],
            Val::Int(_) => seq![(p.0, false)],
            Val::Float(_) => seq![(p.0, false)],
            Val::Bool(_) => seq![(p.0, false)],
            _ => Seq::empty(),
        }
    }
}

/// The discovered index schema of a record, one walk.
pub open spec fn spec_redis_schema(fields: Seq<(Seq<char>, Val)>) -> Seq<(Seq<char>, bool)>
    decreases fields.len(),
{
    if fields.len() == 0 {
        Seq::empty()
    } else {
        spec_redis_schema(fields.drop_last()) + redis_schema_entry(fields.last())
    }
}

/// The extra index fields discovered from a sample record: each scalar
/// field with whether it indexes as text; exact.
#[verifier::loop_isolation(false)]
pub fn redis_index_schema(rec: &Record) -> (r: Vec<(Vec<char>, bool)>)
    ensures
        Seq::new(r@.len(), |k: int| if 0 <= k < r@.len() { (r@[k].0@, r@[k].1) } else { (Seq::empty(), false) })
            == spec_redis_schema(dvf(rec.fields@)),
{
    let mut out: Vec<(Vec<char>, bool)> = Vec::new();
    let ghost view = |o: Seq<(Vec<char>, bool)>| Seq::new(
        o.len(),
        |k: int| if 0 <= k < o.len() { (o[k].0@, o[k].1) } else { (Seq::empty(), false) },
    );
    assert(view(out@) =~= spec_redis_schema(dvf(rec.fields@.subrange(0, 0))));
    let mut i: usize = 0;
    while i < rec.fields.len()
        invariant
            0 <= i <= rec.fields@.len(),
            view == (|o: Seq<(Vec<char>, bool)>| Seq::new(
                o.len(),
                |k: int| if 0 <= k < o.len() { (o[k].0@, o[k].1) } else { (Seq::empty(), false) },
            )),
            view(out@) =~= spec_redis_schema(dvf(rec.fields@.subrange(0, i as int))),
        decreases rec.fields@.len() - i,
    {
        proof {
            assert(dvf(rec.fields@.subrange(0, i + 1)).drop_last() =~= dvf(
                rec.fields@.subrange(0, i as int),
            ));
            assert(dvf(rec.fields@.subrange(0, i + 1)).last() == (rec.fields@[i as int].0@,
            rec.fields@[i as int].1.dv()));
        }
        let key = &rec.fields[i].0;
        if eq_lit_db(key, "vector") || eq_lit_db(key, "source_table") || eq_lit_db(
            key,
            "original_id",
        ) {
        } else {
            match &rec.fields[i].1 {
                Value::Str(_) => {
                    out.push((clone_chars(key), true));
                },
                Value::Int(_) => {
                    out.push((clone_chars(key), false));
                },
                Value::Float(_) => {
                    out.push((clone_chars(key), false));
                },
                Value::Bool(_) => {
                    out.push((clone_chars(key), false));
                },
                _ => {},
            }
        }
        assert(view(out@) =~= spec_redis_schema(dvf(rec.fields@.subrange(0, i + 1))));
        i += 1;
    }
    proof {
        assert(rec.fields@.subrange(0, rec.fields@.len() as int) =~= rec.fields@);
    }
    out
}

} // verus!
