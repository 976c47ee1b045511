//! Embedding bookkeeping: record texts, dimension checks, and the pairing
//! of records with the vectors a provider returned.
//!
//! Vector components are carried as the bit patterns of 32-bit floats;
//! the library never computes with them, it only counts, stores and
//! forwards them.

use vstd::prelude::*;
use crate::value::Val;
use crate::record::Record;
use crate::json::json_text;
use crate::chars::chars_to_string;

verus! {

broadcast use vstd::std_specs::vec::group_vec_axioms;

/// A record paired with a freshly minted identifier and its embedding
/// vector (one `u32` per 32-bit float component).
pub struct PreparedRecord {
    pub table: Vec<char>,
    pub id: Vec<char>,
    pub vector: Vec<u32>,
    pub meta: Record,
}

/// Why an embedding batch was refused.
#[derive(Debug)]
pub enum EmbedError {
    /// The provider returned a different number of vectors than texts.
    CountMismatch { expected: usize, got: usize },
    /// A returned vector has the wrong number of components.
    DimensionMismatch { expected: usize, got: usize },
}

impl EmbedError {
    /// A short description of the failure.
    pub fn message(&self) -> (r: String)
        ensures
            true,
    {
        match self {
            EmbedError::CountMismatch { .. } => {
                let v = crate::chars::str_to_chars(
                    "embedding provider returned a mismatched vector count",
                );
                chars_to_string(v.as_slice())
            },
            EmbedError::DimensionMismatch { .. } => {
                let v = crate::chars::str_to_chars(
                    "embedding provider returned a vector of the wrong dimension",
                );
                chars_to_string(v.as_slice())
            },
        }
    }
}

/// Relies on uuid::Uuid::new_v4 and its hyphenated rendering: a fresh
/// random version-4 identifier, always 36 characters long.
#[verifier::external_body]
pub(crate) fn mint_id() -> (r: Vec<char>)
    ensures
        r@.len() == 36,
{
    uuid::Uuid::new_v4().to_string().chars().collect()
}

/// The embedding text of a record: `key: <json value>` pairs joined by
/// commas, in field order.
pub open spec fn spec_rec_text(fields: Seq<(Seq<char>, Val)>) -> Seq<char>
    decreases fields.len(),
{
    if fields.len() == 0 {
        Seq::empty()
    } else if fields.len() == 1 {
        fields[0].0 + seq![':', ' '] + json_text(fields[0].1)
    } else {
        spec_rec_text(fields.drop_last()) + seq![',', ' '] + fields.last().0 + seq![':', ' ']
            + json_text(fields.last().1)
    }
}

/// Exact computation of `spec_rec_text` over a record's fields.
#[verifier::loop_isolation(false)]
pub fn record_text(rec: &Record) -> (r: Vec<char>)
    ensures
        r@ == spec_rec_text(rec.fdv()),
{
    let mut out: Vec<char> = Vec::new();
    let ghost fields = rec.fdv();
    let mut i: usize = 0;
    while i < rec.fields.len()
        invariant
            0 <= i <= rec.fields@.len(),
            out@ == spec_rec_text(fields.subrange(0, i as int)),
        decreases rec.fields@.len() - i,
    {
        if i > 0 {
            out.push(',');
            out.push(' ');
        }
        crate::chars::push_range(&rec.fields[i].0, 0, rec.fields[i].0.len(), &mut out);
        out.push(':');
        out.push(' ');
        crate::json::push_json(&rec.fields[i].1, &mut out);
        proof {
            assert(fields.subrange(0, i + 1).drop_last() =~= fields.subrange(0, i as int));
            assert(fields.subrange(0, i + 1).last() == fields[i as int]);
            assert(rec.fields[i as int].0@.subrange(0, rec.fields[i as int].0@.len() as int) =~= fields[
                i as int].0);
            assert(out@ =~= spec_rec_text(fields.subrange(0, i + 1)));
        }
        i += 1;
    }
    proof {
        assert(fields.subrange(0, fields.len() as int) =~= fields);
    }
    out
}

/// The wire plan for an embedding provider: which endpoint to drive and
/// with what.
pub enum ProviderPlan {
    /// The Ollama embeddings endpoint.
    Ollama { url: Vec<char> },
    /// The text-embeddings-inference endpoint.
    Tei { url: Vec<char> },
    /// The Google endpoint, keyed per request.
    Google { model: Vec<char>, task_type: Vec<char> },
}

/// Everything up to and including the last character of `s` that is not
/// a trailing slash.
pub open spec fn spec_rtrim_slash(s: Seq<char>) -> Seq<char> {
    s.subrange(0, crate::parser::spec_rskip_char(s, s.len() as int, '/'))
}

/// The base with `suffix` appended unless it already ends with it,
/// trailing slashes dropped before appending.
pub open spec fn spec_with_suffix(base: Seq<char>, suffix: Seq<char>) -> Seq<char> {
    if crate::chars::ends_with(base, suffix) {
        base
    } else {
        spec_rtrim_slash(base) + suffix
    }
}

/// The model name with every leading `models/` prefix dropped.
pub open spec fn spec_strip_models(s: Seq<char>) -> Seq<char>
    decreases s.len(),
{
    if crate::chars::starts_with(s, "models/"@) && "models/"@.len() > 0 {
        spec_strip_models(s.subrange("models/"@.len() as int, s.len() as int))
    } else {
        s
    }
}

/// Append `suffix` to `base` unless it already ends with it, trailing
/// slashes dropped; exact.
#[verifier::loop_isolation(false)]
pub fn with_suffix(base: &Vec<char>, suffix: &Vec<char>) -> (r: Vec<char>)
    ensures
        r@ == spec_with_suffix(base@, suffix@),
{
    if crate::chars::finishes_with(base, suffix.as_slice()) {
        return crate::value::clone_chars(base);
    }
    let mut b: usize = base.len();
    while b > 0 && base[b - 1] == '/'
        invariant
            0 <= b <= base@.len(),
            crate::parser::spec_rskip_char(base@, base@.len() as int, '/')
                == crate::parser::spec_rskip_char(base@, b as int, '/'),
        decreases b,
    {
        b -= 1;
    }
    let mut out = crate::chars::copy_range(base, 0, b);
    crate::chars::push_range(suffix, 0, suffix.len(), &mut out);
    proof {
        assert(out@ =~= spec_rtrim_slash(base@) + suffix@);
    }
    out
}

/// Drop every leading `models/` prefix of the model name; exact.
#[verifier::loop_isolation(false)]
pub fn strip_models_prefix(model: &Vec<char>) -> (r: Vec<char>)
    ensures
        r@ == spec_strip_models(model@),
{
    let pat = crate::chars::str_to_chars("models/");
    proof {
        reveal_strlit("models/");
    }
    let mut cur = crate::value::clone_chars(model);
    loop
        invariant
            pat@ == "models/"@,
            spec_strip_models(model@) == spec_strip_models(cur@),
        decreases cur@.len(),
    {
        if crate::chars::begins_with(&cur, pat.as_slice()) {
            let rest = crate::chars::copy_range(&cur, pat.len(), cur.len());
            proof {
                assert(rest@ == cur@.subrange("models/"@.len() as int, cur@.len() as int));
            }
            cur = rest;
        } else {
            return cur;
        }
    }
}

/// Choose the provider plan for a configuration: `ollama` and `tei` get
/// their endpoint (defaulted and suffixed), `google` its model (prefix
/// dropped) and task type and is refused without an API key; any other
/// name is refused.  The refusal is exact; the chosen endpoint and model
/// follow `spec_with_suffix` and `spec_strip_models`.
#[verifier::loop_isolation(false)]
pub fn plan_provider(
    provider: &Vec<char>,
    url: Option<Vec<char>>,
    model: &Vec<char>,
    task_type: &Vec<char>,
    has_api_key: bool,
) -> (r: Option<ProviderPlan>)
    ensures
        ({
            let name = crate::db::lower_seq(provider@);
            match r {
                Some(plan) => match plan {
                    ProviderPlan::Ollama { url: u } => name == "ollama"@ && u@ == spec_with_suffix(
                        (match url {
                            Some(b) => b@,
                            None => "http://localhost:11434"@,
                        }),
                        "/api/embeddings"@,
                    ),
                    ProviderPlan::Tei { url: u } => name == "tei"@ && u@ == spec_with_suffix(
                        (match url {
                            Some(b) => b@,
                            None => "http://localhost:8080"@,
                        }),
                        "/embed"@,
                    ),
                    ProviderPlan::Google { model: m, task_type: t } => name == "google"@
                        && has_api_key && m@ == spec_strip_models(model@) && t@ == task_type@,
                },
                None => !(name == "ollama"@ || name == "tei"@ || (name == "google"@
                    && has_api_key)),
            }
        }),
{
    let name = crate::db::to_ascii_lower(provider);
    if crate::parser::eq_lit(&name, "ollama") {
        let base = match url {
            Some(b) => b,
            None => crate::chars::str_to_chars("http://localhost:11434"),
        };
        let suffix = crate::chars::str_to_chars("/api/embeddings");
        return Some(ProviderPlan::Ollama { url: with_suffix(&base, &suffix) });
    }
    if crate::parser::eq_lit(&name, "tei") {
        let base = match url {
            Some(b) => b,
            None => crate::chars::str_to_chars("http://localhost:8080"),
        };
        let suffix = crate::chars::str_to_chars("/embed");
        return Some(ProviderPlan::Tei { url: with_suffix(&base, &suffix) });
    }
    if crate::parser::eq_lit(&name, "google") {
        if !has_api_key {
            return None;
        }
        return Some(
            ProviderPlan::Google {
                model: strip_models_prefix(model),
                task_type: crate::value::clone_chars(task_type),
            },
        );
    }
    None
}

/// Assemble a provider's per-item results into one batch: every item
/// must carry a vector; a missing item refuses the whole batch, so no
/// vector is ever fabricated for it.
#[verifier::loop_isolation(false)]
pub fn collect_item_vectors(items: Vec<Option<Vec<u32>>>) -> (r: Result<Vec<Vec<u32>>, EmbedError>)
    ensures
        (match r {
            Ok(vs) => {
                &&& vs@.len() == items@.len()
                &&& forall|i: int|
                    0 <= i < items@.len() ==> ((#[trigger] items@[i]) matches Some(v) && vs@[i]@
                        == v@)
            },
            Err(_) => exists|i: int| 0 <= i < items@.len() && (#[trigger] items@[i]) is None,
        }),
{
    let ghost src = items@;
    let total = items.len();
    let mut items = items;
    let mut out: Vec<Vec<u32>> = Vec::new();
    let mut i: usize = 0;
    while items.len() > 0
        invariant
            0 <= i <= src.len(),
            total == src.len(),
            items@ =~= src.subrange(i as int, src.len() as int),
            out@.len() == i,
            forall|j: int|
                0 <= j < i ==> ((#[trigger] src[j]) matches Some(v) && out@[j]@ == v@),
        decreases items@.len(),
    {
        let item = items.remove(0);
        assert(item == src[i as int]);
        match item {
            Some(v) => {
                out.push(v);
                i += 1;
                assert(items@ =~= src.subrange(i as int, src.len() as int));
            },
            None => {
                proof {
                    assert(src[i as int] is None);
                }
                return Err(EmbedError::CountMismatch { expected: total, got: i });
            },
        }
    }
    Ok(out)
}

/// The views of a vector of component vectors.
pub open spec fn vec_views(v: Seq<Vec<u32>>) -> Seq<Seq<u32>> {
    Seq::new(v.len(), |i: int| if 0 <= i < v.len() { v[i]@ } else { Seq::empty() })
}

/// Pair one chunk of records with the vectors the provider returned for
/// it.  The pairing is refused — and nothing is prepared — when the
/// count differs from the chunk size or any vector misses the configured
/// dimension; otherwise every record keeps its position, its table and
/// its fields, gains a fresh 36-character identifier, and carries a
/// vector of exactly `dim` components.
#[verifier::loop_isolation(false)]
pub fn prepare_chunk(chunk: Vec<Record>, embeddings: Vec<Vec<u32>>, dim: usize) -> (r: Result<
    Vec<PreparedRecord>,
    EmbedError,
>)
    ensures
        (match r {
            Ok(prs) => {
                &&& embeddings@.len() == chunk@.len()
                &&& prs@.len() == chunk@.len()
                &&& forall|i: int|
                    0 <= i < prs@.len() ==> {
                        let p = #[trigger] prs@[i];
                        &&& p.vector@ == vec_views(embeddings@)[i]
                        &&& p.vector@.len() == dim
                        &&& p.meta == chunk@[i]
                        &&& p.table@ == chunk@[i].table@
                        &&& p.id@.len() == 36
                    }
            },
            Err(EmbedError::CountMismatch { .. }) => embeddings@.len() != chunk@.len(),
            Err(EmbedError::DimensionMismatch { .. }) => embeddings@.len() == chunk@.len()
                && exists|i: int|
                0 <= i < embeddings@.len() && (#[trigger] embeddings@[i])@.len() != dim,
        }),
{
    if embeddings.len() != chunk.len() {
        return Err(EmbedError::CountMismatch { expected: chunk.len(), got: embeddings.len() });
    }
    let mut k: usize = 0;
    while k < embeddings.len()
        invariant
            0 <= k <= embeddings@.len(),
            forall|i: int| 0 <= i < k ==> (#[trigger] embeddings@[i])@.len() == dim,
        decreases embeddings@.len() - k,
    {
        if embeddings[k].len() != dim {
            return Err(
                EmbedError::DimensionMismatch { expected: dim, got: embeddings[k].len() },
            );
        }
        k += 1;
    }
    let ghost echunk = chunk@;
    let ghost eemb = embeddings@;
    let mut chunk = chunk;
    let mut embeddings = embeddings;
    let mut out: Vec<PreparedRecord> = Vec::new();
    let mut i: usize = 0;
    while chunk.len() > 0 && embeddings.len() > 0
        invariant
            0 <= i <= echunk.len(),
            echunk.len() == eemb.len(),
            chunk@ =~= echunk.subrange(i as int, echunk.len() as int),
            embeddings@ =~= eemb.subrange(i as int, eemb.len() as int),
            out@.len() == i,
            forall|j: int| 0 <= j < eemb.len() ==> (#[trigger] eemb[j])@.len() == dim,
            forall|j: int|
                0 <= j < i ==> {
                    let p = #[trigger] out@[j];
                    &&& p.vector@ == eemb[j]@
                    &&& p.meta == echunk[j]
                    &&& p.table@ == echunk[j].table@
                    &&& p.id@.len() == 36
                },
        decreases chunk@.len(),
    {
        let rec = chunk.remove(0);
        let vector = embeddings.remove(0);
        assert(rec == echunk[i as int]);
        assert(vector == eemb[i as int]);
        let id = mint_id();
        let table = crate::value::clone_chars(&rec.table);
        out.push(PreparedRecord { table, id, vector, meta: rec });
        i += 1;
        assert(chunk@ =~= echunk.subrange(i as int, echunk.len() as int));
        assert(embeddings@ =~= eemb.subrange(i as int, eemb.len() as int));
    }
    proof {
        assert forall|j: int| 0 <= j < out@.len() implies (#[trigger] out@[j]).vector@ == vec_views(
            eemb,
        )[j] by {}
    }
    Ok(out)
}

/// The records chunk `c` spans: all of `chunk_size` except a shorter tail.
pub open spec fn chunk_span(n: int, cs: int, c: int) -> int {
    if (c + 1) * cs <= n {
        cs
    } else {
        n - c * cs
    }
}

/// What the provider answered for chunk `c`: nothing, past the end.
pub open spec fn resp_at(responses: Seq<Vec<Vec<u32>>>, c: int) -> Seq<Vec<u32>> {
    if 0 <= c < responses.len() {
        responses[c]@
    } else {
        Seq::empty()
    }
}

/// Chunk `c` was answered well: one vector per record of the chunk, each
/// of dimension `dim`.
pub open spec fn chunk_ok(
    n: int,
    cs: int,
    responses: Seq<Vec<Vec<u32>>>,
    dim: int,
    c: int,
) -> bool {
    &&& resp_at(responses, c).len() == chunk_span(n, cs, c)
    &&& forall|k: int|
        0 <= k < resp_at(responses, c).len() ==> (#[trigger] resp_at(responses, c)[k])@.len()
            == dim
}

/// The vector the provider returned for overall record position `j`.
pub open spec fn expected_vec(responses: Seq<Vec<Vec<u32>>>, cs: int, j: int) -> Vec<u32> {
    resp_at(responses, j / cs)[j % cs]
}

/// The chunk and offset of a flat record position.
proof fn lemma_div_index(cold: int, cs: int, k: int)
    requires
        cs >= 1,
        0 <= k < cs,
        cold >= 0,
    ensures
        (cold * cs + k) / cs == cold,
        (cold * cs + k) % cs == k,
{
    vstd::arithmetic::div_mod::lemma_fundamental_div_mod_converse(cold * cs + k, cs, cold, k);
}

/// Multiplying by a positive chunk size preserves strict order.
proof fn lemma_mul_lt(a: int, b: int, cs: int)
    requires
        cs >= 1,
        a * cs < b * cs,
    ensures
        a < b,
{
    if a >= b {
        assert(a * cs >= b * cs) by (nonlinear_arith)
            requires
                cs >= 1 && a >= b,
        ;
    }
}

/// Pair every chunk of records with the vectors returned for it.  The
/// records are cut into chunks of at most `chunk_size`; `responses[c]`
/// holds what the provider returned for chunk `c`.  The run succeeds
/// exactly when every chunk was answered with one vector per record, all
/// of dimension `dim`; then every record keeps its position, table and
/// fields, gains a fresh 36-character identifier, and carries exactly
/// the vector the provider returned for it.  Any mismatch refuses the
/// whole run: no partial result is handed on.
#[verifier::loop_isolation(false)]
pub fn process_records_with_embeddings(
    records: Vec<Record>,
    responses: Vec<Vec<Vec<u32>>>,
    chunk_size: usize,
    dim: usize,
) -> (r: Result<Vec<PreparedRecord>, EmbedError>)
    requires
        chunk_size >= 1,
    ensures
        r is Ok <==> (forall|c: int|
            c >= 0 && c * (chunk_size as int) < records@.len() ==> chunk_ok(
                records@.len() as int,
                chunk_size as int,
                responses@,
                dim as int,
                c,
            )),
        (match r {
            Ok(prs) => {
                &&& prs@.len() == records@.len()
                &&& forall|i: int|
                    0 <= i < prs@.len() ==> {
                        let p = #[trigger] prs@[i];
                        &&& p.vector@.len() == dim
                        &&& p.meta == records@[i]
                        &&& p.table@ == records@[i].table@
                        &&& p.id@.len() == 36
                    }
                &&& forall|c: int, k: int|
                    c >= 0 && c * (chunk_size as int) < records@.len() && 0 <= k < chunk_span(
                        records@.len() as int,
                        chunk_size as int,
                        c,
                    ) ==> (#[trigger] prs@[c * (chunk_size as int) + k]).vector@ == resp_at(
                        responses@,
                        c,
                    )[k]@
            },
            Err(_) => true,
        }),
{
    let ghost erecs = records@;
    let ghost eresp = responses@;
    let ghost n = records@.len() as int;
    let ghost cs = chunk_size as int;
    let mut rest = records;
    let mut resp_rest = responses;
    let mut out: Vec<PreparedRecord> = Vec::new();
    let mut done: usize = 0;
    let ghost mut c: int = 0;
    while rest.len() > 0
        invariant
            0 <= done <= erecs.len(),
            c >= 0,
            done as int == c * cs || (done == erecs.len() && c * cs > n),
            rest@ =~= erecs.subrange(done as int, erecs.len() as int),
            resp_rest@ =~= eresp.subrange(
                if c <= eresp.len() {
                    c
                } else {
                    eresp.len() as int
                },
                eresp.len() as int,
            ),
            out@.len() == done,
            chunk_size >= 1,
            forall|c2: int| 0 <= c2 < c ==> chunk_ok(n, cs, eresp, dim as int, c2),
            forall|j: int|
                0 <= j < done ==> {
                    let p = #[trigger] out@[j];
                    &&& p.vector@.len() == dim
                    &&& p.meta == erecs[j]
                    &&& p.table@ == erecs[j].table@
                    &&& p.id@.len() == 36
                },
            forall|j: int|
                0 <= j < done ==> (#[trigger] out@[j]).vector@ == expected_vec(eresp, cs, j)@,
        decreases rest@.len(),
    {
        proof {
            if done as int != c * cs {
                assert(false);
            }
        }
        let take = if rest.len() < chunk_size {
            rest.len()
        } else {
            chunk_size
        };
        proof {
            assert((c + 1) * cs == c * cs + cs) by (nonlinear_arith);
            assert(take as int == chunk_span(n, cs, c));
        }
        let mut chunk: Vec<Record> = Vec::new();
        let mut t: usize = 0;
        while t < take
            invariant
                0 <= t <= take,
                take + done <= erecs.len(),
                rest@ =~= erecs.subrange(done + t, erecs.len() as int),
                chunk@.len() == t,
                forall|j: int| 0 <= j < t ==> #[trigger] chunk@[j] == erecs[done + j],
            decreases take - t,
        {
            let rec = rest.remove(0);
            assert(rec == erecs[done + t]);
            chunk.push(rec);
            t += 1;
            assert(rest@ =~= erecs.subrange(done + t, erecs.len() as int));
        }
        let vectors: Vec<Vec<u32>> = if resp_rest.len() > 0 {
            let v = resp_rest.remove(0);
            proof {
                assert(v@ == resp_at(eresp, c));
            }
            v
        } else {
            let v: Vec<Vec<u32>> = Vec::new();
            proof {
                assert(c >= eresp.len());
                assert(v@ =~= resp_at(eresp, c));
            }
            v
        };
        let ghost vview = vectors@;
        match prepare_chunk(chunk, vectors, dim) {
            Ok(mut prs) => {
                proof {
                    assert(chunk_ok(n, cs, eresp, dim as int, c)) by {
                        assert(resp_at(eresp, c) == vview);
                        assert forall|k: int|
                            0 <= k < vview.len() implies (#[trigger] vview[k])@.len() == dim by {
                            assert(prs@[k].vector@ == vec_views(vview)[k]);
                        }
                    }
                }
                let ghost pre = out@;
                let ghost pview = prs@;
                let ghost cold = c;
                proof {
                    assert forall|j: int|
                        #![trigger pre[j]]
                        0 <= j < pre.len() implies pre[j].vector@ == expected_vec(
                        eresp,
                        cs,
                        j,
                    )@ by {
                        assert(out@[j] == pre[j]);
                    }
                }
                let n2 = prs.len();
                out.append(&mut prs);
                done = out.len();
                proof {
                    c = c + 1;
                    assert(n2 == take);
                    assert(out@ =~= pre + pview);
                    assert forall|j: int|
                        0 <= j < done implies (#[trigger] out@[j]).vector@ == expected_vec(
                        eresp,
                        cs,
                        j,
                    )@ by {
                        if j < pre.len() {
                            assert(out@[j] == pre[j]);
                            assert(pre[j].vector@ == expected_vec(eresp, cs, j)@);
                        } else {
                            let k = j - pre.len();
                            assert(out@[j] == pview[k]);
                            assert(pview[k].vector@ == vec_views(vview)[k]);
                            assert(vec_views(vview)[k] == vview[k]@);
                            lemma_div_index(cold, cs, k);
                            assert(vview == resp_at(eresp, cold));
                        }
                    }
                }
            },
            Err(e) => {
                proof {
                    assert(!chunk_ok(n, cs, eresp, dim as int, c)) by {
                        assert(resp_at(eresp, c) == vview);
                        match e {
                            EmbedError::CountMismatch { .. } => {},
                            EmbedError::DimensionMismatch { .. } => {
                                let bad = choose|k: int|
                                    0 <= k < vview.len() && (#[trigger] vview[k])@.len() != dim;
                                assert(resp_at(eresp, c)[bad]@.len() != dim);
                            },
                        }
                    }
                    assert(c * cs < n);
                }
                return Err(e);
            },
        }
    }
    proof {
        assert(done == erecs.len());
        assert forall|c2: int|
            c2 >= 0 && c2 * cs < n implies chunk_ok(n, cs, eresp, dim as int, c2) by {
            if c2 >= c {
                assert(c * cs <= c2 * cs) by (nonlinear_arith)
                    requires
                        c <= c2 && cs >= 1,
                ;
                assert(false);
            }
        }
        assert(records@ == erecs);
        assert(responses@ == eresp);
        assert(records@.len() as int == n);
        assert(chunk_size as int == cs);
        assert forall|c2: int, k: int|
            c2 >= 0 && c2 * (chunk_size as int) < records@.len() && 0 <= k < chunk_span(
                records@.len() as int,
                chunk_size as int,
                c2,
            ) implies (#[trigger] out@[c2 * (chunk_size as int) + k]).vector@ == resp_at(
            responses@,
            c2,
        )[k]@ by {
            let j = c2 * cs + k;
            assert((c2 + 1) * cs == c2 * cs + cs) by (nonlinear_arith);
            if (c2 + 1) * cs <= n {
                assert(k < cs);
                assert(j < n);
            } else {
                assert(k < n - c2 * cs);
                assert(j < n);
                assert(k < cs);
            }
            assert(out@[j].vector@ == expected_vec(eresp, cs, j)@);
            lemma_div_index(c2, cs, k);
            assert(expected_vec(eresp, cs, j) == resp_at(eresp, c2)[k]);
            assert(c2 * (chunk_size as int) + k == j);
        }
    }
    Ok(out)
}

} // verus!
