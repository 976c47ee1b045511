//! Grouping and batching of prepared records for the drivers.
//!
//! Prepared records are grouped by source table, then each group is cut
//! into contiguous batches of at most `cap` records whose serialized
//! sizes sum to at most the payload budget, an oversized single record
//! standing alone.

use vstd::prelude::*;
use crate::value::{Val, Value, dvf};
use crate::record::Record;
use crate::json::json_text;
use crate::embed::PreparedRecord;

verus! {

broadcast use vstd::std_specs::vec::group_vec_axioms;

/// The metadata value a driver sees for a record: its fields together
/// with the `table` entry, as one mapping.
pub open spec fn meta_val(rec: Record) -> Val {
    Val::Obj(seq![("table"@, Val::Str(rec.table@))] + rec.fdv())
}

/// Build the metadata value of a record.
#[verifier::loop_isolation(false)]
pub fn meta_value(rec: &Record) -> (r: Value)
    ensures
        r.dv() == meta_val(*rec),
{
    let mut fields: Vec<(Vec<char>, Value)> = Vec::new();
    let tkey = crate::chars::str_to_chars("table");
    let tval = Value::Str(crate::value::clone_chars(&rec.table));
    fields.push((tkey, tval));
    let mut i: usize = 0;
    while i < rec.fields.len()
        invariant
            0 <= i <= rec.fields@.len(),
            dvf(fields@) =~= seq![("table"@, Val::Str(rec.table@))] + rec.fdv().subrange(
                0,
                i as int,
            ),
        decreases rec.fields@.len() - i,
    {
        let k = crate::value::clone_chars(&rec.fields[i].0);
        let v = crate::value::clone_value(&rec.fields[i].1);
        let ghost kp = k@;
        let ghost vd = v.dv();
        let ghost fpre = fields@;
        fields.push((k, v));
        proof {
            let ghost target = seq![("table"@, Val::Str(rec.table@))] + rec.fdv().subrange(
                0,
                i + 1,
            );
            assert(dvf(fields@).len() == i + 2);
            assert(target.len() == i + 2);
            assert forall|j: int| 0 <= j < i + 2 implies dvf(fields@)[j] == target[j] by {
                if j < i + 1 {
                    assert(fields@[j] == fpre[j]);
                    assert(dvf(fields@)[j] == dvf(fpre)[j]);
                    assert(dvf(fpre)[j] == (seq![("table"@, Val::Str(rec.table@))]
                        + rec.fdv().subrange(0, i as int))[j]);
                } else {
                    assert(dvf(fields@)[j] == (kp, vd));
                    assert((kp, vd) == rec.fdv()[i as int]);
                }
            }
            assert(dvf(fields@) =~= target);
        }
        i += 1;
    }
    let out = Value::Obj(fields);
    proof {
        assert(rec.fdv().subrange(0, rec.fdv().len() as int) =~= rec.fdv());
        assert(out.dv()->Obj_0 =~= seq![("table"@, Val::Str(rec.table@))] + rec.fdv());
    }
    out
}

/// The serialized size of one prepared record: identifier bytes, four
/// bytes per vector component, and the JSON text of its metadata.
pub open spec fn rec_size(p: PreparedRecord) -> int {
    p.id@.len() as int + 4 * (p.vector@.len() as int) + json_text(meta_val(p.meta)).len() as int
}

/// The summed serialized size of a batch.
pub open spec fn sum_sizes(b: Seq<PreparedRecord>) -> int
    decreases b.len(),
{
    if b.len() == 0 {
        0
    } else {
        sum_sizes(b.drop_last()) + rec_size(b.last())
    }
}

/// Compute the serialized size of one prepared record; exact, as a wide
/// integer so that sums never wrap.
#[verifier::loop_isolation(false)]
pub fn measure_record(p: &PreparedRecord) -> (r: u128)
    ensures
        r as int == rec_size(*p),
        r <= 6 * (usize::MAX as u128),
{
    let meta = meta_value(&p.meta);
    let mj = crate::json::to_json_chars(&meta);
    (p.id.len() as u128) + 4 * (p.vector.len() as u128) + (mj.len() as u128)
}

/// The concatenation of all batches.
pub open spec fn flatten_batches(bs: Seq<Seq<PreparedRecord>>) -> Seq<PreparedRecord>
    decreases bs.len(),
{
    if bs.len() == 0 {
        Seq::empty()
    } else {
        flatten_batches(bs.drop_last()) + bs.last()
    }
}

/// The views of a vector of batches.
pub open spec fn batch_views(bs: Seq<Vec<PreparedRecord>>) -> Seq<Seq<PreparedRecord>> {
    Seq::new(bs.len(), |i: int| if 0 <= i < bs.len() { bs[i]@ } else { Seq::empty() })
}

/// Cut `items` into contiguous batches, greedily: every batch holds at
/// least one and at most `cap` records; a batch of two or more records
/// fits the byte budget; the batches in order are exactly the input; and
/// a batch ends only because the next record would break the budget or
/// the count ceiling, which pins the boundaries exactly.
#[verifier::loop_isolation(false)]
pub fn plan_batches(items: Vec<PreparedRecord>, max_bytes: usize, cap: usize) -> (r: Vec<
    Vec<PreparedRecord>,
>)
    requires
        cap >= 1,
    ensures
        flatten_batches(batch_views(r@)) == items@,
        forall|b: int|
            0 <= b < r@.len() ==> 1 <= (#[trigger] r@[b])@.len() <= cap,
        forall|b: int|
            0 <= b < r@.len() ==> (sum_sizes((#[trigger] r@[b])@) <= max_bytes as int || r@[b]@.len()
                == 1),
        forall|b: int|
            0 <= b < r@.len() - 1 ==> ((#[trigger] r@[b])@.len() == cap || sum_sizes(r@[b]@)
                + rec_size(r@[b + 1]@[0]) > max_bytes as int),
{
    let ghost src = items@;
    let n0 = items.len();
    assert(src.len() == n0);
    let mut items = items;
    let mut out: Vec<Vec<PreparedRecord>> = Vec::new();
    let mut cur: Vec<PreparedRecord> = Vec::new();
    let mut cur_size: u128 = 0;
    let mut i: usize = 0;
    proof {
        assert(flatten_batches(batch_views(out@)) =~= Seq::<PreparedRecord>::empty());
    }
    while items.len() > 0
        invariant
            0 <= i <= src.len(),
            items@ =~= src.subrange(i as int, src.len() as int),
            cap >= 1,
            cur@.len() <= cap,
            cur_size as int == sum_sizes(cur@),
            cur_size <= (max_bytes as u128) + 6 * (usize::MAX as u128),
            cur@.len() >= 2 ==> cur_size <= max_bytes as u128,
            flatten_batches(batch_views(out@)) + cur@ =~= src.subrange(0, i as int),
            forall|b: int|
                0 <= b < out@.len() ==> 1 <= (#[trigger] out@[b])@.len() <= cap,
            forall|b: int|
                0 <= b < out@.len() ==> (sum_sizes((#[trigger] out@[b])@) <= max_bytes as int
                    || out@[b]@.len() == 1),
            forall|b: int|
                0 <= b < out@.len() - 1 ==> ((#[trigger] out@[b])@.len() == cap || sum_sizes(
                    out@[b]@,
                ) + rec_size(out@[b + 1]@[0]) > max_bytes as int),
            out@.len() > 0 && cur@.len() > 0 ==> (out@[out@.len() - 1]@.len() == cap || sum_sizes(
                out@[out@.len() - 1]@,
            ) + rec_size(cur@[0]) > max_bytes as int),
            cur@.len() == 0 ==> out@.len() == 0,
        decreases items@.len(),
    {
        let p = items.remove(0);
        assert(p == src[i as int]);
        let size = measure_record(&p);
        if cur.len() > 0 && (cur_size + size > max_bytes as u128 || cur.len() >= cap) {
            let ghost pre = batch_views(out@);
            let ghost flushed = cur@;
            out.push(cur);
            proof {
                assert(batch_views(out@) =~= pre.push(flushed));
                assert(batch_views(out@).drop_last() =~= pre);
                assert(flatten_batches(batch_views(out@)) =~= flatten_batches(pre) + flushed);
                assert(flushed.len() == cap || sum_sizes(flushed) + rec_size(p) > max_bytes as int);
                assert forall|b: int| 0 <= b < out@.len() - 1 implies ((#[trigger] out@[b])@.len()
                    == cap || sum_sizes(out@[b]@) + rec_size(out@[b + 1]@[0]) > max_bytes as int) by {
                    if b < out@.len() - 2 {
                        assert(out@[b]@ == pre[b]);
                        assert(out@[b + 1]@ == pre[b + 1]);
                    }
                }
            }
            cur = Vec::new();
            cur_size = 0;
        }
        let ghost curpre = cur@;
        cur.push(p);
        proof {
            assert(cur@.drop_last() =~= curpre);
            assert(cur@.last() == p);
            assert(sum_sizes(cur@) == sum_sizes(curpre) + rec_size(p));
        }
        cur_size = cur_size + size;
        i += 1;
        proof {
            assert(items@ =~= src.subrange(i as int, src.len() as int));
            assert(flatten_batches(batch_views(out@)) + cur@ =~= src.subrange(0, i as int));
        }
    }
    if cur.len() > 0 {
        let ghost pre = batch_views(out@);
        let ghost flushed = cur@;
        out.push(cur);
        proof {
            assert(batch_views(out@) =~= pre.push(flushed));
            assert(batch_views(out@).drop_last() =~= pre);
            assert(flatten_batches(batch_views(out@)) =~= flatten_batches(pre) + flushed);
            assert forall|b: int| 0 <= b < out@.len() - 1 implies ((#[trigger] out@[b])@.len()
                == cap || sum_sizes(out@[b]@) + rec_size(out@[b + 1]@[0]) > max_bytes as int) by {
                if b < out@.len() - 2 {
                    assert(out@[b]@ == pre[b]);
                    assert(out@[b + 1]@ == pre[b + 1]);
                }
            }
        }
    }
    proof {
        assert(src.subrange(0, src.len() as int) =~= src);
        assert(flatten_batches(batch_views(out@)) =~= src);
    }
    out
}

/// Every batch the planner hands to a driver fits the payload budget,
/// as long as each single record does: a batch of two or more fits it by
/// construction, and a lone record fits it by assumption.
pub proof fn lemma_batch_within_budget(b: Seq<PreparedRecord>, max_bytes: int)
    requires
        b.len() >= 1,
        sum_sizes(b) <= max_bytes || b.len() == 1,
        forall|i: int| 0 <= i < b.len() ==> rec_size(#[trigger] b[i]) <= max_bytes,
    ensures
        sum_sizes(b) <= max_bytes,
{
    if b.len() == 1 {
        assert(sum_sizes(b) == sum_sizes(b.drop_last()) + rec_size(b.last()));
        assert(sum_sizes(b.drop_last()) == 0);
        assert(b.last() == b[0]);
    }
}

/// The records of `s` whose table is `key`, in order.
pub open spec fn table_filter(s: Seq<PreparedRecord>, key: Seq<char>) -> Seq<PreparedRecord> {
    s.filter(|q: PreparedRecord| q.table@ == key)
}

/// Appending one record extends exactly the group of its table.
pub proof fn lemma_table_filter_step(s: Seq<PreparedRecord>, p: PreparedRecord, key: Seq<char>)
    ensures
        table_filter(s.push(p), key) == if p.table@ == key {
            table_filter(s, key).push(p)
        } else {
            table_filter(s, key)
        },
{
    reveal(Seq::filter);
    assert(s.push(p).drop_last() =~= s);
    assert(s.push(p).last() == p);
}

/// A sequence with no record of the table filters to nothing.
pub proof fn lemma_table_filter_none(s: Seq<PreparedRecord>, key: Seq<char>)
    requires
        forall|i: int| 0 <= i < s.len() ==> (#[trigger] s[i]).table@ != key,
    ensures
        table_filter(s, key) == Seq::<PreparedRecord>::empty(),
    decreases s.len(),
{
    reveal(Seq::filter);
    if s.len() > 0 {
        assert(s.drop_last() =~= s.subrange(0, s.len() - 1));
        lemma_table_filter_none(s.drop_last(), key);
    }
}

/// Some group of `r` is keyed by `key`.
pub open spec fn has_group(r: Seq<(Vec<char>, Vec<PreparedRecord>)>, key: Seq<char>) -> bool {
    exists|g: int| 0 <= g < r.len() && (#[trigger] r[g]).0@ == key
}

/// The table groups of a prepared batch: one group per table, keyed in
/// order of first appearance; each group holds exactly the records of
/// its table, in the order they were prepared.
#[verifier::loop_isolation(false)]
#[verifier::rlimit(60)]
pub fn group_by_table(items: Vec<PreparedRecord>) -> (r: Vec<(Vec<char>, Vec<PreparedRecord>)>)
    ensures
        forall|g: int, h: int| 0 <= g < h < r@.len() ==> (#[trigger] r@[g]).0@ != (#[trigger] r@[h]).0@,
        forall|g: int|
            0 <= g < r@.len() ==> (#[trigger] r@[g]).1@ == table_filter(items@, r@[g].0@),
        forall|i: int|
            0 <= i < items@.len() ==> has_group(r@, (#[trigger] items@[i]).table@),
{
    let ghost src = items@;
    let n0 = items.len();
    assert(src.len() == n0);
    let mut rest = items;
    let mut groups: Vec<(Vec<char>, Vec<PreparedRecord>)> = Vec::new();
    let mut i: usize = 0;
    while rest.len() > 0
        invariant
            0 <= i <= src.len(),
            rest@ =~= src.subrange(i as int, src.len() as int),
            forall|g: int, h: int|
                0 <= g < h < groups@.len() ==> (#[trigger] groups@[g]).0@ != (
                #[trigger] groups@[h]).0@,
            forall|g: int|
                0 <= g < groups@.len() ==> (#[trigger] groups@[g]).1@ == table_filter(
                    src.subrange(0, i as int),
                    groups@[g].0@,
                ),
            forall|j: int| 0 <= j < i ==> has_group(groups@, (#[trigger] src[j]).table@),
        decreases rest@.len(),
    {
        let p = rest.remove(0);
        assert(p == src[i as int]);
        let ghost pt = p.table@;
        let mut found: bool = false;
        let mut gi: usize = 0;
        while gi < groups.len() && !found
            invariant
                0 <= gi <= groups@.len(),
                found ==> gi >= 1 && gi <= groups@.len() && pt == groups@[gi - 1].0@,
                !found ==> forall|g: int| 0 <= g < gi ==> (#[trigger] groups@[g]).0@ != pt,
            decreases groups@.len() - gi,
        {
            if crate::chars::eq_chars(&groups[gi].0, &p.table) {
                found = true;
            }
            gi += 1;
        }
        let ghost gpre = groups@;
        proof {
            assert(src.subrange(0, i as int).push(p) =~= src.subrange(0, i + 1));
        }
        if found {
            let idx = gi - 1;
            let slot = groups.remove(idx);
            let (key, mut vec0) = slot;
            vec0.push(p);
            let ghost pr: (Vec<char>, Vec<PreparedRecord>) = (key, vec0);
            proof {
                assert(pr.0 == gpre[idx as int].0);
                assert(pr.1@ == gpre[idx as int].1@.push(p));
            }
            groups.insert(idx, (key, vec0));
            proof {
                assert(groups@ =~= gpre.update(idx as int, pr));
                assert forall|g: int|
                    0 <= g < groups@.len() implies (#[trigger] groups@[g]).1@ == table_filter(
                    src.subrange(0, i + 1),
                    groups@[g].0@,
                ) by {
                    lemma_table_filter_step(src.subrange(0, i as int), p, groups@[g].0@);
                    if g == idx {
                        assert(groups@[g].0@ == pt);
                    } else {
                        assert(groups@[g] == gpre[g]);
                        assert(groups@[g].0@ != pt);
                    }
                }
                assert forall|j: int|
                    0 <= j < i + 1 implies has_group(groups@, (#[trigger] src[j]).table@) by {
                    if j == i {
                        assert(groups@[idx as int].0@ == src[j].table@);
                    } else {
                        let g0 = choose|g: int|
                            0 <= g < gpre.len() && (#[trigger] gpre[g]).0@ == src[j].table@;
                        assert(groups@[g0].0@ == src[j].table@);
                    }
                }
            }
        } else {
            let key = crate::value::clone_chars(&p.table);
            let mut vec0: Vec<PreparedRecord> = Vec::new();
            vec0.push(p);
            groups.push((key, vec0));
            proof {
                let last = groups@.len() - 1;
                assert forall|j: int|
                    0 <= j < i implies (#[trigger] src[j]).table@ != pt by {
                    let g0 = choose|g: int|
                        0 <= g < gpre.len() && (#[trigger] gpre[g]).0@ == src[j].table@;
                    assert(gpre[g0].0@ != pt);
                }
                lemma_table_filter_none(src.subrange(0, i as int), pt);
                assert forall|g: int|
                    0 <= g < groups@.len() implies (#[trigger] groups@[g]).1@ == table_filter(
                    src.subrange(0, i + 1),
                    groups@[g].0@,
                ) by {
                    lemma_table_filter_step(src.subrange(0, i as int), p, groups@[g].0@);
                    if g < last {
                        assert(groups@[g] == gpre[g]);
                        assert(groups@[g].0@ != pt);
                    } else {
                        assert(groups@[g].0@ == pt);
                        assert(groups@[g].1@ =~= Seq::<PreparedRecord>::empty().push(p));
                    }
                }
                assert forall|j: int|
                    0 <= j < i + 1 implies has_group(groups@, (#[trigger] src[j]).table@) by {
                    if j == i {
                        assert(groups@[last].0@ == src[j].table@);
                    } else {
                        let g0 = choose|g: int|
                            0 <= g < gpre.len() && (#[trigger] gpre[g]).0@ == src[j].table@;
                        assert(groups@[g0].0@ == src[j].table@);
                    }
                }
            }
        }
        i += 1;
        proof {
            assert(rest@ =~= src.subrange(i as int, src.len() as int));
        }
    }
    proof {
        assert(src.subrange(i as int, src.len() as int).len() == 0);
        assert(i == src.len());
        assert(src.subrange(0, src.len() as int) =~= src);
        assert forall|j: int|
            0 <= j < items@.len() implies has_group(groups@, (#[trigger] items@[j]).table@) by {
            assert(items@[j] == src[j]);
        }
        assert forall|g: int|
            0 <= g < groups@.len() implies (#[trigger] groups@[g]).1@ == table_filter(
            items@,
            groups@[g].0@,
        ) by {
            assert(items@ == src);
        }
    }
    groups
}

} // verus!
