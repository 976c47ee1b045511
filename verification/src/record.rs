//! Records: the typed rows the parsers emit.
//!
//! A record is a source-table name together with at least one named field.
//! Construction enforces the emission rules shared by all dialect parsers:
//! the table name is non-empty, any field whose case-insensitive name is
//! `id` is removed, and a record left without fields is dropped.

use vstd::prelude::*;
use crate::value::{Value, Val, dvf};
use crate::html::{clean_html_in_value, spec_clean};

verus! {

broadcast use vstd::std_specs::vec::group_vec_axioms;

/// ASCII lower case of a character.
pub open spec fn ascii_lower(c: char) -> char {
    if 'A' <= c && c <= 'Z' {
        (((c as u8) + 32) as u8) as char
    } else {
        c
    }
}

/// The field name is `id`, compared without regard to ASCII case.
pub open spec fn is_id_key(k: Seq<char>) -> bool {
    k.len() == 2 && ascii_lower(k[0]) == 'i' && ascii_lower(k[1]) == 'd'
}

/// Exact test for `is_id_key`.
pub fn id_key(k: &Vec<char>) -> (r: bool)
    ensures
        r == is_id_key(k@),
{
    if k.len() != 2 {
        return false;
    }
    let a = k[0];
    let b = k[1];
    (a == 'i' || a == 'I') && (b == 'd' || b == 'D')
}

/// A parsed row: its source table and its named fields.
pub struct Record {
    pub table: Vec<char>,
    pub fields: Vec<(Vec<char>, Value)>,
}

/// The emission rules: non-empty table, at least one field, no `id` field.
pub open spec fn wf_fields(fields: Seq<(Seq<char>, Val)>) -> bool {
    forall|i: int| 0 <= i < fields.len() ==> !is_id_key(#[trigger] fields[i].0)
}

impl Record {
    /// The record meets the emission rules.
    pub open spec fn wf(self) -> bool {
        self.table@.len() > 0 && dvf(self.fields@).len() >= 1 && wf_fields(dvf(self.fields@))
    }

    /// The mathematical fields of the record.
    pub open spec fn fdv(self) -> Seq<(Seq<char>, Val)> {
        dvf(self.fields@)
    }
}

/// The fields kept by the emission rules: every field not named `id`.
pub open spec fn keep_fields(fields: Seq<(Seq<char>, Val)>) -> Seq<(Seq<char>, Val)> {
    fields.filter(|p: (Seq<char>, Val)| !is_id_key(p.0))
}

/// Remove every field whose case-insensitive name is `id`; exact filter.
pub fn strip_id_fields(fields: Vec<(Vec<char>, Value)>) -> (r: Vec<(Vec<char>, Value)>)
    ensures
        dvf(r@) == keep_fields(dvf(fields@)),
{
    let ghost pred = |p: (Seq<char>, Val)| !is_id_key(p.0);
    let mut out: Vec<(Vec<char>, Value)> = Vec::new();
    let mut i: usize = 0;
    proof {
        reveal_with_fuel(Seq::filter, 2);
        assert(dvf(fields@.subrange(0, 0)).filter(pred) =~= Seq::<(Seq<char>, Val)>::empty());
    }
    while i < fields.len()
        invariant
            0 <= i <= fields@.len(),
            pred == (|p: (Seq<char>, Val)| !is_id_key(p.0)),
            dvf(out@) =~= dvf(fields@.subrange(0, i as int)).filter(pred),
        decreases fields@.len() - i,
    {
        let keep = !id_key(&fields[i].0);
        proof {
            reveal_with_fuel(Seq::filter, 2);
            assert(dvf(fields@.subrange(0, i + 1)).drop_last() =~= dvf(
                fields@.subrange(0, i as int),
            ));
            assert(dvf(fields@.subrange(0, i + 1)).last() == (fields@[i as int].0@, fields@[
                i as int].1.dv()));
        }
        if keep {
            let k2 = crate::value::clone_chars(&fields[i].0);
            let v2 = crate::value::clone_value(&fields[i].1);
            out.push((k2, v2));
            assert(dvf(out@) =~= dvf(fields@.subrange(0, i + 1)).filter(pred));
        } else {
            assert(dvf(out@) =~= dvf(fields@.subrange(0, i + 1)).filter(pred));
        }
        i += 1;
    }
    assert(fields@.subrange(0, fields@.len() as int) =~= fields@);
    assert(dvf(out@) =~= dvf(fields@).filter(pred));
    assert(keep_fields(dvf(fields@)) == dvf(fields@).filter(pred));
    out
}

/// Build a record for `table` from raw parsed fields: `id` fields are
/// removed; the record is refused when the table name is empty or no field
/// is left.  Exactly the emission rule shared by every dialect parser.
pub fn mk_record(table: Vec<char>, fields: Vec<(Vec<char>, Value)>) -> (r: Option<Record>)
    ensures
        (match r {
            Some(rec) => {
                &&& rec.wf()
                &&& rec.table@ == table@
                &&& rec.fdv() == keep_fields(dvf(fields@))
            },
            None => table@.len() == 0 || keep_fields(dvf(fields@)).len() == 0,
        }),
{
    if table.len() == 0 {
        return None;
    }
    let kept = strip_id_fields(fields);
    if kept.len() == 0 {
        assert(dvf(kept@).len() == 0);
        return None;
    }
    let rec = Record { table, fields: kept };
    proof {
        assert(rec.fdv() == dvf(fields@).filter(|p: (Seq<char>, Val)| !is_id_key(p.0)));
        assert forall|i: int|
            0 <= i < rec.fdv().len() implies !is_id_key(#[trigger] rec.fdv()[i].0) by {
            dvf(fields@).lemma_filter_pred(|p: (Seq<char>, Val)| !is_id_key(p.0), i);
        }
    }
    Some(rec)
}

/// Clean every marked-up string in the record's field values; the field
/// names and their order stay as they are.
pub fn clean_record_fields(fields: Vec<(Vec<char>, Value)>) -> (r: Vec<(Vec<char>, Value)>)
    ensures
        dvf(r@).len() == dvf(fields@).len(),
        forall|i: int| 0 <= i < dvf(fields@).len() ==> #[trigger] dvf(r@)[i] == (
            dvf(fields@)[i].0,
            spec_clean(dvf(fields@)[i].1),
        ),
{
    let ghost src = dvf(fields@);
    let packed = Value::Obj(fields);
    let ghost pdv = packed.dv();
    let cleaned = clean_html_in_value(packed);
    let ghost cdv = cleaned.dv();
    match cleaned {
        Value::Obj(f) => {
            proof {
                assert(cdv == spec_clean(pdv));
                assert(cdv->Obj_0 =~= dvf(f@));
                assert forall|i: int| 0 <= i < src.len() implies #[trigger] dvf(f@)[i] == (
                    src[i].0,
                    spec_clean(src[i].1),
                ) by {
                    assert(cdv->Obj_0[i] == spec_clean(pdv)->Obj_0[i]);
                }
            }
            f
        },
        _ => {
            proof {
                assert(cdv == spec_clean(pdv));
                assert(spec_clean(pdv) matches Val::Obj(_));
                assert(false);
            }
            Vec::new()
        },
    }
}

/// The mathematical shape of an emitted record: its table and fields.
pub open spec fn rec_view(r: Record) -> (Seq<char>, Seq<(Seq<char>, Val)>) {
    (r.table@, r.fdv())
}

/// The emission rule shared by every dialect parser, over mathematical
/// values: clean every field value, drop `id` fields, and emit one record
/// unless the table name is empty or no field is left.
pub open spec fn emit_record(table: Seq<char>, fields: Seq<(Seq<char>, Val)>) -> Seq<
    (Seq<char>, Seq<(Seq<char>, Val)>),
> {
    let cleaned = Seq::new(
        fields.len(),
        |i: int| if 0 <= i < fields.len() {
            (fields[i].0, spec_clean(fields[i].1))
        } else {
            (Seq::empty(), Val::Null)
        },
    );
    let kept = keep_fields(cleaned);
    if table.len() > 0 && kept.len() >= 1 {
        seq![(table, kept)]
    } else {
        Seq::empty()
    }
}

/// The records match the mathematical parse, one for one, in order.
pub open spec fn recs_match(
    recs: Seq<Record>,
    spec: Seq<(Seq<char>, Seq<(Seq<char>, Val)>)>,
) -> bool {
    recs.len() == spec.len() && forall|i: int|
        0 <= i < recs.len() ==> rec_view(#[trigger] recs[i]) == spec[i]
}

/// Clean the raw fields and build the record for `table`, exactly as
/// `emit_record` states it.
pub fn build_record(table: Vec<char>, fields: Vec<(Vec<char>, Value)>) -> (r: Option<Record>)
    ensures
        (match r {
            Some(rec) => rec.wf() && emit_record(table@, dvf(fields@)) == seq![
                (rec.table@, rec.fdv()),
            ],
            None => emit_record(table@, dvf(fields@)) == Seq::<
                (Seq<char>, Seq<(Seq<char>, Val)>),
            >::empty(),
        }),
{
    let ghost fv = dvf(fields@);
    let cleaned = clean_record_fields(fields);
    proof {
        assert(dvf(cleaned@) =~= Seq::new(
            fv.len(),
            |i: int| if 0 <= i < fv.len() {
                (fv[i].0, spec_clean(fv[i].1))
            } else {
                (Seq::empty(), Val::Null)
            },
        ));
    }
    let r = mk_record(table, cleaned);
    proof {
        match &r {
            Some(rec) => {
                assert(emit_record(table@, fv) =~= seq![(rec.table@, rec.fdv())]);
            },
            None => {
                assert(emit_record(table@, fv) =~= Seq::<
                    (Seq<char>, Seq<(Seq<char>, Val)>),
                >::empty());
            },
        }
    }
    r
}

} // verus!
