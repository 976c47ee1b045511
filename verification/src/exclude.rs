//! Declarative field-exclusion rules, keyed by table name.
//!
//! The first entry whose table matches a record decides: its rules are
//! applied in order.  A field under an `All(true)` rule is removed; under
//! a `Sub` rule the listed keys are removed from a nested mapping field;
//! every other field — and a record no entry matches — is left unchanged.
//! Entries are looked up by first match, so a duplicate table name in the
//! rules file leaves the later entry without effect.

use vstd::prelude::*;
use crate::value::{Value, Val, dvf, clone_chars, clone_value};
use crate::record::Record;
use crate::chars::eq_chars;

verus! {

broadcast use vstd::std_specs::vec::group_vec_axioms;

/// How a field of a table is excluded: wholly, or by named sub-keys.
pub enum FieldExclude {
    /// Remove the field itself when true.
    All(bool),
    /// Remove the listed keys from a nested mapping field.
    Sub(Vec<Vec<char>>),
}

/// The rules for one table.
pub struct ExcludeEntry {
    pub table: Vec<char>,
    pub ignore_table: bool,
    pub exclude_fields: Vec<(Vec<char>, FieldExclude)>,
}

/// The loaded rule set.
pub struct Excluder {
    pub entries: Vec<ExcludeEntry>,
}

/// Whether some entry for `table` asks for the whole table to be dropped;
/// the first entry for the table decides.
pub open spec fn spec_ignore_table(entries: Seq<ExcludeEntry>, table: Seq<char>) -> bool
    decreases entries.len(),
{
    if entries.len() == 0 {
        false
    } else if entries[0].table@ == table {
        entries[0].ignore_table
    } else {
        spec_ignore_table(entries.drop_first(), table)
    }
}

/// Index of the first entry for `table`, or -1.
pub open spec fn spec_entry_idx(entries: Seq<ExcludeEntry>, table: Seq<char>) -> int
    decreases entries.len(),
{
    if entries.len() == 0 {
        -1
    } else if entries[0].table@ == table {
        0
    } else {
        let r = spec_entry_idx(entries.drop_first(), table);
        if r < 0 {
            -1
        } else {
            r + 1
        }
    }
}

pub proof fn entry_idx_props(entries: Seq<ExcludeEntry>, table: Seq<char>)
    ensures
        spec_entry_idx(entries, table) < 0 ==> forall|j: int|
            0 <= j < entries.len() ==> (#[trigger] entries[j]).table@ != table,
        spec_entry_idx(entries, table) >= 0 ==> {
            let idx = spec_entry_idx(entries, table);
            &&& 0 <= idx < entries.len()
            &&& entries[idx].table@ == table
            &&& forall|j: int| 0 <= j < idx ==> (#[trigger] entries[j]).table@ != table
        },
    decreases entries.len(),
{
    if entries.len() > 0 && entries[0].table@ != table {
        entry_idx_props(entries.drop_first(), table);
        assert(forall|j: int| 1 <= j < entries.len() ==> entries[j] == entries.drop_first()[j - 1]);
    }
}

/// `k` is one of the listed keys.
pub open spec fn key_listed(keys: Seq<Vec<char>>, k: Seq<char>) -> bool {
    exists|i: int| 0 <= i < keys.len() && (#[trigger] keys[i])@ == k
}

/// The fields left after removing every field named `name`.
pub open spec fn drop_field(fields: Seq<(Seq<char>, Val)>, name: Seq<char>) -> Seq<
    (Seq<char>, Val),
> {
    fields.filter(|p: (Seq<char>, Val)| p.0 != name)
}

/// The sub-fields left after removing every listed key.
pub open spec fn strip_keys(sub: Seq<(Seq<char>, Val)>, keys: Seq<Vec<char>>) -> Seq<
    (Seq<char>, Val),
> {
    sub.filter(|q: (Seq<char>, Val)| !key_listed(keys, q.0))
}

/// One rule applied to a record's fields: `All(true)` removes the field;
/// `Sub(keys)` removes the listed keys from a nested mapping under that
/// field; everything else is untouched.
pub open spec fn spec_apply_rule(
    fields: Seq<(Seq<char>, Val)>,
    rule: (Vec<char>, FieldExclude),
) -> Seq<(Seq<char>, Val)> {
    match rule.1 {
        FieldExclude::All(all) => if all {
            drop_field(fields, rule.0@)
        } else {
            fields
        },
        FieldExclude::Sub(keys) => Seq::new(
            fields.len(),
            |i: int| if 0 <= i < fields.len() {
                if fields[i].0 == rule.0@ && fields[i].1 is Obj {
                    (fields[i].0, Val::Obj(strip_keys(fields[i].1->Obj_0, keys@)))
                } else {
                    fields[i]
                }
            } else {
                (Seq::empty(), Val::Null)
            },
        ),
    }
}

/// The rules from position `i` on, applied in order.
pub open spec fn spec_apply_rules(
    fields: Seq<(Seq<char>, Val)>,
    rules: Seq<(Vec<char>, FieldExclude)>,
    i: int,
) -> Seq<(Seq<char>, Val)>
    decreases rules.len() - i,
{
    if !(0 <= i < rules.len()) {
        fields
    } else {
        spec_apply_rules(spec_apply_rule(fields, rules[i]), rules, i + 1)
    }
}

impl Excluder {
    /// A rule set with no entries excludes nothing.
    pub fn new() -> (r: Excluder)
        ensures
            r.entries@.len() == 0,
    {
        Excluder { entries: Vec::new() }
    }

    /// Whether records of `table` are dropped altogether; exact.
    #[verifier::loop_isolation(false)]
    pub fn ignore_table(&self, table: &Vec<char>) -> (r: bool)
        ensures
            r == spec_ignore_table(self.entries@, table@),
    {
        let mut i: usize = 0;
        assert(self.entries@.subrange(0, self.entries@.len() as int) =~= self.entries@);
        while i < self.entries.len()
            invariant
                0 <= i <= self.entries@.len(),
                spec_ignore_table(self.entries@, table@) == spec_ignore_table(
                    self.entries@.subrange(i as int, self.entries@.len() as int),
                    table@,
                ),
            decreases self.entries@.len() - i,
        {
            proof {
                assert(self.entries@.subrange(i as int, self.entries@.len() as int).drop_first()
                    =~= self.entries@.subrange(i + 1, self.entries@.len() as int));
            }
            if eq_chars(&self.entries[i].table, table) {
                return self.entries[i].ignore_table;
            }
            i += 1;
        }
        false
    }

    /// Apply this rule set to a record: the first entry for its table
    /// decides, its rules are applied in order, and a record no entry
    /// matches is returned unchanged; exact.
    #[verifier::loop_isolation(false)]
    pub fn filter_record(&self, rec: Record) -> (r: Record)
        ensures
            r.table@ == rec.table@,
            ({
                let idx = spec_entry_idx(self.entries@, rec.table@);
                if idx < 0 {
                    r.fdv() == rec.fdv()
                } else {
                    r.fdv() == spec_apply_rules(
                        rec.fdv(),
                        self.entries@[idx].exclude_fields@,
                        0,
                    )
                }
            }),
    {
        let ghost idx = spec_entry_idx(self.entries@, rec.table@);
        proof {
            entry_idx_props(self.entries@, rec.table@);
        }
        let mut found: bool = false;
        let mut i: usize = 0;
        while i < self.entries.len() && !found
            invariant
                0 <= i <= self.entries@.len(),
                found ==> i >= 1 && idx == i - 1,
                !found ==> forall|j: int|
                    0 <= j < i ==> (#[trigger] self.entries@[j]).table@ != rec.table@,
            decreases self.entries@.len() - i,
        {
            if eq_chars(&self.entries[i].table, &rec.table) {
                proof {
                    if idx < 0 {
                        assert(self.entries@[i as int].table@ != rec.table@);
                    } else if idx < i as int {
                        assert(self.entries@[idx].table@ != rec.table@);
                        assert(self.entries@[idx].table@ == rec.table@);
                    } else if idx > i as int {
                        assert(self.entries@[i as int].table@ != rec.table@);
                    }
                    assert(idx == i as int);
                }
                found = true;
            }
            i += 1;
        }
        if !found {
            assert(idx < 0) by {
                if idx >= 0 {
                    assert(self.entries@[idx].table@ == rec.table@);
                }
            }
            return rec;
        }
        let e = i - 1;
        let Record { table, fields } = rec;
        let ghost orig = dvf(fields@);
        let mut fields = fields;
        let rules = &self.entries[e].exclude_fields;
        let mut ri: usize = 0;
        while ri < rules.len()
            invariant
                0 <= ri <= rules@.len(),
                spec_apply_rules(orig, rules@, 0) == spec_apply_rules(
                    dvf(fields@),
                    rules@,
                    ri as int,
                ),
            decreases rules@.len() - ri,
        {
            match &rules[ri].1 {
                FieldExclude::All(all) => {
                    if *all {
                        let ghost name = rules@[ri as int].0@;
                        let mut fi: usize = 0;
                        let mut kept: Vec<(Vec<char>, Value)> = Vec::new();
                        proof {
                            reveal_with_fuel(Seq::filter, 2);
                            assert(drop_field(dvf(fields@.subrange(0, 0)), name) =~= Seq::<
                                (Seq<char>, Val),
                            >::empty());
                        }
                        while fi < fields.len()
                            invariant
                                0 <= fi <= fields@.len(),
                                name == rules@[ri as int].0@,
                                dvf(kept@) =~= drop_field(
                                    dvf(fields@.subrange(0, fi as int)),
                                    name,
                                ),
                            decreases fields@.len() - fi,
                        {
                            proof {
                                reveal_with_fuel(Seq::filter, 2);
                                assert(dvf(fields@.subrange(0, fi + 1)).drop_last() =~= dvf(
                                    fields@.subrange(0, fi as int),
                                ));
                                assert(dvf(fields@.subrange(0, fi + 1)).last() == (fields@[
                                fi as int].0@, fields@[fi as int].1.dv()));
                            }
                            if !eq_chars(&fields[fi].0, &rules[ri].0) {
                                let k = clone_chars(&fields[fi].0);
                                let v = clone_value(&fields[fi].1);
                                let ghost pre = kept@;
                                kept.push((k, v));
                                proof {
                                    crate::value::dvf_push(pre, kept@);
                                }
                            }
                            assert(dvf(kept@) =~= drop_field(
                                dvf(fields@.subrange(0, fi + 1)),
                                name,
                            ));
                            fi += 1;
                        }
                        proof {
                            assert(fields@.subrange(0, fields@.len() as int) =~= fields@);
                            assert(dvf(kept@) =~= spec_apply_rule(
                                dvf(fields@),
                                rules@[ri as int],
                            ));
                        }
                        fields = kept;
                    } else {
                        assert(spec_apply_rule(dvf(fields@), rules@[ri as int]) == dvf(fields@));
                    }
                },
                FieldExclude::Sub(keys) => {
                    let ghost name = rules@[ri as int].0@;
                    let ghost kv = match rules@[ri as int].1 {
                        FieldExclude::Sub(ks) => ks@,
                        FieldExclude::All(_) => Seq::empty(),
                    };
                    let mut fi: usize = 0;
                    let mut kept: Vec<(Vec<char>, Value)> = Vec::new();
                    while fi < fields.len()
                        invariant
                            0 <= fi <= fields@.len(),
                            name == rules@[ri as int].0@,
                            rules@[ri as int].1 matches FieldExclude::Sub(ks) && ks@ == kv,
                            kv == keys@,
                            dvf(kept@).len() == fi,
                            forall|j: int|
                                0 <= j < fi ==> #[trigger] dvf(kept@)[j] == spec_apply_rule(
                                    dvf(fields@),
                                    rules@[ri as int],
                                )[j],
                        decreases fields@.len() - fi,
                    {
                        let k = clone_chars(&fields[fi].0);
                        let matches_name = eq_chars(&fields[fi].0, &rules[ri].0);
                        let ghost pre = kept@;
                        match &fields[fi].1 {
                            Value::Obj(sub) => {
                                if matches_name {
                                    let ghost subdv = fields@[fi as int].1.dv()->Obj_0;
                                    proof {
                                        reveal_with_fuel(Seq::filter, 2);
                                        assert(subdv =~= dvf(sub@));
                                        assert(strip_keys(dvf(sub@.subrange(0, 0)), kv) =~= Seq::<
                                            (Seq<char>, Val),
                                        >::empty());
                                    }
                                    let mut ns: Vec<(Vec<char>, Value)> = Vec::new();
                                    let mut si: usize = 0;
                                    while si < sub.len()
                                        invariant
                                            0 <= si <= sub@.len(),
                                            kv == keys@,
                                            dvf(ns@) =~= strip_keys(
                                                dvf(sub@.subrange(0, si as int)),
                                                kv,
                                            ),
                                        decreases sub@.len() - si,
                                    {
                                        proof {
                                            reveal_with_fuel(Seq::filter, 2);
                                            assert(dvf(sub@.subrange(0, si + 1)).drop_last() =~= dvf(
                                                sub@.subrange(0, si as int),
                                            ));
                                            assert(dvf(sub@.subrange(0, si + 1)).last() == (sub@[
                                            si as int].0@, sub@[si as int].1.dv()));
                                        }
                                        let mut hit = false;
                                        let mut ki: usize = 0;
                                        while ki < keys.len()
                                            invariant
                                                0 <= ki <= keys@.len(),
                                                0 <= si < sub@.len(),
                                                kv == keys@,
                                                hit == exists|j: int|
                                                    0 <= j < ki && (#[trigger] keys@[j])@ == sub@[
                                                        si as int].0@,
                                            decreases keys@.len() - ki,
                                        {
                                            if eq_chars(&sub[si].0, &keys[ki]) {
                                                hit = true;
                                            }
                                            ki += 1;
                                        }
                                        proof {
                                            assert(hit == key_listed(kv, sub@[si as int].0@));
                                        }
                                        if !hit {
                                            let sk = clone_chars(&sub[si].0);
                                            let sv = clone_value(&sub[si].1);
                                            let ghost spre = ns@;
                                            ns.push((sk, sv));
                                            proof {
                                                crate::value::dvf_push(spre, ns@);
                                            }
                                        }
                                        assert(dvf(ns@) =~= strip_keys(
                                            dvf(sub@.subrange(0, si + 1)),
                                            kv,
                                        ));
                                        si += 1;
                                    }
                                    proof {
                                        assert(sub@.subrange(0, sub@.len() as int) =~= sub@);
                                        assert(dvf(ns@) =~= strip_keys(subdv, kv));
                                    }
                                    kept.push((k, Value::Obj(ns)));
                                    proof {
                                        crate::value::dvf_push(pre, kept@);
                                        assert(dvf(kept@).last().1->Obj_0 =~= strip_keys(
                                            subdv,
                                            kv,
                                        ));
                                        assert(dvf(kept@).last() == spec_apply_rule(
                                            dvf(fields@),
                                            rules@[ri as int],
                                        )[fi as int]);
                                    }
                                } else {
                                    let v = clone_value(&fields[fi].1);
                                    kept.push((k, v));
                                    proof {
                                        crate::value::dvf_push(pre, kept@);
                                    }
                                }
                            },
                            other => {
                                let v = clone_value(other);
                                kept.push((k, v));
                                proof {
                                    crate::value::dvf_push(pre, kept@);
                                }
                            },
                        }
                        fi += 1;
                    }
                    proof {
                        assert(dvf(kept@) =~= spec_apply_rule(dvf(fields@), rules@[ri as int]));
                    }
                    fields = kept;
                },
            }
            ri += 1;
        }
        let out = Record { table, fields };
        proof {
            assert(spec_apply_rules(dvf(out.fields@), rules@, rules@.len() as int) == dvf(
                out.fields@,
            ));
        }
        out
    }
}

} // verus!
