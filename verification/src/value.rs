//! The typed values that records carry.
//!
//! A `Value` is the JSON-like datatype the parsers produce: null, boolean,
//! 64-bit integer, floating-point literal, string, ordered list, or ordered
//! mapping.  Floating-point numbers are carried as their normalized numeric
//! literal text, which is all the pipeline ever needs of them (they are
//! serialized back out and never computed with).  Text is carried as
//! `Vec<char>`.

use vstd::prelude::*;

verus! {

broadcast use vstd::std_specs::vec::group_vec_axioms;

/// A typed value parsed from a dump.
pub enum Value {
    Null,
    Bool(bool),
    Int(i64),
    /// A numeric literal that is not a 64-bit integer, kept as its text.
    Float(Vec<char>),
    Str(Vec<char>),
    Arr(Vec<Value>),
    Obj(Vec<(Vec<char>, Value)>),
}

/// The mathematical shape of a `Value`.
pub enum Val {
    Null,
    Bool(bool),
    Int(int),
    Float(Seq<char>),
    Str(Seq<char>),
    Arr(Seq<Val>),
    Obj(Seq<(Seq<char>, Val)>),
}

impl Value {
    /// Deep view: the mathematical value this `Value` denotes.
    pub open spec fn dv(self) -> Val
        decreases self,
    {
        match self {
            Value::Null => Val::Null,
            Value::Bool(b) => Val::Bool(b),
            Value::Int(i) => Val::Int(i as int),
            Value::Float(t) => Val::Float(t@),
            Value::Str(t) => Val::Str(t@),
            Value::Arr(a) => Val::Arr(
                Seq::new(a@.len(), |i: int| if 0 <= i < a@.len() { a@[i].dv() } else { Val::Null }),
            ),
            Value::Obj(o) => Val::Obj(
                Seq::new(
                    o@.len(),
                    |i: int| if 0 <= i < o@.len() {
                        (o@[i].0@, o@[i].1.dv())
                    } else {
                        (Seq::empty(), Val::Null)
                    },
                ),
            ),
        }
    }
}

/// Clone a value; the copy denotes the same mathematical value.
#[verifier::loop_isolation(false)]
pub fn clone_value(v: &Value) -> (r: Value)
    ensures
        r.dv() == v.dv(),
    decreases v.dv(),
{
    match v {
        Value::Null => Value::Null,
        Value::Bool(b) => Value::Bool(*b),
        Value::Int(i) => Value::Int(*i),
        Value::Float(t) => Value::Float(clone_chars(t)),
        Value::Str(t) => Value::Str(clone_chars(t)),
        Value::Arr(a) => {
            let mut out: Vec<Value> = Vec::new();
            let mut i: usize = 0;
            while i < a.len()
                invariant
                    0 <= i <= a@.len(),
                    out@.len() == i,
                    forall|j: int| 0 <= j < i ==> out@[j].dv() == a@[j].dv(),
                decreases a@.len() - i,
            {
                proof {
                    arr_elem_smaller(*v, i as int);
                }
                out.push(clone_value(&a[i]));
                i += 1;
            }
            let r = Value::Arr(out);
            assert(r.dv() =~= v.dv()) by {
                match (r.dv(), v.dv()) {
                    (Val::Arr(s), Val::Arr(t)) => {
                        assert(s =~= t);
                    },
                    _ => {},
                }
            }
            r
        },
        Value::Obj(o) => {
            let mut out: Vec<(Vec<char>, Value)> = Vec::new();
            let mut i: usize = 0;
            while i < o.len()
                invariant
                    0 <= i <= o@.len(),
                    out@.len() == i,
                    forall|j: int| 0 <= j < i ==> out@[j].0@ == o@[j].0@ && out@[j].1.dv()
                        == o@[j].1.dv(),
                decreases o@.len() - i,
            {
                proof {
                    obj_elem_smaller(*v, i as int);
                }
                let key = clone_chars(&o[i].0);
                let val = clone_value(&o[i].1);
                out.push((key, val));
                i += 1;
            }
            let r = Value::Obj(out);
            assert(r.dv() =~= v.dv()) by {
                match (r.dv(), v.dv()) {
                    (Val::Obj(s), Val::Obj(t)) => {
                        assert(s =~= t);
                    },
                    _ => {},
                }
            }
            r
        },
    }
}

/// Clone a character vector.
pub fn clone_chars(v: &Vec<char>) -> (r: Vec<char>)
    ensures
        r@ == v@,
{
    let mut out: Vec<char> = Vec::new();
    let mut i: usize = 0;
    while i < v.len()
        invariant
            0 <= i <= v@.len(),
            out@ =~= v@.subrange(0, i as int),
        decreases v@.len() - i,
    {
        out.push(v[i]);
        i += 1;
    }
    assert(out@ =~= v@);
    out
}

/// The mathematical values of a vector of values.
pub open spec fn dvs(a: Seq<Value>) -> Seq<Val> {
    Seq::new(a.len(), |k: int| if 0 <= k < a.len() { a[k].dv() } else { Val::Null })
}

/// The mathematical fields of a vector of key-value pairs.
pub open spec fn dvf(o: Seq<(Vec<char>, Value)>) -> Seq<(Seq<char>, Val)> {
    Seq::new(o.len(), |k: int| if 0 <= k < o.len() { (o[k].0@, o[k].1.dv()) } else { (Seq::empty(), Val::Null) })
}

/// Pushing a pair extends the mathematical fields by its view.
pub proof fn dvf_push(pre: Seq<(Vec<char>, Value)>, post: Seq<(Vec<char>, Value)>)
    requires
        post.len() == pre.len() + 1,
        post == pre.push(post.last()),
    ensures
        dvf(post) =~= dvf(pre).push((post.last().0@, post.last().1.dv())),
{
    assert forall|j: int| 0 <= j < post.len() implies dvf(post)[j] == dvf(pre).push(
        (post.last().0@, post.last().1.dv()),
    )[j] by {
        if j < pre.len() {
            assert(post[j] == pre[j]);
        }
    }
}

/// An element of a list value is structurally smaller than the list.
pub proof fn arr_elem_smaller(v: Value, i: int)
    requires
        v matches Value::Arr(a) && 0 <= i < a@.len(),
    ensures
        decreases_to!(v.dv() => (v->Arr_0)@[i].dv()),
{
    assert(decreases_to!(v.dv() => v.dv()->Arr_0));
    assert(decreases_to!(v.dv()->Arr_0 => v.dv()->Arr_0[i]));
    assert(v.dv()->Arr_0[i] == (v->Arr_0)@[i].dv());
}

/// A field value of a mapping value is structurally smaller than the mapping.
pub proof fn obj_elem_smaller(v: Value, i: int)
    requires
        v matches Value::Obj(o) && 0 <= i < o@.len(),
    ensures
        decreases_to!(v.dv() => (v->Obj_0)@[i].1.dv()),
{
    assert(decreases_to!(v.dv() => v.dv()->Obj_0));
    assert(decreases_to!(v.dv()->Obj_0 => v.dv()->Obj_0[i]));
    assert(decreases_to!(v.dv()->Obj_0[i] => v.dv()->Obj_0[i].1));
    assert(v.dv()->Obj_0[i].1 == (v->Obj_0)@[i].1.dv());
}

} // verus!
