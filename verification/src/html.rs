//! Markup cleaning.
//!
//! A string value that holds both `<` and `>` is replaced by its plain-text
//! rendering with whitespace normalized: runs of whitespace collapse to one
//! space and the ends are trimmed.  The rule is applied recursively through
//! lists and mappings; non-string leaves are unchanged.

use vstd::prelude::*;
use crate::value::{Value, Val, arr_elem_smaller, obj_elem_smaller};
use crate::chars::{contains_char, has_char, str_to_chars, chars_to_string};

verus! {

broadcast use vstd::std_specs::vec::group_vec_axioms;

/// Unicode whitespace, as `str::split_whitespace` sees it.
pub open spec fn is_space(c: char) -> bool {
    c == '\u{9}' || c == '\u{a}' || c == '\u{b}' || c == '\u{c}' || c == '\u{d}' || c == ' '
        || c == '\u{85}' || c == '\u{a0}' || c == '\u{1680}' || ('\u{2000}' <= c && c
        <= '\u{200a}') || c == '\u{2028}' || c == '\u{2029}' || c == '\u{202f}' || c == '\u{205f}'
        || c == '\u{3000}'
}

/// Exact test for `is_space`.
pub fn space_c(c: char) -> (r: bool)
    ensures
        r == is_space(c),
{
    c == '\u{9}' || c == '\u{a}' || c == '\u{b}' || c == '\u{c}' || c == '\u{d}' || c == ' '
        || c == '\u{85}' || c == '\u{a0}' || c == '\u{1680}' || ('\u{2000}' <= c && c
        <= '\u{200a}') || c == '\u{2028}' || c == '\u{2029}' || c == '\u{202f}' || c == '\u{205f}'
        || c == '\u{3000}'
}

/// Whitespace normalization, one character at a time: `pend` records that
/// whitespace was seen since the last word character.
pub open spec fn norm_ws_from(s: Seq<char>, i: int, acc: Seq<char>, pend: bool) -> Seq<char>
    decreases s.len() - i,
{
    if !(0 <= i < s.len()) {
        acc
    } else if is_space(s[i]) {
        norm_ws_from(s, i + 1, acc, true)
    } else if pend && acc.len() > 0 {
        norm_ws_from(s, i + 1, acc + seq![' ', s[i]], false)
    } else {
        norm_ws_from(s, i + 1, acc.push(s[i]), false)
    }
}

/// Whitespace-normal form: words joined by single spaces, no outer space.
pub open spec fn norm_ws(s: Seq<char>) -> Seq<char> {
    norm_ws_from(s, 0, Seq::empty(), false)
}

/// Exact computation of `norm_ws`.
pub fn normalize_ws(s: &Vec<char>) -> (r: Vec<char>)
    ensures
        r@ == norm_ws(s@),
{
    let mut out: Vec<char> = Vec::new();
    let mut pend: bool = false;
    let mut i: usize = 0;
    while i < s.len()
        invariant
            0 <= i <= s@.len(),
            norm_ws(s@) == norm_ws_from(s@, i as int, out@, pend),
        decreases s@.len() - i,
    {
        let c = s[i];
        if space_c(c) {
            pend = true;
        } else if pend && out.len() > 0 {
            let ghost pre = out@;
            out.push(' ');
            out.push(c);
            assert(out@ =~= pre + seq![' ', s@[i as int]]);
            pend = false;
        } else {
            out.push(c);
            pend = false;
        }
        i += 1;
    }
    out
}

/// What the markup renderer returns for a string: its plain-text rendering,
/// a function of the characters alone.
pub uninterp spec fn html_text_of(s: Seq<char>) -> Seq<char>;

/// Relies on html2text::from_read: renders the markup in `s` as plain text,
/// a deterministic function of `s`; if rendering fails, the input itself.
#[verifier::external_body]
fn html_render(s: &str) -> (r: String)
    ensures
        r@ == html_text_of(s@),
{
    match html2text::from_read(s.as_bytes(), usize::MAX) {
        Ok(t) => t,
        Err(_) => s.to_string(),
    }
}

/// A string is marked up when it holds both `<` and `>`.
pub open spec fn marked_up(t: Seq<char>) -> bool {
    contains_char(t, '<') && contains_char(t, '>')
}

/// The cleaning rule over mathematical values.
pub open spec fn spec_clean(v: Val) -> Val
    decreases v,
{
    match v {
        Val::Str(t) => if marked_up(t) {
            Val::Str(norm_ws(html_text_of(t)))
        } else {
            Val::Str(t)
        },
        Val::Arr(es) => Val::Arr(
            Seq::new(es.len(), |i: int| if 0 <= i < es.len() { spec_clean(es[i]) } else { Val::Null }),
        ),
        Val::Obj(fs) => Val::Obj(
            Seq::new(
                fs.len(),
                |i: int| if 0 <= i < fs.len() {
                    (fs[i].0, spec_clean(fs[i].1))
                } else {
                    (Seq::empty(), Val::Null)
                },
            ),
        ),
        _ => v,
    }
}

/// Clean every marked-up string in the value; exact.
#[verifier::loop_isolation(false)]
pub fn clean_html_in_value(v: Value) -> (r: Value)
    ensures
        r.dv() == spec_clean(v.dv()),
    decreases v.dv(),
{
    let ghost v0 = v;
    match v {
        Value::Str(t) => {
            let lt = has_char(&t, '<');
            let gt = has_char(&t, '>');
            if lt && gt {
                let s = chars_to_string(t.as_slice());
                let rendered = html_render(s.as_str());
                let rv = str_to_chars(rendered.as_str());
                Value::Str(normalize_ws(&rv))
            } else {
                Value::Str(t)
            }
        },
        Value::Arr(mut a) => {
            let n0 = a.len();
            let ghost orig = a@;
            assert(orig.len() == n0);
            let mut out: Vec<Value> = Vec::new();
            let mut i: usize = 0;
            while a.len() > 0
                invariant
                    0 <= i <= orig.len(),
                    a@ =~= orig.subrange(i as int, orig.len() as int),
                    out@.len() == i,
                    forall|j: int| 0 <= j < i ==> out@[j].dv() == spec_clean(orig[j].dv()),
                decreases a@.len(),
            {
                let x = a.remove(0);
                assert(x == orig[i as int]);
                proof {
                    arr_elem_smaller(v0, i as int);
                }
                out.push(clean_html_in_value(x));
                i += 1;
                assert(a@ =~= orig.subrange(i as int, orig.len() as int));
            }
            let r = Value::Arr(out);
            proof {
                assert(r.dv()->Arr_0 =~= spec_clean(v0.dv())->Arr_0);
            }
            r
        },
        Value::Obj(mut o) => {
            let n0 = o.len();
            let ghost orig = o@;
            assert(orig.len() == n0);
            let mut out: Vec<(Vec<char>, Value)> = Vec::new();
            let mut i: usize = 0;
            while o.len() > 0
                invariant
                    0 <= i <= orig.len(),
                    o@ =~= orig.subrange(i as int, orig.len() as int),
                    out@.len() == i,
                    forall|j: int| 0 <= j < i ==> out@[j].0@ == orig[j].0@ && out@[j].1.dv()
                        == spec_clean(orig[j].1.dv()),
                decreases o@.len(),
            {
                let (k, x) = o.remove(0);
                assert((k, x) == orig[i as int]);
                proof {
                    obj_elem_smaller(v0, i as int);
                }
                let cx = clean_html_in_value(x);
                out.push((k, cx));
                i += 1;
                assert(o@ =~= orig.subrange(i as int, orig.len() as int));
            }
            let r = Value::Obj(out);
            proof {
                assert(r.dv()->Obj_0 =~= spec_clean(v0.dv())->Obj_0);
            }
            r
        },
        other => {
            assert(other.dv() == spec_clean(v0.dv()));
            other
        },
    }
}

/// No string anywhere in the value is marked up.
pub open spec fn no_markup(v: Val) -> bool
    decreases v,
{
    match v {
        Val::Str(t) => !marked_up(t),
        Val::Arr(es) => forall|i: int| 0 <= i < es.len() ==> no_markup(#[trigger] es[i]),
        Val::Obj(fs) => forall|i: int| 0 <= i < fs.len() ==> no_markup(#[trigger] fs[i].1),
        _ => true,
    }
}

/// Cleaning a value that holds no markup returns it unchanged.
pub proof fn lemma_clean_no_markup(v: Val)
    requires
        no_markup(v),
    ensures
        spec_clean(v) == v,
    decreases v,
{
    match v {
        Val::Arr(es) => {
            assert forall|i: int| 0 <= i < es.len() implies spec_clean(#[trigger] es[i])
                == es[i] by {
                lemma_clean_no_markup(es[i]);
            }
            assert(spec_clean(v)->Arr_0 =~= es);
        },
        Val::Obj(fs) => {
            assert forall|i: int| 0 <= i < fs.len() implies spec_clean(#[trigger] fs[i].1)
                == fs[i].1 by {
                lemma_clean_no_markup(fs[i].1);
            }
            assert(spec_clean(v)->Obj_0 =~= fs);
        },
        _ => {},
    }
}

/// Cleaning is idempotent on every value whose cleaned form holds no
/// markup left over from rendering.
pub proof fn lemma_clean_idempotent(v: Val)
    requires
        no_markup(spec_clean(v)),
    ensures
        spec_clean(spec_clean(v)) == spec_clean(v),
{
    lemma_clean_no_markup(spec_clean(v));
}

} // verus!
