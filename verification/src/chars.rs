//! Character-sequence utilities.
//!
//! All text handled by the library is converted once into a `Vec<char>` and
//! processed with the verified scanning functions below; `String` appears
//! only at the crate boundary.

use vstd::prelude::*;

verus! {

/// Relies on str::chars: yields exactly the characters of the string.
#[verifier::external_body]
pub fn str_to_chars(s: &str) -> (r: Vec<char>)
    ensures
        r@ == s@,
{
    s.chars().collect()
}

/// Relies on String's FromIterator over char: collects exactly the
/// characters handed in.
#[verifier::external_body]
pub fn chars_to_string(v: &[char]) -> (r: String)
    ensures
        r@ == v@,
{
    v.iter().collect()
}

/// `pat` occurs in `s` starting at position `i`.
pub open spec fn sub_at(s: Seq<char>, pat: Seq<char>, i: int) -> bool {
    0 <= i && i + pat.len() <= s.len() && s.subrange(i, i + pat.len()) == pat
}

/// `pat` occurs somewhere in `s`.
pub open spec fn contains_sub(s: Seq<char>, pat: Seq<char>) -> bool {
    exists|i: int| sub_at(s, pat, i)
}

/// `pat` matches `s` at position `i`; exact test for `sub_at`.
pub fn match_at(s: &Vec<char>, pat: &[char], i: usize) -> (r: bool)
    requires
        i <= s@.len(),
    ensures
        r == sub_at(s@, pat@, i as int),
{
    if s.len() - i < pat.len() {
        assert(!sub_at(s@, pat@, i as int));
        return false;
    }
    let n = s.len();
    let mut j: usize = 0;
    while j < pat.len()
        invariant
            0 <= j <= pat@.len(),
            n == s@.len(),
            i + pat@.len() <= s@.len(),
            forall|k: int| 0 <= k < j ==> s@[i + k] == pat@[k],
        decreases pat@.len() - j,
    {
        assert(i + j < n);
        if s[i + j] != pat[j] {
            assert(s@.subrange(i as int, i + pat@.len())[j as int] != pat@[j as int]);
            return false;
        }
        j += 1;
    }
    assert(s@.subrange(i as int, i + pat@.len()) =~= pat@);
    true
}

/// First occurrence of `pat` in `s` at or after `from`; exact.
pub fn find_sub(s: &Vec<char>, pat: &[char], from: usize) -> (r: Option<usize>)
    requires
        from <= s@.len(),
    ensures
        match r {
            Some(i) => from <= i && sub_at(s@, pat@, i as int) && forall|j: int|
                from <= j < i ==> !sub_at(s@, pat@, j),
            None => forall|j: int| from <= j ==> !sub_at(s@, pat@, j),
        },
{
    let mut i: usize = from;
    loop
        invariant
            from <= i <= s@.len(),
            forall|j: int| from <= j < i ==> !sub_at(s@, pat@, j),
        decreases s@.len() + 1 - i,
    {
        if match_at(s, pat, i) {
            return Some(i);
        }
        if i == s.len() {
            assert(forall|j: int| j > s@.len() ==> !sub_at(s@, pat@, j));
            return None;
        }
        i += 1;
    }
}

/// `pat` occurs somewhere in `s`; exact test for `contains_sub`.
pub fn contains(s: &Vec<char>, pat: &[char]) -> (r: bool)
    ensures
        r == contains_sub(s@, pat@),
{
    match find_sub(s, pat, 0) {
        Some(_) => true,
        None => false,
    }
}

/// The character `c` occurs in `s`.
pub open spec fn contains_char(s: Seq<char>, c: char) -> bool {
    exists|i: int| 0 <= i < s.len() && s[i] == c
}

/// Exact test for `contains_char`.
pub fn has_char(s: &Vec<char>, c: char) -> (r: bool)
    ensures
        r == contains_char(s@, c),
{
    let mut i: usize = 0;
    while i < s.len()
        invariant
            0 <= i <= s@.len(),
            forall|j: int| 0 <= j < i ==> s@[j] != c,
        decreases s@.len() - i,
    {
        if s[i] == c {
            return true;
        }
        i += 1;
    }
    false
}

/// `s` starts with `pat`.
pub open spec fn starts_with(s: Seq<char>, pat: Seq<char>) -> bool {
    sub_at(s, pat, 0)
}

/// Exact test for `starts_with`.
pub fn begins_with(s: &Vec<char>, pat: &[char]) -> (r: bool)
    ensures
        r == starts_with(s@, pat@),
{
    match_at(s, pat, 0)
}

/// `s` ends with `pat`.
pub open spec fn ends_with(s: Seq<char>, pat: Seq<char>) -> bool {
    pat.len() <= s.len() && sub_at(s, pat, s.len() - pat.len())
}

/// Exact test for `ends_with`.
pub fn finishes_with(s: &Vec<char>, pat: &[char]) -> (r: bool)
    ensures
        r == ends_with(s@, pat@),
{
    if pat.len() > s.len() {
        return false;
    }
    match_at(s, pat, s.len() - pat.len())
}

/// Exact character-vector equality test.
pub fn eq_chars(a: &Vec<char>, b: &Vec<char>) -> (r: bool)
    ensures
        r == (a@ == b@),
{
    if a.len() != b.len() {
        return false;
    }
    let mut i: usize = 0;
    while i < a.len()
        invariant
            0 <= i <= a@.len(),
            a@.len() == b@.len(),
            forall|j: int| 0 <= j < i ==> a@[j] == b@[j],
        decreases a@.len() - i,
    {
        if a[i] != b[i] {
            return false;
        }
        i += 1;
    }
    assert(a@ =~= b@);
    true
}

/// Copy the range `[from, to)` of `s` into a fresh vector.
pub fn copy_range(s: &Vec<char>, from: usize, to: usize) -> (r: Vec<char>)
    requires
        from <= to <= s@.len(),
    ensures
        r@ == s@.subrange(from as int, to as int),
{
    let mut out: Vec<char> = Vec::new();
    let mut i: usize = from;
    while i < to
        invariant
            from <= i <= to <= s@.len(),
            out@ =~= s@.subrange(from as int, i as int),
        decreases to - i,
    {
        out.push(s[i]);
        assert(out@ =~= s@.subrange(from as int, i + 1));
        i += 1;
    }
    out
}

/// Append the range `[from, to)` of `s` onto `out`.
pub fn push_range(s: &Vec<char>, from: usize, to: usize, out: &mut Vec<char>)
    requires
        from <= to <= s@.len(),
    ensures
        final(out)@ == old(out)@ + s@.subrange(from as int, to as int),
{
    let mut i: usize = from;
    while i < to
        invariant
            from <= i <= to <= s@.len(),
            out@ =~= old(out)@ + s@.subrange(from as int, i as int),
        decreases to - i,
    {
        out.push(s[i]);
        assert(out@ =~= old(out)@ + s@.subrange(from as int, i + 1));
        i += 1;
    }
}

} // verus!
