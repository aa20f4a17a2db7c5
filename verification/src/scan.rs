//! Building blocks of the reference grammar: maximal runs of a character
//! class and literal prefixes.
use vstd::prelude::*;

use crate::text::chars_eq;

verus! {

/// The end of the maximal run of characters of class `cls` that starts at `i`.
pub open spec fn run_end(t: Seq<char>, i: int, cls: spec_fn(char) -> bool) -> int
    decreases t.len() - i,
{
    if i < 0 || i >= t.len() {
        i
    } else if cls(t[i]) {
        run_end(t, i + 1, cls)
    } else {
        i
    }
}

pub proof fn lemma_run_end(t: Seq<char>, i: int, cls: spec_fn(char) -> bool)
    requires
        0 <= i <= t.len(),
    ensures
        i <= run_end(t, i, cls) <= t.len(),
        forall|j: int| i <= j < run_end(t, i, cls) ==> cls(#[trigger] t[j]),
        run_end(t, i, cls) < t.len() ==> !cls(t[run_end(t, i, cls)]),
    decreases t.len() - i,
{
    if i < t.len() && cls(t[i]) {
        lemma_run_end(t, i + 1, cls);
    }
}

/// Whether `t` holds the literal `lit` at position `i`.
pub open spec fn has_at(t: Seq<char>, i: int, lit: Seq<char>) -> bool {
    0 <= i && i + lit.len() <= t.len() && t.subrange(i, i + lit.len()) == lit
}

/// Whether the text holds `lit` at position `i`.
pub fn lit_at(t: &[char], i: usize, lit: &[char]) -> (b: bool)
    ensures
        b == has_at(t@, i as int, lit@),
{
    if i > t.len() || lit.len() > t.len() - i {
        return false;
    }
    let n = t.len();
    let mut j: usize = 0;
    while j < lit.len()
        invariant
            n == t@.len(),
            i + lit@.len() <= t@.len(),
            j <= lit@.len(),
            forall|q: int| 0 <= q < j ==> t@[i + q] == lit@[q],
        decreases lit@.len() - j,
    {
        if t[i + j] != lit[j] {
            assert(t@.subrange(i as int, i + lit@.len())[j as int] != lit@[j as int]);
            return false;
        }
        j = j + 1;
    }
    assert(t@.subrange(i as int, i + lit@.len()) =~= lit@);
    true
}

/// The characters `t[lo..hi]`.
pub fn slice_chars(t: &[char], lo: usize, hi: usize) -> (v: Vec<char>)
    requires
        lo <= hi <= t@.len(),
    ensures
        v@ == t@.subrange(lo as int, hi as int),
{
    let mut v: Vec<char> = Vec::new();
    let mut i = lo;
    while i < hi
        invariant
            lo <= i <= hi <= t@.len(),
            v@ == t@.subrange(lo as int, i as int),
        decreases hi - i,
    {
        v.push(t[i]);
        i = i + 1;
        assert(t@.subrange(lo as int, i as int) =~= t@.subrange(lo as int, i - 1).push(t@[i - 1]));
    }
    v
}

/// Whether a character sequence equals one of the given literals.
pub fn chars_in_list(w: &[char], list: &[&str]) -> (b: bool)
    ensures
        b == exists|i: int| 0 <= i < list@.len() && list@[i]@ == w@,
{
    let mut i: usize = 0;
    while i < list.len()
        invariant
            i <= list@.len(),
            forall|j: int| 0 <= j < i ==> list@[j]@ != w@,
        decreases list@.len() - i,
    {
        let l = crate::text::chars_of(list[i]);
        if chars_eq(l.as_slice(), w) {
            return true;
        }
        i = i + 1;
    }
    false
}

} // verus!
