//! Context reference parsers: functions that extract [`ContextRef`] values
//! from task description text, without any I/O.
use vstd::prelude::*;

use crate::context::{
    contains_ref, distinct_refs, has_same, has_same_ref, ref_views, same_ref, ContextBundle, ContextRef, RefView,
};
use crate::grammar::{
    first_hit, hit_at, hits, lemma_delimited_path_hit, lemma_first_hit_at, lemma_path_end_bounds, matches_anywhere,
    path_end, Classes, ExecHit, Hit, Pattern,
};
use crate::scan::{chars_in_list, slice_chars};
use crate::text::{chars_eq, chars_of, string_of};

verus! {

// ---------------------------------------------------------------------------
// Specification
// ---------------------------------------------------------------------------

/// The text of the span `g` of `t`.
pub open spec fn span(t: Seq<char>, g: (int, int)) -> Seq<char> {
    t.subrange(g.0, g.1)
}

/// `acc` followed by the items of `c`, in order, that are neither skipped nor
/// already present.
pub open spec fn collect(acc: Seq<RefView>, c: Seq<RefView>, skip: spec_fn(RefView) -> bool) -> Seq<RefView>
    decreases c.len(),
{
    if c.len() == 0 {
        acc
    } else {
        let d = collect(acc, c.drop_last(), skip);
        if skip(c.last()) || d.contains(c.last()) {
            d
        } else {
            d.push(c.last())
        }
    }
}

/// `acc` followed by the references of `c`, in order, that name nothing
/// already present (file paths compare by their components).
pub open spec fn merge(acc: Seq<RefView>, c: Seq<RefView>) -> Seq<RefView>
    decreases c.len(),
{
    if c.len() == 0 {
        acc
    } else {
        let d = merge(acc, c.drop_last());
        if has_same(d, c.last()) {
            d
        } else {
            d.push(c.last())
        }
    }
}

pub open spec fn skip_none() -> spec_fn(RefView) -> bool {
    |v: RefView| false
}

/// The numeric value of a string of ASCII digits.
pub open spec fn digits_value(w: Seq<char>) -> nat
    decreases w.len(),
{
    if w.len() == 0 {
        0
    } else {
        digits_value(w.drop_last()) * 10 + (w.last() as nat - '0' as nat) as nat
    }
}

pub open spec fn all_ascii_digits(w: Seq<char>) -> bool {
    forall|i: int| 0 <= i < w.len() ==> '0' <= #[trigger] w[i] <= '9'
}

/// A nonempty string of ASCII digits whose value fits in a `u64` reads as that
/// value; any other string reads as 0.
pub open spec fn decimal_u64(w: Seq<char>) -> u64 {
    if w.len() > 0 && all_ascii_digits(w) && digits_value(w) <= u64::MAX {
        digits_value(w) as u64
    } else {
        0
    }
}

/// The file path references of a text, first occurrences first.
pub open spec fn file_path_refs(t: Seq<char>) -> Seq<RefView> {
    collect(
        Seq::empty(),
        hits(Pattern::FilePath, t, 0).map_values(|h: Hit| RefView::FilePath(span(t, h.g1))),
        skip_none(),
    )
}

/// The owner, repository and number of a GitHub reference.
pub open spec fn gh_key(v: RefView) -> (Seq<char>, Seq<char>, u64) {
    match v {
        RefView::GitHubIssue(o, r, n) => (o, r, n),
        RefView::GitHubPr(o, r, n) => (o, r, n),
        _ => (Seq::empty(), Seq::empty(), 0),
    }
}

pub open spec fn has_key(s: Seq<RefView>, k: (Seq<char>, Seq<char>, u64)) -> bool {
    exists|j: int| 0 <= j < s.len() && gh_key(#[trigger] s[j]) == k
}

/// `acc` followed by the GitHub references of `c`, in order, whose number is
/// positive and whose owner, repository and number are not yet present.
pub open spec fn gh_collect(acc: Seq<RefView>, c: Seq<RefView>) -> Seq<RefView>
    decreases c.len(),
{
    if c.len() == 0 {
        acc
    } else {
        let d = gh_collect(acc, c.drop_last());
        if gh_key(c.last()).2 == 0 || has_key(d, gh_key(c.last())) {
            d
        } else {
            d.push(c.last())
        }
    }
}

/// The reference a GitHub URL match stands for: a pull request when its kind
/// is `pull`, an issue otherwise.
pub open spec fn gh_url_view(t: Seq<char>, h: Hit) -> RefView {
    let n = decimal_u64(span(t, h.g4));
    if span(t, h.g3) == "pull"@ {
        RefView::GitHubPr(span(t, h.g1), span(t, h.g2), n)
    } else {
        RefView::GitHubIssue(span(t, h.g1), span(t, h.g2), n)
    }
}

/// The reference an `owner/repo#n` match stands for: always an issue.
pub open spec fn gh_short_view(t: Seq<char>, h: Hit) -> RefView {
    RefView::GitHubIssue(span(t, h.g1), span(t, h.g2), decimal_u64(span(t, h.g4)))
}

/// The GitHub references of a text: full URLs first, then shorthands.
pub open spec fn github_refs(t: Seq<char>) -> Seq<RefView> {
    gh_collect(
        Seq::empty(),
        hits(Pattern::GitHubUrl, t, 0).map_values(|h: Hit| gh_url_view(t, h))
            + hits(Pattern::GitHubShort, t, 0).map_values(|h: Hit| gh_short_view(t, h)),
    )
}

/// No two references of `s` name the same owner, repository and number.
pub open spec fn keys_distinct(s: Seq<RefView>) -> bool {
    forall|i: int, j: int| 0 <= i < j < s.len() ==> gh_key(#[trigger] s[i]) != gh_key(#[trigger] s[j])
}

proof fn lemma_gh_collect_distinct(acc: Seq<RefView>, c: Seq<RefView>)
    requires
        keys_distinct(acc),
    ensures
        keys_distinct(gh_collect(acc, c)),
    decreases c.len(),
{
    if c.len() > 0 {
        let d = gh_collect(acc, c.drop_last());
        lemma_gh_collect_distinct(acc, c.drop_last());
        if !(gh_key(c.last()).2 == 0 || has_key(d, gh_key(c.last()))) {
            let e = d.push(c.last());
            assert forall|i: int, j: int| 0 <= i < j < e.len() implies gh_key(#[trigger] e[i]) != gh_key(
                #[trigger] e[j],
            ) by {
                if j == d.len() {
                    assert(e[i] == d[i]);
                    if gh_key(d[i]) == gh_key(c.last()) {
                        assert(has_key(d, gh_key(c.last())));
                    }
                } else {
                    assert(e[i] == d[i] && e[j] == d[j]);
                }
            }
        }
    }
}

/// The GitHub references of a text name each issue or pull request once:
/// no two have the same owner, repository and number.
pub proof fn lemma_github_refs_distinct(t: Seq<char>)
    ensures
        keys_distinct(github_refs(t)),
        github_refs(t).no_duplicates(),
{
    let c = hits(Pattern::GitHubUrl, t, 0).map_values(|h: Hit| gh_url_view(t, h)) + hits(
        Pattern::GitHubShort,
        t,
        0,
    ).map_values(|h: Hit| gh_short_view(t, h));
    lemma_gh_collect_distinct(Seq::empty(), c);
    let g = github_refs(t);
    assert forall|i: int, j: int| 0 <= i < g.len() && 0 <= j < g.len() && i != j implies g[i] != g[j] by {
        if i < j {
            assert(gh_key(g[i]) != gh_key(g[j]));
        } else {
            assert(gh_key(g[j]) != gh_key(g[i]));
        }
    }
}

/// Punctuation that is stripped from the end of a URL.
pub open spec fn is_trailing_punct(c: char) -> bool {
    c == '.' || c == ',' || c == ';' || c == ':' || c == '!' || c == '?'
}

/// `w` with all trailing punctuation removed.
pub open spec fn trim_punct(w: Seq<char>) -> Seq<char>
    decreases w.len(),
{
    if w.len() > 0 && is_trailing_punct(w.last()) {
        trim_punct(w.drop_last())
    } else {
        w
    }
}

/// A URL reference to a GitHub issue or pull request page.
pub open spec fn is_github_url_ref(v: RefView) -> bool {
    match v {
        RefView::Url(u) => matches_anywhere(Pattern::GitHubUrl, u),
        _ => false,
    }
}

/// The URL references of a text, trailing punctuation removed, without those
/// that hold a GitHub issue or pull request URL.
pub open spec fn url_refs(t: Seq<char>) -> Seq<RefView> {
    collect(
        Seq::empty(),
        hits(Pattern::Url, t, 0).map_values(|h: Hit| RefView::Url(trim_punct(span(t, h.g1)))),
        |v: RefView| is_github_url_ref(v),
    )
}

/// English words that look like PascalCase but are no symbols.
pub open spec fn common_words() -> Seq<&'static str> {
    seq![
        "The", "This", "That", "These", "Those", "When", "Where", "Which", "While", "Before",
        "After", "Because", "However", "Also", "Each", "Every", "Some",
    ]
}

pub open spec fn common_word(w: Seq<char>) -> bool {
    exists|i: int| 0 <= i < common_words().len() && common_words()[i]@ == w
}

pub open spec fn is_common_symbol(v: RefView) -> bool {
    match v {
        RefView::Symbol(n) => common_word(n),
        _ => false,
    }
}

/// The symbol references of a text: qualified paths first, then PascalCase
/// names that are not common words.
pub open spec fn symbol_refs(t: Seq<char>) -> Seq<RefView> {
    collect(
        collect(
            Seq::empty(),
            hits(Pattern::SymbolPath, t, 0).map_values(|h: Hit| RefView::Symbol(span(t, h.g1))),
            skip_none(),
        ),
        hits(Pattern::PascalCase, t, 0).map_values(|h: Hit| RefView::Symbol(span(t, h.g1))),
        |v: RefView| is_common_symbol(v),
    )
}

/// All references of a text, each once: file paths, GitHub references, URLs,
/// then symbols, without a reference that names what an earlier one names.
pub open spec fn all_refs(t: Seq<char>) -> Seq<RefView> {
    merge(Seq::empty(), file_path_refs(t) + github_refs(t) + url_refs(t) + symbol_refs(t))
}

// ---------------------------------------------------------------------------
// Lemmas
// ---------------------------------------------------------------------------

proof fn lemma_collect_step(acc: Seq<RefView>, c: Seq<RefView>, i: int, skip: spec_fn(RefView) -> bool)
    requires
        0 <= i < c.len(),
    ensures
        collect(acc, c.take(i + 1), skip) == (if skip(c[i]) || collect(acc, c.take(i), skip).contains(c[i]) {
            collect(acc, c.take(i), skip)
        } else {
            collect(acc, c.take(i), skip).push(c[i])
        }),
{
    assert(c.take(i + 1).drop_last() =~= c.take(i));
}

proof fn lemma_gh_collect_step(acc: Seq<RefView>, c: Seq<RefView>, i: int)
    requires
        0 <= i < c.len(),
    ensures
        gh_collect(acc, c.take(i + 1)) == (if gh_key(c[i]).2 == 0 || has_key(gh_collect(acc, c.take(i)), gh_key(c[i])) {
            gh_collect(acc, c.take(i))
        } else {
            gh_collect(acc, c.take(i)).push(c[i])
        }),
{
    assert(c.take(i + 1).drop_last() =~= c.take(i));
}

proof fn lemma_merge_step(acc: Seq<RefView>, c: Seq<RefView>, i: int)
    requires
        0 <= i < c.len(),
    ensures
        merge(acc, c.take(i + 1)) == (if has_same(merge(acc, c.take(i)), c[i]) {
            merge(acc, c.take(i))
        } else {
            merge(acc, c.take(i)).push(c[i])
        }),
{
    assert(c.take(i + 1).drop_last() =~= c.take(i));
}

proof fn lemma_merge_concat(acc: Seq<RefView>, a: Seq<RefView>, b: Seq<RefView>)
    ensures
        merge(acc, a + b) == merge(merge(acc, a), b),
    decreases b.len(),
{
    if b.len() == 0 {
        assert(a + b =~= a);
    } else {
        assert((a + b).drop_last() =~= a + b.drop_last());
        lemma_merge_concat(acc, a, b.drop_last());
    }
}

/// Merging keeps no two references that name the same thing, holds only
/// references it was given, and holds one naming each reference of `c`.
proof fn lemma_merge_props(acc: Seq<RefView>, c: Seq<RefView>)
    requires
        distinct_refs(acc),
    ensures
        distinct_refs(merge(acc, c)),
        forall|x: RefView| #[trigger] merge(acc, c).contains(x) ==> acc.contains(x) || c.contains(x),
        forall|x: RefView| c.contains(x) ==> #[trigger] has_same(merge(acc, c), x),
    decreases c.len(),
{
    if c.len() > 0 {
        let p = c.drop_last();
        let d = merge(acc, p);
        let x0 = c.last();
        lemma_merge_props(acc, p);
        assert forall|x: RefView| #[trigger] c.contains(x) implies p.contains(x) || x == x0 by {
            let j = choose|j: int| 0 <= j < c.len() && c[j] == x;
            if j < p.len() {
                assert(p[j] == x);
            }
        }
        assert forall|x: RefView| #[trigger] p.contains(x) implies c.contains(x) by {
            let j = choose|j: int| 0 <= j < p.len() && p[j] == x;
            assert(c[j] == x);
        }
        if !has_same(d, x0) {
            let e = d.push(x0);
            assert forall|x: RefView| #[trigger] e.contains(x) implies d.contains(x) || x == x0 by {
                let j = choose|j: int| 0 <= j < e.len() && e[j] == x;
                if j < d.len() {
                    assert(d[j] == x);
                }
            }
            assert forall|x: RefView| c.contains(x) implies #[trigger] has_same(e, x) by {
                if p.contains(x) {
                    assert(has_same(d, x));
                    let j = choose|j: int| 0 <= j < d.len() && #[trigger] same_ref(d[j], x);
                    assert(e[j] == d[j]);
                } else {
                    assert(same_ref(e[d.len() as int], x));
                }
            }
            assert forall|i: int, j: int| 0 <= i < j < e.len() implies !same_ref(#[trigger] e[i], #[trigger] e[j]) by {
                if j < d.len() {
                    assert(e[i] == d[i] && e[j] == d[j]);
                } else {
                    assert(e[i] == d[i]);
                    assert(!same_ref(d[i], x0));
                }
            }
        } else {
            assert forall|x: RefView| c.contains(x) implies #[trigger] has_same(d, x) by {
                if !p.contains(x) {
                    assert(x == x0);
                }
            }
        }
    }
}

/// References of which no two name the same thing hold no reference twice.
proof fn lemma_distinct_no_duplicates(s: Seq<RefView>)
    requires
        distinct_refs(s),
    ensures
        s.no_duplicates(),
{
    assert forall|i: int, j: int| 0 <= i < s.len() && 0 <= j < s.len() && i != j implies s[i] != s[j] by {
        if i < j {
            assert(!same_ref(s[i], s[j]));
        } else {
            assert(!same_ref(s[j], s[i]));
        }
    }
}

proof fn lemma_digits_prefix(w: Seq<char>, i: int)
    requires
        all_ascii_digits(w),
        0 <= i <= w.len(),
    ensures
        digits_value(w.take(i)) <= digits_value(w),
    decreases w.len(),
{
    if i == w.len() {
        assert(w.take(i) =~= w);
    } else {
        let p = w.drop_last();
        assert(w.take(i) =~= p.take(i));
        lemma_digits_prefix(p, i);
    }
}

proof fn lemma_collect_props(acc: Seq<RefView>, c: Seq<RefView>, skip: spec_fn(RefView) -> bool)
    requires
        acc.no_duplicates(),
    ensures
        collect(acc, c, skip).no_duplicates(),
        forall|x: RefView| #[trigger] collect(acc, c, skip).contains(x)
            <==> (acc.contains(x) || (c.contains(x) && !skip(x))),
    decreases c.len(),
{
    if c.len() > 0 {
        let p = c.drop_last();
        let d = collect(acc, p, skip);
        lemma_collect_props(acc, p, skip);
        assert forall|x: RefView| #[trigger] c.contains(x) <==> (p.contains(x) || x == c.last()) by {
            if c.contains(x) {
                let j = choose|j: int| 0 <= j < c.len() && c[j] == x;
                if j < p.len() {
                    assert(p[j] == x);
                }
            }
            if p.contains(x) {
                let j = choose|j: int| 0 <= j < p.len() && p[j] == x;
                assert(c[j] == x);
            }
            if x == c.last() {
                assert(c[c.len() - 1] == x);
            }
        }
        if !(skip(c.last()) || d.contains(c.last())) {
            let e = d.push(c.last());
            assert forall|x: RefView| #[trigger] e.contains(x) <==> (d.contains(x) || x == c.last()) by {
                if e.contains(x) {
                    let j = choose|j: int| 0 <= j < e.len() && e[j] == x;
                    if j < d.len() {
                        assert(d[j] == x);
                    }
                }
                if d.contains(x) {
                    let j = choose|j: int| 0 <= j < d.len() && d[j] == x;
                    assert(e[j] == x);
                }
                if x == c.last() {
                    assert(e[d.len() as int] == x);
                }
            }
            assert forall|a: int, b: int| 0 <= a < e.len() && 0 <= b < e.len() && a != b implies e[a] != e[b] by {
                if a < d.len() && b < d.len() {
                } else if a < d.len() {
                    assert(d.contains(d[a]));
                } else if b < d.len() {
                    assert(d.contains(d[b]));
                }
            }
        }
    }
}

/// The first reference collected into nothing is the first candidate.
proof fn lemma_collect_first(c: Seq<RefView>)
    requires
        c.len() > 0,
    ensures
        collect(Seq::empty(), c, skip_none()).len() > 0,
        collect(Seq::empty(), c, skip_none())[0] == c[0],
    decreases c.len(),
{
    let d = collect(Seq::empty(), c.drop_last(), skip_none());
    if c.len() == 1 {
        assert(d == Seq::<RefView>::empty());
    } else {
        lemma_collect_first(c.drop_last());
        assert(c.drop_last()[0] == c[0]);
    }
}

/// A file path that comes right after a backtick, a quote or one of
/// `, ; ( { [`, with no file path starting before it, is the first file
/// path reference of the text.
pub proof fn lemma_first_delimited_path_found(t: Seq<char>, s: int)
    requires
        0 < s < t.len(),
        t[s] == '`' || t[s] == '"' || t[s] == '\'' || t[s] == ',' || t[s] == ';' || t[s] == '(' || t[s] == '{'
            || t[s] == '[',
        path_end(t, s + 1) >= 0,
        forall|p: int| 0 <= p < s ==> #[trigger] hit_at(Pattern::FilePath, t, p) is None,
    ensures
        file_path_refs(t).len() > 0,
        file_path_refs(t)[0] == RefView::FilePath(t.subrange(s + 1, path_end(t, s + 1))),
{
    lemma_delimited_path_hit(t, s);
    lemma_first_hit_at(Pattern::FilePath, t, 0, s);
    lemma_path_end_bounds(t, s + 1);
    let h = hit_at(Pattern::FilePath, t, s)->0;
    let hs = hits(Pattern::FilePath, t, 0);
    assert(hs == seq![h] + hits(Pattern::FilePath, t, h.end));
    let cand = hs.map_values(|h: Hit| RefView::FilePath(span(t, h.g1)));
    assert(cand[0] == RefView::FilePath(span(t, h.g1)));
    lemma_collect_first(cand);
}

/// The file path references of a text are exactly the paths the grammar
/// matches, each once: no match is dropped and nothing else is added.
pub proof fn lemma_file_path_refs_are_matches(t: Seq<char>)
    ensures
        forall|j: int|
            0 <= j < hits(Pattern::FilePath, t, 0).len() ==> file_path_refs(t).contains(
                RefView::FilePath(span(t, #[trigger] hits(Pattern::FilePath, t, 0)[j].g1)),
            ),
        forall|x: RefView| #[trigger] file_path_refs(t).contains(x) ==> exists|j: int|
            0 <= j < hits(Pattern::FilePath, t, 0).len() && x == RefView::FilePath(
                span(t, #[trigger] hits(Pattern::FilePath, t, 0)[j].g1),
            ),
        file_path_refs(t).no_duplicates(),
{
    let hs = hits(Pattern::FilePath, t, 0);
    let cand = hs.map_values(|h: Hit| RefView::FilePath(span(t, h.g1)));
    lemma_collect_props(Seq::empty(), cand, skip_none());
    assert forall|j: int| 0 <= j < hs.len() implies file_path_refs(t).contains(
        RefView::FilePath(span(t, #[trigger] hs[j].g1)),
    ) by {
        assert(cand[j] == RefView::FilePath(span(t, hs[j].g1)));
    }
    assert forall|x: RefView| #[trigger] file_path_refs(t).contains(x) implies exists|j: int|
        0 <= j < hs.len() && x == RefView::FilePath(span(t, #[trigger] hs[j].g1)) by {
        let j = choose|j: int| 0 <= j < cand.len() && cand[j] == x;
        assert(x == RefView::FilePath(span(t, hs[j].g1)));
    }
}

/// A character stripped from the end of a URL: `. , ; : ! ?`.
pub open spec fn url_end_punct(c: char) -> bool {
    c == '.' || c == ',' || c == ';' || c == ':' || c == '!' || c == '?'
}

/// `x` is a URL reference cut from the match `w`: a beginning of `w` after
/// which `w` holds nothing but URL end punctuation, and which does not end
/// in such punctuation itself.
pub open spec fn url_cut_from(x: RefView, w: Seq<char>) -> bool {
    x matches RefView::Url(u) && u.len() <= w.len() && u == w.take(u.len() as int) && (forall|k: int|
        u.len() <= k < w.len() ==> url_end_punct(#[trigger] w[k])) && (u.len() == 0 || !url_end_punct(u.last()))
}

proof fn lemma_trim_punct_shape(w: Seq<char>)
    ensures
        url_cut_from(RefView::Url(trim_punct(w)), w),
    decreases w.len(),
{
    if w.len() > 0 && is_trailing_punct(w.last()) {
        let p = w.drop_last();
        lemma_trim_punct_shape(p);
        let u = trim_punct(w);
        assert(u == trim_punct(p));
        assert(p.take(u.len() as int) =~= w.take(u.len() as int));
        assert forall|k: int| u.len() <= k < w.len() implies url_end_punct(#[trigger] w[k]) by {
            if k < p.len() {
                assert(w[k] == p[k]);
            }
        }
    } else {
        assert(w.take(w.len() as int) =~= w);
    }
}

/// Every URL reference of a text is a URL the grammar matched with only
/// trailing `. , ; : ! ?` cut off, and ends in none of them.
pub proof fn lemma_url_refs_trimmed(t: Seq<char>)
    ensures
        forall|x: RefView| #[trigger] url_refs(t).contains(x) ==> (x matches RefView::Url(u) && (u.len() == 0
            || !(u.last() == '.' || u.last() == ',' || u.last() == ';' || u.last() == ':' || u.last() == '!'
            || u.last() == '?'))),
        forall|x: RefView| #[trigger] url_refs(t).contains(x) ==> exists|j: int|
            0 <= j < hits(Pattern::Url, t, 0).len() && #[trigger] url_cut_from(x, span(t, hits(Pattern::Url, t, 0)[j].g1)),
        forall|j: int, x: RefView|
            0 <= j < hits(Pattern::Url, t, 0).len() && #[trigger] url_cut_from(x, span(t, hits(Pattern::Url, t, 0)[j].g1))
                && !(x matches RefView::Url(u) && matches_anywhere(Pattern::GitHubUrl, u)) ==> #[trigger] url_refs(t).contains(x),
{
    let hs = hits(Pattern::Url, t, 0);
    let cand = hs.map_values(|h: Hit| RefView::Url(trim_punct(span(t, h.g1))));
    lemma_collect_props(Seq::empty(), cand, |v: RefView| is_github_url_ref(v));
    assert forall|x: RefView| #[trigger] url_refs(t).contains(x) implies (x matches RefView::Url(u) && (u.len() == 0
        || !(u.last() == '.' || u.last() == ',' || u.last() == ';' || u.last() == ':' || u.last() == '!'
        || u.last() == '?'))) && exists|j: int|
        0 <= j < hs.len() && #[trigger] url_cut_from(x, span(t, hs[j].g1)) by {
        assert(cand.contains(x));
        let j = choose|j: int| 0 <= j < cand.len() && cand[j] == x;
        lemma_trim_punct_shape(span(t, hs[j].g1));
        assert(url_cut_from(x, span(t, hs[j].g1)));
    }
    assert forall|j: int, x: RefView|
        0 <= j < hs.len() && #[trigger] url_cut_from(x, span(t, hs[j].g1)) && !(x matches RefView::Url(u)
            && matches_anywhere(Pattern::GitHubUrl, u)) implies #[trigger] url_refs(t).contains(x) by {
        let w = span(t, hs[j].g1);
        lemma_trim_punct_shape(w);
        lemma_url_cut_unique(x, RefView::Url(trim_punct(w)), w);
        assert(cand[j] == x);
    }
}

/// A match has one URL cut from it.
proof fn lemma_url_cut_unique(x: RefView, y: RefView, w: Seq<char>)
    requires
        url_cut_from(x, w),
        url_cut_from(y, w),
    ensures
        x == y,
{
    let u = x->Url_0;
    let v = y->Url_0;
    if u.len() < v.len() {
        assert(v[u.len() as int] == w[u.len() as int]);
        assert(v.last() == w[v.len() - 1]);
    } else if v.len() < u.len() {
        assert(u[v.len() as int] == w[v.len() as int]);
        assert(u.last() == w[u.len() - 1]);
    }
    assert(u =~= v);
}

/// Every list of references that the parsers return holds each reference
/// once; `parse_all` holds only references that one of the four parsers
/// finds, for each of those one that names the same thing, and no two that
/// name the same thing.
pub proof fn lemma_parse_all_union(t: Seq<char>)
    ensures
        file_path_refs(t).no_duplicates(),
        url_refs(t).no_duplicates(),
        symbol_refs(t).no_duplicates(),
        all_refs(t).no_duplicates(),
        distinct_refs(all_refs(t)),
        forall|x: RefView| #[trigger] all_refs(t).contains(x) ==> (file_path_refs(t).contains(x)
            || github_refs(t).contains(x) || url_refs(t).contains(x) || symbol_refs(t).contains(x)),
        forall|x: RefView| (file_path_refs(t).contains(x) || github_refs(t).contains(x) || url_refs(t).contains(x)
            || symbol_refs(t).contains(x)) ==> #[trigger] has_same(all_refs(t), x),
{
    let e = Seq::<RefView>::empty();
    let f = file_path_refs(t);
    let g = github_refs(t);
    let u = url_refs(t);
    let s = symbol_refs(t);
    lemma_collect_props(e, hits(Pattern::FilePath, t, 0).map_values(|h: Hit| RefView::FilePath(span(t, h.g1))), skip_none());
    lemma_collect_props(e, hits(Pattern::Url, t, 0).map_values(|h: Hit| RefView::Url(trim_punct(span(t, h.g1)))),
        |v: RefView| is_github_url_ref(v));
    let first = collect(e, hits(Pattern::SymbolPath, t, 0).map_values(|h: Hit| RefView::Symbol(span(t, h.g1))), skip_none());
    lemma_collect_props(e, hits(Pattern::SymbolPath, t, 0).map_values(|h: Hit| RefView::Symbol(span(t, h.g1))), skip_none());
    lemma_collect_props(first, hits(Pattern::PascalCase, t, 0).map_values(|h: Hit| RefView::Symbol(span(t, h.g1))),
        |v: RefView| is_common_symbol(v));
    let all = f + g + u + s;
    lemma_merge_props(e, all);
    lemma_distinct_no_duplicates(merge(e, all));
    assert forall|x: RefView| #[trigger] all.contains(x) <==> (f.contains(x) || g.contains(x) || u.contains(x) || s.contains(x)) by {
        if all.contains(x) {
            let j = choose|j: int| 0 <= j < all.len() && all[j] == x;
            if j < f.len() {
                assert(f[j] == x);
            } else if j < f.len() + g.len() {
                assert(g[j - f.len()] == x);
            } else if j < f.len() + g.len() + u.len() {
                assert(u[j - f.len() - g.len()] == x);
            } else {
                assert(s[j - f.len() - g.len() - u.len()] == x);
            }
        }
        if f.contains(x) {
            let j = choose|j: int| 0 <= j < f.len() && f[j] == x;
            assert(all[j] == x);
        }
        if g.contains(x) {
            let j = choose|j: int| 0 <= j < g.len() && g[j] == x;
            assert(all[f.len() + j] == x);
        }
        if u.contains(x) {
            let j = choose|j: int| 0 <= j < u.len() && u[j] == x;
            assert(all[f.len() + g.len() + j] == x);
        }
        if s.contains(x) {
            let j = choose|j: int| 0 <= j < s.len() && s[j] == x;
            assert(all[f.len() + g.len() + u.len() + j] == x);
        }
    }
}

// ---------------------------------------------------------------------------
// Executable parts
// ---------------------------------------------------------------------------

/// Appends `r` unless it is already present.
fn push_new(out: &mut Vec<ContextRef>, r: ContextRef)
    ensures
        ref_views(final(out)@) == (if ref_views(old(out)@).contains(r@) {
            ref_views(old(out)@)
        } else {
            ref_views(old(out)@).push(r@)
        }),
{
    if !contains_ref(out, &r) {
        proof {
            assert(ref_views(old(out)@.push(r)) =~= ref_views(old(out)@).push(r@));
        }
        out.push(r);
    }
}

/// The text of a span of a classified text.
fn span_string(c: &Classes, g: (usize, usize)) -> (s: String)
    requires
        g.0 <= g.1 <= c.t@.len(),
    ensures
        s@ == span(c.t@, (g.0 as int, g.1 as int)),
{
    let v = slice_chars(c.t.as_slice(), g.0, g.1);
    string_of(v.as_slice())
}

/// The value of a string of ASCII digits that fits in a `u64`, else 0.
pub fn parse_decimal_u64(w: &[char]) -> (n: u64)
    ensures
        n == decimal_u64(w@),
{
    if w.len() == 0 {
        return 0;
    }
    let mut acc: u64 = 0;
    let mut i: usize = 0;
    let mut fits = true;
    while i < w.len()
        invariant
            i <= w@.len(),
            fits ==> forall|j: int| 0 <= j < i ==> '0' <= #[trigger] w@[j] <= '9',
            fits ==> acc == digits_value(w@.take(i as int)),
            !fits ==> (all_ascii_digits(w@) ==> digits_value(w@) > u64::MAX),
        decreases w@.len() - i,
    {
        let ch = w[i];
        if !('0' <= ch && ch <= '9') {
            return 0;
        }
        if fits {
            let d = (ch as u32 - '0' as u32) as u64;
            proof {
                assert(w@.take(i + 1).drop_last() =~= w@.take(i as int));
                assert(w@.take(i + 1).last() == ch);
            }
            match acc.checked_mul(10) {
                Some(m) => match m.checked_add(d) {
                    Some(v) => {
                        acc = v;
                    },
                    None => {
                        proof {
                            if all_ascii_digits(w@) {
                                lemma_digits_prefix(w@, i + 1);
                            }
                        }
                        fits = false;
                    },
                },
                None => {
                    proof {
                        if all_ascii_digits(w@) {
                            lemma_digits_prefix(w@, i + 1);
                        }
                    }
                    fits = false;
                },
            }
        }
        i = i + 1;
    }
    if fits {
        proof {
            assert(w@.take(w@.len() as int) =~= w@);
        }
        acc
    } else {
        0
    }
}

/// Whether a reference's owner, repository and number occur among the given ones.
fn has_key_exec(out: &Vec<ContextRef>, owner: &String, repo: &String, number: u64) -> (b: bool)
    requires
        number != 0,
    ensures
        b == has_key(ref_views(out@), (owner@, repo@, number)),
{
    let mut i: usize = 0;
    while i < out.len()
        invariant
            i <= out@.len(),
            number != 0,
            forall|j: int| 0 <= j < i ==> gh_key(#[trigger] ref_views(out@)[j]) != (owner@, repo@, number),
        decreases out@.len() - i,
    {
        let same = match &out[i] {
            ContextRef::GitHubIssue { owner: o, repo: r, number: n } => *n == number && crate::text::str_eq(
                o.as_str(),
                owner.as_str(),
            ) && crate::text::str_eq(r.as_str(), repo.as_str()),
            ContextRef::GitHubPr { owner: o, repo: r, number: n } => *n == number && crate::text::str_eq(
                o.as_str(),
                owner.as_str(),
            ) && crate::text::str_eq(r.as_str(), repo.as_str()),
            _ => false,
        };
        proof {
            assert(ref_views(out@)[i as int] == out@[i as int]@);
        }
        if same {
            assert(gh_key(ref_views(out@)[i as int]) == (owner@, repo@, number));
            return true;
        }
        i = i + 1;
    }
    false
}

/// Appends a GitHub reference unless its number is 0 or its owner,
/// repository and number are already present.
fn push_gh(out: &mut Vec<ContextRef>, r: ContextRef)
    requires
        r is GitHubIssue || r is GitHubPr,
    ensures
        ref_views(final(out)@) == (if gh_key(r@).2 == 0 || has_key(ref_views(old(out)@), gh_key(r@)) {
            ref_views(old(out)@)
        } else {
            ref_views(old(out)@).push(r@)
        }),
{
    let present = match &r {
        ContextRef::GitHubIssue { owner, repo, number } => *number == 0 || has_key_exec(out, owner, repo, *number),
        ContextRef::GitHubPr { owner, repo, number } => *number == 0 || has_key_exec(out, owner, repo, *number),
        _ => true,
    };
    if !present {
        proof {
            assert(ref_views(old(out)@.push(r)) =~= ref_views(old(out)@).push(r@));
        }
        out.push(r);
    }
}

/// Parse file path references from text.
///
/// Matches patterns like `src/main.rs`, `/home/user/file.rs`, `./relative/path.rs`.
pub fn parse_file_paths(text: &str) -> (refs: Vec<ContextRef>)
    ensures
        ref_views(refs@) == file_path_refs(text@),
        ref_views(refs@).no_duplicates(),
{
    proof {
        lemma_parse_all_union(text@);
    }
    let c = Classes::new(chars_of(text));
    let hs = c.all_hits(Pattern::FilePath);
    let ghost t = c.t@;
    let ghost cand = hits(Pattern::FilePath, t, 0).map_values(|h: Hit| RefView::FilePath(span(t, h.g1)));
    let mut out: Vec<ContextRef> = Vec::new();
    let mut i: usize = 0;
    while i < hs.len()
        invariant
            c.ok(),
            t == c.t@,
            i <= hs@.len(),
            hs@.map_values(|h: ExecHit| h.view()) == hits(Pattern::FilePath, t, 0),
            forall|j: int| 0 <= j < hs@.len() ==> #[trigger] hs@[j].spans_within(t.len()),
            cand == hits(Pattern::FilePath, t, 0).map_values(|h: Hit| RefView::FilePath(span(t, h.g1))),
            ref_views(out@) == collect(Seq::empty(), cand.take(i as int), skip_none()),
        decreases hs@.len() - i,
    {
        let h = hs[i];
        assert(hs@.map_values(|h: ExecHit| h.view())[i as int] == h.view());
        assert(hs@[i as int].spans_within(t.len()));
        let r = ContextRef::FilePath { path: span_string(&c, h.g1) };
        proof {
            lemma_collect_step(Seq::empty(), cand, i as int, skip_none());
        }
        push_new(&mut out, r);
        i = i + 1;
    }
    proof {
        assert(cand.take(hs@.len() as int) =~= cand);
    }
    out
}

/// Whether a span of a classified text reads `pull`.
fn span_is_pull(c: &Classes, g: (usize, usize)) -> (b: bool)
    requires
        g.0 <= g.1 <= c.t@.len(),
    ensures
        b == (span(c.t@, (g.0 as int, g.1 as int)) == "pull"@),
{
    let v = slice_chars(c.t.as_slice(), g.0, g.1);
    let p = chars_of("pull");
    chars_eq(v.as_slice(), p.as_slice())
}

/// Parse GitHub issue/PR references from text.
///
/// Matches:
/// - `owner/repo#123` (shorthand — parsed as issue since kind is ambiguous)
/// - `https://github.com/owner/repo/issues/123`
/// - `https://github.com/owner/repo/pull/456`
pub fn parse_github_refs(text: &str) -> (refs: Vec<ContextRef>)
    ensures
        ref_views(refs@) == github_refs(text@),
        ref_views(refs@).no_duplicates(),
        keys_distinct(ref_views(refs@)),
{
    proof {
        lemma_github_refs_distinct(text@);
    }
    let c = Classes::new(chars_of(text));
    let ghost t = c.t@;
    let us = c.all_hits(Pattern::GitHubUrl);
    let ss = c.all_hits(Pattern::GitHubShort);
    let ghost c1 = hits(Pattern::GitHubUrl, t, 0).map_values(|h: Hit| gh_url_view(t, h));
    let ghost c2 = hits(Pattern::GitHubShort, t, 0).map_values(|h: Hit| gh_short_view(t, h));
    let mut out: Vec<ContextRef> = Vec::new();
    let mut i: usize = 0;
    while i < us.len()
        invariant
            c.ok(),
            t == c.t@,
            i <= us@.len(),
            us@.map_values(|h: ExecHit| h.view()) == hits(Pattern::GitHubUrl, t, 0),
            forall|j: int| 0 <= j < us@.len() ==> #[trigger] us@[j].spans_within(t.len()),
            c1 == hits(Pattern::GitHubUrl, t, 0).map_values(|h: Hit| gh_url_view(t, h)),
            ref_views(out@) == gh_collect(Seq::empty(), c1.take(i as int)),
        decreases us@.len() - i,
    {
        let h = us[i];
        assert(us@.map_values(|h: ExecHit| h.view())[i as int] == h.view());
        assert(us@[i as int].spans_within(t.len()));
        let owner = span_string(&c, h.g1);
        let repo = span_string(&c, h.g2);
        let digits = slice_chars(c.t.as_slice(), h.g4.0, h.g4.1);
        let number = parse_decimal_u64(digits.as_slice());
        let r = if span_is_pull(&c, h.g3) {
            ContextRef::GitHubPr { owner, repo, number }
        } else {
            ContextRef::GitHubIssue { owner, repo, number }
        };
        proof {
            lemma_gh_collect_step(Seq::empty(), c1, i as int);
        }
        push_gh(&mut out, r);
        i = i + 1;
    }
    proof {
        assert(c1.take(us@.len() as int) =~= c1);
    }
    let ghost cc = c1 + c2;
    proof {
        assert(cc.take(c1.len() as int) =~= c1);
    }
    let mut i: usize = 0;
    while i < ss.len()
        invariant
            c.ok(),
            t == c.t@,
            i <= ss@.len(),
            ss@.map_values(|h: ExecHit| h.view()) == hits(Pattern::GitHubShort, t, 0),
            forall|j: int| 0 <= j < ss@.len() ==> #[trigger] ss@[j].spans_within(t.len()),
            c2 == hits(Pattern::GitHubShort, t, 0).map_values(|h: Hit| gh_short_view(t, h)),
            cc == c1 + c2,
            ref_views(out@) == gh_collect(Seq::empty(), cc.take(c1.len() + i)),
        decreases ss@.len() - i,
    {
        let h = ss[i];
        assert(ss@.map_values(|h: ExecHit| h.view())[i as int] == h.view());
        assert(ss@[i as int].spans_within(t.len()));
        let owner = span_string(&c, h.g1);
        let repo = span_string(&c, h.g2);
        let digits = slice_chars(c.t.as_slice(), h.g4.0, h.g4.1);
        let number = parse_decimal_u64(digits.as_slice());
        let r = ContextRef::GitHubIssue { owner, repo, number };
        proof {
            assert(cc[c1.len() + i] == c2[i as int]);
            lemma_gh_collect_step(Seq::empty(), cc, c1.len() + i);
        }
        push_gh(&mut out, r);
        i = i + 1;
    }
    proof {
        assert(cc.take(c1.len() + ss@.len() as int) =~= cc);
    }
    out
}

/// `w` with all trailing punctuation removed.
fn trim_trailing_punct(w: &Vec<char>) -> (r: Vec<char>)
    ensures
        r@ == trim_punct(w@),
{
    let mut e = w.len();
    assert(w@.take(e as int) =~= w@);
    while e > 0 && (w[e - 1] == '.' || w[e - 1] == ',' || w[e - 1] == ';' || w[e - 1] == ':'
        || w[e - 1] == '!' || w[e - 1] == '?')
        invariant
            e <= w@.len(),
            trim_punct(w@) == trim_punct(w@.take(e as int)),
        decreases e,
    {
        proof {
            assert(w@.take(e as int).drop_last() =~= w@.take(e - 1));
        }
        e = e - 1;
    }
    proof {
        if e == 0 {
            assert(w@.take(0) =~= Seq::<char>::empty());
        }
    }
    let r = slice_chars(w.as_slice(), 0, e);
    assert(r@ =~= w@.take(e as int));
    r
}

/// Parse generic URL references from text, excluding GitHub issue/PR URLs
/// (which are handled by [`parse_github_refs`]).
pub fn parse_urls(text: &str) -> (refs: Vec<ContextRef>)
    ensures
        ref_views(refs@) == url_refs(text@),
        ref_views(refs@).no_duplicates(),
{
    proof {
        lemma_parse_all_union(text@);
    }
    let c = Classes::new(chars_of(text));
    let hs = c.all_hits(Pattern::Url);
    let ghost t = c.t@;
    let ghost cand = hits(Pattern::Url, t, 0).map_values(|h: Hit| RefView::Url(trim_punct(span(t, h.g1))));
    let ghost skip = |v: RefView| is_github_url_ref(v);
    let mut out: Vec<ContextRef> = Vec::new();
    let mut i: usize = 0;
    while i < hs.len()
        invariant
            c.ok(),
            t == c.t@,
            i <= hs@.len(),
            hs@.map_values(|h: ExecHit| h.view()) == hits(Pattern::Url, t, 0),
            forall|j: int| 0 <= j < hs@.len() ==> #[trigger] hs@[j].spans_within(t.len()),
            cand == hits(Pattern::Url, t, 0).map_values(|h: Hit| RefView::Url(trim_punct(span(t, h.g1)))),
            skip == (|v: RefView| is_github_url_ref(v)),
            ref_views(out@) == collect(Seq::empty(), cand.take(i as int), skip),
        decreases hs@.len() - i,
    {
        let h = hs[i];
        assert(hs@.map_values(|h: ExecHit| h.view())[i as int] == h.view());
        assert(hs@[i as int].spans_within(t.len()));
        let raw = slice_chars(c.t.as_slice(), h.g1.0, h.g1.1);
        let url = trim_trailing_punct(&raw);
        let inner = Classes::new(url);
        let github = inner.matches_somewhere(Pattern::GitHubUrl);
        let r = ContextRef::Url { url: string_of(inner.t.as_slice()) };
        proof {
            lemma_collect_step(Seq::empty(), cand, i as int, skip);
        }
        if !github {
            push_new(&mut out, r);
        }
        i = i + 1;
    }
    proof {
        assert(cand.take(hs@.len() as int) =~= cand);
    }
    out
}

/// Whether a word is one of the common English words that look like
/// PascalCase but aren't symbols.
pub fn is_common_word(s: &str) -> (b: bool)
    ensures
        b == common_word(s@),
{
    let w = chars_of(s);
    word_is_common(w.as_slice())
}

fn word_is_common(w: &[char]) -> (b: bool)
    ensures
        b == common_word(w@),
{
    let words: [&str; 17] = [
        "The", "This", "That", "These", "Those", "When", "Where", "Which", "While", "Before",
        "After", "Because", "However", "Also", "Each", "Every", "Some",
    ];
    assert(words@ =~= common_words());
    chars_in_list(w, &words)
}

/// Parse Rust-style symbol references from text.
///
/// Matches:
/// - Qualified paths like `std::collections::HashMap`
/// - PascalCase type names like `ContextRef`, `HashMap`
pub fn parse_symbols(text: &str) -> (refs: Vec<ContextRef>)
    ensures
        ref_views(refs@) == symbol_refs(text@),
        ref_views(refs@).no_duplicates(),
{
    proof {
        lemma_parse_all_union(text@);
    }
    let c = Classes::new(chars_of(text));
    let ghost t = c.t@;
    let ps = c.all_hits(Pattern::SymbolPath);
    let cs = c.all_hits(Pattern::PascalCase);
    let ghost c1 = hits(Pattern::SymbolPath, t, 0).map_values(|h: Hit| RefView::Symbol(span(t, h.g1)));
    let ghost c2 = hits(Pattern::PascalCase, t, 0).map_values(|h: Hit| RefView::Symbol(span(t, h.g1)));
    let mut out: Vec<ContextRef> = Vec::new();
    let mut i: usize = 0;
    while i < ps.len()
        invariant
            c.ok(),
            t == c.t@,
            i <= ps@.len(),
            ps@.map_values(|h: ExecHit| h.view()) == hits(Pattern::SymbolPath, t, 0),
            forall|j: int| 0 <= j < ps@.len() ==> #[trigger] ps@[j].spans_within(t.len()),
            c1 == hits(Pattern::SymbolPath, t, 0).map_values(|h: Hit| RefView::Symbol(span(t, h.g1))),
            ref_views(out@) == collect(Seq::empty(), c1.take(i as int), skip_none()),
        decreases ps@.len() - i,
    {
        let h = ps[i];
        assert(ps@.map_values(|h: ExecHit| h.view())[i as int] == h.view());
        assert(ps@[i as int].spans_within(t.len()));
        let r = ContextRef::Symbol { name: span_string(&c, h.g1) };
        proof {
            lemma_collect_step(Seq::empty(), c1, i as int, skip_none());
        }
        push_new(&mut out, r);
        i = i + 1;
    }
    proof {
        assert(c1.take(ps@.len() as int) =~= c1);
    }
    let ghost first = collect(Seq::empty(), c1, skip_none());
    let ghost skip = |v: RefView| is_common_symbol(v);
    let mut i: usize = 0;
    while i < cs.len()
        invariant
            c.ok(),
            t == c.t@,
            i <= cs@.len(),
            cs@.map_values(|h: ExecHit| h.view()) == hits(Pattern::PascalCase, t, 0),
            forall|j: int| 0 <= j < cs@.len() ==> #[trigger] cs@[j].spans_within(t.len()),
            c2 == hits(Pattern::PascalCase, t, 0).map_values(|h: Hit| RefView::Symbol(span(t, h.g1))),
            skip == (|v: RefView| is_common_symbol(v)),
            ref_views(out@) == collect(first, c2.take(i as int), skip),
        decreases cs@.len() - i,
    {
        let h = cs[i];
        assert(cs@.map_values(|h: ExecHit| h.view())[i as int] == h.view());
        assert(cs@[i as int].spans_within(t.len()));
        let name = slice_chars(c.t.as_slice(), h.g1.0, h.g1.1);
        let common = word_is_common(name.as_slice());
        let r = ContextRef::Symbol { name: string_of(name.as_slice()) };
        proof {
            lemma_collect_step(first, c2, i as int, skip);
        }
        if !common {
            push_new(&mut out, r);
        }
        i = i + 1;
    }
    proof {
        assert(c2.take(cs@.len() as int) =~= c2);
    }
    out
}

/// Appends `r` unless a reference naming the same thing is present.
fn push_merged(out: &mut Vec<ContextRef>, r: ContextRef)
    ensures
        ref_views(final(out)@) == (if has_same(ref_views(old(out)@), r@) {
            ref_views(old(out)@)
        } else {
            ref_views(old(out)@).push(r@)
        }),
{
    if !has_same_ref(out, &r) {
        proof {
            assert(ref_views(old(out)@.push(r)) =~= ref_views(old(out)@).push(r@));
        }
        out.push(r);
    }
}

/// Appends the references of `src` that name nothing already present, in
/// order.
fn merge_into(out: &mut Vec<ContextRef>, src: Vec<ContextRef>)
    ensures
        ref_views(final(out)@) == merge(ref_views(old(out)@), ref_views(src@)),
{
    let ghost start = ref_views(out@);
    let ghost sv = ref_views(src@);
    let mut i: usize = 0;
    while i < src.len()
        invariant
            i <= src@.len(),
            sv == ref_views(src@),
            ref_views(out@) == merge(start, sv.take(i as int)),
        decreases src@.len() - i,
    {
        let r = src[i].duplicate();
        proof {
            lemma_merge_step(start, sv, i as int);
        }
        push_merged(out, r);
        i = i + 1;
    }
    proof {
        assert(sv.take(src@.len() as int) =~= sv);
    }
}

/// Run all parsers on the text and return deduplicated results.
pub fn parse_all(text: &str) -> (refs: Vec<ContextRef>)
    ensures
        ref_views(refs@) == all_refs(text@),
        ref_views(refs@).no_duplicates(),
        distinct_refs(ref_views(refs@)),
{
    proof {
        lemma_parse_all_union(text@);
    }
    let a = parse_file_paths(text);
    let b = parse_github_refs(text);
    let u = parse_urls(text);
    let s = parse_symbols(text);
    let ghost (va, vb, vu, vs) = (ref_views(a@), ref_views(b@), ref_views(u@), ref_views(s@));
    let mut out: Vec<ContextRef> = Vec::new();
    assert(ref_views(out@) =~= Seq::<RefView>::empty());
    merge_into(&mut out, a);
    merge_into(&mut out, b);
    merge_into(&mut out, u);
    merge_into(&mut out, s);
    proof {
        lemma_merge_concat(Seq::empty(), va, vb);
        lemma_merge_concat(Seq::empty(), va + vb, vu);
        lemma_merge_concat(Seq::empty(), va + vb + vu, vs);
    }
    out
}

/// The first half of hydrating a bundle: the references found in its task
/// description are added to its references, and a reference that names
/// what an earlier one names is dropped. Nothing else changes.
pub fn gather_refs(bundle: &mut ContextBundle)
    ensures
        ref_views(final(bundle).refs@) == merge(
            Seq::empty(),
            ref_views(old(bundle).refs@) + all_refs(old(bundle).task_description@),
        ),
        final(bundle).task_description == old(bundle).task_description,
        final(bundle).entries == old(bundle).entries,
        final(bundle).plan == old(bundle).plan,
        final(bundle).modified_files == old(bundle).modified_files,
        final(bundle).diagnostics == old(bundle).diagnostics,
        final(bundle).metadata == old(bundle).metadata,
{
    let found = parse_all(bundle.task_description.as_str());
    let mut existing: Vec<ContextRef> = Vec::new();
    std::mem::swap(&mut existing, &mut bundle.refs);
    let ghost e = ref_views(existing@);
    let ghost f = ref_views(found@);
    let mut out: Vec<ContextRef> = Vec::new();
    assert(ref_views(out@) =~= Seq::<RefView>::empty());
    merge_into(&mut out, existing);
    merge_into(&mut out, found);
    proof {
        lemma_merge_concat(Seq::empty(), e, f);
    }
    bundle.refs = out;
}

} // verus!
