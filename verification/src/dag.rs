//! Pipeline DAG: stage dependencies, execution levels (Kahn's algorithm) and
//! topological order.
use vstd::prelude::*;

use crate::error::SakamotoError;
use crate::text::{chars_of, extend_str, str_eq, string_of, to_owned_string, views};

verus! {

// ---------------------------------------------------------------------------
// The model: stages are numbered 0..n; an edge (s, d) says that stage `s`
// depends on stage `d`.
// ---------------------------------------------------------------------------

/// Every dependency of `v` is settled within `k - 1` rounds, recursively:
/// `within(E, v, k)` holds when all chains of dependencies that start at `v`
/// have fewer than `k + 1` stages.
pub open spec fn within(edges: Seq<(usize, usize)>, v: int, k: nat) -> bool
    decreases k,
{
    forall|i: int|
        #![trigger edges[i]]
        0 <= i < edges.len() && edges[i].0 == v ==> k > 0 && within(
            edges,
            edges[i].1 as int,
            (k - 1) as nat,
        )
}

/// `v` runs at level `k`: its longest chain of dependencies has `k` edges.
pub open spec fn has_depth(edges: Seq<(usize, usize)>, v: int, k: nat) -> bool {
    within(edges, v, k) && (k == 0 || !within(edges, v, (k - 1) as nat))
}

/// `u` has not yet run before level `b`.
pub open spec fn open_at(edges: Seq<(usize, usize)>, u: int, b: nat) -> bool {
    !(b > 0 && within(edges, u, (b - 1) as nat))
}

/// Number of edges of `part` leaving `v` whose target has not run before level `b`.
pub open spec fn count_open(
    edges: Seq<(usize, usize)>,
    part: Seq<(usize, usize)>,
    v: int,
    b: nat,
) -> nat
    decreases part.len(),
{
    if part.len() == 0 {
        0
    } else {
        count_open(edges, part.drop_last(), v, b) + if part.last().0 == v && open_at(
            edges,
            part.last().1 as int,
            b,
        ) {
            1nat
        } else {
            0nat
        }
    }
}

/// Number of edges of `part` leaving `v` whose target is in `s`.
pub open spec fn count_in(part: Seq<(usize, usize)>, v: int, s: Seq<usize>) -> nat
    decreases part.len(),
{
    if part.len() == 0 {
        0
    } else {
        count_in(part.drop_last(), v, s) + if part.last().0 == v && s.contains(part.last().1) {
            1nat
        } else {
            0nat
        }
    }
}

/// Number of edges of `part` equal to `(v, x)`.
pub open spec fn count_pair(part: Seq<(usize, usize)>, v: int, x: usize) -> nat
    decreases part.len(),
{
    if part.len() == 0 {
        0
    } else {
        count_pair(part.drop_last(), v, x) + if part.last().0 == v && part.last().1 == x {
            1nat
        } else {
            0nat
        }
    }
}

/// The graph has no cycle: every stage has a finite depth.
pub open spec fn all_within(edges: Seq<(usize, usize)>, n: nat) -> bool {
    forall|v: int| 0 <= v < n ==> within(edges, v, n)
}

/// Number of `true` entries.
pub open spec fn count_true(s: Seq<bool>) -> nat
    decreases s.len(),
{
    if s.len() == 0 {
        0
    } else {
        count_true(s.drop_last()) + if s.last() {
            1nat
        } else {
            0nat
        }
    }
}

/// The first index of `x` in `s`, or `s.len()` when absent.
pub open spec fn index_in<A>(s: Seq<A>, x: A) -> int
    decreases s.len(),
{
    if s.len() == 0 {
        0
    } else if s[0] == x {
        0
    } else {
        1 + index_in(s.drop_first(), x)
    }
}

pub proof fn lemma_index_in<A>(s: Seq<A>, x: A)
    ensures
        0 <= index_in(s, x) <= s.len(),
        s.contains(x) <==> index_in(s, x) < s.len(),
        index_in(s, x) < s.len() ==> s[index_in(s, x)] == x,
        forall|j: int| 0 <= j < index_in(s, x) ==> s[j] != x,
    decreases s.len(),
{
    if s.len() > 0 && s[0] != x {
        lemma_index_in(s.drop_first(), x);
        assert forall|j: int| 0 <= j < index_in(s, x) implies s[j] != x by {
            if j > 0 {
                assert(s[j] == s.drop_first()[j - 1]);
            }
        }
        if s.contains(x) {
            let j = choose|j: int| 0 <= j < s.len() && s[j] == x;
            assert(s.drop_first()[j - 1] == x);
        }
        if s.drop_first().contains(x) {
            let j = choose|j: int| 0 <= j < s.drop_first().len() && s.drop_first()[j] == x;
            assert(s[j + 1] == x);
        }
    }
}

pub proof fn lemma_index_in_unique<A>(s: Seq<A>, i: int)
    requires
        s.no_duplicates(),
        0 <= i < s.len(),
    ensures
        index_in(s, s[i]) == i,
{
    lemma_index_in(s, s[i]);
}

// ---------------------------------------------------------------------------
// Lemmas about depths
// ---------------------------------------------------------------------------

pub proof fn lemma_within_step(edges: Seq<(usize, usize)>, v: int, k: nat)
    requires
        within(edges, v, k),
    ensures
        within(edges, v, k + 1),
    decreases k,
{
    assert forall|i: int|
        #![trigger edges[i]]
        0 <= i < edges.len() && edges[i].0 == v implies k + 1 > 0 && within(
        edges,
        edges[i].1 as int,
        k,
    ) by {
        assert(k > 0 && within(edges, edges[i].1 as int, (k - 1) as nat));
        lemma_within_step(edges, edges[i].1 as int, (k - 1) as nat);
    }
}

pub proof fn lemma_within_mono(edges: Seq<(usize, usize)>, v: int, j: nat, k: nat)
    requires
        within(edges, v, j),
        j <= k,
    ensures
        within(edges, v, k),
    decreases k - j,
{
    if j < k {
        lemma_within_step(edges, v, j);
        lemma_within_mono(edges, v, j + 1, k);
    }
}

/// A depth is below every round count within which the stage is settled.
pub proof fn lemma_depth_least(edges: Seq<(usize, usize)>, v: int, d: nat, j: nat)
    requires
        has_depth(edges, v, d),
        within(edges, v, j),
    ensures
        d <= j,
{
    if d > j {
        lemma_within_mono(edges, v, j, (d - 1) as nat);
    }
}

pub proof fn lemma_depth_unique(edges: Seq<(usize, usize)>, v: int, d1: nat, d2: nat)
    requires
        has_depth(edges, v, d1),
        has_depth(edges, v, d2),
    ensures
        d1 == d2,
{
    lemma_depth_least(edges, v, d1, d2);
    lemma_depth_least(edges, v, d2, d1);
}

/// A stage settled within `k` rounds has a depth of at most `k`.
pub proof fn lemma_some_depth(edges: Seq<(usize, usize)>, v: int, k: nat) -> (d: nat)
    requires
        within(edges, v, k),
    ensures
        d <= k,
        has_depth(edges, v, d),
    decreases k,
{
    if k == 0 {
        0
    } else if within(edges, v, (k - 1) as nat) {
        lemma_some_depth(edges, v, (k - 1) as nat)
    } else {
        k
    }
}

/// The target of an edge has a smaller depth than its source.
pub proof fn lemma_edge_depth(edges: Seq<(usize, usize)>, i: int, ds: nat, dd: nat)
    requires
        0 <= i < edges.len(),
        has_depth(edges, edges[i].0 as int, ds),
        has_depth(edges, edges[i].1 as int, dd),
    ensures
        dd < ds,
{
    assert(edges[i].0 == edges[i].0);
    assert(ds > 0 && within(edges, edges[i].1 as int, (ds - 1) as nat));
    lemma_depth_least(edges, edges[i].1 as int, dd, (ds - 1) as nat);
}

/// From a stage of depth `d >= k`, a chain of dependencies reaches a stage of depth `k`.
pub proof fn lemma_depth_descends(
    edges: Seq<(usize, usize)>,
    n: nat,
    v: int,
    d: nat,
    k: nat,
) -> (u: int)
    requires
        forall|i: int| 0 <= i < edges.len() ==> #[trigger] edges[i].1 < n,
        0 <= v < n,
        has_depth(edges, v, d),
        k <= d,
    ensures
        0 <= u < n,
        has_depth(edges, u, k),
    decreases d - k,
{
    if d == k {
        v
    } else {
        let i = choose|i: int|
            #![trigger edges[i]]
            0 <= i < edges.len() && edges[i].0 == v && !((d - 1) > 0 && within(
                edges,
                edges[i].1 as int,
                (d - 2) as nat,
            ));
        let u1 = edges[i].1 as int;
        assert(within(edges, u1, (d - 1) as nat));
        assert(has_depth(edges, u1, (d - 1) as nat));
        lemma_depth_descends(edges, n, u1, (d - 1) as nat, k)
    }
}

// ---------------------------------------------------------------------------
// Counting lemmas
// ---------------------------------------------------------------------------

proof fn lemma_count_open_zero(
    edges: Seq<(usize, usize)>,
    part: Seq<(usize, usize)>,
    v: int,
    b: nat,
)
    ensures
        count_open(edges, part, v, b) == 0 <==> forall|i: int|
            #![trigger part[i]]
            0 <= i < part.len() && part[i].0 == v ==> !open_at(edges, part[i].1 as int, b),
    decreases part.len(),
{
    if part.len() > 0 {
        let p = part.drop_last();
        lemma_count_open_zero(edges, p, v, b);
        if count_open(edges, part, v, b) == 0 {
            assert forall|i: int|
                #![trigger part[i]]
                0 <= i < part.len() && part[i].0 == v implies !open_at(
                edges,
                part[i].1 as int,
                b,
            ) by {
                if i < p.len() {
                    assert(part[i] == p[i]);
                }
            }
        }
        if forall|i: int|
            #![trigger part[i]]
            0 <= i < part.len() && part[i].0 == v ==> !open_at(edges, part[i].1 as int, b) {
            assert forall|i: int|
                #![trigger p[i]]
                0 <= i < p.len() && p[i].0 == v implies !open_at(edges, p[i].1 as int, b) by {
                assert(part[i] == p[i]);
            }
            assert(part[part.len() - 1] == part.last());
        }
    }
}

/// No open dependency at level `b` is the same as being settled within `b`.
proof fn lemma_count_open_zero_within(edges: Seq<(usize, usize)>, v: int, b: nat)
    ensures
        count_open(edges, edges, v, b) == 0 <==> within(edges, v, b),
{
    lemma_count_open_zero(edges, edges, v, b);
}

proof fn lemma_count_in_push(part: Seq<(usize, usize)>, v: int, s: Seq<usize>, x: usize)
    requires
        !s.contains(x),
    ensures
        count_in(part, v, s.push(x)) == count_in(part, v, s) + count_pair(part, v, x),
    decreases part.len(),
{
    if part.len() > 0 {
        lemma_count_in_push(part.drop_last(), v, s, x);
        let e = part.last();
        if s.push(x).contains(e.1) && e.1 != x {
            let j = choose|j: int| 0 <= j < s.push(x).len() && s.push(x)[j] == e.1;
            assert(s[j] == e.1);
        }
        if s.contains(e.1) {
            let j = choose|j: int| 0 <= j < s.len() && s[j] == e.1;
            assert(s.push(x)[j] == e.1);
        }
        if e.1 == x {
            assert(s.push(x)[s.len() as int] == x);
        }
    }
}

proof fn lemma_count_in_empty(part: Seq<(usize, usize)>, v: int)
    ensures
        count_in(part, v, Seq::<usize>::empty()) == 0,
    decreases part.len(),
{
    if part.len() > 0 {
        lemma_count_in_empty(part.drop_last(), v);
    }
}

proof fn lemma_count_in_le_open(
    edges: Seq<(usize, usize)>,
    part: Seq<(usize, usize)>,
    v: int,
    s: Seq<usize>,
    b: nat,
)
    requires
        forall|j: int| 0 <= j < s.len() ==> open_at(edges, #[trigger] s[j] as int, b),
    ensures
        count_in(part, v, s) <= count_open(edges, part, v, b),
    decreases part.len(),
{
    if part.len() > 0 {
        lemma_count_in_le_open(edges, part.drop_last(), v, s, b);
        let e = part.last();
        if s.contains(e.1) {
            let j = choose|j: int| 0 <= j < s.len() && s[j] == e.1;
            assert(open_at(edges, s[j] as int, b));
        }
    }
}

proof fn lemma_count_pair_prefix(part: Seq<(usize, usize)>, v: int, x: usize, j: int)
    requires
        0 <= j <= part.len(),
    ensures
        count_pair(part.take(j), v, x) <= count_pair(part, v, x),
    decreases part.len() - j,
{
    if j < part.len() {
        lemma_count_pair_prefix(part, v, x, j + 1);
        assert(part.take(j + 1).drop_last() =~= part.take(j));
    } else {
        assert(part.take(j) =~= part);
    }
}

/// An edge `(v, x)` beyond the first `j + 1` edges makes the count of all
/// such edges exceed the count among the first `j + 1`.
proof fn lemma_count_pair_strict(part: Seq<(usize, usize)>, v: int, x: usize, j: int, j2: int)
    requires
        0 <= j < j2 < part.len(),
        part[j2].0 == v,
        part[j2].1 == x,
    ensures
        count_pair(part.take(j + 1), v, x) < count_pair(part, v, x),
    decreases part.len(),
{
    let d = part.drop_last();
    assert(part.take(j + 1) =~= d.take(j + 1));
    if j2 == part.len() - 1 {
        lemma_count_pair_prefix(d, v, x, j + 1);
    } else {
        assert(d[j2] == part[j2]);
        lemma_count_pair_strict(d, v, x, j, j2);
    }
}

/// An open dependency of `v` whose target is not in `s` makes the open
/// dependencies of `v` outnumber those whose target is in `s`.
proof fn lemma_count_in_lt_open(
    edges: Seq<(usize, usize)>,
    part: Seq<(usize, usize)>,
    v: int,
    s: Seq<usize>,
    b: nat,
    i: int,
)
    requires
        forall|j: int| 0 <= j < s.len() ==> open_at(edges, #[trigger] s[j] as int, b),
        0 <= i < part.len(),
        part[i].0 == v,
        open_at(edges, part[i].1 as int, b),
        !s.contains(part[i].1),
    ensures
        count_in(part, v, s) < count_open(edges, part, v, b),
    decreases part.len(),
{
    let d = part.drop_last();
    let e = part.last();
    if i == part.len() - 1 {
        lemma_count_in_le_open(edges, d, v, s, b);
    } else {
        assert(d[i] == part[i]);
        lemma_count_in_lt_open(edges, d, v, s, b, i);
        if s.contains(e.1) {
            let j = choose|j: int| 0 <= j < s.len() && s[j] == e.1;
            assert(open_at(edges, s[j] as int, b));
        }
    }
}

/// `(m, j)` comes before `(m2, j2)`: by level position, then by edge index.
pub open spec fn pair_lt(a: (int, int), b: (int, int)) -> bool {
    a.0 < b.0 || (a.0 == b.0 && a.1 < b.1)
}

/// `(m, j)` is the last dependency of `s` on the previous level `prev`, in
/// the order Kahn's algorithm meets them: edge `j` goes from `s` to
/// `prev[m]`, and no edge from `s` to a stage of `prev` comes later (by
/// the position of its target in `prev`, then by its index).
pub open spec fn last_pair(edges: Seq<(usize, usize)>, prev: Seq<usize>, s: usize, m: int, j: int) -> bool {
    &&& 0 <= m < prev.len()
    &&& 0 <= j < edges.len()
    &&& edges[j].0 == s
    &&& edges[j].1 == prev[m]
    &&& forall|m2: int, j2: int|
        0 <= m2 < prev.len() && 0 <= j2 < edges.len() && #[trigger] edges[j2].0 == s && edges[j2].1
            == #[trigger] prev[m2] ==> !pair_lt((m, j), (m2, j2))
}

/// `lvl` is in the order Kahn's algorithm gives a level after `prev`: each
/// stage comes when its last dependency on `prev` is met, in the order
/// those dependencies are met.
pub open spec fn kahn_ordered(edges: Seq<(usize, usize)>, prev: Seq<usize>, lvl: Seq<usize>) -> bool {
    exists|keys: Seq<(int, int)>|
        #![trigger keys.len()]
        {
            &&& keys.len() == lvl.len()
            &&& forall|p: int| 0 <= p < lvl.len() ==> last_pair(edges, prev, #[trigger] lvl[p], keys[p].0, keys[p].1)
            &&& forall|p: int, q: int| 0 <= p < q < lvl.len() ==> pair_lt(#[trigger] keys[p], #[trigger] keys[q])
        }
}

/// The order of the first level: by stage index.
pub open spec fn ascending(lvl: Seq<usize>) -> bool {
    forall|p: int, q: int| 0 <= p < q < lvl.len() ==> #[trigger] lvl[p] < #[trigger] lvl[q]
}

/// Levels of names as sequences of names.
pub open spec fn level_views(levels: Seq<Vec<String>>) -> Seq<Seq<Seq<char>>> {
    levels.map_values(|l: Vec<String>| views(l@))
}

/// The levels of stage indices as sequences.
pub open spec fn idx_view(levels: Seq<Vec<usize>>) -> Seq<Seq<usize>> {
    levels.map_values(|l: Vec<usize>| l@)
}

/// Levels in the order Kahn's algorithm gives them: the first by stage
/// index, each later one after the level before it.
pub open spec fn levels_in_kahn_order(edges: Seq<(usize, usize)>, levels: Seq<Seq<usize>>) -> bool {
    &&& levels.len() > 0 ==> ascending(levels[0])
    &&& forall|k: int| 0 < k < levels.len() ==> kahn_ordered(edges, #[trigger] levels[k - 1], levels[k])
}

/// When the count of open dependencies of `s` left after meeting edge `j`
/// (from `s` to `prev[m]`) reaches zero, that edge is the last dependency of
/// `s` on `prev`.
proof fn lemma_met_last(
    edges: Seq<(usize, usize)>,
    prev: Seq<usize>,
    k: nat,
    s: usize,
    m: int,
    j: int,
)
    requires
        prev.no_duplicates(),
        0 <= m < prev.len(),
        0 <= j < edges.len(),
        edges[j].0 == s,
        edges[j].1 == prev[m],
        forall|q: int| 0 <= q < prev.len() ==> open_at(edges, #[trigger] prev[q] as int, k),
        count_in(edges, s as int, prev.take(m)) + count_pair(edges.take(j + 1), s as int, prev[m]) == count_open(
            edges,
            edges,
            s as int,
            k,
        ),
    ensures
        last_pair(edges, prev, s, m, j),
{
    let x = prev[m];
    let pre = prev.take(m);
    assert(prev.take(m + 1) =~= pre.push(x));
    assert(!pre.contains(x)) by {
        if pre.contains(x) {
            let q = choose|q: int| 0 <= q < pre.len() && pre[q] == x;
            assert(prev[q] == prev[m]);
        }
    }
    assert forall|q: int| 0 <= q < pre.push(x).len() implies open_at(edges, #[trigger] pre.push(x)[q] as int, k) by {
        assert(pre.push(x)[q] == prev[q]);
    }
    lemma_count_in_push(edges, s as int, pre, x);
    lemma_count_in_le_open(edges, edges, s as int, pre.push(x), k);
    lemma_count_pair_prefix(edges, s as int, x, j + 1);
    assert forall|m2: int, j2: int|
        0 <= m2 < prev.len() && 0 <= j2 < edges.len() && #[trigger] edges[j2].0 == s && edges[j2].1
            == #[trigger] prev[m2] implies !pair_lt((m, j), (m2, j2)) by {
        if pair_lt((m, j), (m2, j2)) {
            if m2 == m {
                lemma_count_pair_strict(edges, s as int, x, j, j2);
            } else {
                assert(!pre.push(x).contains(prev[m2])) by {
                    if pre.push(x).contains(prev[m2]) {
                        let q = choose|q: int| 0 <= q < pre.push(x).len() && pre.push(x)[q] == prev[m2];
                        assert(prev[q] == prev[m2]);
                    }
                }
                lemma_count_in_lt_open(edges, edges, s as int, pre.push(x), k, j2);
            }
        }
    }
}

/// The levels one after the other.
pub open spec fn concat<A>(ls: Seq<Seq<A>>) -> Seq<A>
    decreases ls.len(),
{
    if ls.len() == 0 {
        Seq::empty()
    } else {
        concat(ls.drop_last()) + ls.last()
    }
}

/// Mapping each item of each level, then concatenating, is concatenating,
/// then mapping.
proof fn lemma_concat_map<A, B>(ls: Seq<Seq<A>>, f: spec_fn(A) -> B, g: spec_fn(Seq<A>) -> Seq<B>)
    requires
        forall|l: Seq<A>| #[trigger] g(l) == l.map_values(f),
    ensures
        concat(ls.map_values(g)) == concat(ls).map_values(f),
    decreases ls.len(),
{
    if ls.len() > 0 {
        lemma_concat_map(ls.drop_last(), f, g);
        assert(ls.map_values(g).drop_last() =~= ls.drop_last().map_values(g));
        assert((concat(ls.drop_last()) + ls.last()).map_values(f) =~= concat(ls.drop_last()).map_values(f)
            + ls.last().map_values(f));
    } else {
        assert(concat(ls).map_values(f) =~= Seq::<B>::empty());
    }
}

/// The levels of stage indices that Kahn's algorithm computes: level `k`
/// holds exactly the stages of depth `k`, no level is empty, every depth
/// has its level, and the levels are in Kahn's order.
pub open spec fn is_kahn_levels(edges: Seq<(usize, usize)>, n: nat, lv: Seq<Seq<usize>>) -> bool {
    &&& forall|k: int| 0 <= k < lv.len() ==> (#[trigger] lv[k]).no_duplicates() && lv[k].len() > 0
    &&& forall|k: int, j: int| 0 <= k < lv.len() && 0 <= j < lv[k].len() ==> #[trigger] lv[k][j] < n
    &&& forall|k: int, v: int|
        #![trigger lv[k].contains(v as usize)]
        0 <= k < lv.len() && 0 <= v < n ==> (lv[k].contains(v as usize) <==> has_depth(edges, v, k as nat))
    &&& forall|v: int, d: nat| 0 <= v < n && #[trigger] has_depth(edges, v, d) ==> d < lv.len()
    &&& levels_in_kahn_order(edges, lv)
}

/// A stage has at most one last dependency on a level.
proof fn lemma_last_pair_unique(edges: Seq<(usize, usize)>, prev: Seq<usize>, s: usize, a: (int, int), b: (int, int))
    requires
        last_pair(edges, prev, s, a.0, a.1),
        last_pair(edges, prev, s, b.0, b.1),
    ensures
        a == b,
{
    assert(edges[b.1].0 == s && edges[b.1].1 == prev[b.0]);
    assert(edges[a.1].0 == s && edges[a.1].1 == prev[a.0]);
}

/// The last dependency of `s` on `prev`.
pub open spec fn key_of(edges: Seq<(usize, usize)>, prev: Seq<usize>, s: usize) -> (int, int) {
    choose|mj: (int, int)| last_pair(edges, prev, s, mj.0, mj.1)
}

/// Two sequences without repeats that hold the same items, both in strictly
/// increasing order of the same key, are equal.
proof fn lemma_sorted_unique(a: Seq<usize>, b: Seq<usize>, f: spec_fn(usize) -> (int, int))
    requires
        a.no_duplicates(),
        b.no_duplicates(),
        forall|x: usize| a.contains(x) <==> b.contains(x),
        forall|p: int, q: int| 0 <= p < q < a.len() ==> pair_lt(f(#[trigger] a[p]), f(#[trigger] a[q])),
        forall|p: int, q: int| 0 <= p < q < b.len() ==> pair_lt(f(#[trigger] b[p]), f(#[trigger] b[q])),
    ensures
        a == b,
    decreases a.len(),
{
    if a.len() == 0 {
        if b.len() > 0 {
            assert(b.contains(b[0]));
        }
        assert(a =~= b);
    } else {
        assert(a.contains(a[0]));
        assert(b.len() > 0);
        assert(b.contains(b[0]));
        let q = choose|q: int| 0 <= q < a.len() && a[q] == b[0];
        let r = choose|r: int| 0 <= r < b.len() && b[r] == a[0];
        if q > 0 && r > 0 {
            assert(pair_lt(f(a[0]), f(a[q])));
            assert(pair_lt(f(b[0]), f(b[r])));
            assert(false);
        }
        if q > 0 {
            assert(r == 0);
            assert(a[0] == b[0]);
        }
        assert(a[0] == b[0]);
        let a1 = a.drop_first();
        let b1 = b.drop_first();
        assert forall|x: usize| a1.contains(x) <==> b1.contains(x) by {
            if a1.contains(x) {
                let i = choose|i: int| 0 <= i < a1.len() && a1[i] == x;
                assert(a[i + 1] == x && x != a[0]);
                assert(b.contains(x));
                let k = choose|k: int| 0 <= k < b.len() && b[k] == x;
                assert(k != 0);
                assert(b1[k - 1] == x);
            }
            if b1.contains(x) {
                let i = choose|i: int| 0 <= i < b1.len() && b1[i] == x;
                assert(b[i + 1] == x && x != b[0]);
                assert(a.contains(x));
                let k = choose|k: int| 0 <= k < a.len() && a[k] == x;
                assert(k != 0);
                assert(a1[k - 1] == x);
            }
        }
        assert forall|p: int, q: int| 0 <= p < q < a1.len() implies pair_lt(f(#[trigger] a1[p]), f(#[trigger] a1[q])) by {
            assert(a1[p] == a[p + 1] && a1[q] == a[q + 1]);
        }
        assert forall|p: int, q: int| 0 <= p < q < b1.len() implies pair_lt(f(#[trigger] b1[p]), f(#[trigger] b1[q])) by {
            assert(b1[p] == b[p + 1] && b1[q] == b[q + 1]);
        }
        lemma_sorted_unique(a1, b1, f);
        assert forall|i: int| 0 <= i < a.len() implies a[i] == b[i] by {
            if i > 0 {
                assert(a[i] == a1[i - 1] && b[i] == b1[i - 1]);
            }
        }
        assert(a =~= b);
    }
}

/// A level in Kahn's order after `prev` is in increasing order of the
/// stages' last dependencies on `prev`.
proof fn lemma_kahn_sorted(edges: Seq<(usize, usize)>, prev: Seq<usize>, lvl: Seq<usize>)
    requires
        kahn_ordered(edges, prev, lvl),
    ensures
        forall|p: int, q: int|
            0 <= p < q < lvl.len() ==> pair_lt(
                (|s: usize| key_of(edges, prev, s))(#[trigger] lvl[p]),
                (|s: usize| key_of(edges, prev, s))(#[trigger] lvl[q]),
            ),
{
    let keys = choose|keys: Seq<(int, int)>|
        {
            &&& keys.len() == lvl.len()
            &&& forall|p: int| 0 <= p < lvl.len() ==> last_pair(edges, prev, #[trigger] lvl[p], keys[p].0, keys[p].1)
            &&& forall|p: int, q: int| 0 <= p < q < lvl.len() ==> pair_lt(#[trigger] keys[p], #[trigger] keys[q])
        };
    assert forall|p: int| 0 <= p < lvl.len() implies key_of(edges, prev, #[trigger] lvl[p]) == keys[p] by {
        assert(last_pair(edges, prev, lvl[p], keys[p].0, keys[p].1));
        let c = key_of(edges, prev, lvl[p]);
        assert(last_pair(edges, prev, lvl[p], c.0, c.1));
        lemma_last_pair_unique(edges, prev, lvl[p], c, keys[p]);
    }
    assert forall|p: int, q: int| 0 <= p < q < lvl.len() implies pair_lt(
        (|s: usize| key_of(edges, prev, s))(#[trigger] lvl[p]),
        (|s: usize| key_of(edges, prev, s))(#[trigger] lvl[q]),
    ) by {
        assert(key_of(edges, prev, lvl[p]) == keys[p]);
        assert(key_of(edges, prev, lvl[q]) == keys[q]);
    }
}

/// Kahn's levels of a graph are unique.
proof fn lemma_kahn_levels_unique(edges: Seq<(usize, usize)>, n: nat, a: Seq<Seq<usize>>, b: Seq<Seq<usize>>)
    requires
        is_kahn_levels(edges, n, a),
        is_kahn_levels(edges, n, b),
    ensures
        a == b,
{
    if a.len() < b.len() {
        assert(b[a.len() as int].len() > 0);
        let v = b[a.len() as int][0];
        assert(v < n);
        assert(b[a.len() as int].contains((v as int) as usize));
        assert(has_depth(edges, v as int, a.len() as nat));
    }
    if b.len() < a.len() {
        assert(a[b.len() as int].len() > 0);
        let v = a[b.len() as int][0];
        assert(v < n);
        assert(a[b.len() as int].contains((v as int) as usize));
        assert(has_depth(edges, v as int, b.len() as nat));
    }
    assert(a.len() == b.len());
    lemma_kahn_levels_prefix(edges, n, a, b, a.len() as int);
    assert(a =~= b);
}

proof fn lemma_kahn_levels_prefix(edges: Seq<(usize, usize)>, n: nat, a: Seq<Seq<usize>>, b: Seq<Seq<usize>>, k: int)
    requires
        is_kahn_levels(edges, n, a),
        is_kahn_levels(edges, n, b),
        a.len() == b.len(),
        0 <= k <= a.len(),
    ensures
        forall|i: int| 0 <= i < k ==> #[trigger] a[i] == b[i],
    decreases k,
{
    if k > 0 {
        lemma_kahn_levels_prefix(edges, n, a, b, k - 1);
        let i = k - 1;
        assert forall|x: usize| a[i].contains(x) <==> b[i].contains(x) by {
            if a[i].contains(x) {
                let j = choose|j: int| 0 <= j < a[i].len() && a[i][j] == x;
                assert(a[i][j] < n);
                assert(a[i].contains(x as int as usize));
            }
            if b[i].contains(x) {
                let j = choose|j: int| 0 <= j < b[i].len() && b[i][j] == x;
                assert(b[i][j] < n);
                assert(b[i].contains(x as int as usize));
            }
        }
        if i == 0 {
            let f = |s: usize| (s as int, 0int);
            assert(ascending(a[0]) && ascending(b[0]));
            assert forall|p: int, q: int| 0 <= p < q < a[0].len() implies pair_lt(f(#[trigger] a[0][p]), f(#[trigger] a[0][q])) by {
            }
            assert forall|p: int, q: int| 0 <= p < q < b[0].len() implies pair_lt(f(#[trigger] b[0][p]), f(#[trigger] b[0][q])) by {
            }
            lemma_sorted_unique(a[0], b[0], f);
        } else {
            assert(a[i - 1] == b[i - 1]);
            assert(kahn_ordered(edges, a[i - 1], a[i]));
            assert(kahn_ordered(edges, b[i - 1], b[i]));
            lemma_kahn_sorted(edges, a[i - 1], a[i]);
            lemma_kahn_sorted(edges, b[i - 1], b[i]);
            lemma_sorted_unique(a[i], b[i], |s: usize| key_of(edges, a[i - 1], s));
        }
    }
}

/// Moving from level `k` to `k + 1`: the open dependencies at `k` are those
/// still open at `k + 1` plus those of depth exactly `k`.
proof fn lemma_count_open_next(
    edges: Seq<(usize, usize)>,
    part: Seq<(usize, usize)>,
    v: int,
    s: Seq<usize>,
    k: nat,
    n: nat,
)
    requires
        forall|i: int| #![trigger part[i]] 0 <= i < part.len() ==> part[i].1 < n,
        forall|u: int| 0 <= u < n ==> (s.contains(u as usize) <==> has_depth(edges, u, k)),
    ensures
        count_open(edges, part, v, k) == count_open(edges, part, v, k + 1) + count_in(part, v, s),
    decreases part.len(),
{
    if part.len() > 0 {
        let p = part.drop_last();
        assert forall|i: int| #![trigger p[i]] 0 <= i < p.len() implies p[i].1 < n by {
            assert(p[i] == part[i]);
        }
        lemma_count_open_next(edges, p, v, s, k, n);
        let e = part.last();
        assert(part[part.len() - 1].1 < n);
        let u = e.1 as int;
        if k > 0 && within(edges, u, (k - 1) as nat) {
            lemma_within_step(edges, u, (k - 1) as nat);
        }
        assert(s.contains(u as usize) <==> has_depth(edges, u, k));
    }
}

proof fn lemma_count_true_update(s: Seq<bool>, i: int)
    requires
        0 <= i < s.len(),
        !s[i],
    ensures
        count_true(s.update(i, true)) == count_true(s) + 1,
    decreases s.len(),
{
    if i < s.len() - 1 {
        lemma_count_true_update(s.drop_last(), i);
        assert(s.update(i, true).drop_last() =~= s.drop_last().update(i, true));
    } else {
        assert(s.update(i, true).drop_last() =~= s.drop_last());
    }
}

proof fn lemma_count_true_le(s: Seq<bool>)
    ensures
        count_true(s) <= s.len(),
        count_true(s) == s.len() ==> forall|i: int| 0 <= i < s.len() ==> s[i],
    decreases s.len(),
{
    if s.len() > 0 {
        lemma_count_true_le(s.drop_last());
        if count_true(s) == s.len() {
            assert forall|i: int| 0 <= i < s.len() implies s[i] by {
                if i < s.len() - 1 {
                    assert(s[i] == s.drop_last()[i]);
                }
            }
        }
    }
}

proof fn lemma_count_true_all(s: Seq<bool>)
    requires
        forall|i: int| 0 <= i < s.len() ==> s[i],
    ensures
        count_true(s) == s.len(),
    decreases s.len(),
{
    if s.len() > 0 {
        assert forall|i: int| 0 <= i < s.drop_last().len() implies s.drop_last()[i] by {
            assert(s.drop_last()[i] == s[i]);
        }
        lemma_count_true_all(s.drop_last());
        assert(s[s.len() - 1]);
    }
}

proof fn lemma_count_true_zero(s: Seq<bool>)
    requires
        forall|i: int| 0 <= i < s.len() ==> !s[i],
    ensures
        count_true(s) == 0,
    decreases s.len(),
{
    if s.len() > 0 {
        assert forall|i: int| 0 <= i < s.drop_last().len() implies !s.drop_last()[i] by {
            assert(s.drop_last()[i] == s[i]);
        }
        lemma_count_true_zero(s.drop_last());
        assert(!s[s.len() - 1]);
    }
}

/// The dependencies of a linear pipeline of `n` stages: each stage depends
/// on the one before it.
pub open spec fn linear_edges(n: nat) -> Seq<(usize, usize)> {
    if n == 0 {
        Seq::empty()
    } else {
        Seq::new((n - 1) as nat, |i: int| ((i + 1) as usize, i as usize))
    }
}

proof fn lemma_linear_within(n: nat, v: int, k: nat)
    requires
        0 <= v < n,
        n <= usize::MAX,
    ensures
        within(linear_edges(n), v, k) <==> v <= k,
    decreases v,
{
    let e = linear_edges(n);
    if v == 0 {
        assert forall|i: int| #![trigger e[i]] 0 <= i < e.len() implies e[i].0 != v by {}
    } else {
        lemma_linear_within(n, v - 1, (k - 1) as nat);
        assert(e[v - 1] == (v as usize, (v - 1) as usize));
        assert forall|i: int| #![trigger e[i]] 0 <= i < e.len() && e[i].0 == v implies i == v - 1 by {}
        if k > 0 {
            lemma_linear_within(n, v - 1, (k - 1) as nat);
        }
    }
}

/// In a linear pipeline every stage runs at its own level: stage `v` of
/// `n` runs at level `v`, and the whole pipeline has no cycle.
pub proof fn lemma_linear_levels(n: nat, v: int)
    requires
        0 <= v < n,
        n <= usize::MAX,
    ensures
        has_depth(linear_edges(n), v, v as nat),
        all_within(linear_edges(n), n),
{
    lemma_linear_within(n, v, v as nat);
    if v > 0 {
        lemma_linear_within(n, v, (v - 1) as nat);
    }
    assert forall|u: int| 0 <= u < n implies #[trigger] within(linear_edges(n), u, n) by {
        lemma_linear_within(n, u, n);
    }
}

/// A duplicate-free sequence of indices below `n` that holds every index has length `n`.
proof fn lemma_perm_len(s: Seq<usize>, n: nat)
    requires
        n <= usize::MAX,
        s.no_duplicates(),
        forall|p: int| 0 <= p < s.len() ==> #[trigger] s[p] < n,
        forall|v: int| 0 <= v < n ==> #[trigger] s.contains(v as usize),
    ensures
        s.len() == n,
{
    let st = s.to_set();
    s.unique_seq_to_set();
    let r = Set::new(|v: usize| v < n);
    assert(st =~= r) by {
        assert forall|v: usize| r.contains(v) implies st.contains(v) by {
            assert(s.contains((v as int) as usize));
        }
    }
    lemma_usize_range_len(n);
}

proof fn lemma_usize_range_len(n: nat)
    ensures
        Set::new(|v: usize| v < n).finite(),
        Set::new(|v: usize| v < n).len() == if n <= usize::MAX + 1 { n } else { (usize::MAX + 1) as nat },
    decreases n,
{
    if n == 0 {
        assert(Set::new(|v: usize| v < 0) =~= Set::<usize>::empty());
    } else {
        lemma_usize_range_len((n - 1) as nat);
        if n <= usize::MAX + 1 {
            assert(Set::new(|v: usize| v < n) =~= Set::new(|v: usize| v < n - 1).insert((n - 1) as usize));
        } else {
            assert(Set::new(|v: usize| v < n) =~= Set::new(|v: usize| v < n - 1));
        }
    }
}

// ---------------------------------------------------------------------------
// The DAG
// ---------------------------------------------------------------------------

/// A directed acyclic graph of pipeline stages.
///
/// Each stage is identified by name. Edges represent data dependencies:
/// if stage B depends on stage A, then A must complete before B starts.
pub struct PipelineDag {
    /// Stage names in insertion order.
    stages: Vec<String>,
    /// Dependencies in the order they were declared: `(stage, depends_on)`.
    edges: Vec<(usize, usize)>,
}

impl PipelineDag {
    /// The stage names, in insertion order.
    pub closed spec fn stage_names(&self) -> Seq<Seq<char>> {
        views(self.stages@)
    }

    /// The declared dependencies `(stage, depends_on)` as stage indices, in
    /// the order they were declared.
    pub closed spec fn edge_list(&self) -> Seq<(usize, usize)> {
        self.edges@
    }

    /// Stage names are distinct and every edge joins two stages.
    pub open spec fn wf(&self) -> bool {
        &&& self.stage_names().no_duplicates()
        &&& self.stage_names().len() <= usize::MAX
        &&& forall|i: int|
            0 <= i < self.edge_list().len() ==> (#[trigger] self.edge_list()[i]).0
                < self.stage_names().len() && self.edge_list()[i].1 < self.stage_names().len()
    }

    /// Every graph keeps its stage names distinct and its edges between
    /// stages.
    #[verifier::type_invariant]
    spec fn inv(&self) -> bool {
        self.wf()
    }

    /// Every stage has a finite depth: the graph has no cycle.
    pub open spec fn acyclic(&self) -> bool {
        all_within(self.edge_list(), self.stage_names().len())
    }

    /// `o` is an order in which the stages can run: each stage once, every
    /// dependency before the stages that depend on it, and the stages by
    /// non-decreasing level.
    pub open spec fn is_run_order(&self, o: Seq<Seq<char>>) -> bool {
        &&& o.len() == self.stage_names().len()
        &&& o.no_duplicates()
        &&& forall|v: int| 0 <= v < self.stage_names().len() ==> #[trigger] o.contains(self.stage_names()[v])
        &&& forall|i: int, p: int, q: int|
            #![trigger o[p], o[q], self.edge_list()[i]]
            0 <= i < self.edge_list().len() && 0 <= p < o.len() && 0 <= q < o.len() && o[p]
                == self.stage_names()[self.edge_list()[i].1 as int] && o[q] == self.stage_names()[self.edge_list()[i].0 as int]
                ==> p < q
        &&& forall|p: int, q: int, a: int, b: int, da: nat, db: nat|
            0 <= p < q < o.len() && 0 <= a < self.stage_names().len() && 0 <= b < self.stage_names().len()
                && #[trigger] o[p] == self.stage_names()[a] && #[trigger] o[q] == self.stage_names()[b]
                && #[trigger] self.depth_is(a, da) && #[trigger] self.depth_is(b, db) ==> da <= db
    }

    /// The name of the stage with an index.
    pub open spec fn name_fn(&self) -> spec_fn(usize) -> Seq<char> {
        |v: usize| self.stage_names()[v as int]
    }

    /// The names of the stages of a level of indices.
    pub open spec fn level_names_fn(&self) -> spec_fn(Seq<usize>) -> Seq<Seq<char>> {
        |l: Seq<usize>| l.map_values(self.name_fn())
    }

    /// Levels of stage indices as levels of names.
    pub open spec fn level_names(&self, lv: Seq<Seq<usize>>) -> Seq<Seq<Seq<char>>> {
        lv.map_values(self.level_names_fn())
    }

    /// `ls` are the graph's execution levels: Kahn's levels, as names.
    pub open spec fn is_execution_levels(&self, ls: Seq<Seq<Seq<char>>>) -> bool {
        exists|lv: Seq<Seq<usize>>|
            #[trigger] is_kahn_levels(self.edge_list(), self.stage_names().len(), lv) && ls == self.level_names(lv)
    }

    /// `o` is the graph's topological order: Kahn's levels, as names, one
    /// after the other.
    pub open spec fn is_topological_order(&self, o: Seq<Seq<char>>) -> bool {
        exists|lv: Seq<Seq<usize>>|
            #[trigger] is_kahn_levels(self.edge_list(), self.stage_names().len(), lv) && o == concat(
                self.level_names(lv),
            )
    }

    /// The stage with index `v` runs at level `k`.
    pub open spec fn depth_is(&self, v: int, k: nat) -> bool {
        has_depth(self.edge_list(), v, k)
    }

    proof fn lemma_view_len(&self)
        ensures
            self.stage_names().len() == self.stages@.len(),
            forall|i: int| 0 <= i < self.stages@.len() ==> #[trigger] self.stage_names()[i] == self.stages@[i]@,
    {
    }

    /// Create an empty DAG.
    pub fn new() -> (dag: Self)
        ensures
            dag.wf(),
            dag.stage_names() == Seq::<Seq<char>>::empty(),
            dag.edge_list() == Seq::<(usize, usize)>::empty(),
    {
        let dag = PipelineDag { stages: Vec::new(), edges: Vec::new() };
        assert(dag.stage_names() =~= Seq::<Seq<char>>::empty());
        dag
    }

    /// The index of the stage with the given name, if any.
    fn find(&self, name: &str) -> (r: Option<usize>)
        ensures
            r is Some <==> self.stage_names().contains(name@),
            r matches Some(i) ==> i == index_in(self.stage_names(), name@),
    {
        proof {
            lemma_index_in(self.stage_names(), name@);
        }
        let mut i: usize = 0;
        while i < self.stages.len()
            invariant
                i <= self.stages@.len(),
                self.stage_names().len() == self.stages@.len(),
                forall|j: int| 0 <= j < i ==> self.stage_names()[j] != name@,
                0 <= index_in(self.stage_names(), name@) <= self.stage_names().len(),
                index_in(self.stage_names(), name@) < self.stage_names().len() ==> self.stage_names()[index_in(self.stage_names(), name@)] == name@,
                forall|j: int| 0 <= j < index_in(self.stage_names(), name@) ==> self.stage_names()[j] != name@,
                self.stage_names().contains(name@) <==> index_in(self.stage_names(), name@) < self.stage_names().len(),
            decreases self.stages@.len() - i,
        {
            proof {
                self.lemma_view_len();
            }
            if str_eq(self.stages[i].as_str(), name) {
                assert(self.stage_names()[i as int] == name@);
                assert(self.stage_names().contains(name@));
                return Some(i);
            }
            i = i + 1;
        }
        None
    }

    /// Whether the DAG contains a stage with the given name.
    pub fn has_stage(&self, name: &str) -> (r: bool)
        ensures
            r == self.stage_names().contains(name@),
    {
        self.find(name).is_some()
    }

    /// Number of stages in the DAG.
    pub fn len(&self) -> (n: usize)
        ensures
            n == self.stage_names().len(),
    {
        self.stages.len()
    }

    /// Whether the DAG has no stages.
    pub fn is_empty(&self) -> (r: bool)
        ensures
            r == (self.stage_names().len() == 0),
    {
        self.stages.len() == 0
    }

    /// Add a stage to the DAG. Returns an error if a stage with the same
    /// name already exists.
    pub fn add_stage(&mut self, name: String) -> (r: Result<usize, SakamotoError>)
        requires
            old(self).stage_names().len() < usize::MAX,
        ensures
            final(self).wf(),
            old(self).stage_names().contains(name@) ==> {
                &&& r matches Err(SakamotoError::ConfigError(m)) && m@ == "duplicate stage: "@ + name@
                &&& final(self).stage_names() == old(self).stage_names()
                &&& final(self).edge_list() == old(self).edge_list()
            },
            !old(self).stage_names().contains(name@) ==> {
                &&& r == Ok::<usize, SakamotoError>(old(self).stage_names().len() as usize)
                &&& final(self).stage_names() == old(self).stage_names().push(name@)
                &&& final(self).edge_list() == old(self).edge_list()
                &&& final(self).depth_is(old(self).stage_names().len() as int, 0)
            },
    {
        proof {
            use_type_invariant(&*self);
        }
        if self.find(name.as_str()).is_some() {
            let mut m = chars_of("duplicate stage: ");
            extend_str(&mut m, name.as_str());
            return Err(SakamotoError::ConfigError(string_of(m.as_slice())));
        }
        let idx = self.stages.len();
        let ghost old_names = self.stage_names();
        let mut taken = PipelineDag::new();
        std::mem::swap(&mut taken, self);
        let PipelineDag { mut stages, edges } = taken;
        stages.push(name);
        let ghost names = views(stages@);
        proof {
            assert(names =~= old_names.push(name@));
            assert(edges@ == old(self).edge_list());
            assert forall|i: int| 0 <= i < edges@.len() implies (#[trigger] edges@[i]).0 < names.len()
                && edges@[i].1 < names.len() by {
                assert(old(self).edge_list()[i] == edges@[i]);
            }
            assert forall|i: int, j: int| 0 <= i < names.len() && 0 <= j < names.len() && i != j implies names[i]
                != names[j] by {
                if i < old_names.len() && j < old_names.len() {
                    assert(old_names[i] != old_names[j]);
                } else if i < old_names.len() {
                    assert(old_names.contains(old_names[i]));
                } else if j < old_names.len() {
                    assert(old_names.contains(old_names[j]));
                }
            }
            assert(names.no_duplicates());
        }
        *self = PipelineDag { stages, edges };
        proof {
            assert(self.stage_names() == names);
            let es = self.edge_list();
            assert forall|i: int| #![trigger es[i]] 0 <= i < es.len() implies es[i].0 != idx by {
                assert(old(self).edge_list()[i] == es[i]);
            }
            assert(within(es, idx as int, 0));
        }
        Ok(idx)
    }

    /// Declare that `stage` depends on `depends_on` (i.e., `depends_on`
    /// must complete before `stage` can start).
    pub fn add_dependency(&mut self, stage: &str, depends_on: &str) -> (r: Result<(), SakamotoError>)
        ensures
            final(self).wf(),
            final(self).stage_names() == old(self).stage_names(),
            !old(self).stage_names().contains(stage@) ==> {
                &&& r matches Err(SakamotoError::StageNotFound(m)) && m@ == stage@
                &&& final(self).edge_list() == old(self).edge_list()
            },
            old(self).stage_names().contains(stage@) && !old(self).stage_names().contains(depends_on@) ==> {
                &&& r matches Err(SakamotoError::StageNotFound(m)) && m@ == depends_on@
                &&& final(self).edge_list() == old(self).edge_list()
            },
            old(self).stage_names().contains(stage@) && old(self).stage_names().contains(depends_on@) ==> {
                &&& r is Ok
                &&& final(self).edge_list() == old(self).edge_list().push(
                    (index_in(old(self).stage_names(), stage@) as usize,
                     index_in(old(self).stage_names(), depends_on@) as usize),
                )
            },
    {
        proof {
            use_type_invariant(&*self);
        }
        let stage_idx = match self.find(stage) {
            Some(i) => i,
            None => {
                return Err(SakamotoError::StageNotFound(to_owned_string(stage)));
            },
        };
        let dep_idx = match self.find(depends_on) {
            Some(i) => i,
            None => {
                return Err(SakamotoError::StageNotFound(to_owned_string(depends_on)));
            },
        };
        proof {
            lemma_index_in(self.stage_names(), stage@);
            lemma_index_in(self.stage_names(), depends_on@);
        }
        let ghost old_edges = self.edges@;
        let ghost n = self.stage_names().len();
        let mut taken = PipelineDag::new();
        std::mem::swap(&mut taken, self);
        let PipelineDag { stages, mut edges } = taken;
        edges.push((stage_idx, dep_idx));
        proof {
            assert(views(stages@) == old(self).stage_names());
            assert forall|i: int| 0 <= i < edges@.len() implies (#[trigger] edges@[i]).0 < n && edges@[i].1 < n by {
                if i < old_edges.len() {
                    assert(old_edges == old(self).edge_list());
                    assert(edges@[i] == old(self).edge_list()[i]);
                }
            }
        }
        *self = PipelineDag { stages, edges };
        Ok(())
    }

    /// Kahn's algorithm on stage indices: level `k` holds exactly the stages
    /// of depth `k`.
    fn index_levels(&self) -> (r: Option<Vec<Vec<usize>>>)
        requires
            self.wf(),
        ensures
            r is Some <==> self.acyclic(),
            r matches Some(levels) ==> is_kahn_levels(self.edge_list(), self.stage_names().len(), idx_view(levels@)),
            r matches Some(levels) ==> {
                &&& forall|k: int|
                    0 <= k < levels@.len() ==> (#[trigger] levels@[k])@.no_duplicates()
                        && levels@[k]@.len() > 0
                &&& forall|k: int, j: int|
                    0 <= k < levels@.len() && 0 <= j < levels@[k]@.len() ==> #[trigger] levels@[k]@[j]
                        < self.stage_names().len()
                &&& forall|k: int, v: int|
                    #![trigger levels@[k]@.contains(v as usize)]
                    #![trigger has_depth(self.edge_list(), v, k as nat), levels@[k]]
                    0 <= k < levels@.len() && 0 <= v < self.stage_names().len() ==> (
                    levels@[k]@.contains(v as usize) <==> has_depth(self.edge_list(), v, k as nat))
                &&& forall|v: int, k: nat|
                    0 <= v < self.stage_names().len() && #[trigger] has_depth(self.edge_list(), v, k)
                        ==> k < levels@.len()
            },
    {
        let n = self.stages.len();
        let ghost edges = self.edges@;
        let ghost nn = n as nat;
        proof {
            self.lemma_view_len();
            assert forall|i: int| #![trigger edges[i]] 0 <= i < edges.len() implies edges[i].0 < n
                && edges[i].1 < n by {
                assert(self.edge_list()[i] == edges[i]);
            }
        }
        if n == 0 {
            let empty: Vec<Vec<usize>> = Vec::new();
            proof {
                assert(idx_view(empty@) =~= Seq::<Seq<usize>>::empty());
            }
            return Some(empty);
        }
        // In-degree of every stage.
        let mut in_degree: Vec<usize> = Vec::new();
        let mut i: usize = 0;
        while i < n
            invariant
                i <= n,
                in_degree@.len() == i,
                forall|j: int| 0 <= j < i ==> in_degree@[j] == 0,
            decreases n - i,
        {
            in_degree.push(0);
            i = i + 1;
        }
        let mut i: usize = 0;
        while i < self.edges.len()
            invariant
                n == self.stage_names().len(),
                edges == self.edges@,
                forall|i: int| #![trigger edges[i]] 0 <= i < edges.len() ==> edges[i].0 < n && edges[i].1 < n,
                i <= edges.len(),
                in_degree@.len() == n,
                forall|v: int|
                    0 <= v < n ==> #[trigger] in_degree@[v] == count_open(edges, edges.take(i as int), v, 0),
                forall|v: int| 0 <= v < n ==> #[trigger] in_degree@[v] <= i,
            decreases edges.len() - i,
        {
            let s = self.edges[i].0;
            proof {
                assert(edges.take(i + 1).drop_last() =~= edges.take(i as int));
                assert(edges.take(i + 1).last() == edges[i as int]);
            }
            let c = in_degree[s];
            in_degree.set(s, c + 1);
            i = i + 1;
        }
        proof {
            assert(edges.take(edges.len() as int) =~= edges);
        }
        // Level 0: the stages with no dependency, in index order.
        let mut current: Vec<usize> = Vec::new();
        let mut v: usize = 0;
        while v < n
            invariant
                v <= n,
                in_degree@.len() == n,
                current@.no_duplicates(),
                forall|j: int| 0 <= j < current@.len() ==> #[trigger] current@[j] < v,
                forall|u: int| 0 <= u < v ==> (current@.contains(u as usize) <==> #[trigger] in_degree@[u] == 0),
                ascending(current@),
            decreases n - v,
        {
            if in_degree[v] == 0 {
                let ghost old_cur = current@;
                current.push(v);
                proof {
                    assert forall|p: int, q: int| 0 <= p < q < current@.len() implies #[trigger] current@[p]
                        < #[trigger] current@[q] by {
                        if q == old_cur.len() {
                            assert(current@[p] == old_cur[p]);
                        } else {
                            assert(current@[p] == old_cur[p] && current@[q] == old_cur[q]);
                        }
                    }
                    assert forall|u: int| 0 <= u < v + 1 implies (current@.contains(u as usize) <==> #[trigger] in_degree@[u] == 0) by {
                        if u < v {
                            if current@.contains(u as usize) {
                                let j = choose|j: int| 0 <= j < current@.len() && current@[j] == u as usize;
                                if j < old_cur.len() {
                                    assert(old_cur[j] == u as usize);
                                }
                            }
                            if old_cur.contains(u as usize) {
                                let j = choose|j: int| 0 <= j < old_cur.len() && old_cur[j] == u as usize;
                                assert(current@[j] == u as usize);
                            }
                        } else {
                            assert(current@[old_cur.len() as int] == v);
                        }
                    }
                }
            } else {
                proof {
                    assert forall|u: int| 0 <= u < v + 1 implies (current@.contains(u as usize) <==> #[trigger] in_degree@[u] == 0) by {
                        if u == v {
                            if current@.contains(u as usize) {
                                let j = choose|j: int| 0 <= j < current@.len() && current@[j] == u as usize;
                                assert(current@[j] < v);
                            }
                        }
                    }
                }
            }
            v = v + 1;
        }
        proof {
            assert forall|u: usize| u < n implies (current@.contains(u) <==> has_depth(edges, u as int, 0)) by {
                lemma_count_open_zero_within(edges, u as int, 0);
                assert(in_degree@[u as int] == count_open(edges, edges, u as int, 0));
            }
        }
        let mut levels: Vec<Vec<usize>> = Vec::new();
        let mut visited: usize = 0;
        let ghost mut marked: Seq<bool> = Seq::new(nn, |i: int| false);
        proof {
            lemma_count_true_zero(marked);
        }
        while current.len() > 0
            invariant
                n == self.stage_names().len(),
                n > 0,
                edges == self.edges@,
                edges == self.edge_list(),
                forall|i: int| #![trigger edges[i]] 0 <= i < edges.len() ==> edges[i].0 < n && edges[i].1 < n,
                in_degree@.len() == n,
                levels@.len() <= visited <= n,
                nn == n,
                marked.len() == n,
                count_true(marked) == visited,
                forall|v: int| 0 <= v < n ==> (#[trigger] marked[v] <==> !open_at(edges, v, levels@.len() as nat)),
                forall|v: int| 0 <= v < n ==> #[trigger] in_degree@[v] == count_open(edges, edges, v, levels@.len() as nat),
                current@.no_duplicates(),
                forall|j: int| 0 <= j < current@.len() ==> #[trigger] current@[j] < n,
                forall|v: usize|
                    #![trigger current@.contains(v)]
                    #![trigger has_depth(edges, v as int, levels@.len() as nat)]
                    v < n ==> (current@.contains(v) <==> has_depth(edges, v as int, levels@.len() as nat)),
                forall|k: int|
                    0 <= k < levels@.len() ==> (#[trigger] levels@[k])@.no_duplicates()
                        && levels@[k]@.len() > 0,
                forall|k: int, j: int|
                    0 <= k < levels@.len() && 0 <= j < levels@[k]@.len() ==> #[trigger] levels@[k]@[j] < n,
                forall|k: int, v: int|
                    #![trigger levels@[k]@.contains(v as usize)]
                    #![trigger has_depth(edges, v, k as nat), levels@[k]]
                    0 <= k < levels@.len() && 0 <= v < n ==> (
                    levels@[k]@.contains(v as usize) <==> has_depth(edges, v, k as nat)),
                levels_in_kahn_order(edges, idx_view(levels@)),
                levels@.len() == 0 ==> ascending(current@),
                levels@.len() > 0 ==> kahn_ordered(edges, levels@.last()@, current@),
            decreases n - visited,
        {
            assert(nn == n);
            let ghost k: nat = levels@.len() as nat;
            let mut next: Vec<usize> = Vec::new();
            let ghost mut keys: Seq<(int, int)> = Seq::empty();
            let mut m: usize = 0;
            proof {
                assert(current@.take(0) =~= Seq::<usize>::empty());
                assert forall|v: int| 0 <= v < n implies #[trigger] in_degree@[v] + count_in(edges, v, current@.take(0))
                    == count_open(edges, edges, v, k) by {
                    lemma_count_in_empty(edges, v);
                }
                assert forall|v: int| 0 <= v < n implies (#[trigger] marked[v] <==> (!open_at(edges, v, k)
                    || current@.take(0).contains(v as usize))) by {
                }
            }
            while m < current.len()
                invariant
                    n == self.stage_names().len(),
                    edges == self.edges@,
                    forall|i: int| #![trigger edges[i]] 0 <= i < edges.len() ==> edges[i].0 < n && edges[i].1 < n,
                    in_degree@.len() == n,
                    m <= current@.len(),
                    k == levels@.len(),
                    current@.no_duplicates(),
                    forall|j: int| 0 <= j < current@.len() ==> #[trigger] current@[j] < n,
                    forall|v: usize|
                        #![trigger current@.contains(v)]
                        #![trigger has_depth(edges, v as int, k)]
                        v < n ==> (current@.contains(v) <==> has_depth(edges, v as int, k)),
                    forall|v: int|
                        0 <= v < n ==> #[trigger] in_degree@[v] + count_in(edges, v, current@.take(m as int))
                            == count_open(edges, edges, v, k),
                    next@.no_duplicates(),
                    forall|j: int| 0 <= j < next@.len() ==> #[trigger] next@[j] < n,
                    forall|v: usize|
                        #![trigger next@.contains(v)]
                        #![trigger in_degree@[v as int]]
                        v < n ==> (next@.contains(v) <==> (count_open(edges, edges, v as int, k) > 0
                            && in_degree@[v as int] == 0)),
                    marked.len() == n,
                    count_true(marked) == visited + m,
                    forall|v: int|
                        0 <= v < n ==> (#[trigger] marked[v] <==> (!open_at(edges, v, k)
                            || current@.take(m as int).contains(v as usize))),
                    keys.len() == next@.len(),
                    forall|p: int|
                        0 <= p < next@.len() ==> last_pair(edges, current@, #[trigger] next@[p], keys[p].0, keys[p].1),
                    forall|p: int, q: int| 0 <= p < q < next@.len() ==> pair_lt(#[trigger] keys[p], #[trigger] keys[q]),
                    forall|p: int| 0 <= p < next@.len() ==> #[trigger] keys[p].0 < m,
                decreases current@.len() - m,
            {
                let x = current[m];
                proof {
                    assert(current@.contains(x));
                    assert(has_depth(edges, x as int, k));
                }
                let mut j: usize = 0;
                while j < self.edges.len()
                    invariant
                        n == self.stage_names().len(),
                        edges == self.edges@,
                        forall|i: int| #![trigger edges[i]] 0 <= i < edges.len() ==> edges[i].0 < n && edges[i].1 < n,
                        in_degree@.len() == n,
                        j <= edges.len(),
                        m < current@.len(),
                        x == current@[m as int],
                        current@.no_duplicates(),
                        forall|j: int| 0 <= j < current@.len() ==> #[trigger] current@[j] < n,
                        forall|v: usize|
                            #![trigger current@.contains(v)]
                            #![trigger has_depth(edges, v as int, k)]
                            v < n ==> (current@.contains(v) <==> has_depth(edges, v as int, k)),
                        forall|v: int|
                            0 <= v < n ==> #[trigger] in_degree@[v] + count_in(edges, v, current@.take(m as int))
                                + count_pair(edges.take(j as int), v, x) == count_open(edges, edges, v, k),
                        next@.no_duplicates(),
                        forall|j: int| 0 <= j < next@.len() ==> #[trigger] next@[j] < n,
                        forall|v: usize|
                            #![trigger next@.contains(v)]
                            #![trigger in_degree@[v as int]]
                            v < n ==> (next@.contains(v) <==> (count_open(edges, edges, v as int, k) > 0
                                && in_degree@[v as int] == 0)),
                        keys.len() == next@.len(),
                        forall|p: int|
                            0 <= p < next@.len() ==> last_pair(edges, current@, #[trigger] next@[p], keys[p].0, keys[p].1),
                        forall|p: int, q: int| 0 <= p < q < next@.len() ==> pair_lt(#[trigger] keys[p], #[trigger] keys[q]),
                        forall|p: int| 0 <= p < next@.len() ==> pair_lt(#[trigger] keys[p], (m as int, j as int)),
                    decreases edges.len() - j,
                {
                    let (s, d) = self.edges[j];
                    proof {
                        assert(edges.take(j + 1).drop_last() =~= edges.take(j as int));
                        assert(edges.take(j + 1).last() == edges[j as int]);
                    }
                    if d == x {
                        proof {
                            let pre = current@.take(m as int);
                            assert(current@.take(m + 1) =~= pre.push(x));
                            assert(!pre.contains(x)) by {
                                if pre.contains(x) {
                                    let q = choose|q: int| 0 <= q < pre.len() && pre[q] == x;
                                    assert(current@[q] == current@[m as int]);
                                }
                            }
                            lemma_count_in_push(edges, s as int, pre, x);
                            assert forall|q: int| 0 <= q < pre.push(x).len() implies open_at(edges, #[trigger] pre.push(x)[q] as int, k) by {
                                assert(pre.push(x)[q] == current@[q]);
                                assert(current@.contains(current@[q]));
                                assert(has_depth(edges, current@[q] as int, k));
                            }
                            lemma_count_in_le_open(edges, edges, s as int, pre.push(x), k);
                            lemma_count_pair_prefix(edges, s as int, x, j + 1);
                            assert(in_degree@[s as int] >= 1);
                        }
                        let c = in_degree[s];
                        let ghost old_next = next@;
                        let ghost old_deg = in_degree@;
                        proof {
                            assert(count_open(edges, edges, s as int, k) > 0);
                            assert(!old_next.contains(s));
                        }
                        in_degree.set(s, c - 1);
                        if c - 1 == 0 {
                            let ghost old_keys = keys;
                            proof {
                                assert(count_pair(edges.take(j + 1), s as int, x) == count_pair(
                                    edges.take(j as int),
                                    s as int,
                                    x,
                                ) + 1);
                                assert forall|q: int| 0 <= q < current@.len() implies open_at(
                                    edges,
                                    #[trigger] current@[q] as int,
                                    k,
                                ) by {
                                    assert(current@.contains(current@[q]));
                                }
                                lemma_met_last(edges, current@, k, s, m as int, j as int);
                                keys = keys.push((m as int, j as int));
                            }
                            next.push(s);
                            proof {
                                assert forall|p: int| 0 <= p < next@.len() implies last_pair(
                                    edges,
                                    current@,
                                    #[trigger] next@[p],
                                    keys[p].0,
                                    keys[p].1,
                                ) by {
                                    if p < old_next.len() {
                                        assert(next@[p] == old_next[p] && keys[p] == old_keys[p]);
                                    }
                                }
                                assert forall|p: int, q: int| 0 <= p < q < next@.len() implies pair_lt(
                                    #[trigger] keys[p],
                                    #[trigger] keys[q],
                                ) by {
                                    if q < old_next.len() {
                                        assert(keys[p] == old_keys[p] && keys[q] == old_keys[q]);
                                    } else {
                                        assert(keys[p] == old_keys[p]);
                                        assert(old_next[p] == next@[p]);
                                        assert(pair_lt(old_keys[p], (m as int, j as int)));
                                    }
                                }
                                assert forall|p: int| 0 <= p < next@.len() implies pair_lt(
                                    #[trigger] keys[p],
                                    (m as int, j + 1),
                                ) by {
                                    if p < old_next.len() {
                                        assert(keys[p] == old_keys[p]);
                                        assert(pair_lt(old_keys[p], (m as int, j as int)));
                                    }
                                }
                                assert(!old_next.contains(s));
                                assert forall|v: usize| v < n implies (#[trigger] next@.contains(v) <==> (count_open(edges, edges, v as int, k) > 0
                                    && in_degree@[v as int] == 0)) by {
                                    if v == s {
                                        assert(next@[old_next.len() as int] == s);
                                    } else {
                                        assert(old_deg[v as int] == in_degree@[v as int]);
                                        if next@.contains(v) {
                                            let q = choose|q: int| 0 <= q < next@.len() && next@[q] == v;
                                            assert(old_next[q] == v);
                                        }
                                        if old_next.contains(v) {
                                            let q = choose|q: int| 0 <= q < old_next.len() && old_next[q] == v;
                                            assert(next@[q] == v);
                                        }
                                    }
                                }
                                assert forall|q: int| 0 <= q < next@.len() implies #[trigger] next@[q] < n by {
                                    if q < old_next.len() {
                                        assert(next@[q] == old_next[q]);
                                    }
                                }
                            }
                        }
                    }
                    j = j + 1;
                }
                proof {
                    let pre = current@.take(m as int);
                    assert(edges.take(edges.len() as int) =~= edges);
                    assert(current@.take(m + 1) =~= pre.push(x));
                    assert(!pre.contains(x)) by {
                        if pre.contains(x) {
                            let q = choose|q: int| 0 <= q < pre.len() && pre[q] == x;
                            assert(current@[q] == current@[m as int]);
                        }
                    }
                    assert forall|v: int| 0 <= v < n implies #[trigger] in_degree@[v] + count_in(edges, v, current@.take(m + 1))
                        == count_open(edges, edges, v, k) by {
                        lemma_count_in_push(edges, v, pre, x);
                    }
                    assert(!marked[x as int]);
                    lemma_count_true_update(marked, x as int);
                    let new_marked = marked.update(x as int, true);
                    assert forall|v: int| 0 <= v < n implies (#[trigger] new_marked[v] <==> (!open_at(edges, v, k)
                        || current@.take(m + 1).contains(v as usize))) by {
                        if current@.take(m + 1).contains(v as usize) && v != x {
                            let q = choose|q: int| 0 <= q < pre.push(x).len() && pre.push(x)[q] == v as usize;
                            assert(pre[q] == v as usize);
                        }
                        if pre.contains(v as usize) {
                            let q = choose|q: int| 0 <= q < pre.len() && pre[q] == v as usize;
                            assert(pre.push(x)[q] == v as usize);
                        }
                        if v == x {
                            assert(pre.push(x)[m as int] == x);
                        }
                    }
                    marked = new_marked;
                }
                m = m + 1;
            }
            proof {
                assert(current@.take(current@.len() as int) =~= current@);
                assert forall|v: int| 0 <= v < n implies #[trigger] in_degree@[v] == count_open(edges, edges, v, k + 1) by {
                    lemma_count_open_next(edges, edges, v, current@, k, nn);
                }
                assert forall|v: usize| v < n implies (next@.contains(v) <==> #[trigger] has_depth(edges, v as int, k + 1)) by {
                    lemma_count_open_zero_within(edges, v as int, k);
                    lemma_count_open_zero_within(edges, v as int, k + 1);
                    lemma_count_open_next(edges, edges, v as int, current@, k, nn);
                    assert(in_degree@[v as int] == count_open(edges, edges, v as int, k + 1));
                }
                assert forall|v: int| 0 <= v < n implies (#[trigger] marked[v] <==> !open_at(edges, v, k + 1)) by {
                    if k > 0 && within(edges, v, (k - 1) as nat) {
                        lemma_within_step(edges, v, (k - 1) as nat);
                    }
                }
                lemma_count_true_le(marked);
            }
            let len = current.len();
            visited = visited + len;
            let ghost old_levels = levels@;
            let ghost old_current = current@;
            levels.push(current);
            current = next;
            proof {
                let lv = idx_view(levels@);
                let olv = idx_view(old_levels);
                assert(lv =~= olv.push(old_current));
                assert forall|kk: int| 0 < kk < lv.len() implies kahn_ordered(edges, #[trigger] lv[kk - 1], lv[kk]) by {
                    if kk < old_levels.len() {
                        assert(lv[kk - 1] == olv[kk - 1] && lv[kk] == olv[kk]);
                    } else {
                        assert(lv[kk - 1] == old_levels.last()@);
                        assert(lv[kk] == old_current);
                    }
                }
                if old_levels.len() == 0 {
                    assert(lv[0] == old_current);
                } else {
                    assert(lv[0] == olv[0]);
                }
                assert(levels_in_kahn_order(edges, lv));
                assert forall|kk: int| 0 <= kk < levels@.len() implies (#[trigger] levels@[kk])@.no_duplicates()
                    && levels@[kk]@.len() > 0 by {
                    if kk < old_levels.len() {
                        assert(levels@[kk] == old_levels[kk]);
                    }
                }
                assert forall|kk: int, j: int|
                    0 <= kk < levels@.len() && 0 <= j < levels@[kk]@.len() implies #[trigger] levels@[kk]@[j] < n by {
                    if kk < old_levels.len() {
                        assert(levels@[kk] == old_levels[kk]);
                    }
                }
                assert forall|kk: int, v: int|
                    #![trigger levels@[kk]@.contains(v as usize)]
                    #![trigger has_depth(edges, v, kk as nat), levels@[kk]]
                    0 <= kk < levels@.len() && 0 <= v < n implies (
                    levels@[kk]@.contains(v as usize) <==> has_depth(edges, v, kk as nat)) by {
                    if kk < old_levels.len() {
                        assert(levels@[kk] == old_levels[kk]);
                    }
                }
            }
        }
        let kk: usize = levels.len();
        if visited == n {
            proof {
                lemma_count_true_le(marked);
                assert forall|v: int| 0 <= v < nn implies within(edges, v, nn) by {
                    assert(marked[v]);
                    lemma_within_mono(edges, v, (kk - 1) as nat, nn);
                }
                assert(all_within(edges, nn));
                assert forall|v: int, d: nat|
                    0 <= v < nn && #[trigger] has_depth(edges, v, d) implies d < levels@.len() by {
                    assert(marked[v]);
                    lemma_depth_least(edges, v, d, (kk - 1) as nat);
                }
                let lv = idx_view(levels@);
                assert forall|k: int| 0 <= k < lv.len() implies (#[trigger] lv[k]).no_duplicates() && lv[k].len() > 0 by {
                    assert(lv[k] == levels@[k]@);
                }
                assert forall|k: int, j: int| 0 <= k < lv.len() && 0 <= j < lv[k].len() implies #[trigger] lv[k][j] < nn by {
                    assert(lv[k] == levels@[k]@);
                }
                assert forall|k: int, v: int|
                    #![trigger lv[k].contains(v as usize)]
                    0 <= k < lv.len() && 0 <= v < nn implies (lv[k].contains(v as usize) <==> has_depth(edges, v, k as nat)) by {
                    assert(lv[k] == levels@[k]@);
                }
                assert(is_kahn_levels(edges, nn, lv));
            }
            Some(levels)
        } else {
            proof {
                if forall|i: int| 0 <= i < marked.len() ==> marked[i] {
                    lemma_count_true_all(marked);
                }
                let v = choose|i: int| 0 <= i < marked.len() && !marked[i];
                if all_within(edges, nn) {
                    assert(within(edges, v, nn));
                    let d = lemma_some_depth(edges, v, nn);
                    if d < kk {
                        lemma_within_mono(edges, v, d, (kk - 1) as nat);
                    }
                    let u = lemma_depth_descends(edges, nn, v, d, kk as nat);
                    assert(current@.contains(u as usize));
                    assert(false);
                }
            }
            None
        }
    }

    /// The names of the stages with the given indices.
    fn names_of(&self, idx: &Vec<usize>) -> (r: Vec<String>)
        requires
            forall|j: int| 0 <= j < idx@.len() ==> #[trigger] idx@[j] < self.stage_names().len(),
        ensures
            r@.len() == idx@.len(),
            forall|j: int| 0 <= j < idx@.len() ==> #[trigger] views(r@)[j] == self.stage_names()[idx@[j] as int],
    {
        proof {
            self.lemma_view_len();
        }
        let mut r: Vec<String> = Vec::new();
        let mut j: usize = 0;
        while j < idx.len()
            invariant
                j <= idx@.len(),
                r@.len() == j,
                self.stage_names().len() == self.stages@.len(),
                forall|q: int| 0 <= q < idx@.len() ==> #[trigger] idx@[q] < self.stage_names().len(),
                forall|q: int| 0 <= q < j ==> #[trigger] r@[q]@ == self.stage_names()[idx@[q] as int],
            decreases idx@.len() - j,
        {
            proof {
                self.lemma_view_len();
            }
            let name = self.stages[idx[j]].clone();
            r.push(name);
            j = j + 1;
        }
        r
    }

    proof fn lemma_names_of(&self, idx: Seq<usize>, names: Seq<Seq<char>>)
        requires
            self.wf(),
            names.len() == idx.len(),
            forall|j: int| 0 <= j < idx.len() ==> #[trigger] idx[j] < self.stage_names().len(),
            forall|j: int| 0 <= j < idx.len() ==> #[trigger] names[j] == self.stage_names()[idx[j] as int],
        ensures
            idx.no_duplicates() ==> names.no_duplicates(),
            forall|v: int|
                0 <= v < self.stage_names().len() ==> (#[trigger] names.contains(self.stage_names()[v])
                    <==> idx.contains(v as usize)),
            forall|x: Seq<char>| #[trigger] names.contains(x) ==> self.stage_names().contains(x),
    {
        let sn = self.stage_names();
        assert forall|v: int| 0 <= v < sn.len() implies (#[trigger] names.contains(sn[v])
            <==> idx.contains(v as usize)) by {
            if names.contains(sn[v]) {
                let j = choose|j: int| 0 <= j < names.len() && names[j] == sn[v];
                assert(sn[idx[j] as int] == sn[v]);
                assert(idx[j] as int == v);
            }
            if idx.contains(v as usize) {
                let j = choose|j: int| 0 <= j < idx.len() && idx[j] == v as usize;
                assert(names[j] == sn[v]);
            }
        }
        assert forall|x: Seq<char>| #[trigger] names.contains(x) implies sn.contains(x) by {
            let j = choose|j: int| 0 <= j < names.len() && names[j] == x;
            assert(sn[idx[j] as int] == x);
        }
        if idx.no_duplicates() {
            assert forall|a: int, b: int| 0 <= a < names.len() && 0 <= b < names.len() && a != b
                implies names[a] != names[b] by {
                assert(idx[a] != idx[b]);
            }
        }
    }

    /// Compute execution levels via Kahn's algorithm.
    ///
    /// Returns a vector of levels, where each level is a vector of stage
    /// names that can execute in parallel. Stages in level N depend only
    /// on stages in levels 0..N-1: level N holds exactly the stages whose
    /// longest chain of dependencies has N edges.
    ///
    /// Returns `CyclicGraph` if the DAG contains a cycle.
    pub fn execution_levels(&self) -> (r: Result<Vec<Vec<String>>, SakamotoError>)
        ensures
            r is Ok <==> self.acyclic(),
            r matches Err(e) ==> e is CyclicGraph,
            r matches Ok(levels) ==> {
                &&& forall|k: int|
                    0 <= k < levels@.len() ==> views((#[trigger] levels@[k])@).no_duplicates()
                        && levels@[k]@.len() > 0
                &&& forall|k: int, x: Seq<char>|
                    0 <= k < levels@.len() && #[trigger] views(levels@[k]@).contains(x)
                        ==> self.stage_names().contains(x)
                &&& forall|k: int, v: int|
                    0 <= k < levels@.len() && 0 <= v < self.stage_names().len() ==> (
                    #[trigger] views(levels@[k]@).contains(self.stage_names()[v])
                        <==> self.depth_is(v, k as nat))
                &&& forall|v: int, d: nat|
                    0 <= v < self.stage_names().len() && #[trigger] self.depth_is(v, d)
                        ==> d < levels@.len()
            },
            r matches Ok(levels) ==> self.is_execution_levels(level_views(levels@)),
    {
        proof {
            use_type_invariant(self);
        }
        let idx_levels = match self.index_levels() {
            Some(l) => l,
            None => {
                return Err(SakamotoError::CyclicGraph);
            },
        };
        let mut levels: Vec<Vec<String>> = Vec::new();
        let mut k: usize = 0;
        while k < idx_levels.len()
            invariant
                self.wf(),
                k <= idx_levels@.len(),
                levels@.len() == k,
                forall|k: int|
                    0 <= k < idx_levels@.len() ==> (#[trigger] idx_levels@[k])@.no_duplicates()
                        && idx_levels@[k]@.len() > 0,
                forall|k: int, j: int|
                    0 <= k < idx_levels@.len() && 0 <= j < idx_levels@[k]@.len() ==> #[trigger] idx_levels@[k]@[j]
                        < self.stage_names().len(),
                forall|q: int|
                    0 <= q < k ==> views((#[trigger] levels@[q])@).len() == idx_levels@[q]@.len()
                        && forall|j: int| 0 <= j < idx_levels@[q]@.len() ==> #[trigger] views(levels@[q]@)[j]
                            == self.stage_names()[idx_levels@[q]@[j] as int],
            decreases idx_levels@.len() - k,
        {
            let names = self.names_of(&idx_levels[k]);
            let ghost old_levels = levels@;
            levels.push(names);
            proof {
                assert forall|q: int| 0 <= q < k + 1 implies views((#[trigger] levels@[q])@).len() == idx_levels@[q]@.len()
                    && forall|j: int| 0 <= j < idx_levels@[q]@.len() ==> #[trigger] views(levels@[q]@)[j]
                        == self.stage_names()[idx_levels@[q]@[j] as int] by {
                    if q < k {
                        assert(levels@[q] == old_levels[q]);
                    }
                }
            }
            k = k + 1;
        }
        proof {
            assert forall|q: int| 0 <= q < levels@.len() implies {
                &&& views((#[trigger] levels@[q])@).no_duplicates()
                &&& levels@[q]@.len() > 0
                &&& forall|v: int| 0 <= v < self.stage_names().len() ==> (
                    #[trigger] views(levels@[q]@).contains(self.stage_names()[v]) <==> idx_levels@[q]@.contains(v as usize))
                &&& forall|x: Seq<char>| #[trigger] views(levels@[q]@).contains(x) ==> self.stage_names().contains(x)
            } by {
                self.lemma_names_of(idx_levels@[q]@, views(levels@[q]@));
            }
            assert forall|q: int, v: int|
                0 <= q < levels@.len() && 0 <= v < self.stage_names().len() implies (
                #[trigger] views(levels@[q]@).contains(self.stage_names()[v])
                    <==> self.depth_is(v, q as nat)) by {
                assert(idx_levels@[q]@.contains(v as usize) <==> has_depth(self.edge_list(), v, q as nat));
            }
            let lv = idx_view(idx_levels@);
            assert forall|q: int| 0 <= q < levels@.len() implies #[trigger] level_views(levels@)[q]
                == self.level_names(lv)[q] by {
                assert(lv[q] == idx_levels@[q]@);
                assert(views(levels@[q]@) =~= idx_levels@[q]@.map_values(self.name_fn()));
            }
            assert(level_views(levels@) =~= self.level_names(lv));
            assert(is_kahn_levels(self.edge_list(), self.stage_names().len(), lv));
        }
        Ok(levels)
    }

    /// Flat topological order (all stages, respecting dependencies): the
    /// execution levels one after the other.
    pub fn topological_order(&self) -> (r: Result<Vec<String>, SakamotoError>)
        ensures
            r is Ok <==> self.acyclic(),
            r matches Err(e) ==> e is CyclicGraph,
            r matches Ok(order) ==> self.is_run_order(views(order@)),
            r matches Ok(order) ==> self.is_topological_order(views(order@)),
    {
        proof {
            use_type_invariant(self);
        }
        let idx_levels = match self.index_levels() {
            Some(l) => l,
            None => {
                return Err(SakamotoError::CyclicGraph);
            },
        };
        let ghost n = self.stage_names().len();
        let ghost edges = self.edge_list();
        let ghost lv = idx_view(idx_levels@);
        let mut flat: Vec<usize> = Vec::new();
        let ghost mut lvl: Seq<nat> = Seq::empty();
        let mut k: usize = 0;
        while k < idx_levels.len()
            invariant
                self.wf(),
                n == self.stage_names().len(),
                edges == self.edge_list(),
                k <= idx_levels@.len(),
                forall|k: int|
                    0 <= k < idx_levels@.len() ==> (#[trigger] idx_levels@[k])@.no_duplicates()
                        && idx_levels@[k]@.len() > 0,
                forall|k: int, j: int|
                    0 <= k < idx_levels@.len() && 0 <= j < idx_levels@[k]@.len() ==> #[trigger] idx_levels@[k]@[j]
                        < n,
                forall|k: int, v: int|
                    #![trigger idx_levels@[k]@.contains(v as usize)]
                    #![trigger has_depth(edges, v, k as nat), idx_levels@[k]]
                    0 <= k < idx_levels@.len() && 0 <= v < n ==> (
                    idx_levels@[k]@.contains(v as usize) <==> has_depth(edges, v, k as nat)),
                lvl.len() == flat@.len(),
                flat@.no_duplicates(),
                forall|p: int| 0 <= p < flat@.len() ==> #[trigger] flat@[p] < n,
                forall|p: int| 0 <= p < flat@.len() ==> #[trigger] lvl[p] < k,
                forall|p: int| 0 <= p < flat@.len() ==> has_depth(edges, #[trigger] flat@[p] as int, lvl[p]),
                forall|p: int, q: int| 0 <= p < q < flat@.len() ==> #[trigger] lvl[p] <= #[trigger] lvl[q],
                forall|v: int, d: nat| 0 <= v < n && #[trigger] has_depth(edges, v, d) && d < k ==> flat@.contains(v as usize),
                lv == idx_view(idx_levels@),
                flat@ == concat(lv.take(k as int)),
            decreases idx_levels@.len() - k,
        {
            let level = &idx_levels[k];
            let mut j: usize = 0;
            let ghost flat0 = flat@;
            let ghost lvl0 = lvl;
            while j < level.len()
                invariant
                    self.wf(),
                    n == self.stage_names().len(),
                    edges == self.edge_list(),
                    k < idx_levels@.len(),
                    level == idx_levels@[k as int],
                    level@.no_duplicates(),
                    forall|q: int| 0 <= q < level@.len() ==> #[trigger] level@[q] < n,
                    forall|v: int| 0 <= v < n ==> (level@.contains(v as usize) <==> #[trigger] has_depth(edges, v, k as nat)),
                    j <= level@.len(),
                    flat0.len() == lvl0.len(),
                    flat0.no_duplicates(),
                    forall|p: int| 0 <= p < flat0.len() ==> has_depth(edges, #[trigger] flat0[p] as int, lvl0[p]),
                    forall|p: int| 0 <= p < flat0.len() ==> #[trigger] lvl0[p] < k,
                    flat@ == flat0 + level@.take(j as int),
                    lvl == lvl0 + Seq::new(j as nat, |q: int| k as nat),
                decreases level@.len() - j,
            {
                proof {
                    assert(level@.contains(level@[j as int]));
                }
                flat.push(level[j]);
                proof {
                    lvl = lvl.push(k as nat);
                    assert(level@.take(j + 1) =~= level@.take(j as int).push(level@[j as int]));
                    assert(Seq::new((j + 1) as nat, |q: int| k as nat) =~= Seq::new(j as nat, |q: int| k as nat).push(k as nat));
                }
                j = j + 1;
            }
            proof {
                assert(level@.take(level@.len() as int) =~= level@);
                assert(lv.take(k + 1).drop_last() =~= lv.take(k as int));
                assert(lv.take(k + 1).last() == level@);
                let nf = flat@;
                assert forall|p: int| 0 <= p < nf.len() implies has_depth(edges, #[trigger] nf[p] as int, lvl[p]) by {
                    if p >= flat0.len() {
                        let q = p - flat0.len();
                        assert(nf[p] == level@[q]);
                        assert(level@.contains(level@[q]));
                    }
                }
                assert forall|a: int, b: int| 0 <= a < nf.len() && 0 <= b < nf.len() && a != b implies nf[a] != nf[b] by {
                    if a < flat0.len() && b >= flat0.len() {
                        let qb = b - flat0.len();
                        assert(level@.contains(level@[qb]));
                        if nf[a] == nf[b] {
                            lemma_depth_unique(edges, nf[a] as int, lvl[a], k as nat);
                        }
                    } else if b < flat0.len() && a >= flat0.len() {
                        let qa = a - flat0.len();
                        assert(level@.contains(level@[qa]));
                        if nf[a] == nf[b] {
                            lemma_depth_unique(edges, nf[b] as int, lvl[b], k as nat);
                        }
                    } else if a >= flat0.len() && b >= flat0.len() {
                        assert(level@[a - flat0.len()] != level@[b - flat0.len()]);
                    }
                }
                assert forall|v: int, d: nat| 0 <= v < n && #[trigger] has_depth(edges, v, d) && d < k + 1
                    implies flat@.contains(v as usize) by {
                    if d < k {
                        assert(flat0.contains(v as usize));
                        let p = choose|p: int| 0 <= p < flat0.len() && flat0[p] == v as usize;
                        assert(flat@[p] == v as usize);
                    } else {
                        assert(level@.contains(v as usize));
                        let q = choose|q: int| 0 <= q < level@.len() && level@[q] == v as usize;
                        assert(flat@[flat0.len() + q] == v as usize);
                    }
                }
            }
            k = k + 1;
        }
        proof {
            assert forall|v: int| 0 <= v < n implies #[trigger] flat@.contains(v as usize) by {
                assert(within(edges, v, n));
                let d = lemma_some_depth(edges, v, n);
            }
        }
        let order = self.names_of(&flat);
        proof {
            self.lemma_names_of(flat@, views(order@));
            let o = views(order@);
            // every stage index appears once, so the flat sequence is a permutation
            assert forall|v: int| 0 <= v < n implies #[trigger] o.contains(self.stage_names()[v]) by {
                assert(flat@.contains(v as usize));
            }
            lemma_perm_len(flat@, n);
            assert forall|i: int, p: int, q: int|
                #![trigger o[p], o[q], edges[i]]
                0 <= i < edges.len() && 0 <= p < order@.len() && 0 <= q < order@.len()
                    && o[p] == self.stage_names()[edges[i].1 as int]
                    && o[q] == self.stage_names()[edges[i].0 as int]
                    implies p < q by {
                assert(self.stage_names()[flat@[p] as int] == self.stage_names()[edges[i].1 as int]);
                assert(flat@[p] == edges[i].1);
                assert(flat@[q] == edges[i].0);
                lemma_edge_depth(edges, i, lvl[q], lvl[p]);
            }
            assert forall|p: int, q: int, a: int, b: int, da: nat, db: nat|
                0 <= p < q < order@.len() && 0 <= a < n && 0 <= b < n
                    && #[trigger] o[p] == self.stage_names()[a]
                    && #[trigger] o[q] == self.stage_names()[b]
                    && #[trigger] self.depth_is(a, da) && #[trigger] self.depth_is(b, db)
                    implies da <= db by {
                assert(self.stage_names()[flat@[p] as int] == self.stage_names()[a]);
                assert(flat@[p] as int == a);
                assert(self.stage_names()[flat@[q] as int] == self.stage_names()[b]);
                assert(flat@[q] as int == b);
                lemma_depth_unique(edges, a, da, lvl[p]);
                lemma_depth_unique(edges, b, db, lvl[q]);
            }
            assert(lv.take(lv.len() as int) =~= lv);
            assert(o =~= flat@.map_values(self.name_fn()));
            lemma_concat_map(lv, self.name_fn(), self.level_names_fn());
            assert(is_kahn_levels(edges, n, lv));
        }
        Ok(order)
    }

    /// Create a linear DAG where each stage depends on the previous one.
    pub fn from_linear(stage_names: &[String]) -> (r: Result<Self, SakamotoError>)
        ensures
            r is Ok <==> views(stage_names@).no_duplicates(),
            r matches Ok(dag) ==> {
                &&& dag.wf()
                &&& dag.stage_names() == views(stage_names@)
                &&& dag.edge_list() == linear_edges(stage_names@.len())
            },
            r matches Err(e) ==> exists|i: int|
                0 <= i < stage_names@.len() && views(stage_names@).take(i).no_duplicates()
                    && #[trigger] views(stage_names@).take(i).contains(stage_names@[i]@)
                    && (e matches SakamotoError::ConfigError(m) && m@ == "duplicate stage: "@ + stage_names@[i]@),
    {
        let mut dag = Self::new();
        let mut i: usize = 0;
        while i < stage_names.len()
            invariant
                i <= stage_names@.len(),
                dag.wf(),
                dag.stage_names() == views(stage_names@).take(i as int),
                dag.edge_list() == Seq::<(usize, usize)>::empty(),
            decreases stage_names@.len() - i,
        {
            let r = dag.add_stage(stage_names[i].clone());
            match r {
                Err(e) => {
                    proof {
                        assert(views(stage_names@).take(i as int).contains(stage_names@[i as int]@));
                        assert(!views(stage_names@).no_duplicates()) by {
                            let j = choose|j: int| 0 <= j < i && views(stage_names@).take(i as int)[j] == stage_names@[i as int]@;
                            assert(views(stage_names@)[j] == views(stage_names@)[i as int]);
                        }
                    }
                    return Err(e);
                },
                Ok(_) => {},
            }
            proof {
                assert(views(stage_names@).take(i + 1) =~= views(stage_names@).take(i as int).push(stage_names@[i as int]@));
            }
            i = i + 1;
        }
        proof {
            assert(views(stage_names@).take(stage_names@.len() as int) =~= views(stage_names@));
        }
        if stage_names.len() == 0 {
            assert(linear_edges(0) =~= Seq::<(usize, usize)>::empty());
            return Ok(dag);
        }
        assert(linear_edges(1) =~= Seq::<(usize, usize)>::empty());
        let mut i: usize = 1;
        while i < stage_names.len()
            invariant
                1 <= i <= stage_names@.len(),
                dag.wf(),
                dag.stage_names() == views(stage_names@),
                views(stage_names@).no_duplicates(),
                dag.edge_list() == linear_edges(i as nat),
            decreases stage_names@.len() - i,
        {
            proof {
                assert(views(stage_names@)[i as int] == stage_names@[i as int]@);
                assert(views(stage_names@)[i - 1] == stage_names@[i - 1]@);
                assert(dag.stage_names().contains(stage_names@[i as int]@));
                assert(dag.stage_names().contains(stage_names@[i - 1]@));
                lemma_index_in_unique(views(stage_names@), i as int);
                lemma_index_in_unique(views(stage_names@), i - 1);
            }
            let r = dag.add_dependency(stage_names[i].as_str(), stage_names[i - 1].as_str());
            proof {
                assert(linear_edges((i + 1) as nat) =~= linear_edges(i as nat).push((i as usize, (i - 1) as usize)));
            }
            i = i + 1;
        }
        proof {
            assert(dag.wf());
            assert(dag.stage_names() == views(stage_names@));
            assert(dag.edge_list() == linear_edges(stage_names@.len()));
        }
        Ok(dag)
    }
}

impl Default for PipelineDag {
    fn default() -> (dag: PipelineDag)
        ensures
            dag.wf(),
            dag.stage_names() == Seq::<Seq<char>>::empty(),
            dag.edge_list() == Seq::<(usize, usize)>::empty(),
    {
        PipelineDag::new()
    }
}


// ---------------------------------------------------------------------------
// Cycles
// ---------------------------------------------------------------------------

/// The dependency `es[j]` of a chain ends where `es[j + 1]` starts.
pub open spec fn linked(edges: Seq<(usize, usize)>, es: Seq<int>, j: int) -> bool {
    edges[es[j]].1 == edges[es[j + 1]].0
}

/// A chain of dependencies, each given by its index among the declared
/// ones: each dependency after the first starts at the stage where the one
/// before it ends.
pub open spec fn is_chain(edges: Seq<(usize, usize)>, es: Seq<int>) -> bool {
    &&& forall|j: int| 0 <= j < es.len() ==> 0 <= #[trigger] es[j] < edges.len()
    &&& forall|j: int| 0 <= j < es.len() - 1 ==> #[trigger] linked(edges, es, j)
}

/// A cycle: a chain of at least one dependency that ends at the stage where
/// it starts.
pub open spec fn is_cycle(edges: Seq<(usize, usize)>, es: Seq<int>) -> bool {
    &&& es.len() >= 1
    &&& is_chain(edges, es)
    &&& edges[es[es.len() - 1]].1 == edges[es[0]].0
}

/// The `j`-th stage a chain passes through: where its `j`-th dependency
/// starts, or, past the last one, where the chain ends.
pub open spec fn chain_stage(edges: Seq<(usize, usize)>, es: Seq<int>, j: int) -> int {
    if j < es.len() {
        edges[es[j]].0 as int
    } else {
        edges[es[es.len() - 1]].1 as int
    }
}

/// Following a dependency uses up one round.
proof fn lemma_within_follow(edges: Seq<(usize, usize)>, i: int, k: nat)
    requires
        0 <= i < edges.len(),
        within(edges, edges[i].0 as int, k),
    ensures
        k > 0,
        within(edges, edges[i].1 as int, (k - 1) as nat),
{
    assert(edges[i].0 == edges[i].0);
}

/// Following `j` dependencies of a chain uses up `j` rounds.
proof fn lemma_within_chain(edges: Seq<(usize, usize)>, es: Seq<int>, j: int, k: nat)
    requires
        is_chain(edges, es),
        es.len() >= 1,
        0 <= j <= es.len(),
        within(edges, chain_stage(edges, es, 0), k),
    ensures
        k >= j,
        within(edges, chain_stage(edges, es, j), (k - j) as nat),
    decreases j,
{
    if j > 0 {
        lemma_within_chain(edges, es, j - 1, k);
        assert(0 <= es[j - 1] < edges.len());
        lemma_within_follow(edges, es[j - 1], (k - (j - 1)) as nat);
        if j < es.len() {
            assert(linked(edges, es, j - 1));
        }
    }
}

/// A stage on a cycle is settled within no number of rounds.
proof fn lemma_cycle_unsettled(edges: Seq<(usize, usize)>, es: Seq<int>, k: nat)
    requires
        is_cycle(edges, es),
    ensures
        !within(edges, chain_stage(edges, es, 0), k),
    decreases k,
{
    if within(edges, chain_stage(edges, es, 0), k) {
        let c = es.len() as int;
        lemma_within_chain(edges, es, c, k);
        assert(chain_stage(edges, es, c) == chain_stage(edges, es, 0));
        lemma_cycle_unsettled(edges, es, (k - c) as nat);
    }
}

/// A stage not settled within `k` rounds has a dependency whose target is
/// not settled within `k - 1` rounds (or `k` is 0).
proof fn lemma_unsettled_step(edges: Seq<(usize, usize)>, v: int, k: nat) -> (i: int)
    requires
        !within(edges, v, k),
    ensures
        0 <= i < edges.len(),
        edges[i].0 == v,
        k == 0 || !within(edges, edges[i].1 as int, (k - 1) as nat),
{
    choose|i: int|
        #![trigger edges[i]]
        0 <= i < edges.len() && edges[i].0 == v && !(k > 0 && within(edges, edges[i].1 as int, (k - 1) as nat))
}

/// From a stage not settled within `k` rounds starts a chain of `k + 1`
/// dependencies.
proof fn lemma_long_chain(edges: Seq<(usize, usize)>, v: int, k: nat) -> (es: Seq<int>)
    requires
        !within(edges, v, k),
    ensures
        es.len() == k + 1,
        is_chain(edges, es),
        chain_stage(edges, es, 0) == v,
    decreases k,
{
    let i = lemma_unsettled_step(edges, v, k);
    if k == 0 {
        seq![i]
    } else {
        let rest = lemma_long_chain(edges, edges[i].1 as int, (k - 1) as nat);
        let es = seq![i] + rest;
        assert forall|j: int| 0 <= j < es.len() implies 0 <= #[trigger] es[j] < edges.len() by {
            if j > 0 {
                assert(es[j] == rest[j - 1]);
            }
        }
        assert forall|j: int| 0 <= j < es.len() - 1 implies #[trigger] linked(edges, es, j) by {
            if j == 0 {
                assert(es[1] == rest[0]);
            } else {
                assert(es[j] == rest[j - 1] && es[j + 1] == rest[j]);
                assert(linked(edges, rest, j - 1));
            }
        }
        es
    }
}

/// Among more than `n` numbers below `n`, two are equal.
proof fn lemma_pigeonhole(s: Seq<int>, n: nat) -> (ab: (int, int))
    requires
        s.len() > n,
        forall|j: int| 0 <= j < s.len() ==> 0 <= #[trigger] s[j] < n,
    ensures
        0 <= ab.0 < ab.1 < s.len(),
        s[ab.0] == s[ab.1],
{
    if s.no_duplicates() {
        s.unique_seq_to_set();
        vstd::set_lib::lemma_int_range(0, n as int);
        assert(s.to_set().subset_of(vstd::set_lib::set_int_range(0, n as int)));
        vstd::set_lib::lemma_len_subset(s.to_set(), vstd::set_lib::set_int_range(0, n as int));
        assert(false);
        (0, 0)
    } else {
        let (a, b) = choose|a: int, b: int| 0 <= a < s.len() && 0 <= b < s.len() && a != b && s[a] == s[b];
        if a < b {
            (a, b)
        } else {
            (b, a)
        }
    }
}

/// The stages a chain passes through, in order (its last stage included).
pub open spec fn chain_stages(edges: Seq<(usize, usize)>, es: Seq<int>) -> Seq<int> {
    Seq::new((es.len() + 1) as nat, |j: int| chain_stage(edges, es, j))
}

impl PipelineDag {
    /// Some chain of dependencies leads from a stage back to itself.
    pub open spec fn has_cycle(&self) -> bool {
        exists|es: Seq<int>| is_cycle(self.edge_list(), es)
    }

    /// A pipeline graph has execution levels (is acyclic) exactly when no
    /// chain of dependencies leads from a stage back to itself; so
    /// `execution_levels` and `topological_order` fail with `CyclicGraph`
    /// exactly on graphs with a cycle.
    pub proof fn lemma_acyclic_iff_no_cycle(&self)
        requires
            self.wf(),
        ensures
            self.acyclic() <==> !self.has_cycle(),
    {
        let edges = self.edge_list();
        let n = self.stage_names().len();
        if self.has_cycle() {
            let es = choose|es: Seq<int>| is_cycle(edges, es);
            assert(0 <= es[0] < edges.len());
            let v = chain_stage(edges, es, 0);
            assert(0 <= v < n);
            lemma_cycle_unsettled(edges, es, n);
        }
        if !self.acyclic() {
            let v = choose|v: int| 0 <= v < n && !within(edges, v, n);
            let es = lemma_long_chain(edges, v, n);
            let stages = chain_stages(edges, es);
            assert forall|j: int| 0 <= j < stages.len() implies 0 <= #[trigger] stages[j] < n by {
                if j < es.len() {
                    assert(0 <= es[j] < edges.len());
                } else {
                    assert(0 <= es[es.len() - 1] < edges.len());
                }
            }
            let (a, b) = lemma_pigeonhole(stages, n);
            let cyc = es.subrange(a, b);
            assert forall|j: int| 0 <= j < cyc.len() implies 0 <= #[trigger] cyc[j] < edges.len() by {
                assert(cyc[j] == es[a + j]);
            }
            assert forall|j: int| 0 <= j < cyc.len() - 1 implies #[trigger] linked(edges, cyc, j) by {
                assert(cyc[j] == es[a + j] && cyc[j + 1] == es[a + j + 1]);
                assert(linked(edges, es, a + j));
            }
            assert(stages[a] == chain_stage(edges, es, a));
            assert(stages[b] == chain_stage(edges, es, b));
            assert(cyc[0] == es[a]);
            assert(cyc[cyc.len() - 1] == es[b - 1]);
            if b < es.len() {
                assert(linked(edges, es, b - 1));
            }
            assert(is_cycle(edges, cyc));
        }
    }

    /// The topological order is the execution levels one after the other:
    /// a graph has one list of execution levels and one topological order,
    /// and the second is the first, flattened.
    pub proof fn lemma_topological_order_is_levels_concat(&self, ls: Seq<Seq<Seq<char>>>, o: Seq<Seq<char>>)
        requires
            self.is_execution_levels(ls),
            self.is_topological_order(o),
        ensures
            o == concat(ls),
    {
        let edges = self.edge_list();
        let n = self.stage_names().len();
        let a = choose|lv: Seq<Seq<usize>>| #[trigger] is_kahn_levels(edges, n, lv) && ls == self.level_names(lv);
        let b = choose|lv: Seq<Seq<usize>>|
            #[trigger] is_kahn_levels(edges, n, lv) && o == concat(self.level_names(lv));
        lemma_kahn_levels_unique(edges, n, a, b);
    }

    /// The execution levels of a linear pipeline hold one stage each, in the
    /// order the stages were given.
    pub proof fn lemma_linear_execution_levels(&self, ls: Seq<Seq<Seq<char>>>)
        requires
            self.wf(),
            self.edge_list() == linear_edges(self.stage_names().len()),
            self.is_execution_levels(ls),
        ensures
            ls == self.stage_names().map_values(|x: Seq<char>| seq![x]),
    {
        let edges = self.edge_list();
        let n = self.stage_names().len();
        let lv = Seq::new(n, |i: int| seq![i as usize]);
        assert forall|v: int, d: nat| 0 <= v < n && #[trigger] has_depth(edges, v, d) implies d == v by {
            lemma_linear_levels(n, v);
            lemma_depth_unique(edges, v, d, v as nat);
        }
        assert forall|k: int| 0 <= k < lv.len() implies (#[trigger] lv[k]).no_duplicates() && lv[k].len() > 0 by {
            assert(lv[k] == seq![k as usize]);
        }
        assert forall|k: int, v: int| 0 <= k < lv.len() && 0 <= v < n implies (#[trigger] lv[k].contains(v as usize)
            <==> has_depth(edges, v, k as nat)) by {
            lemma_linear_levels(n, v);
            assert(lv[k] == seq![k as usize]);
            if lv[k].contains(v as usize) {
                assert(lv[k][0] == v as usize);
            }
            if v == k {
                assert(lv[k][0] == v as usize);
            }
        }
        assert forall|k: int| 0 < k < lv.len() implies kahn_ordered(edges, #[trigger] lv[k - 1], lv[k]) by {
            let keys = seq![(0int, k - 1)];
            assert(edges[k - 1] == (k as usize, (k - 1) as usize));
            assert(last_pair(edges, lv[k - 1], lv[k][0], 0, k - 1));
            assert(keys.len() == lv[k].len());
        }
        assert(is_kahn_levels(edges, n, lv));
        let a = choose|l: Seq<Seq<usize>>| #[trigger] is_kahn_levels(edges, n, l) && ls == self.level_names(l);
        lemma_kahn_levels_unique(edges, n, a, lv);
        assert forall|k: int| 0 <= k < n implies #[trigger] ls[k] == seq![self.stage_names()[k]] by {
            assert(lv[k] == seq![k as usize]);
            assert(lv[k].map_values(self.name_fn()) =~= seq![self.stage_names()[k]]);
        }
        assert(ls =~= self.stage_names().map_values(|x: Seq<char>| seq![x]));
    }
}

} // verus!
