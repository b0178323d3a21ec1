//! Ranking nodes in levels: each node after all the nodes that lead to it,
//! in the first level where that is possible (Kahn's algorithm, one round
//! per level).
//!
//! The nodes are indices below a bound; `adj[u]` lists the nodes that `u`
//! leads to, each once.
use vstd::prelude::*;
use crate::engine::marks::Marks;
use crate::engine::traversal::{count_in, lemma_count_take, lemma_count_take_le, lemma_count_pos};

verus! {

/// The edges into `y` from the members of `all` whose flag in `done` is clear.
pub open spec fn adj_pending(adj: Seq<Seq<usize>>, all: Seq<usize>, done: Seq<bool>, y: usize) -> nat
    decreases all.len(),
{
    if all.len() == 0 {
        0
    } else {
        adj_pending(adj, all.drop_last(), done, y) + if !done[all.last() as int] {
            count_in(adj[all.last() as int], y)
        } else {
            0nat
        }
    }
}

/// Whether `all` lists distinct nodes below `n` whose successors are all in `all`.
pub open spec fn is_closed_set(adj: Seq<Seq<usize>>, n: int, all: Seq<usize>) -> bool {
    &&& all.no_duplicates()
    &&& forall|k: int| 0 <= k < all.len() ==> (#[trigger] all[k]) < n
    &&& forall|k: int, j: int|
        0 <= k < all.len() && 0 <= j < adj[all[k] as int].len() ==> all.contains(
            #[trigger] adj[all[k] as int][j],
        )
}

/// Whether `adj` lists, for each of the `n` nodes, distinct nodes below `n`.
pub open spec fn is_adjacency(adj: Seq<Seq<usize>>, n: int) -> bool {
    &&& adj.len() == n
    &&& forall|u: int| 0 <= u < n ==> (#[trigger] adj[u]).no_duplicates()
    &&& forall|u: int, j: int| 0 <= u < n && 0 <= j < adj[u].len() ==> (#[trigger] adj[u][j]) < n
}

/// Whether `c` is a cycle through members of `all`: at least one step, each
/// step along `adj`, ending where it starts.
pub open spec fn is_cycle(adj: Seq<Seq<usize>>, all: Seq<usize>, c: Seq<usize>) -> bool {
    &&& c.len() >= 2
    &&& c[0] == c.last()
    &&& forall|k: int| 0 <= k < c.len() ==> all.contains(#[trigger] c[k])
    &&& forall|k: int| 0 <= k < c.len() - 1 ==> adj[#[trigger] c[k] as int].contains(c[k + 1])
}

/// Whether the members of `all` hold a cycle.
pub open spec fn has_member_cycle(adj: Seq<Seq<usize>>, all: Seq<usize>) -> bool {
    exists|c: Seq<usize>| is_cycle(adj, all, c)
}

/// The levels, one after the other.
pub open spec fn concat_levels(levels: Seq<Seq<usize>>) -> Seq<usize>
    decreases levels.len(),
{
    if levels.len() == 0 {
        Seq::empty()
    } else {
        concat_levels(levels.drop_last()) + levels.last()
    }
}

/// The position in the concatenation where level `l` starts.
pub open spec fn level_start(levels: Seq<Seq<usize>>, l: int) -> int {
    concat_levels(levels.take(l)).len() as int
}

/// Whether every member leading to `order[q]` stands before position `lim`.
pub open spec fn preds_within(adj: Seq<Seq<usize>>, all: Seq<usize>, order: Seq<usize>, q: int, lim: int) -> bool {
    forall|k: int|
        0 <= k < all.len() && #[trigger] adj[all[k] as int].contains(order[q]) ==> exists|p: int|
            0 <= p < lim && order[p] == all[k]
}

/// Whether `order` holds every member of `all`.
pub open spec fn covers(all: Seq<usize>, order: Seq<usize>) -> bool {
    forall|v: usize| all.contains(v) ==> order.contains(v)
}

/// Whether `levels` ranks members of `all` once each, every node in a
/// later level than each member that leads to it, and covers all members
/// exactly when they hold no cycle.
pub open spec fn is_level_ranking(adj: Seq<Seq<usize>>, all: Seq<usize>, levels: Seq<Seq<usize>>) -> bool {
    let order = concat_levels(levels);
    &&& order.no_duplicates()
    &&& forall|q: int| 0 <= q < order.len() ==> all.contains(#[trigger] order[q])
    &&& forall|l: int| 0 <= l < levels.len() ==> (#[trigger] levels[l]).len() > 0
    &&& forall|l: int, i: int|
        0 <= l < levels.len() && 0 <= i < levels[l].len() ==> #[trigger] preds_within(
            adj,
            all,
            order,
            level_start(levels, l) + i,
            level_start(levels, l),
        )
    &&& (covers(all, order) <==> !has_member_cycle(adj, all))
}

/// Whether some node of `prev` leads to `y`.
pub open spec fn led_from(adj: Seq<Seq<usize>>, prev: Seq<usize>, y: usize) -> bool {
    exists|j: int| 0 <= j < prev.len() && adj[prev[j] as int].contains(y)
}

/// Whether each node of a level after the first is led to by a node of the
/// level just before it: with every node after the members leading to it,
/// each node stands in the first level where it can, the length of the
/// longest path to it.
pub open spec fn levels_tight(adj: Seq<Seq<usize>>, levels: Seq<Seq<usize>>) -> bool {
    forall|l: int, i: int|
        #![trigger levels[l][i]]
        0 < l < levels.len() && 0 <= i < levels[l].len() ==> led_from(adj, levels[l - 1], levels[l][i])
}

/// Counting over one more level.
pub proof fn lemma_concat_push(levels: Seq<Seq<usize>>, lv: Seq<usize>)
    ensures
        concat_levels(levels.push(lv)) == concat_levels(levels) + lv,
{
    assert(levels.push(lv).drop_last() =~= levels);
}

/// The concatenation of a prefix of the levels is a prefix of the whole.
pub proof fn lemma_concat_prefix(levels: Seq<Seq<usize>>, l: int)
    requires
        0 <= l <= levels.len(),
    ensures
        concat_levels(levels.take(l)).len() <= concat_levels(levels).len(),
        concat_levels(levels) .take(concat_levels(levels.take(l)).len() as int) == concat_levels(levels.take(l)),
        l < levels.len() ==> concat_levels(levels.take(l + 1)) == concat_levels(levels.take(l)) + levels[l],
    decreases levels.len() - l,
{
    if l < levels.len() {
        assert(levels.take(l + 1).drop_last() =~= levels.take(l));
        lemma_concat_prefix(levels, l + 1);
        let a = concat_levels(levels.take(l));
        let b = concat_levels(levels.take(l + 1));
        assert(b == a + levels[l]);
        assert(concat_levels(levels).take(a.len() as int) =~= a) by {
            assert(concat_levels(levels).take(b.len() as int) == b);
            assert forall|i: int| 0 <= i < a.len() implies concat_levels(levels).take(a.len() as int)[i] == a[i] by {
                assert(concat_levels(levels).take(b.len() as int)[i] == b[i]);
            }
        }
    } else {
        assert(levels.take(l) =~= levels);
        assert(concat_levels(levels).take(concat_levels(levels).len() as int) =~= concat_levels(levels));
    }
}

/// Marking a member done removes its edges from the pending counts.
pub proof fn lemma_adj_pending_done(adj: Seq<Seq<usize>>, all: Seq<usize>, done: Seq<bool>, x: usize, y: usize)
    requires
        all.no_duplicates(),
        all.contains(x),
        x < done.len(),
        !done[x as int],
        forall|k: int| 0 <= k < all.len() ==> (#[trigger] all[k]) < done.len(),
    ensures
        adj_pending(adj, all, done, y) == adj_pending(adj, all, done.update(x as int, true), y)
            + count_in(adj[x as int], y),
    decreases all.len(),
{
    let d = all.drop_last();
    let nd = done.update(x as int, true);
    assert forall|k: int| 0 <= k < d.len() implies (#[trigger] d[k]) < done.len() by {
        assert(d[k] == all[k]);
    }
    assert(all[all.len() - 1] < done.len());
    if all.last() == x {
        assert(!d.contains(x)) by {
            if d.contains(x) {
                let w = choose|w: int| 0 <= w < d.len() && d[w] == x;
                assert(all[w] == x && all[all.len() - 1] == x);
            }
        }
        lemma_adj_pending_same(adj, d, done, x, y);
    } else {
        assert(d.contains(x)) by {
            let w = choose|w: int| 0 <= w < all.len() && all[w] == x;
            assert(w != all.len() - 1);
            assert(d[w] == x);
        }
        assert(d.no_duplicates()) by {
            assert forall|a: int, b: int| 0 <= a < d.len() && 0 <= b < d.len() && a != b implies d[a] != d[b] by {
                assert(d[a] == all[a] && d[b] == all[b]);
            }
        }
        lemma_adj_pending_done(adj, d, done, x, y);
        assert(nd[all.last() as int] == done[all.last() as int]);
    }
}

/// Changing the flag of a non-member changes no pending count.
pub proof fn lemma_adj_pending_same(adj: Seq<Seq<usize>>, all: Seq<usize>, done: Seq<bool>, x: usize, y: usize)
    requires
        !all.contains(x),
        x < done.len(),
        forall|k: int| 0 <= k < all.len() ==> (#[trigger] all[k]) < done.len(),
    ensures
        adj_pending(adj, all, done.update(x as int, true), y) == adj_pending(adj, all, done, y),
    decreases all.len(),
{
    if all.len() > 0 {
        let d = all.drop_last();
        assert(!d.contains(x)) by {
            if d.contains(x) {
                let w = choose|w: int| 0 <= w < d.len() && d[w] == x;
                assert(all[w] == x);
            }
        }
        assert forall|k: int| 0 <= k < d.len() implies (#[trigger] d[k]) < done.len() by {
            assert(d[k] == all[k]);
        }
        lemma_adj_pending_same(adj, d, done, x, y);
        assert(all[all.len() - 1] == all.last());
        assert(all[all.len() - 1] < done.len());
    }
}

/// With no pending edge into `y`, no member whose flag is clear leads to
/// `y`; with some, one does.
pub proof fn lemma_adj_pending_witness(adj: Seq<Seq<usize>>, all: Seq<usize>, done: Seq<bool>, y: usize)
    ensures
        adj_pending(adj, all, done, y) == 0 ==> forall|k: int|
            0 <= k < all.len() && !done[all[k] as int] ==> !(#[trigger] adj[all[k] as int]).contains(y),
        adj_pending(adj, all, done, y) > 0 ==> exists|k: int|
            0 <= k < all.len() && !done[all[k] as int] && (#[trigger] adj[all[k] as int]).contains(y),
    decreases all.len(),
{
    if all.len() > 0 {
        let d = all.drop_last();
        lemma_adj_pending_witness(adj, d, done, y);
        let last = all.len() - 1;
        assert(all[last] == all.last());
        if adj_pending(adj, all, done, y) == 0 {
            assert forall|k: int| 0 <= k < all.len() && !done[all[k] as int] implies !(#[trigger] adj[all[k] as int]).contains(y) by {
                if k < last {
                    assert(d[k] == all[k]);
                } else if adj[all[k] as int].contains(y) {
                    let w = choose|w: int| 0 <= w < adj[all[k] as int].len() && adj[all[k] as int][w] == y;
                    lemma_count_pos(adj[all[k] as int], w);
                }
            }
        } else {
            if adj_pending(adj, d, done, y) > 0 {
                let k = choose|k: int| 0 <= k < d.len() && !done[d[k] as int] && (#[trigger] adj[d[k] as int]).contains(y);
                assert(d[k] == all[k]);
            } else {
                assert(!done[all[last] as int]);
                assert(count_in(adj[all[last] as int], y) > 0);
                lemma_count_contains(adj[all[last] as int], y);
            }
        }
    }
}

/// A counted element occurs.
pub proof fn lemma_count_contains(s: Seq<usize>, y: usize)
    requires
        count_in(s, y) > 0,
    ensures
        s.contains(y),
    decreases s.len(),
{
    if s.last() == y {
        assert(s[s.len() - 1] == y);
    } else {
        lemma_count_contains(s.drop_last(), y);
        let w = choose|w: int| 0 <= w < s.drop_last().len() && s.drop_last()[w] == y;
        assert(s[w] == y);
    }
}

/// An element of a sequence without repeats is counted once.
pub proof fn lemma_count_distinct(s: Seq<usize>, y: usize)
    requires
        s.no_duplicates(),
    ensures
        count_in(s, y) <= 1,
        s.contains(y) ==> count_in(s, y) == 1,
    decreases s.len(),
{
    if s.len() > 0 {
        let d = s.drop_last();
        assert(d.no_duplicates()) by {
            assert forall|a: int, b: int| 0 <= a < d.len() && 0 <= b < d.len() && a != b implies d[a] != d[b] by {
                assert(d[a] == s[a] && d[b] == s[b]);
            }
        }
        lemma_count_distinct(d, y);
        if s.last() == y {
            assert(!d.contains(y)) by {
                if d.contains(y) {
                    let w = choose|w: int| 0 <= w < d.len() && d[w] == y;
                    assert(s[w] == y && s[s.len() - 1] == y);
                }
            }
            if count_in(d, y) > 0 {
                lemma_count_contains(d, y);
            }
        } else if s.contains(y) {
            let w = choose|w: int| 0 <= w < s.len() && s[w] == y;
            assert(w != s.len() - 1);
            assert(d[w] == y);
        }
    }
}

/// Distinct indices below `n` number at most `n`.
pub proof fn lemma_pigeonhole(s: Seq<usize>, n: int)
    requires
        0 <= n <= usize::MAX,
        s.no_duplicates(),
        forall|k: int| 0 <= k < s.len() ==> (#[trigger] s[k]) < n,
    ensures
        s.len() <= n,
    decreases n,
{
    if n == 0 {
        if s.len() > 0 {
            assert(s[0] < n);
        }
    } else {
        let top = (n - 1) as usize;
        if s.contains(top) {
            let i = choose|i: int| 0 <= i < s.len() && s[i] == top;
            let t = s.remove(i);
            assert(t.len() == s.len() - 1);
            assert forall|a: int, b: int| 0 <= a < t.len() && 0 <= b < t.len() && a != b implies t[a] != t[b] by {
                let a2 = if a < i { a } else { a + 1 };
                let b2 = if b < i { b } else { b + 1 };
                assert(t[a] == s[a2] && t[b] == s[b2]);
            }
            assert forall|k: int| 0 <= k < t.len() implies (#[trigger] t[k]) < n - 1 by {
                let k2 = if k < i { k } else { k + 1 };
                assert(t[k] == s[k2]);
                assert(k2 != i);
            }
            lemma_pigeonhole(t, n - 1);
        } else {
            assert forall|k: int| 0 <= k < s.len() implies (#[trigger] s[k]) < n - 1 by {
                assert(s[k] != top);
            }
            lemma_pigeonhole(s, n - 1);
        }
    }
}

/// A walk backwards from `y0` through members whose flag is clear: each
/// step goes to a member that leads to the previous one.
pub open spec fn walk_back(adj: Seq<Seq<usize>>, all: Seq<usize>, done: Seq<bool>, y0: usize, k: nat) -> usize
    decreases k,
{
    if k == 0 {
        y0
    } else {
        let prev = walk_back(adj, all, done, y0, (k - 1) as nat);
        let i = choose|i: int| 0 <= i < all.len() && !done[all[i] as int] && (#[trigger] adj[all[i] as int]).contains(prev);
        all[i]
    }
}

/// When every member whose flag is clear is led to by another such member,
/// walking back stays among them.
pub proof fn lemma_walk_back(adj: Seq<Seq<usize>>, all: Seq<usize>, done: Seq<bool>, y0: usize, k: nat)
    requires
        all.contains(y0),
        !done[y0 as int],
        forall|y: usize|
            all.contains(y) && !done[y as int] ==> exists|i: int|
                0 <= i < all.len() && !done[all[i] as int] && (#[trigger] adj[all[i] as int]).contains(y),
    ensures
        all.contains(walk_back(adj, all, done, y0, k)),
        !done[walk_back(adj, all, done, y0, k) as int],
        k > 0 ==> adj[walk_back(adj, all, done, y0, k) as int].contains(walk_back(adj, all, done, y0, (k - 1) as nat)),
    decreases k,
{
    if k > 0 {
        lemma_walk_back(adj, all, done, y0, (k - 1) as nat);
        let prev = walk_back(adj, all, done, y0, (k - 1) as nat);
        let i = choose|i: int| 0 <= i < all.len() && !done[all[i] as int] && (#[trigger] adj[all[i] as int]).contains(prev);
        assert(all.contains(all[i]));
    }
}

/// If some member is never taken while every member whose flag is clear is
/// led to by another such member, the members hold a cycle.
pub proof fn lemma_stuck_has_cycle(adj: Seq<Seq<usize>>, all: Seq<usize>, done: Seq<bool>, y0: usize, n: int)
    requires
        all.contains(y0),
        !done[y0 as int],
        forall|k: int| 0 <= k < all.len() ==> (#[trigger] all[k]) < n,
        0 <= n <= u32::MAX,
        forall|y: usize|
            all.contains(y) && !done[y as int] ==> exists|i: int|
                0 <= i < all.len() && !done[all[i] as int] && (#[trigger] adj[all[i] as int]).contains(y),
    ensures
        has_member_cycle(adj, all),
{
    let w = Seq::new((n + 1) as nat, |k: int| walk_back(adj, all, done, y0, k as nat));
    assert forall|k: int| 0 <= k < w.len() implies (#[trigger] w[k]) < n by {
        lemma_walk_back(adj, all, done, y0, k as nat);
        let v = w[k];
        let i = choose|i: int| 0 <= i < all.len() && all[i] == v;
    }
    if w.no_duplicates() {
        lemma_pigeonhole(w, n);
        assert(false);
    }
    let (i, j) = choose|i: int, j: int| 0 <= i < w.len() && 0 <= j < w.len() && i != j && w[i] == w[j];
    let lo = if i < j { i } else { j };
    let hi = if i < j { j } else { i };
    let c = Seq::new((hi - lo + 1) as nat, |t: int| w[hi - t]);
    assert(c[0] == c.last());
    assert forall|t: int| 0 <= t < c.len() implies all.contains(#[trigger] c[t]) by {
        lemma_walk_back(adj, all, done, y0, (hi - t) as nat);
    }
    assert forall|t: int| 0 <= t < c.len() - 1 implies adj[#[trigger] c[t] as int].contains(c[t + 1]) by {
        lemma_walk_back(adj, all, done, y0, (hi - t) as nat);
        assert(c[t] == walk_back(adj, all, done, y0, (hi - t) as nat));
        assert(c[t + 1] == walk_back(adj, all, done, y0, (hi - t - 1) as nat));
    }
    assert(is_cycle(adj, all, c));
}

/// A ranking in which every member comes after the members that lead to it
/// leaves no cycle among the members it ranks all of.
pub proof fn lemma_ranked_no_cycle(adj: Seq<Seq<usize>>, all: Seq<usize>, order: Seq<usize>)
    requires
        order.no_duplicates(),
        forall|v: usize| all.contains(v) ==> order.contains(v),
        forall|q: int| 0 <= q < order.len() ==> #[trigger] preds_within(adj, all, order, q, q),
    ensures
        !has_member_cycle(adj, all),
{
    if has_member_cycle(adj, all) {
        let c = choose|c: Seq<usize>| is_cycle(adj, all, c);
        lemma_cycle_unranked(adj, all, order, c);
    }
}

/// No cycle lies among members that such a ranking ranks.
proof fn lemma_cycle_unranked(adj: Seq<Seq<usize>>, all: Seq<usize>, order: Seq<usize>, c: Seq<usize>)
    requires
        order.no_duplicates(),
        forall|v: usize| all.contains(v) ==> order.contains(v),
        forall|q: int| 0 <= q < order.len() ==> #[trigger] preds_within(adj, all, order, q, q),
        is_cycle(adj, all, c),
    ensures
        c.len() < 2,
{
    let pos = |v: usize| choose|p: int| 0 <= p < order.len() && order[p] == v;
    assert forall|t: int| 0 <= t < c.len() implies 0 <= #[trigger] pos(c[t]) < order.len() && order[pos(c[t])] == c[t] by {
        assert(order.contains(c[t]));
    }
    assert forall|t: int| 0 < t < c.len() implies #[trigger] pos(c[t]) > pos(c[0]) by {
        lemma_positions_rise(adj, all, order, c, t);
    }
    assert(pos(c[c.len() - 1]) > pos(c[0]));
}

/// Positions rise along a cycle in such a ranking.
proof fn lemma_positions_rise(adj: Seq<Seq<usize>>, all: Seq<usize>, order: Seq<usize>, c: Seq<usize>, t: int)
    requires
        order.no_duplicates(),
        forall|v: usize| all.contains(v) ==> order.contains(v),
        forall|q: int| 0 <= q < order.len() ==> #[trigger] preds_within(adj, all, order, q, q),
        is_cycle(adj, all, c),
        0 < t < c.len(),
    ensures
        (choose|p: int| 0 <= p < order.len() && order[p] == c[t]) > (choose|p: int|
            0 <= p < order.len() && order[p] == c[0]),
    decreases t,
{
    let pt = choose|p: int| 0 <= p < order.len() && order[p] == c[t];
    let pp = choose|p: int| 0 <= p < order.len() && order[p] == c[t - 1];
    assert(all.contains(c[t]) && all.contains(c[t - 1]));
    assert(order.contains(c[t]));
    assert(order.contains(c[t - 1]));
    assert(adj[c[t - 1] as int].contains(c[t]));
    let k = choose|k: int| 0 <= k < all.len() && all[k] == c[t - 1];
    assert(preds_within(adj, all, order, pt, pt));
    assert(adj[all[k] as int].contains(order[pt]));
    let p = choose|p: int| 0 <= p < pt && order[p] == all[k];
    assert(p == pp);
    if t > 1 {
        lemma_positions_rise(adj, all, order, c, t - 1);
    }
}

/// Extending a range of a sequence by one element.
pub proof fn lemma_subrange_extend(s: Seq<usize>, a: int, b: int)
    requires
        0 <= a <= b < s.len(),
    ensures
        s.subrange(a, b + 1) == s.subrange(a, b).push(s[b]),
{
    assert(s.subrange(a, b + 1) =~= s.subrange(a, b).push(s[b]));
}

/// Appending leaves earlier ranges alone.
pub proof fn lemma_push_keeps(s: Seq<usize>, x: usize, a: int, b: int)
    requires
        0 <= a <= b <= s.len(),
    ensures
        s.push(x).take(a) == s.take(a),
        s.push(x).subrange(a, b) == s.subrange(a, b),
{
    assert(s.push(x).take(a) =~= s.take(a));
    assert(s.push(x).subrange(a, b) =~= s.subrange(a, b));
}

/// Pending counts of lists without repeats are at most the number of members.
pub proof fn lemma_adj_pending_le(adj: Seq<Seq<usize>>, all: Seq<usize>, done: Seq<bool>, y: usize)
    requires
        forall|k: int| 0 <= k < all.len() ==> (#[trigger] adj[all[k] as int]).no_duplicates(),
    ensures
        adj_pending(adj, all, done, y) <= all.len(),
    decreases all.len(),
{
    if all.len() > 0 {
        let d = all.drop_last();
        assert forall|k: int| 0 <= k < d.len() implies (#[trigger] adj[d[k] as int]).no_duplicates() by {
            assert(d[k] == all[k]);
        }
        lemma_adj_pending_le(adj, d, done, y);
        assert(adj[all[all.len() - 1] as int].no_duplicates());
        lemma_count_distinct(adj[all.last() as int], y);
    }
}

/// The lists of a vector of vectors.
pub open spec fn lists_of(v: Seq<Vec<usize>>) -> Seq<Seq<usize>> {
    Seq::new(v.len(), |i: int| v[i]@)
}

/// Ranks the members `all` in levels.
#[verifier::rlimit(100)]
pub fn kahn_levels(n: usize, all: &Vec<usize>, adj: &Vec<Vec<usize>>) -> (levels: Vec<Vec<usize>>)
    requires
        n <= u32::MAX,
        is_adjacency(lists_of(adj@), n as int),
        is_closed_set(lists_of(adj@), n as int, all@),
    ensures
        is_level_ranking(lists_of(adj@), all@, lists_of(levels@)),
        levels_tight(lists_of(adj@), lists_of(levels@)),
{
    let ghost g = lists_of(adj@);
    proof {
        lemma_pigeonhole(all@, n as int);
        assert forall|k: int| 0 <= k < all@.len() implies (#[trigger] g[all@[k] as int]).no_duplicates() by {
            assert(all@[k] < n);
        }
    }
    let ghost nodone = Seq::new(n as nat, |k: int| false);
    let mut indeg: Vec<usize> = Vec::new();
    let mut i: usize = 0;
    while i < n
        invariant
            i <= n,
            indeg@.len() == i,
            forall|k: int| 0 <= k < i ==> #[trigger] indeg@[k] == 0,
        decreases n - i,
    {
        indeg.push(0);
        i = i + 1;
    }
    let mut i: usize = 0;
    while i < all.len()
        invariant
            g == lists_of(adj@),
            is_adjacency(g, n as int),
            is_closed_set(g, n as int, all@),
            forall|k: int| 0 <= k < all@.len() ==> (#[trigger] g[all@[k] as int]).no_duplicates(),
            all@.len() <= n,
            i <= all@.len(),
            indeg@.len() == n,
            nodone.len() == n,
            forall|k: int| 0 <= k < n ==> !#[trigger] nodone[k],
            forall|y: usize| y < n ==> #[trigger] indeg@[y as int] == adj_pending(g, all@.take(i as int), nodone, y),
        decreases all@.len() - i,
    {
        let u = all[i];
        let succ = &adj[u];
        assert(succ@ == g[u as int]);
        let mut j: usize = 0;
        while j < succ.len()
            invariant
                g == lists_of(adj@),
                is_adjacency(g, n as int),
                forall|k: int| 0 <= k < all@.len() ==> (#[trigger] g[all@[k] as int]).no_duplicates(),
                all@.len() <= n,
                i < all@.len(),
                u == all@[i as int],
                u < n,
                succ@ == g[u as int],
                j <= succ@.len(),
                indeg@.len() == n,
                forall|y: usize|
                    y < n ==> #[trigger] indeg@[y as int] == adj_pending(g, all@.take(i as int), nodone, y)
                        + count_in(succ@.take(j as int), y),
            decreases succ@.len() - j,
        {
            let y = succ[j];
            proof {
                assert(y < n);
                lemma_count_take(succ@, j as int, y);
                assert forall|z: usize| z < n && z != y implies count_in(succ@.take(j + 1), z) == count_in(succ@.take(j as int), z) by {
                    lemma_count_take(succ@, j as int, z);
                }
                lemma_count_take_le(succ@, j + 1, y);
                lemma_count_distinct(succ@, y);
                assert forall|k: int| 0 <= k < all@.take(i as int).len() implies (#[trigger] g[all@.take(i as int)[k] as int]).no_duplicates() by {
                    assert(all@.take(i as int)[k] == all@[k]);
                }
                lemma_adj_pending_le(g, all@.take(i as int), nodone, y);
            }
            let d = indeg[y];
            indeg.set(y, d + 1);
            j = j + 1;
        }
        proof {
            assert(succ@.take(succ@.len() as int) =~= succ@);
            assert(all@.take(i + 1).drop_last() =~= all@.take(i as int));
            assert(all@.take(i + 1).last() == u);
        }
        i = i + 1;
    }
    proof {
        assert(all@.take(all@.len() as int) =~= all@);
    }
    let mut queued = Marks::new(n);
    let mut queue: Vec<usize> = Vec::new();
    let ghost mut lim: Seq<int> = Seq::empty();
    let ghost mut wit: Seq<int> = Seq::empty();
    let mut i: usize = 0;
    while i < all.len()
        invariant
            wit.len() == queue@.len(),
            forall|q: int| 0 <= q < wit.len() ==> #[trigger] wit[q] == -1,
            g == lists_of(adj@),
            is_adjacency(g, n as int),
            is_closed_set(g, n as int, all@),
            i <= all@.len(),
            indeg@.len() == n,
            nodone.len() == n,
            forall|k: int| 0 <= k < n ==> !#[trigger] nodone[k],
            forall|y: usize| y < n ==> #[trigger] indeg@[y as int] == adj_pending(g, all@, nodone, y),
            queued.wf(),
            queued.view().len() == n,
            queued.set_count() == queue@.len(),
            queue@.no_duplicates(),
            lim.len() == queue@.len(),
            forall|q: int| 0 <= q < lim.len() ==> #[trigger] lim[q] == 0,
            forall|y: usize| y < n ==> (#[trigger] queued.view()[y as int] <==> queue@.contains(y)),
            forall|y: usize| y < n && #[trigger] queued.view()[y as int] ==> indeg@[y as int] == 0,
            forall|q: int| 0 <= q < queue@.len() ==> all@.contains(#[trigger] queue@[q]),
            forall|q: int| 0 <= q < queue@.len() ==> exists|k: int| 0 <= k < i && all@[k] == #[trigger] queue@[q],
            forall|k: int| 0 <= k < i && #[trigger] indeg@[all@[k] as int] == 0 ==> queued.view()[all@[k] as int],
        decreases all@.len() - i,
    {
        let u = all[i];
        if indeg[u] == 0 {
            proof {
                assert(!queue@.contains(u)) by {
                    if queue@.contains(u) {
                        let q = choose|q: int| 0 <= q < queue@.len() && queue@[q] == u;
                        let k = choose|k: int| 0 <= k < i && all@[k] == queue@[q];
                        assert(all@[k] == all@[i as int]);
                    }
                }
            }
            let ghost before = queue@;
            queued.set(u);
            queue.push(u);
            proof {
                lim = lim.push(0);
                wit = wit.push(-1);
                assert forall|y: usize| y < n implies (#[trigger] queued.view()[y as int] <==> queue@.contains(y)) by {
                    if y == u {
                        assert(queue@[before.len() as int] == u);
                    } else if queue@.contains(y) {
                        let w = choose|w: int| 0 <= w < queue@.len() && queue@[w] == y;
                        assert(before[w] == y);
                    } else if before.contains(y) {
                        let w = choose|w: int| 0 <= w < before.len() && before[w] == y;
                        assert(queue@[w] == y);
                    }
                }
                assert forall|q: int| 0 <= q < queue@.len() implies exists|k: int| 0 <= k < i + 1 && all@[k] == #[trigger] queue@[q] by {
                    if q < before.len() {
                        assert(queue@[q] == before[q]);
                    } else {
                        assert(all@[i as int] == queue@[q]);
                    }
                }
                assert forall|q: int| 0 <= q < queue@.len() implies all@.contains(#[trigger] queue@[q]) by {
                    if q < before.len() {
                        assert(queue@[q] == before[q]);
                    } else {
                        assert(all@[i as int] == queue@[q]);
                    }
                }
            }
        }
        i = i + 1;
    }
    proof {
        assert forall|q: int| 0 <= q < queue@.len() implies #[trigger] preds_within(g, all@, queue@, q, lim[q]) by {
            let y = queue@[q];
            assert(all@.contains(y));
            assert(y < n);
            assert(queue@.contains(y));
            assert(queued.view()[y as int]);
            assert(indeg@[y as int] == 0);
            assert(adj_pending(g, all@, nodone, y) == 0);
            lemma_adj_pending_witness(g, all@, nodone, y);
            assert forall|k: int| 0 <= k < all@.len() && #[trigger] g[all@[k] as int].contains(queue@[q])
                implies exists|p: int| 0 <= p < lim[q] && queue@[p] == all@[k] by {
                assert(all@[k] < n);
                assert(!nodone[all@[k] as int]);
            }
        }
    }
    let mut done = Marks::new(n);
    assert(done.view() =~= nodone);
    let mut head: usize = 0;
    let mut levels: Vec<Vec<usize>> = Vec::new();
    let ghost mut prev_start: int = 0;
    while head < queue.len()
        invariant
            wit.len() == queue@.len(),
            forall|q: int| 0 <= q < wit.len() && #[trigger] wit[q] >= 0 ==> wit[q] < q && g[queue@[wit[q]] as int].contains(queue@[q]),
            head == 0 ==> forall|q: int| 0 <= q < wit.len() ==> #[trigger] wit[q] == -1,
            head > 0 ==> 0 <= prev_start < head && forall|q: int| head <= q < wit.len() ==> prev_start <= #[trigger] wit[q] < head,
            (head == 0) == (levels@.len() == 0),
            levels@.len() > 0 ==> levels@.last()@ == queue@.subrange(prev_start, head as int),
            levels_tight(g, lists_of(levels@)),
            g == lists_of(adj@),
            is_adjacency(g, n as int),
            is_closed_set(g, n as int, all@),
            indeg@.len() == n,
            done.wf(),
            done.view().len() == n,
            forall|y: usize| y < n ==> #[trigger] indeg@[y as int] == adj_pending(g, all@, done.view(), y),
            queued.wf(),
            queued.view().len() == n,
            queued.set_count() == queue@.len(),
            head <= queue@.len(),
            queue@.no_duplicates(),
            lim.len() == queue@.len(),
            forall|y: usize| y < n ==> (#[trigger] queued.view()[y as int] <==> queue@.contains(y)),
            forall|y: usize| y < n && #[trigger] queued.view()[y as int] ==> indeg@[y as int] == 0,
            forall|y: usize| y < n ==> (#[trigger] done.view()[y as int] <==> queue@.take(head as int).contains(y)),
            forall|q: int| 0 <= q < queue@.len() ==> all@.contains(#[trigger] queue@[q]),
            forall|q: int| 0 <= q < queue@.len() ==> #[trigger] preds_within(g, all@, queue@, q, lim[q]),
            forall|q: int| 0 <= q < queue@.len() ==> #[trigger] lim[q] <= q,
            forall|q: int| head <= q < queue@.len() ==> #[trigger] lim[q] <= head,
            forall|k: int| 0 <= k < all@.len() && #[trigger] indeg@[all@[k] as int] == 0 ==> queued.view()[all@[k] as int],
            concat_levels(lists_of(levels@)) == queue@.take(head as int),
            forall|l: int| 0 <= l < levels@.len() ==> (#[trigger] levels@[l])@.len() > 0,
            forall|l: int, i: int|
                0 <= l < levels@.len() && 0 <= i < levels@[l]@.len() ==> #[trigger] lim[level_start(lists_of(levels@), l) + i]
                    <= level_start(lists_of(levels@), l),
        decreases n - head,
    {
        let round_end = queue.len();
        let ghost round_start = head as int;
        let ghost lim_start = lim;
        let ghost wit_start = wit;
        let mut level: Vec<usize> = Vec::new();
        while head < round_end
            invariant
                g == lists_of(adj@),
                is_adjacency(g, n as int),
                is_closed_set(g, n as int, all@),
                indeg@.len() == n,
                done.wf(),
                done.view().len() == n,
                forall|y: usize| y < n ==> #[trigger] indeg@[y as int] == adj_pending(g, all@, done.view(), y),
                queued.wf(),
                queued.view().len() == n,
                queued.set_count() == queue@.len(),
                0 <= round_start <= head <= round_end <= queue@.len(),
                queue@.no_duplicates(),
                lim.len() == queue@.len(),
                forall|y: usize| y < n ==> (#[trigger] queued.view()[y as int] <==> queue@.contains(y)),
                forall|y: usize| y < n && #[trigger] queued.view()[y as int] ==> indeg@[y as int] == 0,
                forall|y: usize| y < n ==> (#[trigger] done.view()[y as int] <==> queue@.take(head as int).contains(y)),
                forall|q: int| 0 <= q < queue@.len() ==> all@.contains(#[trigger] queue@[q]),
                forall|q: int| 0 <= q < queue@.len() ==> #[trigger] preds_within(g, all@, queue@, q, lim[q]),
                forall|q: int| 0 <= q < queue@.len() ==> #[trigger] lim[q] <= q,
                forall|q: int| round_start <= q < round_end ==> #[trigger] lim[q] <= round_start,
                forall|q: int| round_end <= q < queue@.len() ==> #[trigger] lim[q] <= head,
                forall|k: int| 0 <= k < all@.len() && #[trigger] indeg@[all@[k] as int] == 0 ==> queued.view()[all@[k] as int],
                level@ == queue@.subrange(round_start, head as int),
                concat_levels(lists_of(levels@)) == queue@.take(round_start),
                lim.len() >= lim_start.len(),
                forall|q: int| 0 <= q < lim_start.len() ==> #[trigger] lim[q] == lim_start[q],
                wit.len() == queue@.len(),
                wit_start.len() == round_end,
                wit.len() >= wit_start.len(),
                forall|q: int| 0 <= q < wit_start.len() ==> #[trigger] wit[q] == wit_start[q],
                forall|q: int| 0 <= q < wit.len() && #[trigger] wit[q] >= 0 ==> wit[q] < q && g[queue@[wit[q]] as int].contains(queue@[q]),
                forall|q: int| round_end <= q < wit.len() ==> round_start <= #[trigger] wit[q] < head,
                round_start == 0 ==> forall|q: int| 0 <= q < wit_start.len() ==> #[trigger] wit_start[q] == -1,
                round_start > 0 ==> 0 <= prev_start < round_start && forall|q: int| round_start <= q < wit_start.len() ==> prev_start <= #[trigger] wit_start[q] < round_start,
                (round_start == 0) == (levels@.len() == 0),
                levels@.len() > 0 ==> levels@.last()@ == queue@.subrange(prev_start, round_start),
                levels_tight(g, lists_of(levels@)),
            decreases round_end - head,
        {
            let x = queue[head];
            let ghost q0 = queue@;
            let ghost h0 = head as int;
            proof {
                assert(all@.contains(q0[h0]));
                let w = choose|w: int| 0 <= w < all@.len() && all@[w] == x;
                assert(x < n);
                assert(!q0.take(h0).contains(x)) by {
                    if q0.take(h0).contains(x) {
                        let p = choose|p: int| 0 <= p < h0 && q0.take(h0)[p] == x;
                        assert(q0[p] == x && q0[h0] == x);
                    }
                }
                assert forall|y: usize| y < n implies adj_pending(g, all@, done.view(), y) == adj_pending(
                    g,
                    all@,
                    done.view().update(x as int, true),
                    y,
                ) + count_in(g[x as int], y) by {
                    lemma_adj_pending_done(g, all@, done.view(), x, y);
                }
            }
            let ghost old_level = level@;
            done.set(x);
            head = head + 1;
            level.push(x);
            proof {
                assert(queue@.take(head as int) =~= q0.take(h0).push(x));
                assert(level@ == old_level.push(x));
                lemma_subrange_extend(q0, round_start, h0);
                assert(level@ =~= queue@.subrange(round_start, head as int));
                assert forall|y: usize| y < n implies (#[trigger] done.view()[y as int] <==> queue@.take(head as int).contains(y)) by {
                    if y == x {
                        assert(queue@.take(head as int)[h0] == x);
                    } else if queue@.take(head as int).contains(y) {
                        let w = choose|w: int| 0 <= w < head && queue@.take(head as int)[w] == y;
                        assert(q0.take(h0)[w] == y);
                    } else if q0.take(h0).contains(y) {
                        let w = choose|w: int| 0 <= w < h0 && q0.take(h0)[w] == y;
                        assert(queue@.take(head as int)[w] == y);
                    }
                }
            }
            let succ = &adj[x];
            assert(succ@ == g[x as int]);
            let mut j: usize = 0;
            while j < succ.len()
                invariant
                    g == lists_of(adj@),
                    is_adjacency(g, n as int),
                    is_closed_set(g, n as int, all@),
                    all@.contains(x),
                    x < n,
                    succ@ == g[x as int],
                    j <= succ@.len(),
                    indeg@.len() == n,
                    done.wf(),
                    done.view().len() == n,
                    done.view()[x as int],
                    forall|y: usize|
                        y < n ==> #[trigger] indeg@[y as int] + count_in(succ@.take(j as int), y) == adj_pending(
                            g,
                            all@,
                            done.view(),
                            y,
                        ) + count_in(succ@, y),
                    queued.wf(),
                    queued.view().len() == n,
                    queued.set_count() == queue@.len(),
                    0 <= round_start < head <= round_end <= queue@.len(),
                    queue@.no_duplicates(),
                    lim.len() == queue@.len(),
                    forall|y: usize| y < n ==> (#[trigger] queued.view()[y as int] <==> queue@.contains(y)),
                    forall|y: usize| y < n && #[trigger] queued.view()[y as int] ==> indeg@[y as int] == 0,
                    forall|y: usize| y < n ==> (#[trigger] done.view()[y as int] <==> queue@.take(head as int).contains(y)),
                    forall|q: int| 0 <= q < queue@.len() ==> all@.contains(#[trigger] queue@[q]),
                    forall|q: int| 0 <= q < queue@.len() ==> #[trigger] preds_within(g, all@, queue@, q, lim[q]),
                    forall|q: int| 0 <= q < queue@.len() ==> #[trigger] lim[q] <= q,
                    forall|q: int| round_start <= q < round_end ==> #[trigger] lim[q] <= round_start,
                    forall|q: int| round_end <= q < queue@.len() ==> #[trigger] lim[q] <= head,
                    forall|k: int|
                        0 <= k < all@.len() && #[trigger] indeg@[all@[k] as int] == 0 ==> queued.view()[all@[k] as int]
                            || (exists|jj: int| j <= jj < succ@.len() && succ@[jj] == all@[k]),
                    level@ == queue@.subrange(round_start, head as int),
                    concat_levels(lists_of(levels@)) == queue@.take(round_start),
                    lim.len() >= lim_start.len(),
                    forall|q: int| 0 <= q < lim_start.len() ==> #[trigger] lim[q] == lim_start[q],
                    queue@[head - 1] == x,
                    levels@.len() > 0 ==> 0 <= prev_start <= round_start && levels@.last()@ == queue@.subrange(prev_start, round_start),
                    wit.len() == queue@.len(),
                    wit_start.len() == round_end,
                    wit.len() >= wit_start.len(),
                    forall|q: int| 0 <= q < wit_start.len() ==> #[trigger] wit[q] == wit_start[q],
                    forall|q: int| 0 <= q < wit.len() && #[trigger] wit[q] >= 0 ==> wit[q] < q && g[queue@[wit[q]] as int].contains(queue@[q]),
                    forall|q: int| round_end <= q < wit.len() ==> round_start <= #[trigger] wit[q] < head,
                decreases succ@.len() - j,
            {
                let y = succ[j];
                proof {
                    assert(y < n);
                    lemma_count_take(succ@, j as int, y);
                    lemma_count_take_le(succ@, j + 1, y);
                    assert forall|z: usize| z < n && z != y implies count_in(succ@.take(j + 1), z) == count_in(succ@.take(j as int), z) by {
                        lemma_count_take(succ@, j as int, z);
                    }
                }
                let d = indeg[y];
                indeg.set(y, d - 1);
                if d - 1 == 0 {
                    let ghost before = queue@;
                    let ghost lim0 = lim;
                    proof {
                        assert(!queued.view()[y as int]);
                        assert(adj_pending(g, all@, done.view(), y) == 0) by {
                            lemma_count_distinct(succ@, y);
                            assert(succ@.contains(y)) by {
                                assert(succ@[j as int] == y);
                            }
                        }
                        lemma_adj_pending_witness(g, all@, done.view(), y);
                    }
                    queued.set(y);
                    queue.push(y);
                    proof {
                        lim = lim.push(head as int);
                        let wit0 = wit;
                        wit = wit.push(head - 1);
                        if levels@.len() > 0 {
                            lemma_push_keeps(before, y, prev_start, round_start);
                        }
                        assert(succ@[j as int] == y);
                        assert forall|q: int| 0 <= q < wit.len() && #[trigger] wit[q] >= 0 implies wit[q] < q && g[queue@[wit[q]] as int].contains(queue@[q]) by {
                            if q < wit0.len() {
                                assert(wit[q] == wit0[q]);
                                assert(queue@[q] == before[q]);
                                assert(queue@[wit[q]] == before[wit[q]]);
                            } else {
                                assert(queue@[q] == y);
                                assert(queue@[head - 1] == before[head - 1]);
                            }
                        }
                        let qn = before.len() as int;
                        assert forall|q: int| 0 <= q < qn implies #[trigger] lim[q] == lim0[q] by {}
                        assert(queue@ == before.push(y));
                        lemma_push_keeps(before, y, round_start, head as int);
                        assert forall|q: int| 0 <= q < queue@.len() implies #[trigger] preds_within(g, all@, queue@, q, lim[q]) by {
                            if q < qn {
                                assert(preds_within(g, all@, before, q, lim0[q]));
                                assert forall|k: int| 0 <= k < all@.len() && #[trigger] g[all@[k] as int].contains(queue@[q])
                                    implies exists|p: int| 0 <= p < lim[q] && queue@[p] == all@[k] by {
                                    assert(queue@[q] == before[q]);
                                    let p = choose|p: int| 0 <= p < lim0[q] && before[p] == all@[k];
                                    assert(queue@[p] == all@[k]);
                                }
                            } else {
                                assert forall|k: int| 0 <= k < all@.len() && #[trigger] g[all@[k] as int].contains(queue@[q])
                                    implies exists|p: int| 0 <= p < lim[q] && queue@[p] == all@[k] by {
                                    assert(queue@[q] == y);
                                    assert(all@[k] < n);
                                    assert(done.view()[all@[k] as int]);
                                    assert(before.take(head as int).contains(all@[k]));
                                    let p = choose|p: int| 0 <= p < head && before.take(head as int)[p] == all@[k];
                                    assert(before[p] == all@[k]);
                                    assert(queue@[p] == all@[k]);
                                }
                            }
                        }
                        assert forall|z: usize| z < n implies (#[trigger] queued.view()[z as int] <==> queue@.contains(z)) by {
                            if z == y {
                                assert(queue@[qn] == y);
                            } else if queue@.contains(z) {
                                let w = choose|w: int| 0 <= w < queue@.len() && queue@[w] == z;
                                assert(before[w] == z);
                            } else if before.contains(z) {
                                let w = choose|w: int| 0 <= w < before.len() && before[w] == z;
                                assert(queue@[w] == z);
                            }
                        }
                        assert forall|z: usize| z < n implies (#[trigger] done.view()[z as int] <==> queue@.take(head as int).contains(z)) by {
                            assert(queue@.take(head as int) =~= before.take(head as int));
                        }
                        assert forall|q: int| 0 <= q < queue@.len() implies all@.contains(#[trigger] queue@[q]) by {
                            if q < qn {
                                assert(queue@[q] == before[q]);
                            } else {
                                let k = choose|k: int| 0 <= k < all@.len() && all@[k] == x;
                                assert(g[all@[k] as int][j as int] == y);
                                assert(all@.contains(g[all@[k] as int][j as int]));
                            }
                        }
                    }
                }
                proof {
                    assert forall|k: int|
                        0 <= k < all@.len() && #[trigger] indeg@[all@[k] as int] == 0 implies queued.view()[all@[k] as int]
                            || (exists|jj: int| j + 1 <= jj < succ@.len() && succ@[jj] == all@[k]) by {
                        if all@[k] != y {
                        }
                    }
                }
                j = j + 1;
            }
            proof {
                assert(succ@.take(succ@.len() as int) =~= succ@);
            }
        }
        proof {
            queued.lemma_bounded();
            assert(round_start < round_end);
        }
        let ghost old_levels = lists_of(levels@);
        levels.push(level);
        proof {
            let nl = lists_of(levels@);
            assert(nl =~= old_levels.push(queue@.subrange(round_start, round_end as int)));
            lemma_concat_push(old_levels, queue@.subrange(round_start, round_end as int));
            assert(queue@.take(round_end as int) =~= queue@.take(round_start) + queue@.subrange(round_start, round_end as int));
            assert forall|l: int| 0 <= l < old_levels.len() implies level_start(nl, l) == level_start(old_levels, l) by {
                assert(nl.take(l) =~= old_levels.take(l));
            }
            assert(nl.take(old_levels.len() as int) =~= old_levels);
            assert forall|l: int, i: int|
                0 <= l < levels@.len() && 0 <= i < levels@[l]@.len() implies #[trigger] lim[level_start(lists_of(levels@), l) + i]
                    <= level_start(lists_of(levels@), l) by {
                if l < old_levels.len() {
                    assert(levels@[l]@ == old_levels[l]);
                    let q = level_start(old_levels, l) + i;
                    lemma_concat_prefix(old_levels, l);
                    lemma_concat_prefix(old_levels, l + 1);
                    assert(q < round_start);
                    assert(lim[q] == lim_start[q]);
                } else {
                    assert(level_start(nl, l) == round_start);
                    assert(levels@[l]@ == queue@.subrange(round_start, round_end as int));
                    assert(round_start + i < round_end);
                    assert(lim[round_start + i] <= round_start);
                }
            }
            assert forall|l: int| 0 <= l < levels@.len() implies (#[trigger] levels@[l])@.len() > 0 by {
                if l < old_levels.len() {
                    assert(levels@[l]@ == old_levels[l]);
                }
            }
            assert forall|l: int, i: int|
                #![trigger nl[l][i]]
                0 < l < nl.len() && 0 <= i < nl[l].len() implies led_from(g, nl[l - 1], nl[l][i]) by {
                if l < old_levels.len() {
                    assert(nl[l] == old_levels[l]);
                    assert(nl[l - 1] == old_levels[l - 1]);
                    assert(old_levels[l][i] == nl[l][i]);
                } else {
                    let q = round_start + i;
                    assert(nl[l] == queue@.subrange(round_start, round_end as int));
                    assert(nl[l][i] == queue@[q]);
                    assert(round_start > 0);
                    assert(wit[q] == wit_start[q]);
                    assert(prev_start <= wit[q] < round_start);
                    assert(nl[l - 1] == old_levels.last());
                    assert(old_levels.last() == queue@.subrange(prev_start, round_start));
                    let jj = wit[q] - prev_start;
                    assert(nl[l - 1][jj] == queue@[wit[q]]);
                    assert(g[nl[l - 1][jj] as int].contains(nl[l][i]));
                }
            }
            assert(levels_tight(g, nl));
            prev_start = round_start;
        }
    }
    proof {
        let order = concat_levels(lists_of(levels@));
        assert(queue@.take(head as int) =~= queue@);
        assert(order == queue@);
        assert forall|l: int, i: int|
            0 <= l < levels@.len() && 0 <= i < lists_of(levels@)[l].len() implies #[trigger] preds_within(
            g,
            all@,
            order,
            level_start(lists_of(levels@), l) + i,
            level_start(lists_of(levels@), l),
        ) by {
            let q = level_start(lists_of(levels@), l) + i;
            lemma_concat_prefix(lists_of(levels@), l);
            lemma_concat_prefix(lists_of(levels@), l + 1);
            assert(levels@[l]@ == lists_of(levels@)[l]);
            assert(q < order.len());
            assert(preds_within(g, all@, queue@, q, lim[q]));
            assert forall|k: int| 0 <= k < all@.len() && #[trigger] g[all@[k] as int].contains(order[q])
                implies exists|p: int| 0 <= p < level_start(lists_of(levels@), l) && order[p] == all@[k] by {
                let p = choose|p: int| 0 <= p < lim[q] && queue@[p] == all@[k];
            }
        }
        assert forall|l: int| 0 <= l < lists_of(levels@).len() implies (#[trigger] lists_of(levels@)[l]).len() > 0 by {
            assert(levels@[l]@.len() > 0);
        }
        // covering all members exactly when there is no cycle
        if covers(all@, order) {
            assert forall|q: int| 0 <= q < order.len() implies #[trigger] preds_within(g, all@, order, q, q) by {
                assert(preds_within(g, all@, queue@, q, lim[q]));
                assert forall|k: int| 0 <= k < all@.len() && #[trigger] g[all@[k] as int].contains(order[q])
                    implies exists|p: int| 0 <= p < q && order[p] == all@[k] by {
                    let p = choose|p: int| 0 <= p < lim[q] && queue@[p] == all@[k];
                }
            }
            lemma_ranked_no_cycle(g, all@, order);
        } else {
            let y0 = choose|v: usize| all@.contains(v) && !order.contains(v);
            assert(y0 < n) by {
                let w = choose|w: int| 0 <= w < all@.len() && all@[w] == y0;
            }
            assert forall|y: usize| all@.contains(y) && !done.view()[y as int] implies exists|i: int|
                0 <= i < all@.len() && !done.view()[all@[i] as int] && (#[trigger] g[all@[i] as int]).contains(y) by {
                let w = choose|w: int| 0 <= w < all@.len() && all@[w] == y;
                assert(y < n);
                assert(!queued.view()[y as int]);
                assert(indeg@[all@[w] as int] != 0);
                lemma_adj_pending_witness(g, all@, done.view(), y);
            }
            assert(!done.view()[y0 as int]);
            lemma_stuck_has_cycle(g, all@, done.view(), y0, n as int);
        }
    }
    levels
}

} // verus!
