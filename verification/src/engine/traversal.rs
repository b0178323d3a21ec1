//! Orders in which a graph's nodes are visited, starting from `__start__`.
//!
//! Successors are taken by name: an edge leads to the node that its
//! target's id finds.
use vstd::prelude::*;
use crate::error::LangGraphError;
use crate::graph::{CompiledGraph, StateGraph, EdgeType, start_name, end_name, start_str, end_str, strings_view};
use crate::graph::digraph::{has_cycle, is_walk, outgoing};
use crate::engine::levels::{is_cycle, has_member_cycle, lemma_stuck_has_cycle};
use crate::engine::executor::ExecutionError;
use crate::engine::marks::Marks;
use crate::state::StateData;

verus! {

/// Graph traversal strategy.
#[derive(Debug, Clone, Copy, PartialEq, Eq, Structural)]
pub enum TraversalStrategy {
    /// Breadth-first traversal
    BreadthFirst,
    /// Depth-first traversal
    DepthFirst,
    /// Topological order (for DAGs)
    Topological,
    /// Priority-based traversal
    Priority,
}

/// Graph traverser for executing nodes in order.
pub struct GraphTraverser {
    /// The order it produces.
    pub strategy: TraversalStrategy,
}

/// Whether `y` is a successor of one of the first `upto` nodes of `order`.
pub open spec fn follows_some(g: StateGraph, order: Seq<usize>, y: usize, upto: int) -> bool {
    exists|m: int| 0 <= m < upto && #[trigger] g.succ_idx(order[m]).contains(y)
}

/// Whether `order` is a visiting order from `s`: it starts at `s`, holds no
/// node twice, holds only nodes that their names find, and each later node
/// is a successor of an earlier one.
pub open spec fn is_visit_order(g: StateGraph, s: usize, order: Seq<usize>) -> bool {
    &&& order.len() > 0
    &&& order[0] == s
    &&& order.no_duplicates()
    &&& forall|k: int| 0 <= k < order.len() ==> (#[trigger] order[k]) < g.node_seq().len()
    &&& forall|k: int| 0 <= k < order.len() ==> g.canon(#[trigger] order[k]) == order[k]
    &&& forall|k: int| 0 < k < order.len() ==> follows_some(g, order, #[trigger] order[k], k)
}

/// Whether every successor of a node of `order` is in `order`.
pub open spec fn is_closed(g: StateGraph, order: Seq<usize>) -> bool {
    forall|k: int, j: int|
        0 <= k < order.len() && 0 <= j < g.succ_idx(order[k]).len() ==> order.contains(
            #[trigger] g.succ_idx(order[k])[j],
        )
}

/// The ids of the nodes of `order`.
pub open spec fn order_names(g: StateGraph, order: Seq<usize>) -> Seq<Seq<char>> {
    Seq::new(order.len(), |k: int| g.node_seq()[order[k] as int].id@)
}

/// The ids of a sequence of node indices, as strings.
pub fn names_of(g: &StateGraph, order: &Vec<usize>) -> (r: Vec<String>)
    requires
        g.wf(),
        forall|k: int| 0 <= k < order@.len() ==> (#[trigger] order@[k]) < g.node_seq().len(),
    ensures
        strings_view(r@) == order_names(*g, order@),
{
    let mut r: Vec<String> = Vec::new();
    let mut k: usize = 0;
    while k < order.len()
        invariant
            g.wf(),
            k <= order@.len(),
            forall|j: int| 0 <= j < order@.len() ==> (#[trigger] order@[j]) < g.node_seq().len(),
            strings_view(r@) == order_names(*g, order@).take(k as int),
        decreases order@.len() - k,
    {
        let node = g.node_at(order[k]);
        let id = crate::json::copy_string(&node.id);
        let ghost before = r@;
        r.push(id);
        assert(strings_view(r@).drop_last() =~= strings_view(before));
        assert(strings_view(r@).last() == order_names(*g, order@)[k as int]);
        assert(strings_view(r@) =~= order_names(*g, order@).take(k + 1));
        k = k + 1;
    }
    assert(order_names(*g, order@).take(order@.len() as int) =~= order_names(*g, order@));
    r
}

/// Breadth-first visit from node `s`.
pub fn bfs_indices(g: &StateGraph, s: usize) -> (order: Vec<usize>)
    requires
        g.wf(),
        s < g.node_seq().len(),
        g.canon(s) == s,
    ensures
        is_visit_order(*g, s, order@),
        is_closed(*g, order@),
        order@.len() <= g.node_seq().len(),
{
    let n = g.node_count();
    let mut visited = Marks::new(n);
    let mut queue: Vec<usize> = Vec::new();
    queue.push(s);
    let mut head: usize = 0;
    let mut order: Vec<usize> = Vec::new();
    while head < queue.len()
        invariant
            g.wf(),
            n == g.node_seq().len(),
            visited.wf(),
            visited.view().len() == n,
            visited.set_count() == order@.len(),
            head <= queue@.len(),
            queue@.len() > 0,
            queue@[0] == s,
            order@.len() == 0 ==> head == 0,
            order@.len() > 0 ==> order@[0] == s,
            order@.no_duplicates(),
            forall|i: int| 0 <= i < n ==> (#[trigger] visited.view()[i] <==> order@.contains(i as usize)),
            forall|k: int| 0 <= k < order@.len() ==> (#[trigger] order@[k]) < n,
            forall|k: int| 0 <= k < order@.len() ==> g.canon(#[trigger] order@[k]) == order@[k],
            forall|k: int| 0 <= k < queue@.len() ==> (#[trigger] queue@[k]) < n,
            forall|k: int| 0 <= k < queue@.len() ==> g.canon(#[trigger] queue@[k]) == queue@[k],
            forall|k: int| 0 < k < order@.len() ==> follows_some(*g, order@, #[trigger] order@[k], k),
            forall|q: int|
                head <= q < queue@.len() && (q > 0 || order@.len() > 0) ==> follows_some(
                    *g,
                    order@,
                    #[trigger] queue@[q],
                    order@.len() as int,
                ),
            forall|k: int, j: int|
                0 <= k < order@.len() && 0 <= j < g.succ_idx(order@[k]).len() ==> order@.contains(
                    #[trigger] g.succ_idx(order@[k])[j],
                ) || exists|q: int| head <= q < queue@.len() && queue@[q] == g.succ_idx(order@[k])[j],
        decreases n - visited.set_count(), queue@.len() - head,
    {
        let x = queue[head];
        let ghost old_head = head as int;
        let ghost old_queue = queue@;
        let ghost old_order = order@;
        head = head + 1;
        if !visited.get(x) {
            assert(!old_order.contains(x));
            visited.set(x);
            order.push(x);
            let succ = g.succ_indices(x);
            let qlen = queue.len();
            let mut j: usize = 0;
            while j < succ.len()
                invariant
                    g.wf(),
                    j <= succ@.len(),
                    succ@ == g.succ_idx(x),
                    forall|k: int| 0 <= k < succ@.len() ==> (#[trigger] succ@[k]) < n,
                    forall|k: int| 0 <= k < succ@.len() ==> g.canon(#[trigger] succ@[k]) == succ@[k],
                    queue@.len() == qlen + j,
                    qlen == old_queue.len(),
                    forall|k: int| 0 <= k < qlen ==> #[trigger] queue@[k] == old_queue[k],
                    forall|k: int| qlen <= k < queue@.len() ==> #[trigger] queue@[k] == succ@[k - qlen],
                    forall|k: int| 0 <= k < queue@.len() ==> (#[trigger] queue@[k]) < n,
                    forall|k: int| 0 <= k < queue@.len() ==> g.canon(#[trigger] queue@[k]) == queue@[k],
                decreases succ@.len() - j,
            {
                queue.push(succ[j]);
                j = j + 1;
            }
            proof {
                let len = old_order.len() as int;
                assert(order@ == old_order.push(x));
                assert forall|k: int| 0 <= k < len implies #[trigger] order@[k] == old_order[k] by {}
                assert(order@[len] == x);
                // every old follower stays a follower
                assert forall|y: usize, upto: int|
                    0 <= upto <= len && follows_some(*g, old_order, y, upto) implies follows_some(
                    *g,
                    order@,
                    y,
                    upto,
                ) by {
                    let m = choose|m: int| 0 <= m < upto && #[trigger] g.succ_idx(old_order[m]).contains(y);
                    assert(order@[m] == old_order[m]);
                }
                if len > 0 {
                    assert(follows_some(*g, old_order, x, len));
                    assert(follows_some(*g, order@, x, len));
                }
                assert forall|k: int| 0 < k < order@.len() implies follows_some(
                    *g,
                    order@,
                    #[trigger] order@[k],
                    k,
                ) by {
                    if k < len {
                        assert(follows_some(*g, old_order, old_order[k], k));
                    }
                }
                assert forall|q: int|
                    head <= q < queue@.len() && (q > 0 || order@.len() > 0) implies follows_some(
                    *g,
                    order@,
                    #[trigger] queue@[q],
                    order@.len() as int,
                ) by {
                    if q < qlen {
                        assert(queue@[q] == old_queue[q]);
                        assert(follows_some(*g, old_order, old_queue[q], len));
                        assert(follows_some(*g, order@, old_queue[q], len));
                        let m = choose|m: int| 0 <= m < len && #[trigger] g.succ_idx(order@[m]).contains(old_queue[q]);
                        assert(0 <= m < order@.len());
                    } else {
                        let y = succ@[q - qlen];
                        assert(g.succ_idx(order@[len]).contains(y)) by {
                            assert(g.succ_idx(order@[len])[q - qlen] == y);
                        }
                    }
                }
                assert forall|k: int, jj: int|
                    0 <= k < order@.len() && 0 <= jj < g.succ_idx(order@[k]).len() implies order@.contains(
                    #[trigger] g.succ_idx(order@[k])[jj],
                ) || exists|q: int| head <= q < queue@.len() && queue@[q] == g.succ_idx(order@[k])[jj] by {
                    let y = g.succ_idx(order@[k])[jj];
                    if k < len {
                        assert(order@[k] == old_order[k]);
                        if old_order.contains(y) {
                            let i = choose|i: int| 0 <= i < old_order.len() && old_order[i] == y;
                            assert(order@[i] == y);
                        } else {
                            let q = choose|q: int| old_head <= q < old_queue.len() && old_queue[q] == y;
                            if q == old_head {
                                assert(order@[len] == y);
                            } else {
                                assert(queue@[q] == y);
                            }
                        }
                    } else {
                        assert(queue@[qlen + jj] == y);
                    }
                }
                assert forall|i: int| 0 <= i < n implies (#[trigger] visited.view()[i] <==> order@.contains(i as usize)) by {
                    if i == x {
                        assert(order@[len] == x);
                    } else if order@.contains(i as usize) {
                        let w = choose|w: int| 0 <= w < order@.len() && order@[w] == i as usize;
                        assert(w != len);
                        assert(old_order[w] == i as usize);
                    } else {
                        if old_order.contains(i as usize) {
                            let w = choose|w: int| 0 <= w < old_order.len() && old_order[w] == i as usize;
                            assert(order@[w] == i as usize);
                        }
                    }
                }
            }
        } else {
            proof {
                assert forall|k: int, jj: int|
                    0 <= k < order@.len() && 0 <= jj < g.succ_idx(order@[k]).len() implies order@.contains(
                    #[trigger] g.succ_idx(order@[k])[jj],
                ) || exists|q: int| head <= q < queue@.len() && queue@[q] == g.succ_idx(order@[k])[jj] by {
                    let y = g.succ_idx(order@[k])[jj];
                    if !order@.contains(y) {
                        let q = choose|q: int| old_head <= q < old_queue.len() && old_queue[q] == y;
                        if q == old_head {
                            assert(visited.view()[x as int]);
                        }
                    }
                }
            }
        }
    }
    proof {
        if order@.len() == 0 {
            assert(false);
        }
        visited.lemma_bounded();
    }
    order
}

/// The flags, count and order of a depth-first visit agree.
pub open spec fn dfs_inv(g: StateGraph, visited: Marks, order: Seq<usize>) -> bool {
    &&& visited.wf()
    &&& visited.view().len() == g.node_seq().len()
    &&& visited.set_count() == order.len()
    &&& visited.set_count() <= g.node_seq().len()
    &&& order.no_duplicates()
    &&& forall|i: usize|
        i < g.node_seq().len() ==> (#[trigger] visited.view()[i as int] <==> order.contains(i))
    &&& forall|k: int| 0 <= k < order.len() ==> (#[trigger] order[k]) < g.node_seq().len()
    &&& forall|k: int| 0 <= k < order.len() ==> g.canon(#[trigger] order[k]) == order[k]
}

/// Whether every successor of `u` is flagged.
pub open spec fn finished(g: StateGraph, flags: Seq<bool>, u: usize) -> bool {
    forall|j: int| 0 <= j < g.succ_idx(u).len() ==> #[trigger] flags[g.succ_idx(u)[j] as int]
}

/// Depth-first visit of `x` and what it reaches that is not yet visited.
fn dfs_visit(g: &StateGraph, x: usize, visited: &mut Marks, order: &mut Vec<usize>)
    requires
        g.wf(),
        x < g.node_seq().len(),
        g.canon(x) == x,
        dfs_inv(*g, *old(visited), old(order)@),
    ensures
        dfs_inv(*g, *final(visited), final(order)@),
        final(order)@.len() >= old(order)@.len(),
        final(order)@.take(old(order)@.len() as int) == old(order)@,
        final(visited).view()[x as int],
        final(order)@.len() > old(order)@.len() ==> final(order)@[old(order)@.len() as int] == x,
        forall|k: int|
            old(order)@.len() <= k < final(order)@.len() ==> finished(
                *g,
                final(visited).view(),
                #[trigger] final(order)@[k],
            ),
        forall|k: int|
            old(order)@.len() < k < final(order)@.len() ==> follows_some(
                *g,
                final(order)@,
                #[trigger] final(order)@[k],
                k,
            ),
    decreases g.node_seq().len() - old(visited).set_count(),
{
    if visited.get(x) {
        assert(order@.take(order@.len() as int) =~= order@);
        return;
    }
    proof {
        visited.lemma_bounded();
    }
    let ghost start_len = order@.len();
    let ghost start_order = order@;
    assert(!order@.contains(x));
    visited.set(x);
    order.push(x);
    proof {
        g.lemma_succ_bounds(x);
        let len = start_len as int;
        assert(order@ == start_order.push(x));
        assert forall|i: usize| i < g.node_seq().len() implies (#[trigger] visited.view()[i as int]
            <==> order@.contains(i)) by {
            if i == x {
                assert(order@[len] == x);
            } else if order@.contains(i) {
                let w = choose|w: int| 0 <= w < order@.len() && order@[w] == i;
                assert(w != len);
                assert(start_order[w] == i);
            } else {
                if start_order.contains(i) {
                    let w = choose|w: int| 0 <= w < start_order.len() && start_order[w] == i;
                    assert(order@[w] == i);
                }
            }
        }
    }
    let succ = g.succ_indices(x);
    let mut j: usize = 0;
    while j < succ.len()
        invariant
            g.wf(),
            x < g.node_seq().len(),
            j <= succ@.len(),
            succ@ == g.succ_idx(x),
            forall|k: int| 0 <= k < succ@.len() ==> (#[trigger] succ@[k]) < g.node_seq().len(),
            forall|k: int| 0 <= k < succ@.len() ==> g.canon(#[trigger] succ@[k]) == succ@[k],
            dfs_inv(*g, *visited, order@),
            visited.set_count() > old(visited).set_count(),
            order@.len() > start_len,
            start_len == old(order)@.len(),
            order@.take(start_len as int) == old(order)@,
            order@[start_len as int] == x,
            visited.view()[x as int],
            forall|k: int| 0 <= k < j ==> #[trigger] visited.view()[succ@[k] as int],
            forall|k: int|
                start_len < k < order@.len() ==> finished(*g, visited.view(), #[trigger] order@[k]),
            forall|k: int|
                start_len < k < order@.len() ==> follows_some(*g, order@, #[trigger] order@[k], k),
        decreases succ@.len() - j,
    {
        let ghost before = order@;
        let ghost vbefore = visited.view();
        dfs_visit(g, succ[j], visited, order);
        proof {
            assert forall|k: int| 0 <= k < before.len() implies #[trigger] order@[k] == before[k] by {
                assert(order@.take(before.len() as int)[k] == before[k]);
            }
            assert(order@.take(start_len as int) =~= old(order)@) by {
                assert forall|k: int| 0 <= k < start_len implies order@.take(start_len as int)[k]
                    == old(order)@[k] by {
                    assert(before.take(start_len as int)[k] == old(order)@[k]);
                }
            }
            // flags only grow
            assert forall|u: usize| u < vbefore.len() && vbefore[u as int] implies #[trigger] visited.view()[u as int] by {
                let w = choose|w: int| 0 <= w < before.len() && before[w] == u;
                assert(order@[w] == u);
            }
            assert forall|k: int|
                start_len < k < order@.len() implies finished(*g, visited.view(), #[trigger] order@[k]) by {
                g.lemma_succ_bounds(order@[k]);
                if k < before.len() {
                    assert(finished(*g, vbefore, before[k]));
                    assert forall|jj: int| 0 <= jj < g.succ_idx(order@[k]).len() implies #[trigger] visited.view()[g.succ_idx(order@[k])[jj] as int] by {
                        assert(vbefore[g.succ_idx(before[k])[jj] as int]);
                    }
                }
            }
            assert forall|k: int|
                start_len < k < order@.len() implies follows_some(*g, order@, #[trigger] order@[k], k) by {
                if k < before.len() {
                    assert(follows_some(*g, before, before[k], k));
                    let m = choose|m: int| 0 <= m < k && #[trigger] g.succ_idx(before[m]).contains(before[k]);
                    assert(order@[m] == before[m]);
                } else if k == before.len() {
                    assert(order@[k] == succ@[j as int]);
                    assert(before[start_len as int] == x);
                    assert(order@[start_len as int] == x);
                    assert(g.succ_idx(order@[start_len as int])[j as int] == succ@[j as int]);
                    assert(g.succ_idx(order@[start_len as int]).contains(order@[k]));
                }
            }
            assert forall|k: int| 0 <= k < j + 1 implies #[trigger] visited.view()[succ@[k] as int] by {
                if k < j {
                    assert(vbefore[succ@[k] as int]);
                }
            }
        }
        j = j + 1;
    }
    proof {
        assert(finished(*g, visited.view(), x));
        assert(order@[start_len as int] == x);
    }
}

/// Depth-first visit from node `s`.
fn dfs_indices(g: &StateGraph, s: usize) -> (order: Vec<usize>)
    requires
        g.wf(),
        s < g.node_seq().len(),
        g.canon(s) == s,
    ensures
        is_visit_order(*g, s, order@),
        is_closed(*g, order@),
{
    let mut visited = Marks::new(g.node_count());
    let mut order: Vec<usize> = Vec::new();
    dfs_visit(g, s, &mut visited, &mut order);
    proof {
        assert(visited.view()[s as int]);
        assert(order@.contains(s));
        assert forall|k: int, j: int|
            0 <= k < order@.len() && 0 <= j < g.succ_idx(order@[k]).len() implies order@.contains(
            #[trigger] g.succ_idx(order@[k])[j],
        ) by {
            g.lemma_succ_bounds(order@[k]);
            assert(finished(*g, visited.view(), order@[k]));
            assert(visited.view()[g.succ_idx(order@[k])[j] as int]);
        }
    }
    order
}

impl GraphTraverser {
    /// A traverser with the given strategy.
    pub fn new(strategy: TraversalStrategy) -> (t: GraphTraverser)
        ensures
            t.strategy == strategy,
    {
        GraphTraverser { strategy }
    }
}

/// What a visiting order of the graph from `__start__` gives by name: the
/// ids of a visiting order that holds every node it reaches, or just
/// `__start__` when no node has that name.
pub open spec fn is_named_visit(g: StateGraph, r: Seq<Seq<char>>) -> bool {
    if g.names().contains_key(start_name()) {
        exists|order: Seq<usize>|
            is_visit_order(g, g.names()[start_name()], order) && is_closed(g, order) && r
                == order_names(g, order)
    } else {
        r == seq![start_name()]
    }
}

impl GraphTraverser {
    /// Breadth-first order from `__start__`.
    pub fn breadth_first_order(&self, graph: &CompiledGraph) -> (r: Result<Vec<String>, LangGraphError>)
        requires
            graph.wf(),
        ensures
            r matches Ok(v) && is_named_visit(graph.inner(), strings_view(v@)),
    {
        let g = graph.graph();
        let start = start_str();
        match g.index_of(start.as_str()) {
            Some(s) => {
                let order = bfs_indices(g, s);
                let r = names_of(g, &order);
                Ok(r)
            },
            None => {
                let mut v: Vec<String> = Vec::new();
                v.push(start);
                assert(strings_view(v@) =~= seq![start_name()]);
                Ok(v)
            },
        }
    }

    /// Depth-first order from `__start__`.
    pub fn depth_first_order(&self, graph: &CompiledGraph) -> (r: Result<Vec<String>, LangGraphError>)
        requires
            graph.wf(),
        ensures
            r matches Ok(v) && is_named_visit(graph.inner(), strings_view(v@)),
    {
        let g = graph.graph();
        let start = start_str();
        match g.index_of(start.as_str()) {
            Some(s) => {
                let order = dfs_indices(g, s);
                let r = names_of(g, &order);
                Ok(r)
            },
            None => {
                let mut v: Vec<String> = Vec::new();
                v.push(start);
                assert(strings_view(v@) =~= seq![start_name()]);
                Ok(v)
            },
        }
    }
}

} // verus!

verus! {

/// How many times `y` occurs in `s`.
pub open spec fn count_in(s: Seq<usize>, y: usize) -> nat
    decreases s.len(),
{
    if s.len() == 0 {
        0
    } else {
        count_in(s.drop_last(), y) + if s.last() == y { 1nat } else { 0nat }
    }
}

/// The edges into `y` from the members of `all` whose flag in `done` is clear.
pub open spec fn pending_in(g: StateGraph, all: Seq<usize>, done: Seq<bool>, y: usize) -> nat
    decreases all.len(),
{
    if all.len() == 0 {
        0
    } else {
        pending_in(g, all.drop_last(), done, y) + if !done[all.last() as int] {
            count_in(g.succ_idx(all.last()), y)
        } else {
            0nat
        }
    }
}

/// Counting over one more element of a prefix.
pub proof fn lemma_count_take(s: Seq<usize>, j: int, y: usize)
    requires
        0 <= j < s.len(),
    ensures
        count_in(s.take(j + 1), y) == count_in(s.take(j), y) + if s[j] == y { 1nat } else { 0nat },
{
    assert(s.take(j + 1).drop_last() =~= s.take(j));
}

/// A prefix holds no more occurrences than the whole.
pub proof fn lemma_count_take_le(s: Seq<usize>, j: int, y: usize)
    requires
        0 <= j <= s.len(),
    ensures
        count_in(s.take(j), y) <= count_in(s, y),
    decreases s.len() - j,
{
    if j < s.len() {
        lemma_count_take(s, j, y);
        lemma_count_take_le(s, j + 1, y);
    } else {
        assert(s.take(j) =~= s);
    }
}

/// An element that occurs is counted.
pub proof fn lemma_count_pos(s: Seq<usize>, k: int)
    requires
        0 <= k < s.len(),
    ensures
        count_in(s, s[k]) > 0,
    decreases s.len(),
{
    if k < s.len() - 1 {
        lemma_count_pos(s.drop_last(), k);
        assert(s.drop_last()[k] == s[k]);
    }
}

/// Changing the flag of a non-member changes no pending count.
pub proof fn lemma_pending_same(g: StateGraph, all: Seq<usize>, done: Seq<bool>, x: usize, v: bool, y: usize)
    requires
        !all.contains(x),
        x < done.len(),
        forall|k: int| 0 <= k < all.len() ==> (#[trigger] all[k]) < done.len(),
    ensures
        pending_in(g, all, done.update(x as int, v), y) == pending_in(g, all, done, y),
    decreases all.len(),
{
    if all.len() > 0 {
        assert(!all.drop_last().contains(x)) by {
            if all.drop_last().contains(x) {
                let w = choose|w: int| 0 <= w < all.drop_last().len() && all.drop_last()[w] == x;
                assert(all[w] == x);
            }
        }
        assert forall|k: int| 0 <= k < all.drop_last().len() implies (#[trigger] all.drop_last()[k]) < done.len() by {
            assert(all.drop_last()[k] == all[k]);
        }
        lemma_pending_same(g, all.drop_last(), done, x, v, y);
        assert(all.last() != x) by {
            assert(all[all.len() - 1] == all.last());
        }
        assert(all[all.len() - 1] < done.len());
    }
}

/// Marking a member done removes its edges from the pending counts.
pub proof fn lemma_pending_done(g: StateGraph, all: Seq<usize>, done: Seq<bool>, x: usize, y: usize)
    requires
        all.no_duplicates(),
        all.contains(x),
        x < done.len(),
        !done[x as int],
        forall|k: int| 0 <= k < all.len() ==> (#[trigger] all[k]) < done.len(),
    ensures
        pending_in(g, all, done, y) == pending_in(g, all, done.update(x as int, true), y) + count_in(
            g.succ_idx(x),
            y,
        ),
    decreases all.len(),
{
    let d = all.drop_last();
    let nd = done.update(x as int, true);
    assert forall|k: int| 0 <= k < d.len() implies (#[trigger] d[k]) < done.len() by {
        assert(d[k] == all[k]);
    }
    assert(all[all.len() - 1] < done.len());
    if all.last() == x {
        assert(!d.contains(x)) by {
            if d.contains(x) {
                let w = choose|w: int| 0 <= w < d.len() && d[w] == x;
                assert(all[w] == x && all[all.len() - 1] == x);
            }
        }
        lemma_pending_same(g, d, done, x, true, y);
    } else {
        assert(d.contains(x)) by {
            let w = choose|w: int| 0 <= w < all.len() && all[w] == x;
            assert(w != all.len() - 1);
            assert(d[w] == x);
        }
        assert(d.no_duplicates()) by {
            assert forall|a: int, b: int| 0 <= a < d.len() && 0 <= b < d.len() && a != b implies d[a] != d[b] by {
                assert(d[a] == all[a] && d[b] == all[b]);
            }
        }
        lemma_pending_done(g, d, done, x, y);
        assert(nd[all.last() as int] == done[all.last() as int]);
    }
}

/// With no pending edge into `y`, no member whose flag is clear leads to `y`.
pub proof fn lemma_pending_zero(g: StateGraph, all: Seq<usize>, done: Seq<bool>, y: usize, k: int)
    requires
        pending_in(g, all, done, y) == 0,
        0 <= k < all.len(),
        !done[all[k] as int],
    ensures
        !g.succ_idx(all[k]).contains(y),
    decreases all.len(),
{
    if k < all.len() - 1 {
        assert(all.drop_last()[k] == all[k]);
        lemma_pending_zero(g, all.drop_last(), done, y, k);
    } else {
        if g.succ_idx(all[k]).contains(y) {
            let w = choose|w: int| 0 <= w < g.succ_idx(all[k]).len() && g.succ_idx(all[k])[w] == y;
            lemma_count_pos(g.succ_idx(all[k]), w);
        }
    }
}

/// Whether `all` is a set of nodes closed under successors, each found by
/// its own name.
pub open spec fn is_member_set(g: StateGraph, all: Seq<usize>) -> bool {
    &&& all.no_duplicates()
    &&& forall|k: int| 0 <= k < all.len() ==> (#[trigger] all[k]) < g.node_seq().len()
    &&& forall|k: int| 0 <= k < all.len() ==> g.canon(#[trigger] all[k]) == all[k]
    &&& is_closed(g, all)
}

/// Whether every member that leads to `order[q]` comes before it in `order`.
pub open spec fn preds_before(g: StateGraph, all: Seq<usize>, order: Seq<usize>, q: int) -> bool {
    forall|k: int|
        0 <= k < all.len() && #[trigger] g.succ_idx(all[k]).contains(order[q]) ==> exists|p: int|
            0 <= p < q && order[p] == all[k]
}

/// Whether `order` lists members of `all` once each, every node after all
/// the members that lead to it.
pub open spec fn is_topo_order(g: StateGraph, all: Seq<usize>, order: Seq<usize>) -> bool {
    &&& order.no_duplicates()
    &&& forall|q: int| 0 <= q < order.len() ==> all.contains(#[trigger] order[q])
    &&& forall|q: int| 0 <= q < order.len() ==> #[trigger] preds_before(g, all, order, q)
}

/// Kahn's algorithm over the members `all`: repeatedly takes a member into
/// which no edge from a member not yet taken leads.  A member left out has
/// an edge into it from another member left out.
#[verifier::rlimit(50)]
fn kahn(g: &StateGraph, all: &Vec<usize>) -> (order: Vec<usize>)
    requires
        g.wf(),
        is_member_set(*g, all@),
        all@.len() <= g.node_seq().len() + 1,
    ensures
        is_topo_order(*g, all@, order@),
        forall|k: int|
            0 <= k < all@.len() && !order@.contains(#[trigger] all@[k]) ==> exists|j: int|
                0 <= j < all@.len() && !order@.contains(all@[j]) && g.succ_idx(all@[j]).contains(all@[k]),
{
    proof {
        g.lemma_counts();
    }
    let n = g.node_count();
    let ghost e_max: int = u32::MAX as int;
    let mut indeg: Vec<u64> = Vec::new();
    let mut i: usize = 0;
    while i < n
        invariant
            i <= n,
            indeg@.len() == i,
            forall|k: int| 0 <= k < i ==> #[trigger] indeg@[k] == 0,
        decreases n - i,
    {
        indeg.push(0);
        i = i + 1;
    }
    let ghost nodone = Seq::new(n as nat, |k: int| false);
    let mut incs: u64 = 0;
    let mut i: usize = 0;
    while i < all.len()
        invariant
            g.wf(),
            n == g.node_seq().len(),
            n <= u32::MAX,
            is_member_set(*g, all@),
            i <= all@.len(),
            all@.len() <= n + 1,
            indeg@.len() == n,
            nodone.len() == n,
            forall|k: int| 0 <= k < n ==> !#[trigger] nodone[k],
            forall|y: usize| y < n ==> #[trigger] indeg@[y as int] == pending_in(*g, all@.take(i as int), nodone, y),
            forall|y: usize| y < n ==> #[trigger] indeg@[y as int] <= incs,
            incs <= i * e_max,
            e_max == u32::MAX,
        decreases all@.len() - i,
    {
        let u = all[i];
        let succ = g.succ_indices(u);
        proof {
            g.lemma_counts();
            g.lemma_succ_bounds(u);
            lemma_outgoing_len(g.links(), u);
        }
        let mut j: usize = 0;
        while j < succ.len()
            invariant
                g.wf(),
                n == g.node_seq().len(),
                j <= succ@.len(),
                succ@ == g.succ_idx(u),
                succ@.len() <= e_max,
                forall|k: int| 0 <= k < succ@.len() ==> (#[trigger] succ@[k]) < n,
                indeg@.len() == n,
                forall|y: usize|
                    y < n ==> #[trigger] indeg@[y as int] == pending_in(*g, all@.take(i as int), nodone, y)
                        + count_in(succ@.take(j as int), y),
                forall|y: usize| y < n ==> #[trigger] indeg@[y as int] <= incs,
                incs <= i * e_max + j,
                i < all@.len(),
                all@.len() <= n + 1,
                n <= u32::MAX,
                e_max == u32::MAX,
            decreases succ@.len() - j,
        {
            let y = succ[j];
            proof {
                assert(i * e_max + j < u64::MAX) by (nonlinear_arith)
                    requires
                        i <= n,
                        n <= u32::MAX,
                        j < e_max,
                        e_max == u32::MAX,
                ;
                lemma_count_take(succ@, j as int, y);
                assert forall|z: usize| z < n && z != y implies count_in(succ@.take(j + 1), z) == count_in(succ@.take(j as int), z) by {
                    lemma_count_take(succ@, j as int, z);
                }
            }
            let d = indeg[y];
            indeg.set(y, d + 1);
            incs = incs + 1;
            j = j + 1;
        }
        proof {
            assert(succ@.take(succ@.len() as int) =~= succ@);
            assert(all@.take(i + 1).drop_last() =~= all@.take(i as int));
            assert(all@.take(i + 1).last() == u);
            assert(incs <= (i + 1) * e_max) by (nonlinear_arith)
                requires
                    incs <= i * e_max + j,
                    j <= e_max,
            ;
        }
        i = i + 1;
    }
    proof {
        assert(all@.take(all@.len() as int) =~= all@);
    }
    let mut queued = Marks::new(n);
    let mut queue: Vec<usize> = Vec::new();
    let mut i: usize = 0;
    while i < all.len()
        invariant
            g.wf(),
            n == g.node_seq().len(),
            is_member_set(*g, all@),
            i <= all@.len(),
            indeg@.len() == n,
            nodone.len() == n,
            forall|k: int| 0 <= k < n ==> !#[trigger] nodone[k],
            forall|y: usize| y < n ==> #[trigger] indeg@[y as int] == pending_in(*g, all@, nodone, y),
            queued.wf(),
            queued.view().len() == n,
            queued.set_count() == queue@.len(),
            queue@.no_duplicates(),
            forall|y: usize| y < n ==> (#[trigger] queued.view()[y as int] <==> queue@.contains(y)),
            forall|y: usize| y < n && #[trigger] queued.view()[y as int] ==> indeg@[y as int] == 0,
            forall|q: int| 0 <= q < queue@.len() ==> all@.contains(#[trigger] queue@[q]),
            forall|q: int| 0 <= q < queue@.len() ==> exists|k: int| 0 <= k < i && all@[k] == #[trigger] queue@[q],
            forall|q: int| 0 <= q < queue@.len() ==> #[trigger] indeg@[queue@[q] as int] == 0,
            forall|k: int| 0 <= k < i && indeg@[(#[trigger] all@[k]) as int] == 0 ==> queued.view()[all@[k] as int],
        decreases all@.len() - i,
    {
        let u = all[i];
        if indeg[u] == 0 {
            proof {
                assert(!queue@.contains(u)) by {
                    if queue@.contains(u) {
                        let q = choose|q: int| 0 <= q < queue@.len() && queue@[q] == u;
                        let k = choose|k: int| 0 <= k < i && all@[k] == queue@[q];
                        assert(all@[k] == all@[i as int]);
                    }
                }
            }
            let ghost before = queue@;
            queued.set(u);
            queue.push(u);
            proof {
                assert forall|y: usize| y < n implies (#[trigger] queued.view()[y as int] <==> queue@.contains(y)) by {
                    if y == u {
                        assert(queue@[before.len() as int] == u);
                    } else if queue@.contains(y) {
                        let w = choose|w: int| 0 <= w < queue@.len() && queue@[w] == y;
                        assert(before[w] == y);
                    } else if before.contains(y) {
                        let w = choose|w: int| 0 <= w < before.len() && before[w] == y;
                        assert(queue@[w] == y);
                    }
                }
                assert forall|q: int| 0 <= q < queue@.len() implies exists|k: int| 0 <= k < i + 1 && all@[k] == #[trigger] queue@[q] by {
                    if q < before.len() {
                        assert(queue@[q] == before[q]);
                    } else {
                        assert(all@[i as int] == queue@[q]);
                    }
                }
                assert forall|q: int| 0 <= q < queue@.len() implies all@.contains(#[trigger] queue@[q]) by {
                    if q < before.len() {
                        assert(queue@[q] == before[q]);
                    } else {
                        assert(all@[i as int] == queue@[q]);
                    }
                }
            }
        }
        i = i + 1;
    }
    // The first members taken have no edge from a member into them.
    proof {
        assert forall|q: int| 0 <= q < queue@.len() implies #[trigger] preds_before(*g, all@, queue@, q) by {
            assert forall|k: int| 0 <= k < all@.len() && #[trigger] g.succ_idx(all@[k]).contains(queue@[q])
                implies exists|p: int| 0 <= p < q && queue@[p] == all@[k] by {
                let y = queue@[q];
                assert(all@.contains(y));
                assert(y < n);
                assert(indeg@[y as int] == 0);
                assert(indeg@[y as int] == pending_in(*g, all@, nodone, y));
                lemma_pending_zero(*g, all@, nodone, y, k);
            }
        }
    }
    let mut done = Marks::new(n);
    assert(done.view() =~= nodone);
    let mut head: usize = 0;
    while head < queue.len()
        invariant
            g.wf(),
            n == g.node_seq().len(),
            is_member_set(*g, all@),
            indeg@.len() == n,
            done.wf(),
            done.view().len() == n,
            forall|y: usize| y < n ==> #[trigger] indeg@[y as int] == pending_in(*g, all@, done.view(), y),
            queued.wf(),
            queued.view().len() == n,
            queued.set_count() == queue@.len(),
            head <= queue@.len(),
            queue@.no_duplicates(),
            forall|y: usize| y < n ==> (#[trigger] queued.view()[y as int] <==> queue@.contains(y)),
            forall|y: usize| y < n && #[trigger] queued.view()[y as int] ==> indeg@[y as int] == 0,
            forall|y: usize| y < n ==> (#[trigger] done.view()[y as int] <==> queue@.take(head as int).contains(y)),
            forall|q: int| 0 <= q < queue@.len() ==> all@.contains(#[trigger] queue@[q]),
            forall|q: int| 0 <= q < queue@.len() ==> #[trigger] preds_before(*g, all@, queue@, q),
            forall|k: int| 0 <= k < all@.len() && indeg@[(#[trigger] all@[k]) as int] == 0 ==> queued.view()[all@[k] as int],
        decreases n - head,
    {
        let x = queue[head];
        let ghost q0 = queue@;
        let ghost h0 = head as int;
        proof {
            assert(all@.contains(q0[h0]));
            let w = choose|w: int| 0 <= w < all@.len() && all@[w] == x;
            assert(x < n);
            assert(!q0.take(h0).contains(x)) by {
                if q0.take(h0).contains(x) {
                    let p = choose|p: int| 0 <= p < h0 && q0.take(h0)[p] == x;
                    assert(q0[p] == x && q0[h0] == x);
                }
            }
            lemma_pending_done(*g, all@, done.view(), x, 0);
            assert forall|y: usize| y < n implies pending_in(*g, all@, done.view(), y) == pending_in(
                *g,
                all@,
                done.view().update(x as int, true),
                y,
            ) + count_in(g.succ_idx(x), y) by {
                lemma_pending_done(*g, all@, done.view(), x, y);
            }
        }
        done.set(x);
        head = head + 1;
        proof {
            assert(queue@.take(head as int) =~= q0.take(h0).push(x));
            assert forall|y: usize| y < n implies (#[trigger] done.view()[y as int] <==> queue@.take(head as int).contains(y)) by {
                if y == x {
                    assert(queue@.take(head as int)[h0] == x);
                } else if queue@.take(head as int).contains(y) {
                    let w = choose|w: int| 0 <= w < head && queue@.take(head as int)[w] == y;
                    assert(q0.take(h0)[w] == y);
                } else if q0.take(h0).contains(y) {
                    let w = choose|w: int| 0 <= w < h0 && q0.take(h0)[w] == y;
                    assert(queue@.take(head as int)[w] == y);
                }
            }
        }
        let succ = g.succ_indices(x);
        proof {
            g.lemma_succ_bounds(x);
        }
        let mut j: usize = 0;
        while j < succ.len()
            invariant
                g.wf(),
                n == g.node_seq().len(),
                is_member_set(*g, all@),
                all@.contains(x),
                j <= succ@.len(),
                succ@ == g.succ_idx(x),
                forall|k: int| 0 <= k < succ@.len() ==> (#[trigger] succ@[k]) < n,
                indeg@.len() == n,
                done.wf(),
                done.view().len() == n,
                done.view()[x as int],
                forall|y: usize|
                    y < n ==> #[trigger] indeg@[y as int] + count_in(succ@.take(j as int), y) == pending_in(
                        *g,
                        all@,
                        done.view(),
                        y,
                    ) + count_in(succ@, y),
                queued.wf(),
                queued.view().len() == n,
                queued.set_count() == queue@.len(),
                1 <= head <= queue@.len(),
                queue@.no_duplicates(),
                forall|y: usize| y < n ==> (#[trigger] queued.view()[y as int] <==> queue@.contains(y)),
                forall|y: usize| y < n && #[trigger] queued.view()[y as int] ==> indeg@[y as int] == 0,
                forall|y: usize| y < n ==> (#[trigger] done.view()[y as int] <==> queue@.take(head as int).contains(y)),
                forall|q: int| 0 <= q < queue@.len() ==> all@.contains(#[trigger] queue@[q]),
                forall|q: int| 0 <= q < queue@.len() ==> #[trigger] preds_before(*g, all@, queue@, q),
                forall|k: int| 0 <= k < all@.len() && indeg@[(#[trigger] all@[k]) as int] == 0 ==> queued.view()[all@[k] as int],
            decreases succ@.len() - j,
        {
            let y = succ[j];
            proof {
                lemma_count_take(succ@, j as int, y);
                lemma_count_take_le(succ@, j + 1, y);
                assert forall|z: usize| z < n && z != y implies count_in(succ@.take(j + 1), z) == count_in(succ@.take(j as int), z) by {
                    lemma_count_take(succ@, j as int, z);
                }
            }
            let d = indeg[y];
            indeg.set(y, d - 1);
            if d - 1 == 0 {
                let ghost before = queue@;
                proof {
                    assert(!queued.view()[y as int]);
                    // every member leading to y is done
                    assert(pending_in(*g, all@, done.view(), y) == 0);
                }
                queued.set(y);
                queue.push(y);
                proof {
                    let qn = before.len() as int;
                    assert forall|q: int| 0 <= q < queue@.len() implies #[trigger] preds_before(*g, all@, queue@, q) by {
                        if q < qn {
                            assert(preds_before(*g, all@, before, q));
                            assert forall|k: int| 0 <= k < all@.len() && #[trigger] g.succ_idx(all@[k]).contains(queue@[q])
                                implies exists|p: int| 0 <= p < q && queue@[p] == all@[k] by {
                                assert(queue@[q] == before[q]);
                                let p = choose|p: int| 0 <= p < q && before[p] == all@[k];
                                assert(queue@[p] == all@[k]);
                            }
                        } else {
                            assert forall|k: int| 0 <= k < all@.len() && #[trigger] g.succ_idx(all@[k]).contains(queue@[q])
                                implies exists|p: int| 0 <= p < q && queue@[p] == all@[k] by {
                                assert(queue@[q] == y);
                                if !done.view()[all@[k] as int] {
                                    lemma_pending_zero(*g, all@, done.view(), y, k);
                                }
                                assert(all@[k] < n);
                                assert(done.view()[all@[k] as int]);
                                assert(before.take(head as int).contains(all@[k]));
                                let p = choose|p: int| 0 <= p < head && before.take(head as int)[p] == all@[k];
                                assert(before[p] == all@[k]);
                                assert(queue@[p] == all@[k]);
                            }
                        }
                    }
                    assert forall|z: usize| z < n implies (#[trigger] queued.view()[z as int] <==> queue@.contains(z)) by {
                        if z == y {
                            assert(queue@[qn] == y);
                        } else if queue@.contains(z) {
                            let w = choose|w: int| 0 <= w < queue@.len() && queue@[w] == z;
                            assert(before[w] == z);
                        } else if before.contains(z) {
                            let w = choose|w: int| 0 <= w < before.len() && before[w] == z;
                            assert(queue@[w] == z);
                        }
                    }
                    assert forall|z: usize| z < n implies (#[trigger] done.view()[z as int] <==> queue@.take(head as int).contains(z)) by {
                        assert(queue@.take(head as int) =~= before.take(head as int));
                    }
                    assert forall|q: int| 0 <= q < queue@.len() implies all@.contains(#[trigger] queue@[q]) by {
                        if q < qn {
                            assert(queue@[q] == before[q]);
                        } else {
                            let k = choose|k: int| 0 <= k < all@.len() && all@[k] == x;
                            assert(g.succ_idx(all@[k])[j as int] == y);
                            assert(is_closed(*g, all@));
                            assert(all@.contains(g.succ_idx(all@[k])[j as int]));
                        }
                    }
                }
            }
            j = j + 1;
        }
        proof {
            assert(succ@.take(succ@.len() as int) =~= succ@);
            queued.lemma_bounded();
        }
    }
    proof {
        assert(queue@.take(head as int) =~= queue@);
        assert forall|k: int|
            0 <= k < all@.len() && !queue@.contains(#[trigger] all@[k]) implies exists|j: int|
                0 <= j < all@.len() && !queue@.contains(all@[j]) && g.succ_idx(all@[j]).contains(all@[k]) by {
            let y = all@[k];
            assert(all@.contains(y));
            assert(y < n);
            assert(!queued.view()[y as int]);
            assert(indeg@[y as int] != 0);
            lemma_pending_pos(*g, all@, done.view(), y);
            let j = choose|j: int| 0 <= j < all@.len() && !done.view()[all@[j] as int] && g.succ_idx(all@[j]).contains(y);
            assert(all@[j] < n);
            assert(!queue@.contains(all@[j]));
        }
    }
    queue
}

/// Whether some edge of `es` leads from `a` to `b`.
pub open spec fn linked(es: Seq<(usize, usize, usize)>, a: usize, b: usize) -> bool {
    exists|e: int| 0 <= e < es.len() && es[e].0 == a && es[e].1 == b
}

/// The nodes each node leads to by its edges' target names, by position.
pub open spec fn succ_adj(g: StateGraph) -> Seq<Seq<usize>> {
    Seq::new(g.node_seq().len(), |u: int| g.succ_idx(u as usize))
}

/// Every node position, in order.
pub open spec fn all_nodes(g: StateGraph) -> Seq<usize> {
    Seq::new(g.node_seq().len(), |i: int| i as usize)
}

/// Whether following each edge to the node its target's name finds never
/// comes back to where it started.
pub open spec fn acyclic_by_name(g: StateGraph) -> bool {
    !has_member_cycle(succ_adj(g), all_nodes(g))
}

/// Where edges lead to the nodes their targets' names find, a graph whose
/// edges hold no cycle holds none by name either.
pub proof fn lemma_acyclic_by_name(g: StateGraph)
    requires
        g.wf(),
        g.edges_by_name(),
        !has_cycle(g.links()),
    ensures
        acyclic_by_name(g),
{
    if has_member_cycle(succ_adj(g), all_nodes(g)) {
        let c = choose|c: Seq<usize>| is_cycle(succ_adj(g), all_nodes(g), c);
        assert forall|k: int| 0 <= k < all_nodes(g).len() implies (#[trigger] all_nodes(g)[k]) < g.node_seq().len() by {
            g.lemma_counts();
        }
        lemma_cycle_edges(g, all_nodes(g), c);
    }
}

/// Where no cycle runs through the nodes by name, an order from which every
/// member left out has a member left out leading to it leaves none out.
proof fn lemma_kahn_complete(g: StateGraph, all: Seq<usize>, order: Seq<usize>)
    requires
        g.wf(),
        acyclic_by_name(g),
        is_member_set(g, all),
        forall|k: int|
            0 <= k < all.len() && !order.contains(#[trigger] all[k]) ==> exists|j: int|
                0 <= j < all.len() && !order.contains(all[j]) && g.succ_idx(all[j]).contains(all[k]),
    ensures
        forall|k: int| 0 <= k < all.len() ==> order.contains(#[trigger] all[k]),
{
    let n = g.node_seq().len();
    assert forall|k: int| 0 <= k < all.len() implies order.contains(#[trigger] all[k]) by {
        if !order.contains(all[k]) {
            let adj = succ_adj(g);
            let done = Seq::new(n, |u: int| order.contains(u as usize));
            assert forall|y: usize| all.contains(y) && !done[y as int] implies exists|i: int|
                0 <= i < all.len() && !done[all[i] as int] && (#[trigger] adj[all[i] as int]).contains(y) by {
                let k2 = choose|k2: int| 0 <= k2 < all.len() && all[k2] == y;
                assert(all[k2] < n);
                assert(!order.contains(all[k2]));
                let j = choose|j: int| 0 <= j < all.len() && !order.contains(all[j]) && g.succ_idx(all[j]).contains(all[k2]);
                assert(all[j] < n);
                assert(adj[all[j] as int] == g.succ_idx(all[j]));
            }
            assert(all.contains(all[k]));
            assert(all[k] < n);
            g.lemma_counts();
            lemma_stuck_has_cycle(adj, all, done, all[k], n as int);
            let c = choose|c: Seq<usize>| is_cycle(adj, all, c);
            let an = all_nodes(g);
            assert forall|t: int| 0 <= t < c.len() implies an.contains(#[trigger] c[t]) by {
                assert(all.contains(c[t]));
                let q = choose|q: int| 0 <= q < all.len() && all[q] == c[t];
                assert(c[t] < n);
                assert(an[c[t] as int] == c[t]);
            }
            assert(is_cycle(adj, an, c));
        }
    }
}

/// Where edges lead to the nodes their targets' names find, a cycle of
/// members by name is a cycle of the edges.
proof fn lemma_cycle_edges(g: StateGraph, all: Seq<usize>, c: Seq<usize>)
    requires
        g.wf(),
        g.edges_by_name(),
        forall|k: int| 0 <= k < all.len() ==> (#[trigger] all[k]) < g.node_seq().len(),
        is_cycle(Seq::new(g.node_seq().len(), |u: int| g.succ_idx(u as usize)), all, c),
    ensures
        has_cycle(g.links()),
{
    let n = g.node_seq().len();
    let adj = Seq::new(n, |u: int| g.succ_idx(u as usize));
    let es = g.links();
    assert forall|t: int| 0 <= t < c.len() - 1 implies #[trigger] linked(es, c[t], c[t + 1]) by {
        assert(all.contains(c[t]));
        let q = choose|q: int| 0 <= q < all.len() && all[q] == c[t];
        assert(c[t] < n);
        assert(adj[c[t] as int].contains(c[t + 1]));
        assert(adj[c[t] as int] == g.succ_idx(c[t]));
        g.lemma_succ_edge(c[t], c[t + 1]);
    }
    let p = Seq::new((c.len() - 1) as nat, |t: int|
        choose|e: int| 0 <= e < es.len() && es[e].0 == c[t] && es[e].1 == c[t + 1]);
    assert forall|t: int| 0 <= t < p.len() implies 0 <= #[trigger] p[t] < es.len()
        && es[p[t]].0 == c[t] && es[p[t]].1 == c[t + 1] by {
        assert(linked(es, c[t], c[t + 1]));
    }
    assert(is_walk(es, p));
    assert(es[p.last()].1 == es[p[0]].0);
}

/// A value counted at least once occurs.
proof fn lemma_count_contains(s: Seq<usize>, y: usize)
    requires
        count_in(s, y) > 0,
    ensures
        s.contains(y),
    decreases s.len(),
{
    if count_in(s.drop_last(), y) > 0 {
        lemma_count_contains(s.drop_last(), y);
        let w = choose|w: int| 0 <= w < s.drop_last().len() && s.drop_last()[w] == y;
        assert(s[w] == y);
    } else {
        assert(s[s.len() - 1] == y);
    }
}

/// An edge still pending into `y` comes from a member not yet done.
proof fn lemma_pending_pos(g: StateGraph, all: Seq<usize>, done: Seq<bool>, y: usize)
    requires
        pending_in(g, all, done, y) > 0,
    ensures
        exists|j: int| 0 <= j < all.len() && !done[all[j] as int] && g.succ_idx(all[j]).contains(y),
    decreases all.len(),
{
    let d = all.drop_last();
    if pending_in(g, d, done, y) > 0 {
        lemma_pending_pos(g, d, done, y);
        let j = choose|j: int| 0 <= j < d.len() && !done[d[j] as int] && g.succ_idx(d[j]).contains(y);
        assert(all[j] == d[j]);
    } else {
        lemma_count_contains(g.succ_idx(all.last()), y);
        assert(all[all.len() - 1] == all.last());
    }
}

/// A node has no more edges leaving it than the graph has edges.
pub proof fn lemma_outgoing_len(es: Seq<(usize, usize, usize)>, a: usize)
    ensures
        outgoing(es, a).len() <= es.len(),
    decreases es.len(),
{
    if es.len() > 0 {
        lemma_outgoing_len(es.drop_last(), a);
    }
}

} // verus!

verus! {

/// The nodes that a topological order ranks: those reached from
/// `__start__`, and the `__end__` node.
pub open spec fn topo_members(g: StateGraph, all: Seq<usize>) -> bool {
    &&& forall|k: int| 0 <= k < all.len() ==> (#[trigger] all[k]) < g.node_seq().len()
    &&& exists|reach: Seq<usize>|
        {
            &&& (g.names().contains_key(start_name()) ==> is_visit_order(
                g,
                g.names()[start_name()],
                reach,
            ) && is_closed(g, reach))
            &&& (!g.names().contains_key(start_name()) ==> reach.len() == 0)
            &&& all == if g.names().contains_key(end_name()) && !reach.contains(
                g.names()[end_name()],
            ) {
                reach.push(g.names()[end_name()])
            } else {
                reach
            }
        }
}

/// The names `__start__` and `__end__` that no node has, in that order.
pub open spec fn absent_specials(g: StateGraph) -> Seq<Seq<char>> {
    (if g.names().contains_key(start_name()) { Seq::empty() } else { seq![start_name()] }) + (
    if g.names().contains_key(end_name()) {
        Seq::empty()
    } else {
        seq![end_name()]
    })
}

/// When `__end__` is not reached from `__start__`, the edges leaving it lead
/// only to nodes that are (ranking it would otherwise look up a node that
/// has no rank).
pub open spec fn end_edges_ranked(g: StateGraph) -> bool {
    g.names().contains_key(end_name()) ==> forall|reach: Seq<usize>|
        (g.names().contains_key(start_name()) ==> is_visit_order(g, g.names()[start_name()], reach)
            && is_closed(g, reach)) && (!g.names().contains_key(start_name()) ==> reach.len() == 0)
            && !reach.contains(g.names()[end_name()]) ==> forall|j: int|
            0 <= j < g.succ_idx(g.names()[end_name()]).len() ==> reach.contains(
                #[trigger] g.succ_idx(g.names()[end_name()])[j],
            ) || g.succ_idx(g.names()[end_name()])[j] == g.names()[end_name()]
}

/// Whether `v` is a topological order of the graph by name: the absent
/// special names, then the ids of a topological order of the members.
pub open spec fn is_named_topo(g: StateGraph, v: Seq<Seq<char>>) -> bool {
    exists|all: Seq<usize>, order: Seq<usize>|
        topo_members(g, all) && is_topo_order(g, all, order) && v == absent_specials(g)
            + order_names(g, order)
}

/// Whether `v` is a topological order by name that lists every member:
/// the absent special names, then the ids of all the members.
pub open spec fn is_full_named_topo(g: StateGraph, v: Seq<Seq<char>>) -> bool {
    exists|all: Seq<usize>, order: Seq<usize>|
        topo_members(g, all) && is_topo_order(g, all, order) && (forall|k: int|
            0 <= k < all.len() ==> order.contains(#[trigger] all[k])) && v == absent_specials(g)
            + order_names(g, order)
}

/// Every node of a visiting order from `s` is in any closed visiting
/// order from `s`.
proof fn lemma_visit_within(g: StateGraph, s: usize, a: Seq<usize>, b: Seq<usize>, k: int)
    requires
        is_visit_order(g, s, a),
        is_visit_order(g, s, b),
        is_closed(g, b),
        0 <= k < a.len(),
    ensures
        b.contains(a[k]),
    decreases k,
{
    if k == 0 {
        assert(b[0] == s);
    } else {
        assert(follows_some(g, a, a[k], k));
        let m = choose|m: int| 0 <= m < k && #[trigger] g.succ_idx(a[m]).contains(a[k]);
        lemma_visit_within(g, s, a, b, m);
        let i = choose|i: int| 0 <= i < b.len() && b[i] == a[m];
        let j = choose|j: int| 0 <= j < g.succ_idx(a[m]).len() && g.succ_idx(a[m])[j] == a[k];
        assert(b.contains(g.succ_idx(b[i])[j]));
    }
}

/// Two full topological orders by name are the absent special names
/// followed by the ids of two orders of the same members, each listing
/// every member once.
pub proof fn lemma_full_topo_members(g: StateGraph, v: Seq<Seq<char>>, w: Seq<Seq<char>>) -> (r: (Seq<usize>, Seq<usize>))
    requires
        is_full_named_topo(g, v),
        is_full_named_topo(g, w),
    ensures
        r.0.no_duplicates(),
        r.1.no_duplicates(),
        forall|x: usize| r.0.contains(x) <==> r.1.contains(x),
        v == absent_specials(g) + order_names(g, r.0),
        w == absent_specials(g) + order_names(g, r.1),
{
    let (all1, o1) = choose|all: Seq<usize>, order: Seq<usize>|
        topo_members(g, all) && is_topo_order(g, all, order) && (forall|k: int|
            0 <= k < all.len() ==> order.contains(#[trigger] all[k])) && v == absent_specials(g)
            + order_names(g, order);
    let (all2, o2) = choose|all: Seq<usize>, order: Seq<usize>|
        topo_members(g, all) && is_topo_order(g, all, order) && (forall|k: int|
            0 <= k < all.len() ==> order.contains(#[trigger] all[k])) && w == absent_specials(g)
            + order_names(g, order);
    let has_s = g.names().contains_key(start_name());
    let has_e = g.names().contains_key(end_name());
    let reach1 = choose|reach: Seq<usize>|
        {
            &&& (has_s ==> is_visit_order(g, g.names()[start_name()], reach) && is_closed(g, reach))
            &&& (!has_s ==> reach.len() == 0)
            &&& all1 == if has_e && !reach.contains(g.names()[end_name()]) {
                reach.push(g.names()[end_name()])
            } else {
                reach
            }
        };
    let reach2 = choose|reach: Seq<usize>|
        {
            &&& (has_s ==> is_visit_order(g, g.names()[start_name()], reach) && is_closed(g, reach))
            &&& (!has_s ==> reach.len() == 0)
            &&& all2 == if has_e && !reach.contains(g.names()[end_name()]) {
                reach.push(g.names()[end_name()])
            } else {
                reach
            }
        };
    assert forall|x: usize| reach1.contains(x) <==> reach2.contains(x) by {
        if has_s {
            let st = g.names()[start_name()];
            if reach1.contains(x) {
                let k = choose|k: int| 0 <= k < reach1.len() && reach1[k] == x;
                lemma_visit_within(g, st, reach1, reach2, k);
            }
            if reach2.contains(x) {
                let k = choose|k: int| 0 <= k < reach2.len() && reach2[k] == x;
                lemma_visit_within(g, st, reach2, reach1, k);
            }
        }
    }
    assert forall|x: usize| all1.contains(x) <==> all2.contains(x) by {
        if has_e {
            let e = g.names()[end_name()];
            if reach1.contains(e) {
                assert(reach2.contains(e));
            } else {
                assert(!reach2.contains(e));
                if all1.contains(x) && x != e {
                    let k = choose|k: int| 0 <= k < all1.len() && all1[k] == x;
                    assert(reach1[k] == x);
                }
                if all2.contains(x) && x != e {
                    let k = choose|k: int| 0 <= k < all2.len() && all2[k] == x;
                    assert(reach2[k] == x);
                }
                if reach1.contains(x) {
                    let k = choose|k: int| 0 <= k < reach1.len() && reach1[k] == x;
                    assert(all1[k] == x);
                }
                if reach2.contains(x) {
                    let k = choose|k: int| 0 <= k < reach2.len() && reach2[k] == x;
                    assert(all2[k] == x);
                }
                assert(all1[reach1.len() as int] == e);
                assert(all2[reach2.len() as int] == e);
            }
        }
    }
    assert forall|x: usize| o1.contains(x) <==> o2.contains(x) by {
        if o1.contains(x) {
            let q = choose|q: int| 0 <= q < o1.len() && o1[q] == x;
            assert(all1.contains(o1[q]));
            let k = choose|k: int| 0 <= k < all2.len() && all2[k] == x;
            assert(o2.contains(all2[k]));
        }
        if o2.contains(x) {
            let q = choose|q: int| 0 <= q < o2.len() && o2[q] == x;
            assert(all2.contains(o2[q]));
            let k = choose|k: int| 0 <= k < all1.len() && all1[k] == x;
            assert(o1.contains(all1[k]));
        }
    }
    (o1, o2)
}

/// Whether `end_edges_ranked` holds of the graph, which running it in
/// topological order asks for.
pub fn end_edges_ok(graph: &CompiledGraph) -> (b: bool)
    requires
        graph.wf(),
    ensures
        b == end_edges_ranked(graph.inner()),
{
    let g = graph.graph();
    let start = start_str();
    let end = end_str();
    let e = match g.index_of(end.as_str()) {
        Some(e) => e,
        None => {
            return true;
        },
    };
    let reach: Vec<usize> = match g.index_of(start.as_str()) {
        Some(s) => bfs_indices(g, s),
        None => Vec::new(),
    };
    let ghost r = reach@;
    let ghost gg = *g;
    proof {
        assert forall|other: Seq<usize>|
            (gg.names().contains_key(start_name()) ==> is_visit_order(gg, gg.names()[start_name()], other)
                && is_closed(gg, other)) && (!gg.names().contains_key(start_name()) ==> other.len() == 0)
            implies (forall|x: usize| #[trigger] other.contains(x) <==> r.contains(x)) by {
            if gg.names().contains_key(start_name()) {
                let s = gg.names()[start_name()];
                assert forall|x: usize| #[trigger] other.contains(x) <==> r.contains(x) by {
                    if other.contains(x) {
                        let k = choose|k: int| 0 <= k < other.len() && other[k] == x;
                        lemma_visit_within(gg, s, other, r, k);
                    }
                    if r.contains(x) {
                        let k = choose|k: int| 0 <= k < r.len() && r[k] == x;
                        lemma_visit_within(gg, s, r, other, k);
                    }
                }
            }
        }
    }
    proof {
        if gg.names().contains_key(start_name()) {
            assert(is_visit_order(gg, gg.names()[start_name()], r) && is_closed(gg, r));
        }
    }
    if contains_index(&reach, e) {
        return true;
    }
    proof {
        g.lemma_counts();
    }
    let succ = g.succ_indices(e);
    let mut j: usize = 0;
    while j < succ.len()
        invariant
            j <= succ@.len(),
            succ@ == gg.succ_idx(e),
            r == reach@,
            gg == graph.inner(),
            gg.names().contains_key(end_name()),
            gg.names()[end_name()] == e,
            !r.contains(e),
            gg.names().contains_key(start_name()) ==> is_visit_order(gg, gg.names()[start_name()], r) && is_closed(gg, r),
            !gg.names().contains_key(start_name()) ==> r.len() == 0,
            forall|other: Seq<usize>|
                (gg.names().contains_key(start_name()) ==> is_visit_order(gg, gg.names()[start_name()], other)
                    && is_closed(gg, other)) && (!gg.names().contains_key(start_name()) ==> other.len() == 0)
                ==> (forall|x: usize| #[trigger] other.contains(x) <==> r.contains(x)),
            forall|i: int| 0 <= i < j ==> r.contains(#[trigger] succ@[i]) || succ@[i] == e,
        decreases succ@.len() - j,
    {
        let t = succ[j];
        if !(t == e || contains_index(&reach, t)) {
            assert(!(r.contains(gg.succ_idx(e)[j as int]) || gg.succ_idx(e)[j as int] == e));
            return false;
        }
        j = j + 1;
    }
    true
}

/// Whether `x` occurs in `v`.
fn contains_index(v: &Vec<usize>, x: usize) -> (b: bool)
    ensures
        b == v@.contains(x),
{
    let mut i: usize = 0;
    while i < v.len()
        invariant
            i <= v@.len(),
            forall|k: int| 0 <= k < i ==> v@[k] != x,
        decreases v@.len() - i,
    {
        if v[i] == x {
            return true;
        }
        i = i + 1;
    }
    false
}

impl GraphTraverser {
    /// A topological order of the nodes reached from `__start__` and of
    /// `__end__`; fails with `InvalidState` when the graph has a cycle.
    pub fn topological_order(&self, graph: &CompiledGraph) -> (r: Result<Vec<String>, LangGraphError>)
        requires
            graph.wf(),
            end_edges_ranked(graph.inner()),
        ensures
            has_cycle(graph.inner().links()) ==> r matches Err(
                LangGraphError::Engine(ExecutionError::InvalidState(_)),
            ),
            !has_cycle(graph.inner().links()) ==> (r matches Ok(v) && is_named_topo(
                graph.inner(),
                strings_view(v@),
            )),
            !has_cycle(graph.inner().links()) && acyclic_by_name(graph.inner()) ==> (r matches Ok(v)
                && is_full_named_topo(graph.inner(), strings_view(v@))),
    {
        let g = graph.graph();
        if g.has_cycles() {
            let mut msg = String::new();
            crate::text::push_str(&mut msg, "Cannot perform topological sort on graph with cycles");
            return Err(LangGraphError::Engine(ExecutionError::InvalidState(msg)));
        }
        let start = start_str();
        let end = end_str();
        let s_idx = g.index_of(start.as_str());
        let e_idx = g.index_of(end.as_str());
        let mut all: Vec<usize> = match s_idx {
            Some(s) => bfs_indices(g, s),
            None => Vec::new(),
        };
        let ghost reach = all@;
        proof {
            g.lemma_counts();
        }
        match e_idx {
            Some(e) => {
                if !contains_index(&all, e) {
                    all.push(e);
                    proof {
                        let n = g.node_seq().len();
                        assert(all@ == reach.push(e));
                        assert forall|a: int, b: int| 0 <= a < all@.len() && 0 <= b < all@.len() && a != b implies all@[a] != all@[b] by {
                            if a < reach.len() && b < reach.len() {
                            } else if a < reach.len() {
                                assert(reach.contains(all@[a]));
                            } else {
                                assert(reach.contains(all@[b]));
                            }
                        }
                        assert forall|k: int, j: int|
                            0 <= k < all@.len() && 0 <= j < g.succ_idx(all@[k]).len() implies all@.contains(
                            #[trigger] g.succ_idx(all@[k])[j],
                        ) by {
                            let y = g.succ_idx(all@[k])[j];
                            if k < reach.len() {
                                assert(all@[k] == reach[k]);
                                assert(reach.contains(y));
                                let w = choose|w: int| 0 <= w < reach.len() && reach[w] == y;
                                assert(all@[w] == y);
                            } else {
                                assert(all@[k] == e);
                                if reach.contains(y) {
                                    let w = choose|w: int| 0 <= w < reach.len() && reach[w] == y;
                                    assert(all@[w] == y);
                                } else {
                                    assert(all@[reach.len() as int] == y);
                                }
                            }
                        }
                    }
                }
            },
            None => {},
        }
        let order = kahn(g, &all);
        let mut result: Vec<String> = Vec::new();
        if s_idx.is_none() {
            result.push(start);
        }
        if e_idx.is_none() {
            result.push(end);
        }
        assert(strings_view(result@) =~= absent_specials(*g));
        proof {
            assert forall|q: int| 0 <= q < order@.len() implies (#[trigger] order@[q]) < g.node_seq().len() by {
                assert(all@.contains(order@[q]));
            }
        }
        let named = names_of(g, &order);
        let ghost prefix = result@;
        let mut i: usize = 0;
        while i < named.len()
            invariant
                i <= named@.len(),
                strings_view(result@) == strings_view(prefix) + strings_view(named@).take(i as int),
            decreases named@.len() - i,
        {
            let ghost before = result@;
            result.push(crate::json::copy_string(&named[i]));
            assert(strings_view(result@).drop_last() =~= strings_view(before));
            assert(strings_view(result@).last() == strings_view(named@)[i as int]);
            let ghost sn = strings_view(named@);
            assert(sn.take(i + 1) =~= sn.take(i as int).push(sn[i as int]));
            assert(strings_view(result@) =~= strings_view(before).push(sn[i as int]));
            assert((strings_view(prefix) + sn.take(i as int)).push(sn[i as int]) =~= strings_view(prefix) + sn.take(i as int).push(sn[i as int]));
            i = i + 1;
        }
        assert(strings_view(named@).take(named@.len() as int) =~= strings_view(named@));
        assert(topo_members(*g, all@));
        proof {
            if acyclic_by_name(*g) {
                lemma_kahn_complete(*g, all@, order@);
                assert(is_full_named_topo(*g, strings_view(result@)));
            }
        }
        Ok(result)
    }

    /// The same order as breadth-first.
    pub fn priority_order(&self, graph: &CompiledGraph) -> (r: Result<Vec<String>, LangGraphError>)
        requires
            graph.wf(),
        ensures
            r matches Ok(v) && is_named_visit(graph.inner(), strings_view(v@)),
    {
        self.breadth_first_order(graph)
    }

    /// The execution order for the traverser's strategy.
    pub fn get_execution_order(&self, graph: &CompiledGraph) -> (r: Result<Vec<String>, LangGraphError>)
        requires
            graph.wf(),
            self.strategy == TraversalStrategy::Topological ==> end_edges_ranked(graph.inner()),
        ensures
            self.strategy != TraversalStrategy::Topological ==> (r matches Ok(v) && is_named_visit(
                graph.inner(),
                strings_view(v@),
            )),
            self.strategy == TraversalStrategy::Topological && has_cycle(graph.inner().links())
                ==> r matches Err(LangGraphError::Engine(ExecutionError::InvalidState(_))),
            self.strategy == TraversalStrategy::Topological && !has_cycle(graph.inner().links())
                ==> (r matches Ok(v) && is_named_topo(graph.inner(), strings_view(v@))),
            self.strategy == TraversalStrategy::Topological && !has_cycle(graph.inner().links())
                && acyclic_by_name(graph.inner()) ==> (r matches Ok(v) && is_full_named_topo(
                graph.inner(),
                strings_view(v@),
            )),
    {
        match self.strategy {
            TraversalStrategy::BreadthFirst => self.breadth_first_order(graph),
            TraversalStrategy::DepthFirst => self.depth_first_order(graph),
            TraversalStrategy::Topological => self.topological_order(graph),
            TraversalStrategy::Priority => self.priority_order(graph),
        }
    }
}

} // verus!

verus! {

/// The position of the first conditional edge among the edges `out`
/// (as `(target, edge index)`), or -1.
pub open spec fn first_conditional(g: StateGraph, out: Seq<(usize, usize)>) -> int
    decreases out.len(),
{
    if out.len() == 0 {
        -1
    } else {
        let r = first_conditional(g, out.drop_last());
        if r >= 0 {
            r
        } else if g.edge_seq()[out.last().1 as int].edge_type is Conditional {
            out.len() - 1
        } else {
            -1
        }
    }
}

/// `first_conditional` is -1 or the first conditional edge.
pub proof fn lemma_first_conditional(g: StateGraph, out: Seq<(usize, usize)>)
    ensures
        -1 <= first_conditional(g, out) < out.len(),
        first_conditional(g, out) >= 0 ==> g.edge_seq()[out[first_conditional(g, out)].1 as int].edge_type is Conditional,
        forall|j: int|
            0 <= j < out.len() && (first_conditional(g, out) < 0 || j < first_conditional(g, out))
                ==> !(g.edge_seq()[(#[trigger] out[j]).1 as int].edge_type is Conditional),
    decreases out.len(),
{
    if out.len() > 0 {
        let d = out.drop_last();
        lemma_first_conditional(g, d);
        assert forall|j: int|
            0 <= j < out.len() && (first_conditional(g, out) < 0 || j < first_conditional(g, out))
                implies !(g.edge_seq()[(#[trigger] out[j]).1 as int].edge_type is Conditional) by {
            if j < d.len() {
                assert(d[j] == out[j]);
            }
        }
    }
}

/// The nodes to run after `name`: none without edges; the target of the
/// first conditional edge when there is one; otherwise the targets of all
/// edges, the most recently added first.
pub open spec fn next_nodes_of(g: StateGraph, name: Seq<char>) -> Seq<Seq<char>> {
    if !g.names().contains_key(name) {
        Seq::empty()
    } else {
        let out = outgoing(g.links(), g.names()[name]);
        let k = first_conditional(g, out);
        if k >= 0 {
            seq![g.edge_seq()[out[k].1 as int].edge_type->Conditional_0.target@]
        } else {
            Seq::new(out.len(), |j: int| g.node_seq()[out[j].0 as int].id@)
        }
    }
}

/// Every edge leaving `a` is among the edges `outgoing` lists for `a`.
proof fn lemma_outgoing_has_edge(es: Seq<(usize, usize, usize)>, a: usize, i: int)
    requires
        0 <= i < es.len(),
        es[i].0 == a,
    ensures
        outgoing(es, a).contains((es[i].1, es[i].2)),
    decreases es.len(),
{
    let rest = outgoing(es.drop_last(), a);
    if i == es.len() - 1 {
        assert(outgoing(es, a)[0] == (es[i].1, es[i].2));
    } else {
        lemma_outgoing_has_edge(es.drop_last(), a, i);
        let j = choose|j: int| 0 <= j < rest.len() && rest[j] == (es[i].1, es[i].2);
        if es.last().0 == a {
            assert(outgoing(es, a)[j + 1] == rest[j]);
        } else {
            assert(outgoing(es, a)[j] == rest[j]);
        }
    }
}

/// Each edge `outgoing` lists for `a` is an edge leaving `a`.
proof fn lemma_outgoing_is_edge(es: Seq<(usize, usize, usize)>, a: usize, j: int)
    requires
        0 <= j < outgoing(es, a).len(),
    ensures
        exists|i: int| 0 <= i < es.len() && es[i].0 == a && (es[i].1, es[i].2) == outgoing(es, a)[j],
    decreases es.len(),
{
    let rest = outgoing(es.drop_last(), a);
    let e = es.last();
    if e.0 == a && j == 0 {
        assert(es[es.len() - 1] == e);
    } else {
        let jj = if e.0 == a { j - 1 } else { j };
        assert(outgoing(es, a)[j] == rest[jj]);
        lemma_outgoing_is_edge(es.drop_last(), a, jj);
        let i = choose|i: int|
            0 <= i < es.drop_last().len() && es.drop_last()[i].0 == a && (es.drop_last()[i].1, es.drop_last()[i].2)
                == rest[jj];
        assert(es[i] == es.drop_last()[i]);
    }
}

/// Whether edge `i` leaves node `a` for a node named `x`.
pub open spec fn edge_targets(g: StateGraph, a: usize, i: int, x: Seq<char>) -> bool {
    0 <= i < g.links().len() && g.links()[i].0 == a && g.node_seq()[g.links()[i].1 as int].id@ == x
}

/// Whether some edge leaves node `a` for a node named `x`.
pub open spec fn is_edge_target(g: StateGraph, a: usize, x: Seq<char>) -> bool {
    exists|i: int| #[trigger] edge_targets(g, a, i, x)
}

/// After a node none of whose edges is conditional, the nodes to run are
/// the targets of all its edges: one for each edge, every target among
/// them, and nothing else.
pub proof fn lemma_unconditional_next_nodes(g: StateGraph, name: Seq<char>)
    requires
        g.names().contains_key(name),
        forall|i: int|
            0 <= i < g.links().len() && (#[trigger] g.links()[i]).0 == g.names()[name] ==> !(
            g.edge_seq()[g.links()[i].2 as int].edge_type is Conditional),
    ensures
        next_nodes_of(g, name).len() == outgoing(g.links(), g.names()[name]).len(),
        forall|i: int|
            0 <= i < g.links().len() && (#[trigger] g.links()[i]).0 == g.names()[name] ==> next_nodes_of(
                g,
                name,
            ).contains(g.node_seq()[g.links()[i].1 as int].id@),
        forall|k: int|
            0 <= k < next_nodes_of(g, name).len() ==> is_edge_target(g, g.names()[name], #[trigger] next_nodes_of(g, name)[k]),
{
    let a = g.names()[name];
    let es = g.links();
    let out = outgoing(es, a);
    lemma_first_conditional(g, out);
    let k = first_conditional(g, out);
    if k >= 0 {
        lemma_outgoing_is_edge(es, a, k);
        let i = choose|i: int| 0 <= i < es.len() && es[i].0 == a && (es[i].1, es[i].2) == out[k];
        assert(es[i].0 == a);
        assert(false);
    }
    assert(k < 0);
    let next = next_nodes_of(g, name);
    assert forall|i: int| 0 <= i < es.len() && (#[trigger] es[i]).0 == a implies next.contains(
        g.node_seq()[es[i].1 as int].id@,
    ) by {
        lemma_outgoing_has_edge(es, a, i);
        let j = choose|j: int| 0 <= j < out.len() && out[j] == (es[i].1, es[i].2);
        assert(next[j] == g.node_seq()[es[i].1 as int].id@);
    }
    assert forall|kk: int| 0 <= kk < next.len() implies is_edge_target(g, a, #[trigger] next[kk]) by {
        lemma_outgoing_is_edge(es, a, kk);
        let i = choose|i: int| 0 <= i < es.len() && es[i].0 == a && (es[i].1, es[i].2) == out[kk];
        assert(next[kk] == g.node_seq()[es[i].1 as int].id@);
        assert(edge_targets(g, a, i, next[kk]));
    }
}

impl GraphTraverser {
    /// The nodes to run after `current_node`.
    pub fn get_next_nodes(&self, graph: &CompiledGraph, current_node: &str, state: &StateData) -> (r:
        Result<Vec<String>, LangGraphError>)
        requires
            graph.wf(),
        ensures
            r matches Ok(v) && strings_view(v@) == next_nodes_of(graph.inner(), current_node@),
    {
        let g = graph.graph();
        let mut next: Vec<String> = Vec::new();
        let a = match g.index_of(current_node) {
            Some(a) => a,
            None => {
                assert(strings_view(next@) =~= Seq::<Seq<char>>::empty());
                return Ok(next);
            },
        };
        let out = g.edges_from_index(a);
        proof {
            lemma_first_conditional(*g, out@);
        }
        let mut j: usize = 0;
        while j < out.len()
            invariant
                g.wf(),
                j <= out@.len(),
                out@ == outgoing(g.links(), a),
                forall|k: int| 0 <= k < out@.len() ==> (#[trigger] out@[k]).0 < g.node_seq().len()
                    && out@[k].1 < g.edge_seq().len(),
                forall|k: int| 0 <= k < j ==> !(g.edge_seq()[(#[trigger] out@[k]).1 as int].edge_type is Conditional),
                next@.len() == 0,
                *g == graph.inner(),
                g.names().contains_key(current_node@),
                g.names()[current_node@] == a,
                -1 <= first_conditional(*g, out@) < out@.len(),
                first_conditional(*g, out@) >= 0 ==> g.edge_seq()[out@[first_conditional(*g, out@)].1 as int].edge_type is Conditional,
                forall|k: int|
                    0 <= k < out@.len() && (first_conditional(*g, out@) < 0 || k < first_conditional(*g, out@))
                        ==> !(g.edge_seq()[(#[trigger] out@[k]).1 as int].edge_type is Conditional),
            decreases out@.len() - j,
        {
            let e = g.edge_at(out[j].1);
            match &e.edge_type {
                EdgeType::Conditional(c) => {
                    assert(first_conditional(*g, out@) == j);
                    next.push(crate::json::copy_string(&c.target));
                    assert(c.target@ == g.edge_seq()[out@[j as int].1 as int].edge_type->Conditional_0.target@);
                    assert(strings_view(next@) =~= seq![c.target@]);
                    assert(strings_view(next@) =~= next_nodes_of(*g, current_node@));
                    return Ok(next);
                },
                _ => {},
            }
            j = j + 1;
        }
        assert(first_conditional(*g, out@) < 0);
        assert(strings_view(next@) =~= Seq::<Seq<char>>::empty());
        let mut k: usize = 0;
        while k < out.len()
            invariant
                g.wf(),
                k <= out@.len(),
                out@ == outgoing(g.links(), a),
                forall|i: int| 0 <= i < out@.len() ==> (#[trigger] out@[i]).0 < g.node_seq().len(),
                strings_view(next@) == Seq::new(out@.len(), |i: int| g.node_seq()[out@[i].0 as int].id@).take(k as int),
            decreases out@.len() - k,
        {
            let ghost before = next@;
            next.push(crate::json::copy_string(&g.node_at(out[k].0).id));
            assert(strings_view(next@) =~= Seq::new(out@.len(), |i: int| g.node_seq()[out@[i].0 as int].id@).take(k + 1)) by {
                assert(strings_view(next@).drop_last() =~= strings_view(before));
            }
            k = k + 1;
        }
        assert(Seq::new(out@.len(), |i: int| g.node_seq()[out@[i].0 as int].id@).take(out@.len() as int)
            =~= Seq::new(out@.len(), |i: int| g.node_seq()[out@[i].0 as int].id@));
        Ok(next)
    }
}

} // verus!
