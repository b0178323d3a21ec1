//! Which nodes can run together: the nodes reached from `__start__`, ranked
//! in levels so that each node runs after every node that leads to it.
use vstd::prelude::*;
use crate::error::LangGraphError;
use crate::graph::{CompiledGraph, StateGraph, start_name, start_str, strings_view};
use crate::engine::executor::ExecutionError;
use crate::engine::traversal::{is_visit_order, is_closed, bfs_indices};
use crate::engine::levels::{levels_tight, 
    is_adjacency, is_closed_set, is_level_ranking, has_member_cycle, covers, concat_levels,
    lists_of, kahn_levels,
};

verus! {

/// Dependency analyzer for identifying parallelizable nodes.
pub struct DependencyAnalyzer {
    levels: Vec<Vec<String>>,
}

/// Whether `adj` lists, for each node, the nodes it leads to, each once.
pub open spec fn same_succ(g: StateGraph, adj: Seq<Seq<usize>>) -> bool {
    &&& is_adjacency(adj, g.node_seq().len() as int)
    &&& forall|u: int, v: usize|
        0 <= u < g.node_seq().len() ==> (#[trigger] adj[u].contains(v) <==> g.succ_idx(u as usize).contains(v))
}

/// The ids of the nodes of each level.
pub open spec fn level_names(g: StateGraph, lv: Seq<Seq<usize>>) -> Seq<Seq<Seq<char>>> {
    Seq::new(lv.len(), |l: int| Seq::new(lv[l].len(), |i: int| g.node_seq()[lv[l][i] as int].id@))
}

/// The error of an analysis that found a cycle.
pub open spec fn is_cycle_error(e: LangGraphError) -> bool {
    match e {
        LangGraphError::Engine(ExecutionError::NodeExecutionFailed(m)) => m@ == "Graph contains cycles"@,
        _ => false,
    }
}

/// The names of each level of a vector of levels.
pub open spec fn level_strings(v: Seq<Vec<String>>) -> Seq<Seq<Seq<char>>> {
    Seq::new(v.len(), |l: int| strings_view(v[l]@))
}

/// What the analysis of a graph whose `__start__` node exists gives: for
/// the nodes reached from it, it fails exactly when they hold a cycle, and
/// otherwise ranks them all in levels, each node in the first level after
/// all the nodes that lead to it (its longest path from `__start__`).
pub open spec fn analysis_of(g: StateGraph, r: Result<Seq<Seq<Seq<char>>>, ()>) -> bool {
    exists|reach: Seq<usize>, adj: Seq<Seq<usize>>|
        {
            &&& is_visit_order(g, g.names()[start_name()], reach)
            &&& is_closed(g, reach)
            &&& same_succ(g, adj)
            &&& (r is Ok <==> !has_member_cycle(adj, reach))
            &&& r matches Ok(levels) ==> exists|lv: Seq<Seq<usize>>|
                is_level_ranking(adj, reach, lv) && levels_tight(adj, lv) && covers(reach, concat_levels(lv))
                    && levels == level_names(g, lv)
        }
}

/// The nodes that `v` holds, each once, in the order of their first occurrence.
fn distinct(v: &Vec<usize>) -> (r: Vec<usize>)
    ensures
        r@.no_duplicates(),
        forall|y: usize| r@.contains(y) <==> v@.contains(y),
{
    let mut r: Vec<usize> = Vec::new();
    let mut i: usize = 0;
    while i < v.len()
        invariant
            i <= v@.len(),
            r@.no_duplicates(),
            forall|y: usize| r@.contains(y) <==> v@.take(i as int).contains(y),
        decreases v@.len() - i,
    {
        let x = v[i];
        let mut found = false;
        let mut k: usize = 0;
        while k < r.len()
            invariant
                k <= r@.len(),
                i < v@.len(),
                x == v@[i as int],
                r@.no_duplicates(),
                forall|y: usize| r@.contains(y) <==> v@.take(i as int).contains(y),
                found == exists|m: int| 0 <= m < k && r@[m] == x,
            decreases r@.len() - k,
        {
            if r[k] == x {
                found = true;
            }
            k = k + 1;
        }
        let ghost before = r@;
        if !found {
            r.push(x);
            assert forall|a: int, b: int| 0 <= a < r@.len() && 0 <= b < r@.len() && a != b implies r@[a] != r@[b] by {
                if a < before.len() && b < before.len() {
                    assert(r@[a] == before[a] && r@[b] == before[b]);
                } else if a < before.len() {
                    assert(r@[a] == before[a]);
                } else {
                    assert(r@[b] == before[b]);
                }
            }
        }
        assert forall|y: usize| r@.contains(y) <==> v@.take(i + 1).contains(y) by {
            assert(v@.take(i + 1) == v@.take(i as int).push(x));
            if v@.take(i + 1).contains(y) {
                let w = choose|w: int| 0 <= w < i + 1 && #[trigger] v@.take(i + 1)[w] == y;
                if w < i {
                    assert(v@.take(i as int)[w] == y);
                    assert(before.contains(y));
                    let m = choose|m: int| 0 <= m < before.len() && before[m] == y;
                    assert(r@[m] == y);
                } else if !found {
                    assert(r@[before.len() as int] == y);
                }
            }
            if r@.contains(y) {
                let m = choose|m: int| 0 <= m < r@.len() && r@[m] == y;
                if m < before.len() {
                    assert(before[m] == y);
                    assert(before.contains(y));
                    assert(v@.take(i as int).contains(y));
                    let w = choose|w: int| 0 <= w < i && #[trigger] v@.take(i as int)[w] == y;
                    assert(v@.take(i + 1)[w] == y);
                } else {
                    assert(v@.take(i + 1)[i as int] == y);
                }
            }
        }
        i = i + 1;
    }
    assert(v@.take(v@.len() as int) =~= v@);
    r
}

impl DependencyAnalyzer {
    /// The levels, by node name.
    pub closed spec fn levels_view(&self) -> Seq<Seq<Seq<char>>> {
        level_strings(self.levels@)
    }

    /// Ranks the nodes reached from `__start__` in levels; fails with
    /// `NodeExecutionFailed` when they hold a cycle. Without a `__start__`
    /// node the one level holds just that name.
    pub fn analyze(graph: &CompiledGraph) -> (r: Result<DependencyAnalyzer, LangGraphError>)
        requires
            graph.wf(),
        ensures
            !graph.inner().names().contains_key(start_name()) ==> (r matches Ok(a)
                && a.levels_view() == seq![seq![start_name()]]),
            graph.inner().names().contains_key(start_name()) ==> analysis_of(
                graph.inner(),
                match r {
                    Ok(a) => Ok(a.levels_view()),
                    Err(_) => Err(()),
                },
            ),
            r matches Err(e) ==> is_cycle_error(e),
    {
        let g = graph.graph();
        let start = start_str();
        let s = match g.index_of(start.as_str()) {
            Some(s) => s,
            None => {
                let mut level: Vec<String> = Vec::new();
                level.push(start);
                let mut levels: Vec<Vec<String>> = Vec::new();
                levels.push(level);
                let a = DependencyAnalyzer { levels };
                assert(a.levels_view() =~= seq![seq![start_name()]]) by {
                    assert(strings_view(a.levels@[0]@) =~= seq![start_name()]);
                }
                return Ok(a);
            },
        };
        let reach = bfs_indices(g, s);
        let n = g.node_count();
        proof {
            g.lemma_counts();
        }
        let mut adj: Vec<Vec<usize>> = Vec::new();
        let mut u: usize = 0;
        while u < n
            invariant
                g.wf(),
                n == g.node_seq().len(),
                u <= n,
                adj@.len() == u,
                forall|w: int| 0 <= w < u ==> (#[trigger] adj@[w])@.no_duplicates(),
                forall|w: int, v: usize| 0 <= w < u ==> (#[trigger] adj@[w]@.contains(v) <==> g.succ_idx(w as usize).contains(v)),
                forall|w: int, j: int| 0 <= w < u && 0 <= j < adj@[w]@.len() ==> (#[trigger] adj@[w]@[j]) < n,
            decreases n - u,
        {
            let succ = g.succ_indices(u);
            let d = distinct(&succ);
            proof {
                assert forall|j: int| 0 <= j < d@.len() implies (#[trigger] d@[j]) < n by {
                    assert(d@.contains(d@[j]));
                    let k = choose|k: int| 0 <= k < succ@.len() && succ@[k] == d@[j];
                }
            }
            adj.push(d);
            proof {
                assert forall|w: int, v: usize| 0 <= w < u + 1 implies (#[trigger] adj@[w]@.contains(v) <==> g.succ_idx(w as usize).contains(v)) by {
                    if w == u {
                        assert(adj@[w] == d);
                    }
                }
            }
            u = u + 1;
        }
        let ghost ga = lists_of(adj@);
        proof {
            assert(is_adjacency(ga, n as int)) by {
                assert forall|w: int| 0 <= w < n implies (#[trigger] ga[w]).no_duplicates() by {
                    assert(ga[w] == adj@[w]@);
                }
                assert forall|w: int, j: int| 0 <= w < n && 0 <= j < ga[w].len() implies (#[trigger] ga[w][j]) < n by {
                    assert(ga[w] == adj@[w]@);
                }
            }
            assert(same_succ(*g, ga)) by {
                assert forall|w: int, v: usize| 0 <= w < g.node_seq().len() implies (#[trigger] ga[w].contains(v) <==> g.succ_idx(w as usize).contains(v)) by {
                    assert(ga[w] == adj@[w]@);
                }
            }
            assert(is_closed_set(ga, n as int, reach@)) by {
                assert forall|k: int, j: int|
                    0 <= k < reach@.len() && 0 <= j < ga[reach@[k] as int].len() implies reach@.contains(
                    #[trigger] ga[reach@[k] as int][j],
                ) by {
                    let v = ga[reach@[k] as int][j];
                    assert(ga[reach@[k] as int].contains(v));
                    assert(g.succ_idx(reach@[k]).contains(v));
                    let jj = choose|jj: int| 0 <= jj < g.succ_idx(reach@[k]).len() && g.succ_idx(reach@[k])[jj] == v;
                    assert(reach@.contains(g.succ_idx(reach@[k])[jj]));
                }
            }
        }
        let lv = kahn_levels(n, &reach, &adj);
        // Every node reached must be ranked.
        let ghost order = concat_levels(lists_of(lv@));
        let mut ranked: Vec<bool> = Vec::new();
        let mut i: usize = 0;
        while i < n
            invariant
                i <= n,
                ranked@.len() == i,
                forall|k: int| 0 <= k < i ==> !#[trigger] ranked@[k],
            decreases n - i,
        {
            ranked.push(false);
            i = i + 1;
        }
        let mut l: usize = 0;
        while l < lv.len()
            invariant
                g.wf(),
                n == g.node_seq().len(),
                l <= lv@.len(),
                ranked@.len() == n,
                order == concat_levels(lists_of(lv@)),
                is_level_ranking(ga, reach@, lists_of(lv@)),
                levels_tight(ga, lists_of(lv@)),
                is_closed_set(ga, n as int, reach@),
                forall|v: usize| v < n ==> (#[trigger] ranked@[v as int] <==> concat_levels(lists_of(lv@).take(l as int)).contains(v)),
            decreases lv@.len() - l,
        {
            let level = &lv[l];
            let mut i: usize = 0;
            let ghost base = concat_levels(lists_of(lv@).take(l as int));
            proof {
                crate::engine::levels::lemma_concat_prefix(lists_of(lv@), l as int);
            }
            while i < level.len()
                invariant
                    g.wf(),
                    n == g.node_seq().len(),
                    i <= level@.len(),
                    level@ == lists_of(lv@)[l as int],
                    l < lv@.len(),
                    ranked@.len() == n,
                    order == concat_levels(lists_of(lv@)),
                    is_level_ranking(ga, reach@, lists_of(lv@)),
                levels_tight(ga, lists_of(lv@)),
                    is_closed_set(ga, n as int, reach@),
                    concat_levels(lists_of(lv@).take(l + 1)) == base + level@,
                    forall|v: usize| v < n ==> (#[trigger] ranked@[v as int] <==> (base + level@.take(i as int)).contains(v)),
                decreases level@.len() - i,
            {
                let v = level[i];
                proof {
                    assert(order.contains(v)) by {
                        crate::engine::levels::lemma_concat_prefix(lists_of(lv@), l + 1);
                        assert((base + level@)[base.len() + i] == v);
                        assert(order.take((base + level@).len() as int)[base.len() + i] == v);
                    }
                    let q = choose|q: int| 0 <= q < order.len() && order[q] == v;
                    assert(reach@.contains(order[q]));
                    let k = choose|k: int| 0 <= k < reach@.len() && reach@[k] == v;
                    assert(v < n);
                }
                ranked.set(v, true);
                proof {
                    assert forall|w: usize| w < n implies (#[trigger] ranked@[w as int] <==> (base + level@.take(i + 1)).contains(w)) by {
                        assert(level@.take(i + 1) == level@.take(i as int).push(v));
                        assert(base + level@.take(i + 1) == (base + level@.take(i as int)).push(v));
                        if (base + level@.take(i as int)).push(v).contains(w) && w != v {
                            let m = choose|m: int| 0 <= m < (base + level@.take(i as int)).push(v).len() && (base + level@.take(i as int)).push(v)[m] == w;
                            assert((base + level@.take(i as int))[m] == w);
                        }
                        if w == v {
                            assert((base + level@.take(i as int)).push(v)[(base + level@.take(i as int)).len() as int] == v);
                        } else if (base + level@.take(i as int)).contains(w) {
                            let m = choose|m: int| 0 <= m < (base + level@.take(i as int)).len() && (base + level@.take(i as int))[m] == w;
                            assert((base + level@.take(i as int)).push(v)[m] == w);
                        }
                    }
                }
                i = i + 1;
            }
            proof {
                assert(level@.take(level@.len() as int) =~= level@);
                crate::engine::levels::lemma_concat_prefix(lists_of(lv@), l as int);
            }
            l = l + 1;
        }
        proof {
            assert(lists_of(lv@).take(lv@.len() as int) =~= lists_of(lv@));
        }
        let mut k: usize = 0;
        while k < reach.len()
            invariant
                g.wf(),
                n == g.node_seq().len(),
                k <= reach@.len(),
                ranked@.len() == n,
                is_closed_set(ga, n as int, reach@),
                forall|v: usize| v < n ==> (#[trigger] ranked@[v as int] <==> order.contains(v)),
                forall|m: int| 0 <= m < k ==> order.contains(#[trigger] reach@[m]),
                *g == graph.inner(),
                g.names().contains_key(start_name()),
                g.names()[start_name()] == s,
                is_visit_order(*g, s, reach@),
                is_closed(*g, reach@),
                same_succ(*g, ga),
                is_level_ranking(ga, reach@, lists_of(lv@)),
                levels_tight(ga, lists_of(lv@)),
                order == concat_levels(lists_of(lv@)),
            decreases reach@.len() - k,
        {
            let v = reach[k];
            if !ranked[v] {
                proof {
                    assert(!covers(reach@, order));
                }
                let mut msg = String::new();
                crate::text::push_str(&mut msg, "Graph contains cycles");
                return Err(LangGraphError::Engine(ExecutionError::NodeExecutionFailed(msg)));
            }
            k = k + 1;
        }
        proof {
            assert forall|v: usize| reach@.contains(v) implies order.contains(v) by {
                let m = choose|m: int| 0 <= m < reach@.len() && reach@[m] == v;
            }
            assert(covers(reach@, order));
        }
        let mut levels: Vec<Vec<String>> = Vec::new();
        let mut l: usize = 0;
        while l < lv.len()
            invariant
                g.wf(),
                n == g.node_seq().len(),
                l <= lv@.len(),
                is_level_ranking(ga, reach@, lists_of(lv@)),
                levels_tight(ga, lists_of(lv@)),
                is_closed_set(ga, n as int, reach@),
                level_strings(levels@) == level_names(*g, lists_of(lv@)).take(l as int),
            decreases lv@.len() - l,
        {
            let level = &lv[l];
            proof {
                assert forall|i: int| 0 <= i < level@.len() implies (#[trigger] level@[i]) < g.node_seq().len() by {
                    crate::engine::levels::lemma_concat_prefix(lists_of(lv@), l as int);
                    crate::engine::levels::lemma_concat_prefix(lists_of(lv@), l + 1);
                    let base = concat_levels(lists_of(lv@).take(l as int));
                    assert(lists_of(lv@)[l as int] == level@);
                    assert((base + level@)[base.len() + i] == level@[i]);
                    assert(concat_levels(lists_of(lv@)).take((base + level@).len() as int)[base.len() + i] == level@[i]);
                    let v = level@[i];
                    assert(concat_levels(lists_of(lv@)).contains(v));
                    let q = choose|q: int| 0 <= q < concat_levels(lists_of(lv@)).len() && concat_levels(lists_of(lv@))[q] == v;
                    assert(reach@.contains(concat_levels(lists_of(lv@))[q]));
                    let kk = choose|kk: int| 0 <= kk < reach@.len() && reach@[kk] == v;
                }
            }
            let names = crate::engine::traversal::names_of(g, level);
            let ghost before = levels@;
            levels.push(names);
            proof {
                assert(level_strings(levels@) =~= level_names(*g, lists_of(lv@)).take(l + 1)) by {
                    assert(level_strings(levels@).drop_last() =~= level_strings(before));
                    assert(strings_view(names@) =~= level_names(*g, lists_of(lv@))[l as int]);
                }
            }
            l = l + 1;
        }
        let a = DependencyAnalyzer { levels };
        proof {
            assert(level_names(*g, lists_of(lv@)).take(lv@.len() as int) =~= level_names(*g, lists_of(lv@)));
            assert(!has_member_cycle(ga, reach@));
        }
        Ok(a)
    }

    /// The nodes of level `level`, which can run together.
    pub fn get_parallel_batch(&self, level: usize) -> (r: Option<&Vec<String>>)
        ensures
            level < self.levels_view().len() ==> (r matches Some(v) && strings_view(v@)
                == self.levels_view()[level as int]),
            level >= self.levels_view().len() ==> r is None,
    {
        if level < self.levels.len() {
            Some(&self.levels[level])
        } else {
            None
        }
    }

    /// The number of levels.
    pub fn num_levels(&self) -> (n: usize)
        ensures
            n == self.levels_view().len(),
    {
        self.levels.len()
    }
}

} // verus!
