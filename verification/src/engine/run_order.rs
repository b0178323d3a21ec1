//! The order in which a run takes its nodes does not change what it does:
//! node effects commute, so any two orders of the same names end alike.
use vstd::prelude::*;
use crate::graph::{StateGraph, Node};
use crate::json::JsonModel;
use crate::graph::{start_name, end_name};
use crate::engine::executor::{run_step, run_all, ends_as_run};
use crate::error::LangGraphError;
use crate::state::{StateData, state_model};
use crate::engine::node_executor::{node_effect, node_fails};
use crate::engine::traversal::{is_full_named_topo, order_names, absent_specials, lemma_full_topo_members};

verus! {

/// The key a collecting agent writes.
pub open spec fn data_key(id: Seq<char>) -> Seq<char> {
    id + "_data"@
}

/// The key a conditional node writes.
pub open spec fn conditional_key(id: Seq<char>) -> Seq<char> {
    "conditional_"@ + id + "_executed"@
}

/// The key a subgraph node writes.
pub open spec fn subgraph_key(id: Seq<char>) -> Seq<char> {
    "subgraph_"@ + id + "_executed"@
}

/// The key a custom node writes.
pub open spec fn custom_key(id: Seq<char>) -> Seq<char> {
    "custom_"@ + id + "_executed"@
}

/// Equal texts with the same fixed prefix and suffix have equal middles.
proof fn lemma_middle(p: Seq<char>, a: Seq<char>, b: Seq<char>, q: Seq<char>)
    requires
        p + a + q == p + b + q,
    ensures
        a == b,
{
    let x = p + a + q;
    let y = p + b + q;
    assert(x.len() == y.len());
    assert(a =~= x.subrange(p.len() as int, (p.len() + a.len()) as int));
    assert(b =~= y.subrange(p.len() as int, (p.len() + b.len()) as int));
}

/// The keys that nodes write differ from one another and from the fixed
/// keys wherever their kinds or their ids differ.
proof fn lemma_keys_apart(a: Seq<char>, b: Seq<char>)
    ensures
        data_key(a) != conditional_key(b),
        data_key(a) != subgraph_key(b),
        data_key(a) != custom_key(b),
        conditional_key(a) != subgraph_key(b),
        conditional_key(a) != custom_key(b),
        subgraph_key(a) != custom_key(b),
        data_key(a) != "agent_executed"@,
        conditional_key(a) != "agent_executed"@,
        subgraph_key(a) != "agent_executed"@,
        custom_key(a) != "agent_executed"@,
        data_key(a) != "aggregated_result"@,
        conditional_key(a) != "aggregated_result"@,
        subgraph_key(a) != "aggregated_result"@,
        custom_key(a) != "aggregated_result"@,
        data_key(a) != "counter"@,
        data_key(a) != "execution_count"@,
        conditional_key(a) != "counter"@,
        conditional_key(a) != "execution_count"@,
        subgraph_key(a) != "counter"@,
        subgraph_key(a) != "execution_count"@,
        custom_key(a) != "counter"@,
        custom_key(a) != "execution_count"@,
        "agent_executed"@ != "counter"@,
        "agent_executed"@ != "execution_count"@,
        "aggregated_result"@ != "counter"@,
        "aggregated_result"@ != "execution_count"@,
        "aggregated_result"@ != "agent_executed"@,
        "counter"@ != "execution_count"@,
        data_key(a) == data_key(b) ==> a == b,
        conditional_key(a) == conditional_key(b) ==> a == b,
        subgraph_key(a) == subgraph_key(b) ==> a == b,
        custom_key(a) == custom_key(b) ==> a == b,
{
    reveal_strlit("_data");
    reveal_strlit("_executed");
    reveal_strlit("conditional_");
    reveal_strlit("subgraph_");
    reveal_strlit("custom_");
    reveal_strlit("agent_executed");
    reveal_strlit("aggregated_result");
    reveal_strlit("counter");
    reveal_strlit("execution_count");
    let da = data_key(a);
    let ca = conditional_key(a);
    let sa = subgraph_key(a);
    let ua = custom_key(a);
    let cb = conditional_key(b);
    let sb = subgraph_key(b);
    let ub = custom_key(b);
    assert(da[da.len() - 1] == 'a');
    assert(ca[ca.len() - 1] == 'd');
    assert(sa[sa.len() - 1] == 'd');
    assert(ua[ua.len() - 1] == 'd');
    assert(cb[cb.len() - 1] == 'd');
    assert(sb[sb.len() - 1] == 'd');
    assert(ub[ub.len() - 1] == 'd');
    assert(ca[0] == 'c' && ca[1] == 'o');
    assert(sa[0] == 's');
    assert(ua[0] == 'c' && ua[1] == 'u');
    assert(sb[0] == 's');
    assert(ub[0] == 'c' && ub[1] == 'u');
    assert("agent_executed"@[0] == 'a');
    assert("aggregated_result"@[0] == 'a');
    assert("agent_executed"@[2] == 'e');
    assert("aggregated_result"@[2] == 'g');
    assert("counter"@[6] == 'r');
    assert("execution_count"@[14] == 't');
    assert("aggregated_result"@[16] == 't');
    assert("agent_executed"@[13] == 'd');
    assert("counter"@.len() != "execution_count"@.len());
    assert("counter"@.len() != "agent_executed"@.len());
    assert("execution_count"@.len() != "agent_executed"@.len());
    assert("counter"@.len() != "aggregated_result"@.len());
    assert("execution_count"@.len() != "aggregated_result"@.len());
    if da == data_key(b) {
        lemma_middle(Seq::empty(), a, b, "_data"@);
        assert(Seq::<char>::empty() + a =~= a);
        assert(Seq::<char>::empty() + b =~= b);
    }
    if ca == cb {
        lemma_middle("conditional_"@, a, b, "_executed"@);
    }
    if sa == sb {
        lemma_middle("subgraph_"@, a, b, "_executed"@);
    }
    if ua == ub {
        lemma_middle("custom_"@, a, b, "_executed"@);
    }
}

/// Nodes with different ids do the same to a state in either order.
pub proof fn lemma_effects_commute(a: Node, b: Node, m: Map<Seq<char>, JsonModel>)
    requires
        a.id@ != b.id@,
    ensures
        node_effect(a, node_effect(b, m)) == node_effect(b, node_effect(a, m)),
{
    lemma_keys_apart(a.id@, b.id@);
    lemma_keys_apart(b.id@, a.id@);
    assert(node_effect(a, node_effect(b, m)) =~= node_effect(b, node_effect(a, m)));
}

/// Running the node named `name` after `o`, where `o` did not stop the run.
pub open spec fn then_step(g: StateGraph, o: Option<Map<Seq<char>, JsonModel>>, name: Seq<char>) -> Option<
    Map<Seq<char>, JsonModel>,
> {
    match o {
        Some(m1) => run_step(g, name, m1),
        None => None,
    }
}

/// Running the nodes named `names` after `o`, where `o` did not stop the
/// run.
pub open spec fn then_all(g: StateGraph, o: Option<Map<Seq<char>, JsonModel>>, names: Seq<Seq<char>>) -> Option<
    Map<Seq<char>, JsonModel>,
> {
    match o {
        Some(m1) => run_all(g, names, m1),
        None => None,
    }
}

/// Two names run one after the other end alike in either order.
pub proof fn lemma_steps_commute(g: StateGraph, x: Seq<char>, y: Seq<char>, m: Map<Seq<char>, JsonModel>)
    requires
        g.wf(),
    ensures
        then_step(g, run_step(g, x, m), y) == then_step(g, run_step(g, y, m), x),
{
    let special_x = x == start_name() || x == end_name();
    let special_y = y == start_name() || y == end_name();
    if x != y && !special_x && !special_y && g.names().contains_key(x) && g.names().contains_key(y) {
        g.lemma_named_node_id(x);
        g.lemma_named_node_id(y);
        let nx = g.node_seq()[g.names()[x] as int];
        let ny = g.node_seq()[g.names()[y] as int];
        if !node_fails(nx) && !node_fails(ny) {
            lemma_effects_commute(nx, ny, m);
        }
    }
}

/// Running `p` then `q` is running `p`, then `q` on what it gave.
pub proof fn lemma_run_all_append(g: StateGraph, p: Seq<Seq<char>>, q: Seq<Seq<char>>, m: Map<Seq<char>, JsonModel>)
    ensures
        run_all(g, p + q, m) == then_all(g, run_all(g, p, m), q),
    decreases q.len(),
{
    if q.len() == 0 {
        assert(p + q =~= p);
    } else {
        lemma_run_all_append(g, p, q.drop_last(), m);
        assert((p + q).drop_last() =~= p + q.drop_last());
        assert((p + q).last() == q.last());
    }
}

/// Swapping two neighbouring names leaves what a run does unchanged.
pub proof fn lemma_swap(g: StateGraph, p: Seq<Seq<char>>, x: Seq<char>, y: Seq<char>, s: Seq<Seq<char>>, m: Map<Seq<char>, JsonModel>)
    requires
        g.wf(),
    ensures
        run_all(g, p + seq![x, y] + s, m) == run_all(g, p + seq![y, x] + s, m),
{
    lemma_run_all_append(g, p + seq![x, y], s, m);
    lemma_run_all_append(g, p + seq![y, x], s, m);
    lemma_run_all_append(g, p, seq![x, y], m);
    lemma_run_all_append(g, p, seq![y, x], m);
    match run_all(g, p, m) {
        Some(m1) => {
            assert(seq![x, y].drop_last() =~= seq![x]);
            assert(seq![y, x].drop_last() =~= seq![y]);
            assert(seq![x].drop_last() =~= Seq::<Seq<char>>::empty());
            assert(seq![y].drop_last() =~= Seq::<Seq<char>>::empty());
            assert(run_all(g, Seq::<Seq<char>>::empty(), m1) == Some(m1));
            assert(seq![x].last() == x && seq![y].last() == y);
            assert(seq![x, y].last() == y && seq![y, x].last() == x);
            assert(run_all(g, seq![x], m1) == run_step(g, x, m1));
            assert(run_all(g, seq![y], m1) == run_step(g, y, m1));
            assert(run_all(g, seq![x, y], m1) == then_step(g, run_all(g, seq![x], m1), y));
            assert(run_all(g, seq![y, x], m1) == then_step(g, run_all(g, seq![y], m1), x));
            lemma_steps_commute(g, x, y, m1);
            assert(run_all(g, seq![x, y], m1) == run_all(g, seq![y, x], m1));
        },
        None => {},
    }
}

/// Moving a name past the names after it leaves what a run does unchanged.
pub proof fn lemma_move_to_end(g: StateGraph, a: Seq<Seq<char>>, x: Seq<char>, b: Seq<Seq<char>>, m: Map<Seq<char>, JsonModel>)
    requires
        g.wf(),
    ensures
        run_all(g, a + seq![x] + b, m) == run_all(g, a + b + seq![x], m),
    decreases b.len(),
{
    if b.len() == 0 {
        assert(a + seq![x] + b =~= a + b + seq![x]);
    } else {
        let b0 = b[0];
        let rest = b.drop_first();
        assert(a + seq![x] + b =~= a + seq![x, b0] + rest);
        lemma_swap(g, a, x, b0, rest, m);
        assert(a + seq![b0, x] + rest =~= (a + seq![b0]) + seq![x] + rest);
        lemma_move_to_end(g, a + seq![b0], x, rest, m);
        assert((a + seq![b0]) + rest + seq![x] =~= a + b + seq![x]);
    }
}

/// Two orders of the same nodes, each listing them once, run alike.
pub proof fn lemma_same_members_run_alike(g: StateGraph, o1: Seq<usize>, o2: Seq<usize>, m: Map<Seq<char>, JsonModel>)
    requires
        g.wf(),
        o1.no_duplicates(),
        o2.no_duplicates(),
        forall|x: usize| o1.contains(x) <==> o2.contains(x),
    ensures
        run_all(g, order_names(g, o1), m) == run_all(g, order_names(g, o2), m),
    decreases o1.len(),
{
    if o1.len() == 0 {
        if o2.len() > 0 {
            assert(o2.contains(o2[0]));
        }
        assert(order_names(g, o1) =~= order_names(g, o2));
    } else {
        let x = o1.last();
        assert(o1.contains(x));
        let j = choose|j: int| 0 <= j < o2.len() && o2[j] == x;
        let o1r = o1.drop_last();
        let o2r = o2.remove(j);
        assert forall|y: usize| o1r.contains(y) <==> o2r.contains(y) by {
            if o1r.contains(y) {
                let k = choose|k: int| 0 <= k < o1r.len() && o1r[k] == y;
                assert(o1[k] == y);
                assert(y != x);
                assert(o2.contains(y));
                let i = choose|i: int| 0 <= i < o2.len() && o2[i] == y;
                assert(i != j);
                if i < j {
                    assert(o2r[i] == y);
                } else {
                    assert(o2r[i - 1] == y);
                }
            }
            if o2r.contains(y) {
                let k = choose|k: int| 0 <= k < o2r.len() && o2r[k] == y;
                let i = if k < j { k } else { k + 1 };
                assert(o2[i] == y);
                assert(i != j);
                assert(y != x);
                assert(o1.contains(y));
                let i1 = choose|i1: int| 0 <= i1 < o1.len() && o1[i1] == y;
                assert(i1 != o1.len() - 1);
                assert(o1r[i1] == y);
            }
        }
        assert(o2r.no_duplicates()) by {
            assert forall|a: int, b: int| 0 <= a < b < o2r.len() implies o2r[a] != o2r[b] by {
                let ia = if a < j { a } else { a + 1 };
                let ib = if b < j { b } else { b + 1 };
                assert(o2r[a] == o2[ia]);
                assert(o2r[b] == o2[ib]);
            }
        }
        lemma_same_members_run_alike(g, o1r, o2r, m);
        let n2 = order_names(g, o2);
        let nx = g.node_seq()[x as int].id@;
        assert(n2 =~= n2.take(j) + seq![nx] + n2.skip(j + 1));
        lemma_move_to_end(g, n2.take(j), nx, n2.skip(j + 1), m);
        assert(order_names(g, o2r) =~= n2.take(j) + n2.skip(j + 1));
        assert(order_names(g, o1) =~= order_names(g, o1r).push(nx));
        assert(order_names(g, o1).drop_last() =~= order_names(g, o1r));
        let t = order_names(g, o2r) + seq![nx];
        assert(t.drop_last() =~= order_names(g, o2r));
        assert(t.last() == nx);
    }
}

/// Any two topological orders by name that list every node reached run
/// alike: running the graph ends in the same state, or stops, whichever
/// of them is taken.
pub proof fn lemma_full_orders_run_alike(g: StateGraph, v: Seq<Seq<char>>, w: Seq<Seq<char>>, m: Map<Seq<char>, JsonModel>)
    requires
        g.wf(),
        is_full_named_topo(g, v),
        is_full_named_topo(g, w),
    ensures
        run_all(g, v, m) == run_all(g, w, m),
{
    let (o1, o2) = lemma_full_topo_members(g, v, w);
    let pre = absent_specials(g);
    lemma_run_all_append(g, pre, order_names(g, o1), m);
    lemma_run_all_append(g, pre, order_names(g, o2), m);
    match run_all(g, pre, m) {
        Some(m1) => {
            lemma_same_members_run_alike(g, o1, o2, m1);
        },
        None => {},
    }
}

/// Two runs of a graph, each ending as running one of its full topological
/// orders ends, end alike: both succeed with the same state, or both fail.
/// So a run with interrupts in which every decision is to continue (and a
/// run in which no node asks for a decision) ends where the plain run of
/// the graph ends.
pub proof fn lemma_runs_end_alike(
    g: StateGraph,
    v: Seq<Seq<char>>,
    w: Seq<Seq<char>>,
    m: Map<Seq<char>, JsonModel>,
    r1: Result<StateData, LangGraphError>,
    r2: Result<StateData, LangGraphError>,
)
    requires
        g.wf(),
        is_full_named_topo(g, v),
        is_full_named_topo(g, w),
        ends_as_run(g, v, m, r1),
        ends_as_run(g, w, m, r2),
    ensures
        match (r1, r2) {
            (Ok(s1), Ok(s2)) => state_model(s1) == state_model(s2),
            (Err(_), Err(_)) => true,
            _ => false,
        },
{
    lemma_full_orders_run_alike(g, v, w, m);
}

} // verus!
