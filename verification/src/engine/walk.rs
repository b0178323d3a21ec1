//! Walking a graph from its `start` node along first edges until a target
//! node: the nodes that a run up to that node passes.
use vstd::prelude::*;
use crate::error::LangGraphError;
use crate::graph::{StateGraph, strings_view};
use crate::text::{str_eq, concat_str, push_str};

verus! {

/// The node a walk goes to after `name`: the target of the first edge that
/// leaves it, if any.
pub open spec fn walk_next(g: StateGraph, name: Seq<char>) -> Option<Seq<char>> {
    let s = g.successor_ids(name);
    if s.len() > 0 {
        Some(s[0])
    } else {
        None
    }
}

/// The message for a node the walk cannot find.
pub open spec fn missing_node_message(name: Seq<char>) -> Seq<char> {
    "Node '"@ + name + "' not found"@
}

/// The message for a walk that comes back to a node without reaching its
/// target.
pub open spec fn cycle_message() -> Seq<char> {
    "Walk returns to a node without reaching the target"@
}

/// The nodes a walk passes from `cur` toward `target`, with at most `fuel`
/// more moves: a node the graph lacks ends it with that node's message;
/// a node without leaving edges ends it; reaching the target ends it.
pub open spec fn walk(g: StateGraph, cur: Seq<char>, target: Seq<char>, fuel: nat) -> Result<
    Seq<Seq<char>>,
    Seq<char>,
>
    decreases fuel,
{
    if cur == target {
        Ok(Seq::empty())
    } else if !g.names().contains_key(cur) {
        Err(missing_node_message(cur))
    } else {
        match walk_next(g, cur) {
            None => Ok(seq![cur]),
            Some(nx) => if nx == target {
                Ok(seq![cur, nx])
            } else if fuel == 0 {
                Err(cycle_message())
            } else {
                match walk(g, nx, target, (fuel - 1) as nat) {
                    Ok(rest) => Ok(seq![cur] + rest),
                    Err(e) => Err(e),
                }
            },
        }
    }
}

/// The nodes passed on the way from the node named `start` to `target`,
/// following the first edge out of each node, the target included when it
/// is reached.  Fails with an execution error when there is no `start`
/// node, when a node on the way is missing, and when the walk comes back
/// to a node it passed (it would go round for ever).
pub fn walk_until(graph: &StateGraph, target: &str) -> (r: Result<Vec<String>, LangGraphError>)
    requires
        graph.wf(),
    ensures
        !graph.names().contains_key("start"@) ==> (r matches Err(LangGraphError::Execution(m)) && m@
            == "Start node not found"@),
        graph.names().contains_key("start"@) ==> match walk(
            *graph,
            "start"@,
            target@,
            graph.node_seq().len(),
        ) {
            Ok(names) => r matches Ok(v) && strings_view(v@) == names,
            Err(msg) => r matches Err(LangGraphError::Execution(m)) && m@ == msg,
        },
{
    if graph.get_node("start").is_none() {
        return Err(LangGraphError::Execution("Start node not found".to_string()));
    }
    let n = graph.node_count();
    let mut executed: Vec<String> = Vec::new();
    let mut current = "start".to_string();
    let mut fuel = n;
    let ghost total = walk(*graph, "start"@, target@, n as nat);
    loop
        invariant
            graph.wf(),
            graph.names().contains_key("start"@),
            n == graph.node_seq().len(),
            total == walk(*graph, "start"@, target@, n as nat),
            match walk(*graph, current@, target@, fuel as nat) {
                Ok(rest) => total == Ok::<Seq<Seq<char>>, Seq<char>>(strings_view(executed@) + rest),
                Err(e) => total == Err::<Seq<Seq<char>>, Seq<char>>(e),
            },
        decreases fuel,
    {
        if str_eq(current.as_str(), target) {
            assert(walk(*graph, current@, target@, fuel as nat) == Ok::<Seq<Seq<char>>, Seq<char>>(
                Seq::empty(),
            ));
            assert(strings_view(executed@) + Seq::<Seq<char>>::empty() =~= strings_view(executed@));
            return Ok(executed);
        }
        if graph.get_node(current.as_str()).is_none() {
            let mut msg = concat_str("Node '", current.as_str());
            push_str(&mut msg, "' not found");
            assert(msg@ =~= missing_node_message(current@));
            assert(walk(*graph, current@, target@, fuel as nat) == Err::<Seq<Seq<char>>, Seq<char>>(
                missing_node_message(current@),
            ));
            return Err(LangGraphError::Execution(msg));
        }
        let edges = graph.get_edges_from(current.as_str());
        let ghost sids = graph.successor_ids(current@);
        assert(edges@.len() == sids.len());
        if edges.len() == 0 {
            let ghost e0 = executed@;
            executed.push(current.clone());
            assert(strings_view(executed@) =~= strings_view(e0) + seq![current@]);
            return Ok(executed);
        }
        let next = edges[0].0.id.clone();
        assert(next@ == sids[0]);
        if str_eq(next.as_str(), target) {
            let ghost e0 = executed@;
            executed.push(current.clone());
            executed.push(next);
            assert(strings_view(executed@) =~= strings_view(e0) + seq![current@, sids[0]]);
            return Ok(executed);
        }
        if fuel == 0 {
            assert(walk(*graph, current@, target@, fuel as nat) == Err::<Seq<Seq<char>>, Seq<char>>(
                cycle_message(),
            ));
            return Err(LangGraphError::Execution(
                "Walk returns to a node without reaching the target".to_string(),
            ));
        }
        let ghost e0 = executed@;
        let ghost c0 = current@;
        executed.push(current);
        proof {
            assert(strings_view(executed@) =~= strings_view(e0) + seq![c0]);
            match walk(*graph, next@, target@, (fuel - 1) as nat) {
                Ok(rest) => {
                    assert(strings_view(e0) + (seq![c0] + rest) =~= strings_view(executed@) + rest);
                },
                Err(e) => {},
            }
        }
        current = next;
        fuel = fuel - 1;
    }
}

} // verus!
