//! Conditional edges: routing to the first branch, by priority, whose
//! condition holds of the state.
use vstd::prelude::*;
use crate::error::LangGraphError;
use crate::graph::GraphError;
use crate::json::JsonValue;
use crate::state::StateData;
use crate::text::{concat_str, str_eq};

verus! {

/// A branch of a conditional edge.
pub struct ConditionalBranch<F> {
    /// Target node ID
    pub target: String,
    /// Condition that must hold to take this branch
    pub condition: F,
    /// Optional priority (higher is evaluated first)
    pub priority: Option<i32>,
    /// Optional metadata
    pub metadata: Option<JsonValue>,
}

/// A branch's priority; none counts as 0.
pub open spec fn rank<F>(b: ConditionalBranch<F>) -> i32 {
    match b.priority {
        Some(p) => p,
        None => 0,
    }
}

fn rank_of<F>(b: &ConditionalBranch<F>) -> (r: i32)
    ensures
        r == rank(*b),
{
    match b.priority {
        Some(p) => p,
        None => 0,
    }
}

/// Whether the branches are in priority order, highest first.
pub open spec fn by_priority<F>(s: Seq<ConditionalBranch<F>>) -> bool {
    forall|i: int, j: int| 0 <= i < j < s.len() ==> rank(#[trigger] s[i]) >= rank(#[trigger] s[j])
}

/// Where a branch of priority `p` goes: after every leading branch whose
/// priority is at least `p`.
pub open spec fn slot<F>(s: Seq<ConditionalBranch<F>>, p: i32) -> int
    decreases s.len(),
{
    if s.len() == 0 {
        0
    } else if rank(s[0]) >= p {
        1 + slot(s.drop_first(), p)
    } else {
        0
    }
}

proof fn lemma_slot<F>(s: Seq<ConditionalBranch<F>>, p: i32)
    ensures
        0 <= slot(s, p) <= s.len(),
        forall|i: int| 0 <= i < slot(s, p) ==> rank(#[trigger] s[i]) >= p,
        slot(s, p) < s.len() ==> rank(s[slot(s, p)]) < p,
    decreases s.len(),
{
    if s.len() > 0 && rank(s[0]) >= p {
        lemma_slot(s.drop_first(), p);
        assert forall|i: int| 0 <= i < slot(s, p) implies rank(#[trigger] s[i]) >= p by {
            if i > 0 {
                assert(s[i] == s.drop_first()[i - 1]);
            }
        }
    }
}

/// Whether every condition of the branches may be asked of `state`.
pub open spec fn askable<F: Fn(&StateData) -> bool>(s: Seq<ConditionalBranch<F>>, state: StateData) -> bool {
    forall|i: int| 0 <= i < s.len() ==> call_requires(#[trigger] s[i].condition, (&state,))
}

/// A conditional edge out of a node.
pub struct ConditionalEdge<F> {
    /// Source node ID
    pub from: String,
    /// The branches, highest priority first
    pub branches: Vec<ConditionalBranch<F>>,
    /// Default target if no condition holds
    pub default: Option<String>,
}

impl<F: Fn(&StateData) -> bool> ConditionalEdge<F> {
    /// An edge out of `from` with no branches and no default.
    pub fn new(from: String) -> (e: ConditionalEdge<F>)
        ensures
            e.from == from,
            e.branches@.len() == 0,
            e.default is None,
    {
        ConditionalEdge { from, branches: Vec::new(), default: None }
    }

    /// Adds a branch to `to` under `condition` with `priority`, after every
    /// leading branch of at least that priority, so that branches built up
    /// this way stay in priority order with ties in the order they came.
    pub fn add_branch(self, to: String, condition: F, priority: i32) -> (e: ConditionalEdge<F>)
        ensures
            e.from == self.from,
            e.default == self.default,
            e.branches@ == self.branches@.insert(
                slot(self.branches@, priority),
                ConditionalBranch { target: to, condition, priority: Some(priority), metadata: None },
            ),
            by_priority(self.branches@) ==> by_priority(e.branches@),
    {
        let mut edge = self;
        let ghost old_branches = edge.branches@;
        proof {
            lemma_slot(old_branches, priority);
        }
        let mut pos: usize = 0;
        assert(old_branches.skip(0) =~= old_branches);
        while pos < edge.branches.len() && rank_of(&edge.branches[pos]) >= priority
            invariant
                pos <= edge.branches@.len(),
                edge.branches@ == old_branches,
                forall|i: int| 0 <= i < pos ==> rank(#[trigger] old_branches[i]) >= priority,
                slot(old_branches, priority) >= pos,
                slot(old_branches, priority) == pos + slot(old_branches.skip(pos as int), priority),
            decreases edge.branches@.len() - pos,
        {
            assert(old_branches.skip(pos as int).drop_first() =~= old_branches.skip(pos + 1));
            assert(old_branches.skip(pos as int)[0] == old_branches[pos as int]);
            assert(slot(old_branches.skip(pos as int), priority) == 1 + slot(old_branches.skip(pos + 1), priority));
            proof {
                lemma_slot(old_branches.skip(pos + 1), priority);
            }
            pos = pos + 1;
        }
        proof {
            if pos < old_branches.len() {
                assert(old_branches.skip(pos as int)[0] == old_branches[pos as int]);
            } else {
                assert(old_branches.skip(pos as int).len() == 0);
            }
        }
        let ghost b = ConditionalBranch { target: to, condition, priority: Some(priority), metadata: None };
        edge.branches.insert(pos, ConditionalBranch { target: to, condition, priority: Some(priority), metadata: None });
        proof {
            let t = edge.branches@;
            assert(t == old_branches.insert(pos as int, b));
            if by_priority(old_branches) {
                assert forall|i: int, j: int| 0 <= i < j < t.len() implies rank(#[trigger] t[i]) >= rank(#[trigger] t[j]) by {
                    if j < pos {
                    } else if j == pos {
                    } else if i < pos {
                        assert(t[j] == old_branches[j - 1]);
                        assert(rank(old_branches[i]) >= rank(old_branches[j - 1]));
                    } else if i == pos {
                        assert(t[j] == old_branches[j - 1]);
                        assert(rank(old_branches[pos as int]) < priority);
                        assert(rank(old_branches[pos as int]) >= rank(old_branches[j - 1]));
                    } else {
                        assert(t[i] == old_branches[i - 1]);
                        assert(t[j] == old_branches[j - 1]);
                    }
                }
            }
        }
        edge
    }

    /// Sets the default target.
    pub fn with_default(self, default: String) -> (e: ConditionalEdge<F>)
        ensures
            e.from == self.from,
            e.branches == self.branches,
            e.default == Some(default),
    {
        let mut edge = self;
        edge.default = Some(default);
        edge
    }

    /// The target of the first branch, in order, whose condition holds of
    /// `state`; the default where none holds; an edge error where there is
    /// no default either.
    pub fn evaluate(&self, state: &StateData) -> (r: Result<String, LangGraphError>)
        requires
            askable(self.branches@, *state),
        ensures
            match r {
                Ok(t) => (exists|i: int|
                    0 <= i < self.branches@.len() && t@ == self.branches@[i].target@
                        && call_ensures(self.branches@[i].condition, (state,), true)
                        && forall|j: int| 0 <= j < i ==> call_ensures(#[trigger] self.branches@[j].condition, (state,), false))
                    || ((forall|j: int| 0 <= j < self.branches@.len() ==> call_ensures(#[trigger] self.branches@[j].condition, (state,), false))
                        && self.default is Some && t@ == self.default->0@),
                Err(e) => (forall|j: int| 0 <= j < self.branches@.len() ==> call_ensures(#[trigger] self.branches@[j].condition, (state,), false))
                    && self.default is None
                    && e == LangGraphError::Graph(GraphError::EdgeError(e->Graph_0->EdgeError_0))
                    && e->Graph_0->EdgeError_0@ == "No matching condition for edge from "@ + self.from@,
            },
    {
        let mut i: usize = 0;
        while i < self.branches.len()
            invariant
                i <= self.branches@.len(),
                askable(self.branches@, *state),
                forall|j: int| 0 <= j < i ==> call_ensures(#[trigger] self.branches@[j].condition, (state,), false),
            decreases self.branches@.len() - i,
        {
            let holds = (self.branches[i].condition)(state);
            if holds {
                return Ok(self.branches[i].target.clone());
            }
            i = i + 1;
        }
        match &self.default {
            Some(d) => Ok(d.clone()),
            None => Err(
                LangGraphError::Graph(
                    GraphError::EdgeError(concat_str("No matching condition for edge from ", self.from.as_str())),
                ),
            ),
        }
    }
}

/// Routes by the conditional edges of several nodes.
pub struct ConditionalRouter<F> {
    /// Source node for this router
    pub from: String,
    /// The conditional edges, in the order they were added
    pub edges: Vec<ConditionalEdge<F>>,
}

impl<F: Fn(&StateData) -> bool> ConditionalRouter<F> {
    /// A router with no edges.
    pub fn new(from: String) -> (r: ConditionalRouter<F>)
        ensures
            r.from == from,
            r.edges@.len() == 0,
    {
        ConditionalRouter { from, edges: Vec::new() }
    }

    /// Adds a conditional edge last.
    pub fn add_edge(self, edge: ConditionalEdge<F>) -> (r: ConditionalRouter<F>)
        ensures
            r.from == self.from,
            r.edges@ == self.edges@.push(edge),
    {
        let mut router = self;
        router.edges.push(edge);
        router
    }

    /// Routes out of `from`: evaluates the first edge out of it; an edge
    /// error where there is none.
    pub fn route(&self, from: &str, state: &StateData) -> (r: Result<String, LangGraphError>)
        requires
            forall|i: int| 0 <= i < self.edges@.len() ==> askable(#[trigger] self.edges@[i].branches@, *state),
        ensures
            (forall|i: int| 0 <= i < self.edges@.len() ==> #[trigger] self.edges@[i].from@ != from@) ==> r
                == Err::<String, LangGraphError>(LangGraphError::Graph(GraphError::EdgeError(r->Err_0->Graph_0->EdgeError_0)))
                && r->Err_0->Graph_0->EdgeError_0@ == "No conditional edge from "@ + from@,
            (exists|i: int| 0 <= i < self.edges@.len() && #[trigger] self.edges@[i].from@ == from@) ==> exists|i: int|
                0 <= i < self.edges@.len() && self.edges@[i].from@ == from@
                    && (forall|j: int| 0 <= j < i ==> #[trigger] self.edges@[j].from@ != from@)
                    && match r {
                        Ok(t) => (exists|k: int|
                            0 <= k < self.edges@[i].branches@.len() && t@ == self.edges@[i].branches@[k].target@
                                && call_ensures(self.edges@[i].branches@[k].condition, (state,), true)
                                && forall|j: int| 0 <= j < k ==> call_ensures(#[trigger] self.edges@[i].branches@[j].condition, (state,), false))
                            || ((forall|j: int| 0 <= j < self.edges@[i].branches@.len() ==> call_ensures(#[trigger] self.edges@[i].branches@[j].condition, (state,), false))
                                && self.edges@[i].default is Some && t@ == self.edges@[i].default->0@),
                        Err(e) => (forall|j: int| 0 <= j < self.edges@[i].branches@.len() ==> call_ensures(#[trigger] self.edges@[i].branches@[j].condition, (state,), false))
                            && self.edges@[i].default is None
                            && e->Graph_0->EdgeError_0@ == "No matching condition for edge from "@ + self.edges@[i].from@,
                    },
    {
        let mut i: usize = 0;
        while i < self.edges.len()
            invariant
                i <= self.edges@.len(),
                forall|j: int| 0 <= j < self.edges@.len() ==> askable(#[trigger] self.edges@[j].branches@, *state),
                forall|j: int| 0 <= j < i ==> #[trigger] self.edges@[j].from@ != from@,
            decreases self.edges@.len() - i,
        {
            if str_eq(self.edges[i].from.as_str(), from) {
                return self.edges[i].evaluate(state);
            }
            i = i + 1;
        }
        Err(LangGraphError::Graph(GraphError::EdgeError(concat_str("No conditional edge from ", from))))
    }

    /// The target of the first of `branches` whose condition holds of `state`.
    pub fn route_with_branches(&self, state: &StateData, branches: Vec<ConditionalBranch<F>>) -> (r: Option<String>)
        requires
            askable(branches@, *state),
        ensures
            match r {
                Some(t) => exists|i: int|
                    0 <= i < branches@.len() && t@ == branches@[i].target@
                        && call_ensures(branches@[i].condition, (state,), true)
                        && forall|j: int| 0 <= j < i ==> call_ensures(#[trigger] branches@[j].condition, (state,), false),
                None => forall|j: int| 0 <= j < branches@.len() ==> call_ensures(#[trigger] branches@[j].condition, (state,), false),
            },
    {
        let mut i: usize = 0;
        while i < branches.len()
            invariant
                i <= branches@.len(),
                askable(branches@, *state),
                forall|j: int| 0 <= j < i ==> call_ensures(#[trigger] branches@[j].condition, (state,), false),
            decreases branches@.len() - i,
        {
            let holds = (branches[i].condition)(state);
            if holds {
                return Some(branches[i].target.clone());
            }
            i = i + 1;
        }
        None
    }
}

/// Routes by a function of the state that names the next node, among
/// valid targets.
pub struct MultiConditionalRouter<R> {
    /// Names the next node
    pub router: R,
    /// The valid targets
    pub valid_targets: Vec<String>,
}

impl<R: Fn(&StateData) -> String> MultiConditionalRouter<R> {
    /// A router by `router` among `valid_targets`.
    pub fn new(router: R, valid_targets: Vec<String>) -> (m: MultiConditionalRouter<R>)
        ensures
            m.router == router,
            m.valid_targets == valid_targets,
    {
        MultiConditionalRouter { router, valid_targets }
    }

    /// The node the router names, where it is a valid target; an edge
    /// error otherwise.
    pub fn route(&self, state: &StateData) -> (r: Result<String, LangGraphError>)
        requires
            call_requires(self.router, (state,)),
        ensures
            exists|t: String|
                call_ensures(self.router, (state,), t) && match r {
                    Ok(u) => u@ == t@ && exists|i: int| 0 <= i < self.valid_targets@.len() && #[trigger] self.valid_targets@[i]@ == t@,
                    Err(e) => (forall|i: int| 0 <= i < self.valid_targets@.len() ==> #[trigger] self.valid_targets@[i]@ != t@)
                        && e->Graph_0->EdgeError_0@ == "Invalid routing target: "@ + t@,
                },
    {
        let target = (self.router)(state);
        let ghost t = target;
        assert(call_ensures(self.router, (state,), t));
        let mut i: usize = 0;
        while i < self.valid_targets.len()
            invariant
                i <= self.valid_targets@.len(),
                t == target,
                call_ensures(self.router, (state,), t),
                forall|j: int| 0 <= j < i ==> #[trigger] self.valid_targets@[j]@ != target@,
            decreases self.valid_targets@.len() - i,
        {
            if str_eq(self.valid_targets[i].as_str(), target.as_str()) {
                assert(self.valid_targets@[i as int]@ == t@);
                return Ok(target);
            }
            i = i + 1;
        }
        Err(LangGraphError::Graph(GraphError::EdgeError(concat_str("Invalid routing target: ", target.as_str()))))
    }
}

} // verus!
