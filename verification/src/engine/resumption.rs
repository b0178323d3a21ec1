//! Suspending workflows and resuming them from saved snapshots.
use vstd::prelude::*;
use crate::engine::executor::ExecutionStatus;
use crate::engine::state_inspector::{lemma_masked_all, lemma_masked_len, masked};
use crate::engine::tracing::new_uuid_string;
use crate::error::LangGraphError;
use crate::graph::strings_view;
use crate::json::{JsonModel, JsonValue};
use crate::keyed_map::StrMap;
use crate::state::{clone_state, state_model, StateData};
use crate::text::{copy_strings, str_eq};

verus! {

/// The canonical text of a UUID that `s` spells, if it spells one.
pub uninterp spec fn uuid_text(s: Seq<char>) -> Option<Seq<char>>;

/// `Uuid::parse_str`, written back by `to_string`: the hyphenated
/// lowercase form of the UUID that `s` spells, or none where it spells
/// none. The contract names the result.
#[verifier::external_body]
fn parse_uuid(s: &str) -> (r: Option<String>)
    ensures
        match r {
            Some(t) => uuid_text(s@) == Some(t@),
            None => uuid_text(s@) is None,
        },
{
    match uuid::Uuid::parse_str(s) {
        Ok(u) => Some(u.to_string()),
        Err(_) => None,
    }
}

/// A saved point of a workflow's execution. The timestamp is in
/// milliseconds since the Unix epoch.
#[derive(Debug)]
pub struct WorkflowSnapshot {
    /// Unique identifier
    pub id: String,
    /// The execution it belongs to
    pub execution_id: String,
    /// The graph's name
    pub graph_name: String,
    /// The last node that completed
    pub last_completed_node: String,
    /// The node to resume at, where known
    pub next_node: Option<String>,
    /// The state
    pub state: StateData,
    /// The nodes completed before the last one, in order
    pub execution_path: Vec<String>,
    /// When it was saved
    pub timestamp: i64,
    /// Additional metadata
    pub metadata: JsonValue,
}

/// What a snapshot records.
pub open spec fn workflow_view(s: WorkflowSnapshot) -> (Seq<char>, Seq<char>, Seq<char>, Seq<char>, Option<Seq<char>>, Map<Seq<char>, JsonModel>, Seq<Seq<char>>, i64, JsonModel) {
    (
        s.id@,
        s.execution_id@,
        s.graph_name@,
        s.last_completed_node@,
        match s.next_node {
            Some(n) => Some(n@),
            None => None,
        },
        state_model(s.state),
        strings_view(s.execution_path@),
        s.timestamp,
        s.metadata@,
    )
}

/// What each snapshot of a list records.
pub open spec fn workflows_view(s: Seq<WorkflowSnapshot>) -> Seq<(Seq<char>, Seq<char>, Seq<char>, Seq<char>, Option<Seq<char>>, Map<Seq<char>, JsonModel>, Seq<Seq<char>>, i64, JsonModel)> {
    Seq::new(s.len(), |i: int| workflow_view(s[i]))
}

impl WorkflowSnapshot {
    /// A snapshot of `state` after `last_node` of an execution, taken now,
    /// with a fresh id, no path and empty metadata.
    pub fn new(execution_id: String, graph_name: String, last_node: String, state: StateData) -> (s: WorkflowSnapshot)
        ensures
            s.id@.len() == 36,
            s.execution_id == execution_id,
            s.graph_name == graph_name,
            s.last_completed_node == last_node,
            s.next_node is None,
            s.state == state,
            s.execution_path@.len() == 0,
            s.metadata@ == JsonModel::Object(Seq::empty()),
    {
        let metadata = JsonValue::Object(Vec::new());
        assert(metadata@->Object_0 =~= Seq::<(Seq<char>, JsonModel)>::empty());
        WorkflowSnapshot {
            id: new_uuid_string(),
            execution_id,
            graph_name,
            last_completed_node: last_node,
            next_node: None,
            state,
            execution_path: Vec::new(),
            timestamp: crate::clock::now_millis(),
            metadata,
        }
    }

    /// A snapshot for the execution that `execution_id` spells as a UUID,
    /// or for a fresh random one where it spells none.
    pub fn from_str_execution_id(execution_id: &str, graph_id: String, last_completed_node: String, state: StateData) -> (r: Result<WorkflowSnapshot, LangGraphError>)
        ensures
            r is Ok,
            uuid_text(execution_id@) matches Some(t) ==> r->Ok_0.execution_id@ == t,
            r->Ok_0.graph_name == graph_id,
            r->Ok_0.last_completed_node == last_completed_node,
            r->Ok_0.state == state,
    {
        let exec = match parse_uuid(execution_id) {
            Some(u) => u,
            None => new_uuid_string(),
        };
        Ok(WorkflowSnapshot::new(exec, graph_id, last_completed_node, state))
    }

    /// Names the graph.
    pub fn set_graph_id(&mut self, graph_id: String)
        ensures
            final(self).graph_name == graph_id,
            final(self).id == old(self).id,
            final(self).state == old(self).state,
            final(self).timestamp == old(self).timestamp,
    {
        self.graph_name = graph_id;
    }

    /// Records that `node` completed at `now`: the previous last node joins
    /// the path.
    pub fn update_progress_at(&mut self, node: String, now: i64)
        ensures
            strings_view(final(self).execution_path@) == strings_view(old(self).execution_path@).push(
                old(self).last_completed_node@,
            ),
            final(self).last_completed_node == node,
            final(self).timestamp == now,
            final(self).id == old(self).id,
            final(self).state == old(self).state,
    {
        let prev = self.last_completed_node.clone();
        self.execution_path.push(prev);
        assert(strings_view(self.execution_path@) =~= strings_view(old(self).execution_path@).push(
            old(self).last_completed_node@,
        ));
        self.last_completed_node = node;
        self.timestamp = now;
    }

    /// Records that `node` completed now.
    pub fn update_progress(&mut self, node: String)
        ensures
            strings_view(final(self).execution_path@) == strings_view(old(self).execution_path@).push(
                old(self).last_completed_node@,
            ),
            final(self).last_completed_node == node,
    {
        self.update_progress_at(node, crate::clock::now_millis());
    }

    /// A copy, recording the same.
    pub fn copy(&self) -> (r: WorkflowSnapshot)
        ensures
            workflow_view(r) == workflow_view(*self),
    {
        WorkflowSnapshot {
            id: self.id.clone(),
            execution_id: self.execution_id.clone(),
            graph_name: self.graph_name.clone(),
            last_completed_node: self.last_completed_node.clone(),
            next_node: match &self.next_node {
                Some(n) => Some(n.clone()),
                None => None,
            },
            state: clone_state(&self.state),
            execution_path: copy_strings(&self.execution_path),
            timestamp: self.timestamp,
            metadata: self.metadata.deep_clone(),
        }
    }
}

/// A point where a workflow can be resumed. The creation time is in
/// milliseconds since the Unix epoch.
#[derive(Debug)]
pub struct ResumptionPoint {
    /// The node
    pub node_id: String,
    /// The state there
    pub state_snapshot: StateData,
    /// Whether the state may be changed before resuming
    pub can_modify_state: bool,
    /// When it was made
    pub created_at: i64,
}

impl ResumptionPoint {
    /// A copy, recording the same.
    pub fn copy(&self) -> (r: ResumptionPoint)
        ensures
            r.node_id@ == self.node_id@,
            state_model(r.state_snapshot) == state_model(self.state_snapshot),
            r.can_modify_state == self.can_modify_state,
            r.created_at == self.created_at,
    {
        ResumptionPoint {
            node_id: self.node_id.clone(),
            state_snapshot: clone_state(&self.state_snapshot),
            can_modify_state: self.can_modify_state,
            created_at: self.created_at,
        }
    }
}

/// Counts over the saved snapshots.
#[derive(Debug, Clone, Copy)]
pub struct ResumptionStats {
    /// Snapshots saved
    pub total_resumptions: usize,
    /// Executions they belong to
    pub unique_executions: usize,
    /// Time of the oldest
    pub oldest_snapshot: Option<i64>,
    /// Time of the newest
    pub newest_snapshot: Option<i64>,
}

/// What is known of an execution part-way.
#[derive(Debug)]
pub struct PartialResults {
    /// Nodes completed
    pub completed_nodes: Vec<String>,
    /// Nodes still to run
    pub pending_nodes: Vec<String>,
    /// The state so far
    pub state: StateData,
}

/// The number of executions among `s`: of each, its first snapshot counts.
pub open spec fn distinct_executions(s: Seq<WorkflowSnapshot>) -> nat
    decreases s.len(),
{
    if s.len() == 0 {
        0
    } else {
        distinct_executions(s.drop_last()) + if (exists|j: int| 0 <= j < s.len() - 1 && #[trigger] s[j].execution_id@ == s.last().execution_id@) {
            0nat
        } else {
            1nat
        }
    }
}

/// The snapshots of `s` that satisfy `p`, in order.
pub open spec fn workflows_where(s: Seq<WorkflowSnapshot>, p: spec_fn(WorkflowSnapshot) -> bool) -> Seq<WorkflowSnapshot> {
    masked(s, Seq::new(s.len(), |i: int| p(s[i])))
}

/// Whether `t` is the earliest time among the first `n` snapshots.
pub open spec fn earliest(s: Seq<WorkflowSnapshot>, n: int, t: Option<i64>) -> bool {
    match t {
        Some(t) => (exists|i: int| 0 <= i < n && #[trigger] s[i].timestamp == t) && (forall|i: int|
            0 <= i < n ==> t <= #[trigger] s[i].timestamp),
        None => false,
    }
}

/// Whether `t` is the latest time among the first `n` snapshots.
pub open spec fn latest(s: Seq<WorkflowSnapshot>, n: int, t: Option<i64>) -> bool {
    match t {
        Some(t) => (exists|i: int| 0 <= i < n && #[trigger] s[i].timestamp == t) && (forall|i: int|
            0 <= i < n ==> t >= #[trigger] s[i].timestamp),
        None => false,
    }
}

/// Moves out the snapshots whose flag is set, in order.
fn take_flagged(s: Vec<WorkflowSnapshot>, mask: &Vec<bool>) -> (r: Vec<WorkflowSnapshot>)
    requires
        mask@.len() == s@.len(),
    ensures
        r@ == masked(s@, mask@),
{
    let ghost orig = s@;
    let n = s.len();
    let mut rest = s;
    let mut r: Vec<WorkflowSnapshot> = Vec::new();
    let mut k: usize = 0;
    while rest.len() > 0
        invariant
            k <= orig.len(),
            orig.len() == n,
            mask@.len() == n,
            rest@ == orig.skip(k as int),
            r@ == masked(orig.take(k as int), mask@),
        decreases rest@.len(),
    {
        let x = rest.remove(0);
        assert(orig.take(k + 1).drop_last() =~= orig.take(k as int));
        assert(orig.take(k + 1).last() == orig[k as int]);
        assert(orig.skip(k + 1) =~= orig.skip(k as int).drop_first());
        if mask[k] {
            r.push(x);
        }
        k = k + 1;
    }
    assert(orig.take(k as int) =~= orig);
    r
}

/// Copies of the snapshots whose flag is set, newest (last) first.
fn copy_flagged_newest_first(s: &Vec<WorkflowSnapshot>, mask: &Vec<bool>) -> (r: Vec<WorkflowSnapshot>)
    requires
        mask@.len() == s@.len(),
    ensures
        workflows_view(r@) == workflows_view(masked(s@, mask@).reverse()),
{
    let mut r: Vec<WorkflowSnapshot> = Vec::new();
    let mut i: usize = s.len();
    assert(s@.take(i as int) =~= s@);
    while i > 0
        invariant
            i <= s@.len(),
            mask@.len() == s@.len(),
            workflows_view(r@) + workflows_view(masked(s@.take(i as int), mask@).reverse()) == workflows_view(masked(s@, mask@).reverse()),
        decreases i,
    {
        let ghost pre = s@.take(i - 1);
        assert(s@.take(i as int).drop_last() =~= pre);
        assert(s@.take(i as int).last() == s@[i - 1]);
        if mask[i - 1] {
            let c = s[i - 1].copy();
            let ghost before = r@;
            r.push(c);
            assert(masked(s@.take(i as int), mask@) == masked(pre, mask@).push(s@[i - 1]));
            assert(masked(pre, mask@).push(s@[i - 1]).reverse() =~= seq![s@[i - 1]] + masked(pre, mask@).reverse());
            assert(workflows_view(seq![s@[i - 1]] + masked(pre, mask@).reverse()) =~= seq![workflow_view(s@[i - 1])] + workflows_view(masked(pre, mask@).reverse()));
            assert(workflows_view(r@) =~= workflows_view(before).push(workflow_view(s@[i - 1])));
            assert(workflows_view(r@) + workflows_view(masked(pre, mask@).reverse()) =~= workflows_view(before) + workflows_view(masked(s@.take(i as int), mask@).reverse()));
        }
        i = i - 1;
    }
    assert(masked(s@.take(0), mask@) =~= Seq::<WorkflowSnapshot>::empty());
    assert(workflows_view(masked(s@.take(0), mask@).reverse()) =~= Seq::empty());
    assert(workflows_view(r@) + Seq::empty() =~= workflows_view(r@));
    r
}

/// Keeps saved snapshots, resumption points and the status of executions.
pub struct ResumptionManager {
    /// The snapshots, in the order they were saved
    pub snapshots: Vec<WorkflowSnapshot>,
    /// The resumption points, by node
    pub resumption_points: StrMap<ResumptionPoint>,
    /// The status of executions, by execution id
    pub active_executions: StrMap<ExecutionStatus>,
}

impl ResumptionManager {
    /// A manager with nothing saved.
    pub fn new() -> (m: ResumptionManager)
        ensures
            m.snapshots@.len() == 0,
            m.resumption_points.map() == Map::<Seq<char>, ResumptionPoint>::empty(),
            m.active_executions.map() == Map::<Seq<char>, ExecutionStatus>::empty(),
    {
        let m = ResumptionManager { snapshots: Vec::new(), resumption_points: StrMap::new(), active_executions: StrMap::new() };
        assert(m.resumption_points.map() =~= Map::empty());
        assert(m.active_executions.map() =~= Map::empty());
        m
    }

    /// Saves `snapshot`, replacing any with the same id.
    pub fn record_resumption(&mut self, snapshot: WorkflowSnapshot)
        ensures
            final(self).snapshots@ == workflows_where(old(self).snapshots@, |w: WorkflowSnapshot| w.id@ != snapshot.id@).push(snapshot),
            final(self).resumption_points == old(self).resumption_points,
            final(self).active_executions == old(self).active_executions,
    {
        let mut mask: Vec<bool> = Vec::new();
        let mut i: usize = 0;
        while i < self.snapshots.len()
            invariant
                i <= self.snapshots@.len(),
                mask@.len() == i,
                forall|j: int| 0 <= j < i ==> mask@[j] == (self.snapshots@[j].id@ != snapshot.id@),
            decreases self.snapshots@.len() - i,
        {
            mask.push(!str_eq(self.snapshots[i].id.as_str(), snapshot.id.as_str()));
            i = i + 1;
        }
        let ghost old_s = self.snapshots@;
        assert(mask@ =~= Seq::new(old_s.len(), |j: int| (|w: WorkflowSnapshot| w.id@ != snapshot.id@)(old_s[j])));
        let mut rest: Vec<WorkflowSnapshot> = Vec::new();
        std::mem::swap(&mut rest, &mut self.snapshots);
        let mut kept = take_flagged(rest, &mask);
        kept.push(snapshot);
        self.snapshots = kept;
    }

    /// Saves a snapshot of `state` at `node_id` for the execution, and a
    /// modifiable resumption point there; returns a copy of the snapshot.
    pub fn save_resumption_point(&mut self, execution_id: &str, node_id: &str, state: &StateData) -> (r: Result<WorkflowSnapshot, LangGraphError>)
        ensures
            r is Ok,
            final(self).snapshots@.len() >= 1,
            workflow_view(r->Ok_0) == workflow_view(final(self).snapshots@.last()),
            r->Ok_0.execution_id@ == execution_id@,
            r->Ok_0.graph_name@ == "workflow"@,
            r->Ok_0.last_completed_node@ == node_id@,
            state_model(r->Ok_0.state) == state_model(*state),
            final(self).resumption_points.map().dom() == old(self).resumption_points.map().dom().insert(node_id@),
            final(self).resumption_points.map()[node_id@].can_modify_state,
            state_model(final(self).resumption_points.map()[node_id@].state_snapshot) == state_model(*state),
            final(self).active_executions == old(self).active_executions,
    {
        let mut workflow = String::new();
        crate::text::push_str(&mut workflow, "workflow");
        let snapshot = WorkflowSnapshot::new(execution_id.to_owned(), workflow, node_id.to_owned(), clone_state(state));
        let copy = snapshot.copy();
        self.record_resumption(snapshot);
        let point = ResumptionPoint {
            node_id: node_id.to_owned(),
            state_snapshot: clone_state(state),
            can_modify_state: true,
            created_at: crate::clock::now_millis(),
        };
        self.resumption_points.insert(node_id.to_owned(), point);
        assert(self.resumption_points.map().dom() =~= old(self).resumption_points.map().dom().insert(node_id@));
        Ok(copy)
    }

    /// A copy of the snapshot with id `snapshot_id`.
    pub fn load_snapshot(&self, snapshot_id: &str) -> (r: Option<WorkflowSnapshot>)
        ensures
            match r {
                Some(s) => exists|i: int|
                    0 <= i < self.snapshots@.len() && self.snapshots@[i].id@ == snapshot_id@ && workflow_view(s)
                        == workflow_view(self.snapshots@[i]),
                None => forall|i: int| 0 <= i < self.snapshots@.len() ==> #[trigger] self.snapshots@[i].id@ != snapshot_id@,
            },
    {
        let mut i: usize = 0;
        while i < self.snapshots.len()
            invariant
                i <= self.snapshots@.len(),
                forall|j: int| 0 <= j < i ==> #[trigger] self.snapshots@[j].id@ != snapshot_id@,
            decreases self.snapshots@.len() - i,
        {
            if str_eq(self.snapshots[i].id.as_str(), snapshot_id) {
                return Some(self.snapshots[i].copy());
            }
            i = i + 1;
        }
        None
    }

    /// Copies of all snapshots, in the order they were saved.
    pub fn list_snapshots(&self) -> (r: Vec<WorkflowSnapshot>)
        ensures
            workflows_view(r@) == workflows_view(self.snapshots@),
    {
        let mut r: Vec<WorkflowSnapshot> = Vec::new();
        let mut i: usize = 0;
        while i < self.snapshots.len()
            invariant
                i <= self.snapshots@.len(),
                r@.len() == i,
                forall|j: int| 0 <= j < i ==> workflow_view(#[trigger] r@[j]) == workflow_view(self.snapshots@[j]),
            decreases self.snapshots@.len() - i,
        {
            let c = self.snapshots[i].copy();
            r.push(c);
            i = i + 1;
        }
        assert(workflows_view(r@) =~= workflows_view(self.snapshots@));
        r
    }

    /// Copies of all snapshots, for saving elsewhere.
    pub fn export_snapshots(&self) -> (r: Vec<WorkflowSnapshot>)
        ensures
            workflows_view(r@) == workflows_view(self.snapshots@),
    {
        self.list_snapshots()
    }

    /// Saves each of `snapshots` in turn.
    pub fn import_snapshots(&mut self, snapshots: Vec<WorkflowSnapshot>) -> (r: Result<(), LangGraphError>)
        ensures
            r is Ok,
            final(self).resumption_points == old(self).resumption_points,
            final(self).active_executions == old(self).active_executions,
            snapshots@.len() > 0 ==> final(self).snapshots@.len() > 0,
    {
        let mut rest = snapshots;
        let ghost n = rest@.len();
        while rest.len() > 0
            invariant
                self.resumption_points == old(self).resumption_points,
                self.active_executions == old(self).active_executions,
                rest@.len() < n ==> self.snapshots@.len() > 0,
                rest@.len() <= n,
            decreases rest@.len(),
        {
            let s = rest.remove(0);
            self.record_resumption(s);
        }
        Ok(())
    }

    /// Deletes the snapshots with id `snapshot_id`; whether there was one.
    pub fn delete_snapshot(&mut self, snapshot_id: &str) -> (found: bool)
        ensures
            found == exists|i: int| 0 <= i < old(self).snapshots@.len() && #[trigger] old(self).snapshots@[i].id@ == snapshot_id@,
            final(self).snapshots@ == workflows_where(old(self).snapshots@, |w: WorkflowSnapshot| w.id@ != snapshot_id@),
            final(self).resumption_points == old(self).resumption_points,
            final(self).active_executions == old(self).active_executions,
    {
        let mut mask: Vec<bool> = Vec::new();
        let mut found = false;
        let mut i: usize = 0;
        while i < self.snapshots.len()
            invariant
                i <= self.snapshots@.len(),
                mask@.len() == i,
                forall|j: int| 0 <= j < i ==> mask@[j] == (self.snapshots@[j].id@ != snapshot_id@),
                found == exists|j: int| 0 <= j < i && #[trigger] self.snapshots@[j].id@ == snapshot_id@,
            decreases self.snapshots@.len() - i,
        {
            let same = str_eq(self.snapshots[i].id.as_str(), snapshot_id);
            mask.push(!same);
            if same {
                found = true;
            }
            i = i + 1;
        }
        let ghost old_s = self.snapshots@;
        assert(mask@ =~= Seq::new(old_s.len(), |j: int| (|w: WorkflowSnapshot| w.id@ != snapshot_id@)(old_s[j])));
        let mut rest: Vec<WorkflowSnapshot> = Vec::new();
        std::mem::swap(&mut rest, &mut self.snapshots);
        self.snapshots = take_flagged(rest, &mask);
        found
    }

    /// A copy of the resumption point at `node_id`.
    pub fn get_resumption_point(&self, node_id: &str) -> (r: Option<ResumptionPoint>)
        ensures
            match r {
                Some(p) => self.resumption_points.map().contains_key(node_id@) && p.node_id@ == self.resumption_points.map()[node_id@].node_id@
                    && state_model(p.state_snapshot) == state_model(self.resumption_points.map()[node_id@].state_snapshot),
                None => !self.resumption_points.map().contains_key(node_id@),
            },
    {
        match self.resumption_points.get(node_id) {
            Some(p) => Some(p.copy()),
            None => None,
        }
    }

    /// Copies of all resumption points; the execution is not yet told apart.
    pub fn list_resumption_points(&self, execution_id: &str) -> (r: Vec<ResumptionPoint>)
        ensures
            r@.len() == self.resumption_points.spec_entries().len(),
    {
        self.list_all_resumption_points()
    }

    /// Copies of all resumption points.
    pub fn list_all_resumption_points(&self) -> (r: Vec<ResumptionPoint>)
        ensures
            r@.len() == self.resumption_points.spec_entries().len(),
            forall|i: int| 0 <= i < r@.len() ==> (#[trigger] r@[i]).node_id@ == self.resumption_points.spec_entries()[i].1.node_id@,
    {
        let mut r: Vec<ResumptionPoint> = Vec::new();
        let mut i: usize = 0;
        while i < self.resumption_points.len()
            invariant
                i <= self.resumption_points.spec_entries().len(),
                r@.len() == i,
                forall|j: int| 0 <= j < i ==> (#[trigger] r@[j]).node_id@ == self.resumption_points.spec_entries()[j].1.node_id@,
            decreases self.resumption_points.spec_entries().len() - i,
        {
            r.push(self.resumption_points.value_at(i).copy());
            i = i + 1;
        }
        r
    }

    /// Marks the execution suspended.
    pub fn suspend_execution(&mut self, execution_id: String)
        ensures
            final(self).active_executions.map() == old(self).active_executions.map().insert(execution_id@, ExecutionStatus::Suspended),
            final(self).snapshots == old(self).snapshots,
    {
        self.active_executions.insert(execution_id, ExecutionStatus::Suspended);
    }

    /// Marks the execution running again.
    pub fn mark_resumed(&mut self, execution_id: String)
        ensures
            final(self).active_executions.map() == old(self).active_executions.map().insert(execution_id@, ExecutionStatus::Running),
            final(self).snapshots == old(self).snapshots,
            final(self).resumption_points == old(self).resumption_points,
    {
        self.active_executions.insert(execution_id, ExecutionStatus::Running);
    }

    /// Whether the execution is suspended.
    pub fn is_suspended(&self, execution_id: &str) -> (b: bool)
        ensures
            b == (self.active_executions.map().contains_key(execution_id@)
                && self.active_executions.map()[execution_id@] == ExecutionStatus::Suspended),
    {
        match self.active_executions.get(execution_id) {
            Some(s) => *s == ExecutionStatus::Suspended,
            None => false,
        }
    }

    /// Removes the snapshots saved before `now - max_age` milliseconds;
    /// returns how many.
    pub fn cleanup_old_snapshots(&mut self, max_age: i64, now: i64) -> (r: Result<usize, LangGraphError>)
        requires
            now - max_age >= i64::MIN,
            now - max_age <= i64::MAX,
        ensures
            r is Ok,
            final(self).snapshots@ == workflows_where(old(self).snapshots@, |w: WorkflowSnapshot| w.timestamp >= now - max_age),
            r->Ok_0 == old(self).snapshots@.len() - final(self).snapshots@.len(),
            final(self).resumption_points == old(self).resumption_points,
            final(self).active_executions == old(self).active_executions,
    {
        let cutoff = now - max_age;
        let mut mask: Vec<bool> = Vec::new();
        let mut i: usize = 0;
        while i < self.snapshots.len()
            invariant
                i <= self.snapshots@.len(),
                mask@.len() == i,
                cutoff == now - max_age,
                forall|j: int| 0 <= j < i ==> mask@[j] == (self.snapshots@[j].timestamp >= cutoff),
            decreases self.snapshots@.len() - i,
        {
            mask.push(self.snapshots[i].timestamp >= cutoff);
            i = i + 1;
        }
        let ghost old_s = self.snapshots@;
        assert(mask@ =~= Seq::new(old_s.len(), |j: int| (|w: WorkflowSnapshot| w.timestamp >= now - max_age)(old_s[j])));
        let before = self.snapshots.len();
        let mut rest: Vec<WorkflowSnapshot> = Vec::new();
        std::mem::swap(&mut rest, &mut self.snapshots);
        self.snapshots = take_flagged(rest, &mask);
        proof {
            lemma_masked_len(old_s, mask@);
        }
        Ok(before - self.snapshots.len())
    }

    /// Same as `cleanup_old_snapshots`.
    pub fn cleanup_old_resumptions(&mut self, max_age: i64, now: i64) -> (r: Result<usize, LangGraphError>)
        requires
            now - max_age >= i64::MIN,
            now - max_age <= i64::MAX,
        ensures
            r is Ok,
            final(self).snapshots@ == workflows_where(old(self).snapshots@, |w: WorkflowSnapshot| w.timestamp >= now - max_age),
            r->Ok_0 == old(self).snapshots@.len() - final(self).snapshots@.len(),
    {
        self.cleanup_old_snapshots(max_age, now)
    }

    /// Saves a snapshot made from a loaded checkpoint: its state, its
    /// metadata as an object, named by the checkpoint id, its thread (the
    /// checkpoint id up to the first `-`) as the last node; an error where
    /// nothing was loaded.
    pub fn create_from_checkpoint_with_id(
        &mut self,
        checkpoint_id: &str,
        execution_id: String,
        loaded: Option<(StateData, StateData)>,
    ) -> (r: Result<WorkflowSnapshot, LangGraphError>)
        ensures
            loaded is None ==> r is Err && r->Err_0 == LangGraphError::Execution(r->Err_0->Execution_0)
                && r->Err_0->Execution_0@ == "Checkpoint not found"@ && final(self).snapshots == old(self).snapshots,
            loaded is Some ==> r is Ok && {
                let s = r->Ok_0;
                &&& s.execution_id@ == execution_id@
                &&& s.graph_name@ == checkpoint_id@
                &&& s.last_completed_node@ == crate::text::split_spec(checkpoint_id@, '-')[0]
                &&& state_model(s.state) == state_model((loaded->0).0)
                &&& s.metadata@ == JsonModel::Object(crate::state::state_entries_model((loaded->0).1))
                &&& workflow_view(final(self).snapshots@.last()) == workflow_view(s)
            },
            final(self).resumption_points == old(self).resumption_points,
            final(self).active_executions == old(self).active_executions,
    {
        let (state, meta) = match loaded {
            Some(pair) => pair,
            None => {
                let mut msg = String::new();
                crate::text::push_str(&mut msg, "Checkpoint not found");
                return Err(LangGraphError::Execution(msg));
            },
        };
        let chars = crate::text::to_chars(checkpoint_id);
        let parts = crate::text::split_chars(chars.as_slice(), '-');
        proof {
            crate::text::lemma_split_nonempty(checkpoint_id@, '-');
        }
        let thread_id = crate::text::from_chars(parts[0].as_slice());
        let mut snapshot = WorkflowSnapshot::new(execution_id, checkpoint_id.to_owned(), thread_id, state);
        snapshot.metadata = crate::state::state_object(&meta);
        let copy = snapshot.copy();
        self.record_resumption(snapshot);
        Ok(copy)
    }

    /// Prepares to resume from the snapshot `snapshot_id`: marks its
    /// execution running and returns its state and the node to resume at
    /// (`end` where none is set); an error where the snapshot is not kept.
    pub fn resume_workflow(&mut self, snapshot_id: &str) -> (r: Result<(StateData, String), LangGraphError>)
        ensures
            match r {
                Ok((state, next)) => exists|i: int|
                    0 <= i < old(self).snapshots@.len() && old(self).snapshots@[i].id@ == snapshot_id@
                        && state_model(state) == state_model(old(self).snapshots@[i].state)
                        && next@ == match old(self).snapshots@[i].next_node {
                            Some(n) => n@,
                            None => "end"@,
                        }
                        && final(self).active_executions.map() == old(self).active_executions.map().insert(
                        old(self).snapshots@[i].execution_id@,
                        ExecutionStatus::Running,
                    ),
                Err(e) => (forall|i: int| 0 <= i < old(self).snapshots@.len() ==> #[trigger] old(self).snapshots@[i].id@ != snapshot_id@)
                    && e == LangGraphError::Execution(e->Execution_0) && e->Execution_0@ == "Snapshot not found"@
                    && final(self).active_executions == old(self).active_executions,
            },
            final(self).snapshots == old(self).snapshots,
    {
        let snapshot = match self.load_snapshot(snapshot_id) {
            Some(s) => s,
            None => {
                let mut msg = String::new();
                crate::text::push_str(&mut msg, "Snapshot not found");
                return Err(LangGraphError::Execution(msg));
            },
        };
        self.mark_resumed(snapshot.execution_id.clone());
        let next = match snapshot.next_node {
            Some(n) => n,
            None => {
                let mut e = String::new();
                crate::text::push_str(&mut e, "end");
                e
            },
        };
        Ok((snapshot.state, next))
    }

    /// Prepares to resume from the snapshot `snapshot_id` with
    /// `modified_state`: the snapshot takes the state and the time `now`,
    /// its execution is marked running, and the node to resume at (`end`
    /// where none is set) is returned; an error where the snapshot is not
    /// kept.
    pub fn resume_with_modified_state(&mut self, snapshot_id: &str, modified_state: StateData, now: i64) -> (r: Result<String, LangGraphError>)
        ensures
            r is Err ==> (forall|i: int| 0 <= i < old(self).snapshots@.len() ==> #[trigger] old(self).snapshots@[i].id@ != snapshot_id@)
                && final(self).snapshots == old(self).snapshots,
            r is Ok ==> final(self).snapshots@.len() >= 1 && state_model(final(self).snapshots@.last().state) == state_model(modified_state)
                && final(self).snapshots@.last().id@ == snapshot_id@ && final(self).snapshots@.last().timestamp == now,
    {
        let mut snapshot = match self.load_snapshot(snapshot_id) {
            Some(s) => s,
            None => {
                let mut msg = String::new();
                crate::text::push_str(&mut msg, "Snapshot not found");
                return Err(LangGraphError::Execution(msg));
            },
        };
        snapshot.state = modified_state;
        snapshot.timestamp = now;
        let exec = snapshot.execution_id.clone();
        let next = match &snapshot.next_node {
            Some(n) => n.clone(),
            None => {
                let mut e = String::new();
                crate::text::push_str(&mut e, "end");
                e
            },
        };
        self.record_resumption(snapshot);
        self.mark_resumed(exec);
        Ok(next)
    }

    /// Copies of the snapshots, of `execution_id`'s execution only where
    /// given, newest first, the first `limit` of them where a limit is given.
    pub fn get_resumption_history(&self, execution_id: Option<&str>, limit: Option<usize>) -> (r: Vec<WorkflowSnapshot>)
        ensures
            ({
                let all = match execution_id {
                    Some(e) => workflows_where(self.snapshots@, |w: WorkflowSnapshot| w.execution_id@ == e@),
                    None => self.snapshots@,
                }.reverse();
                workflows_view(r@) == workflows_view(match limit {
                    Some(l) => if l < all.len() { all.take(l as int) } else { all },
                    None => all,
                })
            }),
    {
        let mut mask: Vec<bool> = Vec::new();
        let mut i: usize = 0;
        while i < self.snapshots.len()
            invariant
                i <= self.snapshots@.len(),
                mask@.len() == i,
                forall|j: int|
                    0 <= j < i ==> mask@[j] == match execution_id {
                        Some(e) => self.snapshots@[j].execution_id@ == e@,
                        None => true,
                    },
            decreases self.snapshots@.len() - i,
        {
            let keep = match execution_id {
                Some(e) => str_eq(self.snapshots[i].execution_id.as_str(), e),
                None => true,
            };
            mask.push(keep);
            i = i + 1;
        }
        proof {
            match execution_id {
                Some(e) => {
                    assert(mask@ =~= Seq::new(
                        self.snapshots@.len(),
                        |j: int| (|w: WorkflowSnapshot| w.execution_id@ == e@)(self.snapshots@[j]),
                    ));
                },
                None => {
                    lemma_masked_all(self.snapshots@, mask@);
                },
            }
        }
        let mut result = copy_flagged_newest_first(&self.snapshots, &mask);
        let ghost before = result@;
        match limit {
            Some(l) => {
                result.truncate(l);
                proof {
                    if l < before.len() {
                        assert(workflows_view(result@) =~= workflows_view(before).take(l as int));
                    }
                }
            },
            None => {},
        }
        proof {
            let all = match execution_id {
                Some(e) => workflows_where(self.snapshots@, |w: WorkflowSnapshot| w.execution_id@ == e@),
                None => self.snapshots@,
            }.reverse();
            match limit {
                Some(l) => if l < all.len() {
                    assert(workflows_view(all.take(l as int)) =~= workflows_view(all).take(l as int));
                },
                None => {},
            }
        }
        result
    }

    /// Saves a snapshot of `state` after a failure at `node_id`, with the
    /// error, the node and the time of the failure as metadata; returns a
    /// copy of it.
    pub fn save_error_state(&mut self, execution_id: String, node_id: &str, error: &str, state: StateData, error_time: String) -> (r: Result<WorkflowSnapshot, LangGraphError>)
        ensures
            r is Ok,
            r->Ok_0.execution_id@ == execution_id@,
            r->Ok_0.last_completed_node@ == node_id@,
            r->Ok_0.metadata@ == JsonModel::Object(seq![
                ("error"@, JsonModel::Str(error@)),
                ("error_node"@, JsonModel::Str(node_id@)),
                ("error_time"@, JsonModel::Str(error_time@)),
            ]),
            workflow_view(final(self).snapshots@.last()) == workflow_view(r->Ok_0),
    {
        let mut workflow = String::new();
        crate::text::push_str(&mut workflow, "workflow");
        let mut snapshot = WorkflowSnapshot::new(execution_id, workflow, node_id.to_owned(), state);
        let mut meta: Vec<(String, JsonValue)> = Vec::new();
        let mut k1 = String::new();
        crate::text::push_str(&mut k1, "error");
        let mut k2 = String::new();
        crate::text::push_str(&mut k2, "error_node");
        let mut k3 = String::new();
        crate::text::push_str(&mut k3, "error_time");
        meta.push((k1, JsonValue::String(error.to_owned())));
        meta.push((k2, JsonValue::String(node_id.to_owned())));
        meta.push((k3, JsonValue::String(error_time)));
        assert(meta@[0].0@ == "error"@ && meta@[0].1@ == JsonModel::Str(error@));
        assert(meta@[1].0@ == "error_node"@ && meta@[1].1@ == JsonModel::Str(node_id@));
        assert(meta@[2].0@ == "error_time"@ && meta@[2].1@ == JsonModel::Str(error_time@));
        snapshot.metadata = JsonValue::Object(meta);
        assert(snapshot.metadata@->Object_0 =~= seq![
            ("error"@, JsonModel::Str(error@)),
            ("error_node"@, JsonModel::Str(node_id@)),
            ("error_time"@, JsonModel::Str(error_time@)),
        ]);
        let copy = snapshot.copy();
        self.record_resumption(snapshot);
        Ok(copy)
    }

    /// The snapshots of the execution that `execution_id` spells as a UUID,
    /// newest first; none where it spells none.
    pub fn get_execution_resumptions(&self, execution_id: &str) -> (r: Vec<WorkflowSnapshot>)
        ensures
            uuid_text(execution_id@) is None ==> r@.len() == 0,
            uuid_text(execution_id@) matches Some(t) ==> workflows_view(r@) == workflows_view(
                workflows_where(self.snapshots@, |w: WorkflowSnapshot| w.execution_id@ == t).reverse(),
            ),
    {
        match parse_uuid(execution_id) {
            Some(u) => {
                let e = u.as_str();
                let r = self.get_resumption_history(Some(e), None);
                proof {
                    let t = u@;
                    assert(e@ == t);
                    let p1 = |w: WorkflowSnapshot| w.execution_id@ == e@;
                    let p2 = |w: WorkflowSnapshot| w.execution_id@ == t;
                    assert(Seq::new(self.snapshots@.len(), |i: int| p1(self.snapshots@[i])) =~= Seq::new(
                        self.snapshots@.len(),
                        |i: int| p2(self.snapshots@[i]),
                    ));
                    assert(workflows_where(self.snapshots@, |w: WorkflowSnapshot| w.execution_id@ == e@) =~= workflows_where(
                        self.snapshots@,
                        |w: WorkflowSnapshot| w.execution_id@ == t,
                    ));
                }
                r
            },
            None => Vec::new(),
        }
    }

    /// What is known part-way through an execution: nothing is tracked yet.
    pub fn get_partial_results(&self, execution_id: &str) -> (r: PartialResults)
        ensures
            r.completed_nodes@.len() == 0,
            r.pending_nodes@.len() == 0,
            r.state.map().len() == 0,
    {
        let r = PartialResults { completed_nodes: Vec::new(), pending_nodes: Vec::new(), state: StrMap::new() };
        assert(r.state.map() =~= Map::empty());
        r
    }

    /// Saves a partial state: not kept yet.
    pub fn save_partial_state(&self, execution_id: &str, state: StateData) -> (r: Result<(), LangGraphError>)
        ensures
            r is Ok,
    {
        Ok(())
    }

    /// Counts over the saved snapshots: how many, of how many executions,
    /// and the times of the oldest and the newest.
    pub fn get_resumption_stats(&self) -> (s: ResumptionStats)
        ensures
            s.total_resumptions == self.snapshots@.len(),
            s.unique_executions == distinct_executions(self.snapshots@),
            self.snapshots@.len() == 0 ==> s.oldest_snapshot is None && s.newest_snapshot is None,
            self.snapshots@.len() > 0 ==> earliest(self.snapshots@, self.snapshots@.len() as int, s.oldest_snapshot),
            self.snapshots@.len() > 0 ==> latest(self.snapshots@, self.snapshots@.len() as int, s.newest_snapshot),
    {
        let n = self.snapshots.len();
        let mut unique: usize = 0;
        let mut oldest: Option<i64> = None;
        let mut newest: Option<i64> = None;
        let mut i: usize = 0;
        while i < n
            invariant
                i <= n,
                n == self.snapshots@.len(),
                unique == distinct_executions(self.snapshots@.take(i as int)),
                unique <= i,
                i == 0 ==> oldest is None && newest is None,
                i > 0 ==> earliest(self.snapshots@, i as int, oldest),
                i > 0 ==> latest(self.snapshots@, i as int, newest),
            decreases n - i,
        {
            let t = self.snapshots[i].timestamp;
            let mut seen = false;
            let mut j: usize = 0;
            while j < i
                invariant
                    j <= i,
                    i < n,
                    n == self.snapshots@.len(),
                    seen == exists|k: int| 0 <= k < j && #[trigger] self.snapshots@[k].execution_id@ == self.snapshots@[i as int].execution_id@,
                decreases i - j,
            {
                if str_eq(self.snapshots[j].execution_id.as_str(), self.snapshots[i].execution_id.as_str()) {
                    seen = true;
                }
                j = j + 1;
            }
            proof {
                let t1 = self.snapshots@.take(i + 1);
                assert(t1.drop_last() =~= self.snapshots@.take(i as int));
                assert(t1.last() == self.snapshots@[i as int]);
                assert((exists|k: int| 0 <= k < t1.len() - 1 && #[trigger] t1[k].execution_id@ == t1.last().execution_id@) == seen) by {
                    if seen {
                        let k = choose|k: int| 0 <= k < i && #[trigger] self.snapshots@[k].execution_id@ == self.snapshots@[i as int].execution_id@;
                        assert(t1[k] == self.snapshots@[k]);
                    }
                    if exists|k: int| 0 <= k < t1.len() - 1 && #[trigger] t1[k].execution_id@ == t1.last().execution_id@ {
                        let k = choose|k: int| 0 <= k < t1.len() - 1 && #[trigger] t1[k].execution_id@ == t1.last().execution_id@;
                        assert(t1[k] == self.snapshots@[k]);
                    }
                }
            }
            if !seen {
                unique = unique + 1;
            }
            oldest = match oldest {
                Some(o) => if t < o { Some(t) } else { Some(o) },
                None => Some(t),
            };
            newest = match newest {
                Some(o) => if t > o { Some(t) } else { Some(o) },
                None => Some(t),
            };
            i = i + 1;
        }
        assert(self.snapshots@.take(n as int) =~= self.snapshots@);
        ResumptionStats { total_resumptions: n, unique_executions: unique, oldest_snapshot: oldest, newest_snapshot: newest }
    }
}

impl Default for ResumptionManager {
    fn default() -> (m: ResumptionManager)
        ensures
            m.snapshots@.len() == 0,
    {
        ResumptionManager::new()
    }
}

} // verus!
