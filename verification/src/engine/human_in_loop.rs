//! Interrupting execution for a human decision.
use vstd::prelude::*;
use crate::engine::state_inspector::masked;
use crate::json::JsonModel;
use crate::keyed_map::StrMap;
use crate::state::{clone_state, state_model, StateData};
use crate::text::str_eq;

verus! {

/// Errors of human-in-the-loop operations.
#[derive(Debug)]
pub enum InterruptError {
    /// No decision came within this many nanoseconds.
    Timeout(u64),
    /// The interrupt was cancelled, with the reason.
    Cancelled(String),
    /// The handle names no interrupt.
    InvalidHandle,
    /// The state could not be changed as asked.
    StateModificationFailed(String),
}

/// When a node interrupts execution.
#[derive(Debug, Clone, Copy, PartialEq, Structural)]
pub enum InterruptMode {
    /// Before the node runs.
    Before,
    /// After the node runs.
    After,
    /// Never.
    Never,
}

/// The decision made during an interrupt.
#[derive(Debug, Clone)]
pub enum ApprovalDecision {
    /// Continue normal execution.
    Continue,
    /// Run the current node again.
    Retry,
    /// Skip the current node.
    Skip,
    /// Abort execution, with the reason.
    Abort(String),
    /// Go on at another node.
    Redirect(String),
}

/// A pending interrupt: the node, the state there, when it was raised
/// (nanoseconds since the Unix epoch) and how long it may wait
/// (nanoseconds). Sending the decision back is the caller's.
#[derive(Debug)]
pub struct InterruptRecord {
    /// Unique identifier
    pub id: String,
    /// The node that interrupted
    pub node_id: String,
    /// When it was raised
    pub timestamp: u64,
    /// The state at the interrupt
    pub state_snapshot: StateData,
    /// How long a decision may take, if bounded
    pub timeout: Option<u64>,
}

/// What an interrupt records.
pub open spec fn record_view(r: InterruptRecord) -> (Seq<char>, Seq<char>, u64, Map<Seq<char>, JsonModel>, Option<u64>) {
    (r.id@, r.node_id@, r.timestamp, state_model(r.state_snapshot), r.timeout)
}

impl InterruptRecord {
    /// An interrupt at `node_id` raised now, with a fresh id.
    pub fn new(node_id: String, state_snapshot: StateData, timeout: Option<u64>) -> (r: InterruptRecord)
        ensures
            r.id@.len() == 36,
            r.node_id == node_id,
            r.state_snapshot == state_snapshot,
            r.timeout == timeout,
    {
        InterruptRecord {
            id: crate::engine::tracing::new_uuid_string(),
            node_id,
            timestamp: crate::clock::now_nanos(),
            state_snapshot,
            timeout,
        }
    }

    /// Writes `changes` over the state at the interrupt.
    pub fn modify_state(&mut self, changes: StateData) -> (r: Result<(), crate::error::LangGraphError>)
        ensures
            r is Ok,
            state_model(final(self).state_snapshot) == state_model(old(self).state_snapshot).union_prefer_right(
                state_model(changes),
            ),
            final(self).id == old(self).id,
            final(self).node_id == old(self).node_id,
    {
        let merged = crate::graph::subgraph::merge_output(&self.state_snapshot, changes, false);
        self.state_snapshot = merged;
        Ok(())
    }

    /// A copy, recording the same.
    pub fn copy(&self) -> (r: InterruptRecord)
        ensures
            record_view(r) == record_view(*self),
    {
        InterruptRecord {
            id: self.id.clone(),
            node_id: self.node_id.clone(),
            timestamp: self.timestamp,
            state_snapshot: clone_state(&self.state_snapshot),
            timeout: self.timeout,
        }
    }
}

/// Keeps which nodes interrupt, and when, and the interrupts pending.
#[derive(Debug)]
pub struct InterruptManager {
    /// The pending interrupts, oldest first
    pub pending: Vec<InterruptRecord>,
    /// When each configured node interrupts
    pub node_configs: StrMap<InterruptMode>,
}

impl InterruptManager {
    /// A manager with no configuration and nothing pending.
    pub fn new() -> (m: InterruptManager)
        ensures
            m.pending@.len() == 0,
            m.node_configs.map() == Map::<Seq<char>, InterruptMode>::empty(),
    {
        let m = InterruptManager { pending: Vec::new(), node_configs: StrMap::new() };
        assert(m.node_configs.map() =~= Map::empty());
        m
    }

    /// Makes `node_id` interrupt in `mode`.
    pub fn add_node_config(&mut self, node_id: String, mode: InterruptMode)
        ensures
            final(self).node_configs.map() == old(self).node_configs.map().insert(node_id@, mode),
            final(self).pending == old(self).pending,
    {
        self.node_configs.insert(node_id, mode);
    }

    /// Whether `node_id` is configured to interrupt in `mode`.
    pub fn should_interrupt(&self, node_id: &str, mode: InterruptMode) -> (b: bool)
        ensures
            b == (self.node_configs.map().contains_key(node_id@) && self.node_configs.map()[node_id@] == mode),
    {
        match self.node_configs.get(node_id) {
            Some(m) => *m == mode,
            None => false,
        }
    }

    /// Whether an interrupt under `key` asks for a decision: only where the
    /// key is configured to interrupt, before or after; elsewhere the run
    /// continues without asking.
    pub fn asks_at(&self, key: &str) -> (b: bool)
        ensures
            b == (self.node_configs.map().contains_key(key@) && (self.node_configs.map()[key@]
                == InterruptMode::Before || self.node_configs.map()[key@] == InterruptMode::After)),
    {
        self.should_interrupt(key, InterruptMode::Before) || self.should_interrupt(key, InterruptMode::After)
    }

    /// Records `record` as pending; returns its id.
    pub fn add_pending(&mut self, record: InterruptRecord) -> (id: String)
        ensures
            id@ == record.id@,
            final(self).pending@ == old(self).pending@.push(record),
            final(self).node_configs == old(self).node_configs,
    {
        let id = record.id.clone();
        self.pending.push(record);
        id
    }

    /// Drops the pending interrupts with id `id`.
    pub fn remove_pending(&mut self, id: &str)
        ensures
            final(self).pending@ == masked(old(self).pending@, Seq::new(old(self).pending@.len(), |i: int| old(self).pending@[i].id@ != id@)),
            final(self).node_configs == old(self).node_configs,
    {
        let ghost orig = self.pending@;
        let n = self.pending.len();
        let mut rest: Vec<InterruptRecord> = Vec::new();
        std::mem::swap(&mut rest, &mut self.pending);
        let mut kept: Vec<InterruptRecord> = Vec::new();
        let mut k: usize = 0;
        let ghost mask = Seq::new(orig.len(), |i: int| orig[i].id@ != id@);
        while rest.len() > 0
            invariant
                k <= orig.len(),
                orig.len() == n,
                mask == Seq::new(orig.len(), |i: int| orig[i].id@ != id@),
                rest@ == orig.skip(k as int),
                kept@ == masked(orig.take(k as int), mask),
            decreases rest@.len(),
        {
            let x = rest.remove(0);
            assert(orig.take(k + 1).drop_last() =~= orig.take(k as int));
            assert(orig.take(k + 1).last() == orig[k as int]);
            assert(orig.skip(k + 1) =~= orig.skip(k as int).drop_first());
            if !str_eq(x.id.as_str(), id) {
                kept.push(x);
            }
            k = k + 1;
        }
        assert(orig.take(k as int) =~= orig);
        self.pending = kept;
    }

    /// Copies of the pending interrupts, oldest first.
    pub fn get_pending(&self) -> (r: Vec<InterruptRecord>)
        ensures
            r@.len() == self.pending@.len(),
            forall|i: int| 0 <= i < r@.len() ==> record_view(#[trigger] r@[i]) == record_view(self.pending@[i]),
    {
        let mut r: Vec<InterruptRecord> = Vec::new();
        let mut i: usize = 0;
        while i < self.pending.len()
            invariant
                i <= self.pending@.len(),
                r@.len() == i,
                forall|j: int| 0 <= j < i ==> record_view(#[trigger] r@[j]) == record_view(self.pending@[j]),
            decreases self.pending@.len() - i,
        {
            r.push(self.pending[i].copy());
            i = i + 1;
        }
        r
    }

    /// Forgets the pending interrupts.
    pub fn clear_pending(&mut self)
        ensures
            final(self).pending@.len() == 0,
            final(self).node_configs == old(self).node_configs,
    {
        self.pending = Vec::new();
    }
}

} // verus!
