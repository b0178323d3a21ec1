//! Running the levels of a graph one after another, the nodes of a level
//! together, with snapshots of the state to fall back on.
use vstd::prelude::*;
use crate::error::LangGraphError;
use crate::engine::executor::ExecutionError;
use crate::engine::parallel::{DependencyAnalyzer, analysis_of};
use crate::state::advanced::newest;
use crate::graph::{CompiledGraph, StateGraph, start_name, end_name, start_str, end_str, strings_view};
use crate::json::JsonModel;
use crate::keyed_map::StrMap;
use crate::state::{StateData, state_model, clone_state};
use crate::text::{str_eq, concat_str, decimal_string, dec_string};
use crate::clock::{elapsed, elapsed_since, now_nanos};

verus! {

/// The first name of `b` from position `i` on, other than `__start__` and
/// `__end__`, that the graph lacks.
pub open spec fn first_missing(g: StateGraph, b: Seq<Seq<char>>, i: int) -> Option<Seq<char>>
    decreases b.len() - i,
{
    if i < 0 || i >= b.len() {
        None
    } else if b[i] != start_name() && b[i] != end_name() && !g.names().contains_key(b[i]) {
        Some(b[i])
    } else {
        first_missing(g, b, i + 1)
    }
}

/// The message for a node that a batch names and the graph lacks.
pub open spec fn not_found_message(name: Seq<char>) -> Seq<char> {
    "Node not found: "@ + name
}

/// Checks that the graph holds every node of a batch; fails at the first
/// one it lacks (`__start__` and `__end__` need not be there).
pub fn check_batch(batch: &Vec<String>, graph: &CompiledGraph) -> (r: Result<(), LangGraphError>)
    requires
        graph.wf(),
    ensures
        match first_missing(graph.inner(), strings_view(batch@), 0) {
            None => r is Ok,
            Some(x) => r matches Err(LangGraphError::Engine(ExecutionError::NodeExecutionFailed(m)))
                && m@ == not_found_message(x),
        },
{
    let g = graph.graph();
    let start = start_str();
    let end = end_str();
    let ghost b = strings_view(batch@);
    let mut i: usize = 0;
    while i < batch.len()
        invariant
            g.wf(),
            *g == graph.inner(),
            b == strings_view(batch@),
            start@ == start_name(),
            end@ == end_name(),
            i <= batch@.len(),
            first_missing(*g, b, 0) == first_missing(*g, b, i as int),
        decreases batch@.len() - i,
    {
        let name = &batch[i];
        if !(str_eq(name.as_str(), start.as_str()) || str_eq(name.as_str(), end.as_str())) {
            if g.get_node(name.as_str()).is_none() {
                let msg = concat_str("Node not found: ", name.as_str());
                return Err(LangGraphError::Engine(ExecutionError::NodeExecutionFailed(msg)));
            }
        }
        i = i + 1;
    }
    Ok(())
}

/// A snapshot of the state kept by a version manager.
#[derive(Debug)]
pub struct StateVersion {
    pub id: usize,
    /// When the snapshot was taken, in nanoseconds since the Unix epoch.
    pub timestamp: u64,
    pub state: StateData,
    pub metadata: StrMap<String>,
}

/// The id and the state of each snapshot.
pub open spec fn versions_view(v: Seq<StateVersion>) -> Seq<(usize, Map<Seq<char>, JsonModel>)> {
    Seq::new(v.len(), |i: int| (v[i].id, state_model(v[i].state)))
}

/// Keeps the most recent snapshots of the state.
pub struct StateVersionManager {
    versions: Vec<StateVersion>,
    max_versions: usize,
    current_version: usize,
}

/// The snapshots kept after adding `s` to `v` when at most `max` are kept:
/// the oldest go first.
pub open spec fn kept_after(
    v: Seq<(usize, Map<Seq<char>, JsonModel>)>,
    s: (usize, Map<Seq<char>, JsonModel>),
    max: usize,
) -> Seq<(usize, Map<Seq<char>, JsonModel>)> {
    let all = v.push(s);
    if all.len() > max {
        all.skip(all.len() - max)
    } else {
        all
    }
}

/// The message for a snapshot that is not kept.
pub open spec fn version_missing_message(id: usize) -> Seq<char> {
    "Version "@ + dec_string(id as nat) + " not found"@
}

impl StateVersionManager {
    /// The snapshots kept, oldest first.
    pub closed spec fn kept(&self) -> Seq<(usize, Map<Seq<char>, JsonModel>)> {
        versions_view(self.versions@)
    }

    /// The id the next snapshot gets.
    pub closed spec fn next_id(&self) -> usize {
        self.current_version
    }

    /// How many snapshots are kept at most.
    pub closed spec fn limit(&self) -> usize {
        self.max_versions
    }

    /// The kept snapshots have increasing ids, all below the next one.
    pub closed spec fn wf(&self) -> bool {
        &&& forall|i: int, j: int|
            0 <= i < j < self.versions@.len() ==> self.versions@[i].id < self.versions@[j].id
        &&& forall|i: int| 0 <= i < self.versions@.len() ==> self.versions@[i].id < self.current_version
    }

    /// Every kept snapshot has an id below the next one.
    pub proof fn lemma_ids_below(&self)
        requires
            self.wf(),
        ensures
            forall|i: int| 0 <= i < self.kept().len() ==> (#[trigger] self.kept()[i]).0 < self.next_id(),
    {
        assert forall|i: int| 0 <= i < self.kept().len() implies (#[trigger] self.kept()[i]).0 < self.next_id() by {
            assert(self.kept()[i].0 == self.versions@[i].id);
        }
    }

    /// A manager keeping at most `max_versions` snapshots.
    pub fn new(max_versions: usize) -> (m: StateVersionManager)
        ensures
            m.wf(),
            m.kept().len() == 0,
            m.next_id() == 0,
            m.limit() == max_versions,
    {
        StateVersionManager { versions: Vec::new(), max_versions, current_version: 0 }
    }

    /// The id the next snapshot gets.
    pub fn current_version(&self) -> (n: usize)
        ensures
            n == self.next_id(),
    {
        self.current_version
    }

    /// Keeps a snapshot of `state` taken at `now`; returns its id.
    pub fn snapshot(&mut self, state: &StateData, now: u64) -> (id: usize)
        requires
            old(self).wf(),
            old(self).next_id() < usize::MAX,
        ensures
            final(self).wf(),
            id == old(self).next_id(),
            final(self).next_id() == old(self).next_id() + 1,
            final(self).limit() == old(self).limit(),
            final(self).kept() == kept_after(old(self).kept(), (id, state_model(*state)), old(self).limit()),
    {
        let id = self.current_version;
        let version = StateVersion { id, timestamp: now, state: clone_state(state), metadata: StrMap::new() };
        let ghost before = self.versions@;
        self.versions.push(version);
        self.current_version = self.current_version + 1;
        let ghost all = self.versions@;
        assert(versions_view(all) =~= versions_view(before).push((id, state_model(*state))));
        if self.versions.len() > self.max_versions {
            let drop_count = self.versions.len() - self.max_versions;
            let kept = self.versions.split_off(drop_count);
            self.versions = kept;
            assert(versions_view(self.versions@) =~= versions_view(all).skip(drop_count as int));
            assert forall|i: int, j: int| 0 <= i < j < self.versions@.len() implies self.versions@[i].id
                < self.versions@[j].id by {
                assert(self.versions@[i] == all[i + drop_count]);
                assert(self.versions@[j] == all[j + drop_count]);
            }
            assert forall|i: int| 0 <= i < self.versions@.len() implies self.versions@[i].id
                < self.current_version by {
                assert(self.versions@[i] == all[i + drop_count]);
            }
        }
        id
    }

    /// The state of snapshot `id`, if it is still kept.
    pub fn rollback(&self, id: usize) -> (r: Result<StateData, LangGraphError>)
        ensures
            (exists|i: int| 0 <= i < self.kept().len() && self.kept()[i].0 == id) ==> (r matches Ok(s)
                && exists|i: int|
                0 <= i < self.kept().len() && self.kept()[i].0 == id && state_model(s) == self.kept()[i].1),
            !(exists|i: int| 0 <= i < self.kept().len() && self.kept()[i].0 == id) ==> (r matches Err(
                LangGraphError::Engine(ExecutionError::NodeExecutionFailed(m)),
            ) && m@ == version_missing_message(id)),
    {
        let mut i: usize = 0;
        while i < self.versions.len()
            invariant
                i <= self.versions@.len(),
                forall|j: int| 0 <= j < i ==> self.versions@[j].id != id,
            decreases self.versions@.len() - i,
        {
            if self.versions[i].id == id {
                let s = clone_state(&self.versions[i].state);
                assert(self.kept()[i as int].0 == id);
                return Ok(s);
            }
            i = i + 1;
        }
        assert forall|j: int| 0 <= j < self.kept().len() implies self.kept()[j].0 != id by {
            assert(self.kept()[j].0 == self.versions@[j].id);
        }
        let mut msg = concat_str("Version ", decimal_string(id as u64).as_str());
        crate::text::push_str(&mut msg, " not found");
        assert(msg@ =~= version_missing_message(id));
        Err(LangGraphError::Engine(ExecutionError::NodeExecutionFailed(msg)))
    }
}

/// A snapshot just taken is kept, unless the manager keeps none: reading it
/// back gives the state it was taken of.
pub proof fn lemma_snapshot_kept(
    v: Seq<(usize, Map<Seq<char>, JsonModel>)>,
    s: (usize, Map<Seq<char>, JsonModel>),
    max: usize,
)
    requires
        max >= 1,
    ensures
        kept_after(v, s, max).len() > 0,
        kept_after(v, s, max).last() == s,
        kept_after(v, s, max).len() <= max,
{
}

/// What the dependency analysis of a graph gives: with a `__start__` node,
/// what `analysis_of` allows; without one, the single level `__start__`.
pub open spec fn analysis_outcome(g: StateGraph, a: Result<Seq<Seq<Seq<char>>>, ()>) -> bool {
    if g.names().contains_key(start_name()) {
        analysis_of(g, a)
    } else {
        a == Ok::<Seq<Seq<Seq<char>>>, ()>(seq![seq![start_name()]])
    }
}

/// The first level from `k` on that names a node the graph lacks, or the
/// number of levels.
pub open spec fn first_failing(g: StateGraph, levels: Seq<Seq<Seq<char>>>, k: int) -> int
    decreases levels.len() - k,
{
    if k < 0 || k >= levels.len() {
        levels.len() as int
    } else if first_missing(g, levels[k], 0) is Some {
        k
    } else {
        first_failing(g, levels, k + 1)
    }
}

/// The first failing level from `k` on lies between `k` and the number of
/// levels.
proof fn lemma_first_failing_bounds(g: StateGraph, levels: Seq<Seq<Seq<char>>>, k: int)
    requires
        0 <= k <= levels.len(),
    ensures
        k <= first_failing(g, levels, k) <= levels.len(),
    decreases levels.len() - k,
{
    if k < levels.len() && first_missing(g, levels[k], 0) is None {
        lemma_first_failing_bounds(g, levels, k + 1);
    }
}

/// Whether a run over `levels` succeeds when the next snapshot id is `c` and
/// `limit` snapshots are kept: one snapshot is taken at the start and one
/// per level passed, each needing an id below the largest; a level naming a
/// missing node falls back to the first snapshot, which must still be kept.
pub open spec fn run_succeeds(g: StateGraph, levels: Seq<Seq<Seq<char>>>, c: usize, limit: usize) -> bool {
    let f = first_failing(g, levels, 0);
    c + f < usize::MAX && (f == levels.len() || f < limit)
}

/// The snapshots taken in a run: `n` of the state `m`, numbered from `c`.
pub open spec fn run_snapshots(c: usize, m: Map<Seq<char>, JsonModel>, n: nat) -> Seq<(usize, Map<Seq<char>, JsonModel>)> {
    Seq::new(n, |j: int| ((c + j) as usize, m))
}

/// Keeping the newest entries after each push is keeping the newest ones
/// at the end.
proof fn lemma_newest_push<T>(h: Seq<T>, x: T, lim: usize)
    ensures
        newest(newest(h, lim).push(x), lim) == newest(h.push(x), lim),
{
    if h.len() > lim {
        assert(newest(newest(h, lim).push(x), lim) =~= newest(h.push(x), lim));
    } else {
        assert(newest(h, lim) == h);
    }
}

/// The first snapshot of a run is kept exactly while the run has taken no
/// more snapshots than are kept.
proof fn lemma_first_kept(k0: Seq<(usize, Map<Seq<char>, JsonModel>)>, c: usize, m: Map<Seq<char>, JsonModel>, n: nat, lim: usize)
    requires
        n >= 1,
        c + n <= usize::MAX + 1,
        forall|i: int| 0 <= i < k0.len() ==> (#[trigger] k0[i]).0 < c,
    ensures
        (exists|i: int| 0 <= i < newest(k0 + run_snapshots(c, m, n), lim).len()
            && newest(k0 + run_snapshots(c, m, n), lim)[i].0 == c) <==> n <= lim,
{
    let all = k0 + run_snapshots(c, m, n);
    let t = newest(all, lim);
    let d = if all.len() > lim { all.len() - lim } else { 0 };
    assert(forall|i: int| 0 <= i < t.len() ==> t[i] == all[i + d]);
    if n <= lim {
        assert(all[k0.len() as int].0 == c);
        assert(t[k0.len() - d].0 == c);
    } else {
        assert forall|i: int| 0 <= i < t.len() implies t[i].0 != c by {
            assert(t[i] == all[i + d]);
            assert(i + d > k0.len());
        }
    }
}

/// The snapshots kept after adding each of `later` in turn to `v`, at most
/// `max` kept.
pub open spec fn kept_after_all(
    v: Seq<(usize, Map<Seq<char>, JsonModel>)>,
    later: Seq<(usize, Map<Seq<char>, JsonModel>)>,
    max: usize,
) -> Seq<(usize, Map<Seq<char>, JsonModel>)>
    decreases later.len(),
{
    if later.len() == 0 {
        v
    } else {
        kept_after(kept_after_all(v, later.drop_last(), max), later.last(), max)
    }
}

/// Adding snapshots one by one to the newest of a history keeps the newest
/// of the whole history.
proof fn lemma_kept_after_all(
    h: Seq<(usize, Map<Seq<char>, JsonModel>)>,
    later: Seq<(usize, Map<Seq<char>, JsonModel>)>,
    max: usize,
)
    ensures
        kept_after_all(newest(h, max), later, max) == newest(h + later, max),
    decreases later.len(),
{
    if later.len() == 0 {
        assert(h + later =~= h);
    } else {
        lemma_kept_after_all(h, later.drop_last(), max);
        lemma_newest_push(h + later.drop_last(), later.last(), max);
        assert((h + later.drop_last()).push(later.last()) =~= h + later);
    }
}

/// A snapshot `s` taken after snapshots of smaller ids and followed by
/// `later` ones of larger ids, at most `max` kept: it is kept under its id
/// exactly while fewer than `max` snapshots follow it, and whatever is kept
/// under its id is its state, so rolling back to it gives that state back.
pub proof fn lemma_snapshot_survives(
    v: Seq<(usize, Map<Seq<char>, JsonModel>)>,
    s: (usize, Map<Seq<char>, JsonModel>),
    later: Seq<(usize, Map<Seq<char>, JsonModel>)>,
    max: usize,
)
    requires
        forall|i: int| 0 <= i < v.len() ==> (#[trigger] v[i]).0 < s.0,
        forall|i: int| 0 <= i < later.len() ==> (#[trigger] later[i]).0 > s.0,
    ensures
        (exists|i: int|
            0 <= i < kept_after_all(kept_after(v, s, max), later, max).len()
                && kept_after_all(kept_after(v, s, max), later, max)[i].0 == s.0) <==> later.len() < max,
        forall|i: int|
            0 <= i < kept_after_all(kept_after(v, s, max), later, max).len()
                && (#[trigger] kept_after_all(kept_after(v, s, max), later, max)[i]).0 == s.0
                ==> kept_after_all(kept_after(v, s, max), later, max)[i].1 == s.1,
{
    let h = v.push(s);
    assert(kept_after(v, s, max) == newest(h, max));
    lemma_kept_after_all(h, later, max);
    let all = h + later;
    let k = newest(all, max);
    let d: int = if all.len() > max { all.len() - max } else { 0 };
    assert(forall|i: int| 0 <= i < k.len() ==> k[i] == all[i + d]);
    assert forall|j: int| 0 <= j < all.len() && all[j].0 == s.0 implies j == v.len() && all[j] == s by {
        if j < v.len() {
            assert(all[j] == v[j]);
        } else if j > v.len() {
            assert(all[j] == later[j - v.len() - 1]);
        }
    }
    if later.len() < max {
        assert(k[v.len() - d] == all[v.len() as int]);
        assert(all[v.len() as int] == s);
    } else {
        assert forall|i: int| 0 <= i < k.len() implies k[i].0 != s.0 by {
            assert(k[i] == all[i + d]);
            assert(i + d > v.len());
        }
    }
    assert forall|i: int| 0 <= i < k.len() && (#[trigger] k[i]).0 == s.0 implies k[i].1 == s.1 by {
        assert(k[i] == all[i + d]);
    }
}

/// Runs a graph level by level, the nodes of a level together.
pub struct ParallelExecutor {
    /// How many nodes may run at once.
    pub max_concurrency: usize,
    /// The snapshots taken.
    pub version_manager: StateVersionManager,
    /// How often a run fell back to its first snapshot.
    pub rollbacks: usize,
    /// How many levels the last complete run had.
    pub parallel_batches: usize,
    /// How many nodes the graph of the last complete run had.
    pub total_nodes: usize,
    /// How many milliseconds the last complete run took, at least one.
    pub total_duration_ms: u128,
}

/// The milliseconds from `start` to `end` (nanosecond readings of a
/// clock), at least one; a clock gone back counts as no time.
pub open spec fn run_millis(start: u64, end: u64) -> u128 {
    let ms = elapsed(start, end) / 1_000_000;
    if ms == 0 {
        1
    } else {
        ms as u128
    }
}

/// The milliseconds from `start` to `end`, at least one.
pub fn duration_millis(start: u64, end: u64) -> (ms: u128)
    ensures
        ms == run_millis(start, end),
        ms >= 1,
{
    let ms = elapsed_since(start, end) / 1_000_000;
    if ms == 0 {
        1
    } else {
        ms as u128
    }
}

impl ParallelExecutor {
    /// The snapshots taken by this executor.
    pub closed spec fn versions(&self) -> StateVersionManager {
        self.version_manager
    }

    /// The concurrency limit.
    pub closed spec fn concurrency(&self) -> usize {
        self.max_concurrency
    }

    /// An executor running at most `max_concurrency` nodes at once and
    /// keeping the last ten snapshots.
    pub fn new(max_concurrency: usize) -> (e: ParallelExecutor)
        ensures
            e.concurrency() == max_concurrency,
            e.versions().wf(),
            e.versions().limit() == 10,
            e.rollbacks == 0,
            e.parallel_batches == 0,
            e.total_nodes == 0,
            e.total_duration_ms == 0,
    {
        ParallelExecutor {
            max_concurrency,
            version_manager: StateVersionManager::new(10),
            rollbacks: 0,
            parallel_batches: 0,
            total_nodes: 0,
            total_duration_ms: 0,
        }
    }

    /// The concurrency limit.
    pub fn max_concurrency(&self) -> (n: usize)
        ensures
            n == self.concurrency(),
    {
        self.max_concurrency
    }

    /// Whether the figures of a complete run are those of `other`.
    pub open spec fn same_figures(&self, other: ParallelExecutor) -> bool {
        &&& self.parallel_batches == other.parallel_batches
        &&& self.total_nodes == other.total_nodes
        &&& self.total_duration_ms == other.total_duration_ms
    }

    /// Runs the graph from `initial_state`: the levels of its dependency
    /// analysis in turn, with a snapshot of the state before the first
    /// and after each.  A level naming a node the graph lacks makes the
    /// run fall back to the snapshot taken at its start.  Running a node
    /// here changes no field, so a run that succeeds gives the state it
    /// started from.  Fails when the analysis fails (a cycle among the
    /// nodes reached from `__start__`), when the snapshot ids run out, and
    /// when the fallback snapshot is no longer kept.  A complete run
    /// records its levels, the graph's nodes and the milliseconds between
    /// two readings of the clock, at its start and at its end; any other
    /// outcome leaves these figures as they were.
    pub fn execute_parallel(&mut self, graph: &CompiledGraph, initial_state: StateData) -> (r:
        Result<StateData, LangGraphError>)
        requires
            graph.wf(),
            old(self).versions().wf(),
        ensures
            final(self).versions().wf(),
            r matches Ok(s) ==> state_model(s) == state_model(initial_state),
            final(self).rollbacks <= old(self).rollbacks + 1,
            exists|a: Result<Seq<Seq<Seq<char>>>, ()>|
                #[trigger] analysis_outcome(graph.inner(), a) && match a {
                    Err(_) => r is Err && final(self).same_figures(*old(self)),
                    Ok(levels) => (r is Ok <==> run_succeeds(
                        graph.inner(),
                        levels,
                        old(self).versions().next_id(),
                        old(self).versions().limit(),
                    )) && if r is Ok && first_failing(graph.inner(), levels, 0) == levels.len() {
                        &&& final(self).parallel_batches == levels.len()
                        &&& final(self).total_nodes == graph.inner().node_seq().len()
                        &&& exists|start: u64, end: u64| final(self).total_duration_ms == run_millis(start, end)
                    } else {
                        final(self).same_figures(*old(self))
                    },
                },
    {
        let start_ns = now_nanos();
        let analyzer = match DependencyAnalyzer::analyze(graph) {
            Ok(a) => a,
            Err(e) => {
                assert(analysis_outcome(graph.inner(), Err::<Seq<Seq<Seq<char>>>, ()>(())));
                return Err(e);
            },
        };
        let ghost lv = analyzer.levels_view();
        let ghost gi = graph.inner();
        let ghost c0 = old(self).versions().next_id();
        let ghost lim = old(self).versions().limit();
        assert(analysis_outcome(gi, Ok::<Seq<Seq<Seq<char>>>, ()>(lv)));
        if self.version_manager.current_version() == usize::MAX {
            proof {
                lemma_first_failing_bounds(gi, lv, 0);
            }
            assert(!run_succeeds(gi, lv, c0, lim));
            return Err(LangGraphError::Engine(ExecutionError::InvalidState("Version counter exhausted".to_string())));
        }
        let ghost k00 = self.version_manager.kept();
        proof {
            self.version_manager.lemma_ids_below();
        }
        let initial_version = self.version_manager.snapshot(&initial_state, now_nanos());
        let ghost m0 = state_model(initial_state);
        proof {
            let k1 = self.version_manager.kept();
            let all = k00.push((initial_version, m0));
            let lim = self.version_manager.limit();
            assert forall|i: int| 0 <= i < k1.len() && (#[trigger] k1[i]).0 >= initial_version implies k1[i].1 == m0 by {
                if all.len() > lim {
                    assert(k1 == all.skip(all.len() - lim));
                    assert(k1[i] == all[i + (all.len() - lim)]);
                } else {
                    assert(k1 == all);
                }
                let j = if all.len() > lim { i + (all.len() - lim) } else { i };
                if j < k00.len() {
                    assert(all[j] == k00[j]);
                    assert(k00[j].0 < initial_version);
                }
            }
        }
        let levels = analyzer.num_levels();
        let mut level: usize = 0;
        proof {
            assert(k00 + run_snapshots(initial_version, m0, 1) =~= k00.push((initial_version, m0)));
            self.version_manager.lemma_ids_below();
        }
        while level < levels
            invariant
                gi == graph.inner(),
                lv == analyzer.levels_view(),
                analysis_outcome(gi, Ok::<Seq<Seq<Seq<char>>>, ()>(lv)),
                c0 == old(self).versions().next_id(),
                lim == old(self).versions().limit(),
                initial_version == c0,
                lim == self.version_manager.limit(),
                forall|i: int| 0 <= i < k00.len() ==> (#[trigger] k00[i]).0 < c0,
                self.version_manager.next_id() == c0 + 1 + level,
                self.version_manager.kept() == newest(k00 + run_snapshots(c0, m0, (level + 1) as nat), lim),
                first_failing(gi, lv, 0) == first_failing(gi, lv, level as int),
                graph.wf(),
                self.version_manager.wf(),
                levels == analyzer.levels_view().len(),
                self.rollbacks == old(self).rollbacks,
                self.same_figures(*old(self)),
                m0 == state_model(initial_state),
                self.version_manager.next_id() > initial_version,
                forall|i: int|
                    0 <= i < self.version_manager.kept().len() && (#[trigger] self.version_manager.kept()[i]).0
                        >= initial_version ==> self.version_manager.kept()[i].1 == m0,
            decreases levels - level,
        {
            let batch = match analyzer.get_parallel_batch(level) {
                Some(b) => b,
                None => {
                    return Err(LangGraphError::Engine(ExecutionError::InvalidState("Missing level".to_string())));
                },
            };
            match check_batch(batch, graph) {
                Ok(()) => {
                    assert(first_missing(gi, lv[level as int], 0) is None);
                    assert(first_failing(gi, lv, level as int) == first_failing(gi, lv, level + 1));
                    if self.version_manager.current_version() == usize::MAX {
                        proof {
                            lemma_first_failing_bounds(gi, lv, level + 1);
                        }
                        assert(!run_succeeds(gi, lv, c0, lim));
                        return Err(LangGraphError::Engine(ExecutionError::InvalidState("Version counter exhausted".to_string())));
                    }
                    let ghost k0 = self.version_manager.kept();
                    let id = self.version_manager.snapshot(&initial_state, now_nanos());
                    proof {
                        let h = k00 + run_snapshots(c0, m0, (level + 1) as nat);
                        lemma_newest_push(h, (id, m0), lim);
                        assert(h.push((id, m0)) =~= k00 + run_snapshots(c0, m0, (level + 2) as nat));
                    }
                    proof {
                        let k1 = self.version_manager.kept();
                        let all = k0.push((id, m0));
                        let lim = self.version_manager.limit();
                        assert forall|i: int| 0 <= i < k1.len() && (#[trigger] k1[i]).0 >= initial_version implies k1[i].1
                            == m0 by {
                            if all.len() > lim {
                                assert(k1 == all.skip(all.len() - lim));
                                assert(k1[i] == all[i + (all.len() - lim)]);
                            } else {
                                assert(k1 == all);
                            }
                        }
                    }
                },
                Err(_) => {
                    assert(first_missing(gi, lv[level as int], 0) is Some);
                    assert(first_failing(gi, lv, 0) == level);
                    proof {
                        lemma_first_kept(k00, c0, m0, (level + 1) as nat, lim);
                    }
                    let back = self.version_manager.rollback(initial_version);
                    match back {
                        Ok(s) => {
                            if self.rollbacks < usize::MAX {
                                self.rollbacks = self.rollbacks + 1;
                            }
                            return Ok(s);
                        },
                        Err(e) => {
                            return Err(e);
                        },
                    }
                },
            }
            level = level + 1;
        }
        assert(first_failing(gi, lv, 0) == lv.len());
        self.total_nodes = graph.graph().node_count();
        self.parallel_batches = levels;
        let end_ns = now_nanos();
        self.total_duration_ms = duration_millis(start_ns, end_ns);
        Ok(initial_state)
    }
}

} // verus!
