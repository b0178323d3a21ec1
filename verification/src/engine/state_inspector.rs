//! Inspecting state during execution: snapshots taken at nodes, queried,
//! compared and exported.
use vstd::prelude::*;
use crate::engine::state_diff::{ExportFormat, StateDiff, StateFilter, keeps};
use crate::engine::tracing::{copy_string_map, new_uuid_string, string_map};
use crate::json::{JsonModel, JsonValue, entry_models, json_text, json_pretty_text};
use crate::keyed_map::{StrMap, entries_map, keys_unique};
use crate::state::{clone_state, state_model, state_entries_model, GraphState, StateData};
use crate::state::advanced::{added_fields, modified_fields, pair_model, removed_fields};
use crate::state::schema::obj_map;
use crate::text::{contains_chars, contains_seq, from_chars, split_chars, split_spec, str_eq, to_chars};

verus! {

/// The state at a node at some time, in milliseconds since the Unix epoch.
#[derive(Debug)]
pub struct StateSnapshot {
    /// Unique identifier
    pub id: String,
    /// When it was taken
    pub timestamp: i64,
    /// The node it was taken at
    pub node_id: String,
    /// The state
    pub state: StateData,
    /// Additional metadata
    pub metadata: StrMap<String>,
}

/// What a snapshot records.
pub open spec fn snapshot_view(s: StateSnapshot) -> (Seq<char>, i64, Seq<char>, Map<Seq<char>, JsonModel>, Map<Seq<char>, Seq<char>>) {
    (s.id@, s.timestamp, s.node_id@, state_model(s.state), string_map(s.metadata))
}

/// What each snapshot of a list records.
pub open spec fn snapshots_view(s: Seq<StateSnapshot>) -> Seq<(Seq<char>, i64, Seq<char>, Map<Seq<char>, JsonModel>, Map<Seq<char>, Seq<char>>)> {
    Seq::new(s.len(), |i: int| snapshot_view(s[i]))
}

/// The elements of `s` whose flag in `mask` is set, in order.
pub open spec fn masked<T>(s: Seq<T>, mask: Seq<bool>) -> Seq<T>
    decreases s.len(),
{
    if s.len() == 0 || mask.len() < s.len() {
        Seq::empty()
    } else if mask[s.len() - 1] {
        masked(s.drop_last(), mask).push(s.last())
    } else {
        masked(s.drop_last(), mask)
    }
}

/// The flags of which snapshots satisfy `p`.
pub open spec fn flags(s: Seq<StateSnapshot>, p: spec_fn(StateSnapshot) -> bool) -> Seq<bool> {
    Seq::new(s.len(), |i: int| p(s[i]))
}

/// The snapshots that satisfy `p`, in order.
pub open spec fn snapshots_where(s: Seq<StateSnapshot>, p: spec_fn(StateSnapshot) -> bool) -> Seq<StateSnapshot> {
    masked(s, flags(s, p))
}

/// The list with `x` last, the oldest entry dropped first where the list
/// has reached `max` entries.
pub open spec fn bounded_push<T>(s: Seq<T>, x: T, max: nat) -> Seq<T> {
    if s.len() >= max {
        s.drop_first().push(x)
    } else {
        s.push(x)
    }
}

/// Following `rest` down through objects from `cur`; none where a step
/// meets something that is not an object.
pub open spec fn walk_path(cur: Option<JsonModel>, rest: Seq<Seq<char>>) -> Option<JsonModel>
    decreases rest.len(),
{
    if rest.len() == 0 {
        cur
    } else {
        match cur {
            Some(JsonModel::Object(o)) => {
                let m = obj_map(o);
                walk_path(if m.contains_key(rest[0]) { Some(m[rest[0]]) } else { None }, rest.drop_first())
            },
            _ => None,
        }
    }
}

/// The value at a dotted path of a state: the first part names a field,
/// each further part a field of the object reached so far.
pub open spec fn path_value(state: Map<Seq<char>, JsonModel>, path: Seq<char>) -> Option<JsonModel> {
    let parts = split_spec(path, '.');
    walk_path(if state.contains_key(parts[0]) { Some(state[parts[0]]) } else { None }, parts.drop_first())
}

proof fn lemma_obj_map_suffix(o: Seq<(Seq<char>, JsonModel)>, i: int, k: Seq<char>)
    requires
        0 <= i <= o.len(),
        forall|j: int| i <= j < o.len() ==> (#[trigger] o[j]).0 != k,
    ensures
        obj_map(o).contains_key(k) == obj_map(o.take(i)).contains_key(k),
        obj_map(o).contains_key(k) ==> obj_map(o)[k] == obj_map(o.take(i))[k],
    decreases o.len() - i,
{
    if i < o.len() {
        lemma_obj_map_suffix(o.drop_last(), i, k);
        assert(o.drop_last().take(i) =~= o.take(i));
    } else {
        assert(o.take(i) =~= o);
    }
}

/// The value of field `key` of an object's entries: the last entry with
/// that key.
pub fn object_field<'a>(entries: &'a Vec<(String, JsonValue)>, key: &str) -> (r: Option<&'a JsonValue>)
    ensures
        ({
            let m = obj_map(JsonValue::Object(*entries)@->Object_0);
            match r {
                Some(v) => m.contains_key(key@) && m[key@] == v@,
                None => !m.contains_key(key@),
            }
        }),
{
    let ghost o = JsonValue::Object(*entries)@->Object_0;
    assert(o.len() == entries@.len());
    let mut i: usize = entries.len();
    while i > 0
        invariant
            i <= entries@.len(),
            o == JsonValue::Object(*entries)@->Object_0,
            o.len() == entries@.len(),
            forall|j: int| i <= j < o.len() ==> (#[trigger] o[j]).0 != key@,
        decreases i,
    {
        assert(o[i - 1] == (entries@[i - 1].0@, entries@[i - 1].1@));
        if str_eq(entries[i - 1].0.as_str(), key) {
            proof {
                lemma_obj_map_suffix(o, i as int, key@);
                assert(o.take(i as int).drop_last() =~= o.take(i - 1));
                assert(o.take(i as int).last() == o[i - 1]);
            }
            return Some(&entries[i - 1].1);
        }
        i = i - 1;
    }
    proof {
        lemma_obj_map_suffix(o, 0, key@);
        assert(obj_map(o.take(0)) =~= Map::empty());
    }
    None
}

impl StateSnapshot {
    /// A snapshot of `state` at `node_id`, taken now, with a fresh id.
    pub fn from_state(state: &GraphState, node_id: String) -> (s: StateSnapshot)
        ensures
            s.id@.len() == 36,
            s.node_id == node_id,
            state_model(s.state) == state_model(state.values),
            string_map(s.metadata) == Map::<Seq<char>, Seq<char>>::empty(),
    {
        let metadata: StrMap<String> = StrMap::new();
        assert(string_map(metadata) =~= Map::<Seq<char>, Seq<char>>::empty());
        StateSnapshot {
            id: new_uuid_string(),
            timestamp: crate::clock::now_millis(),
            node_id,
            state: clone_state(&state.values),
            metadata,
        }
    }

    /// The field `key` of the snapshot's state.
    pub fn get_field(&self, key: &str) -> (r: Option<&JsonValue>)
        ensures
            match r {
                Some(v) => self.state.map().contains_key(key@) && *v == self.state.map()[key@],
                None => !self.state.map().contains_key(key@),
            },
    {
        self.state.get(key)
    }

    /// A copy, recording the same.
    pub fn copy(&self) -> (r: StateSnapshot)
        ensures
            snapshot_view(r) == snapshot_view(*self),
    {
        StateSnapshot {
            id: self.id.clone(),
            timestamp: self.timestamp,
            node_id: self.node_id.clone(),
            state: clone_state(&self.state),
            metadata: copy_string_map(&self.metadata),
        }
    }
}

/// Copies of the snapshots whose flag is set, in order.
fn copy_masked(s: &Vec<StateSnapshot>, mask: &Vec<bool>) -> (r: Vec<StateSnapshot>)
    requires
        mask@.len() == s@.len(),
    ensures
        snapshots_view(r@) == snapshots_view(masked(s@, mask@)),
{
    let mut r: Vec<StateSnapshot> = Vec::new();
    let mut i: usize = 0;
    while i < s.len()
        invariant
            i <= s@.len(),
            mask@.len() == s@.len(),
            snapshots_view(r@) == snapshots_view(masked(s@.take(i as int), mask@)),
        decreases s@.len() - i,
    {
        let ghost pre = s@.take(i as int);
        assert(s@.take(i + 1).drop_last() =~= pre);
        assert(s@.take(i + 1).last() == s@[i as int]);
        if mask[i] {
            let c = s[i].copy();
            let ghost before = r@;
            r.push(c);
            assert(masked(s@.take(i + 1), mask@) == masked(pre, mask@).push(s@[i as int]));
            assert(snapshots_view(r@) =~= snapshots_view(before).push(snapshot_view(s@[i as int])));
            assert(snapshots_view(masked(pre, mask@).push(s@[i as int])) =~= snapshots_view(masked(pre, mask@)).push(
                snapshot_view(s@[i as int]),
            ));
        }
        i = i + 1;
    }
    assert(s@.take(i as int) =~= s@);
    r
}

/// Keeps snapshots of the state, oldest first, up to a limit.
pub struct StateInspector {
    /// The snapshots, oldest first
    pub snapshots: Vec<StateSnapshot>,
    /// Whether graph snapshots are taken
    pub enabled: bool,
    /// The most snapshots kept
    pub max_snapshots: usize,
}

impl StateInspector {
    /// An enabled inspector that keeps up to 1000 snapshots.
    pub fn new() -> (i: StateInspector)
        ensures
            i.snapshots@.len() == 0,
            i.enabled,
            i.max_snapshots == 1000,
    {
        StateInspector::with_max_snapshots(1000)
    }

    /// An enabled inspector that keeps up to `max_snapshots` snapshots.
    pub fn with_max_snapshots(max_snapshots: usize) -> (i: StateInspector)
        ensures
            i.snapshots@.len() == 0,
            i.enabled,
            i.max_snapshots == max_snapshots,
    {
        StateInspector { snapshots: Vec::new(), enabled: true, max_snapshots }
    }

    /// Turns graph snapshots on or off.
    pub fn set_enabled(&mut self, enabled: bool)
        ensures
            final(self).enabled == enabled,
            final(self).snapshots == old(self).snapshots,
            final(self).max_snapshots == old(self).max_snapshots,
    {
        self.enabled = enabled;
    }

    /// Whether graph snapshots are taken.
    pub fn is_enabled(&self) -> (b: bool)
        ensures
            b == self.enabled,
    {
        self.enabled
    }

    /// Keeps `snapshot` last, dropping the oldest where the limit is reached.
    pub fn record(&mut self, snapshot: StateSnapshot)
        requires
            old(self).max_snapshots > 0,
        ensures
            final(self).snapshots@ == bounded_push(old(self).snapshots@, snapshot, old(self).max_snapshots as nat),
            final(self).enabled == old(self).enabled,
            final(self).max_snapshots == old(self).max_snapshots,
    {
        if self.snapshots.len() >= self.max_snapshots {
            self.snapshots.remove(0);
        }
        self.snapshots.push(snapshot);
        assert(self.snapshots@ =~= bounded_push(old(self).snapshots@, snapshot, old(self).max_snapshots as nat));
    }

    /// Takes a snapshot of `state` at `node_id` now; returns its id.
    pub fn capture_snapshot(&mut self, node_id: &str, state: &StateData) -> (id: String)
        requires
            old(self).max_snapshots > 0,
        ensures
            final(self).snapshots@ == bounded_push(old(self).snapshots@, final(self).snapshots@.last(), old(self).max_snapshots as nat),
            final(self).snapshots@.last().id@ == id@,
            final(self).snapshots@.last().node_id@ == node_id@,
            state_model(final(self).snapshots@.last().state) == state_model(*state),
            string_map(final(self).snapshots@.last().metadata) == Map::<Seq<char>, Seq<char>>::empty(),
            final(self).enabled == old(self).enabled,
            final(self).max_snapshots == old(self).max_snapshots,
    {
        let metadata: StrMap<String> = StrMap::new();
        assert(string_map(metadata) =~= Map::<Seq<char>, Seq<char>>::empty());
        let snapshot = StateSnapshot {
            id: new_uuid_string(),
            timestamp: crate::clock::now_millis(),
            node_id: node_id.to_owned(),
            state: clone_state(state),
            metadata,
        };
        let id = snapshot.id.clone();
        self.record(snapshot);
        id
    }

    /// Takes a snapshot of a graph state at `node_id` where inspection is
    /// enabled, and returns its id; the empty id where it is not.
    pub fn capture_graph_snapshot(&mut self, state: &GraphState, node_id: String) -> (r: Result<String, crate::error::LangGraphError>)
        requires
            old(self).max_snapshots > 0,
        ensures
            r is Ok,
            !old(self).enabled ==> r->Ok_0@.len() == 0 && final(self).snapshots == old(self).snapshots,
            old(self).enabled ==> {
                &&& final(self).snapshots@ == bounded_push(old(self).snapshots@, final(self).snapshots@.last(), old(self).max_snapshots as nat)
                &&& final(self).snapshots@.last().id@ == r->Ok_0@
                &&& final(self).snapshots@.last().node_id == node_id
                &&& state_model(final(self).snapshots@.last().state) == state_model(state.values)
            },
            final(self).enabled == old(self).enabled,
            final(self).max_snapshots == old(self).max_snapshots,
    {
        if !self.enabled {
            return Ok(String::new());
        }
        let snapshot = StateSnapshot::from_state(state, node_id);
        let id = snapshot.id.clone();
        self.record(snapshot);
        Ok(id)
    }

    /// Takes a snapshot of the fields of `state` that `filter` keeps.
    pub fn capture_snapshot_with_filter(&mut self, node_id: &str, state: &StateData, filter: &StateFilter) -> (id: String)
        requires
            old(self).max_snapshots > 0,
        ensures
            final(self).snapshots@ == bounded_push(old(self).snapshots@, final(self).snapshots@.last(), old(self).max_snapshots as nat),
            final(self).snapshots@.last().id@ == id@,
            final(self).snapshots@.last().node_id@ == node_id@,
            state_model(final(self).snapshots@.last().state) == state_model(*state).restrict(
                state_model(*state).dom().filter(|k: Seq<char>| keeps(*filter, k)),
            ),
            final(self).enabled == old(self).enabled,
            final(self).max_snapshots == old(self).max_snapshots,
    {
        let filtered = filter.apply(state);
        let snapshot = StateSnapshot {
            id: new_uuid_string(),
            timestamp: crate::clock::now_millis(),
            node_id: node_id.to_owned(),
            state: filtered,
            metadata: StrMap::new(),
        };
        let id = snapshot.id.clone();
        self.record(snapshot);
        id
    }

    /// Copies of the snapshots taken at `node_id`.
    pub fn query_by_node(&self, node_id: &str) -> (r: Vec<StateSnapshot>)
        ensures
            snapshots_view(r@) == snapshots_view(snapshots_where(self.snapshots@, |s: StateSnapshot| s.node_id@ == node_id@)),
    {
        let mut mask: Vec<bool> = Vec::new();
        let mut i: usize = 0;
        while i < self.snapshots.len()
            invariant
                i <= self.snapshots@.len(),
                mask@.len() == i,
                forall|j: int| 0 <= j < i ==> mask@[j] == (self.snapshots@[j].node_id@ == node_id@),
            decreases self.snapshots@.len() - i,
        {
            mask.push(str_eq(self.snapshots[i].node_id.as_str(), node_id));
            i = i + 1;
        }
        assert(mask@ =~= flags(self.snapshots@, |s: StateSnapshot| s.node_id@ == node_id@));
        copy_masked(&self.snapshots, &mask)
    }

    /// Copies of the snapshots taken from `start` to `end`, both included.
    pub fn query_by_time(&self, start: i64, end: i64) -> (r: Vec<StateSnapshot>)
        ensures
            snapshots_view(r@) == snapshots_view(
                snapshots_where(self.snapshots@, |s: StateSnapshot| start <= s.timestamp <= end),
            ),
    {
        let mut mask: Vec<bool> = Vec::new();
        let mut i: usize = 0;
        while i < self.snapshots.len()
            invariant
                i <= self.snapshots@.len(),
                mask@.len() == i,
                forall|j: int| 0 <= j < i ==> mask@[j] == (start <= self.snapshots@[j].timestamp <= end),
            decreases self.snapshots@.len() - i,
        {
            let t = self.snapshots[i].timestamp;
            mask.push(t >= start && t <= end);
            i = i + 1;
        }
        assert(mask@ =~= flags(self.snapshots@, |s: StateSnapshot| start <= s.timestamp <= end));
        copy_masked(&self.snapshots, &mask)
    }

    /// Copies of the snapshots whose field `field` has the value `value`.
    pub fn search(&self, field: &str, value: &JsonValue) -> (r: Vec<StateSnapshot>)
        ensures
            snapshots_view(r@) == snapshots_view(
                snapshots_where(
                    self.snapshots@,
                    |s: StateSnapshot| state_model(s.state).contains_key(field@) && state_model(s.state)[field@] == value@,
                ),
            ),
    {
        let mut mask: Vec<bool> = Vec::new();
        let mut i: usize = 0;
        while i < self.snapshots.len()
            invariant
                i <= self.snapshots@.len(),
                mask@.len() == i,
                forall|j: int|
                    0 <= j < i ==> mask@[j] == (state_model(self.snapshots@[j].state).contains_key(field@)
                        && state_model(self.snapshots@[j].state)[field@] == value@),
            decreases self.snapshots@.len() - i,
        {
            let hit = match self.snapshots[i].state.get(field) {
                Some(v) => v.deep_eq(value),
                None => false,
            };
            mask.push(hit);
            i = i + 1;
        }
        assert(mask@ =~= flags(
            self.snapshots@,
            |s: StateSnapshot| state_model(s.state).contains_key(field@) && state_model(s.state)[field@] == value@,
        ));
        copy_masked(&self.snapshots, &mask)
    }

    /// Copies of the snapshots, of `node_filter`'s node only where given,
    /// the first `limit` of them where a limit is given.
    pub fn get_history(&self, node_filter: Option<&str>, limit: Option<usize>) -> (r: Vec<StateSnapshot>)
        ensures
            ({
                let all = match node_filter {
                    Some(n) => snapshots_where(self.snapshots@, |s: StateSnapshot| s.node_id@ == n@),
                    None => self.snapshots@,
                };
                snapshots_view(r@) == snapshots_view(match limit {
                    Some(l) => if l < all.len() { all.take(l as int) } else { all },
                    None => all,
                })
            }),
    {
        let mut result = match node_filter {
            Some(n) => self.query_by_node(n),
            None => {
                let mut mask: Vec<bool> = Vec::new();
                let mut i: usize = 0;
                while i < self.snapshots.len()
                    invariant
                        i <= self.snapshots@.len(),
                        mask@.len() == i,
                        forall|j: int| 0 <= j < i ==> mask@[j],
                    decreases self.snapshots@.len() - i,
                {
                    mask.push(true);
                    i = i + 1;
                }
                proof {
                    lemma_masked_all(self.snapshots@, mask@);
                }
                copy_masked(&self.snapshots, &mask)
            },
        };
        let ghost before = result@;
        match limit {
            Some(l) => {
                result.truncate(l);
                proof {
                    if l < before.len() {
                        assert(snapshots_view(result@) =~= snapshots_view(before).take(l as int));
                    }
                }
            },
            None => {},
        }
        proof {
            let all = match node_filter {
                Some(n) => snapshots_where(self.snapshots@, |s: StateSnapshot| s.node_id@ == n@),
                None => self.snapshots@,
            };
            match limit {
                Some(l) => if l < all.len() {
                    assert(snapshots_view(all.take(l as int)) =~= snapshots_view(all).take(l as int));
                },
                None => {},
            }
        }
        result
    }

    /// A copy of the first snapshot with id `snapshot_id`.
    pub fn get_snapshot(&self, snapshot_id: &str) -> (r: Option<StateSnapshot>)
        ensures
            match r {
                Some(s) => exists|i: int|
                    0 <= i < self.snapshots@.len() && self.snapshots@[i].id@ == snapshot_id@
                        && (forall|j: int| 0 <= j < i ==> #[trigger] self.snapshots@[j].id@ != snapshot_id@)
                        && snapshot_view(s) == snapshot_view(self.snapshots@[i]),
                None => forall|j: int| 0 <= j < self.snapshots@.len() ==> #[trigger] self.snapshots@[j].id@ != snapshot_id@,
            },
    {
        let mut i: usize = 0;
        while i < self.snapshots.len()
            invariant
                i <= self.snapshots@.len(),
                forall|j: int| 0 <= j < i ==> #[trigger] self.snapshots@[j].id@ != snapshot_id@,
            decreases self.snapshots@.len() - i,
        {
            if str_eq(self.snapshots[i].id.as_str(), snapshot_id) {
                return Some(self.snapshots[i].copy());
            }
            i = i + 1;
        }
        None
    }

    /// The value at the dotted `path` (such as `user.name`) of the state of
    /// the snapshot `snapshot_id`.
    #[verifier::loop_isolation(false)]
    pub fn query_state(&self, snapshot_id: &str, path: &str) -> (r: Option<JsonValue>)
        ensures
            match r {
                Some(v) => exists|i: int|
                    0 <= i < self.snapshots@.len() && self.snapshots@[i].id@ == snapshot_id@
                        && (forall|j: int| 0 <= j < i ==> #[trigger] self.snapshots@[j].id@ != snapshot_id@)
                        && path_value(state_model(self.snapshots@[i].state), path@) == Some(v@),
                None => (forall|j: int| 0 <= j < self.snapshots@.len() ==> #[trigger] self.snapshots@[j].id@ != snapshot_id@)
                    || exists|i: int|
                    0 <= i < self.snapshots@.len() && self.snapshots@[i].id@ == snapshot_id@
                        && (forall|j: int| 0 <= j < i ==> #[trigger] self.snapshots@[j].id@ != snapshot_id@)
                        && path_value(state_model(self.snapshots@[i].state), path@) is None,
            },
    {
        let snapshot = match self.get_snapshot(snapshot_id) {
            Some(s) => s,
            None => {
                return None;
            },
        };
        let chars = to_chars(path);
        let parts = split_chars(chars.as_slice(), '.');
        proof {
            crate::text::lemma_split_nonempty(path@, '.');
        }
        let ghost ps = split_spec(path@, '.');
        let ghost sm = state_model(snapshot.state);
        let first = from_chars(parts[0].as_slice());
        let mut current: Option<&JsonValue> = snapshot.state.get(first.as_str());
        let ghost start = if sm.contains_key(ps[0]) { Some(sm[ps[0]]) } else { None };
        assert(path_value(sm, path@) == walk_path(start, ps.drop_first()));
        assert(ps.drop_first() =~= ps.skip(1));
        assert(current matches Some(v) ==> start == Some(v@));
        assert(current is None ==> start is None);
        let mut i: usize = 1;
        while i < parts.len()
            invariant
                1 <= i <= parts@.len(),
                parts@.len() == ps.len(),
                path_value(sm, path@) == walk_path(start, ps.drop_first()),
                forall|j: int| 0 <= j < parts@.len() ==> #[trigger] parts@[j]@ == ps[j],
                walk_path(start, ps.drop_first()) == walk_path(
                    match current {
                        Some(v) => Some(v@),
                        None => None,
                    },
                    ps.skip(i as int),
                ),
            decreases parts@.len() - i,
        {
            assert(ps.skip(i as int)[0] == ps[i as int]);
            assert(ps.skip(i as int).drop_first() =~= ps.skip(i + 1));
            let key = from_chars(parts[i].as_slice());
            match current {
                Some(JsonValue::Object(entries)) => {
                    current = object_field(entries, key.as_str());
                },
                _ => {
                    assert(ps.skip(i as int).len() > 0);
                    assert(path_value(sm, path@) is None);
                    return None;
                },
            }
            i = i + 1;
        }
        assert(ps.skip(i as int).len() == 0);
        match current {
            Some(v) => Some(v.deep_clone()),
            None => None,
        }
    }

    /// The fields of the snapshot `snapshot_id` whose name, or whose string
    /// value, contains `pattern`, ignoring case; none where the snapshot is
    /// not kept.
    pub fn search_state(&self, snapshot_id: &str, pattern: &str) -> (r: Vec<(String, JsonValue)>)
        ensures
            (forall|j: int| 0 <= j < self.snapshots@.len() ==> #[trigger] self.snapshots@[j].id@ != snapshot_id@) ==> r@.len() == 0,
            forall|i: int|
                0 <= i < r@.len() ==> contains_seq(lowercase(#[trigger] r@[i].0@), lowercase(pattern@)) || (r@[i].1
                    matches JsonValue::String(v) && contains_seq(lowercase(v@), lowercase(pattern@))),
            forall|i: int|
                #[trigger] first_snapshot(self.snapshots@, snapshot_id@, i) ==> entry_models(r@) == field_hits(
                    state_entries_model(self.snapshots@[i].state),
                    lowercase(pattern@),
                ),
    {
        let idx = match self.find_snapshot(snapshot_id) {
            Some(i) => i,
            None => {
                return Vec::new();
            },
        };
        let st = &self.snapshots[idx].state;
        let ghost sem = state_entries_model(*st);
        let needle = to_chars(to_lower(pattern).as_str());
        let mut r: Vec<(String, JsonValue)> = Vec::new();
        let mut i: usize = 0;
        while i < st.len()
            invariant
                i <= st.spec_entries().len(),
                sem == state_entries_model(*st),
                needle@ == lowercase(pattern@),
                entry_models(r@) == field_hits(sem.take(i as int), lowercase(pattern@)),
                forall|j: int|
                    0 <= j < r@.len() ==> contains_seq(lowercase(#[trigger] r@[j].0@), lowercase(pattern@)) || (r@[j].1
                        matches JsonValue::String(v) && contains_seq(lowercase(v@), lowercase(pattern@))),
            decreases st.spec_entries().len() - i,
        {
            let k = st.key_at(i);
            let v = st.value_at(i);
            proof {
                assert(sem.take(i + 1).drop_last() =~= sem.take(i as int));
                assert(sem.take(i + 1).last() == (k@, v@));
            }
            let key_hit = contains_chars(to_chars(to_lower(k.as_str()).as_str()).as_slice(), needle.as_slice());
            let value_hit = match v {
                JsonValue::String(t) => contains_chars(to_chars(to_lower(t.as_str()).as_str()).as_slice(), needle.as_slice()),
                _ => false,
            };
            assert(value_hit == match v@ {
                JsonModel::Str(t) => contains_seq(lowercase(t), lowercase(pattern@)),
                _ => false,
            });
            if key_hit || value_hit {
                let ghost before = r@;
                let e = (k.clone(), v.deep_clone());
                r.push(e);
                assert(entry_models(r@) =~= entry_models(before).push((k@, v@)));
            }
            i = i + 1;
        }
        assert(sem.take(sem.len() as int) =~= sem);
        r
    }

    /// The position of the first snapshot with id `snapshot_id`.
    fn find_snapshot(&self, snapshot_id: &str) -> (r: Option<usize>)
        ensures
            match r {
                Some(i) => first_snapshot(self.snapshots@, snapshot_id@, i as int),
                None => forall|j: int| 0 <= j < self.snapshots@.len() ==> #[trigger] self.snapshots@[j].id@ != snapshot_id@,
            },
    {
        let mut i: usize = 0;
        while i < self.snapshots.len()
            invariant
                i <= self.snapshots@.len(),
                forall|j: int| 0 <= j < i ==> #[trigger] self.snapshots@[j].id@ != snapshot_id@,
            decreases self.snapshots@.len() - i,
        {
            if str_eq(self.snapshots[i].id.as_str(), snapshot_id) {
                return Some(i);
            }
            i = i + 1;
        }
        None
    }

    /// Starts a watch session and returns its id; changes are not yet
    /// tracked.
    pub fn watch_for_changes(&self, node_pattern: Option<&str>) -> (id: String)
        ensures
            id@.len() == 36,
    {
        new_uuid_string()
    }

    /// The changes of a watch session: none are tracked yet.
    pub fn get_watch_changes(&self, session_id: &str) -> (r: Vec<StateSnapshot>)
        ensures
            r@.len() == 0,
    {
        Vec::new()
    }

    /// Turns inspection on; the nodes are not yet told apart.
    pub fn enable_for_nodes(&mut self, nodes: Vec<String>)
        ensures
            final(self).enabled,
            final(self).snapshots == old(self).snapshots,
            final(self).max_snapshots == old(self).max_snapshots,
    {
        self.set_enabled(true);
    }

    /// Turns inspection off; the nodes are not yet told apart.
    pub fn disable_for_nodes(&mut self, nodes: Vec<String>)
        ensures
            !final(self).enabled,
            final(self).snapshots == old(self).snapshots,
            final(self).max_snapshots == old(self).max_snapshots,
    {
        self.set_enabled(false);
    }

    /// A copy of the newest snapshot.
    pub fn get_latest(&self) -> (r: Option<StateSnapshot>)
        ensures
            self.snapshots@.len() == 0 ==> r is None,
            self.snapshots@.len() > 0 ==> r is Some && snapshot_view(r->0) == snapshot_view(self.snapshots@.last()),
    {
        let n = self.snapshots.len();
        if n == 0 {
            None
        } else {
            Some(self.snapshots[n - 1].copy())
        }
    }

    /// Copies of all snapshots, oldest first.
    pub fn get_all_snapshots(&self) -> (r: Vec<StateSnapshot>)
        ensures
            snapshots_view(r@) == snapshots_view(self.snapshots@),
    {
        self.get_history(None, None)
    }

    /// Forgets all snapshots.
    pub fn clear(&mut self)
        ensures
            final(self).snapshots@.len() == 0,
            final(self).enabled == old(self).enabled,
            final(self).max_snapshots == old(self).max_snapshots,
    {
        self.snapshots = Vec::new();
    }

    /// For each snapshot, oldest first: its time, its node and its value of
    /// `field`.
    pub fn get_field_history(&self, field: &str) -> (r: Vec<(i64, String, Option<JsonValue>)>)
        ensures
            r@.len() == self.snapshots@.len(),
            forall|i: int|
                0 <= i < r@.len() ==> {
                    let s = #[trigger] self.snapshots@[i];
                    &&& r@[i].0 == s.timestamp
                    &&& r@[i].1@ == s.node_id@
                    &&& match r@[i].2 {
                        Some(v) => state_model(s.state).contains_key(field@) && v@ == state_model(s.state)[field@],
                        None => !state_model(s.state).contains_key(field@),
                    }
                },
    {
        let mut r: Vec<(i64, String, Option<JsonValue>)> = Vec::new();
        let mut i: usize = 0;
        while i < self.snapshots.len()
            invariant
                i <= self.snapshots@.len(),
                r@.len() == i,
                forall|j: int|
                    0 <= j < i ==> {
                        let s = #[trigger] self.snapshots@[j];
                        &&& r@[j].0 == s.timestamp
                        &&& r@[j].1@ == s.node_id@
                        &&& match r@[j].2 {
                            Some(v) => state_model(s.state).contains_key(field@) && v@ == state_model(s.state)[field@],
                            None => !state_model(s.state).contains_key(field@),
                        }
                    },
            decreases self.snapshots@.len() - i,
        {
            let s = &self.snapshots[i];
            let v = match s.state.get(field) {
                Some(v) => Some(v.deep_clone()),
                None => None,
            };
            r.push((s.timestamp, s.node_id.clone(), v));
            i = i + 1;
        }
        r
    }

    /// The fields whose values differ between the snapshots `id1` and `id2`,
    /// with the value in each (none where absent); an error naming a
    /// snapshot that is not kept.
    pub fn diff_snapshots(&self, id1: &str, id2: &str) -> (r: Result<StrMap<(Option<JsonValue>, Option<JsonValue>)>, crate::error::LangGraphError>)
        ensures
            r is Err ==> (forall|j: int| 0 <= j < self.snapshots@.len() ==> #[trigger] self.snapshots@[j].id@ != id1@)
                || (forall|j: int| 0 <= j < self.snapshots@.len() ==> #[trigger] self.snapshots@[j].id@ != id2@),
            r is Ok ==> exists|a: int, b: int|
                0 <= a < self.snapshots@.len() && 0 <= b < self.snapshots@.len()
                    && #[trigger] self.snapshots@[a].id@ == id1@ && #[trigger] self.snapshots@[b].id@ == id2@
                    && option_pairs(r->Ok_0) == field_changes(state_model(self.snapshots@[a].state), state_model(self.snapshots@[b].state)),
    {
        let s1 = match self.get_snapshot(id1) {
            Some(s) => s,
            None => {
                return Err(crate::error::LangGraphError::Internal(not_found(id1)));
            },
        };
        let s2 = match self.get_snapshot(id2) {
            Some(s) => s,
            None => {
                return Err(crate::error::LangGraphError::Internal(not_found(id2)));
            },
        };
        Ok(field_changes_of(&s1.state, &s2.state))
    }

    /// The difference from the snapshot `id1` to the snapshot `id2`; empty
    /// where either is not kept.
    pub fn diff_states(&self, id1: &str, id2: &str) -> (r: StateDiff)
        ensures
            (exists|a: int, b: int|
                0 <= a < self.snapshots@.len() && 0 <= b < self.snapshots@.len()
                    && #[trigger] self.snapshots@[a].id@ == id1@ && #[trigger] self.snapshots@[b].id@ == id2@
                    && state_model(r.added) == added_fields(state_model(self.snapshots@[a].state), state_model(self.snapshots@[b].state))
                    && pair_model(r.modified) == modified_fields(state_model(self.snapshots@[a].state), state_model(self.snapshots@[b].state))
                    && state_model(r.removed) == removed_fields(state_model(self.snapshots@[a].state), state_model(self.snapshots@[b].state)))
            || (r.added.map().len() == 0 && r.modified.map().len() == 0 && r.removed.map().len() == 0),
    {
        match (self.get_snapshot(id1), self.get_snapshot(id2)) {
            (Some(s1), Some(s2)) => {
                let d = crate::state::advanced::StateDiff::calculate(&s1.state, &s2.state);
                StateDiff { added: d.added, removed: d.removed, modified: d.modified }
            },
            _ => StateDiff::new(),
        }
    }

    /// The state of the snapshot `snapshot_id` written out: pretty JSON
    /// text of the state object, or a `key: value` line per field, or
    /// nothing for CSV; nothing where the snapshot is not kept.
    pub fn export_snapshot(&self, snapshot_id: &str, format: ExportFormat) -> (r: String)
        ensures
            (forall|j: int| 0 <= j < self.snapshots@.len() ==> #[trigger] self.snapshots@[j].id@ != snapshot_id@) ==> r@.len() == 0,
            format == ExportFormat::Csv ==> r@.len() == 0,
            forall|i: int|
                #[trigger] first_snapshot(self.snapshots@, snapshot_id@, i) ==> r@ == exported_text(
                    self.snapshots@[i].state,
                    format,
                ),
    {
        match self.find_snapshot(snapshot_id) {
            Some(i) => {
                let st = &self.snapshots[i].state;
                match format {
                    ExportFormat::Json => {
                        let v = crate::state::state_object(st);
                        crate::json::json_pretty_of(&v)
                    },
                    ExportFormat::Yaml => yaml_lines(st),
                    ExportFormat::Csv => String::new(),
                }
            },
            None => String::new(),
        }
    }
}

/// Every flag set keeps every element.
pub proof fn lemma_masked_all<T>(s: Seq<T>, mask: Seq<bool>)
    requires
        mask.len() == s.len(),
        forall|j: int| 0 <= j < mask.len() ==> mask[j],
    ensures
        masked(s, mask) == s,
    decreases s.len(),
{
    if s.len() > 0 {
        lemma_masked_all(s.drop_last(), mask.take(s.len() - 1));
        lemma_masked_prefix(s.drop_last(), mask);
        assert(s.drop_last().push(s.last()) =~= s);
    }
}

/// Taking by flags keeps at most all elements.
pub proof fn lemma_masked_len<T>(s: Seq<T>, mask: Seq<bool>)
    ensures
        masked(s, mask).len() <= s.len(),
    decreases s.len(),
{
    if s.len() > 0 {
        lemma_masked_len(s.drop_last(), mask);
    }
}

/// Only the first flags matter.
proof fn lemma_masked_prefix<T>(s: Seq<T>, mask: Seq<bool>)
    requires
        mask.len() >= s.len(),
    ensures
        masked(s, mask) == masked(s, mask.take(s.len() as int)),
    decreases s.len(),
{
    if s.len() > 0 {
        lemma_masked_prefix(s.drop_last(), mask);
        lemma_masked_prefix(s.drop_last(), mask.take(s.len() as int));
        assert(mask.take(s.len() as int).take(s.len() - 1) =~= mask.take(s.len() - 1));
    }
}

/// How `str::to_lowercase` lowercases a text, by Unicode's rules.
pub uninterp spec fn lowercase(s: Seq<char>) -> Seq<char>;

/// `str::to_lowercase` of std: each character by its Unicode lowercase
/// mapping. The contract names the result.
#[verifier::external_body]
fn to_lower(s: &str) -> (r: String)
    ensures
        r@ == lowercase(s@),
{
    s.to_lowercase()
}

/// The changes between two states: each field either has, with its value in
/// each where it differs.
pub open spec fn field_changes(
    a: Map<Seq<char>, JsonModel>,
    b: Map<Seq<char>, JsonModel>,
) -> Map<Seq<char>, (Option<JsonModel>, Option<JsonModel>)> {
    Map::new(
        |k: Seq<char>| (a.contains_key(k) || b.contains_key(k)) && !(a.contains_key(k) && b.contains_key(k) && a[k] == b[k]),
        |k: Seq<char>|
            (
                if a.contains_key(k) { Some(a[k]) } else { None },
                if b.contains_key(k) { Some(b[k]) } else { None },
            ),
    )
}

/// The meaning of a map of optional value pairs.
pub open spec fn option_pairs(m: StrMap<(Option<JsonValue>, Option<JsonValue>)>) -> Map<Seq<char>, (Option<JsonModel>, Option<JsonModel>)> {
    m.map().map_values(
        |p: (Option<JsonValue>, Option<JsonValue>)|
            (
                match p.0 {
                    Some(v) => Some(v@),
                    None => None,
                },
                match p.1 {
                    Some(v) => Some(v@),
                    None => None,
                },
            ),
    )
}

fn not_found(id: &str) -> (s: String)
    ensures
        s@ == "Snapshot "@ + id@ + " not found"@,
{
    let a = crate::text::concat_str("Snapshot ", id);
    crate::text::concat_str(a.as_str(), " not found")
}

fn opt_model(v: Option<&JsonValue>) -> (r: Option<JsonValue>)
    ensures
        match v {
            Some(x) => r is Some && r->0@ == x@,
            None => r is None,
        },
{
    match v {
        Some(x) => Some(x.deep_clone()),
        None => None,
    }
}

/// The fields whose values differ between `a` and `b`, with the value in
/// each.
pub fn field_changes_of(a: &StateData, b: &StateData) -> (r: StrMap<(Option<JsonValue>, Option<JsonValue>)>)
    ensures
        option_pairs(r) == field_changes(state_model(*a), state_model(*b)),
{
    a.assert_unique();
    b.assert_unique();
    let ghost am = state_model(*a);
    let ghost bm = state_model(*b);
    let ghost bs = b.spec_entries();
    let ghost as_ = a.spec_entries();
    let mut r: StrMap<(Option<JsonValue>, Option<JsonValue>)> = StrMap::new();
    assert(option_pairs(r) =~= Map::empty());
    let mut i: usize = 0;
    while i < b.len()
        invariant
            0 <= i <= bs.len(),
            bs == b.spec_entries(),
            keys_unique(bs),
            am == state_model(*a),
            option_pairs(r) == Map::new(
                |k: Seq<char>| entries_map(bs.take(i as int)).contains_key(k) && !(am.contains_key(k) && am[k] == entries_map(bs.take(i as int))[k]@),
                |k: Seq<char>| (if am.contains_key(k) { Some(am[k]) } else { None }, Some(entries_map(bs.take(i as int))[k]@)),
            ),
        decreases bs.len() - i,
    {
        proof {
            crate::state::lemma_prefix_map(bs, i as int);
        }
        let k = b.key_at(i);
        let v = b.value_at(i);
        let old_v = a.get(k.as_str());
        let same = match old_v {
            Some(x) => x.deep_eq(v),
            None => false,
        };
        let ghost before = option_pairs(r);
        let ghost key = bs[i as int].0;
        assert(k@ == key && *v == bs[i as int].1);
        if !same {
            let entry = (opt_model(old_v), Some(v.deep_clone()));
            r.insert(crate::json::copy_string(k), entry);
            assert(option_pairs(r) =~= before.insert(key, (if am.contains_key(key) { Some(am[key]) } else { None }, Some(v@))));
        }
        proof {
            let pm = entries_map(bs.take(i + 1));
            let qm = entries_map(bs.take(i as int));
            assert(pm == qm.insert(key, bs[i as int].1));
            assert(!qm.contains_key(key));
            assert(option_pairs(r) =~= Map::new(
                |k: Seq<char>| pm.contains_key(k) && !(am.contains_key(k) && am[k] == pm[k]@),
                |k: Seq<char>| (if am.contains_key(k) { Some(am[k]) } else { None }, Some(pm[k]@)),
            ));
        }
        i = i + 1;
    }
    proof {
        assert(bs.take(bs.len() as int) =~= bs);
    }
    let mut j: usize = 0;
    while j < a.len()
        invariant
            0 <= j <= as_.len(),
            as_ == a.spec_entries(),
            keys_unique(as_),
            am == state_model(*a),
            bm == state_model(*b),
            option_pairs(r) == Map::new(
                |k: Seq<char>| (bm.contains_key(k) && !(am.contains_key(k) && am[k] == bm[k]))
                    || (entries_map(as_.take(j as int)).contains_key(k) && !bm.contains_key(k)),
                |k: Seq<char>|
                    if bm.contains_key(k) {
                        (if am.contains_key(k) { Some(am[k]) } else { None }, Some(bm[k]))
                    } else {
                        (Some(entries_map(as_.take(j as int))[k]@), None)
                    },
            ),
        decreases as_.len() - j,
    {
        proof {
            crate::state::lemma_prefix_map(as_, j as int);
        }
        let k = a.key_at(j);
        let ghost key = as_[j as int].0;
        let ghost before = option_pairs(r);
        if !b.contains_key(k.as_str()) {
            let v = a.value_at(j);
            let entry = (Some(v.deep_clone()), None);
            r.insert(crate::json::copy_string(k), entry);
            assert(option_pairs(r) =~= before.insert(key, (Some(v@), None)));
        }
        proof {
            let pm = entries_map(as_.take(j + 1));
            let qm = entries_map(as_.take(j as int));
            assert(pm == qm.insert(key, as_[j as int].1));
            assert(!qm.contains_key(key));
            assert(option_pairs(r) =~= Map::new(
                |k: Seq<char>| (bm.contains_key(k) && !(am.contains_key(k) && am[k] == bm[k]))
                    || (pm.contains_key(k) && !bm.contains_key(k)),
                |k: Seq<char>|
                    if bm.contains_key(k) {
                        (if am.contains_key(k) { Some(am[k]) } else { None }, Some(bm[k]))
                    } else {
                        (Some(pm[k]@), None)
                    },
            ));
        }
        j = j + 1;
    }
    proof {
        assert(as_.take(as_.len() as int) =~= as_);
        assert(option_pairs(r) =~= field_changes(am, bm));
    }
    r
}

/// One `key: value` line per field: strings bare, other values as JSON.
fn yaml_lines(state: &StateData) -> (r: String)
    ensures
        r@ == yaml_text(state_entries_model(*state)),
{
    let ghost sem = state_entries_model(*state);
    let mut out = String::new();
    let mut i: usize = 0;
    while i < state.len()
        invariant
            i <= state.spec_entries().len(),
            sem == state_entries_model(*state),
            out@ == yaml_text(sem.take(i as int)),
        decreases state.spec_entries().len() - i,
    {
        proof {
            assert(sem.take(i + 1).drop_last() =~= sem.take(i as int));
        }
        let k = state.key_at(i);
        let v = state.value_at(i);
        assert(sem.take(i + 1).last() == (k@, v@));
        crate::text::push_str(&mut out, k.as_str());
        crate::text::push_str(&mut out, ": ");
        match v {
            JsonValue::String(s) => crate::text::push_str(&mut out, s.as_str()),
            v => {
                let t = crate::json::json_text_of(v);
                crate::text::push_str(&mut out, t.as_str());
            },
        }
        crate::text::push_str(&mut out, "\n");
        assert(out@ =~= yaml_text(sem.take(i + 1)));
        i = i + 1;
    }
    assert(sem.take(sem.len() as int) =~= sem);
    out
}

/// A value as a line shows it: a string bare, another value as JSON.
pub open spec fn yaml_value(m: JsonModel) -> Seq<char> {
    match m {
        JsonModel::Str(t) => t,
        _ => json_text(m),
    }
}

/// One `key: value` line per field, in order.
pub open spec fn yaml_text(es: Seq<(Seq<char>, JsonModel)>) -> Seq<char>
    decreases es.len(),
{
    if es.len() == 0 {
        Seq::empty()
    } else {
        yaml_text(es.drop_last()) + es.last().0 + ": "@ + yaml_value(es.last().1) + "\n"@
    }
}

/// A state written out in `format`: pretty JSON text of the state object,
/// `key: value` lines, or nothing for CSV.
pub open spec fn exported_text(s: StateData, format: ExportFormat) -> Seq<char> {
    match format {
        ExportFormat::Json => json_pretty_text(JsonModel::Object(state_entries_model(s))),
        ExportFormat::Yaml => yaml_text(state_entries_model(s)),
        ExportFormat::Csv => Seq::empty(),
    }
}

/// `i` is the position of the first snapshot with id `id`.
pub open spec fn first_snapshot(s: Seq<StateSnapshot>, id: Seq<char>, i: int) -> bool {
    &&& 0 <= i < s.len()
    &&& s[i].id@ == id
    &&& forall|k: int| 0 <= k < i ==> #[trigger] s[k].id@ != id
}

/// Whether a field matches a lowered pattern: its name, or its string
/// value, holds it, ignoring case.
pub open spec fn field_hit(k: Seq<char>, v: JsonModel, p: Seq<char>) -> bool {
    contains_seq(lowercase(k), p) || match v {
        JsonModel::Str(t) => contains_seq(lowercase(t), p),
        _ => false,
    }
}

/// The fields that match a lowered pattern, in order.
pub open spec fn field_hits(es: Seq<(Seq<char>, JsonModel)>, p: Seq<char>) -> Seq<(Seq<char>, JsonModel)>
    decreases es.len(),
{
    if es.len() == 0 {
        Seq::empty()
    } else if field_hit(es.last().0, es.last().1, p) {
        field_hits(es.drop_last(), p).push(es.last())
    } else {
        field_hits(es.drop_last(), p)
    }
}

} // verus!
