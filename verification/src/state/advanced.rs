//! Versioned state: differences between states, and the errors of
//! version, branch and snapshot operations.
use vstd::prelude::*;
use crate::json::{
    JsonValue, JsonModel, models, entry_models, clone_values, clone_entries, copy_string,
    object_insert, object_find, lemma_object_find, lemma_array_model, lemma_object_model,
};
use crate::keyed_map::{StrMap, keys_unique, entries_map, has_key, key_index, lemma_entries_map_at};
use crate::error::{LangGraphError, LgResult};
use crate::clock::current_timestamp;
use crate::state::{StateData, state_model, clone_state, copy_key, lemma_prefix_map, lemma_take_all};

verus! {

/// Errors related to advanced state operations.
#[derive(Debug)]
pub enum StateError {
    /// No version with this number.
    VersionNotFound(u64),
    /// No branch with this name.
    BranchNotFound(String),
    /// Two changes to the same field disagree.
    MergeConflict(String),
    /// The operation does not apply here.
    InvalidOperation(String),
    /// No snapshot with this id.
    SnapshotNotFound(String),
}

/// The fields that only `new` has, with their values.
pub open spec fn added_fields(
    old: Map<Seq<char>, JsonModel>,
    new: Map<Seq<char>, JsonModel>,
) -> Map<Seq<char>, JsonModel> {
    Map::new(|k: Seq<char>| new.contains_key(k) && !old.contains_key(k), |k: Seq<char>| new[k])
}

/// The fields that both have with different values: the old and the new value.
pub open spec fn modified_fields(
    old: Map<Seq<char>, JsonModel>,
    new: Map<Seq<char>, JsonModel>,
) -> Map<Seq<char>, (JsonModel, JsonModel)> {
    Map::new(
        |k: Seq<char>| new.contains_key(k) && old.contains_key(k) && old[k] != new[k],
        |k: Seq<char>| (old[k], new[k]),
    )
}

/// The fields that only `old` has, with their values.
pub open spec fn removed_fields(
    old: Map<Seq<char>, JsonModel>,
    new: Map<Seq<char>, JsonModel>,
) -> Map<Seq<char>, JsonModel> {
    Map::new(|k: Seq<char>| old.contains_key(k) && !new.contains_key(k), |k: Seq<char>| old[k])
}

/// The meaning of a map of value pairs.
pub open spec fn pair_model(m: StrMap<(JsonValue, JsonValue)>) -> Map<
    Seq<char>,
    (JsonModel, JsonModel),
> {
    m.map().map_values(|p: (JsonValue, JsonValue)| (p.0@, p.1@))
}

/// A state with a difference applied: added fields set, modified fields set
/// to their new values, removed fields dropped.
pub open spec fn diff_applied(
    s: Map<Seq<char>, JsonModel>,
    added: Map<Seq<char>, JsonModel>,
    modified: Map<Seq<char>, (JsonModel, JsonModel)>,
    removed: Map<Seq<char>, JsonModel>,
) -> Map<Seq<char>, JsonModel> {
    s.union_prefer_right(added).union_prefer_right(
        modified.map_values(|p: (JsonModel, JsonModel)| p.1),
    ).remove_keys(removed.dom())
}

/// The difference between two states.
#[derive(Debug)]
pub struct StateDiff {
    /// Fields only the newer state has.
    pub added: StateData,
    /// Fields whose value changed: the old and the new value.
    pub modified: StrMap<(JsonValue, JsonValue)>,
    /// Fields only the older state has.
    pub removed: StateData,
}

impl StateDiff {
    /// The difference from `old` to `new`.
    pub fn calculate(old: &StateData, new: &StateData) -> (d: StateDiff)
        ensures
            state_model(d.added) == added_fields(state_model(*old), state_model(*new)),
            pair_model(d.modified) == modified_fields(state_model(*old), state_model(*new)),
            state_model(d.removed) == removed_fields(state_model(*old), state_model(*new)),
    {
        new.assert_unique();
        old.assert_unique();
        let ghost es = new.spec_entries();
        let ghost os = old.spec_entries();
        let ghost om = state_model(*old);
        let ghost nm = state_model(*new);
        let mut added: StateData = StrMap::new();
        let mut modified: StrMap<(JsonValue, JsonValue)> = StrMap::new();
        let mut i: usize = 0;
        while i < new.len()
            invariant
                0 <= i <= es.len(),
                es == new.spec_entries(),
                keys_unique(es),
                om == state_model(*old),
                state_model(added) == added_fields(
                    om,
                    entries_map(es.take(i as int)).map_values(|v: JsonValue| v@),
                ),
                pair_model(modified) == modified_fields(
                    om,
                    entries_map(es.take(i as int)).map_values(|v: JsonValue| v@),
                ),
            decreases es.len() - i,
        {
            proof {
                lemma_prefix_map(es, i as int);
            }
            let k = new.key_at(i);
            let v = new.value_at(i);
            let ghost m_old = entries_map(es.take(i as int)).map_values(|v: JsonValue| v@);
            let ghost m_new = entries_map(es.take(i + 1)).map_values(|v: JsonValue| v@);
            let ghost a0 = state_model(added);
            let ghost p0 = pair_model(modified);
            proof {
                assert(m_new =~= m_old.insert(k@, v@));
                assert(!m_old.contains_key(k@));
            }
            match old.get(k.as_str()) {
                Some(ov) => {
                    if !ov.deep_eq(v) {
                        let a = ov.deep_clone();
                        let b = v.deep_clone();
                        modified.insert(copy_key(k), (a, b));
                        proof {
                            assert(pair_model(modified) =~= p0.insert(k@, (ov@, v@)));
                        }
                    }
                    proof {
                        assert(pair_model(modified) =~= modified_fields(om, m_new));
                        assert(state_model(added) =~= added_fields(om, m_new));
                    }
                },
                None => {
                    let b = v.deep_clone();
                    added.insert(copy_key(k), b);
                    proof {
                        assert(state_model(added) =~= a0.insert(k@, v@));
                        assert(state_model(added) =~= added_fields(om, m_new));
                        assert(pair_model(modified) =~= modified_fields(om, m_new));
                    }
                },
            }
            i = i + 1;
        }
        proof {
            lemma_take_all(es);
            assert(entries_map(es).map_values(|v: JsonValue| v@) =~= nm);
        }
        let mut removed: StateData = StrMap::new();
        let mut j: usize = 0;
        while j < old.len()
            invariant
                0 <= j <= os.len(),
                os == old.spec_entries(),
                keys_unique(os),
                nm == state_model(*new),
                state_model(removed) == removed_fields(
                    entries_map(os.take(j as int)).map_values(|v: JsonValue| v@),
                    nm,
                ),
            decreases os.len() - j,
        {
            proof {
                lemma_prefix_map(os, j as int);
            }
            let k = old.key_at(j);
            let v = old.value_at(j);
            let ghost m_old = entries_map(os.take(j as int)).map_values(|v: JsonValue| v@);
            let ghost m_new = entries_map(os.take(j + 1)).map_values(|v: JsonValue| v@);
            let ghost r0 = state_model(removed);
            proof {
                assert(m_new =~= m_old.insert(k@, v@));
                assert(!m_old.contains_key(k@));
            }
            if !new.contains_key(k.as_str()) {
                let b = v.deep_clone();
                removed.insert(copy_key(k), b);
                proof {
                    assert(state_model(removed) =~= r0.insert(k@, v@));
                }
            }
            proof {
                assert(state_model(removed) =~= removed_fields(m_new, nm));
            }
            j = j + 1;
        }
        proof {
            lemma_take_all(os);
            assert(entries_map(os).map_values(|v: JsonValue| v@) =~= om);
        }
        StateDiff { added, modified, removed }
    }

    /// Applies the difference to `state`.
    pub fn apply(&self, state: &mut StateData)
        ensures
            state_model(*final(state)) == diff_applied(
                state_model(*old(state)),
                state_model(self.added),
                pair_model(self.modified),
                state_model(self.removed),
            ),
    {
        self.added.assert_unique();
        self.modified.assert_unique();
        self.removed.assert_unique();
        let ghost s0 = state_model(*state);
        let ghost am = state_model(self.added);
        let ghost pm = pair_model(self.modified);
        let ghost es = self.added.spec_entries();
        let mut i: usize = 0;
        while i < self.added.len()
            invariant
                0 <= i <= es.len(),
                es == self.added.spec_entries(),
                keys_unique(es),
                state_model(*state) == s0.union_prefer_right(
                    entries_map(es.take(i as int)).map_values(|v: JsonValue| v@),
                ),
            decreases es.len() - i,
        {
            proof {
                lemma_prefix_map(es, i as int);
            }
            let k = copy_key(self.added.key_at(i));
            let v = self.added.value_at(i).deep_clone();
            let ghost before = state_model(*state);
            let ghost m_new = entries_map(es.take(i + 1)).map_values(|v: JsonValue| v@);
            state.insert(k, v);
            proof {
                assert(m_new =~= entries_map(es.take(i as int)).map_values(|v: JsonValue| v@).insert(
                    k@,
                    v@,
                ));
                assert(state_model(*state) =~= before.insert(k@, v@));
                assert(state_model(*state) =~= s0.union_prefer_right(m_new));
            }
            i = i + 1;
        }
        proof {
            lemma_take_all(es);
            assert(entries_map(es).map_values(|v: JsonValue| v@) =~= am);
        }
        let ghost s1 = state_model(*state);
        let ghost ms = self.modified.spec_entries();
        let mut j: usize = 0;
        while j < self.modified.len()
            invariant
                0 <= j <= ms.len(),
                ms == self.modified.spec_entries(),
                keys_unique(ms),
                state_model(*state) == s1.union_prefer_right(
                    entries_map(ms.take(j as int)).map_values(|p: (JsonValue, JsonValue)| p.1@),
                ),
            decreases ms.len() - j,
        {
            proof {
                lemma_prefix_map(ms, j as int);
            }
            let k = copy_key(self.modified.key_at(j));
            let v = self.modified.value_at(j).1.deep_clone();
            let ghost before = state_model(*state);
            let ghost m_new = entries_map(ms.take(j + 1)).map_values(
                |p: (JsonValue, JsonValue)| p.1@,
            );
            state.insert(k, v);
            proof {
                assert(m_new =~= entries_map(ms.take(j as int)).map_values(
                    |p: (JsonValue, JsonValue)| p.1@,
                ).insert(k@, v@));
                assert(state_model(*state) =~= before.insert(k@, v@));
                assert(state_model(*state) =~= s1.union_prefer_right(m_new));
            }
            j = j + 1;
        }
        proof {
            lemma_take_all(ms);
            assert(entries_map(ms).map_values(|p: (JsonValue, JsonValue)| p.1@) =~= pm.map_values(
                |p: (JsonModel, JsonModel)| p.1,
            ));
        }
        let ghost s2 = state_model(*state);
        let ghost rs = self.removed.spec_entries();
        let mut t: usize = 0;
        while t < self.removed.len()
            invariant
                0 <= t <= rs.len(),
                rs == self.removed.spec_entries(),
                keys_unique(rs),
                state_model(*state) == s2.remove_keys(entries_map(rs.take(t as int)).dom()),
            decreases rs.len() - t,
        {
            proof {
                lemma_prefix_map(rs, t as int);
            }
            let ghost before = state_model(*state);
            let ghost key = rs[t as int].0;
            let _ = state.remove(self.removed.key_at(t).as_str());
            proof {
                assert(entries_map(rs.take(t + 1)).dom() =~= entries_map(rs.take(t as int)).dom().insert(
                    key,
                ));
                assert(state_model(*state) =~= before.remove(key));
                assert(state_model(*state) =~= s2.remove_keys(entries_map(rs.take(t + 1)).dom()));
            }
            t = t + 1;
        }
        proof {
            lemma_take_all(rs);
            assert(entries_map(rs).dom() =~= state_model(self.removed).dom());
        }
    }
}

/// Applying the difference from `old` to `new` to `old` gives `new`.
pub proof fn lemma_diff_roundtrip(old: Map<Seq<char>, JsonModel>, new: Map<Seq<char>, JsonModel>)
    ensures
        diff_applied(old, added_fields(old, new), modified_fields(old, new), removed_fields(old, new))
            == new,
{
    let r = diff_applied(
        old,
        added_fields(old, new),
        modified_fields(old, new),
        removed_fields(old, new),
    );
    assert(r =~= new);
}


/// An array extended by each value of `other` that it does not hold yet, in
/// the order of `other`.
pub open spec fn array_union(base: Seq<JsonModel>, other: Seq<JsonModel>) -> Seq<JsonModel>
    decreases other.len(),
{
    if other.len() == 0 {
        base
    } else {
        let r = array_union(base, other.drop_last());
        if r.contains(other.last()) {
            r
        } else {
            r.push(other.last())
        }
    }
}

/// The position of the first entry with key `k`, or -1.
pub open spec fn entry_pos(s: Seq<(Seq<char>, JsonModel)>, k: Seq<char>) -> int
    decreases s.len(),
{
    if s.len() == 0 {
        -1
    } else {
        let r = entry_pos(s.drop_last(), k);
        if r >= 0 {
            r
        } else if s.last().0 == k {
            s.len() - 1
        } else {
            -1
        }
    }
}

/// The entries of an object with key `k` set to `v`: the first entry with
/// that key is replaced in place, a new key goes last.
pub open spec fn entries_insert(s: Seq<(Seq<char>, JsonModel)>, k: Seq<char>, v: JsonModel) -> Seq<
    (Seq<char>, JsonModel),
> {
    if entry_pos(s, k) >= 0 {
        s.update(entry_pos(s, k), (k, v))
    } else {
        s.push((k, v))
    }
}

/// The entries of `base` with each entry of `other` set in turn.
pub open spec fn object_overlay(
    base: Seq<(Seq<char>, JsonModel)>,
    other: Seq<(Seq<char>, JsonModel)>,
) -> Seq<(Seq<char>, JsonModel)>
    decreases other.len(),
{
    if other.len() == 0 {
        base
    } else {
        entries_insert(object_overlay(base, other.drop_last()), other.last().0, other.last().1)
    }
}

/// Two values of one field merged: arrays are joined without repeating a
/// value, objects take the other's fields over their own, and otherwise the
/// other value wins.
pub open spec fn merged_value(a: JsonModel, b: JsonModel) -> JsonModel {
    match (a, b) {
        (JsonModel::Array(x), JsonModel::Array(y)) => JsonModel::Array(array_union(x, y)),
        (JsonModel::Object(x), JsonModel::Object(y)) => JsonModel::Object(object_overlay(x, y)),
        _ => b,
    }
}

/// Two states merged: every field of either, a field of both holding the
/// merge of the two values.
pub open spec fn merged_states(
    base: Map<Seq<char>, JsonModel>,
    other: Map<Seq<char>, JsonModel>,
) -> Map<Seq<char>, JsonModel> {
    Map::new(
        |k: Seq<char>| base.contains_key(k) || other.contains_key(k),
        |k: Seq<char>|
            if other.contains_key(k) {
                if base.contains_key(k) {
                    merged_value(base[k], other[k])
                } else {
                    other[k]
                }
            } else {
                base[k]
            },
    )
}

proof fn lemma_entry_pos(o: Seq<(String, JsonValue)>, k: Seq<char>)
    ensures
        entry_pos(entry_models(o), k) == object_find(o, k),
    decreases o.len(),
{
    if o.len() > 0 {
        lemma_entry_pos(o.drop_last(), k);
        assert(entry_models(o).drop_last() =~= entry_models(o.drop_last()));
    }
}

/// Whether `a` holds a value with the meaning of `x`.
fn holds_value(a: &Vec<JsonValue>, x: &JsonValue) -> (r: bool)
    ensures
        r == models(a@).contains(x@),
{
    let mut i: usize = 0;
    while i < a.len()
        invariant
            i <= a@.len(),
            forall|j: int| 0 <= j < i ==> (#[trigger] a@[j])@ != x@,
        decreases a@.len() - i,
    {
        if a[i].deep_eq(x) {
            assert(models(a@)[i as int] == x@);
            return true;
        }
        i = i + 1;
    }
    assert forall|j: int| 0 <= j < models(a@).len() implies models(a@)[j] != x@ by {
        assert(a@[j]@ != x@);
    }
    false
}

/// `base` followed by each value of `other` that it does not hold yet.
fn union_arrays(base: &Vec<JsonValue>, other: &Vec<JsonValue>) -> (r: Vec<JsonValue>)
    ensures
        models(r@) == array_union(models(base@), models(other@)),
{
    let mut out = clone_values(base);
    let ghost om = models(other@);
    let mut i: usize = 0;
    while i < other.len()
        invariant
            i <= other@.len(),
            om == models(other@),
            models(out@) == array_union(models(base@), om.take(i as int)),
        decreases other@.len() - i,
    {
        proof {
            assert(om.take(i + 1).drop_last() =~= om.take(i as int));
            assert(om.take(i + 1).last() == other@[i as int]@);
        }
        if !holds_value(&out, &other[i]) {
            let c = other[i].deep_clone();
            let ghost before = out@;
            out.push(c);
            assert(models(out@) =~= models(before).push(c@));
        }
        i = i + 1;
    }
    assert(om.take(other@.len() as int) =~= om);
    out
}

/// The entries of `base` with each entry of `other` set in turn.
pub(crate) fn overlay_objects(base: &Vec<(String, JsonValue)>, other: &Vec<(String, JsonValue)>) -> (r: Vec<
    (String, JsonValue),
>)
    ensures
        entry_models(r@) == object_overlay(entry_models(base@), entry_models(other@)),
{
    let mut out = clone_entries(base);
    let ghost om = entry_models(other@);
    let mut i: usize = 0;
    while i < other.len()
        invariant
            i <= other@.len(),
            om == entry_models(other@),
            entry_models(out@) == object_overlay(entry_models(base@), om.take(i as int)),
        decreases other@.len() - i,
    {
        proof {
            assert(om.take(i + 1).drop_last() =~= om.take(i as int));
        }
        let k = copy_string(&other[i].0);
        let v = other[i].1.deep_clone();
        let ghost before = out@;
        proof {
            lemma_entry_pos(before, k@);
            lemma_object_find(before, k@);
        }
        object_insert(&mut out, k, v);
        proof {
            if object_find(before, k@) >= 0 {
                assert(entry_models(out@) =~= entry_models(before).update(
                    object_find(before, k@),
                    (k@, v@),
                ));
            } else {
                assert(entry_models(out@) =~= entry_models(before).push((k@, v@)));
            }
        }
        i = i + 1;
    }
    assert(om.take(other@.len() as int) =~= om);
    out
}

/// The merge of two values of one field.
fn merge_value(a: &JsonValue, b: &JsonValue) -> (r: JsonValue)
    ensures
        r@ == merged_value(a@, b@),
{
    match (a, b) {
        (JsonValue::Array(x), JsonValue::Array(y)) => {
            proof {
                lemma_array_model(*x);
                lemma_array_model(*y);
            }
            let u = union_arrays(x, y);
            proof {
                lemma_array_model(u);
            }
            JsonValue::Array(u)
        },
        (JsonValue::Object(x), JsonValue::Object(y)) => {
            proof {
                lemma_object_model(*x);
                lemma_object_model(*y);
            }
            let u = overlay_objects(x, y);
            proof {
                lemma_object_model(u);
            }
            JsonValue::Object(u)
        },
        _ => {
            proof {
                if a@ is Array && b@ is Array {
                    assert(false);
                }
            }
            b.deep_clone()
        },
    }
}

/// Merges `other` into `base`: a field of one of them keeps its value, a
/// field of both holds the merge of the two.
pub fn merge_states(base: &StateData, other: &StateData) -> (r: StateData)
    ensures
        state_model(r) == merged_states(state_model(*base), state_model(*other)),
{
    other.assert_unique();
    let ghost es = other.spec_entries();
    let ghost bm = state_model(*base);
    let mut merged = clone_state(base);
    let mut i: usize = 0;
    while i < other.len()
        invariant
            0 <= i <= es.len(),
            es == other.spec_entries(),
            keys_unique(es),
            bm == state_model(*base),
            state_model(merged) == merged_states(
                bm,
                entries_map(es.take(i as int)).map_values(|v: JsonValue| v@),
            ),
        decreases es.len() - i,
    {
        proof {
            lemma_prefix_map(es, i as int);
        }
        let k = other.key_at(i);
        let v = other.value_at(i);
        let nv = match base.get(k.as_str()) {
            Some(bv) => merge_value(bv, v),
            None => v.deep_clone(),
        };
        let ghost before = state_model(merged);
        let ghost m_old = entries_map(es.take(i as int)).map_values(|v: JsonValue| v@);
        let ghost m_new = entries_map(es.take(i + 1)).map_values(|v: JsonValue| v@);
        merged.insert(copy_key(k), nv);
        proof {
            assert(m_new =~= m_old.insert(k@, v@));
            assert(state_model(merged) =~= before.insert(k@, nv@));
            assert(state_model(merged) =~= merged_states(bm, m_new));
        }
        i = i + 1;
    }
    proof {
        lemma_take_all(es);
    }
    merged
}


/// A recorded version of the state.
#[derive(Debug)]
pub struct StateVersion {
    /// Version number
    pub version: u64,
    /// When the version was made, in seconds since the Unix epoch
    pub timestamp: u64,
    /// The version that was current when this one was made, if any
    pub parent: Option<u64>,
    /// The state at this version
    pub state: StateData,
    /// Metadata about the version
    pub metadata: StrMap<JsonValue>,
    /// What changed
    pub description: Option<String>,
}

/// A line of versions branched off the one current when it was made.
#[derive(Debug)]
pub struct StateBranch {
    /// Branch name
    pub name: String,
    /// The version the branch started at
    pub base_version: u64,
    /// The branch's latest version
    pub head_version: u64,
    /// Branch metadata
    pub metadata: StrMap<JsonValue>,
}

/// A saved state.
#[derive(Debug)]
pub struct StateSnapshot {
    /// Snapshot id
    pub id: String,
    /// When the snapshot was taken, in seconds since the Unix epoch
    pub timestamp: u64,
    /// The saved state
    pub state: StateData,
    /// The version it was taken at
    pub version: u64,
    /// The branch it was taken on
    pub branch: Option<String>,
    /// Snapshot metadata
    pub metadata: StrMap<JsonValue>,
}

/// The characters of an optional string.
pub open spec fn opt_chars(o: Option<String>) -> Option<Seq<char>> {
    match o {
        Some(s) => Some(s@),
        None => None,
    }
}

fn copy_opt(o: &Option<String>) -> (r: Option<String>)
    ensures
        opt_chars(r) == opt_chars(*o),
{
    match o {
        Some(s) => Some(copy_string(s)),
        None => None,
    }
}

/// Two versions that agree in every field, states and metadata by meaning.
pub open spec fn same_version(a: StateVersion, b: StateVersion) -> bool {
    &&& a.version == b.version
    &&& a.timestamp == b.timestamp
    &&& a.parent == b.parent
    &&& state_model(a.state) == state_model(b.state)
    &&& state_model(a.metadata) == state_model(b.metadata)
    &&& opt_chars(a.description) == opt_chars(b.description)
}

/// Two snapshots that agree in every field, states and metadata by meaning.
pub open spec fn same_snapshot(a: StateSnapshot, b: StateSnapshot) -> bool {
    &&& a.id@ == b.id@
    &&& a.timestamp == b.timestamp
    &&& state_model(a.state) == state_model(b.state)
    &&& a.version == b.version
    &&& opt_chars(a.branch) == opt_chars(b.branch)
    &&& state_model(a.metadata) == state_model(b.metadata)
}

impl StateVersion {
    /// A copy of this version.
    pub fn copy(&self) -> (r: StateVersion)
        ensures
            same_version(r, *self),
    {
        StateVersion {
            version: self.version,
            timestamp: self.timestamp,
            parent: self.parent,
            state: clone_state(&self.state),
            metadata: clone_state(&self.metadata),
            description: copy_opt(&self.description),
        }
    }
}

impl StateSnapshot {
    /// A copy of this snapshot.
    pub fn copy(&self) -> (r: StateSnapshot)
        ensures
            same_snapshot(r, *self),
    {
        StateSnapshot {
            id: copy_string(&self.id),
            timestamp: self.timestamp,
            state: clone_state(&self.state),
            version: self.version,
            branch: copy_opt(&self.branch),
            metadata: clone_state(&self.metadata),
        }
    }
}

/// The position of the last version numbered `n`, or -1.
pub open spec fn version_index(s: Seq<StateVersion>, n: u64) -> int
    decreases s.len(),
{
    if s.len() == 0 {
        -1
    } else if s.last().version == n {
        s.len() - 1
    } else {
        version_index(s.drop_last(), n)
    }
}

/// How many versions stand before the last one numbered below `n`,
/// that one included: where a version `n` goes in a sorted history.
pub open spec fn version_slot(s: Seq<StateVersion>, n: u64) -> int
    decreases s.len(),
{
    if s.len() == 0 {
        0
    } else if s.last().version < n {
        s.len() as int
    } else {
        version_slot(s.drop_last(), n)
    }
}

/// Versions numbered in strictly increasing order.
pub open spec fn versions_sorted(s: Seq<StateVersion>) -> bool {
    forall|i: int, j: int| 0 <= i < j < s.len() ==> #[trigger] s[i].version < #[trigger] s[j].version
}

/// A sorted history with `v` stored: it replaces the version of its number,
/// or goes where its number belongs.
pub open spec fn upsert_version(s: Seq<StateVersion>, v: StateVersion) -> Seq<StateVersion> {
    let p = version_slot(s, v.version);
    if p < s.len() && s[p].version == v.version {
        s.update(p, v)
    } else {
        s.insert(p, v)
    }
}

/// The newest `limit` entries of a sorted history.
pub open spec fn newest<T>(s: Seq<T>, limit: usize) -> Seq<T> {
    if s.len() > limit {
        s.skip(s.len() - limit)
    } else {
        s
    }
}

/// The parent of the version made after version `current`: none before the
/// first.
pub open spec fn parent_of(current: u64) -> Option<u64> {
    if current > 0 {
        Some(current)
    } else {
        None
    }
}

/// A version just made: numbered `n`, stamped `ts`, after `parent`, holding
/// `state` and `description`, without metadata.
pub open spec fn fresh_version(
    v: StateVersion,
    n: u64,
    ts: u64,
    parent: Option<u64>,
    state: StateData,
    description: Option<String>,
) -> bool {
    &&& v.version == n
    &&& v.timestamp == ts
    &&& v.parent == parent
    &&& v.state == state
    &&& v.metadata.map() == Map::<Seq<char>, JsonValue>::empty()
    &&& v.description == description
}

/// `e` reports that no version `n` is stored.
pub open spec fn version_not_found(e: LangGraphError, n: u64) -> bool {
    match e {
        LangGraphError::AdvancedState(StateError::VersionNotFound(m)) => m == n,
        _ => false,
    }
}

/// `e` reports that there is no branch `name`.
pub open spec fn branch_not_found(e: LangGraphError, name: Seq<char>) -> bool {
    match e {
        LangGraphError::AdvancedState(StateError::BranchNotFound(m)) => m@ == name,
        _ => false,
    }
}

/// `e` reports that there is no snapshot `id`.
pub open spec fn snapshot_not_found(e: LangGraphError, id: Seq<char>) -> bool {
    match e {
        LangGraphError::AdvancedState(StateError::SnapshotNotFound(m)) => m@ == id,
        _ => false,
    }
}

proof fn lemma_version_slot(s: Seq<StateVersion>, n: u64)
    requires
        versions_sorted(s),
    ensures
        0 <= version_slot(s, n) <= s.len(),
        forall|j: int| 0 <= j < version_slot(s, n) ==> (#[trigger] s[j]).version < n,
        forall|j: int| version_slot(s, n) <= j < s.len() ==> (#[trigger] s[j]).version >= n,
    decreases s.len(),
{
    if s.len() > 0 {
        let d = s.drop_last();
        lemma_version_slot(d, n);
        if s.last().version < n {
            assert forall|j: int| 0 <= j < s.len() implies (#[trigger] s[j]).version < n by {
                if j < s.len() - 1 {
                    assert(s[j].version < s[s.len() - 1].version);
                }
            }
        } else {
            assert forall|j: int| 0 <= j < version_slot(s, n) implies (#[trigger] s[j]).version < n by {
                assert(d[j] == s[j]);
            }
            assert forall|j: int| version_slot(s, n) <= j < s.len() implies (#[trigger] s[j]).version >= n by {
                if j < s.len() - 1 {
                    assert(d[j] == s[j]);
                }
            }
        }
    }
}

proof fn lemma_upsert_sorted(s: Seq<StateVersion>, v: StateVersion)
    requires
        versions_sorted(s),
    ensures
        versions_sorted(upsert_version(s, v)),
{
    lemma_version_slot(s, v.version);
    let p = version_slot(s, v.version);
    let t = upsert_version(s, v);
    if p < s.len() && s[p].version == v.version {
        assert forall|i: int, j: int| 0 <= i < j < t.len() implies #[trigger] t[i].version
            < #[trigger] t[j].version by {
            if i == p {
                assert(s[j].version > s[p].version);
            } else if j == p {
                assert(s[i].version < v.version);
            }
        }
    } else {
        assert forall|i: int, j: int| 0 <= i < j < t.len() implies #[trigger] t[i].version
            < #[trigger] t[j].version by {
            if i < p && j == p {
            } else if i < p && j > p {
                assert(t[j] == s[j - 1]);
            } else if i == p {
                assert(t[j] == s[j - 1]);
                if j - 1 > p {
                    assert(s[p].version < s[j - 1].version);
                }
            } else if i > p {
                assert(t[i] == s[i - 1]);
                assert(t[j] == s[j - 1]);
            }
        }
    }
}

/// Where the last version numbered `n` stands in `v`.
fn find_version(v: &Vec<StateVersion>, n: u64) -> (r: Option<usize>)
    ensures
        match r {
            Some(i) => i as int == version_index(v@, n) && i < v@.len(),
            None => version_index(v@, n) < 0,
        },
{
    let mut i: usize = v.len();
    assert(v@.take(v@.len() as int) =~= v@);
    while i > 0
        invariant
            i <= v@.len(),
            version_index(v@, n) == version_index(v@.take(i as int), n),
        decreases i,
    {
        assert(v@.take(i as int).drop_last() =~= v@.take(i - 1));
        if v[i - 1].version == n {
            return Some(i - 1);
        }
        i = i - 1;
    }
    None
}

/// Where a version numbered `n` goes in `v`.
fn slot_for(v: &Vec<StateVersion>, n: u64) -> (r: usize)
    ensures
        r as int == version_slot(v@, n),
        r <= v@.len(),
{
    let mut i: usize = v.len();
    assert(v@.take(v@.len() as int) =~= v@);
    while i > 0 && v[i - 1].version >= n
        invariant
            i <= v@.len(),
            version_slot(v@, n) == version_slot(v@.take(i as int), n),
        decreases i,
    {
        assert(v@.take(i as int).drop_last() =~= v@.take(i - 1));
        i = i - 1;
    }
    if i > 0 {
        assert(v@.take(i as int).last() == v@[i - 1]);
    }
    i
}

/// A version numbered above every stored one is kept as the newest, and
/// found by its number, whenever at least one version is kept.
pub proof fn lemma_newest_version_kept(s: Seq<StateVersion>, v: StateVersion, limit: usize)
    requires
        versions_sorted(s),
        limit >= 1,
        forall|i: int| 0 <= i < s.len() ==> (#[trigger] s[i]).version < v.version,
    ensures
        newest(upsert_version(s, v), limit).last() == v,
        version_index(newest(upsert_version(s, v), limit), v.version) == newest(
            upsert_version(s, v),
            limit,
        ).len() - 1,
{
    lemma_version_slot(s, v.version);
    if version_slot(s, v.version) < s.len() {
        assert(s[version_slot(s, v.version)].version < v.version);
    }
    assert(upsert_version(s, v) =~= s.push(v));
    let t = s.push(v);
    if t.len() > limit {
        assert(t.skip(t.len() - limit).last() == v);
    }
}

/// Versions of a state, with branches.
pub struct VersionedStateManager {
    /// The stored versions, by increasing number
    pub versions: Vec<StateVersion>,
    /// The current version's number; 0 before the first
    pub current_version: u64,
    /// The branches by name
    pub branches: StrMap<StateBranch>,
    /// The branch worked on, if any
    pub current_branch: Option<String>,
    /// How many versions are kept
    pub version_limit: usize,
}

impl VersionedStateManager {
    /// The stored versions are in order of their numbers.
    pub open spec fn wf(&self) -> bool {
        versions_sorted(self.versions@)
    }

    /// A manager without versions that keeps at most `version_limit`.
    pub fn new(version_limit: usize) -> (m: VersionedStateManager)
        ensures
            m.wf(),
            m.versions@.len() == 0,
            m.current_version == 0,
            m.branches.map() == Map::<Seq<char>, StateBranch>::empty(),
            m.current_branch.is_none(),
            m.version_limit == version_limit,
    {
        VersionedStateManager {
            versions: Vec::new(),
            current_version: 0,
            branches: StrMap::new(),
            current_branch: None,
            version_limit,
        }
    }

    /// Records `state` as the version after the current one, stamped
    /// `timestamp`, replacing a stored version of that number; then drops
    /// the oldest versions beyond the limit.  Returns the new number.
    pub fn create_version_at(
        &mut self,
        state: StateData,
        description: Option<String>,
        timestamp: u64,
    ) -> (r: LgResult<u64>)
        requires
            old(self).wf(),
            old(self).current_version < u64::MAX,
        ensures
            final(self).wf(),
            r == Ok::<u64, LangGraphError>((old(self).current_version + 1) as u64),
            final(self).current_version == old(self).current_version + 1,
            exists|v: StateVersion|
                #[trigger] fresh_version(
                    v,
                    (old(self).current_version + 1) as u64,
                    timestamp,
                    parent_of(old(self).current_version),
                    state,
                    description,
                ) && final(self).versions@ == newest(
                    upsert_version(old(self).versions@, v),
                    old(self).version_limit,
                ),
            final(self).branches == old(self).branches,
            final(self).current_branch == old(self).current_branch,
            final(self).version_limit == old(self).version_limit,
    {
        let n = self.current_version + 1;
        let parent = if self.current_version > 0 {
            Some(self.current_version)
        } else {
            None
        };
        let v = StateVersion {
            version: n,
            timestamp,
            parent,
            state,
            metadata: StrMap::new(),
            description,
        };
        let ghost gv = v;
        let ghost s0 = self.versions@;
        proof {
            lemma_upsert_sorted(s0, gv);
            lemma_version_slot(s0, n);
        }
        let p = slot_for(&self.versions, n);
        if p < self.versions.len() && self.versions[p].version == n {
            self.versions.set(p, v);
        } else {
            self.versions.insert(p, v);
        }
        let ghost t = self.versions@;
        assert(t == upsert_version(s0, gv));
        while self.versions.len() > self.version_limit
            invariant
                t.len() > self.version_limit ==> self.versions@.len() >= self.version_limit,
                t.len() <= self.version_limit ==> self.versions@ == t,
                self.version_limit == old(self).version_limit,
                self.branches == old(self).branches,
                self.current_branch == old(self).current_branch,
                self.current_version == old(self).current_version,
                self.versions@.len() <= t.len(),
                self.versions@ == t.skip(t.len() - self.versions@.len()),
            decreases self.versions@.len(),
        {
            let ghost before = self.versions@;
            let _ = self.versions.remove(0);
            assert(self.versions@ =~= t.skip(t.len() - self.versions@.len()));
        }
        self.current_version = n;
        proof {
            assert(self.versions@ == newest(t, self.version_limit));
            assert(fresh_version(gv, n, timestamp, parent_of(old(self).current_version), state, description));
            assert forall|i: int, j: int| 0 <= i < j < self.versions@.len() implies
                #[trigger] self.versions@[i].version < #[trigger] self.versions@[j].version by {
                let d = t.len() - self.versions@.len();
                assert(self.versions@[i] == t[i + d]);
                assert(self.versions@[j] == t[j + d]);
            }
        }
        Ok(n)
    }

    /// Records `state` as the version after the current one, stamped with
    /// the clock; see `create_version_at`.
    pub fn create_version(&mut self, state: StateData, description: Option<String>) -> (r: LgResult<u64>)
        requires
            old(self).wf(),
            old(self).current_version < u64::MAX,
        ensures
            final(self).wf(),
            r == Ok::<u64, LangGraphError>((old(self).current_version + 1) as u64),
            final(self).current_version == old(self).current_version + 1,
            exists|v: StateVersion, ts: u64|
                #[trigger] fresh_version(
                    v,
                    (old(self).current_version + 1) as u64,
                    ts,
                    parent_of(old(self).current_version),
                    state,
                    description,
                ) && final(self).versions@ == newest(
                    upsert_version(old(self).versions@, v),
                    old(self).version_limit,
                ),
            final(self).branches == old(self).branches,
            final(self).current_branch == old(self).current_branch,
            final(self).version_limit == old(self).version_limit,
    {
        let ts = current_timestamp();
        let r = self.create_version_at(state, description, ts);
        r
    }

    /// A copy of version `n`; an error when it is not stored.
    pub fn get_version(&self, n: u64) -> (r: LgResult<StateVersion>)
        ensures
            version_index(self.versions@, n) >= 0 <==> r is Ok,
            match r {
                Ok(v) => same_version(v, self.versions@[version_index(self.versions@, n)]),
                Err(e) => version_not_found(e, n),
            },
    {
        match find_version(&self.versions, n) {
            Some(i) => Ok(self.versions[i].copy()),
            None => Err(LangGraphError::AdvancedState(StateError::VersionNotFound(n))),
        }
    }

    /// A copy of the current version; an error when it is not stored.
    pub fn get_current_version(&self) -> (r: LgResult<StateVersion>)
        ensures
            version_index(self.versions@, self.current_version) >= 0 <==> r is Ok,
            match r {
                Ok(v) => same_version(
                    v,
                    self.versions@[version_index(self.versions@, self.current_version)],
                ),
                Err(e) => version_not_found(e, self.current_version),
            },
    {
        self.get_version(self.current_version)
    }

    /// Makes version `n` the current one; an error, and no change, when it
    /// is not stored.
    pub fn rollback(&mut self, n: u64) -> (r: LgResult<()>)
        ensures
            version_index(old(self).versions@, n) >= 0 <==> r is Ok,
            r is Ok ==> final(self).current_version == n,
            match r {
                Ok(_) => true,
                Err(e) => version_not_found(e, n),
            },
            r is Err ==> final(self).current_version == old(self).current_version,
            final(self).versions == old(self).versions,
            final(self).branches == old(self).branches,
            final(self).current_branch == old(self).current_branch,
            final(self).version_limit == old(self).version_limit,
    {
        match find_version(&self.versions, n) {
            Some(_) => {
                self.current_version = n;
                Ok(())
            },
            None => Err(LangGraphError::AdvancedState(StateError::VersionNotFound(n))),
        }
    }

    /// Starts branch `name` at the current version, replacing a branch of
    /// that name, and works on it.
    pub fn create_branch(&mut self, name: String) -> (r: LgResult<()>)
        ensures
            r is Ok,
            final(self).branches.map().contains_key(name@),
            final(self).branches.map()[name@].name@ == name@,
            final(self).branches.map()[name@].base_version == old(self).current_version,
            final(self).branches.map()[name@].head_version == old(self).current_version,
            final(self).branches.map()[name@].metadata.map() == Map::<Seq<char>, JsonValue>::empty(),
            final(self).branches.map().remove(name@) == old(self).branches.map().remove(name@),
            opt_chars(final(self).current_branch) == Some(name@),
            final(self).versions == old(self).versions,
            final(self).current_version == old(self).current_version,
            final(self).version_limit == old(self).version_limit,
    {
        let b = StateBranch {
            name: copy_string(&name),
            base_version: self.current_version,
            head_version: self.current_version,
            metadata: StrMap::new(),
        };
        let key = copy_string(&name);
        self.branches.insert(key, b);
        proof {
            assert(self.branches.map().remove(name@) =~= old(self).branches.map().remove(name@));
        }
        self.current_branch = Some(name);
        Ok(())
    }

    /// Works on branch `name` from its head version; an error, and no
    /// change, when there is no such branch.
    pub fn switch_branch(&mut self, name: &str) -> (r: LgResult<()>)
        ensures
            old(self).branches.map().contains_key(name@) <==> r is Ok,
            r is Ok ==> final(self).current_version == old(self).branches.map()[name@].head_version
                && opt_chars(final(self).current_branch) == Some(name@),
            match r {
                Ok(_) => true,
                Err(e) => branch_not_found(e, name@),
            },
            r is Err ==> final(self).current_version == old(self).current_version
                && final(self).current_branch == old(self).current_branch,
            final(self).versions == old(self).versions,
            final(self).branches == old(self).branches,
            final(self).version_limit == old(self).version_limit,
    {
        match self.branches.get(name) {
            Some(b) => {
                self.current_version = b.head_version;
                self.current_branch = Some(name.to_string());
                Ok(())
            },
            None => Err(LangGraphError::AdvancedState(StateError::BranchNotFound(name.to_string()))),
        }
    }

    /// The current version's state merged with the state at the head of
    /// branch `name`; an error when there is no such branch or either
    /// version is not stored.
    pub fn merge_branch(&self, name: &str) -> (r: LgResult<StateData>)
        ensures
            r is Ok <==> (self.branches.map().contains_key(name@) && version_index(
                self.versions@,
                self.branches.map()[name@].head_version,
            ) >= 0 && version_index(self.versions@, self.current_version) >= 0),
            match r {
                Ok(m) => state_model(m) == merged_states(
                    state_model(self.versions@[version_index(self.versions@, self.current_version)].state),
                    state_model(
                        self.versions@[version_index(
                            self.versions@,
                            self.branches.map()[name@].head_version,
                        )].state,
                    ),
                ),
                Err(e) => if !self.branches.map().contains_key(name@) {
                    branch_not_found(e, name@)
                } else if version_index(self.versions@, self.branches.map()[name@].head_version) < 0 {
                    version_not_found(e, self.branches.map()[name@].head_version)
                } else {
                    version_not_found(e, self.current_version)
                },
            },
    {
        let b = match self.branches.get(name) {
            Some(b) => b,
            None => {
                return Err(LangGraphError::AdvancedState(StateError::BranchNotFound(name.to_string())));
            },
        };
        let h = match find_version(&self.versions, b.head_version) {
            Some(i) => i,
            None => {
                return Err(
                    LangGraphError::AdvancedState(StateError::VersionNotFound(b.head_version)),
                );
            },
        };
        let c = match find_version(&self.versions, self.current_version) {
            Some(i) => i,
            None => {
                return Err(
                    LangGraphError::AdvancedState(StateError::VersionNotFound(self.current_version)),
                );
            },
        };
        Ok(merge_states(&self.versions[c].state, &self.versions[h].state))
    }
}


/// A snapshot just taken: `id`, stamped `ts`, holding `state`, `version` and
/// `branch`, without metadata.
pub open spec fn fresh_snapshot(
    s: StateSnapshot,
    id: Seq<char>,
    ts: u64,
    state: StateData,
    version: u64,
    branch: Option<String>,
) -> bool {
    &&& s.id@ == id
    &&& s.timestamp == ts
    &&& s.state == state
    &&& s.version == version
    &&& s.branch == branch
    &&& s.metadata.map() == Map::<Seq<char>, JsonValue>::empty()
}

/// `k` is a snapshot of `m` taken no later than any other.
pub open spec fn oldest_in(m: Map<Seq<char>, StateSnapshot>, k: Seq<char>) -> bool {
    &&& m.contains_key(k)
    &&& forall|j: Seq<char>| #[trigger] m.contains_key(j) ==> m[k].timestamp <= m[j].timestamp
}

/// `f` is `m`, of `count` snapshots, with one oldest snapshot dropped when
/// there are more than `max`.
pub open spec fn pruned_to(
    m: Map<Seq<char>, StateSnapshot>,
    count: int,
    max: usize,
    f: Map<Seq<char>, StateSnapshot>,
) -> bool {
    if count > max {
        exists|k: Seq<char>| #[trigger] oldest_in(m, k) && f == m.remove(k)
    } else {
        f == m
    }
}

/// The position of a snapshot taken no later than any other.
fn oldest_entry(m: &StrMap<StateSnapshot>) -> (r: usize)
    requires
        m.spec_entries().len() > 0,
    ensures
        r < m.spec_entries().len(),
        forall|j: int|
            0 <= j < m.spec_entries().len() ==> m.spec_entries()[r as int].1.timestamp
                <= (#[trigger] m.spec_entries()[j]).1.timestamp,
{
    let mut best: usize = 0;
    let mut i: usize = 1;
    while i < m.len()
        invariant
            1 <= i <= m.spec_entries().len(),
            best < i,
            forall|j: int|
                0 <= j < i ==> m.spec_entries()[best as int].1.timestamp
                    <= (#[trigger] m.spec_entries()[j]).1.timestamp,
        decreases m.spec_entries().len() - i,
    {
        if m.value_at(i).timestamp < m.value_at(best).timestamp {
            best = i;
        }
        i = i + 1;
    }
    best
}

/// Saved states by id, at most `max_snapshots` of them.
pub struct SnapshotManager {
    /// The snapshots by id
    pub snapshots: StrMap<StateSnapshot>,
    /// How many snapshots are kept
    pub max_snapshots: usize,
}

impl SnapshotManager {
    /// No more snapshots are held than are kept.
    pub open spec fn wf(&self) -> bool {
        self.snapshots.spec_entries().len() <= self.max_snapshots
    }

    /// A manager without snapshots that keeps at most `max_snapshots`.
    pub fn new(max_snapshots: usize) -> (m: SnapshotManager)
        ensures
            m.wf(),
            m.snapshots.map() == Map::<Seq<char>, StateSnapshot>::empty(),
            m.max_snapshots == max_snapshots,
    {
        SnapshotManager { snapshots: StrMap::new(), max_snapshots }
    }

    /// Saves `state` as snapshot `id`, stamped `timestamp`, replacing a
    /// snapshot of that id; then, when more are held than are kept, drops
    /// one taken no later than any other.
    pub fn create_snapshot_at(
        &mut self,
        id: String,
        state: StateData,
        version: u64,
        branch: Option<String>,
        timestamp: u64,
    ) -> (r: LgResult<()>)
        requires
            old(self).wf(),
        ensures
            final(self).wf(),
            r is Ok,
            final(self).max_snapshots == old(self).max_snapshots,
            exists|s: StateSnapshot|
                #[trigger] fresh_snapshot(s, id@, timestamp, state, version, branch) && pruned_to(
                    old(self).snapshots.map().insert(id@, s),
                    old(self).snapshots.spec_entries().len() + (if old(
                        self,
                    ).snapshots.map().contains_key(id@) {
                        0int
                    } else {
                        1int
                    }),
                    old(self).max_snapshots,
                    final(self).snapshots.map(),
                ),
    {
        let snap = StateSnapshot {
            id: copy_string(&id),
            timestamp,
            state,
            version,
            branch,
            metadata: StrMap::new(),
        };
        let ghost gs = snap;
        let ghost count = old(self).snapshots.spec_entries().len() + (if old(
            self,
        ).snapshots.map().contains_key(id@) {
            0int
        } else {
            1int
        });
        let ghost m = old(self).snapshots.map().insert(id@, gs);
        let ghost kid = id@;
        assert(old(self).snapshots.key_seq().len() == old(self).snapshots.spec_entries().len());
        self.snapshots.insert(id, snap);
        assert(self.snapshots.key_seq().len() == self.snapshots.spec_entries().len());
        assert(self.snapshots.spec_entries().len() == count);
        if self.snapshots.len() > self.max_snapshots {
            let i = oldest_entry(&self.snapshots);
            let key = copy_string(self.snapshots.key_at(i));
            let ghost es = self.snapshots.spec_entries();
            self.snapshots.assert_unique();
            proof {
                lemma_entries_map_at(es, i as int);
                assert forall|j: Seq<char>| #[trigger] m.contains_key(j) implies m[key@].timestamp
                    <= m[j].timestamp by {
                    assert(has_key(es, j));
                    let x = key_index(es, j);
                    assert(es[x].1.timestamp >= es[i as int].1.timestamp);
                }
                assert(oldest_in(m, key@));
            }
            let _ = self.snapshots.remove(key.as_str());
            assert(self.snapshots.map() == m.remove(key@));
        }
        assert(fresh_snapshot(gs, kid, timestamp, state, version, branch));
        Ok(())
    }

    /// Saves `state` as snapshot `id`, stamped with the clock; see
    /// `create_snapshot_at`.
    pub fn create_snapshot(
        &mut self,
        id: String,
        state: StateData,
        version: u64,
        branch: Option<String>,
    ) -> (r: LgResult<()>)
        requires
            old(self).wf(),
        ensures
            final(self).wf(),
            r is Ok,
            final(self).max_snapshots == old(self).max_snapshots,
            exists|s: StateSnapshot, ts: u64|
                #[trigger] fresh_snapshot(s, id@, ts, state, version, branch) && pruned_to(
                    old(self).snapshots.map().insert(id@, s),
                    old(self).snapshots.spec_entries().len() + (if old(
                        self,
                    ).snapshots.map().contains_key(id@) {
                        0int
                    } else {
                        1int
                    }),
                    old(self).max_snapshots,
                    final(self).snapshots.map(),
                ),
    {
        let ts = current_timestamp();
        self.create_snapshot_at(id, state, version, branch, ts)
    }

    /// A copy of snapshot `id`; an error when there is none.
    pub fn load_snapshot(&self, id: &str) -> (r: LgResult<StateSnapshot>)
        ensures
            self.snapshots.map().contains_key(id@) <==> r is Ok,
            match r {
                Ok(s) => same_snapshot(s, self.snapshots.map()[id@]),
                Err(e) => snapshot_not_found(e, id@),
            },
    {
        match self.snapshots.get(id) {
            Some(s) => Ok(s.copy()),
            None => Err(LangGraphError::AdvancedState(StateError::SnapshotNotFound(id.to_string()))),
        }
    }

    /// The ids of the snapshots.
    pub fn list_snapshots(&self) -> (r: Vec<String>)
        ensures
            r@.map_values(|s: String| s@) == self.snapshots.key_seq(),
    {
        let mut out: Vec<String> = Vec::new();
        let mut i: usize = 0;
        while i < self.snapshots.len()
            invariant
                i <= self.snapshots.spec_entries().len(),
                out@.len() == i,
                forall|j: int| 0 <= j < i ==> (#[trigger] out@[j])@ == self.snapshots.spec_entries()[j].0,
            decreases self.snapshots.spec_entries().len() - i,
        {
            out.push(copy_string(self.snapshots.key_at(i)));
            i = i + 1;
        }
        assert(out@.map_values(|s: String| s@) =~= self.snapshots.key_seq());
        out
    }

    /// Drops snapshot `id`; an error, and no change, when there is none.
    pub fn delete_snapshot(&mut self, id: &str) -> (r: LgResult<()>)
        requires
            old(self).wf(),
        ensures
            final(self).wf(),
            old(self).snapshots.map().contains_key(id@) <==> r is Ok,
            final(self).snapshots.map() == old(self).snapshots.map().remove(id@),
            final(self).max_snapshots == old(self).max_snapshots,
            match r {
                Ok(_) => true,
                Err(e) => snapshot_not_found(e, id@),
            },
    {
        match self.snapshots.remove(id) {
            Some(_) => Ok(()),
            None => Err(LangGraphError::AdvancedState(StateError::SnapshotNotFound(id.to_string()))),
        }
    }
}

} // verus!
