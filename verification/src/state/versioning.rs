//! State versioning: version identifiers, metadata, and deltas that record
//! how one state differs from another.
use vstd::prelude::*;
use crate::clock::current_timestamp;
use crate::json::{JsonValue, JsonModel};
use crate::keyed_map::{StrMap, keys_unique, entries_map, entry_keys};
use crate::state::{StateData, state_model, clone_state, copy_key, lemma_prefix_map, lemma_take_all};
use crate::text::{hex_string, push_hex, push_char};
use crate::graph::strings_view;

verus! {

/// The hash of a version: its number and its timestamp in lowercase
/// hexadecimal, joined by a hyphen.
pub open spec fn version_hash(id: u64, timestamp: u64) -> Seq<char> {
    hex_string(id as nat) + seq!['-'] + hex_string(timestamp as nat)
}

/// Identifies a version of the state.
#[derive(Debug, Clone, PartialEq, Eq, Hash)]
pub struct VersionId {
    pub id: u64,
    pub timestamp: u64,
    pub hash: String,
}

impl VersionId {
    /// The identifier of version `id` created at `timestamp` (seconds since
    /// the Unix epoch).
    pub fn at(id: u64, timestamp: u64) -> (v: VersionId)
        ensures
            v.id == id,
            v.timestamp == timestamp,
            v.hash@ == version_hash(id, timestamp),
    {
        let mut hash = String::new();
        push_hex(&mut hash, id);
        push_char(&mut hash, '-');
        push_hex(&mut hash, timestamp);
        assert(hash@ =~= version_hash(id, timestamp));
        VersionId { id, timestamp, hash }
    }

    /// The identifier of version `id`, stamped with the current time.
    pub fn new(id: u64) -> (v: VersionId)
        ensures
            v.id == id,
            v.hash@ == version_hash(id, v.timestamp),
    {
        VersionId::at(id, current_timestamp())
    }
}

/// What is recorded about a version besides its state.
#[derive(Debug, Clone)]
pub struct VersionMetadata {
    pub author: String,
    pub message: String,
    pub tags: Vec<String>,
    pub branch: String,
    pub is_checkpoint: bool,
}

impl Default for VersionMetadata {
    /// Written by "system" on branch "main", with no message and no tags.
    fn default() -> (m: Self)
        ensures
            m.author@ == "system"@,
            m.message@ == Seq::<char>::empty(),
            m.tags@ == Seq::<String>::empty(),
            m.branch@ == "main"@,
            !m.is_checkpoint,
    {
        VersionMetadata {
            author: "system".to_string(),
            message: String::new(),
            tags: Vec::new(),
            branch: "main".to_string(),
            is_checkpoint: false,
        }
    }
}

/// Counters kept by a versioning system.
#[derive(Debug, Clone, Default)]
pub struct VersioningMetrics {
    pub total_versions: usize,
    pub total_snapshots: usize,
    pub total_deltas: usize,
    pub cache_hits: usize,
    pub cache_misses: usize,
    pub average_delta_size: usize,
    pub storage_bytes: usize,
}

/// The keys of `ks`, in order, that `present` lacks.
pub open spec fn missing_keys(ks: Seq<Seq<char>>, present: Set<Seq<char>>) -> Seq<Seq<char>>
    decreases ks.len(),
{
    if ks.len() == 0 {
        Seq::empty()
    } else {
        let r = missing_keys(ks.drop_last(), present);
        if present.contains(ks.last()) {
            r
        } else {
            r.push(ks.last())
        }
    }
}

/// A key is among the missing keys exactly when it is in `ks` and not in `present`.
pub proof fn lemma_missing_keys(ks: Seq<Seq<char>>, present: Set<Seq<char>>, k: Seq<char>)
    ensures
        missing_keys(ks, present).contains(k) <==> (ks.contains(k) && !present.contains(k)),
    decreases ks.len(),
{
    if ks.len() > 0 {
        let d = ks.drop_last();
        lemma_missing_keys(d, present, k);
        if d.contains(k) {
            let i = choose|i: int| 0 <= i < d.len() && d[i] == k;
            assert(ks[i] == k);
        }
        if ks.contains(k) && ks.last() != k {
            let i = choose|i: int| 0 <= i < ks.len() && ks[i] == k;
            assert(i < d.len() && d[i] == k);
        }
        if missing_keys(ks, present).contains(k) && !missing_keys(d, present).contains(k) {
            let r = missing_keys(d, present);
            let i = choose|i: int| 0 <= i < r.push(ks.last()).len() && r.push(ks.last())[i] == k;
            assert(i == r.len());
        }
        if missing_keys(d, present).contains(k) && !present.contains(ks.last()) {
            let r = missing_keys(d, present);
            let i = choose|i: int| 0 <= i < r.len() && r[i] == k;
            assert(r.push(ks.last())[i] == k);
        }
        if ks.last() == k && !present.contains(k) {
            let r = missing_keys(d, present);
            assert(r.push(ks.last())[r.len() as int] == k);
        }
    }
}

/// The fields of `target` that `base` lacks or holds with another value.
pub open spec fn changed_fields(
    base: Map<Seq<char>, JsonModel>,
    target: Map<Seq<char>, JsonModel>,
) -> Map<Seq<char>, JsonModel> {
    Map::new(
        |k: Seq<char>| target.contains_key(k) && (!base.contains_key(k) || base[k] != target[k]),
        |k: Seq<char>| target[k],
    )
}

/// The state that results from setting `changes` over `base` and then
/// dropping `removals`.
pub open spec fn patched(
    base: Map<Seq<char>, JsonModel>,
    changes: Map<Seq<char>, JsonModel>,
    removals: Set<Seq<char>>,
) -> Map<Seq<char>, JsonModel> {
    base.union_prefer_right(changes).remove_keys(removals)
}

/// How one state differs from another: fields set and fields removed.
#[derive(Debug)]
pub struct StateDelta {
    /// Added or modified fields.
    pub changes: StateData,
    /// Removed fields.
    pub removals: Vec<String>,
    /// The version the delta applies to.
    pub base_version: VersionId,
}

impl StateDelta {
    /// Sets the changed fields over `base`, then removes the removed ones.
    pub fn apply(&self, base: &StateData) -> (r: StateData)
        ensures
            state_model(r) == patched(
                state_model(*base),
                state_model(self.changes),
                strings_view(self.removals@).to_set(),
            ),
    {
        self.changes.assert_unique();
        let ghost es = self.changes.spec_entries();
        let ghost bm = state_model(*base);
        let ghost cm = state_model(self.changes);
        let mut result = clone_state(base);
        let mut i: usize = 0;
        while i < self.changes.len()
            invariant
                0 <= i <= es.len(),
                es == self.changes.spec_entries(),
                keys_unique(es),
                cm == state_model(self.changes),
                self.changes.map() == entries_map(es),
                state_model(result) == bm.union_prefer_right(
                    entries_map(es.take(i as int)).map_values(|v: JsonValue| v@),
                ),
            decreases es.len() - i,
        {
            proof {
                lemma_prefix_map(es, i as int);
            }
            let k = copy_key(self.changes.key_at(i));
            let v = self.changes.value_at(i).deep_clone();
            let ghost before = state_model(result);
            result.insert(k, v);
            proof {
                let m_old = entries_map(es.take(i as int)).map_values(|v: JsonValue| v@);
                let m_new = entries_map(es.take(i + 1)).map_values(|v: JsonValue| v@);
                assert(m_new =~= m_old.insert(es[i as int].0, es[i as int].1@));
                assert(state_model(result) =~= before.insert(k@, v@));
                assert(state_model(result) =~= bm.union_prefer_right(m_new));
            }
            i = i + 1;
        }
        proof {
            lemma_take_all(es);
            assert(entries_map(es).map_values(|v: JsonValue| v@) =~= cm);
        }
        let ghost merged = state_model(result);
        let ghost rs = strings_view(self.removals@);
        let mut j: usize = 0;
        while j < self.removals.len()
            invariant
                0 <= j <= self.removals@.len(),
                rs == strings_view(self.removals@),
                state_model(result) == merged.remove_keys(rs.take(j as int).to_set()),
            decreases self.removals@.len() - j,
        {
            let ghost before = state_model(result);
            let _ = result.remove(self.removals[j].as_str());
            proof {
                assert(rs[j as int] == self.removals@[j as int]@);
                assert(state_model(result) =~= before.remove(rs[j as int]));
                let a = rs.take(j + 1);
                let b = rs.take(j as int);
                assert(a.to_set() =~= b.to_set().insert(rs[j as int])) by {
                    assert forall|x: Seq<char>| a.to_set().contains(x) <==> b.to_set().insert(
                        rs[j as int],
                    ).contains(x) by {
                        if a.contains(x) {
                            let t = choose|t: int| 0 <= t < a.len() && a[t] == x;
                            if t < j {
                                assert(b[t] == x);
                            }
                        }
                        if b.contains(x) {
                            let t = choose|t: int| 0 <= t < b.len() && b[t] == x;
                            assert(a[t] == x);
                        }
                        if x == rs[j as int] {
                            assert(a[j as int] == x);
                        }
                    }
                }
                assert(state_model(result) =~= merged.remove_keys(rs.take(j + 1).to_set()));
            }
            j = j + 1;
        }
        proof {
            assert(rs.take(self.removals@.len() as int) =~= rs);
        }
        result
    }

    /// The delta that turns `base` into `target`: the fields of `target`
    /// that are new or changed, and the fields of `base` that `target` lacks,
    /// in `base`'s order.  Its base version is version 0, stamped now.
    pub fn compute(base: &StateData, target: &StateData) -> (d: StateDelta)
        ensures
            state_model(d.changes) == changed_fields(state_model(*base), state_model(*target)),
            strings_view(d.removals@) == missing_keys(base.key_seq(), target.map().dom()),
            d.base_version.id == 0,
    {
        target.assert_unique();
        let ghost es = target.spec_entries();
        let ghost bm = state_model(*base);
        let mut changes: StateData = StrMap::new();
        let mut i: usize = 0;
        while i < target.len()
            invariant
                0 <= i <= es.len(),
                es == target.spec_entries(),
                keys_unique(es),
                bm == state_model(*base),
                state_model(changes) == changed_fields(
                    bm,
                    entries_map(es.take(i as int)).map_values(|v: JsonValue| v@),
                ),
            decreases es.len() - i,
        {
            proof {
                lemma_prefix_map(es, i as int);
            }
            let k = target.key_at(i);
            let v = target.value_at(i);
            let ghost before = state_model(changes);
            let differs = match base.get(k.as_str()) {
                Some(bv) => !bv.deep_eq(v),
                None => true,
            };
            let ghost m_old = entries_map(es.take(i as int)).map_values(|v: JsonValue| v@);
            let ghost m_new = entries_map(es.take(i + 1)).map_values(|v: JsonValue| v@);
            proof {
                assert(m_new =~= m_old.insert(k@, v@));
            }
            proof {
                assert(!m_old.contains_key(k@));
                assert(differs == (!bm.contains_key(k@) || bm[k@] != v@));
            }
            if differs {
                let kk = copy_key(k);
                let c = v.deep_clone();
                changes.insert(kk, c);
                proof {
                    assert(state_model(changes) =~= before.insert(k@, v@));
                    assert(state_model(changes) =~= changed_fields(bm, m_new));
                }
            } else {
                proof {
                    assert(state_model(changes) =~= changed_fields(bm, m_new));
                }
            }
            i = i + 1;
        }
        proof {
            lemma_take_all(es);
            assert(entries_map(es).map_values(|v: JsonValue| v@) =~= state_model(*target));
        }
        let ghost ks = base.key_seq();
        let mut removals: Vec<String> = Vec::new();
        let mut j: usize = 0;
        while j < base.len()
            invariant
                0 <= j <= ks.len(),
                ks == base.key_seq(),
                ks.len() == base.spec_entries().len(),
                strings_view(removals@) == missing_keys(ks.take(j as int), target.map().dom()),
            decreases ks.len() - j,
        {
            let k = base.key_at(j);
            proof {
                assert(ks.take(j + 1).drop_last() =~= ks.take(j as int));
                assert(ks.take(j + 1).last() == k@);
            }
            if !target.contains_key(k.as_str()) {
                let ghost before = removals@;
                removals.push(copy_key(k));
                assert(strings_view(removals@) =~= strings_view(before).push(k@));
            }
            j = j + 1;
        }
        proof {
            assert(ks.take(ks.len() as int) =~= ks);
        }
        StateDelta { changes, removals, base_version: VersionId::new(0) }
    }
}

/// Applying to `base` the delta computed from `base` to `target` gives
/// `target` back.
pub proof fn lemma_delta_roundtrip(base: StateData, target: StateData)
    ensures
        patched(
            state_model(base),
            changed_fields(state_model(base), state_model(target)),
            missing_keys(base.key_seq(), target.map().dom()).to_set(),
        ) == state_model(target),
{
    let bm = state_model(base);
    let tm = state_model(target);
    let rm = missing_keys(base.key_seq(), target.map().dom());
    let p = patched(bm, changed_fields(bm, tm), rm.to_set());
    assert forall|k: Seq<char>| #![auto] p.contains_key(k) <==> tm.contains_key(k) by {
        lemma_missing_keys(base.key_seq(), target.map().dom(), k);
        if bm.contains_key(k) {
            let i = choose|i: int| 0 <= i < base.spec_entries().len() && base.spec_entries()[i].0 == k;
            assert(base.key_seq()[i] == k);
        }
        if base.key_seq().contains(k) {
            let i = choose|i: int| 0 <= i < base.key_seq().len() && base.key_seq()[i] == k;
            assert(base.spec_entries()[i].0 == k);
        }
    }
    assert(p =~= tm);
}

} // verus!
