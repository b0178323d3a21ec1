//! Differences between states, and filters that pick the fields of a state
//! to show.
use vstd::prelude::*;
use crate::json::{JsonValue, JsonModel};
use crate::keyed_map::StrMap;
use crate::state::{StateData, state_model};

verus! {

/// A difference between two states.
pub struct StateDiff {
    /// Fields only the newer state has
    pub added: StateData,
    /// Fields only the older state has
    pub removed: StateData,
    /// Fields whose value changed, with the old and the new value
    pub modified: StrMap<(JsonValue, JsonValue)>,
}

impl StateDiff {
    /// An empty difference.
    pub fn new() -> (d: StateDiff)
        ensures
            d.added.map().len() == 0,
            d.removed.map().len() == 0,
            d.modified.map().len() == 0,
            d.added.key_seq().len() == 0,
            d.removed.key_seq().len() == 0,
            d.modified.key_seq().len() == 0,
    {
        let d = StateDiff { added: StrMap::new(), removed: StrMap::new(), modified: StrMap::new() };
        assert(d.added.map() =~= Map::empty());
        assert(d.removed.map() =~= Map::empty());
        assert(d.modified.map() =~= Map::empty());
        d
    }

    /// Whether nothing changed.
    pub fn is_empty(&self) -> (b: bool)
        ensures
            b == (self.added.key_seq().len() == 0 && self.removed.key_seq().len() == 0
                && self.modified.key_seq().len() == 0),
    {
        self.added.is_empty() && self.removed.is_empty() && self.modified.is_empty()
    }

    /// The number of changes.
    pub fn change_count(&self) -> (n: usize)
        requires
            self.added.key_seq().len() + self.removed.key_seq().len() + self.modified.key_seq().len()
                <= usize::MAX,
        ensures
            n == self.added.key_seq().len() + self.removed.key_seq().len() + self.modified.key_seq().len(),
    {
        self.added.len() + self.removed.len() + self.modified.len()
    }
}

/// Export format for state data.
#[derive(Debug, Clone, Copy, PartialEq, Eq, Structural)]
pub enum ExportFormat {
    /// JSON
    Json,
    /// YAML
    Yaml,
    /// CSV
    Csv,
}

/// Filter for state snapshots.
pub struct StateFilter {
    /// Fields to keep; all when empty
    pub include_fields: Vec<String>,
    /// Fields to drop
    pub exclude_fields: Vec<String>,
    /// Nodes whose snapshots the filter is about
    pub node_pattern: Option<String>,
}

/// The characters of each string.
pub open spec fn names_view(v: Seq<String>) -> Seq<Seq<char>> {
    Seq::new(v.len(), |i: int| v[i]@)
}

/// Whether the filter keeps field `k`: not excluded, and included when an
/// inclusion list is given.
pub open spec fn keeps(f: StateFilter, k: Seq<char>) -> bool {
    !names_view(f.exclude_fields@).contains(k) && (f.include_fields@.len() == 0 || names_view(
        f.include_fields@,
    ).contains(k))
}

/// Whether `k` is among the strings.
fn contains_name(v: &Vec<String>, k: &String) -> (b: bool)
    ensures
        b == names_view(v@).contains(k@),
{
    let mut i: usize = 0;
    while i < v.len()
        invariant
            i <= v@.len(),
            forall|j: int| 0 <= j < i ==> v@[j]@ != k@,
        decreases v@.len() - i,
    {
        if v[i] == *k {
            assert(names_view(v@)[i as int] == k@);
            return true;
        }
        i = i + 1;
    }
    proof {
        if names_view(v@).contains(k@) {
            let j = choose|j: int| 0 <= j < names_view(v@).len() && names_view(v@)[j] == k@;
            assert(v@[j]@ == k@);
        }
    }
    false
}

impl StateFilter {
    /// A filter that keeps everything.
    pub fn new() -> (f: StateFilter)
        ensures
            f.include_fields@.len() == 0,
            f.exclude_fields@.len() == 0,
            f.node_pattern is None,
    {
        StateFilter { include_fields: Vec::new(), exclude_fields: Vec::new(), node_pattern: None }
    }

    /// Adds a field to keep.
    pub fn include_field(self, field: String) -> (f: StateFilter)
        ensures
            f.include_fields@ == self.include_fields@.push(field),
            f.exclude_fields == self.exclude_fields,
            f.node_pattern == self.node_pattern,
    {
        let mut f = self;
        f.include_fields.push(field);
        f
    }

    /// Adds a field to drop.
    pub fn exclude_field(self, field: String) -> (f: StateFilter)
        ensures
            f.exclude_fields@ == self.exclude_fields@.push(field),
            f.include_fields == self.include_fields,
            f.node_pattern == self.node_pattern,
    {
        let mut f = self;
        f.exclude_fields.push(field);
        f
    }

    /// Sets the node pattern.
    pub fn with_node_pattern(self, pattern: String) -> (f: StateFilter)
        ensures
            f.node_pattern == Some(pattern),
            f.include_fields == self.include_fields,
            f.exclude_fields == self.exclude_fields,
    {
        let mut f = self;
        f.node_pattern = Some(pattern);
        f
    }

    /// The fields of the state that the filter keeps.
    pub fn apply(&self, state: &StateData) -> (r: StateData)
        ensures
            state_model(r) == state_model(*state).restrict(
                state_model(*state).dom().filter(|k: Seq<char>| keeps(*self, k)),
            ),
    {
        state.assert_unique();
        let ghost es = state.spec_entries();
        let mut r: StateData = StrMap::new();
        let mut i: usize = 0;
        let ghost f = *self;
        while i < state.len()
            invariant
                0 <= i <= es.len(),
                es == state.spec_entries(),
                crate::keyed_map::keys_unique(es),
                f == *self,
                state_model(r) == ({
                    let m = crate::keyed_map::entries_map(es.take(i as int)).map_values(|v: JsonValue| v@);
                    m.restrict(m.dom().filter(|k: Seq<char>| keeps(f, k)))
                }),
            decreases es.len() - i,
        {
            proof {
                crate::state::lemma_prefix_map(es, i as int);
            }
            let key = state.key_at(i);
            let ghost m0 = crate::keyed_map::entries_map(es.take(i as int)).map_values(|v: JsonValue| v@);
            let ghost m1 = crate::keyed_map::entries_map(es.take(i + 1)).map_values(|v: JsonValue| v@);
            assert(m1 =~= m0.insert(es[i as int].0, es[i as int].1@));
            let excluded = contains_name(&self.exclude_fields, key);
            let included = self.include_fields.len() == 0 || contains_name(&self.include_fields, key);
            if !excluded && included {
                let ghost before = state_model(r);
                let v = state.value_at(i).deep_clone();
                assert(v@ == es[i as int].1@);
                r.insert(crate::json::copy_string(key), v);
                assert(keeps(f, es[i as int].0));
                assert(state_model(r) =~= before.insert(es[i as int].0, es[i as int].1@));
                assert(state_model(r) =~= m1.restrict(m1.dom().filter(|k: Seq<char>| keeps(f, k))));
            } else {
                assert(state_model(r) =~= m1.restrict(m1.dom().filter(|k: Seq<char>| keeps(f, k))));
            }
            i = i + 1;
        }
        proof {
            crate::state::lemma_take_all(es);
            assert(crate::keyed_map::entries_map(es).map_values(|v: JsonValue| v@) =~= state_model(*state));
        }
        r
    }
}

} // verus!
