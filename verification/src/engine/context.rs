//! Execution context: state shared by all nodes, and nested scopes of
//! variables.
use vstd::prelude::*;
use crate::json::{JsonModel, JsonValue};
use crate::keyed_map::StrMap;
use crate::state::{clone_state, state_model, StateData};
use crate::graph::subgraph::{merge_output, merged_output};

verus! {

/// State shared by the nodes of a run: global fields and each node's own.
pub struct SharedContext {
    /// Global state accessible to all nodes
    pub global_state: StateData,
    /// Node-specific state, by node
    pub node_states: StrMap<StateData>,
}

impl SharedContext {
    /// A context with no state.
    pub fn new() -> (c: SharedContext)
        ensures
            c.global_state.map().len() == 0,
            c.node_states.map().len() == 0,
    {
        let c = SharedContext { global_state: StrMap::new(), node_states: StrMap::new() };
        assert(c.global_state.map() =~= Map::empty());
        assert(c.node_states.map() =~= Map::empty());
        c
    }

    /// A copy of the global field `key`, if set.
    pub fn get_global(&self, key: &str) -> (r: Option<JsonValue>)
        ensures
            match r {
                Some(v) => state_model(self.global_state).contains_key(key@) && v@ == state_model(self.global_state)[key@],
                None => !state_model(self.global_state).contains_key(key@),
            },
    {
        match self.global_state.get(key) {
            Some(v) => Some(v.deep_clone()),
            None => None,
        }
    }

    /// Sets the global field `key`.
    pub fn set_global(&mut self, key: String, value: JsonValue)
        ensures
            final(self).global_state.map() == old(self).global_state.map().insert(key@, value),
            final(self).node_states == old(self).node_states,
    {
        self.global_state.insert(key, value);
    }

    /// A copy of the state of `node_id`, if set.
    pub fn get_node_state(&self, node_id: &str) -> (r: Option<StateData>)
        ensures
            match r {
                Some(s) => self.node_states.map().contains_key(node_id@) && state_model(s) == state_model(
                    self.node_states.map()[node_id@],
                ),
                None => !self.node_states.map().contains_key(node_id@),
            },
    {
        match self.node_states.get(node_id) {
            Some(s) => Some(clone_state(s)),
            None => None,
        }
    }

    /// Sets the state of `node_id`.
    pub fn set_node_state(&mut self, node_id: String, state: StateData)
        ensures
            final(self).node_states.map() == old(self).node_states.map().insert(node_id@, state),
            final(self).global_state == old(self).global_state,
    {
        self.node_states.insert(node_id, state);
    }

    /// Writes the fields of `node_id`'s state over the global state.
    pub fn merge_to_global(&mut self, node_id: &str)
        ensures
            old(self).node_states.map().contains_key(node_id@) ==> state_model(final(self).global_state)
                == state_model(old(self).global_state).union_prefer_right(
                state_model(old(self).node_states.map()[node_id@]),
            ),
            !old(self).node_states.map().contains_key(node_id@) ==> final(self).global_state == old(self).global_state,
            final(self).node_states == old(self).node_states,
    {
        match self.get_node_state(node_id) {
            Some(s) => {
                let merged = merge_output(&self.global_state, s, false);
                self.global_state = merged;
            },
            None => {},
        }
    }
}

/// The value of `k` in the innermost scope that holds it.
pub open spec fn scope_lookup(s: Seq<Map<Seq<char>, JsonValue>>, k: Seq<char>) -> Option<JsonValue>
    decreases s.len(),
{
    if s.len() == 0 {
        None
    } else if s.last().contains_key(k) {
        Some(s.last()[k])
    } else {
        scope_lookup(s.drop_last(), k)
    }
}

/// All the scopes as one map, inner scopes over outer ones.
pub open spec fn scope_flat(s: Seq<Map<Seq<char>, JsonValue>>) -> Map<Seq<char>, JsonValue>
    decreases s.len(),
{
    if s.len() == 0 {
        Map::empty()
    } else {
        scope_flat(s.drop_last()).union_prefer_right(s.last())
    }
}

/// Looking a variable up through the scopes finds what the flattened
/// scopes hold for it.
pub proof fn lemma_lookup_is_flat(s: Seq<Map<Seq<char>, JsonValue>>, k: Seq<char>)
    ensures
        scope_lookup(s, k) == (if scope_flat(s).contains_key(k) {
            Some(scope_flat(s)[k])
        } else {
            None
        }),
    decreases s.len(),
{
    if s.len() > 0 {
        lemma_lookup_is_flat(s.drop_last(), k);
    }
}

/// A variable set in the current scope is what a lookup then finds.
pub proof fn lemma_set_then_get(s: Seq<Map<Seq<char>, JsonValue>>, k: Seq<char>, v: JsonValue)
    requires
        s.len() >= 1,
    ensures
        scope_lookup(s.update(s.len() - 1, s.last().insert(k, v)), k) == Some(v),
{
    let t = s.update(s.len() - 1, s.last().insert(k, v));
    assert(t.last() == s.last().insert(k, v));
}

/// Nested scopes of variables; the innermost is the current one.
pub struct ExecutionScope {
    scopes: Vec<StrMap<JsonValue>>,
}

impl ExecutionScope {
    /// The scopes, outermost first.
    pub closed spec fn frames(&self) -> Seq<Map<Seq<char>, JsonValue>> {
        Seq::new(self.scopes@.len(), |i: int| self.scopes@[i].map())
    }

    #[verifier::type_invariant]
    closed spec fn inv(&self) -> bool {
        self.scopes@.len() >= 1
    }

    /// One empty scope.
    pub fn new() -> (s: ExecutionScope)
        ensures
            s.frames() == seq![Map::<Seq<char>, JsonValue>::empty()],
    {
        let mut scopes: Vec<StrMap<JsonValue>> = Vec::new();
        scopes.push(StrMap::new());
        let s = ExecutionScope { scopes };
        assert(s.frames() =~= seq![Map::<Seq<char>, JsonValue>::empty()]);
        s
    }

    /// Opens a new, empty, current scope.
    pub fn push_scope(&mut self)
        ensures
            final(self).frames() == old(self).frames().push(Map::empty()),
    {
        let mut scopes: Vec<StrMap<JsonValue>> = Vec::new();
        scopes.push(StrMap::new());
        std::mem::swap(&mut scopes, &mut self.scopes);
        scopes.push(StrMap::new());
        self.scopes = scopes;
        assert(self.frames() =~= old(self).frames().push(Map::empty()));
    }

    /// Closes the current scope and returns it; none where it is the
    /// outermost one, which stays.
    pub fn pop_scope(&mut self) -> (r: Option<StrMap<JsonValue>>)
        ensures
            old(self).frames().len() > 1 ==> r is Some && r->0.map() == old(self).frames().last()
                && final(self).frames() == old(self).frames().drop_last(),
            old(self).frames().len() <= 1 ==> r is None && final(self).frames() == old(self).frames(),
    {
        proof {
            use_type_invariant(&*self);
        }
        if self.scopes.len() > 1 {
        let mut scopes: Vec<StrMap<JsonValue>> = Vec::new();
        scopes.push(StrMap::new());
        std::mem::swap(&mut scopes, &mut self.scopes);
            let top = scopes.pop();
            self.scopes = scopes;
            assert(self.frames() =~= old(self).frames().drop_last());
            top
        } else {
            None
        }
    }

    /// The value of `key` in the innermost scope that holds it.
    pub fn get(&self, key: &str) -> (r: Option<&JsonValue>)
        ensures
            match r {
                Some(v) => scope_lookup(self.frames(), key@) == Some(*v),
                None => scope_lookup(self.frames(), key@) is None,
            },
    {
        let ghost f = self.frames();
        let mut i: usize = self.scopes.len();
        assert(f.take(i as int) =~= f);
        while i > 0
            invariant
                i <= self.scopes@.len(),
                f == self.frames(),
                scope_lookup(f, key@) == scope_lookup(f.take(i as int), key@),
            decreases i,
        {
            let ghost t = f.take(i as int);
            assert(t.drop_last() =~= f.take(i - 1));
            assert(t.last() == self.scopes@[i - 1].map());
            match self.scopes[i - 1].get(key) {
                Some(v) => {
                    return Some(v);
                },
                None => {},
            }
            i = i - 1;
        }
        None
    }

    /// Sets `key` in the current scope.
    pub fn set(&mut self, key: String, value: JsonValue)
        ensures
            final(self).frames() == old(self).frames().update(
                old(self).frames().len() - 1,
                old(self).frames().last().insert(key@, value),
            ),
    {
        proof {
            use_type_invariant(&*self);
        }
        let n = self.scopes.len();
        let mut scopes: Vec<StrMap<JsonValue>> = Vec::new();
        scopes.push(StrMap::new());
        std::mem::swap(&mut scopes, &mut self.scopes);
        let mut top = scopes.pop().unwrap();
        top.insert(key, value);
        scopes.push(top);
        self.scopes = scopes;
        assert(self.frames() =~= old(self).frames().update(n - 1, old(self).frames().last().insert(key@, value)));
    }

    /// Every visible variable, inner scopes over outer ones.
    pub fn flatten(&self) -> (r: StateData)
        ensures
            state_model(r) == scope_flat(self.frames()).map_values(|v: JsonValue| v@),
    {
        let ghost f = self.frames();
        let mut result: StateData = StrMap::new();
        assert(state_model(result) =~= scope_flat(f.take(0)).map_values(|v: JsonValue| v@));
        let mut i: usize = 0;
        while i < self.scopes.len()
            invariant
                i <= self.scopes@.len(),
                f == self.frames(),
                state_model(result) == scope_flat(f.take(i as int)).map_values(|v: JsonValue| v@),
            decreases self.scopes@.len() - i,
        {
            let layer = clone_state(&self.scopes[i]);
            result = merge_output(&result, layer, false);
            proof {
                let t = f.take(i + 1);
                assert(t.drop_last() =~= f.take(i as int));
                assert(t.last() == self.scopes@[i as int].map());
                assert(scope_flat(t).map_values(|v: JsonValue| v@) =~= scope_flat(f.take(i as int)).map_values(
                    |v: JsonValue| v@,
                ).union_prefer_right(state_model(self.scopes@[i as int])));
            }
            i = i + 1;
        }
        assert(f.take(i as int) =~= f);
        result
    }
}

impl Default for ExecutionScope {
    fn default() -> (s: ExecutionScope)
        ensures
            s.frames() == seq![Map::<Seq<char>, JsonValue>::empty()],
    {
        ExecutionScope::new()
    }
}

} // verus!
