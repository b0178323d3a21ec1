//! Graph state: a map from field names to JSON values.
use vstd::prelude::*;

pub mod advanced;
pub mod reducer;
pub mod versioning;
pub mod channel;
pub mod advanced_channels;
pub mod schema;
pub mod validation;
use crate::json::{JsonValue, JsonModel};
use crate::keyed_map::{StrMap, keys_unique, has_key, key_index, entries_map, entry_keys, lemma_entries_map_push};
use crate::clock::current_timestamp;
use crate::state::reducer::{Reducer, opt_model};
use crate::state::channel::{Channel, ChannelType, type_fits};
use crate::text::{concat_str, push_str};


verus! {

/// The state that flows through a graph: field name to value.
pub type StateData = StrMap<JsonValue>;

/// The meaning of a state: each field's value taken by its model.
pub open spec fn state_model(s: StateData) -> Map<Seq<char>, JsonModel> {
    s.map().map_values(|v: JsonValue| v@)
}

/// The map denoted by the first `n` entries extends the one of the first `n - 1` entries.
pub proof fn lemma_prefix_map<T>(s: Seq<(Seq<char>, T)>, n: int)
    requires
        keys_unique(s),
        0 <= n < s.len(),
    ensures
        keys_unique(s.take(n)),
        !has_key(s.take(n), s[n].0),
        s.take(n + 1) =~= s.take(n).push(s[n]),
        entries_map(s.take(n + 1)) =~= entries_map(s.take(n)).insert(s[n].0, s[n].1),
{
    let p = s.take(n);
    assert(s.take(n + 1) =~= p.push(s[n]));
    assert forall|i: int, j: int| 0 <= i < p.len() && 0 <= j < p.len() && i != j implies p[i].0
        != p[j].0 by {
        assert(p[i] == s[i] && p[j] == s[j]);
    }
    if has_key(p, s[n].0) {
        let i = key_index(p, s[n].0);
        assert(p[i] == s[i]);
    }
    lemma_entries_map_push(p, s[n].0, s[n].1);
}

/// The whole sequence is its longest prefix.
pub proof fn lemma_take_all<T>(s: Seq<T>)
    ensures
        s.take(s.len() as int) =~= s,
{
}

/// The fields of a state as the entries of an object, in order.
pub open spec fn state_entries_model(s: StateData) -> Seq<(Seq<char>, JsonModel)> {
    Seq::new(s.spec_entries().len(), |i: int| (s.spec_entries()[i].0, s.spec_entries()[i].1@))
}

/// A state as a JSON object with its fields, in order.
pub fn state_object(s: &StateData) -> (v: JsonValue)
    ensures
        v@ == JsonModel::Object(state_entries_model(*s)),
{
    let ghost es = s.spec_entries();
    let mut out: Vec<(String, JsonValue)> = Vec::new();
    let mut i: usize = 0;
    while i < s.len()
        invariant
            i <= es.len(),
            es == s.spec_entries(),
            out@.len() == i,
            forall|j: int| 0 <= j < i ==> (#[trigger] out@[j]).0@ == es[j].0 && out@[j].1@ == es[j].1@,
        decreases es.len() - i,
    {
        let k = crate::json::copy_string(s.key_at(i));
        let v = s.value_at(i).deep_clone();
        out.push((k, v));
        i = i + 1;
    }
    let v = JsonValue::Object(out);
    assert(v@->Object_0 =~= state_entries_model(*s));
    v
}

/// A state with an object's fields; a later entry for a key wins.
pub fn state_of_object(o: &Vec<(String, JsonValue)>) -> (s: StateData)
    ensures
        state_model(s) == crate::state::schema::obj_map(JsonValue::Object(*o)@->Object_0),
{
    let ghost m = JsonValue::Object(*o)@->Object_0;
    let mut s: StateData = StrMap::new();
    assert(state_model(s) =~= crate::state::schema::obj_map(m.take(0)));
    let mut i: usize = 0;
    while i < o.len()
        invariant
            i <= o@.len(),
            m == JsonValue::Object(*o)@->Object_0,
            m.len() == o@.len(),
            state_model(s) == crate::state::schema::obj_map(m.take(i as int)),
        decreases o@.len() - i,
    {
        assert(m.take(i + 1).drop_last() =~= m.take(i as int));
        assert(m.take(i + 1).last() == m[i as int]);
        assert(m[i as int] == (o@[i as int].0@, o@[i as int].1@));
        let ghost before = state_model(s);
        s.insert(crate::json::copy_string(&o[i].0), o[i].1.deep_clone());
        assert(state_model(s) =~= before.insert(o@[i as int].0@, o@[i as int].1@));
        i = i + 1;
    }
    assert(m.take(i as int) =~= m);
    s
}

/// A copy of a state with the same meaning and the same field order.
pub fn clone_state(s: &StateData) -> (r: StateData)
    ensures
        state_model(r) == state_model(*s),
        r.map().dom() == s.map().dom(),
        r.key_seq() == s.key_seq(),
        forall|k: Seq<char>| #[trigger] r.map().contains_key(k) ==> r.map()[k]@ == s.map()[k]@,
{
    s.assert_unique();
    let ghost es = s.spec_entries();
    let mut r: StateData = StrMap::new();
    let mut i: usize = 0;
    while i < s.len()
        invariant
            0 <= i <= es.len(),
            es == s.spec_entries(),
            keys_unique(es),
            r.map().dom() == entries_map(es.take(i as int)).dom(),
            forall|k: Seq<char>| #[trigger] r.map().contains_key(k) ==> r.map()[k]@ == entries_map(
                es.take(i as int),
            )[k]@,
            r.key_seq() =~= entry_keys(es.take(i as int)),
        decreases es.len() - i,
    {
        proof {
            lemma_prefix_map(es, i as int);
        }
        let k = copy_key(s.key_at(i));
        let v = s.value_at(i).deep_clone();
        r.insert(k, v);
        proof {
            assert(entry_keys(es.take(i + 1)) =~= entry_keys(es.take(i as int)).push(es[i as int].0));
        }
        i = i + 1;
    }
    proof {
        lemma_take_all(es);
        assert(state_model(r) =~= state_model(*s));
    }
    r
}

/// Copies a key.
pub fn copy_key(k: &String) -> (r: String)
    ensures
        r@ == k@,
{
    k.clone()
}

/// The model of field `k` of a map of values, if present.
pub open spec fn field_model(m: Map<Seq<char>, JsonValue>, k: Seq<char>) -> Option<JsonModel> {
    if m.contains_key(k) {
        Some(m[k]@)
    } else {
        None
    }
}

/// Timing and counting facts about an execution's state.
#[derive(Debug)]
pub struct StateMetadata {
    /// When execution started, in seconds since the Unix epoch.
    pub started_at: u64,
    /// When the state last changed.
    pub updated_at: u64,
    /// How many transitions were recorded.
    pub transition_count: usize,
    /// Anything else.
    pub custom: Option<JsonValue>,
}

/// A move from one node to another.
#[derive(Debug)]
pub struct StateTransition {
    pub from: String,
    pub to: String,
    pub timestamp: u64,
    /// The values just before the move.
    pub state_before: Option<StateData>,
    /// The changes the move brought.
    pub changes: Option<StateData>,
    pub metadata: Option<JsonValue>,
}

/// The state of a graph execution.
#[derive(Debug)]
pub struct GraphState {
    /// Current values.
    pub values: StateData,
    /// Transitions so far, oldest first.
    pub history: Vec<StateTransition>,
    /// The node being executed.
    pub current_node: Option<String>,
    /// Conversation thread.
    pub thread_id: Option<String>,
    pub metadata: StateMetadata,
}

impl GraphState {
    /// A state with no values and no history, started now.
    pub fn new() -> (g: GraphState)
        ensures
            g.values.map() == Map::<Seq<char>, JsonValue>::empty(),
            g.history@.len() == 0,
            g.current_node is None,
            g.thread_id is None,
            g.metadata.started_at == g.metadata.updated_at,
            g.metadata.transition_count == 0,
            g.metadata.custom is None,
    {
        let now = current_timestamp();
        GraphState {
            values: StrMap::new(),
            history: Vec::new(),
            current_node: None,
            thread_id: None,
            metadata: StateMetadata {
                started_at: now,
                updated_at: now,
                transition_count: 0,
                custom: None,
            },
        }
    }

    /// A new state for the given conversation thread.
    pub fn with_thread_id(thread_id: String) -> (g: GraphState)
        ensures
            g.values.map() == Map::<Seq<char>, JsonValue>::empty(),
            g.history@.len() == 0,
            g.current_node is None,
            g.thread_id == Some(thread_id),
            g.metadata.transition_count == 0,
    {
        let mut g = GraphState::new();
        g.thread_id = Some(thread_id);
        g
    }

    /// The value of field `key`, if set.
    pub fn get(&self, key: &str) -> (r: Option<&JsonValue>)
        ensures
            match r {
                Some(v) => self.values.map().contains_key(key@) && *v == self.values.map()[key@],
                None => !self.values.map().contains_key(key@),
            },
    {
        self.values.get(key)
    }

    fn update_timestamp(&mut self)
        ensures
            final(self).values == old(self).values,
            final(self).history == old(self).history,
            final(self).current_node == old(self).current_node,
            final(self).thread_id == old(self).thread_id,
            final(self).metadata.started_at == old(self).metadata.started_at,
            final(self).metadata.transition_count == old(self).metadata.transition_count,
            final(self).metadata.custom == old(self).metadata.custom,
    {
        self.metadata.updated_at = current_timestamp();
    }

    /// Sets field `key` to `value`.
    pub fn set(&mut self, key: String, value: JsonValue)
        ensures
            final(self).values.map() == old(self).values.map().insert(key@, value),
            final(self).history == old(self).history,
            final(self).metadata.transition_count == old(self).metadata.transition_count,
    {
        self.values.insert(key, value);
        self.update_timestamp();
    }

    /// Sets every field of `updates`.
    pub fn update(&mut self, updates: StateData)
        ensures
            state_model(final(self).values) == state_model(old(self).values).union_prefer_right(
                state_model(updates),
            ),
            final(self).history == old(self).history,
            final(self).metadata.transition_count == old(self).metadata.transition_count,
    {
        updates.assert_unique();
        let ghost es = updates.spec_entries();
        let ghost s0 = state_model(self.values);
        let mut i: usize = 0;
        while i < updates.len()
            invariant
                0 <= i <= es.len(),
                es == updates.spec_entries(),
                keys_unique(es),
                state_model(self.values) == s0.union_prefer_right(
                    entries_map(es.take(i as int)).map_values(|v: JsonValue| v@),
                ),
                self.history == old(self).history,
                self.metadata == old(self).metadata,
            decreases es.len() - i,
        {
            proof {
                lemma_prefix_map(es, i as int);
            }
            let k = copy_key(updates.key_at(i));
            let v = updates.value_at(i).deep_clone();
            let ghost before = state_model(self.values);
            let ghost m_new = entries_map(es.take(i + 1)).map_values(|v: JsonValue| v@);
            self.values.insert(k, v);
            proof {
                assert(m_new =~= entries_map(es.take(i as int)).map_values(|v: JsonValue| v@).insert(
                    k@,
                    v@,
                ));
                assert(state_model(self.values) =~= before.insert(k@, v@));
                assert(state_model(self.values) =~= s0.union_prefer_right(m_new));
            }
            i = i + 1;
        }
        proof {
            lemma_take_all(es);
            assert(entries_map(es).map_values(|v: JsonValue| v@) =~= state_model(updates));
        }
        self.update_timestamp();
    }

    /// Merges `value` into field `key` with `reducer`; the other fields keep
    /// their values.
    pub fn apply_update(&mut self, key: &str, value: JsonValue, reducer: &dyn Reducer)
        requires
            reducer.accepts(field_model(old(self).values.map(), key@), value@),
        ensures
            final(self).values.map().dom() == old(self).values.map().dom().insert(key@),
            forall|k: Seq<char>|
                k != key@ && #[trigger] old(self).values.map().contains_key(k) ==> final(self).values.map()[k] == old(self).values.map()[k],
            final(self).history == old(self).history,
    {
        let existing = self.values.get(key);
        assert(opt_model(existing) == field_model(self.values.map(), key@));
        let new_value = reducer.reduce(existing, value);
        self.values.insert(key.to_string(), new_value);
        self.update_timestamp();
    }

    /// Records a move from `from` to `to`, with the values before it.
    pub fn add_transition(&mut self, from: String, to: String, changes: Option<StateData>)
        requires
            old(self).metadata.transition_count < usize::MAX,
        ensures
            final(self).values == old(self).values,
            final(self).history@.len() == old(self).history@.len() + 1,
            final(self).history@.take(old(self).history@.len() as int) == old(self).history@,
            final(self).history@.last().from == from,
            final(self).history@.last().to == to,
            final(self).history@.last().state_before matches Some(b) && state_model(b) == state_model(
                old(self).values,
            ),
            final(self).history@.last().changes == changes,
            final(self).metadata.transition_count == old(self).metadata.transition_count + 1,
    {
        let before = clone_state(&self.values);
        let transition = StateTransition {
            from,
            to,
            timestamp: current_timestamp(),
            state_before: Some(before),
            changes,
            metadata: None,
        };
        let ghost h0 = self.history@;
        self.history.push(transition);
        assert(self.history@.take(h0.len() as int) =~= h0);
        self.metadata.transition_count = self.metadata.transition_count + 1;
        self.update_timestamp();
    }

    /// A copy of the current values.
    pub fn snapshot(&self) -> (s: StateData)
        ensures
            state_model(s) == state_model(self.values),
            s.key_seq() == self.values.key_seq(),
    {
        clone_state(&self.values)
    }

    /// Replaces the values with `snapshot`.
    pub fn restore(&mut self, snapshot: StateData)
        ensures
            final(self).values == snapshot,
            final(self).history == old(self).history,
    {
        self.values = snapshot;
        self.update_timestamp();
    }
}

impl Default for GraphState {
    /// The same as `GraphState::new`.
    fn default() -> (g: GraphState)
        ensures
            g.values.map() == Map::<Seq<char>, JsonValue>::empty(),
            g.history@.len() == 0,
            g.metadata.transition_count == 0,
    {
        GraphState::new()
    }
}

/// Restoring a snapshot gives back the values it was taken of: `before` is
/// a state, `snap` what `snapshot` returned for it, `after` a state whose
/// values `restore` set to `snap`.
pub proof fn lemma_snapshot_restore(before: GraphState, snap: StateData, after: GraphState)
    requires
        state_model(snap) == state_model(before.values),
        after.values == snap,
    ensures
        state_model(after.values) == state_model(before.values),
{
}

/// Reading a field just set gives the value set; the other fields keep
/// their values.
pub proof fn lemma_get_after_set(m: Map<Seq<char>, JsonValue>, k: Seq<char>, v: JsonValue, other: Seq<char>)
    ensures
        m.insert(k, v).contains_key(k),
        m.insert(k, v)[k] == v,
        other != k ==> m.insert(k, v).contains_key(other) == m.contains_key(other),
        other != k && m.contains_key(other) ==> m.insert(k, v)[other] == m[other],
{
}

/// The message for a required field that is missing.
pub open spec fn missing_message(k: Seq<char>) -> Seq<char> {
    "Missing required field: "@ + k
}

/// The name of a channel type, as `Debug` writes it.
pub open spec fn channel_type_name(t: ChannelType) -> Seq<char> {
    match t {
        ChannelType::String => "String"@,
        ChannelType::Number => "Number"@,
        ChannelType::Boolean => "Boolean"@,
        ChannelType::Array => "Array"@,
        ChannelType::Object => "Object"@,
        ChannelType::Any => "Any"@,
        ChannelType::Custom(_) => "Custom"@,
    }
}

/// The message for a field whose value has the wrong type.
pub open spec fn mismatch_message(k: Seq<char>, t: ChannelType) -> Seq<char> {
    "Type mismatch for field '"@ + k + "': expected "@ + channel_type_name(t)
}

/// The messages for required fields that `present` lacks, in order.
pub open spec fn missing_messages(required: Seq<Seq<char>>, present: Set<Seq<char>>) -> Seq<Seq<char>>
    decreases required.len(),
{
    if required.len() == 0 {
        Seq::empty()
    } else {
        let r = missing_messages(required.drop_last(), present);
        if present.contains(required.last()) {
            r
        } else {
            r.push(missing_message(required.last()))
        }
    }
}

/// The messages for the entries of `values`, in order, whose field has a
/// channel and does not fit its type.
pub open spec fn mismatch_messages(
    values: Seq<(Seq<char>, JsonValue)>,
    channels: Map<Seq<char>, Channel>,
) -> Seq<Seq<char>>
    decreases values.len(),
{
    if values.len() == 0 {
        Seq::empty()
    } else {
        let r = mismatch_messages(values.drop_last(), channels);
        let (k, v) = values.last();
        if channels.contains_key(k) && !type_fits(channels[k].channel_type, v@) {
            r.push(mismatch_message(k, channels[k].channel_type))
        } else {
            r
        }
    }
}

/// The channels of a state and which fields it requires.
pub struct StateSchema {
    pub channels: StrMap<Channel>,
    /// Names of required fields, in the order their channels were added.
    pub required: Vec<String>,
    pub metadata: Option<JsonValue>,
}

impl StateSchema {
    /// A schema with no channels.
    pub fn new() -> (s: StateSchema)
        ensures
            s.channels.map() == Map::<Seq<char>, Channel>::empty(),
            s.required@.len() == 0,
            s.metadata is None,
    {
        StateSchema { channels: StrMap::new(), required: Vec::new(), metadata: None }
    }

    /// Adds channel `name`; a required channel's name is also recorded as required.
    pub fn add_channel(&mut self, name: String, channel: Channel)
        ensures
            final(self).channels.map().dom() == old(self).channels.map().dom().insert(name@),
            forall|k: Seq<char>|
                k != name@ && #[trigger] old(self).channels.map().contains_key(k) ==> final(self).channels.map()[k] == old(self).channels.map()[k],
            final(self).channels.map()[name@].channel_type == channel.channel_type,
            final(self).channels.map()[name@].required == channel.required,
            channel.required ==> crate::graph::strings_view(final(self).required@)
                == crate::graph::strings_view(old(self).required@).push(name@),
            !channel.required ==> final(self).required@ == old(self).required@,
            final(self).metadata == old(self).metadata,
    {
        if channel.required {
            let ghost r0 = self.required@;
            self.required.push(copy_key(&name));
            assert(crate::graph::strings_view(self.required@) =~= crate::graph::strings_view(r0).push(
                name@,
            ));
        }
        let ghost ct = channel.channel_type;
        let ghost rq = channel.required;
        self.channels.insert(name, channel);
    }

    /// Checks `state` against the schema: every required field present, and
    /// every field with a channel holding a value of its type.  On failure
    /// the messages come in that order: missing fields in the order they
    /// are required, then mismatches in the state's order.
    pub fn validate(&self, state: &StateData) -> (r: Result<(), Vec<String>>)
        ensures
            ({
                let msgs = missing_messages(crate::graph::strings_view(self.required@), state.map().dom())
                    + mismatch_messages(state.spec_entries(), self.channels.map());
                match r {
                    Ok(()) => msgs.len() == 0,
                    Err(e) => msgs.len() > 0 && crate::graph::strings_view(e@) == msgs,
                }
            }),
    {
        let ghost req = crate::graph::strings_view(self.required@);
        let ghost present = state.map().dom();
        let mut errors: Vec<String> = Vec::new();
        let mut i: usize = 0;
        while i < self.required.len()
            invariant
                0 <= i <= self.required@.len(),
                req == crate::graph::strings_view(self.required@),
                present == state.map().dom(),
                crate::graph::strings_view(errors@) == missing_messages(req.take(i as int), present),
            decreases self.required@.len() - i,
        {
            let k = &self.required[i];
            proof {
                assert(req.take(i + 1).drop_last() =~= req.take(i as int));
                assert(req.take(i + 1).last() == k@);
            }
            if !state.contains_key(k.as_str()) {
                let ghost e0 = errors@;
                let m = concat_str("Missing required field: ", k.as_str());
                errors.push(m);
                assert(crate::graph::strings_view(errors@) =~= crate::graph::strings_view(e0).push(
                    missing_message(k@),
                ));
            }
            i = i + 1;
        }
        proof {
            assert(req.take(req.len() as int) =~= req);
        }
        let ghost base = errors@;
        let ghost es = state.spec_entries();
        let ghost cm = self.channels.map();
        let mut j: usize = 0;
        while j < state.len()
            invariant
                0 <= j <= es.len(),
                es == state.spec_entries(),
                cm == self.channels.map(),
                base.len() <= errors@.len(),
                errors@.take(base.len() as int) == base,
                crate::graph::strings_view(errors@.skip(base.len() as int)) == mismatch_messages(
                    es.take(j as int),
                    cm,
                ),
            decreases es.len() - j,
        {
            let k = state.key_at(j);
            let v = state.value_at(j);
            proof {
                assert(es.take(j + 1).drop_last() =~= es.take(j as int));
                assert(es.take(j + 1).last() == (k@, *v));
            }
            match self.channels.get(k.as_str()) {
                Some(ch) => {
                    if !ch.validate_type(v) {
                        let ghost e0 = errors@;
                        let mut m = concat_str("Type mismatch for field '", k.as_str());
                        push_str(&mut m, "': expected ");
                        let name = match &ch.channel_type {
                            ChannelType::String => "String",
                            ChannelType::Number => "Number",
                            ChannelType::Boolean => "Boolean",
                            ChannelType::Array => "Array",
                            ChannelType::Object => "Object",
                            ChannelType::Any => "Any",
                            ChannelType::Custom(_) => "Custom",
                        };
                        push_str(&mut m, name);
                        assert(m@ =~= mismatch_message(k@, ch.channel_type));
                        errors.push(m);
                        assert(errors@.take(base.len() as int) =~= e0.take(base.len() as int));
                        assert(errors@.skip(base.len() as int) =~= e0.skip(base.len() as int).push(
                            errors@.last(),
                        ));
                        assert(crate::graph::strings_view(errors@.skip(base.len() as int))
                            =~= crate::graph::strings_view(e0.skip(base.len() as int)).push(
                            mismatch_message(k@, ch.channel_type),
                        ));
                    }
                },
                None => {},
            }
            j = j + 1;
        }
        proof {
            assert(es.take(es.len() as int) =~= es);
            assert(errors@ =~= base + errors@.skip(base.len() as int));
            assert(crate::graph::strings_view(errors@) =~= crate::graph::strings_view(base)
                + crate::graph::strings_view(errors@.skip(base.len() as int)));
        }
        if errors.len() == 0 {
            assert(crate::graph::strings_view(errors@).len() == 0);
            Ok(())
        } else {
            Err(errors)
        }
    }
}

} // verus!
