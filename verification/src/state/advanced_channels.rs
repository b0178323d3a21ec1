//! Channels beyond the plain state field: one that keeps the last value, a
//! topic that keeps a bounded history, and a context that inherits from a
//! parent.
use vstd::prelude::*;
use crate::json::{JsonModel, JsonValue};
use crate::keyed_map::{StrMap, entries_map, keys_unique};
use crate::state::{clone_state, state_model, StateData, lemma_prefix_map};
use crate::graph::subgraph::merge_output;
use crate::text::str_eq;
use crate::state::schema::obj_map;

verus! {

/// Keeps only the most recent value, with when it was set (milliseconds
/// since the Unix epoch).
#[derive(Debug)]
pub struct LastValueChannel {
    /// The channel's name
    pub name: String,
    /// The value, if set
    pub value: Option<JsonValue>,
    /// When it was set
    pub timestamp: Option<i64>,
}

impl LastValueChannel {
    /// A channel without a value.
    pub fn new(name: String) -> (c: LastValueChannel)
        ensures
            c.name == name,
            c.value is None,
            c.timestamp is None,
    {
        LastValueChannel { name, value: None, timestamp: None }
    }

    /// Sets the value, at `now`.
    pub fn set_at(&mut self, value: JsonValue, now: i64)
        ensures
            final(self).value == Some(value),
            final(self).timestamp == Some(now),
            final(self).name == old(self).name,
    {
        self.value = Some(value);
        self.timestamp = Some(now);
    }

    /// Sets the value, now.
    pub fn set(&mut self, value: JsonValue)
        ensures
            final(self).value == Some(value),
            final(self).timestamp is Some,
            final(self).name == old(self).name,
    {
        self.set_at(value, crate::clock::now_millis());
    }

    /// A copy of the value.
    pub fn get(&self) -> (r: Option<JsonValue>)
        ensures
            match self.value {
                Some(v) => r is Some && r->0@ == v@,
                None => r is None,
            },
    {
        match &self.value {
            Some(v) => Some(v.deep_clone()),
            None => None,
        }
    }

    /// A copy of the value with the time it was set.
    pub fn get_with_timestamp(&self) -> (r: Option<(JsonValue, i64)>)
        ensures
            match (self.value, self.timestamp) {
                (Some(v), Some(t)) => r is Some && (r->0).0@ == v@ && (r->0).1 == t,
                _ => r is None,
            },
    {
        match (&self.value, self.timestamp) {
            (Some(v), Some(t)) => Some((v.deep_clone(), t)),
            _ => None,
        }
    }

    /// Forgets the value.
    pub fn clear(&mut self)
        ensures
            final(self).value is None,
            final(self).timestamp is None,
            final(self).name == old(self).name,
    {
        self.value = None;
        self.timestamp = None;
    }
}

/// What each entry of a history records: the value and its time.
pub open spec fn history_view(s: Seq<(JsonValue, i64)>) -> Seq<(JsonModel, i64)> {
    Seq::new(s.len(), |i: int| (s[i].0@, s[i].1))
}

/// The history after publishing `x`: `x` last, the oldest entry dropped
/// where that passes `max` entries.
pub open spec fn published<T>(s: Seq<T>, x: T, max: nat) -> Seq<T> {
    if s.push(x).len() > max {
        s.push(x).drop_first()
    } else {
        s.push(x)
    }
}

/// Publishes values and keeps the most recent of them.
#[derive(Debug)]
pub struct TopicChannel {
    /// The channel's name
    pub name: String,
    /// The published values with their times (milliseconds since the Unix
    /// epoch), oldest first
    pub history: Vec<(JsonValue, i64)>,
    /// The most entries kept
    pub max_history: usize,
}

impl TopicChannel {
    /// A topic that keeps the last 100 values.
    pub fn new(name: String) -> (t: TopicChannel)
        ensures
            t.name == name,
            t.history@.len() == 0,
            t.max_history == 100,
    {
        TopicChannel::with_history(name, 100)
    }

    /// A topic that keeps the last `max_history` values.
    pub fn with_history(name: String, max_history: usize) -> (t: TopicChannel)
        ensures
            t.name == name,
            t.history@.len() == 0,
            t.max_history == max_history,
    {
        TopicChannel { name, history: Vec::new(), max_history }
    }

    /// Records `value` as published at `now`, dropping the oldest entry
    /// where the history grows past its limit. Handing the value to
    /// subscribers is the caller's.
    pub fn publish_at(&mut self, value: JsonValue, now: i64)
        ensures
            final(self).history@ == published(old(self).history@, (value, now), old(self).max_history as nat),
            final(self).max_history == old(self).max_history,
            final(self).name == old(self).name,
    {
        self.history.push((value, now));
        if self.history.len() > self.max_history {
            self.history.remove(0);
        }
        assert(self.history@ =~= published(old(self).history@, (value, now), old(self).max_history as nat));
    }

    /// Records `value` as published now.
    pub fn publish(&mut self, value: JsonValue)
        ensures
            final(self).history@.len() >= 1 || old(self).max_history == 0,
            final(self).max_history == old(self).max_history,
    {
        self.publish_at(value, crate::clock::now_millis());
    }

    /// Copies of the last `count` entries (all, where there are fewer),
    /// oldest first.
    pub fn get_history(&self, count: usize) -> (r: Vec<(JsonValue, i64)>)
        ensures
            history_view(r@) == history_view(self.history@).skip(
                if count < self.history@.len() { self.history@.len() - count } else { 0 },
            ),
    {
        let n = self.history.len();
        let start = if count < n { n - count } else { 0 };
        let mut r: Vec<(JsonValue, i64)> = Vec::new();
        let mut i: usize = start;
        while i < n
            invariant
                start <= i <= n,
                n == self.history@.len(),
                history_view(r@) == history_view(self.history@).subrange(start as int, i as int),
            decreases n - i,
        {
            let v = self.history[i].0.deep_clone();
            let ghost before = r@;
            r.push((v, self.history[i].1));
            assert(history_view(r@) =~= history_view(before).push((self.history@[i as int].0@, self.history@[i as int].1)));
            assert(history_view(self.history@).subrange(start as int, i + 1) =~= history_view(self.history@).subrange(
                start as int,
                i as int,
            ).push((self.history@[i as int].0@, self.history@[i as int].1)));
            i = i + 1;
        }
        assert(history_view(self.history@).subrange(start as int, n as int) =~= history_view(self.history@).skip(start as int));
        r
    }

    /// Forgets the history.
    pub fn clear_history(&mut self)
        ensures
            final(self).history@.len() == 0,
            final(self).max_history == old(self).max_history,
            final(self).name == old(self).name,
    {
        self.history = Vec::new();
    }
}

/// Values by key, falling back on a parent's.
#[derive(Debug)]
pub struct ContextChannel {
    /// The channel's name
    pub name: String,
    /// The values set here
    pub local_context: StateData,
    /// The context this one inherits from
    pub parent: Option<Box<ContextChannel>>,
}

/// The value of `k` in the context: its own, else its parent's.
pub open spec fn context_lookup(c: ContextChannel, k: Seq<char>) -> Option<JsonModel>
    decreases c,
{
    if state_model(c.local_context).contains_key(k) {
        Some(state_model(c.local_context)[k])
    } else {
        match c.parent {
            Some(p) => context_lookup(*p, k),
            None => None,
        }
    }
}

/// Every value the context sees: its parent's, overridden by its own.
pub open spec fn context_all(c: ContextChannel) -> Map<Seq<char>, JsonModel>
    decreases c,
{
    match c.parent {
        Some(p) => context_all(*p).union_prefer_right(state_model(c.local_context)),
        None => state_model(c.local_context),
    }
}

/// A key's value found through the parents is its value among all the
/// values the context sees.
pub proof fn lemma_lookup_is_all(c: ContextChannel, k: Seq<char>)
    ensures
        context_lookup(c, k) == (if context_all(c).contains_key(k) {
            Some(context_all(c)[k])
        } else {
            None
        }),
    decreases c,
{
    match c.parent {
        Some(p) => {
            lemma_lookup_is_all(*p, k);
        },
        None => {},
    }
}

/// Two contexts say the same: the same name, values and parents.
pub open spec fn same_context(a: ContextChannel, b: ContextChannel) -> bool
    decreases a,
{
    &&& a.name@ == b.name@
    &&& state_model(a.local_context) == state_model(b.local_context)
    &&& match (a.parent, b.parent) {
        (Some(p), Some(q)) => same_context(*p, *q),
        (None, None) => true,
        _ => false,
    }
}

/// Contexts that say the same see the same values.
pub proof fn lemma_same_context(a: ContextChannel, b: ContextChannel, k: Seq<char>)
    requires
        same_context(a, b),
    ensures
        context_lookup(a, k) == context_lookup(b, k),
        context_all(a) == context_all(b),
    decreases a,
{
    match (a.parent, b.parent) {
        (Some(p), Some(q)) => {
            lemma_same_context(*p, *q, k);
        },
        _ => {},
    }
}

impl ContextChannel {
    /// A context with no values and no parent.
    pub fn new(name: String) -> (c: ContextChannel)
        ensures
            c.name == name,
            state_model(c.local_context) == Map::<Seq<char>, JsonModel>::empty(),
            c.parent is None,
    {
        let c = ContextChannel { name, local_context: StrMap::new(), parent: None };
        assert(state_model(c.local_context) =~= Map::<Seq<char>, JsonModel>::empty());
        c
    }

    /// A copy that says the same.
    pub fn copy(&self) -> (r: ContextChannel)
        ensures
            same_context(r, *self),
        decreases self,
    {
        let parent = match &self.parent {
            Some(p) => Some(Box::new(p.copy())),
            None => None,
        };
        ContextChannel { name: self.name.clone(), local_context: clone_state(&self.local_context), parent }
    }

    /// A child named `name` with no values of its own, inheriting from a
    /// copy of this context as it is now.
    pub fn create_child(&self, name: String) -> (c: ContextChannel)
        ensures
            c.name == name,
            state_model(c.local_context) == Map::<Seq<char>, JsonModel>::empty(),
            c.parent is Some && same_context(*c.parent->0, *self),
    {
        let mut c = ContextChannel::new(name);
        c.parent = Some(Box::new(self.copy()));
        c
    }

    /// Sets `key` here.
    pub fn set(&mut self, key: String, value: JsonValue)
        ensures
            final(self).local_context.map() == old(self).local_context.map().insert(key@, value),
            final(self).parent == old(self).parent,
            final(self).name == old(self).name,
    {
        self.local_context.insert(key, value);
    }

    /// A copy of the value of `key`: its own, else its parent's.
    pub fn get(&self, key: &str) -> (r: Option<JsonValue>)
        ensures
            match r {
                Some(v) => context_lookup(*self, key@) == Some(v@),
                None => context_lookup(*self, key@) is None,
            },
        decreases self,
    {
        match self.local_context.get(key) {
            Some(v) => Some(v.deep_clone()),
            None => match &self.parent {
                Some(p) => p.get(key),
                None => None,
            },
        }
    }

    /// Every value the context sees: its parent's, overridden by its own.
    pub fn get_all(&self) -> (r: StateData)
        ensures
            state_model(r) == context_all(*self),
        decreases self,
    {
        match &self.parent {
            Some(p) => {
                let base = p.get_all();
                merge_output(&base, clone_state(&self.local_context), false)
            },
            None => clone_state(&self.local_context),
        }
    }

    /// Forgets the values set here; the parent's stay.
    pub fn clear_local(&mut self)
        ensures
            state_model(final(self).local_context) == Map::<Seq<char>, JsonModel>::empty(),
            final(self).parent == old(self).parent,
            final(self).name == old(self).name,
    {
        self.local_context = StrMap::new();
        assert(state_model(self.local_context) =~= Map::<Seq<char>, JsonModel>::empty());
    }

    /// Whether `key` has a value here or in a parent.
    pub fn contains(&self, key: &str) -> (b: bool)
        ensures
            b == context_lookup(*self, key@) is Some,
        decreases self,
    {
        if self.local_context.contains_key(key) {
            true
        } else {
            match &self.parent {
                Some(p) => p.contains(key),
                None => false,
            }
        }
    }
}

/// The kinds of channel a composer holds.
#[derive(Debug)]
pub enum ChannelType {
    LastValue(LastValueChannel),
    Topic(TopicChannel),
    Context(ContextChannel),
}

/// Whether a channel has something for a pipeline: a set last value, a
/// published topic value, or a context.
pub open spec fn contributes(c: ChannelType) -> bool {
    match c {
        ChannelType::LastValue(l) => l.value is Some,
        ChannelType::Topic(t) => t.history@.len() > 0,
        ChannelType::Context(x) => true,
    }
}

/// Whether `r` is what the channel contributes: its last value, its
/// newest published value, or an object of all its context's values.
pub open spec fn contribution(r: JsonModel, c: ChannelType) -> bool {
    match c {
        ChannelType::LastValue(l) => r == l.value->0@,
        ChannelType::Topic(t) => r == t.history@.last().0@,
        ChannelType::Context(x) => r is Object && obj_map(r->Object_0) == context_all(x),
    }
}

/// Whether `r` is what running the channels named `names` in order gives:
/// the contribution of the last named channel that has one; null where
/// none has.
pub open spec fn pipeline_result(r: JsonModel, chans: Map<Seq<char>, ChannelType>, names: Seq<Seq<char>>) -> bool
    decreases names.len(),
{
    if names.len() == 0 {
        r is Null
    } else if chans.contains_key(names.last()) && contributes(chans[names.last()]) {
        contribution(r, chans[names.last()])
    } else {
        pipeline_result(r, chans, names.drop_last())
    }
}

proof fn lemma_state_object_prefix(s: StateData, n: int)
    requires
        keys_unique(s.spec_entries()),
        0 <= n <= s.spec_entries().len(),
    ensures
        obj_map(crate::state::state_entries_model(s).take(n)) == entries_map(s.spec_entries().take(n)).map_values(
            |v: JsonValue| v@,
        ),
    decreases n,
{
    let es = s.spec_entries();
    let o = crate::state::state_entries_model(s);
    if n == 0 {
        assert(obj_map(o.take(0)) =~= entries_map(es.take(0)).map_values(|v: JsonValue| v@));
    } else {
        lemma_state_object_prefix(s, n - 1);
        lemma_prefix_map(es, n - 1);
        assert(o.take(n).drop_last() =~= o.take(n - 1));
        assert(o.take(n).last() == (es[n - 1].0, es[n - 1].1@));
        assert(obj_map(o.take(n)) =~= entries_map(es.take(n)).map_values(|v: JsonValue| v@));
    }
}

/// The object of a state's fields has the state's values.
pub proof fn lemma_state_object_map(s: StateData)
    requires
        keys_unique(s.spec_entries()),
    ensures
        obj_map(crate::state::state_entries_model(s)) == state_model(s),
{
    let es = s.spec_entries();
    let o = crate::state::state_entries_model(s);
    lemma_state_object_prefix(s, es.len() as int);
    assert(o.take(es.len() as int) =~= o);
    assert(es.take(es.len() as int) =~= es);
}

/// Holds channels by name and composes them into pipelines.
#[derive(Debug)]
pub struct ChannelComposer {
    /// The channels, by name
    pub channels: StrMap<ChannelType>,
}

impl ChannelComposer {
    /// A composer without channels.
    pub fn new() -> (c: ChannelComposer)
        ensures
            c.channels.map() == Map::<Seq<char>, ChannelType>::empty(),
    {
        let c = ChannelComposer { channels: StrMap::new() };
        assert(c.channels.map() =~= Map::empty());
        c
    }

    /// Adds an empty last-value channel `name`; returns a fresh handle of
    /// the same kind, which does not share state with the stored one.
    pub fn add_last_value(&mut self, name: String) -> (c: LastValueChannel)
        ensures
            final(self).channels.map().dom() == old(self).channels.map().dom().insert(name@),
            final(self).channels.map()[name@] matches ChannelType::LastValue(l) && l.value is None,
            c.name@ == name@ && c.value is None,
    {
        let stored = LastValueChannel::new(name.clone());
        let handle = LastValueChannel::new(name.clone());
        self.channels.insert(name, ChannelType::LastValue(stored));
        assert(self.channels.map().dom() =~= old(self).channels.map().dom().insert(name@));
        handle
    }

    /// Adds an empty topic `name`; returns a fresh handle of the same kind.
    pub fn add_topic(&mut self, name: String) -> (t: TopicChannel)
        ensures
            final(self).channels.map().dom() == old(self).channels.map().dom().insert(name@),
            final(self).channels.map()[name@] matches ChannelType::Topic(x) && x.history@.len() == 0,
            t.name@ == name@ && t.history@.len() == 0,
    {
        let stored = TopicChannel::new(name.clone());
        let handle = TopicChannel::new(name.clone());
        self.channels.insert(name, ChannelType::Topic(stored));
        assert(self.channels.map().dom() =~= old(self).channels.map().dom().insert(name@));
        handle
    }

    /// Adds an empty context `name`; returns a fresh handle of the same kind.
    pub fn add_context(&mut self, name: String) -> (x: ContextChannel)
        ensures
            final(self).channels.map().dom() == old(self).channels.map().dom().insert(name@),
            final(self).channels.map()[name@] is Context,
            x.name@ == name@ && x.parent is None,
    {
        let stored = ContextChannel::new(name.clone());
        let handle = ContextChannel::new(name.clone());
        self.channels.insert(name, ChannelType::Context(stored));
        assert(self.channels.map().dom() =~= old(self).channels.map().dom().insert(name@));
        handle
    }

    /// The channel named `name`.
    pub fn get(&self, name: &str) -> (r: Option<&ChannelType>)
        ensures
            match r {
                Some(c) => self.channels.map().contains_key(name@) && *c == self.channels.map()[name@],
                None => !self.channels.map().contains_key(name@),
            },
    {
        self.channels.get(name)
    }

    /// Runs the named channels in order, each replacing the result where it
    /// has something: a last value, a topic's newest value, or all of a
    /// context's values as an object. Names of no channel are passed over.
    pub fn compose_pipeline(&self, channel_names: &Vec<String>) -> (r: JsonValue)
        ensures
            pipeline_result(r@, self.channels.map(), crate::graph::strings_view(channel_names@)),
    {
        let mut result = JsonValue::Null;
        let mut i: usize = 0;
        while i < channel_names.len()
            invariant
                i <= channel_names@.len(),
                pipeline_result(result@, self.channels.map(), crate::graph::strings_view(channel_names@).take(i as int)),
            decreases channel_names@.len() - i,
        {
            let ghost names = crate::graph::strings_view(channel_names@);
            assert(names.take(i + 1).drop_last() =~= names.take(i as int));
            assert(names.take(i + 1).last() == channel_names@[i as int]@);
            let ghost prev = result@;
            let ghost key = channel_names@[i as int]@;
            match self.channels.get(channel_names[i].as_str()) {
                Some(ChannelType::LastValue(ch)) => {
                    match ch.get() {
                        Some(v) => {
                            result = v;
                        },
                        None => {},
                    }
                    assert(pipeline_result(result@, self.channels.map(), names.take(i + 1)));
                },
                Some(ChannelType::Topic(ch)) => {
                    let recent = ch.get_history(1);
                    proof {
                        let hv = history_view(ch.history@);
                        let st: int = if 1 < ch.history@.len() { ch.history@.len() - 1 } else { 0 };
                        assert(history_view(recent@).len() == recent@.len());
                        assert(hv.len() == ch.history@.len());
                        assert(history_view(recent@).len() == hv.skip(st).len());
                    }
                    if recent.len() > 0 {
                        proof {
                            let hv = history_view(ch.history@);
                            let st: int = if 1 < ch.history@.len() { ch.history@.len() - 1 } else { 0 };
                            assert(history_view(recent@) == hv.skip(st));
                            assert(hv.len() == ch.history@.len());
                            assert(ch.history@.len() > 0);
                            assert(st == ch.history@.len() - 1);
                            assert(history_view(recent@)[0] == hv[st]);
                            assert(recent@[0].0@ == ch.history@.last().0@);
                        }
                        result = recent[0].0.deep_clone();
                    }
                    assert(pipeline_result(result@, self.channels.map(), names.take(i + 1)));
                },
                Some(ChannelType::Context(ch)) => {
                    let all = ch.get_all();
                    all.assert_unique();
                    proof {
                        lemma_state_object_map(all);
                    }
                    result = crate::state::state_object(&all);
                    assert(pipeline_result(result@, self.channels.map(), names.take(i + 1)));
                },
                None => {
                    assert(pipeline_result(result@, self.channels.map(), names.take(i + 1)));
                },
            }
            i = i + 1;
        }
        assert(crate::graph::strings_view(channel_names@).take(i as int) =~= crate::graph::strings_view(channel_names@));
        result
    }
}

} // verus!
