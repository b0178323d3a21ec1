//! Collectors gather the items of a stream into one value.
use vstd::prelude::*;
use std::collections::HashMap;
use std::collections::hash_map::RandomState;
use vstd::std_specs::hash::{obeys_key_model, builds_valid_hashers};
use crate::graph::GraphError;
use crate::text::{concat_str, decimal_string, dec_string};

verus! {

broadcast use vstd::std_specs::hash::group_hash_axioms;

/// Gathers items one at a time, then hands over what it gathered.
pub trait StreamCollector: Sized {
    type Item;
    type Output;

    /// Whether the collector can take `item` now.
    spec fn can_collect(&self, item: Self::Item) -> bool;

    /// Takes one item.
    fn collect_item(&mut self, item: Self::Item) -> (r: Result<(), GraphError>)
        requires
            old(self).can_collect(item),
    ;

    /// What was gathered.
    fn finalize(self) -> Result<Self::Output, GraphError>;
}

/// The message of a collector that is full.
pub open spec fn full_message(max: usize) -> Seq<char> {
    "Collector reached max size of "@ + dec_string(max as nat)
}

/// Gathers items into a vector, up to an optional limit.
pub struct VecCollector<T> {
    items: Vec<T>,
    max_size: Option<usize>,
}

impl<T> VecCollector<T> {
    /// The items gathered so far.
    pub closed spec fn items(&self) -> Seq<T> {
        self.items@
    }

    /// The limit, if any.
    pub closed spec fn max_size(&self) -> Option<usize> {
        self.max_size
    }

    /// A collector without a limit.
    pub fn new() -> (c: VecCollector<T>)
        ensures
            c.items().len() == 0,
            c.max_size() is None,
    {
        VecCollector { items: Vec::new(), max_size: None }
    }

    /// A collector that holds at most `max_size` items.
    pub fn with_max_size(max_size: usize) -> (c: VecCollector<T>)
        ensures
            c.items().len() == 0,
            c.max_size() == Some(max_size),
    {
        VecCollector { items: Vec::new(), max_size: Some(max_size) }
    }
}

impl<T> StreamCollector for VecCollector<T> {
    type Item = T;
    type Output = Vec<T>;

    open spec fn can_collect(&self, item: T) -> bool {
        true
    }

    /// Appends the item, or fails when the limit is reached.
    fn collect_item(&mut self, item: T) -> (r: Result<(), GraphError>)
        ensures
            final(self).max_size() == old(self).max_size(),
            match old(self).max_size() {
                Some(m) if old(self).items().len() >= m => {
                    &&& r matches Err(GraphError::ValidationError(msg)) && msg@ == full_message(m)
                    &&& final(self).items() == old(self).items()
                },
                _ => r is Ok && final(self).items() == old(self).items().push(item),
            },
    {
        if let Some(max) = self.max_size {
            if self.items.len() >= max {
                let msg = concat_str("Collector reached max size of ", decimal_string(max as u64).as_str());
                return Err(GraphError::ValidationError(msg));
            }
        }
        self.items.push(item);
        Ok(())
    }

    /// The items, in the order they came.
    fn finalize(self) -> (r: Result<Vec<T>, GraphError>)
        ensures
            r matches Ok(v) && v@ == self.items(),
    {
        Ok(self.items)
    }
}

/// Gathers key-value pairs into a map; a later value for a key replaces
/// the earlier one.
pub struct HashMapCollector<K, V> {
    map: HashMap<K, V>,
}

impl<K, V> HashMapCollector<K, V> {
    /// The map gathered so far.
    pub closed spec fn map(&self) -> Map<K, V> {
        self.map@
    }

    /// An empty collector.
    pub fn new() -> (c: HashMapCollector<K, V>)
        ensures
            c.map() == Map::<K, V>::empty(),
    {
        HashMapCollector { map: HashMap::new() }
    }
}

impl<K: Eq + std::hash::Hash, V> StreamCollector for HashMapCollector<K, V> {
    type Item = (K, V);
    type Output = HashMap<K, V>;

    open spec fn can_collect(&self, item: (K, V)) -> bool {
        true
    }

    /// Stores the pair.
    fn collect_item(&mut self, item: (K, V)) -> (r: Result<(), GraphError>)
        ensures
            r is Ok,
            obeys_key_model::<K>() && builds_valid_hashers::<RandomState>() ==> final(self).map()
                == old(self).map().insert(item.0, item.1),
    {
        let (key, value) = item;
        self.map.insert(key, value);
        Ok(())
    }

    /// The map.
    fn finalize(self) -> (r: Result<HashMap<K, V>, GraphError>)
        ensures
            r matches Ok(m) && m@ == self.map(),
    {
        Ok(self.map)
    }
}

/// Folds the items with an aggregating function.
pub struct AggregateCollector<T, A> {
    aggregator: A,
    accumulator: Option<T>,
}

impl<T, A> AggregateCollector<T, A> {
    /// The aggregating function.
    pub closed spec fn aggregator(&self) -> A {
        self.aggregator
    }

    /// The value so far; none before the first item.
    pub closed spec fn accumulator(&self) -> Option<T> {
        self.accumulator
    }

    /// A collector that has seen no item.
    pub fn new(aggregator: A) -> (c: AggregateCollector<T, A>)
        ensures
            c.aggregator() == aggregator,
            c.accumulator() is None,
    {
        AggregateCollector { aggregator, accumulator: None }
    }
}

impl<T, A: Fn(Option<T>, T) -> T> StreamCollector for AggregateCollector<T, A> {
    type Item = T;
    type Output = Option<T>;

    open spec fn can_collect(&self, item: T) -> bool {
        call_requires(self.aggregator(), (self.accumulator(), item))
    }

    /// Combines the value so far with the item.
    fn collect_item(&mut self, item: T) -> (r: Result<(), GraphError>)
        ensures
            r is Ok,
            final(self).aggregator() == old(self).aggregator(),
            final(self).accumulator() matches Some(a) && call_ensures(
                old(self).aggregator(),
                (old(self).accumulator(), item),
                a,
            ),
    {
        let prev = self.accumulator.take();
        let next = (self.aggregator)(prev, item);
        self.accumulator = Some(next);
        Ok(())
    }

    /// The value so far.
    fn finalize(self) -> (r: Result<Option<T>, GraphError>)
        ensures
            r == Ok::<Option<T>, GraphError>(self.accumulator()),
    {
        Ok(self.accumulator)
    }
}

/// Groups values by key, each group in arrival order.
pub struct GroupByCollector<K, V> {
    groups: HashMap<K, Vec<V>>,
}

impl<K, V> GroupByCollector<K, V> {
    /// The groups gathered so far.
    pub closed spec fn groups(&self) -> Map<K, Vec<V>> {
        self.groups@
    }

    /// A collector with no groups.
    pub fn new() -> (c: GroupByCollector<K, V>)
        ensures
            c.groups() == Map::<K, Vec<V>>::empty(),
    {
        GroupByCollector { groups: HashMap::new() }
    }
}

/// The group of `k` in `m`: empty when there is none.
pub open spec fn group_of<K, V>(m: Map<K, Vec<V>>, k: K) -> Seq<V> {
    if m.contains_key(k) {
        m[k]@
    } else {
        Seq::empty()
    }
}

impl<K: Eq + std::hash::Hash, V> StreamCollector for GroupByCollector<K, V> {
    type Item = (K, V);
    type Output = HashMap<K, Vec<V>>;

    open spec fn can_collect(&self, item: (K, V)) -> bool {
        true
    }

    /// Appends the value to its key's group.
    fn collect_item(&mut self, item: (K, V)) -> (r: Result<(), GraphError>)
        ensures
            r is Ok,
            obeys_key_model::<K>() && builds_valid_hashers::<RandomState>() ==> {
                &&& final(self).groups().dom() == old(self).groups().dom().insert(item.0)
                &&& final(self).groups()[item.0]@ == group_of(old(self).groups(), item.0).push(item.1)
                &&& forall|k: K|
                    k != item.0 && #[trigger] old(self).groups().contains_key(k) ==> final(self).groups()[k] == old(self).groups()[k]
            },
    {
        let (key, value) = item;
        let group = self.groups.remove(&key);
        let mut g = match group {
            Some(v) => v,
            None => Vec::new(),
        };
        g.push(value);
        self.groups.insert(key, g);
        Ok(())
    }

    /// The groups.
    fn finalize(self) -> (r: Result<HashMap<K, Vec<V>>, GraphError>)
        ensures
            r matches Ok(m) && m@ == self.groups(),
    {
        Ok(self.groups)
    }
}

} // verus!
