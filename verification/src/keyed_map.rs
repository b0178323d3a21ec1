//! An insertion-ordered map from string keys to values.
//!
//! Lookups, insertions and removals behave as on a mathematical map; the
//! order in which keys were first inserted is kept, so that walking the map
//! is deterministic.  No key ever occurs twice.
use vstd::prelude::*;

verus! {

/// The entries of a map as a sequence of (key, value) pairs, in insertion order.
pub open spec fn keys_unique<T>(s: Seq<(Seq<char>, T)>) -> bool {
    forall|i: int, j: int| 0 <= i < s.len() && 0 <= j < s.len() && i != j ==> s[i].0 != s[j].0
}

/// Whether some entry of `s` has key `k`.
pub open spec fn has_key<T>(s: Seq<(Seq<char>, T)>, k: Seq<char>) -> bool {
    exists|i: int| 0 <= i < s.len() && s[i].0 == k
}

/// The position of key `k` in `s` (meaningful when `has_key(s, k)`).
pub open spec fn key_index<T>(s: Seq<(Seq<char>, T)>, k: Seq<char>) -> int {
    choose|i: int| 0 <= i < s.len() && s[i].0 == k
}

/// The mathematical map that a sequence of entries with unique keys denotes.
pub open spec fn entries_map<T>(s: Seq<(Seq<char>, T)>) -> Map<Seq<char>, T> {
    Map::new(|k: Seq<char>| has_key(s, k), |k: Seq<char>| s[key_index(s, k)].1)
}

/// The keys of a sequence of entries, in order.
pub open spec fn entry_keys<T>(s: Seq<(Seq<char>, T)>) -> Seq<Seq<char>> {
    Seq::new(s.len(), |i: int| s[i].0)
}

/// Looking a key up in a sequence with unique keys gives the value at its position.
pub proof fn lemma_entries_map_at<T>(s: Seq<(Seq<char>, T)>, i: int)
    requires
        keys_unique(s),
        0 <= i < s.len(),
    ensures
        entries_map(s).contains_key(s[i].0),
        entries_map(s)[s[i].0] == s[i].1,
{
    assert(has_key(s, s[i].0));
    let j = key_index(s, s[i].0);
    assert(s[j].0 == s[i].0);
}

/// Appending an entry with a fresh key inserts it into the denoted map.
pub proof fn lemma_entries_map_push<T>(s: Seq<(Seq<char>, T)>, k: Seq<char>, v: T)
    requires
        keys_unique(s),
        !has_key(s, k),
    ensures
        keys_unique(s.push((k, v))),
        entries_map(s.push((k, v))) =~= entries_map(s).insert(k, v),
{
    let t = s.push((k, v));
    assert forall|i: int, j: int| 0 <= i < t.len() && 0 <= j < t.len() && i != j implies t[i].0
        != t[j].0 by {
        if i < s.len() && j < s.len() {
            assert(t[i] == s[i] && t[j] == s[j]);
        } else if i < s.len() {
            assert(t[i] == s[i]);
        } else {
            assert(t[j] == s[j]);
        }
    }
    assert forall|key: Seq<char>| #[trigger] entries_map(t).contains_key(key) <==> entries_map(
        s,
    ).insert(k, v).contains_key(key) by {
        if has_key(s, key) {
            let i = key_index(s, key);
            assert(t[i] == s[i]);
        }
        if key == k {
            assert(t[s.len() as int].0 == k);
        }
        if has_key(t, key) && key != k {
            let i = key_index(t, key);
            if i == s.len() {
            } else {
                assert(t[i] == s[i]);
            }
        }
    }
    assert forall|key: Seq<char>| #[trigger] entries_map(t).contains_key(key) implies entries_map(
        t,
    )[key] == entries_map(s).insert(k, v)[key] by {
        if key == k {
            lemma_entries_map_at(t, s.len() as int);
        } else {
            let i = key_index(s, key);
            assert(t[i] == s[i]);
            lemma_entries_map_at(t, i);
            lemma_entries_map_at(s, i);
        }
    }
}

/// Replacing the value at a position updates the denoted map at that key.
pub proof fn lemma_entries_map_update<T>(s: Seq<(Seq<char>, T)>, i: int, v: T)
    requires
        keys_unique(s),
        0 <= i < s.len(),
    ensures
        keys_unique(s.update(i, (s[i].0, v))),
        entries_map(s.update(i, (s[i].0, v))) =~= entries_map(s).insert(s[i].0, v),
        entry_keys(s.update(i, (s[i].0, v))) =~= entry_keys(s),
{
    let t = s.update(i, (s[i].0, v));
    assert forall|a: int, b: int| 0 <= a < t.len() && 0 <= b < t.len() && a != b implies t[a].0
        != t[b].0 by {
        assert(t[a].0 == s[a].0 && t[b].0 == s[b].0);
    }
    assert forall|key: Seq<char>| #[trigger] entries_map(t).contains_key(key) <==> entries_map(
        s,
    ).insert(s[i].0, v).contains_key(key) by {
        if has_key(s, key) {
            let j = key_index(s, key);
            assert(t[j].0 == s[j].0);
        }
        if has_key(t, key) {
            let j = key_index(t, key);
            assert(t[j].0 == s[j].0);
        }
        assert(t[i].0 == s[i].0);
    }
    assert forall|key: Seq<char>| #[trigger] entries_map(t).contains_key(key) implies entries_map(
        t,
    )[key] == entries_map(s).insert(s[i].0, v)[key] by {
        let j = key_index(t, key);
        lemma_entries_map_at(t, j);
        if j != i {
            assert(t[j] == s[j]);
            lemma_entries_map_at(s, j);
        }
    }
}

/// Removing the entry at a position removes its key from the denoted map.
pub proof fn lemma_entries_map_remove<T>(s: Seq<(Seq<char>, T)>, i: int)
    requires
        keys_unique(s),
        0 <= i < s.len(),
    ensures
        keys_unique(s.remove(i)),
        entries_map(s.remove(i)) =~= entries_map(s).remove(s[i].0),
{
    let t = s.remove(i);
    assert forall|a: int, b: int| 0 <= a < t.len() && 0 <= b < t.len() && a != b implies t[a].0
        != t[b].0 by {
        let a2 = if a < i { a } else { a + 1 };
        let b2 = if b < i { b } else { b + 1 };
        assert(t[a] == s[a2] && t[b] == s[b2]);
    }
    assert forall|key: Seq<char>| #[trigger] entries_map(t).contains_key(key) <==> entries_map(
        s,
    ).remove(s[i].0).contains_key(key) by {
        if has_key(t, key) {
            let j = key_index(t, key);
            let j2 = if j < i { j } else { j + 1 };
            assert(t[j] == s[j2]);
        }
        if has_key(s, key) && key != s[i].0 {
            let j = key_index(s, key);
            if j < i {
                assert(t[j] == s[j]);
            } else {
                assert(j != i);
                assert(t[j - 1] == s[j]);
            }
        }
    }
    assert forall|key: Seq<char>| #[trigger] entries_map(t).contains_key(key) implies entries_map(
        t,
    )[key] == entries_map(s).remove(s[i].0)[key] by {
        let j = key_index(t, key);
        let j2 = if j < i { j } else { j + 1 };
        assert(t[j] == s[j2]);
        lemma_entries_map_at(t, j);
        lemma_entries_map_at(s, j2);
    }
}

/// The entries of a vector of pairs, keys taken by their character sequences.
pub open spec fn view_entries<T>(v: Seq<(String, T)>) -> Seq<(Seq<char>, T)> {
    Seq::new(v.len(), |i: int| (v[i].0@, v[i].1))
}

/// An insertion-ordered map from `String` keys to values of type `T`.
#[derive(Debug, PartialEq)]
pub struct StrMap<T> {
    entries: Vec<(String, T)>,
}

impl<T> StrMap<T> {
    /// The entries, keys taken by their character sequences, in insertion order.
    pub closed spec fn spec_entries(&self) -> Seq<(Seq<char>, T)> {
        view_entries(self.entries@)
    }

    #[verifier::type_invariant]
    closed spec fn inv(&self) -> bool {
        keys_unique(self.spec_entries())
    }

    /// The map that this value denotes.
    pub open spec fn map(&self) -> Map<Seq<char>, T> {
        entries_map(self.spec_entries())
    }

    /// The keys, in insertion order.
    pub open spec fn key_seq(&self) -> Seq<Seq<char>> {
        entry_keys(self.spec_entries())
    }

    /// Every map holds each key at most once.
    pub fn assert_unique(&self)
        ensures
            keys_unique(self.spec_entries()),
    {
        proof {
            use_type_invariant(self);
        }
    }

    /// An empty map.
    pub fn new() -> (m: Self)
        ensures
            m.spec_entries() == Seq::<(Seq<char>, T)>::empty(),
            m.map() == Map::<Seq<char>, T>::empty(),
    {
        let m = StrMap { entries: Vec::new() };
        assert(m.spec_entries() =~= Seq::<(Seq<char>, T)>::empty());
        assert(m.map() =~= Map::<Seq<char>, T>::empty());
        m
    }

    /// Number of entries.
    pub fn len(&self) -> (n: usize)
        ensures
            n == self.spec_entries().len(),
    {
        self.entries.len()
    }

    /// Whether the map has no entries.
    pub fn is_empty(&self) -> (b: bool)
        ensures
            b == (self.spec_entries().len() == 0),
    {
        self.entries.len() == 0
    }

    /// The key of the entry at position `i`.
    pub fn key_at(&self, i: usize) -> (k: &String)
        requires
            i < self.spec_entries().len(),
        ensures
            k@ == self.spec_entries()[i as int].0,
    {
        &self.entries[i].0
    }

    /// The value of the entry at position `i`.
    pub fn value_at(&self, i: usize) -> (v: &T)
        requires
            i < self.spec_entries().len(),
        ensures
            *v == self.spec_entries()[i as int].1,
    {
        &self.entries[i].1
    }

    /// The position of `key`, if present.
    pub fn find(&self, key: &str) -> (r: Option<usize>)
        ensures
            match r {
                Some(i) => i < self.spec_entries().len() && self.spec_entries()[i as int].0 == key@,
                None => !has_key(self.spec_entries(), key@),
            },
    {
        let k = key.to_owned();
        let mut i: usize = 0;
        while i < self.entries.len()
            invariant
                i <= self.entries@.len(),
                k@ == key@,
                forall|j: int| 0 <= j < i ==> self.spec_entries()[j].0 != key@,
            decreases self.entries@.len() - i,
        {
            if self.entries[i].0 == k {
                return Some(i);
            }
            i = i + 1;
        }
        None
    }

    /// Whether `key` is present.
    pub fn contains_key(&self, key: &str) -> (b: bool)
        ensures
            b == self.map().contains_key(key@),
    {
        self.find(key).is_some()
    }

    /// The value stored under `key`, if any.
    pub fn get(&self, key: &str) -> (r: Option<&T>)
        ensures
            match r {
                Some(v) => self.map().contains_key(key@) && *v == self.map()[key@],
                None => !self.map().contains_key(key@),
            },
    {
        proof {
            use_type_invariant(self);
        }
        match self.find(key) {
            Some(i) => {
                proof {
                    lemma_entries_map_at(self.spec_entries(), i as int);
                }
                Some(&self.entries[i].1)
            },
            None => None,
        }
    }

    /// Stores `value` under `key`: a present key keeps its position, a new key goes last.
    pub fn insert(&mut self, key: String, value: T)
        ensures
            final(self).map() == old(self).map().insert(key@, value),
            old(self).map().contains_key(key@) ==> final(self).key_seq() == old(self).key_seq(),
            !old(self).map().contains_key(key@) ==> final(self).key_seq() == old(self).key_seq().push(
                key@,
            ),
    {
        proof {
            use_type_invariant(&*self);
        }
        let ghost old_entries = self.spec_entries();
        let pos = self.find(key.as_str());
        let mut entries: Vec<(String, T)> = Vec::new();
        std::mem::swap(&mut entries, &mut self.entries);
        match pos {
            Some(i) => {
                let ghost k0 = old_entries[i as int].0;
                entries.set(i, (key, value));
                proof {
                    lemma_entries_map_update(old_entries, i as int, value);
                }
                assert(view_entries(entries@) =~= old_entries.update(i as int, (k0, value)));
                self.entries = entries;
            },
            None => {
                let ghost k = key@;
                entries.push((key, value));
                proof {
                    lemma_entries_map_push(old_entries, k, value);
                }
                assert(view_entries(entries@) =~= old_entries.push((k, value)));
                self.entries = entries;
                assert(entry_keys(old_entries.push((k, value))) =~= entry_keys(old_entries).push(k));
            },
        }
    }

    /// Removes `key`; the other entries keep their order.
    pub fn remove(&mut self, key: &str) -> (r: Option<T>)
        ensures
            final(self).map() == old(self).map().remove(key@),
            final(self).spec_entries().len() == old(self).spec_entries().len() - (if old(
                self,
            ).map().contains_key(key@) {
                1int
            } else {
                0int
            }),
            match r {
                Some(v) => old(self).map().contains_key(key@) && v == old(self).map()[key@],
                None => !old(self).map().contains_key(key@),
            },
    {
        proof {
            use_type_invariant(&*self);
        }
        let ghost old_entries = self.spec_entries();
        match self.find(key) {
            Some(i) => {
                let mut entries: Vec<(String, T)> = Vec::new();
                std::mem::swap(&mut entries, &mut self.entries);
                let (_k, v) = entries.remove(i);
                proof {
                    lemma_entries_map_remove(old_entries, i as int);
                    lemma_entries_map_at(old_entries, i as int);
                }
                assert(view_entries(entries@) =~= old_entries.remove(i as int));
                self.entries = entries;
                Some(v)
            },
            None => {
                assert(old(self).map().remove(key@) =~= old(self).map());
                None
            },
        }
    }
}

} // verus!
