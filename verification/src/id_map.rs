//! Maps from thread ids that remember the order in which ids came in.

use vstd::prelude::*;

use crate::thread::ThreadId;

verus! {

/// What `pairs` gives for `key`: its last pair with that key counts.
pub open spec fn lookup<K, V>(pairs: Seq<(K, V)>, key: K) -> Option<V>
    decreases pairs.len(),
{
    if pairs.len() == 0 {
        None
    } else if pairs.last().0 == key {
        Some(pairs.last().1)
    } else {
        lookup(pairs.drop_last(), key)
    }
}

/// The keys of `pairs`.
pub open spec fn keys_of<K, V>(pairs: Seq<(K, V)>) -> Seq<K> {
    pairs.map_values(|pair: (K, V)| pair.0)
}

/// A pair that gives a value for a key holds both.
pub proof fn lemma_lookup<K, V>(pairs: Seq<(K, V)>, key: K)
    ensures
        lookup(pairs, key) is Some == keys_of(pairs).contains(key),
        lookup(pairs, key) is Some ==> pairs.contains((key, lookup(pairs, key)->0)),
    decreases pairs.len(),
{
    if pairs.len() > 0 {
        let rest = pairs.drop_last();
        lemma_lookup(rest, key);
        assert(keys_of(pairs).drop_last() =~= keys_of(rest));
        if pairs.last().0 == key {
            assert(keys_of(pairs)[pairs.len() - 1] == key);
            assert(pairs[pairs.len() - 1] == (key, pairs.last().1));
        } else {
            if keys_of(rest).contains(key) {
                let i = keys_of(rest).index_of(key);
                assert(keys_of(pairs)[i] == key);
                let j = rest.index_of((key, lookup(rest, key)->0));
                assert(pairs[j] == rest[j]);
            }
            if keys_of(pairs).contains(key) {
                let i = keys_of(pairs).index_of(key);
                assert(i < pairs.len() - 1);
                assert(keys_of(rest)[i] == key);
            }
        }
    }
}

/// What a pair at a known place gives where keys are distinct.
pub proof fn lemma_lookup_at<K, V>(pairs: Seq<(K, V)>, at: int)
    requires
        keys_of(pairs).no_duplicates(),
        0 <= at < pairs.len(),
    ensures
        lookup(pairs, pairs[at].0) == Some(pairs[at].1),
    decreases pairs.len(),
{
    let rest = pairs.drop_last();
    if at < pairs.len() - 1 {
        assert(keys_of(pairs)[at] != keys_of(pairs)[pairs.len() - 1]);
        assert(keys_of(rest) =~= keys_of(pairs).drop_last());
        assert(rest[at] == pairs[at]);
        lemma_lookup_at(rest, at);
    }
}

/// Replacing the value of one pair changes what its key gives, and nothing else.
pub proof fn lemma_lookup_update<K, V>(pairs: Seq<(K, V)>, at: int, value: V, key: K)
    requires
        keys_of(pairs).no_duplicates(),
        0 <= at < pairs.len(),
    ensures
        keys_of(pairs.update(at, (pairs[at].0, value))) == keys_of(pairs),
        lookup(pairs.update(at, (pairs[at].0, value)), key) == if key == pairs[at].0 {
            Some(value)
        } else {
            lookup(pairs, key)
        },
    decreases pairs.len(),
{
    let changed = pairs.update(at, (pairs[at].0, value));
    assert(keys_of(changed) =~= keys_of(pairs));
    let rest = pairs.drop_last();
    if at == pairs.len() - 1 {
        assert(changed.drop_last() =~= rest);
    } else {
        assert(keys_of(rest) =~= keys_of(pairs).drop_last());
        assert(changed.drop_last() =~= rest.update(at, (rest[at].0, value)));
        assert(rest[at] == pairs[at]);
        lemma_lookup_update(rest, at, value, key);
        assert(keys_of(pairs)[at] != keys_of(pairs)[pairs.len() - 1]);
    }
}

/// Removing one pair takes its key away, and nothing else.
proof fn lemma_lookup_remove<K, V>(pairs: Seq<(K, V)>, at: int, key: K)
    requires
        keys_of(pairs).no_duplicates(),
        0 <= at < pairs.len(),
    ensures
        keys_of(pairs.remove(at)) == keys_of(pairs).remove(at),
        keys_of(pairs.remove(at)).no_duplicates(),
        lookup(pairs.remove(at), key) == if key == pairs[at].0 {
            None
        } else {
            lookup(pairs, key)
        },
    decreases pairs.len(),
{
    let less = pairs.remove(at);
    assert(keys_of(less) =~= keys_of(pairs).remove(at));
    let rest = pairs.drop_last();
    if at == pairs.len() - 1 {
        assert(less =~= rest);
        lemma_lookup(rest, key);
        if key == pairs[at].0 && keys_of(rest).contains(key) {
            let i = keys_of(rest).index_of(key);
            assert(keys_of(pairs)[i] == keys_of(pairs)[at]);
        }
    } else {
        assert(keys_of(rest) =~= keys_of(pairs).drop_last());
        assert(less.drop_last() =~= rest.remove(at));
        assert(less.last() == pairs.last());
        assert(rest[at] == pairs[at]);
        lemma_lookup_remove(rest, at, key);
        assert(keys_of(pairs)[at] != keys_of(pairs)[pairs.len() - 1]);
    }
}

/// Values by thread id.
#[derive(Debug, PartialEq, Eq)]
pub struct IdMap<V> {
    pub entries: Vec<(ThreadId, V)>,
}

impl<V> IdMap<V> {
    /// Whether no id occurs twice.
    pub open spec fn wf(&self) -> bool {
        self.keys().no_duplicates()
    }

    /// The ids, in the order in which they came in.
    pub open spec fn keys(&self) -> Seq<ThreadId> {
        keys_of(self.entries@)
    }

    /// The value of `id`.
    pub open spec fn value(&self, id: ThreadId) -> Option<V> {
        lookup(self.entries@, id)
    }

    pub fn new() -> (map: Self)
        ensures
            map.wf(),
            map.keys().len() == 0,
            forall|id: ThreadId| #[trigger] map.value(id) is None,
    {
        IdMap { entries: Vec::new() }
    }

    /// Where the entry of `id` stands.
    fn position(&self, id: ThreadId) -> (at: Option<usize>)
        ensures
            match at {
                Some(at) => at < self.entries@.len() && self.entries@[at as int].0 == id,
                None => !self.keys().contains(id),
            },
    {
        let mut i: usize = 0;
        while i < self.entries.len()
            invariant
                i <= self.entries@.len(),
                forall|k: int| 0 <= k < i ==> self.keys()[k] != id,
            decreases self.entries@.len() - i,
        {
            if self.entries[i].0 == id {
                return Some(i);
            }
            i += 1;
        }
        None
    }

    /// The value of `id`.
    pub fn get(&self, id: ThreadId) -> (value: Option<&V>)
        requires
            self.wf(),
        ensures
            match value {
                Some(value) => self.value(id) == Some(*value),
                None => self.value(id) is None,
            },
    {
        match self.position(id) {
            Some(at) => {
                proof {
                    lemma_lookup_at(self.entries@, at as int);
                }
                Some(&self.entries[at].1)
            },
            None => {
                proof {
                    lemma_lookup(self.entries@, id);
                }
                None
            },
        }
    }

    /// Whether `id` has a value.
    pub fn contains(&self, id: ThreadId) -> (known: bool)
        ensures
            known == self.keys().contains(id),
            known == (self.value(id) is Some),
    {
        proof {
            lemma_lookup(self.entries@, id);
        }
        match self.position(id) {
            Some(at) => {
                proof {
                    assert(self.keys()[at as int] == id);
                }
                true
            },
            None => false,
        }
    }

    /// Gives `id` the value `value`. A new id comes last.
    pub fn insert(&mut self, id: ThreadId, value: V)
        requires
            old(self).wf(),
        ensures
            final(self).wf(),
            final(self).keys() == if old(self).keys().contains(id) {
                old(self).keys()
            } else {
                old(self).keys().push(id)
            },
            forall|other: ThreadId| #[trigger]
                final(self).value(other) == if other == id {
                    Some(value)
                } else {
                    old(self).value(other)
                },
    {
        let ghost before = self.entries@;
        match self.position(id) {
            Some(at) => {
                self.entries.set(at, (id, value));
                proof {
                    assert(keys_of(before)[at as int] == id);
                    assert(self.entries@ == before.update(at as int, (before[at as int].0, value)));
                    assert forall|other: ThreadId| #[trigger] self.value(other) == if other == id {
                        Some(value)
                    } else {
                        lookup(before, other)
                    } by {
                        lemma_lookup_update(before, at as int, value, other);
                    }
                    lemma_lookup_update(before, at as int, value, id);
                }
            },
            None => {
                self.entries.push((id, value));
                proof {
                    assert(keys_of(self.entries@) =~= keys_of(before).push(id));
                    assert(self.entries@.drop_last() =~= before);
                }
            },
        }
    }

    /// Takes `id` and its value away; the other ids keep their order.
    pub fn remove(&mut self, id: ThreadId)
        requires
            old(self).wf(),
        ensures
            final(self).wf(),
            final(self).keys() == if old(self).keys().contains(id) {
                old(self).keys().remove(old(self).keys().index_of(id))
            } else {
                old(self).keys()
            },
            forall|other: ThreadId| #[trigger]
                final(self).value(other) == if other == id {
                    None
                } else {
                    old(self).value(other)
                },
    {
        let ghost before = self.entries@;
        match self.position(id) {
            Some(at) => {
                let _ = self.entries.remove(at);
                proof {
                    assert(keys_of(before)[at as int] == id);
                    assert(keys_of(before).index_of(id) == at);
                    assert forall|other: ThreadId| #[trigger] self.value(other) == if other == id {
                        None
                    } else {
                        lookup(before, other)
                    } by {
                        lemma_lookup_remove(before, at as int, other);
                    }
                    lemma_lookup_remove(before, at as int, id);
                }
            },
            None => {
                proof {
                    lemma_lookup(before, id);
                }
            },
        }
    }

    /// The ids, in the order in which they came in.
    pub fn ids(&self) -> (ids: Vec<ThreadId>)
        ensures
            ids@ == self.keys(),
    {
        let mut ids: Vec<ThreadId> = Vec::new();
        let mut i: usize = 0;
        while i < self.entries.len()
            invariant
                i <= self.entries@.len(),
                ids@ == self.keys().take(i as int),
            decreases self.entries@.len() - i,
        {
            ids.push(self.entries[i].0);
            i += 1;
            proof {
                assert(self.keys().take(i as int) =~= self.keys().take(i - 1).push(
                    self.keys()[i - 1],
                ));
            }
        }
        proof {
            assert(self.keys().take(i as int) =~= self.keys());
        }
        ids
    }
}

} // verus!
