//! A bounded cache of judge answers, keyed by the cache key of a contract and its state.
//!
//! It holds at most its capacity; when full, storing a new key first drops the oldest
//! entry. A capacity of zero keeps nothing.

use vstd::prelude::*;

use crate::text::{chars_eq, chars_of};

verus! {

/// Answers by key, oldest first.
#[derive(Debug)]
pub struct AnswerCache<V> {
    capacity: usize,
    entries: Vec<(String, V)>,
}

/// The keys of `es` are all different.
pub open spec fn keys_distinct<V>(es: Seq<(Seq<char>, V)>) -> bool {
    forall|i: int, j: int| 0 <= i < j < es.len() ==> (#[trigger] es[i]).0 != (#[trigger] es[j]).0
}

/// The position of `key` in `es`, if it is there.
pub open spec fn key_index<V>(es: Seq<(Seq<char>, V)>, key: Seq<char>) -> Option<int> {
    if exists|i: int| 0 <= i < es.len() && (#[trigger] es[i]).0 == key {
        Some(choose|i: int| 0 <= i < es.len() && (#[trigger] es[i]).0 == key)
    } else {
        None
    }
}

/// The answer stored under `key`.
pub open spec fn lookup<V>(es: Seq<(Seq<char>, V)>, key: Seq<char>) -> Option<V> {
    match key_index(es, key) {
        Some(i) => Some(es[i].1),
        None => None,
    }
}

/// Storing `value` under `key` with room for `capacity` entries: when the cache is full
/// and the key is new, the oldest entry goes; the key's answer is then replaced, or added
/// as the newest entry.
pub open spec fn spec_put<V>(es: Seq<(Seq<char>, V)>, key: Seq<char>, value: V, capacity: usize) -> Seq<(Seq<char>, V)> {
    if capacity == 0 {
        es
    } else {
        let room = if es.len() >= capacity && key_index(es, key) is None { es.drop_first() } else { es };
        match key_index(room, key) {
            Some(i) => room.update(i, (key, value)),
            None => room.push((key, value)),
        }
    }
}

pub open spec fn view_of<V>(v: Seq<(String, V)>) -> Seq<(Seq<char>, V)> {
    v.map_values(|e: (String, V)| (e.0@, e.1))
}

fn index_of<V>(entries: &Vec<(String, V)>, key: &str) -> (res: Option<usize>)
    ensures
        match res {
            Some(i) => i < entries@.len() && view_of(entries@)[i as int].0 == key@,
            None => key_index(view_of(entries@), key@) is None,
        },
{
    let kc = chars_of(key);
    let mut i: usize = 0;
    while i < entries.len()
        invariant
            i <= entries@.len(),
            kc@ == key@,
            forall|j: int| 0 <= j < i ==> (#[trigger] view_of(entries@)[j]).0 != key@,
        decreases entries.len() - i,
    {
        let ec = chars_of(entries[i].0.as_str());
        if chars_eq(&ec, &kc) {
            return Some(i);
        }
        i = i + 1;
    }
    None
}

impl<V> AnswerCache<V> {
    pub closed spec fn entries_view(&self) -> Seq<(Seq<char>, V)> {
        view_of(self.entries@)
    }

    pub closed spec fn capacity_spec(&self) -> usize {
        self.capacity
    }

    #[verifier::type_invariant]
    spec fn well_formed(&self) -> bool {
        &&& self.entries@.len() <= self.capacity
        &&& keys_distinct(self.entries_view())
    }

    /// An empty cache that holds at most `capacity` answers.
    pub fn new(capacity: usize) -> (res: AnswerCache<V>)
        ensures
            res.capacity_spec() == capacity,
            res.entries_view() == Seq::<(Seq<char>, V)>::empty(),
    {
        let res = AnswerCache { capacity, entries: Vec::new() };
        proof {
            assert(res.entries_view() =~= Seq::<(Seq<char>, V)>::empty());
        }
        res
    }

    /// How many answers the cache may hold.
    pub fn capacity(&self) -> (res: usize)
        ensures
            res == self.capacity_spec(),
    {
        self.capacity
    }

    /// How many answers the cache holds.
    pub fn len(&self) -> (res: usize)
        ensures
            res == self.entries_view().len(),
            res <= self.capacity_spec(),
            keys_distinct(self.entries_view()),
    {
        proof {
            use_type_invariant(self);
        }
        self.entries.len()
    }

    /// The answer stored under `key`.
    pub fn get(&self, key: &str) -> (res: Option<&V>)
        ensures
            (res is Some) == (lookup(self.entries_view(), key@) is Some),
            res matches Some(v) ==> lookup(self.entries_view(), key@) == Some(*v),
    {
        proof {
            use_type_invariant(self);
        }
        match index_of(&self.entries, key) {
            Some(i) => {
                proof {
                    lemma_key_index_unique(self.entries_view(), key@, i as int);
                }
                Some(&self.entries[i].1)
            },
            None => None,
        }
    }

    /// Stores `value` under `key`, dropping the oldest answer when the cache is full and
    /// the key is new. A cache of capacity zero stays empty.
    pub fn put(&mut self, key: String, value: V)
        ensures
            final(self).capacity_spec() == old(self).capacity_spec(),
            final(self).entries_view() == spec_put(old(self).entries_view(), key@, value, old(self).capacity_spec()),
    {
        proof {
            use_type_invariant(&*self);
        }
        if self.capacity == 0 {
            return;
        }
        let ghost es = self.entries_view();
        let mut entries: Vec<(String, V)> = Vec::new();
        std::mem::swap(&mut entries, &mut self.entries);
        assert(view_of(entries@) == es);
        let found = index_of(&entries, key.as_str());
        if entries.len() >= self.capacity && found.is_none() {
            let _oldest = entries.remove(0);
            proof {
                assert(view_of(entries@) =~= es.drop_first());
                assert forall|j: int| 0 <= j < view_of(entries@).len() implies (#[trigger] view_of(entries@)[j]).0 != key@ by {
                    assert(view_of(entries@)[j] == es[j + 1]);
                }
                assert(key_index(view_of(entries@), key@) is None);
            }
            let ghost room = view_of(entries@);
            entries.push((key, value));
            proof {
                assert(view_of(entries@) =~= room.push((key@, value)));
                assert forall|i: int, j: int| 0 <= i < j < view_of(entries@).len() implies
                    (#[trigger] view_of(entries@)[i]).0 != (#[trigger] view_of(entries@)[j]).0 by {
                    if j == room.len() {
                        assert(view_of(entries@)[i] == room[i]);
                    } else {
                        assert(view_of(entries@)[i] == es[i + 1] && view_of(entries@)[j] == es[j + 1]);
                    }
                }
            }
            self.entries = entries;
            return;
        }
        match found {
            Some(i) => {
                proof {
                    lemma_key_index_unique(es, key@, i as int);
                }
                entries.set(i, (key, value));
                proof {
                    assert(view_of(entries@) =~= es.update(i as int, (key@, value)));
                    assert forall|a: int, b: int| 0 <= a < b < view_of(entries@).len() implies
                        (#[trigger] view_of(entries@)[a]).0 != (#[trigger] view_of(entries@)[b]).0 by {
                        assert(view_of(entries@)[a].0 == es[a].0 && view_of(entries@)[b].0 == es[b].0);
                    }
                }
            },
            None => {
                entries.push((key, value));
                proof {
                    assert(view_of(entries@) =~= es.push((key@, value)));
                    assert forall|a: int, b: int| 0 <= a < b < view_of(entries@).len() implies
                        (#[trigger] view_of(entries@)[a]).0 != (#[trigger] view_of(entries@)[b]).0 by {
                        if b == es.len() {
                            assert(view_of(entries@)[a] == es[a]);
                            assert(es[a].0 != key@);
                        } else {
                            assert(view_of(entries@)[a] == es[a] && view_of(entries@)[b] == es[b]);
                        }
                    }
                }
            },
        }
        self.entries = entries;
    }
}

proof fn lemma_key_index_unique<V>(es: Seq<(Seq<char>, V)>, key: Seq<char>, i: int)
    requires
        keys_distinct(es),
        0 <= i < es.len(),
        es[i].0 == key,
    ensures
        key_index(es, key) == Some(i),
{
    let c = choose|k: int| 0 <= k < es.len() && (#[trigger] es[k]).0 == key;
    if c < i {
        assert(es[c].0 != es[i].0);
    } else if c > i {
        assert(es[i].0 != es[c].0);
    }
}

/// What a stored answer promises: in a cache that holds anything, the answer just stored
/// under a key is the one found under it.
pub proof fn lemma_put_then_get<V>(es: Seq<(Seq<char>, V)>, key: Seq<char>, value: V, capacity: usize)
    requires
        capacity > 0,
        keys_distinct(es),
    ensures
        lookup(spec_put(es, key, value, capacity), key) == Some(value),
{
    let room = if es.len() >= capacity && key_index(es, key) is None { es.drop_first() } else { es };
    assert(keys_distinct(room)) by {
        if room != es {
            assert forall|i: int, j: int| 0 <= i < j < room.len() implies (#[trigger] room[i]).0 != (#[trigger] room[j]).0 by {
                assert(room[i] == es[i + 1] && room[j] == es[j + 1]);
            }
        }
    }
    let r = spec_put(es, key, value, capacity);
    match key_index(room, key) {
        Some(i) => {
            assert(r == room.update(i, (key, value)));
            assert(r[i].0 == key);
            assert forall|a: int, b: int| 0 <= a < b < r.len() implies (#[trigger] r[a]).0 != (#[trigger] r[b]).0 by {
                assert(r[a].0 == room[a].0 && r[b].0 == room[b].0);
            }
            lemma_key_index_unique(r, key, i);
        },
        None => {
            assert(r == room.push((key, value)));
            assert forall|a: int, b: int| 0 <= a < b < r.len() implies (#[trigger] r[a]).0 != (#[trigger] r[b]).0 by {
                if b == room.len() {
                    assert(r[a] == room[a]);
                    assert(room[a].0 != key);
                } else {
                    assert(r[a] == room[a] && r[b] == room[b]);
                }
            }
            lemma_key_index_unique(r, key, room.len() as int);
        },
    }
}

/// The cache never holds more than its capacity: storing into a cache within its capacity
/// leaves it within its capacity.
pub proof fn lemma_put_within_capacity<V>(es: Seq<(Seq<char>, V)>, key: Seq<char>, value: V, capacity: usize)
    requires
        es.len() <= capacity,
    ensures
        spec_put(es, key, value, capacity).len() <= capacity,
{
}

} // verus!
