//! A small map from strings to values, kept in insertion order.

use vstd::prelude::*;

use crate::text::str_eq;

verus! {

/// One key with its value.
pub struct Entry<V> {
    pub key: String,
    pub value: V,
}

/// A map from strings to values. No key occurs twice.
pub struct StrMap<V> {
    entries: Vec<Entry<V>>,
}

/// Whether the entry at `i` has the key `key`.
pub open spec fn key_at<V>(entries: Seq<Entry<V>>, i: int, key: Seq<char>) -> bool {
    0 <= i < entries.len() && entries[i].key@ == key
}

/// Whether no key occurs twice among `entries`.
pub open spec fn distinct_keys<V>(entries: Seq<Entry<V>>) -> bool {
    forall|i: int, j: int|
        0 <= i < j < entries.len() ==> #[trigger] entries[i].key@ != #[trigger] entries[j].key@
}

/// The map that a list of entries with distinct keys stands for.
pub open spec fn map_of<V>(entries: Seq<Entry<V>>) -> Map<Seq<char>, V> {
    Map::new(
        |key: Seq<char>| exists|i: int| key_at(entries, i, key),
        |key: Seq<char>| entries[choose|i: int| key_at(entries, i, key)].value,
    )
}

/// Where keys are distinct, the map holds each entry's value under its key.
pub proof fn lemma_map_of_entry<V>(entries: Seq<Entry<V>>, i: int)
    requires
        distinct_keys(entries),
        0 <= i < entries.len(),
    ensures
        map_of(entries).contains_key(entries[i].key@),
        map_of(entries)[entries[i].key@] == entries[i].value,
{
    let key = entries[i].key@;
    assert(key_at(entries, i, key));
    let j = choose|j: int| key_at(entries, j, key);
    assert(key_at(entries, j, key));
    if j < i {
        assert(entries[j].key@ != entries[i].key@);
    } else if i < j {
        assert(entries[i].key@ != entries[j].key@);
    }
}

/// Appending an entry under a fresh key inserts it into the map.
pub proof fn lemma_map_of_push<V>(entries: Seq<Entry<V>>, entry: Entry<V>)
    requires
        distinct_keys(entries),
        !map_of(entries).contains_key(entry.key@),
    ensures
        distinct_keys(entries.push(entry)),
        map_of(entries.push(entry)) == map_of(entries).insert(entry.key@, entry.value),
{
    let after = entries.push(entry);
    assert forall|i: int, j: int| 0 <= i < j < after.len() implies #[trigger] after[i].key@
        != #[trigger] after[j].key@ by {
        if j == entries.len() {
            if after[i].key@ == entry.key@ {
                assert(key_at(entries, i, entry.key@));
            }
        } else {
            assert(entries[i].key@ != entries[j].key@);
        }
    }
    assert forall|key: Seq<char>| #[trigger]
        map_of(after).contains_key(key) <==> map_of(entries).insert(
            entry.key@,
            entry.value,
        ).contains_key(key) by {
        if map_of(after).contains_key(key) {
            let i = choose|i: int| key_at(after, i, key);
            if i < entries.len() {
                assert(key_at(entries, i, key));
            }
        }
        if map_of(entries).contains_key(key) {
            let i = choose|i: int| key_at(entries, i, key);
            assert(key_at(after, i, key));
        }
        if key == entry.key@ {
            assert(key_at(after, entries.len() as int, key));
        }
    }
    assert forall|key: Seq<char>| #[trigger] map_of(after).contains_key(key) implies map_of(
        after,
    )[key] == map_of(entries).insert(entry.key@, entry.value)[key] by {
        let i = choose|i: int| key_at(after, i, key);
        lemma_map_of_entry(after, i);
        if i < entries.len() {
            assert(key_at(entries, i, key));
            lemma_map_of_entry(entries, i);
        }
    }
    assert(map_of(after) =~= map_of(entries).insert(entry.key@, entry.value));
}

/// Replacing the value of an entry replaces it in the map.
pub proof fn lemma_map_of_update<V>(entries: Seq<Entry<V>>, i: int, entry: Entry<V>)
    requires
        distinct_keys(entries),
        0 <= i < entries.len(),
        entries[i].key@ == entry.key@,
    ensures
        distinct_keys(entries.update(i, entry)),
        map_of(entries.update(i, entry)) == map_of(entries).insert(entry.key@, entry.value),
{
    let after = entries.update(i, entry);
    assert forall|a: int, b: int| 0 <= a < b < after.len() implies #[trigger] after[a].key@
        != #[trigger] after[b].key@ by {
        assert(entries[a].key@ != entries[b].key@);
    }
    assert forall|key: Seq<char>| #[trigger]
        map_of(after).contains_key(key) <==> map_of(entries).insert(
            entry.key@,
            entry.value,
        ).contains_key(key) by {
        if map_of(after).contains_key(key) {
            let a = choose|a: int| key_at(after, a, key);
            assert(key_at(entries, a, key));
        }
        if map_of(entries).contains_key(key) {
            let a = choose|a: int| key_at(entries, a, key);
            assert(key_at(after, a, key));
        }
        if key == entry.key@ {
            assert(key_at(after, i, key));
        }
    }
    assert forall|key: Seq<char>| #[trigger] map_of(after).contains_key(key) implies map_of(
        after,
    )[key] == map_of(entries).insert(entry.key@, entry.value)[key] by {
        let a = choose|a: int| key_at(after, a, key);
        lemma_map_of_entry(after, a);
        assert(key_at(entries, a, key));
        lemma_map_of_entry(entries, a);
        if a != i && key == entry.key@ {
            if a < i {
                assert(entries[a].key@ != entries[i].key@);
            } else {
                assert(entries[i].key@ != entries[a].key@);
            }
        }
    }
    assert(map_of(after) =~= map_of(entries).insert(entry.key@, entry.value));
}

/// Taking an entry out removes its key from the map.
pub proof fn lemma_map_of_remove<V>(entries: Seq<Entry<V>>, i: int)
    requires
        distinct_keys(entries),
        0 <= i < entries.len(),
    ensures
        distinct_keys(entries.remove(i)),
        map_of(entries.remove(i)) == map_of(entries).remove(entries[i].key@),
{
    let after = entries.remove(i);
    let gone = entries[i].key@;
    assert forall|a: int, b: int| 0 <= a < b < after.len() implies #[trigger] after[a].key@
        != #[trigger] after[b].key@ by {
        let a0 = if a < i { a } else { a + 1 };
        let b0 = if b < i { b } else { b + 1 };
        assert(entries[a0].key@ != entries[b0].key@);
    }
    assert forall|key: Seq<char>| #[trigger]
        map_of(after).contains_key(key) <==> map_of(entries).remove(gone).contains_key(
            key,
        ) by {
        if map_of(after).contains_key(key) {
            let a = choose|a: int| key_at(after, a, key);
            let a0 = if a < i { a } else { a + 1 };
            assert(key_at(entries, a0, key));
            if a0 < i {
                assert(entries[a0].key@ != entries[i].key@);
            } else {
                assert(entries[i].key@ != entries[a0].key@);
            }
        }
        if map_of(entries).remove(gone).contains_key(key) {
            let a0 = choose|a: int| key_at(entries, a, key);
            let a = if a0 < i { a0 } else { a0 - 1 };
            assert(key_at(after, a, key));
        }
    }
    assert forall|key: Seq<char>| #[trigger] map_of(after).contains_key(key) implies map_of(
        after,
    )[key] == map_of(entries).remove(gone)[key] by {
        let a = choose|a: int| key_at(after, a, key);
        lemma_map_of_entry(after, a);
        let a0 = if a < i { a } else { a + 1 };
        assert(key_at(entries, a0, key));
        lemma_map_of_entry(entries, a0);
    }
    assert(map_of(after) =~= map_of(entries).remove(gone));
}

impl<V> StrMap<V> {
    /// The entries, in insertion order.
    pub closed spec fn entries(&self) -> Seq<Entry<V>> {
        self.entries@
    }

    /// Whether no key occurs twice.
    pub open spec fn wf(&self) -> bool {
        distinct_keys(self.entries())
    }

    /// The map this stands for.
    pub open spec fn view(&self) -> Map<Seq<char>, V> {
        map_of(self.entries())
    }

    /// An empty map.
    pub fn new() -> (m: StrMap<V>)
        ensures
            m.wf(),
            m.entries() == Seq::<Entry<V>>::empty(),
            m@ == Map::<Seq<char>, V>::empty(),
    {
        let m = StrMap { entries: Vec::new() };
        assert(m@ =~= Map::<Seq<char>, V>::empty());
        m
    }

    /// The number of entries.
    pub fn len(&self) -> (n: usize)
        ensures
            n == self.entries().len(),
    {
        self.entries.len()
    }

    /// The position of a key, if it is there.
    pub fn position(&self, key: &str) -> (r: Option<usize>)
        ensures
            match r {
                Some(i) => key_at(self.entries(), i as int, key@),
                None => !self@.contains_key(key@),
            },
    {
        let mut i: usize = 0;
        while i < self.entries.len()
            invariant
                i <= self.entries.len(),
                forall|j: int| 0 <= j < i ==> !key_at(self.entries@, j, key@),
            decreases self.entries.len() - i,
        {
            if str_eq(self.entries[i].key.as_str(), key) {
                return Some(i);
            }
            i = i + 1;
        }
        None
    }

    /// Whether a key is there.
    pub fn contains_key(&self, key: &str) -> (r: bool)
        requires
            self.wf(),
        ensures
            r == self@.contains_key(key@),
    {
        match self.position(key) {
            Some(i) => {
                proof {
                    lemma_map_of_entry(self.entries@, i as int);
                }
                true
            },
            None => false,
        }
    }

    /// The value under a key, if there is one.
    pub fn get(&self, key: &str) -> (r: Option<&V>)
        requires
            self.wf(),
        ensures
            match r {
                Some(v) => self@.contains_key(key@) && *v == self@[key@],
                None => !self@.contains_key(key@),
            },
    {
        match self.position(key) {
            Some(i) => {
                proof {
                    lemma_map_of_entry(self.entries@, i as int);
                }
                Some(&self.entries[i].value)
            },
            None => None,
        }
    }

    /// Puts a value under a key, replacing the one that was there.
    pub fn insert(&mut self, key: String, value: V)
        requires
            old(self).wf(),
        ensures
            final(self).wf(),
            final(self)@ == old(self)@.insert(key@, value),
    {
        match self.position(key.as_str()) {
            Some(i) => {
                proof {
                    lemma_map_of_update(self.entries@, i as int, Entry { key, value });
                }
                self.entries.set(i, Entry { key, value });
            },
            None => {
                proof {
                    lemma_map_of_push(self.entries@, Entry { key, value });
                }
                self.entries.push(Entry { key, value });
            },
        }
    }

    /// Takes a key out, if it is there.
    pub fn remove(&mut self, key: &str)
        requires
            old(self).wf(),
        ensures
            final(self).wf(),
            final(self)@ == old(self)@.remove(key@),
    {
        match self.position(key) {
            Some(i) => {
                proof {
                    lemma_map_of_remove(self.entries@, i as int);
                }
                self.entries.remove(i);
            },
            None => {
                assert(self@ =~= self@.remove(key@));
            },
        }
    }
}

} // verus!
