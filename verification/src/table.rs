//! A map that keeps its entries in the order in which their keys first came.

use vstd::prelude::*;

verus! {

/// What can be looked up in a [`Table`].
pub trait Key: View + Sized {
    /// Whether the two keys are the same.
    fn same(&self, other: &Self) -> (result: bool)
        ensures
            result == (self@ == other@),
    ;
}

impl Key for String {
    fn same(&self, other: &String) -> (result: bool) {
        *self == *other
    }
}

/// Whether no key has two entries.
spec fn keys_differ<K: Key, V>(entries: Seq<(K, V)>) -> bool {
    forall|i: int, j: int|
        0 <= i < j < entries.len() ==> (#[trigger] entries[i]).0@ != (#[trigger] entries[j]).0@
}

/// Whether the entry at the given place is the one of the key.
spec fn is_entry<K: Key, V>(entries: Seq<(K, V)>, i: int, key: K::V) -> bool {
    0 <= i < entries.len() && entries[i].0@ == key
}

/// The map that the entries make up.
spec fn entries_map<K: Key, V>(entries: Seq<(K, V)>) -> Map<K::V, V> {
    Map::new(
        |k: K::V| exists|i: int| is_entry(entries, i, k),
        |k: K::V| entries[choose|i: int| is_entry(entries, i, k)].1,
    )
}

proof fn lemma_entry<K: Key, V>(entries: Seq<(K, V)>, i: int)
    requires
        keys_differ(entries),
        0 <= i < entries.len(),
    ensures
        entries_map(entries).contains_key(entries[i].0@),
        entries_map(entries)[entries[i].0@] == entries[i].1,
{
    let k = entries[i].0@;
    assert(is_entry(entries, i, k));
    let j = choose|j: int| is_entry(entries, j, k);
    assert(i == j) by {
        if i < j {
            assert(entries[i].0@ != entries[j].0@);
        } else if j < i {
            assert(entries[j].0@ != entries[i].0@);
        }
    }
}

proof fn lemma_set<K: Key, V>(entries: Seq<(K, V)>, i: int, value: V)
    requires
        keys_differ(entries),
        0 <= i < entries.len(),
    ensures
        keys_differ(entries.update(i, (entries[i].0, value))),
        entries_map(entries.update(i, (entries[i].0, value))) == entries_map(entries).insert(
            entries[i].0@,
            value,
        ),
{
    let after = entries.update(i, (entries[i].0, value));
    let expected = entries_map(entries).insert(entries[i].0@, value);
    assert(keys_differ(after)) by {
        assert forall|a: int, b: int| 0 <= a < b < after.len() implies (#[trigger] after[a]).0@ != (
        #[trigger] after[b]).0@ by {
            assert(entries[a].0@ != entries[b].0@);
        }
    }
    lemma_entry(entries, i);
    lemma_entry(after, i);
    assert forall|k: K::V| #![auto] entries_map(after).contains_key(k) == expected.contains_key(k) by {
        if entries_map(after).contains_key(k) {
            let j = choose|j: int| is_entry(after, j, k);
            assert(is_entry(entries, j, k));
        }
        if entries_map(entries).contains_key(k) {
            let j = choose|j: int| is_entry(entries, j, k);
            assert(is_entry(after, j, k));
        }
    }
    assert forall|k: K::V| #![auto] expected.contains_key(k) implies entries_map(after)[k]
        == expected[k] by {
        if k != entries[i].0@ {
            let j = choose|j: int| is_entry(entries, j, k);
            lemma_entry(entries, j);
            lemma_entry(after, j);
        }
    }
    assert(entries_map(after) =~= expected);
}

proof fn lemma_add<K: Key, V>(entries: Seq<(K, V)>, key: K, value: V)
    requires
        keys_differ(entries),
        !entries_map(entries).contains_key(key@),
    ensures
        keys_differ(entries.push((key, value))),
        entries_map(entries.push((key, value))) == entries_map(entries).insert(key@, value),
{
    let after = entries.push((key, value));
    let expected = entries_map(entries).insert(key@, value);
    let n = entries.len() as int;
    assert(keys_differ(after)) by {
        assert forall|a: int, b: int| 0 <= a < b < after.len() implies (#[trigger] after[a]).0@ != (
        #[trigger] after[b]).0@ by {
            assert(is_entry(entries, a, entries[a].0@));
            if b < n {
                assert(entries[a].0@ != entries[b].0@);
            }
        }
    }
    assert forall|k: K::V| #![auto] entries_map(after).contains_key(k) == expected.contains_key(k) by {
        if entries_map(after).contains_key(k) {
            let j = choose|j: int| is_entry(after, j, k);
            if j < n {
                assert(is_entry(entries, j, k));
            }
        }
        if entries_map(entries).contains_key(k) {
            let j = choose|j: int| is_entry(entries, j, k);
            assert(is_entry(after, j, k));
        }
        assert(is_entry(after, n, key@));
    }
    assert forall|k: K::V| #![auto] expected.contains_key(k) implies entries_map(after)[k]
        == expected[k] by {
        if k != key@ {
            let j = choose|j: int| is_entry(entries, j, k);
            lemma_entry(entries, j);
            lemma_entry(after, j);
        } else {
            lemma_entry(after, n);
        }
    }
    assert(entries_map(after) =~= expected);
}

/// Going one key further, the first keys of a list gain that key, which was not among them
/// where no key stands twice.
pub proof fn lemma_first_keys<A>(keys: Seq<A>, i: int)
    requires
        0 <= i < keys.len(),
    ensures
        forall|k: A| #[trigger]
            keys.take(i + 1).contains(k) <==> keys.take(i).contains(k) || k == keys[i],
        keys.no_duplicates() ==> !keys.take(i).contains(keys[i]),
{
    let first = keys.take(i);
    let more = keys.take(i + 1);
    assert(more =~= first.push(keys[i]));
    assert(more[i] == keys[i]);
    assert forall|k: A| first.contains(k) implies #[trigger] more.contains(k) by {
        let j = choose|j: int| 0 <= j < first.len() && first[j] == k;
        assert(more[j] == k);
    }
    if first.contains(keys[i]) {
        let j = choose|j: int| 0 <= j < first.len() && first[j] == keys[i];
        assert(keys[j] == keys[i]);
    }
}

/// A map from keys to values.
#[derive(Debug)]
pub struct Table<K: Key, V> {
    entries: Vec<(K, V)>,
}

impl<K: Key, V> View for Table<K, V> {
    type V = Map<K::V, V>;

    closed spec fn view(&self) -> Map<K::V, V> {
        entries_map(self.entries@)
    }
}

impl<K: Key, V> Table<K, V> {
    /// No key has two entries.
    #[verifier::type_invariant]
    spec fn each_key_once(self) -> bool {
        keys_differ(self.entries@)
    }

    /// The keys, in the order of the entries.
    pub closed spec fn keys(self) -> Seq<K::V> {
        Seq::new(self.entries@.len(), |i: int| self.entries[i].0@)
    }

    /// The map without entries.
    pub fn new() -> (result: Table<K, V>)
        ensures
            result@ == Map::<K::V, V>::empty(),
            result.keys() == Seq::<K::V>::empty(),
    {
        let result = Table { entries: Vec::new() };
        assert(result@ =~= Map::<K::V, V>::empty());
        assert(result.keys() =~= Seq::<K::V>::empty());
        result
    }

    /// How many keys there are. Each stands once in the list of the keys.
    pub fn len(&self) -> (result: usize)
        ensures
            result == self@.dom().len(),
            result == self.keys().len(),
            self@.dom().finite(),
            self.keys().no_duplicates(),
            self.keys().to_set() == self@.dom(),
    {
        proof {
            use_type_invariant(self);
            let keys = self.keys();
            keys.unique_seq_to_set();
            assert forall|k: K::V| #![auto] keys.to_set().contains(k) == self@.dom().contains(k) by {
                if keys.contains(k) {
                    let i = choose|i: int| 0 <= i < keys.len() && keys[i] == k;
                    assert(is_entry(self.entries@, i, k));
                }
                if self@.dom().contains(k) {
                    let i = choose|i: int| is_entry(self.entries@, i, k);
                    assert(keys[i] == k);
                }
            }
            assert(keys.to_set() =~= self@.dom());
        }
        self.entries.len()
    }

    /// The entry at the given place in the list of the keys.
    pub fn entry(&self, i: usize) -> (result: (&K, &V))
        requires
            i < self.keys().len(),
        ensures
            result.0@ == self.keys()[i as int],
            self@.contains_key(result.0@),
            *result.1 == self@[result.0@],
    {
        proof {
            use_type_invariant(self);
            lemma_entry(self.entries@, i as int);
        }
        (&self.entries[i].0, &self.entries[i].1)
    }

    /// Where the key stands in the list of the keys.
    fn position(&self, key: &K) -> (result: Option<usize>)
        ensures
            match result {
                Some(i) => is_entry(self.entries@, i as int, key@),
                None => !self@.contains_key(key@),
            },
    {
        let mut i: usize = 0;
        while i < self.entries.len()
            invariant
                i <= self.entries.len(),
                forall|j: int| 0 <= j < i ==> !is_entry(self.entries@, j, key@),
            decreases self.entries.len() - i,
        {
            if self.entries[i].0.same(key) {
                return Some(i);
            }
            i += 1;
        }
        None
    }

    /// The value for the key.
    pub fn get(&self, key: &K) -> (result: Option<&V>)
        ensures
            match result {
                Some(v) => self@.contains_key(key@) && *v == self@[key@],
                None => !self@.contains_key(key@),
            },
    {
        match self.position(key) {
            Some(i) => {
                proof {
                    use_type_invariant(self);
                    lemma_entry(self.entries@, i as int);
                }
                Some(&self.entries[i].1)
            },
            None => None,
        }
    }

    /// Sets the value for the key, and hands back the one that it had.
    pub fn insert(&mut self, key: K, value: V) -> (result: Option<V>)
        ensures
            final(self)@ == old(self)@.insert(key@, value),
            match result {
                Some(v) => old(self)@.contains_key(key@) && v == old(self)@[key@],
                None => !old(self)@.contains_key(key@),
            },
            final(self).keys() == if old(self)@.contains_key(key@) {
                old(self).keys()
            } else {
                old(self).keys().push(key@)
            },
    {
        proof {
            use_type_invariant(&*self);
        }
        let position = self.position(&key);
        let ghost before = self.entries@;
        let mut entries: Vec<(K, V)> = Vec::new();
        std::mem::swap(&mut entries, &mut self.entries);
        match position {
            Some(i) => {
                let (old_key, old_value) = entries.remove(i);
                entries.insert(i, (old_key, value));
                proof {
                    lemma_entry(before, i as int);
                    lemma_set(before, i as int, value);
                    assert(entries@ =~= before.update(i as int, (old_key, value)));
                }
                self.entries = entries;
                assert(self.keys() =~= old(self).keys());
                Some(old_value)
            },
            None => {
                proof {
                    lemma_add(before, key, value);
                }
                entries.push((key, value));
                self.entries = entries;
                assert(self.keys() =~= old(self).keys().push(key@));
                None
            },
        }
    }
}

impl Clone for Table<String, u64> {
    fn clone(&self) -> (result: Table<String, u64>)
        ensures
            result@ == self@,
            result.keys() == self.keys(),
    {
        let mut entries: Vec<(String, u64)> = Vec::new();
        let mut i: usize = 0;
        while i < self.entries.len()
            invariant
                i <= self.entries.len(),
                entries@ == self.entries@.take(i as int),
            decreases self.entries.len() - i,
        {
            entries.push((self.entries[i].0.clone(), self.entries[i].1));
            assert(entries@ =~= self.entries@.take(i + 1));
            i += 1;
        }
        proof {
            use_type_invariant(self);
            assert(entries@ =~= self.entries@);
        }
        Table { entries }
    }
}

} // verus!
