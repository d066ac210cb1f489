//! The mapping that a replay builds: texts by their keys.

use crate::grammar::Store;
use crate::text::same_text;
use vstd::pervasive::VecAdditionalExecFns;
use vstd::prelude::*;

verus! {

/// The keys of `entries`, in their order.
pub open spec fn key_seq(entries: Seq<(String, String)>) -> Seq<Seq<char>> {
    Seq::new(entries.len(), |i: int| entries[i].0@)
}

/// The mapping that `entries` stand for: each key with the value beside it.
pub open spec fn store_of(entries: Seq<(String, String)>) -> Store {
    Map::new(
        |key: Seq<char>| key_seq(entries).contains(key),
        |key: Seq<char>| entries[key_seq(entries).index_of(key)].1@,
    )
}

/// Whether `entries` list `store`: every binding of it once, and nothing else.
pub open spec fn lists(entries: Seq<(String, String)>, store: Store) -> bool {
    &&& key_seq(entries).no_duplicates()
    &&& store_of(entries) == store
}

proof fn lemma_store_at(entries: Seq<(String, String)>, i: int)
    requires
        key_seq(entries).no_duplicates(),
        0 <= i < entries.len(),
    ensures
        store_of(entries).contains_key(entries[i].0@),
        store_of(entries)[entries[i].0@] == entries[i].1@,
{
    let keys = key_seq(entries);
    assert(keys[i] == entries[i].0@);
    keys.index_of_first_ensures(keys[i]);
}

proof fn lemma_store_push(entries: Seq<(String, String)>, entry: (String, String))
    requires
        key_seq(entries).no_duplicates(),
        !key_seq(entries).contains(entry.0@),
    ensures
        key_seq(entries.push(entry)).no_duplicates(),
        store_of(entries.push(entry)) == store_of(entries).insert(entry.0@, entry.1@),
{
    let grown = entries.push(entry);
    let keys = key_seq(entries);
    assert(key_seq(grown) =~= keys.push(entry.0@));
    assert forall|key: Seq<char>| #[trigger]
        store_of(grown).contains_key(key) == store_of(entries).insert(
            entry.0@,
            entry.1@,
        ).contains_key(key) by {
        if keys.contains(key) {
            let i = keys.index_of(key);
            assert(key_seq(grown)[i] == key);
        }
        if key == entry.0@ {
            assert(key_seq(grown)[entries.len() as int] == key);
        }
    }
    assert forall|key: Seq<char>| #[trigger] store_of(grown).contains_key(key) implies store_of(
        grown,
    )[key] == store_of(entries).insert(entry.0@, entry.1@)[key] by {
        let i = key_seq(grown).index_of(key);
        lemma_store_at(grown, i);
        if i < entries.len() {
            lemma_store_at(entries, i);
        }
    }
    assert(store_of(grown) =~= store_of(entries).insert(entry.0@, entry.1@));
}

proof fn lemma_store_update(entries: Seq<(String, String)>, i: int, entry: (String, String))
    requires
        key_seq(entries).no_duplicates(),
        0 <= i < entries.len(),
        entries[i].0@ == entry.0@,
    ensures
        key_seq(entries.update(i, entry)) == key_seq(entries),
        store_of(entries.update(i, entry)) == store_of(entries).insert(entry.0@, entry.1@),
{
    let changed = entries.update(i, entry);
    assert(key_seq(changed) =~= key_seq(entries));
    assert(key_seq(entries)[i] == entry.0@);
    assert forall|key: Seq<char>| #[trigger] store_of(changed).contains_key(key) implies store_of(
        changed,
    )[key] == store_of(entries).insert(entry.0@, entry.1@)[key] by {
        let j = key_seq(changed).index_of(key);
        lemma_store_at(changed, j);
        lemma_store_at(entries, j);
    }
    assert(store_of(changed) =~= store_of(entries).insert(entry.0@, entry.1@));
}

proof fn lemma_store_remove(entries: Seq<(String, String)>, i: int)
    requires
        key_seq(entries).no_duplicates(),
        0 <= i < entries.len(),
    ensures
        key_seq(entries.remove(i)).no_duplicates(),
        store_of(entries.remove(i)) == store_of(entries).remove(entries[i].0@),
{
    let shrunk = entries.remove(i);
    let keys = key_seq(entries);
    assert(key_seq(shrunk) =~= keys.remove(i));
    assert(keys[i] == entries[i].0@);
    assert forall|key: Seq<char>| #[trigger]
        store_of(shrunk).contains_key(key) == store_of(entries).remove(entries[i].0@).contains_key(
            key,
        ) by {
        if key_seq(shrunk).contains(key) {
            let j = key_seq(shrunk).index_of(key);
            if j < i {
                assert(keys[j] == key);
            } else {
                assert(keys[j + 1] == key);
            }
        }
        if keys.contains(key) && key != entries[i].0@ {
            let j = keys.index_of(key);
            if j < i {
                assert(key_seq(shrunk)[j] == key);
            } else {
                assert(key_seq(shrunk)[j - 1] == key);
            }
        }
    }
    assert forall|key: Seq<char>| #[trigger] store_of(shrunk).contains_key(key) implies store_of(
        shrunk,
    )[key] == store_of(entries).remove(entries[i].0@)[key] by {
        let j = key_seq(shrunk).index_of(key);
        lemma_store_at(shrunk, j);
        if j < i {
            lemma_store_at(entries, j);
        } else {
            lemma_store_at(entries, j + 1);
        }
    }
    assert(store_of(shrunk) =~= store_of(entries).remove(entries[i].0@));
}

proof fn lemma_store_len(entries: Seq<(String, String)>)
    requires
        key_seq(entries).no_duplicates(),
    ensures
        store_of(entries).dom().finite(),
        store_of(entries).dom().len() == entries.len(),
{
    let keys = key_seq(entries);
    assert(store_of(entries).dom() =~= keys.to_set());
    keys.unique_seq_to_set();
    vstd::seq_lib::seq_to_set_is_finite(keys);
}

/// A mapping from keys to values, both texts; a key is bound at most once.
///
/// The bindings are kept in a list, and a lookup compares the key with one
/// entry after the other.
pub struct Mapping {
    entries: Vec<(String, String)>,
}

impl View for Mapping {
    type V = Store;

    closed spec fn view(&self) -> Store {
        store_of(self.entries@)
    }
}

impl Mapping {
    #[verifier::type_invariant]
    spec fn keys_are_distinct(self) -> bool {
        key_seq(self.entries@).no_duplicates()
    }

    /// The empty mapping.
    pub fn new() -> (mapping: Self)
        ensures
            mapping@ == Store::empty(),
    {
        let mapping = Mapping { entries: Vec::new() };
        assert(mapping@ =~= Store::empty());
        mapping
    }

    /// Moves the entries out and leaves the mapping empty, so that they can
    /// change while no mapping holds them.
    fn take_entries(&mut self) -> (entries: Vec<(String, String)>)
        ensures
            entries == old(self).entries,
            final(self).entries@.len() == 0,
    {
        let mut entries: Vec<(String, String)> = Vec::new();
        core::mem::swap(&mut self.entries, &mut entries);
        entries
    }

    /// Where `key` stands among the entries, if it is bound.
    fn position(&self, key: &str) -> (found: Option<usize>)
        ensures
            match found {
                Some(i) => i < self.entries.len() && self.entries[i as int].0@ == key@,
                None => !key_seq(self.entries@).contains(key@),
            },
    {
        let mut i: usize = 0;
        while i < self.entries.len()
            invariant
                i <= self.entries.len(),
                forall|j: int| 0 <= j < i ==> self.entries[j].0@ != key@,
            decreases self.entries.len() - i,
        {
            if same_text(self.entries[i].0.as_str(), key) {
                return Some(i);
            }
            i = i + 1;
        }
        None
    }

    /// The number of keys that are bound.
    pub fn len(&self) -> (n: usize)
        ensures
            self@.dom().finite(),
            n == self@.len(),
    {
        proof {
            use_type_invariant(self);
            lemma_store_len(self.entries@);
        }
        self.entries.len()
    }

    /// Whether `key` is bound.
    pub fn contains_key(&self, key: &str) -> (bound: bool)
        ensures
            bound == self@.contains_key(key@),
    {
        match self.position(key) {
            Some(i) => {
                proof {
                    use_type_invariant(self);
                    lemma_store_at(self.entries@, i as int);
                }
                true
            },
            None => false,
        }
    }

    /// The value that `key` is bound to, if it is bound.
    pub fn get(&self, key: &str) -> (value: Option<&String>)
        ensures
            match value {
                Some(text) => self@.contains_key(key@) && text@ == self@[key@],
                None => !self@.contains_key(key@),
            },
    {
        match self.position(key) {
            Some(i) => {
                proof {
                    use_type_invariant(self);
                    lemma_store_at(self.entries@, i as int);
                }
                Some(&self.entries[i].1)
            },
            None => None,
        }
    }

    /// Binds `key` to `value` and returns the value it was bound to before,
    /// if there was one.
    pub fn insert(&mut self, key: String, value: String) -> (previous: Option<String>)
        ensures
            final(self)@ == old(self)@.insert(key@, value@),
            match previous {
                Some(text) => old(self)@.contains_key(key@) && text@ == old(self)@[key@],
                None => !old(self)@.contains_key(key@),
            },
    {
        proof {
            use_type_invariant(&*self);
        }
        match self.position(key.as_str()) {
            Some(i) => {
                let mut entry = (key, value);
                proof {
                    lemma_store_at(self.entries@, i as int);
                    lemma_store_update(self.entries@, i as int, entry);
                }
                let mut entries = self.take_entries();
                entries.set_and_swap(i, &mut entry);
                self.entries = entries;
                Some(entry.1)
            },
            None => {
                proof {
                    lemma_store_push(self.entries@, (key, value));
                }
                let mut entries = self.take_entries();
                entries.push((key, value));
                self.entries = entries;
                None
            },
        }
    }

    /// Drops the binding of `key` and returns the value it was bound to, if
    /// it was bound; otherwise nothing changes.
    pub fn remove(&mut self, key: &str) -> (previous: Option<String>)
        ensures
            final(self)@ == old(self)@.remove(key@),
            match previous {
                Some(text) => old(self)@.contains_key(key@) && text@ == old(self)@[key@],
                None => !old(self)@.contains_key(key@),
            },
    {
        proof {
            use_type_invariant(&*self);
        }
        match self.position(key) {
            Some(i) => {
                proof {
                    lemma_store_at(self.entries@, i as int);
                    lemma_store_remove(self.entries@, i as int);
                }
                let mut entries = self.take_entries();
                let entry = entries.remove(i);
                self.entries = entries;
                Some(entry.1)
            },
            None => {
                assert(old(self)@.remove(key@) =~= old(self)@);
                None
            },
        }
    }

    /// The bindings: each key that is bound, once, with its value.
    pub fn entries(&self) -> (entries: &Vec<(String, String)>)
        ensures
            lists(entries@, self@),
    {
        proof {
            use_type_invariant(self);
        }
        &self.entries
    }
}

} // verus!
