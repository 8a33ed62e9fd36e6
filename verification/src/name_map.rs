//! A map from names to values.

use vstd::prelude::*;

use crate::text::same_text;

verus! {

/// A map from names to values. No name occurs twice.
#[derive(Debug)]
pub struct NameMap<V> {
    entries: Vec<(String, V)>,
}

/// The place of a name among entries.
spec fn place_of<V>(entries: Seq<(String, V)>, name: Seq<char>) -> int {
    choose|at: int| 0 <= at < entries.len() && (#[trigger] entries[at]).0@ == name
}

/// The map that entries with distinct names describe.
spec fn entries_map<V>(entries: Seq<(String, V)>) -> Map<Seq<char>, V> {
    Map::new(
        |name: Seq<char>|
            exists|at: int| 0 <= at < entries.len() && (#[trigger] entries[at]).0@ == name,
        |name: Seq<char>| entries[place_of(entries, name)].1,
    )
}

spec fn names_are_distinct<V>(entries: Seq<(String, V)>) -> bool {
    forall|i: int, j: int|
        0 <= i < j < entries.len() ==> (#[trigger] entries[i]).0@ != (#[trigger] entries[j]).0@
}

impl<V> View for NameMap<V> {
    type V = Map<Seq<char>, V>;

    closed spec fn view(&self) -> Map<Seq<char>, V> {
        entries_map(self.entries@)
    }
}

impl<V> NameMap<V> {
    #[verifier::type_invariant]
    spec fn well_formed(self) -> bool {
        names_are_distinct(self.entries@)
    }

    /// The empty map.
    pub fn new() -> (map: NameMap<V>)
        ensures
            map@ == Map::<Seq<char>, V>::empty(),
    {
        let map = NameMap { entries: Vec::new() };
        assert(map@ =~= Map::<Seq<char>, V>::empty());
        map
    }

    fn position(&self, name: &str) -> (at: Option<usize>)
        ensures
            at matches Some(at) ==> at < self.entries@.len() && self.entries@[at as int].0@ == name@,
            at is None ==> forall|i: int|
                0 <= i < self.entries@.len() ==> (#[trigger] self.entries@[i]).0@ != name@,
    {
        let mut at: usize = 0;
        while at < self.entries.len()
            invariant
                at <= self.entries@.len(),
                forall|i: int| 0 <= i < at ==> (#[trigger] self.entries@[i]).0@ != name@,
            decreases self.entries@.len() - at,
        {
            if same_text(self.entries[at].0.as_str(), name) {
                return Some(at);
            }
            at += 1;
        }
        None
    }

    /// What the map holds under `name`.
    pub fn get(&self, name: &str) -> (value: Option<&V>)
        ensures
            value is Some <==> self@.contains_key(name@),
            value matches Some(value) ==> *value == self@[name@],
    {
        proof {
            use_type_invariant(self);
        }
        match self.position(name) {
            Some(at) => {
                assert(place_of(self.entries@, name@) == at);
                Some(&self.entries[at].1)
            },
            None => None,
        }
    }

    /// Puts `value` under `name`, in place of what was there.
    pub fn insert(&mut self, name: String, value: V)
        ensures
            final(self)@ == old(self)@.insert(name@, value),
    {
        proof {
            use_type_invariant(&*self);
        }
        let found = self.position(name.as_str());
        let mut entries: Vec<(String, V)> = Vec::new();
        std::mem::swap(&mut entries, &mut self.entries);
        let ghost before = entries@;
        match found {
            Some(at) => {
                entries.set(at, (name, value));
                proof {
                    lemma_entries_replaced(before, at as int, name, value);
                }
            },
            None => {
                entries.push((name, value));
                proof {
                    lemma_entries_extended(before, name, value);
                }
            },
        }
        self.entries = entries;
    }

    /// Takes `name` out of the map, where it is there.
    pub fn remove(&mut self, name: &str)
        ensures
            final(self)@ == old(self)@.remove(name@),
    {
        proof {
            use_type_invariant(&*self);
        }
        let found = self.position(name);
        let mut entries: Vec<(String, V)> = Vec::new();
        std::mem::swap(&mut entries, &mut self.entries);
        let ghost before = entries@;
        match found {
            Some(at) => {
                entries.remove(at);
                proof {
                    lemma_entries_reduced(before, at as int);
                }
            },
            None => {
                assert(entries_map(before) =~= entries_map(before).remove(name@));
            },
        }
        self.entries = entries;
    }
}

proof fn lemma_entries_replaced<V>(entries: Seq<(String, V)>, at: int, name: String, value: V)
    requires
        names_are_distinct(entries),
        0 <= at < entries.len(),
        entries[at].0@ == name@,
    ensures
        names_are_distinct(entries.update(at, (name, value))),
        entries_map(entries.update(at, (name, value))) == entries_map(entries).insert(name@, value),
{
    let after = entries.update(at, (name, value));
    assert forall|i: int| 0 <= i < entries.len() implies (#[trigger] after[i]).0@
        == entries[i].0@ by {}
    let map = entries_map(entries);
    assert forall|key: Seq<char>| entries_map(after).contains_key(key) == map.insert(
        name@,
        value,
    ).contains_key(key) by {
        if map.contains_key(key) {
            let i = place_of(entries, key);
            assert(after[i].0@ == key);
        }
        assert(after[at].0@ == name@);
    }
    assert forall|key: Seq<char>| entries_map(after).contains_key(key) implies entries_map(after)[key]
        == map.insert(name@, value)[key] by {
        let i = place_of(after, key);
        assert(after[i].0@ == key);
        assert(entries[i].0@ == key);
        assert(place_of(entries, key) == i);
    }
    assert(entries_map(after) =~= map.insert(name@, value));
}

proof fn lemma_entries_extended<V>(entries: Seq<(String, V)>, name: String, value: V)
    requires
        names_are_distinct(entries),
        forall|i: int| 0 <= i < entries.len() ==> (#[trigger] entries[i]).0@ != name@,
    ensures
        names_are_distinct(entries.push((name, value))),
        entries_map(entries.push((name, value))) == entries_map(entries).insert(name@, value),
{
    let after = entries.push((name, value));
    let map = entries_map(entries);
    let last = entries.len() as int;
    assert(after[last].0@ == name@);
    assert forall|key: Seq<char>| entries_map(after).contains_key(key) == map.insert(
        name@,
        value,
    ).contains_key(key) by {
        if map.contains_key(key) {
            let i = place_of(entries, key);
            assert(after[i].0@ == key);
        }
        if entries_map(after).contains_key(key) {
            let i = place_of(after, key);
            if i < last {
                assert(entries[i].0@ == key);
            }
        }
    }
    assert forall|key: Seq<char>| entries_map(after).contains_key(key) implies entries_map(after)[key]
        == map.insert(name@, value)[key] by {
        let i = place_of(after, key);
        assert(after[i].0@ == key);
        if i < last {
            assert(entries[i].0@ == key);
            assert(place_of(entries, key) == i);
        }
    }
    assert(entries_map(after) =~= map.insert(name@, value));
}

proof fn lemma_entries_reduced<V>(entries: Seq<(String, V)>, at: int)
    requires
        names_are_distinct(entries),
        0 <= at < entries.len(),
    ensures
        names_are_distinct(entries.remove(at)),
        entries_map(entries.remove(at)) == entries_map(entries).remove(entries[at].0@),
{
    let after = entries.remove(at);
    let map = entries_map(entries);
    let name = entries[at].0@;
    assert forall|i: int| 0 <= i < after.len() implies (#[trigger] after[i]) == entries[if i < at {
        i
    } else {
        i + 1
    }] by {}
    assert forall|key: Seq<char>| entries_map(after).contains_key(key) == map.remove(
        name,
    ).contains_key(key) by {
        if map.remove(name).contains_key(key) {
            let i = place_of(entries, key);
            assert(entries[i].0@ == key);
            let j = if i < at {
                i
            } else {
                i - 1
            };
            assert(after[j].0@ == key);
        }
        if entries_map(after).contains_key(key) {
            let i = place_of(after, key);
            assert(after[i].0@ == key);
        }
    }
    assert forall|key: Seq<char>| entries_map(after).contains_key(key) implies entries_map(after)[key]
        == map.remove(name)[key] by {
        let i = place_of(after, key);
        assert(after[i].0@ == key);
        let j = if i < at {
            i
        } else {
            i + 1
        };
        assert(entries[j].0@ == key);
        assert(place_of(entries, key) == j);
    }
    assert(entries_map(after) =~= map.remove(name));
}

} // verus!
