//! Maps from names to values that remember the order of insertion.

use vstd::prelude::*;

use crate::text::same;

verus! {

/// A map from names to values, as the list of its entries in the order in which
/// they came. Of two entries with one key the later counts.
#[derive(Debug)]
pub struct NameMap<V> {
    pub entries: Vec<(String, V)>,
}

/// The map that a list of entries stands for.
pub open spec fn map_of<V>(entries: Seq<(String, V)>) -> Map<Seq<char>, V>
    decreases entries.len(),
{
    if entries.len() == 0 {
        Map::empty()
    } else {
        map_of(entries.drop_last()).insert(entries.last().0@, entries.last().1)
    }
}

impl<V> View for NameMap<V> {
    type V = Map<Seq<char>, V>;

    open spec fn view(&self) -> Map<Seq<char>, V> {
        map_of(self.entries@)
    }
}

/// The value of a key is that of its last entry.
pub proof fn map_of_present<V>(entries: Seq<(String, V)>, at: int, key: Seq<char>)
    requires
        0 <= at < entries.len(),
        entries[at].0@ == key,
        forall|j: int| at < j < entries.len() ==> (#[trigger] entries[j]).0@ != key,
    ensures
        map_of(entries).contains_key(key),
        map_of(entries)[key] == entries[at].1,
    decreases entries.len(),
{
    let n = entries.len() - 1;
    if at < n {
        let rest = entries.drop_last();
        assert(entries[n].0@ != key);
        assert forall|j: int| at < j < rest.len() implies (#[trigger] rest[j]).0@ != key by {
            assert(rest[j] == entries[j]);
        }
        assert(rest[at] == entries[at]);
        map_of_present(rest, at, key);
    }
}

/// A key without an entry has no value.
pub proof fn map_of_absent<V>(entries: Seq<(String, V)>, key: Seq<char>)
    requires
        forall|j: int| 0 <= j < entries.len() ==> (#[trigger] entries[j]).0@ != key,
    ensures
        !map_of(entries).contains_key(key),
    decreases entries.len(),
{
    if entries.len() > 0 {
        let rest = entries.drop_last();
        assert forall|j: int| 0 <= j < rest.len() implies (#[trigger] rest[j]).0@ != key by {
            assert(rest[j] == entries[j]);
        }
        map_of_absent(rest, key);
        assert(entries[entries.len() - 1].0@ != key);
    }
}

/// Changing the last entry of a key changes the value of that key alone.
pub proof fn map_of_update<V>(entries: Seq<(String, V)>, at: int, entry: (String, V))
    requires
        0 <= at < entries.len(),
        entries[at].0@ == entry.0@,
        forall|j: int| at < j < entries.len() ==> (#[trigger] entries[j]).0@ != entry.0@,
    ensures
        map_of(entries.update(at, entry)) == map_of(entries).insert(entry.0@, entry.1),
    decreases entries.len(),
{
    let n = entries.len() - 1;
    let rest = entries.drop_last();
    let changed = entries.update(at, entry);
    if at == n {
        assert(changed.drop_last() =~= rest);
        assert(map_of(changed) =~= map_of(entries).insert(entry.0@, entry.1));
    } else {
        assert forall|j: int| at < j < rest.len() implies (#[trigger] rest[j]).0@ != entry.0@ by {
            assert(rest[j] == entries[j]);
        }
        assert(rest[at] == entries[at]);
        map_of_update(rest, at, entry);
        assert(changed.drop_last() =~= rest.update(at, entry));
        assert(entries[n].0@ != entry.0@);
        assert(map_of(changed) =~= map_of(entries).insert(entry.0@, entry.1));
    }
}

/// Leaving out an entry changes the value of its key alone.
pub proof fn map_of_without<V>(entries: Seq<(String, V)>, at: int, key: Seq<char>)
    requires
        0 <= at < entries.len(),
        entries[at].0@ != key,
    ensures
        map_of(entries.remove(at)).contains_key(key) == map_of(entries).contains_key(key),
        map_of(entries).contains_key(key) ==> map_of(entries.remove(at))[key] == map_of(
            entries,
        )[key],
    decreases entries.len(),
{
    let n = entries.len() - 1;
    let rest = entries.drop_last();
    if at == n {
        assert(entries.remove(at) =~= rest);
    } else {
        assert(rest[at] == entries[at]);
        map_of_without(rest, at, key);
        assert(entries.remove(at).drop_last() =~= rest.remove(at));
        assert(entries.remove(at).last() == entries.last());
    }
}

impl<V> NameMap<V> {
    pub fn new() -> (r: Self)
        ensures
            r@ == Map::<Seq<char>, V>::empty(),
            r.entries@.len() == 0,
    {
        NameMap { entries: Vec::new() }
    }

    /// The index of the last entry of a key.
    fn find(&self, key: &str) -> (r: Option<usize>)
        ensures
            match r {
                Some(i) => i < self.entries@.len() && self.entries@[i as int].0@ == key@ && forall|
                    j: int,
                | i < j < self.entries@.len() ==> (#[trigger] self.entries@[j]).0@ != key@,
                None => forall|j: int|
                    0 <= j < self.entries@.len() ==> (#[trigger] self.entries@[j]).0@ != key@,
            },
    {
        let mut i: usize = self.entries.len();
        while i > 0
            invariant
                i <= self.entries@.len(),
                forall|j: int|
                    i <= j < self.entries@.len() ==> (#[trigger] self.entries@[j]).0@ != key@,
            decreases i,
        {
            i = i - 1;
            if same(self.entries[i].0.as_str(), key) {
                return Some(i);
            }
        }
        None
    }

    pub fn get(&self, key: &str) -> (r: Option<&V>)
        ensures
            match r {
                Some(v) => self@.contains_key(key@) && *v == self@[key@],
                None => !self@.contains_key(key@),
            },
    {
        match self.find(key) {
            Some(i) => {
                proof {
                    map_of_present(self.entries@, i as int, key@);
                }
                Some(&self.entries[i].1)
            },
            None => {
                proof {
                    map_of_absent(self.entries@, key@);
                }
                None
            },
        }
    }

    pub fn contains_key(&self, key: &str) -> (r: bool)
        ensures
            r == self@.contains_key(key@),
    {
        match self.get(key) {
            Some(_) => true,
            None => false,
        }
    }

    /// Puts a value at a key, in place of the one there.
    pub fn insert(&mut self, key: String, value: V)
        ensures
            final(self)@ == old(self)@.insert(key@, value),
    {
        match self.find(key.as_str()) {
            Some(i) => {
                proof {
                    map_of_update(self.entries@, i as int, (key, value));
                }
                self.entries.set(i, (key, value));
            },
            None => {
                let ghost before = self.entries@;
                self.entries.push((key, value));
                proof {
                    assert(self.entries@.drop_last() =~= before);
                }
            },
        }
    }

    /// Takes a key out, and gives back its value.
    pub fn remove(&mut self, key: &str) -> (r: Option<V>)
        ensures
            final(self)@ == old(self)@.remove(key@),
            match r {
                Some(v) => old(self)@.contains_key(key@) && v == old(self)@[key@],
                None => !old(self)@.contains_key(key@),
            },
    {
        let mut value: Option<V> = None;
        let mut found = self.find(key);
        proof {
            match found {
                Some(i) => map_of_present(self.entries@, i as int, key@),
                None => map_of_absent(self.entries@, key@),
            }
        }
        while found.is_some()
            invariant
                match found {
                    Some(i) => i < self.entries@.len() && self.entries@[i as int].0@ == key@,
                    None => !self@.contains_key(key@),
                },
                match value {
                    Some(v) => old(self)@.contains_key(key@) && v == old(self)@[key@],
                    None => match found {
                        Some(i) => old(self)@.contains_key(key@) && self.entries@[i as int].1
                            == old(self)@[key@],
                        None => !old(self)@.contains_key(key@),
                    },
                },
                forall|other: Seq<char>|
                    other != key@ ==> (#[trigger] self@.contains_key(other) == old(
                        self,
                    )@.contains_key(other) && (self@.contains_key(other) ==> self@[other] == old(
                        self,
                    )@[other])),
            decreases self.entries@.len() + if found is Some {
                1int
            } else {
                0int
            },
        {
            let i: usize = found.unwrap();
            let ghost before = self.entries@;
            let ghost was = self@;
            let entry = self.entries.remove(i);
            if value.is_none() {
                value = Some(entry.1);
            }
            found = self.find(key);
            proof {
                assert forall|other: Seq<char>| other != key@ implies (#[trigger] self@.contains_key(
                    other,
                ) == old(self)@.contains_key(other) && (self@.contains_key(other) ==> self@[other]
                    == old(self)@[other])) by {
                    map_of_without(before, i as int, other);
                    assert(was.contains_key(other) == old(self)@.contains_key(other));
                }
                if found is None {
                    map_of_absent(self.entries@, key@);
                }
            }
        }
        proof {
            assert(self@ =~= old(self)@.remove(key@));
        }
        value
    }
}

} // verus!
