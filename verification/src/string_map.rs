//! A map keyed by strings that keeps its entries in the order in which their
//! names were first inserted.

use vstd::prelude::*;

verus! {

/// A map from names to values. No name is held twice, so a lookup finds at
/// most one entry.
#[derive(Debug)]
pub struct StringMap<T> {
    entries: Vec<(String, T)>,
}

impl<T> View for StringMap<T> {
    type V = Map<Seq<char>, T>;

    closed spec fn view(&self) -> Map<Seq<char>, T> {
        Map::new(
            |name: Seq<char>| self.position(name) is Some,
            |name: Seq<char>| self.entries[self.position(name)->0].1,
        )
    }
}

impl<T> StringMap<T> {
    #[verifier::type_invariant]
    closed spec fn unique_names(self) -> bool {
        forall|i: int, j: int|
            0 <= i < j < self.entries.len() ==> self.entries[i].0@ != self.entries[j].0@
    }

    /// The index of the entry called `name`, if the map holds one.
    closed spec fn position(&self, name: Seq<char>) -> Option<int> {
        if exists|i: int| 0 <= i < self.entries.len() && self.entries[i].0@ == name {
            Some(choose|i: int| 0 <= i < self.entries.len() && self.entries[i].0@ == name)
        } else {
            None
        }
    }

    /// The names of the entries, in the order in which they were first
    /// inserted.
    pub closed spec fn names(&self) -> Seq<Seq<char>> {
        Seq::new(self.entries.len() as nat, |i: int| self.entries[i].0@)
    }

    /// A map without entries.
    pub fn new() -> (map: Self)
        ensures
            map@ == Map::<Seq<char>, T>::empty(),
            map.names() == Seq::<Seq<char>>::empty(),
    {
        let map = StringMap { entries: Vec::new() };
        assert(map@ =~= Map::<Seq<char>, T>::empty());
        assert(map.names() =~= Seq::<Seq<char>>::empty());
        map
    }

    /// The number of entries. Their names are distinct and are exactly the
    /// keys of the map.
    pub fn len(&self) -> (n: usize)
        ensures
            n == self.names().len(),
            self.names().no_duplicates(),
            forall|name: Seq<char>| self.names().contains(name) <==> self@.contains_key(name),
    {
        proof {
            use_type_invariant(self);
            assert forall|name: Seq<char>| self.names().contains(name) implies self@.contains_key(
                name,
            ) by {
                let i = choose|i: int| 0 <= i < self.names().len() && self.names()[i] == name;
                assert(self.entries[i].0@ == name);
            }
            assert forall|name: Seq<char>| self@.contains_key(name) implies self.names().contains(
                name,
            ) by {
                let i = self.position(name)->0;
                assert(self.names()[i] == name);
            }
        }
        self.entries.len()
    }

    /// The name of the entry at `index`.
    pub fn name_at(&self, index: usize) -> (name: &String)
        requires
            index < self.names().len(),
        ensures
            name@ == self.names()[index as int],
    {
        &self.entries[index].0
    }

    /// The value of the entry at `index`.
    pub fn value_at(&self, index: usize) -> (value: &T)
        requires
            index < self.names().len(),
        ensures
            self@.contains_key(self.names()[index as int]),
            *value == self@[self.names()[index as int]],
    {
        proof {
            use_type_invariant(self);
            self.lemma_position(index as int);
        }
        &self.entries[index].1
    }

    proof fn lemma_position(&self, i: int)
        requires
            self.unique_names(),
            0 <= i < self.entries.len(),
        ensures
            self.position(self.entries[i].0@) == Some(i),
    {
    }

    /// Where the entry called `name` stands, or the number of entries if there
    /// is none.
    fn find(&self, name: &String) -> (i: usize)
        ensures
            i <= self.entries.len(),
            i < self.entries.len() ==> self.entries[i as int].0@ == name@,
            i == self.entries.len() ==> self.position(name@) is None,
    {
        let mut i: usize = 0;
        while i < self.entries.len()
            invariant
                i <= self.entries.len(),
                forall|j: int| 0 <= j < i ==> self.entries[j].0@ != name@,
            decreases self.entries.len() - i,
        {
            if self.entries[i].0 == *name {
                return i;
            }
            i += 1;
        }
        i
    }

    /// The value held under `name`.
    pub fn get(&self, name: &str) -> (value: Option<&T>)
        ensures
            match value {
                Some(v) => self@.contains_key(name@) && *v == self@[name@],
                None => !self@.contains_key(name@),
            },
    {
        let owned = name.to_owned();
        let i = self.find(&owned);
        if i < self.entries.len() {
            proof {
                use_type_invariant(self);
                self.lemma_position(i as int);
            }
            Some(&self.entries[i].1)
        } else {
            None
        }
    }

    /// Puts `value` under `name`, in place of any value held there before.
    pub fn insert(&mut self, name: String, value: T)
        ensures
            final(self)@ == old(self)@.insert(name@, value),
            final(self).names() == if old(self)@.contains_key(name@) {
                old(self).names()
            } else {
                old(self).names().push(name@)
            },
    {
        proof {
            use_type_invariant(&*self);
        }
        let ghost before = *self;
        let i = self.find(&name);
        let mut taken = StringMap { entries: Vec::new() };
        core::mem::swap(self, &mut taken);
        let mut entries = taken.entries;
        if i < entries.len() {
            proof {
                before.lemma_position(i as int);
            }
            entries.set(i, (name, value));
        } else {
            entries.push((name, value));
        }
        let ghost slot = i as int;
        assert(forall|k: int|
            0 <= k < entries.len() && k != slot ==> entries[k] == before.entries[k]);
        assert(entries[slot].0@ == name@ && entries[slot].1 == value);
        *self = StringMap { entries };
        proof {
            let after = *self;
            assert forall|key: Seq<char>| #[trigger]
                after@.contains_key(key) == before@.insert(name@, value).contains_key(key) by {
                if after.position(key) is Some {
                    let k = after.position(key)->0;
                    if k != slot {
                        assert(before.entries[k].0@ == key);
                    }
                }
                if before.position(key) is Some {
                    let k = before.position(key)->0;
                    assert(after.entries[k].0@ == key);
                }
                if key == name@ {
                    assert(after.entries[slot].0@ == key);
                }
            }
            assert forall|key: Seq<char>| #[trigger]
                after@.contains_key(key) implies after@[key] == before@.insert(
                name@,
                value,
            )[key] by {
                let k = after.position(key)->0;
                after.lemma_position(k);
                if k != slot {
                    before.lemma_position(k);
                }
            }
            assert(after@ =~= before@.insert(name@, value));
            if before@.contains_key(name@) {
                assert(after.names() =~= before.names());
            } else {
                assert(after.names() =~= before.names().push(name@));
            }
        }
    }
}

} // verus!
