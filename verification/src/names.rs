//! The table of named values that a backend keeps while it compiles one
//! function: from the name of each parameter to the value that stands for it.

use vstd::prelude::*;

verus! {

/// A table from names to values of a backend's own kind.
///
/// A name is bound to at most one value: binding it again replaces the value,
/// so that of two parameters with one name the later one is found.
pub struct NameTable<T> {
    entries: Vec<(String, T)>,
}

/// Whether some entry of `entries` has the name `name`.
spec fn holds<T>(entries: Seq<(String, T)>, name: Seq<char>) -> bool {
    exists|i: int| 0 <= i < entries.len() && (#[trigger] entries[i]).0@ == name
}

/// The index of an entry of `entries` with the name `name`, where there is one.
spec fn slot<T>(entries: Seq<(String, T)>, name: Seq<char>) -> int {
    choose|i: int| 0 <= i < entries.len() && (#[trigger] entries[i]).0@ == name
}

/// Whether no two entries of `entries` have the same name.
spec fn distinct<T>(entries: Seq<(String, T)>) -> bool {
    forall|i: int, j: int|
        0 <= i < j < entries.len() ==> (#[trigger] entries[i]).0@ != (#[trigger] entries[j]).0@
}

/// The map that a list of entries with distinct names stands for.
spec fn bindings<T>(entries: Seq<(String, T)>) -> Map<Seq<char>, T> {
    Map::new(
        |name: Seq<char>| holds(entries, name),
        |name: Seq<char>| entries[slot(entries, name)].1,
    )
}

impl<T> View for NameTable<T> {
    type V = Map<Seq<char>, T>;

    closed spec fn view(&self) -> Map<Seq<char>, T> {
        bindings(self.entries@)
    }
}

impl<T> NameTable<T> {
    #[verifier::type_invariant]
    spec fn well_formed(self) -> bool {
        distinct(self.entries@)
    }

    /// A table that binds no name.
    pub fn new() -> (table: NameTable<T>)
        ensures
            table@ == Map::<Seq<char>, T>::empty(),
    {
        let table = NameTable { entries: Vec::new() };
        assert(table@ =~= Map::<Seq<char>, T>::empty());
        table
    }

    /// The index of the entry with the name `name`, if there is one.
    fn find(&self, name: &String) -> (found: Option<usize>)
        ensures
            match found {
                Some(i) => i < self.entries@.len() && self.entries@[i as int].0@ == name@,
                None => !holds(self.entries@, name@),
            },
    {
        let mut i: usize = 0;
        while i < self.entries.len()
            invariant
                i <= self.entries@.len(),
                forall|k: int| 0 <= k < i ==> (#[trigger] self.entries@[k]).0@ != name@,
            decreases self.entries@.len() - i,
        {
            if self.entries[i].0 == *name {
                return Some(i);
            }
            i += 1;
        }
        None
    }

    /// The value that `name` is bound to, if it is bound.
    pub fn get(&self, name: &String) -> (value: Option<&T>)
        ensures
            match value {
                Some(v) => self@.contains_key(name@) && *v == self@[name@],
                None => !self@.contains_key(name@),
            },
    {
        proof {
            use_type_invariant(self);
        }
        match self.find(name) {
            Some(i) => {
                assert(holds(self.entries@, name@));
                Some(&self.entries[i].1)
            },
            None => None,
        }
    }

    /// Binds `name` to `value`, and returns the value that it was bound to
    /// before, if it was bound.
    pub fn insert(&mut self, name: String, value: T) -> (before: Option<T>)
        ensures
            final(self)@ == old(self)@.insert(name@, value),
            before == (if old(self)@.contains_key(name@) {
                Some(old(self)@[name@])
            } else {
                None
            }),
    {
        proof {
            use_type_invariant(&*self);
        }
        let ghost past = self.entries@;
        let found = self.find(&name);
        let mut entries: Vec<(String, T)> = Vec::new();
        core::mem::swap(&mut entries, &mut self.entries);
        let before = match found {
            Some(i) => {
                assert(holds(past, name@));
                let (_, old_value) = entries.swap_remove(i);
                Some(old_value)
            },
            None => None,
        };
        let ghost rest = entries@;
        assert(distinct(rest) && !holds(rest, name@)) by {
            assert forall|k: int| 0 <= k < rest.len() implies exists|j: int|
                0 <= j < past.len() && past[j] == #[trigger] rest[k] && past[j].0@ != name@ by {
                if found is Some && k == found->0 {
                    assert(past[past.len() - 1] == rest[k]);
                } else {
                    assert(past[k] == rest[k]);
                }
            }
        }
        entries.push((name, value));
        self.entries = entries;
        proof {
            let now = self.entries@;
            assert(now[now.len() - 1].0@ == name@);
            assert forall|key: Seq<char>| #[trigger]
                self@.contains_key(key) == old(self)@.insert(name@, value).contains_key(key) by {
                if key != name@ {
                    if holds(past, key) {
                        let j = slot(past, key);
                        if found is Some && j == past.len() - 1 {
                            assert(now[found->0 as int] == past[j]);
                        } else {
                            assert(now[j] == past[j]);
                        }
                    }
                    if holds(now, key) {
                        let j = slot(now, key);
                        if found is Some && j == found->0 {
                            assert(past[past.len() - 1] == now[j]);
                        } else {
                            assert(past[j] == now[j]);
                        }
                    }
                }
            }
            assert forall|key: Seq<char>| #[trigger] self@.contains_key(key) implies self@[key]
                == old(self)@.insert(name@, value)[key] by {
                let j = slot(now, key);
                if key != name@ {
                    if found is Some && j == found->0 {
                        assert(past[past.len() - 1] == now[j]);
                    } else {
                        assert(past[j] == now[j]);
                    }
                }
            }
            assert(self@ =~= old(self)@.insert(name@, value));
        }
        before
    }

    /// Unbinds every name.
    pub fn clear(&mut self)
        ensures
            final(self)@ == Map::<Seq<char>, T>::empty(),
    {
        self.entries = Vec::new();
        assert(self@ =~= Map::<Seq<char>, T>::empty());
    }
}

} // verus!
