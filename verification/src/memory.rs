//! The variable store.

use vstd::prelude::*;
use crate::tokenizer::same_text;

verus! {

/// What a store holds, mathematically: the value of each name.
pub type Store = Map<Seq<char>, u64>;

/// One variable: its name and its value.
#[derive(Debug)]
pub struct Entry {
    pub name: String,
    pub value: u64,
}

/// The variable store: a mapping from names to values, in which no name
/// occurs twice.
#[derive(Debug)]
pub struct Memory {
    entries: Vec<Entry>,
}

/// Whether the entry at `i` carries the name.
pub open spec fn named(entries: Seq<Entry>, i: int, name: Seq<char>) -> bool {
    0 <= i < entries.len() && entries[i].name@ == name
}

impl Memory {
    /// No name occurs twice.
    #[verifier::type_invariant]
    spec fn unique(&self) -> bool {
        forall|i: int, j: int|
            0 <= i < j < self.entries@.len() ==> self.entries@[i].name@ != self.entries@[j].name@
    }

    /// The entries, in the order in which their names were first stored.
    pub closed spec fn listed(&self) -> Seq<Entry> {
        self.entries@
    }

    /// Whether the listing and the mapping agree: no name is listed twice,
    /// and the mapping holds the listed names with their values and no
    /// others.
    pub open spec fn well_listed(&self) -> bool {
        &&& forall|i: int, j: int|
            0 <= i < j < self.listed().len() ==> self.listed()[i].name@ != self.listed()[j].name@
        &&& forall|i: int|
            0 <= i < self.listed().len() ==> self@.contains_key(#[trigger] self.listed()[i].name@)
                && self@[self.listed()[i].name@] == self.listed()[i].value
        &&& forall|k: Seq<char>| #[trigger]
            self@.contains_key(k) ==> exists|i: int| named(self.listed(), i, k)
    }

    /// An empty store.
    pub fn new() -> (r: Memory)
        ensures
            r@ == Store::empty(),
            r.listed().len() == 0,
    {
        let r = Memory { entries: Vec::new() };
        assert(r@ =~= Store::empty());
        r
    }

    /// Where the name is stored, if it is.
    fn find(&self, name: &str) -> (r: Option<usize>)
        ensures
            match r {
                Some(i) => named(self.entries@, i as int, name@),
                None => forall|i: int| !named(self.entries@, i, name@),
            },
    {
        let mut i: usize = 0;
        while i < self.entries.len()
            invariant
                i <= self.entries.len(),
                forall|j: int| 0 <= j < i ==> !named(self.entries@, j, name@),
            decreases self.entries.len() - i,
        {
            if same_text(self.entries[i].name.as_str(), name) {
                return Some(i);
            }
            i += 1;
        }
        None
    }

    /// The value stored under a name, if there is one.
    pub fn get(&self, name: &str) -> (r: Option<u64>)
        ensures
            r == if self@.contains_key(name@) {
                Some(self@[name@])
            } else {
                None
            },
    {
        proof {
            use_type_invariant(self);
        }
        match self.find(name) {
            Some(i) => {
                assert(named(self.entries@, i as int, name@));
                Some(self.entries[i].value)
            },
            None => None,
        }
    }

    /// Stores a value under a name, in place of the value that the name had.
    /// A name that is new is listed last; the others keep their places.
    pub fn insert(&mut self, name: String, value: u64)
        ensures
            final(self)@ == old(self)@.insert(name@, value),
            final(self).listed().len() == old(self).listed().len() + if old(self)@.contains_key(
                name@,
            ) {
                0int
            } else {
                1int
            },
            forall|i: int|
                0 <= i < old(self).listed().len() ==> (#[trigger] final(self).listed()[i]).name@
                    == old(self).listed()[i].name@,
    {
        proof {
            use_type_invariant(&*self);
        }
        let ghost before = self.entries@;
        let found = self.find(name.as_str());
        let mut entries: Vec<Entry> = Vec::new();
        core::mem::swap(&mut self.entries, &mut entries);
        let ghost key = name@;
        match found {
            Some(i) => {
                entries.set(i, Entry { name, value });
            },
            None => {
                entries.push(Entry { name, value });
            },
        }
        let ghost after = entries@;
        let ghost place = match found {
            Some(i) => i as int,
            None => before.len() as int,
        };
        proof {
            assert(named(after, place, key));
            assert forall|k: Seq<char>, j: int| named(after, j, k) <==> ((named(before, j, k) && j
                != place) || (j == place && k == key)) by {}
            assert forall|i: int, j: int| 0 <= i < j < after.len() implies after[i].name@
                != after[j].name@ by {
                if i != place && j != place {
                    assert(after[i] == before[i] && after[j] == before[j]);
                } else if i == place {
                    assert(named(before, j, after[j].name@));
                } else {
                    assert(named(before, i, after[i].name@));
                }
            }
        }
        core::mem::swap(&mut self.entries, &mut entries);
        proof {
            let wanted = old(self)@.insert(key, value);
            assert(self@ =~= wanted) by {
                assert forall|k: Seq<char>| #[trigger]
                    self@.contains_key(k) implies self@[k] == wanted[k] by {
                    let j = choose|j: int| named(after, j, k);
                    assert(named(after, j, k));
                    if k != key {
                        let h = choose|h: int| named(before, h, k);
                        assert(named(before, j, k));
                        assert(named(before, h, k));
                        assert(j == h);
                    } else {
                        assert(j == place);
                    }
                }
                assert forall|k: Seq<char>| wanted.contains_key(k) implies #[trigger]
                    self@.contains_key(k) by {
                    if k == key {
                        assert(named(after, place, k));
                    } else {
                        let h = choose|h: int| named(before, h, k);
                        assert(named(before, h, k));
                        assert(named(after, h, k));
                    }
                }
            }
        }
    }

    /// How many names the store holds.
    pub fn len(&self) -> (r: usize)
        ensures
            r == self.listed().len(),
            self.well_listed(),
    {
        proof {
            use_type_invariant(self);
            assert forall|i: int| 0 <= i < self.entries@.len() implies self@.contains_key(
                #[trigger] self.entries@[i].name@,
            ) && self@[self.entries@[i].name@] == self.entries@[i].value by {
                let k = self.entries@[i].name@;
                assert(named(self.entries@, i, k));
                let j = choose|j: int| named(self.entries@, j, k);
                assert(j == i);
            }
            assert forall|k: Seq<char>| #[trigger] self@.contains_key(k) implies exists|i: int|
                named(self.listed(), i, k) by {
                let i = choose|i: int| named(self.entries@, i, k);
                assert(named(self.listed(), i, k));
            }
        }
        self.entries.len()
    }

    /// The entry at a position of the listing.
    pub fn entry(&self, i: usize) -> (r: (String, u64))
        requires
            i < self.listed().len(),
        ensures
            r.0@ == self.listed()[i as int].name@,
            r.1 == self.listed()[i as int].value,
            self@.contains_key(r.0@),
            self@[r.0@] == r.1,
    {
        proof {
            use_type_invariant(self);
            assert(named(self.entries@, i as int, self.entries@[i as int].name@));
        }
        (self.entries[i].name.clone(), self.entries[i].value)
    }
}

impl View for Memory {
    type V = Store;

    closed spec fn view(&self) -> Store {
        Map::new(
            |k: Seq<char>| exists|i: int| named(self.entries@, i, k),
            |k: Seq<char>| self.entries@[choose|i: int| named(self.entries@, i, k)].value,
        )
    }
}

} // verus!
