//! A map from names to values that remembers the order of insertion.
use vstd::prelude::*;
use vstd::string::*;
use crate::text::same;

verus! {

/// Whether some entry has this name.
pub open spec fn has_name<E>(entries: Seq<(Seq<char>, E)>, name: Seq<char>) -> bool {
    exists|i: int| 0 <= i < entries.len() && (#[trigger] entries[i]).0 == name
}

/// The position of the entry with this name, where there is one.
pub open spec fn index_of_name<E>(entries: Seq<(Seq<char>, E)>, name: Seq<char>) -> int {
    choose|i: int| 0 <= i < entries.len() && (#[trigger] entries[i]).0 == name
}

/// Whether no name occurs twice.
pub open spec fn distinct_names<E>(entries: Seq<(Seq<char>, E)>) -> bool {
    forall|i: int, j: int|
        0 <= i < j < entries.len() ==> (#[trigger] entries[i]).0 != (#[trigger] entries[j]).0
}

/// Named values, each name at most once, in the order in which the names first came.
#[derive(Debug)]
pub struct NameMap<E> {
    entries: Vec<(String, E)>,
}

impl<E> View for NameMap<E> {
    type V = Seq<(Seq<char>, E)>;

    closed spec fn view(&self) -> Seq<(Seq<char>, E)> {
        self.entries@.map_values(|e: (String, E)| (e.0@, e.1))
    }
}

impl<E: Clone> Clone for NameMap<E> {
    fn clone(&self) -> (r: Self)
        ensures
            r@.len() == self@.len(),
            forall|i: int|
                0 <= i < self@.len() ==> {
                    &&& (#[trigger] r@[i]).0 == self@[i].0
                    &&& cloned(self@[i].1, r@[i].1)
                },
    {
        proof {
            use_type_invariant(self);
        }
        let mut entries: Vec<(String, E)> = Vec::new();
        let mut i: usize = 0;
        while i < self.entries.len()
            invariant
                i <= self.entries@.len(),
                entries@.len() == i,
                forall|k: int|
                    0 <= k < i ==> {
                        &&& (#[trigger] entries@[k]).0@ == self.entries@[k].0@
                        &&& cloned(self.entries@[k].1, entries@[k].1)
                    },
            decreases self.entries.len() - i,
        {
            entries.push((self.entries[i].0.clone(), self.entries[i].1.clone()));
            i = i + 1;
        }
        proof {
            let after = entries@.map_values(|e: (String, E)| (e.0@, e.1));
            assert forall|i: int, j: int| 0 <= i < j < after.len() implies (#[trigger] after[i]).0
                != (#[trigger] after[j]).0 by {
                assert(self@[i].0 != self@[j].0);
            }
        }
        NameMap { entries }
    }
}

impl<E> NameMap<E> {
    #[verifier::type_invariant]
    closed spec fn inv(self) -> bool {
        distinct_names(self@)
    }

    /// A map without entries.
    pub fn new() -> (r: Self)
        ensures
            r@ == Seq::<(Seq<char>, E)>::empty(),
    {
        let r = NameMap { entries: Vec::new() };
        assert(r@ == Seq::<(Seq<char>, E)>::empty());
        r
    }

    /// The number of entries; their names are all different.
    pub fn len(&self) -> (r: usize)
        ensures
            r == self@.len(),
            distinct_names(self@),
    {
        proof {
            use_type_invariant(self);
        }
        self.entries.len()
    }

    /// Whether there are no entries.
    pub fn is_empty(&self) -> (r: bool)
        ensures
            r == (self@.len() == 0),
    {
        self.entries.len() == 0
    }

    /// The name at a position.
    pub fn name_at(&self, i: usize) -> (r: &str)
        requires
            i < self@.len(),
        ensures
            r@ == self@[i as int].0,
    {
        self.entries[i].0.as_str()
    }

    /// The value at a position.
    pub fn value_at(&self, i: usize) -> (r: &E)
        requires
            i < self@.len(),
        ensures
            *r == self@[i as int].1,
    {
        &self.entries[i].1
    }

    /// The position of a name.
    pub fn position(&self, name: &str) -> (r: Option<usize>)
        ensures
            r is Some <==> has_name(self@, name@),
            r matches Some(i) ==> {
                &&& i < self@.len()
                &&& self@[i as int].0 == name@
                &&& i == index_of_name(self@, name@)
            },
    {
        proof {
            use_type_invariant(self);
        }
        let mut i: usize = 0;
        while i < self.entries.len()
            invariant
                i <= self@.len(),
                self@.len() == self.entries@.len(),
                distinct_names(self@),
                forall|k: int| 0 <= k < i ==> (#[trigger] self@[k]).0 != name@,
            decreases self.entries.len() - i,
        {
            assert(self@[i as int].0 == self.entries@[i as int].0@);
            if same(self.entries[i].0.as_str(), name) {
                assert(self@[i as int].0 == name@);
                return Some(i);
            }
            i = i + 1;
        }
        None
    }

    /// Whether there is an entry with this name.
    pub fn contains_key(&self, name: &str) -> (r: bool)
        ensures
            r == has_name(self@, name@),
    {
        self.position(name).is_some()
    }

    /// The value under a name.
    pub fn get(&self, name: &str) -> (r: Option<&E>)
        ensures
            r is Some <==> has_name(self@, name@),
            r matches Some(v) ==> *v == self@[index_of_name(self@, name@)].1,
    {
        match self.position(name) {
            Some(i) => Some(&self.entries[i].1),
            None => None,
        }
    }

    /// Puts a value under a name. The value that stood there before comes back;
    /// a new name goes to the end.
    pub fn insert(&mut self, name: String, value: E) -> (r: Option<E>)
        ensures
            has_name(old(self)@, name@) ==> {
                let i = index_of_name(old(self)@, name@);
                &&& final(self)@ == old(self)@.update(i, (name@, value))
                &&& r == Some(old(self)@[i].1)
            },
            !has_name(old(self)@, name@) ==> {
                &&& final(self)@ == old(self)@.push((name@, value))
                &&& r is None
            },
    {
        proof {
            use_type_invariant(&*self);
        }
        let at = self.position(name.as_str());
        let ghost before = self@;
        let mut entries: Vec<(String, E)> = Vec::new();
        std::mem::swap(&mut entries, &mut self.entries);
        let ghost kept = entries@;
        match at {
            Some(i) => {
                entries.push((name, value));
                let former = entries.swap_remove(i);
                proof {
                    let after = entries@.map_values(|e: (String, E)| (e.0@, e.1));
                    assert(after == before.update(i as int, (name@, value)));
                    assert(distinct_names(after));
                }
                self.entries = entries;
                Some(former.1)
            },
            None => {
                entries.push((name, value));
                proof {
                    let after = entries@.map_values(|e: (String, E)| (e.0@, e.1));
                    assert(after == before.push((name@, value)));
                    assert forall|i: int, j: int| 0 <= i < j < after.len() implies (
                    #[trigger] after[i]).0 != (#[trigger] after[j]).0 by {
                        if j == before.len() {
                            assert(before[i].0 != name@);
                        }
                    }
                }
                self.entries = entries;
                None
            },
        }
    }
}

} // verus!
