//! Things kept under names: the commands that can be run, the modules that
//! are running. A name is taken once.

use vstd::prelude::*;
use crate::text::same_text;

verus! {

/// Whether `name` is taken in `entries`.
pub open spec fn taken<T>(entries: Seq<(Seq<char>, T)>, name: Seq<char>) -> bool {
    exists|i: int| 0 <= i < entries.len() && (#[trigger] entries[i]).0 == name
}

/// Where `name` stands in `entries`, if it is taken.
pub open spec fn place_of<T>(entries: Seq<(Seq<char>, T)>, name: Seq<char>) -> int {
    choose|i: int| 0 <= i < entries.len() && (#[trigger] entries[i]).0 == name
}

/// No name is taken twice.
pub open spec fn names_differ<T>(entries: Seq<(Seq<char>, T)>) -> bool {
    forall|i: int, j: int|
        0 <= i < j < entries.len() ==> (#[trigger] entries[i]).0 != (#[trigger] entries[j]).0
}

/// The names in the order in which they were taken.
pub open spec fn names_of<T>(entries: Seq<(Seq<char>, T)>) -> Seq<Seq<char>> {
    Seq::new(entries.len(), |i: int| entries[i].0)
}

/// Where no name is taken twice, a name stands where it is found.
pub proof fn lemma_place_unique<T>(entries: Seq<(Seq<char>, T)>, i: int)
    requires
        names_differ(entries),
        0 <= i < entries.len(),
    ensures
        taken(entries, entries[i].0),
        place_of(entries, entries[i].0) == i,
{
    let p = place_of(entries, entries[i].0);
    assert(0 <= p < entries.len() && entries[p].0 == entries[i].0);
    if p < i {
        assert(entries[p].0 != entries[i].0);
    } else if i < p {
        assert(entries[i].0 != entries[p].0);
    }
}

/// Things of one kind, each under its own name, in the order in which they
/// came. Its view is the sequence of the names with what stands under them.
pub struct Registry<T> {
    entries: Vec<(String, T)>,
}

impl<T> View for Registry<T> {
    type V = Seq<(Seq<char>, T)>;

    closed spec fn view(&self) -> Seq<(Seq<char>, T)> {
        Seq::new(self.entries@.len(), |i: int| (self.entries@[i].0@, self.entries@[i].1))
    }
}

impl<T> Registry<T> {
    #[verifier::type_invariant]
    closed spec fn unique_names(&self) -> bool {
        names_differ(self@)
    }

    /// A registry in which no name is taken.
    pub fn new() -> (registry: Registry<T>)
        ensures
            registry@ == Seq::<(Seq<char>, T)>::empty(),
    {
        let registry = Registry { entries: Vec::new() };
        assert(registry@ =~= Seq::<(Seq<char>, T)>::empty());
        registry
    }

    /// How many names are taken.
    pub fn len(&self) -> (n: usize)
        ensures
            n == self@.len(),
            names_differ(self@),
    {
        proof {
            use_type_invariant(self);
        }
        self.entries.len()
    }

    fn find(&self, name: &str) -> (at: Option<usize>)
        ensures
            at matches Some(i) ==> i < self@.len() && self@[i as int].0 == name@ && taken(
                self@,
                name@,
            ) && place_of(self@, name@) == i,
            at is None ==> !taken(self@, name@),
    {
        let mut i: usize = 0;
        while i < self.entries.len()
            invariant
                i <= self.entries.len(),
                self@.len() == self.entries@.len(),
                forall|k: int| 0 <= k < i ==> (#[trigger] self@[k]).0 != name@,
            decreases self.entries.len() - i,
        {
            if same_text(self.entries[i].0.as_str(), name) {
                proof {
                    use_type_invariant(self);
                    assert(self@[i as int].0 == name@);
                    lemma_place_unique(self@, i as int);
                }
                return Some(i);
            }
            assert(self@[i as int].0 != name@);
            i += 1;
        }
        None
    }

    /// Whether `name` is taken.
    pub fn contains(&self, name: &str) -> (b: bool)
        ensures
            b == taken(self@, name@),
    {
        self.find(name).is_some()
    }

    /// What stands under `name`.
    pub fn get(&self, name: &str) -> (found: Option<&T>)
        ensures
            found is Some == taken(self@, name@),
            found matches Some(item) ==> *item == self@[place_of(self@, name@)].1,
    {
        match self.find(name) {
            Some(i) => Some(&self.entries[i].1),
            None => None,
        }
    }

    /// The names in the order in which they were taken.
    pub fn names(&self) -> (list: Vec<String>)
        ensures
            list@.len() == self@.len(),
            forall|i: int| 0 <= i < list@.len() ==> (#[trigger] list@[i])@ == self@[i].0,
    {
        let mut list: Vec<String> = Vec::new();
        let mut i: usize = 0;
        while i < self.entries.len()
            invariant
                i <= self.entries.len(),
                self@.len() == self.entries@.len(),
                list@.len() == i,
                forall|k: int| 0 <= k < i ==> (#[trigger] list@[k])@ == self@[k].0,
            decreases self.entries.len() - i,
        {
            list.push(self.entries[i].0.clone());
            i += 1;
        }
        list
    }

    /// Puts `item` under `name`, after everything that is there. A name
    /// that is taken stays with what it has, and `item` is handed back.
    pub fn insert(&mut self, name: &str, item: T) -> (refused: Result<(), T>)
        ensures
            names_differ(old(self)@),
            names_differ(final(self)@),
            taken(old(self)@, name@) ==> refused == Err::<(), T>(item) && final(self)@ == old(
                self,
            )@,
            !taken(old(self)@, name@) ==> refused is Ok && final(self)@ == old(self)@.push(
                (name@, item),
            ),
    {
        proof {
            use_type_invariant(&*self);
        }
        if self.find(name).is_some() {
            return Err(item);
        }
        let ghost before = self@;
        let mut entries: Vec<(String, T)> = Vec::new();
        core::mem::swap(&mut entries, &mut self.entries);
        entries.push((name.to_owned(), item));
        proof {
            let after = Seq::new(entries@.len(), |i: int| (entries@[i].0@, entries@[i].1));
            assert(after =~= before.push((name@, item)));
            assert forall|i: int, j: int| 0 <= i < j < after.len() implies (#[trigger] after[i]).0
                != (#[trigger] after[j]).0 by {
                if j < before.len() {
                    assert(before[i].0 != before[j].0);
                } else {
                    assert(after[i] == before[i]);
                }
            }
        }
        core::mem::swap(&mut entries, &mut self.entries);
        Ok(())
    }

    /// Takes out what stands under `name` and frees the name. The others
    /// keep their order.
    pub fn remove(&mut self, name: &str) -> (item: Option<T>)
        ensures
            names_differ(old(self)@),
            names_differ(final(self)@),
            item is Some == taken(old(self)@, name@),
            item matches Some(found) ==> found == old(self)@[place_of(old(self)@, name@)].1
                && final(self)@ == old(self)@.remove(place_of(old(self)@, name@)),
            item is None ==> final(self)@ == old(self)@,
            !taken(final(self)@, name@),
    {
        proof {
            use_type_invariant(&*self);
        }
        match self.find(name) {
            Some(at) => {
                let ghost before = self@;
                let mut entries: Vec<(String, T)> = Vec::new();
                core::mem::swap(&mut entries, &mut self.entries);
                let (_, item) = entries.remove(at);
                proof {
                    let after = Seq::new(entries@.len(), |i: int| (entries@[i].0@, entries@[i].1));
                    assert(after =~= before.remove(at as int));
                    assert forall|i: int, j: int| 0 <= i < j < after.len() implies (
                    #[trigger] after[i]).0 != (#[trigger] after[j]).0 by {
                        let bi = if i < at { i } else { i + 1 };
                        let bj = if j < at { j } else { j + 1 };
                        assert(after[i] == before[bi]);
                        assert(after[j] == before[bj]);
                        assert(before[bi].0 != before[bj].0);
                    }
                    assert forall|k: int| 0 <= k < after.len() implies (#[trigger] after[k]).0
                        != name@ by {
                        let bk = if k < at { k } else { k + 1 };
                        assert(after[k] == before[bk]);
                        if bk < at {
                            assert(before[bk].0 != before[at as int].0);
                        } else {
                            assert(before[at as int].0 != before[bk].0);
                        }
                    }
                }
                core::mem::swap(&mut entries, &mut self.entries);
                Some(item)
            },
            None => None,
        }
    }
}

} // verus!
