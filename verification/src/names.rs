//! Sets of names.

use vstd::prelude::*;
use crate::text::str_eq;
use crate::graph::names_of;

verus! {

/// A set of names, kept in the order in which they were first put in.
#[derive(Clone, Debug)]
pub struct NameSet {
    names: Vec<String>,
}

impl View for NameSet {
    type V = Set<Seq<char>>;

    closed spec fn view(&self) -> Set<Seq<char>> {
        Set::new(|name: Seq<char>| names_of(self.names@).contains(name))
    }
}

impl NameSet {
    /// The names of the set in the order in which they were first put in.
    pub closed spec fn listed(&self) -> Seq<Seq<char>> {
        names_of(self.names@)
    }

    /// The list holds the names of the set, each once.
    pub proof fn lemma_listed(&self)
        ensures
            forall|name: Seq<char>| self@.contains(name) <==> self.listed().contains(name),
    {
    }

    /// The empty set.
    pub fn new() -> (set: NameSet)
        ensures
            set@ == Set::<Seq<char>>::empty(),
            set.listed() == Seq::<Seq<char>>::empty(),
    {
        let set = NameSet { names: Vec::new() };
        assert(set@ =~= Set::<Seq<char>>::empty());
        assert(set.listed() =~= Seq::<Seq<char>>::empty());
        set
    }

    /// Whether the set holds `name`.
    pub fn contains(&self, name: &str) -> (found: bool)
        ensures
            found == self@.contains(name@),
    {
        let mut i: usize = 0;
        while i < self.names.len()
            invariant
                i <= self.names.len(),
                forall|k: int| 0 <= k < i ==> names_of(self.names@)[k] != name@,
            decreases self.names.len() - i,
        {
            if str_eq(self.names[i].as_str(), name) {
                assert(names_of(self.names@)[i as int] == name@);
                return true;
            }
            i += 1;
        }
        false
    }

    /// Puts `name` into the set. Tells whether the set did not hold it
    /// before.
    pub fn insert(&mut self, name: &str) -> (added: bool)
        ensures
            final(self)@ == old(self)@.insert(name@),
            added == !old(self)@.contains(name@),
            final(self).listed() == if added {
                old(self).listed().push(name@)
            } else {
                old(self).listed()
            },
    {
        if self.contains(name) {
            assert(self@ =~= old(self)@.insert(name@));
            return false;
        }
        self.names.push(name.to_owned());
        proof {
            let before = names_of(old(self).names@);
            let after = names_of(self.names@);
            assert(after =~= before.push(name@));
            assert forall|n: Seq<char>| self@.contains(n) <==> old(self)@.insert(name@).contains(
                n,
            ) by {
                if after.contains(n) {
                    let k = choose|k: int| 0 <= k < after.len() && after[k] == n;
                    if k < before.len() {
                        assert(before[k] == n);
                    }
                }
                if before.contains(n) {
                    let k = choose|k: int| 0 <= k < before.len() && before[k] == n;
                    assert(after[k] == n);
                }
                if n == name@ {
                    assert(after[before.len() as int] == n);
                }
            }
            assert(self@ =~= old(self)@.insert(name@));
        }
        true
    }

    /// Puts each of `names` into the set.
    pub fn insert_all(&mut self, names: &Vec<String>)
        ensures
            final(self)@ == old(self)@.union(names_of(names@).to_set()),
    {
        let mut i: usize = 0;
        assert(self@ =~= old(self)@.union(names_of(names@).take(0).to_set()));
        while i < names.len()
            invariant
                i <= names.len(),
                self@ == old(self)@.union(names_of(names@).take(i as int).to_set()),
            decreases names.len() - i,
        {
            let ghost before = self@;
            self.insert(names[i].as_str());
            proof {
                let head = names_of(names@).take(i as int);
                let next = names_of(names@).take(i + 1);
                assert(next =~= head.push(names[i as int]@));
                assert forall|n: Seq<char>| next.to_set().contains(n) <==> head.to_set().contains(n)
                    || n == names[i as int]@ by {
                    if next.contains(n) {
                        let k = choose|k: int| 0 <= k < next.len() && next[k] == n;
                        if k < head.len() {
                            assert(head[k] == n);
                        }
                    }
                    if head.contains(n) {
                        let k = choose|k: int| 0 <= k < head.len() && head[k] == n;
                        assert(next[k] == n);
                    }
                    if n == names[i as int]@ {
                        assert(next[head.len() as int] == n);
                    }
                }
                assert(self@ =~= old(self)@.union(next.to_set()));
            }
            i += 1;
        }
        assert(names_of(names@).take(names.len() as int) =~= names_of(names@));
    }

    /// The number of names in the list of the set.
    pub fn len(&self) -> (n: usize)
        ensures
            n == self.listed().len(),
    {
        self.names.len()
    }

    /// The names of the set in the order in which they were first put in.
    pub fn names(&self) -> (names: &Vec<String>)
        ensures
            names_of(names@) == self.listed(),
    {
        &self.names
    }
}

} // verus!
