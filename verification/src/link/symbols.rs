//! Finite sets of symbol names.

use vstd::prelude::*;

use crate::text::str_eq;

verus! {

/// A set of symbol names, kept as a list in which no name occurs twice.
#[derive(Debug)]
pub struct SymbolSet {
    names: Vec<String>,
}

impl SymbolSet {
    /// The names, in insertion order.
    pub closed spec fn entries(&self) -> Seq<Seq<char>> {
        self.names@.map_values(|name: String| name@)
    }

    /// No name occurs twice.
    pub closed spec fn well_formed(&self) -> bool {
        self.entries().no_duplicates()
    }

    /// The names, as a set.
    pub open spec fn view(&self) -> Set<Seq<char>> {
        self.entries().to_set()
    }

    pub fn new() -> (result: Self)
        ensures
            result.well_formed(),
            result@ == Set::<Seq<char>>::empty(),
    {
        let result = SymbolSet { names: Vec::new() };
        assert(result.entries() =~= Seq::<Seq<char>>::empty());
        assert(result@ =~= Set::<Seq<char>>::empty());
        result
    }

    fn position(&self, name: &str) -> (result: Option<usize>)
        ensures
            match result {
                Some(i) => i < self.entries().len() && self.entries()[i as int] == name@,
                None => !self.entries().contains(name@),
            },
    {
        let mut i: usize = 0;
        while i < self.names.len()
            invariant
                i <= self.names@.len(),
                forall|j: int| 0 <= j < i ==> self.entries()[j] != name@,
            decreases self.names.len() - i,
        {
            if str_eq(self.names[i].as_str(), name) {
                return Some(i);
            }
            i = i + 1;
        }
        None
    }

    pub fn contains(&self, name: &str) -> (result: bool)
        ensures
            result == self@.contains(name@),
    {
        proof {
        }
        self.position(name).is_some()
    }

    pub fn len(&self) -> (result: usize)
        requires
            self.well_formed(),
        ensures
            result == self@.len(),
            self@.finite(),
    {
        proof {
            self.entries().unique_seq_to_set();
            vstd::seq_lib::seq_to_set_is_finite(self.entries());
        }
        self.names.len()
    }

    /// The names, in insertion order.
    pub fn names(&self) -> (result: &[String])
        ensures
            result@.map_values(|name: String| name@) == self.entries(),
            result@.map_values(|name: String| name@).to_set() == self@,
    {
        self.names.as_slice()
    }

    pub fn insert(&mut self, name: &str)
        requires
            old(self).well_formed(),
        ensures
            final(self).well_formed(),
            final(self)@ == old(self)@.insert(name@),
    {
        if self.position(name).is_none() {
            let ghost before = self.entries();
            self.names.push(name.to_owned());
            assert(self.entries() =~= before.push(name@));
            proof {
                before.lemma_push_to_set_commute(name@);
                assert forall|a: int, b: int|
                    0 <= a < b < self.entries().len() implies #[trigger] self.entries()[a]
                        != #[trigger] self.entries()[b] by {
                    if b == before.len() {
                        assert(before[a] == self.entries()[a]);
                    }
                }
            }
        } else {
            proof {
                assert(self@.insert(name@) =~= self@);
            }
        }
    }

    pub fn remove(&mut self, name: &str)
        requires
            old(self).well_formed(),
        ensures
            final(self).well_formed(),
            final(self)@ == old(self)@.remove(name@),
    {
        match self.position(name) {
            None => {
                proof {
                    assert(self@.remove(name@) =~= self@);
                }
            },
            Some(i) => {
                let ghost before = self.entries();
                self.names.remove(i);
                assert(self.entries() =~= before.remove(i as int));
                proof {
                    let after = before.remove(i as int);
                    assert forall|n: Seq<char>| after.to_set().contains(n) <==> (
                    before.to_set().remove(name@).contains(n)) by {
                        if after.contains(n) {
                            let k = choose|k: int| 0 <= k < after.len() && after[k] == n;
                            if k < i {
                                assert(before[k] == n);
                                assert(before[k] != before[i as int]);
                            } else {
                                assert(before[k + 1] == n);
                                assert(before[i as int] != before[k + 1]);
                            }
                        }
                        if before.contains(n) && n != name@ {
                            let k = choose|k: int| 0 <= k < before.len() && before[k] == n;
                            if k < i {
                                assert(after[k] == n);
                            } else {
                                assert(k != i);
                                assert(after[k - 1] == n);
                            }
                        }
                    }
                    assert(after.to_set() =~= before.to_set().remove(name@));
                    assert forall|a: int, b: int| 0 <= a < b < after.len() implies #[trigger] after[a]
                        != #[trigger] after[b] by {
                        let x = if a < i { a } else { a + 1 };
                        let y = if b < i { b } else { b + 1 };
                        assert(after[a] == before[x]);
                        assert(after[b] == before[y]);
                        assert(before[x] != before[y]);
                    }
                }
            },
        }
    }

    /// Removes every name that `other` holds.
    pub fn remove_all(&mut self, other: &SymbolSet)
        requires
            old(self).well_formed(),
        ensures
            final(self).well_formed(),
            final(self)@ == old(self)@.difference(other@),
    {
        let ghost start = self@;
        let mut i: usize = 0;
        while i < other.names.len()
            invariant
                i <= other.names@.len(),
                self.well_formed(),
                self@ == start.difference(other.entries().take(i as int).to_set()),
            decreases other.names.len() - i,
        {
            let ghost before = self@;
            self.remove(other.names[i].as_str());
            proof {
                let taken = other.entries().take(i + 1);
                assert(taken =~= other.entries().take(i as int).push(other.entries()[i as int]));
                other.entries().take(i as int).lemma_push_to_set_commute(other.entries()[i as int]);
                assert(self@ =~= start.difference(taken.to_set()));
            }
            i = i + 1;
        }
        assert(other.entries().take(i as int) =~= other.entries());
    }

    /// Adds every name that `other` holds.
    pub fn insert_all(&mut self, other: &SymbolSet)
        requires
            old(self).well_formed(),
        ensures
            final(self).well_formed(),
            final(self)@ == old(self)@.union(other@),
    {
        let ghost start = self@;
        let mut i: usize = 0;
        assert(other.entries().take(0).to_set() =~= Set::<Seq<char>>::empty());
        assert(start.union(Set::<Seq<char>>::empty()) =~= start);
        while i < other.names.len()
            invariant
                i <= other.names@.len(),
                self.well_formed(),
                self@ == start.union(other.entries().take(i as int).to_set()),
            decreases other.names.len() - i,
        {
            self.insert(other.names[i].as_str());
            proof {
                let taken = other.entries().take(i + 1);
                assert(taken =~= other.entries().take(i as int).push(other.entries()[i as int]));
                other.entries().take(i as int).lemma_push_to_set_commute(other.entries()[i as int]);
                assert(self@ =~= start.union(taken.to_set()));
            }
            i = i + 1;
        }
        assert(other.entries().take(i as int) =~= other.entries());
    }
}

} // verus!
