//! A population: a deduplicated collection of candidate arrangements.
//! Structurally identical candidates collapse to one member.

use vstd::prelude::*;

use crate::candidate::is_candidate;

verus! {

/// The size a population is generated at and truncated back to.
pub const POPULATION_SIZE: usize = 10000;

/// A deduplicated collection of candidate arrangements.
pub struct Population {
    members: Vec<Vec<u8>>,
}

impl View for Population {
    type V = Seq<Seq<u8>>;

    closed spec fn view(&self) -> Seq<Seq<u8>> {
        self.members@.map_values(|m: Vec<u8>| m@)
    }
}

impl Population {
    /// No member occurs twice, and every member is a candidate arrangement.
    pub open spec fn wf(&self) -> bool {
        &&& self@.no_duplicates()
        &&& forall|t: int| 0 <= t < self@.len() ==> is_candidate(#[trigger] self@[t])
    }

    /// An empty population.
    pub fn new() -> (p: Population)
        ensures
            p@ =~= Seq::<Seq<u8>>::empty(),
            p.wf(),
    {
        let p = Population { members: Vec::new() };
        proof {
            assert(p@ =~= Seq::<Seq<u8>>::empty());
        }
        p
    }

    /// How many members the population has.
    pub fn len(&self) -> (n: usize)
        ensures
            n == self@.len(),
    {
        self.members.len()
    }

    /// The `i`-th member, in insertion order.
    pub fn member(&self, i: usize) -> (c: &Vec<u8>)
        requires
            i < self@.len(),
        ensures
            c@ == self@[i as int],
    {
        &self.members[i]
    }

    /// Whether a structurally equal member is already present.
    pub fn contains(&self, c: &Vec<u8>) -> (r: bool)
        ensures
            r <==> self@.contains(c@),
    {
        let mut t: usize = 0;
        while t < self.members.len()
            invariant
                t <= self@.len(),
                self@.len() == self.members@.len(),
                forall|u: int| 0 <= u < t ==> #[trigger] self@[u] != c@,
            decreases self@.len() - t,
        {
            if self.members[t] == *c {
                proof {
                    assert(self.members@[t as int]@ =~= c@);
                    assert(self@[t as int] == c@);
                }
                return true;
            }
            proof {
                assert(self.members@[t as int]@ != c@);
                assert(self@[t as int] != c@);
            }
            t = t + 1;
        }
        false
    }

    /// Add a candidate unless it is already present; a colliding insert is a
    /// silent no-op.  Reports whether the population grew.
    pub fn insert(&mut self, c: Vec<u8>) -> (added: bool)
        requires
            old(self).wf(),
            is_candidate(c@),
        ensures
            final(self).wf(),
            old(self)@.contains(c@) ==> !added && final(self)@ == old(self)@,
            !old(self)@.contains(c@) ==> added && final(self)@ == old(self)@.push(c@),
    {
        if self.contains(&c) {
            false
        } else {
            let ghost pre = self@;
            self.members.push(c);
            proof {
                assert(self@ =~= pre.push(c@));
                assert forall|a: int, b: int| 0 <= a < b < self@.len() implies self@[a]
                    != self@[b] by {
                    if b < pre.len() {
                    } else {
                        assert(self@[b] == c@);
                        assert(pre[a] == self@[a]);
                        if self@[a] == c@ {
                            assert(pre[a] == c@);
                            assert(pre.contains(c@));
                        }
                    }
                }
            }
            true
        }
    }

    /// Remove and return the most recently inserted member.
    pub fn take_last(&mut self) -> (c: Vec<u8>)
        requires
            old(self)@.len() > 0,
        ensures
            final(self)@ == old(self)@.drop_last(),
            c@ == old(self)@.last(),
    {
        let ghost pre = self@;
        let c = self.members.pop().unwrap();
        proof {
            assert(self@ =~= pre.drop_last());
        }
        c
    }
}

} // verus!
