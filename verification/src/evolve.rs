//! Producing and perturbing candidates: random generation of the initial
//! population, and mutation by random transpositions.
//!
//! The two loops that retry random draws until a distinct-candidate target
//! is met carry an attempt ceiling, so that exhausting it is a reportable
//! outcome rather than a silent non-termination.

use vstd::prelude::*;

use crate::candidate::base_candidate;
use crate::candidate::is_candidate;
use crate::candidate::lemma_candidate_len;
use crate::population::Population;
use crate::population::POPULATION_SIZE;
use crate::rng::rand_below;
use crate::rng::shuffle_values;

verus! {

/// How many random draws the generation loop may spend before giving up.
pub const GENERATION_ATTEMPT_CAP: usize = 1000000;

/// How many mutation draws one expansion may spend before giving up.
pub const EXPANSION_ATTEMPT_CAP: usize = 1000000;

/// One fresh candidate: the values 1..=19, uniformly shuffled.
pub fn generate_new_candidate(rng: &mut rand::rngs::ThreadRng) -> (c: Vec<u8>)
    ensures
        is_candidate(c@),
        c@.len() == 19,
{
    let mut c = base_candidate();
    shuffle_values(&mut c, rng);
    proof {
        lemma_candidate_len(c@);
    }
    c
}

/// The initial population: random candidates inserted until it holds exactly
/// `POPULATION_SIZE` distinct members.  Colliding draws are silently
/// absorbed; `None` reports that the attempt ceiling was exhausted first.
#[verifier::loop_isolation(false)]
pub fn generate_population(rng: &mut rand::rngs::ThreadRng) -> (r: Option<Population>)
    ensures
        r matches Some(p) ==> p.wf() && p@.len() == POPULATION_SIZE,
{
    let mut p = Population::new();
    let mut attempts: usize = 0;
    while p.len() < POPULATION_SIZE && attempts < GENERATION_ATTEMPT_CAP
        invariant
            p.wf(),
            p@.len() <= POPULATION_SIZE,
            attempts <= GENERATION_ATTEMPT_CAP,
        decreases GENERATION_ATTEMPT_CAP - attempts,
    {
        let c = generate_new_candidate(rng);
        p.insert(c);
        attempts = attempts + 1;
    }
    if p.len() == POPULATION_SIZE {
        Some(p)
    } else {
        None
    }
}

/// Perturb one candidate: draw a transposition count from 1..=18, then that
/// many times swap the values at two independently drawn positions (which
/// may coincide).  The result holds exactly the same values.
#[verifier::loop_isolation(false)]
pub fn mutate_single(candidate: &Vec<u8>, rng: &mut rand::rngs::ThreadRng) -> (m: Vec<u8>)
    requires
        candidate@.len() >= 2,
    ensures
        m@.to_multiset() == candidate@.to_multiset(),
        m@.len() == candidate@.len(),
{
    broadcast use vstd::seq_lib::group_to_multiset_ensures;

    let mut m = crate::candidate::clone_candidate(candidate);
    let n_mutations = rand_below(rng, 1, m.len());
    let mut t: usize = 0;
    while t < n_mutations
        invariant
            m@.to_multiset() == candidate@.to_multiset(),
            m@.len() == candidate@.len(),
        decreases n_mutations - t,
    {
        let ghost pre = m@;
        let i1 = rand_below(rng, 0, m.len());
        let i2 = rand_below(rng, 0, m.len());
        let v1 = m[i1];
        let v2 = m[i2];
        m[i1] = v2;
        m[i2] = v1;
        proof {
            let mid = pre.update(i1 as int, v2);
            assert(m@ == mid.update(i2 as int, v1));
            assert(mid[i2 as int] == v2);
            assert(mid.to_multiset() == pre.to_multiset().remove(v1).insert(v2));
            assert(m@.to_multiset() == mid.to_multiset().remove(v2).insert(v1));
            assert(pre[i1 as int] == v1);
            assert(pre.contains(v1));
            assert(pre.to_multiset().count(v1) > 0);
            assert(m@.to_multiset() =~= pre.to_multiset());
        }
        t = t + 1;
    }
    m
}

/// Expand a population toward twice its size: repeatedly mutate a member
/// drawn uniformly from the pre-expansion snapshot and insert the result.
/// Reports whether the doubled size was reached before the attempt ceiling.
#[verifier::loop_isolation(false)]
pub fn mutate_population(population: &mut Population, rng: &mut rand::rngs::ThreadRng) -> (reached:
    bool)
    requires
        old(population).wf(),
        old(population)@.len() >= 1,
        old(population)@.len() <= usize::MAX / 2,
    ensures
        final(population).wf(),
        old(population)@.len() <= final(population)@.len() <= 2 * old(population)@.len(),
        old(population)@.is_prefix_of(final(population)@),
        reached <==> final(population)@.len() == 2 * old(population)@.len(),
{
    let snapshot_len = population.len();
    let target = snapshot_len * 2;
    let mut attempts: usize = 0;
    while population.len() < target && attempts < EXPANSION_ATTEMPT_CAP
        invariant
            population.wf(),
            old(population)@.is_prefix_of(population@),
            snapshot_len <= population@.len() <= target,
            attempts <= EXPANSION_ATTEMPT_CAP,
        decreases EXPANSION_ATTEMPT_CAP - attempts,
    {
        let i = rand_below(rng, 0, snapshot_len);
        proof {
            assert(population@[i as int] == old(population)@[i as int]);
            assert(is_candidate(population@[i as int]));
            lemma_candidate_len(population@[i as int]);
        }
        let m = mutate_single(population.member(i), rng);
        proof {
            assert(is_candidate(m@));
        }
        let ghost pre = population@;
        population.insert(m);
        proof {
            assert(old(population)@.is_prefix_of(population@));
        }
        attempts = attempts + 1;
    }
    population.len() == target
}

} // verus!
