//! The evolutionary cycle: one generation expands the population by
//! mutation and truncates it back by selection.  Across any number of
//! generations the best score never worsens, because expansion keeps every
//! existing member and selection keeps the best of its round.

use vstd::prelude::*;

use crate::evolve::mutate_population;
use crate::fitness::score_spec;
use crate::population::Population;
use crate::population::POPULATION_SIZE;
use crate::selection::select;

verus! {

/// One generation: expand the population by mutation, then truncate it back
/// to the best `POPULATION_SIZE` members.  The result is never smaller than
/// the input's size capped at `POPULATION_SIZE` (so an expansion that gave up
/// before doubling shows in the result's size), and its front member scores
/// no worse than any member the input had.
pub fn run_generation(population: Population, rng: &mut rand::rngs::ThreadRng) -> (r: Population)
    requires
        population.wf(),
        population@.len() >= 1,
        population@.len() <= usize::MAX / 2,
    ensures
        r.wf(),
        1 <= r@.len() <= POPULATION_SIZE,
        r@.len() >= if population@.len() < POPULATION_SIZE {
            population@.len() as int
        } else {
            POPULATION_SIZE as int
        },
        forall|t: int| 0 <= t < r@.len() ==> score_spec(r@[0]) <= score_spec(#[trigger] r@[t]),
        forall|x: Seq<u8>|
            #![trigger population@.contains(x)]
            population@.contains(x) ==> score_spec(r@[0]) <= score_spec(x),
{
    let mut expanded = population;
    mutate_population(&mut expanded, rng);
    let ghost mid = expanded@;
    let out = select(expanded);
    proof {
        assert(out@.len() >= 1);
        assert forall|x: Seq<u8>|
            #![trigger population@.contains(x)]
            population@.contains(x) implies score_spec(out@[0]) <= score_spec(x) by {
            let u = choose|u: int| 0 <= u < population@.len() && population@[u] == x;
            assert(mid[u] == x);
            assert(mid.contains(x));
        }
        assert forall|t: int| 0 <= t < out@.len() implies score_spec(out@[0]) <= score_spec(
            #[trigger] out@[t],
        ) by {
            if t > 0 {
                assert(score_spec(out@[0]) <= score_spec(out@[t]));
            }
        }
    }
    out
}

/// Run `n` generations in sequence.  After at least one, the population
/// holds between the starting size capped at `POPULATION_SIZE` and
/// `POPULATION_SIZE` members, and its front member scores no worse than
/// anything the starting population held.
#[verifier::loop_isolation(false)]
pub fn run_generations(population: Population, rng: &mut rand::rngs::ThreadRng, n: usize) -> (r:
    Population)
    requires
        population.wf(),
        population@.len() >= 1,
        population@.len() <= usize::MAX / 2,
    ensures
        r.wf(),
        r@.len() >= 1,
        n == 0 ==> r == population,
        n >= 1 ==> r@.len() <= POPULATION_SIZE && r@.len() >= (if population@.len()
            < POPULATION_SIZE {
            population@.len() as int
        } else {
            POPULATION_SIZE as int
        }) && (forall|x: Seq<u8>|
            #![trigger population@.contains(x)]
            population@.contains(x) ==> score_spec(r@[0]) <= score_spec(x)),
{
    let ghost orig = population@;
    let mut pop = population;
    let mut t: usize = 0;
    while t < n
        invariant
            pop.wf(),
            pop@.len() >= 1,
            pop@.len() <= usize::MAX / 2,
            t <= n,
            t == 0 ==> pop == population,
            t >= 1 ==> pop@.len() <= POPULATION_SIZE,
            t >= 1 ==> pop@.len() >= (if orig.len() < POPULATION_SIZE {
                orig.len() as int
            } else {
                POPULATION_SIZE as int
            }),
            t >= 1 ==> (forall|u: int|
                0 <= u < pop@.len() ==> score_spec(pop@[0]) <= score_spec(#[trigger] pop@[u])),
            t >= 1 ==> (forall|x: Seq<u8>|
                #![trigger orig.contains(x)]
                orig.contains(x) ==> score_spec(pop@[0]) <= score_spec(x)),
        decreases n - t,
    {
        let ghost pre = pop@;
        let next = run_generation(pop, rng);
        proof {
            assert forall|x: Seq<u8>| #![trigger orig.contains(x)] orig.contains(x) implies
                score_spec(next@[0]) <= score_spec(x) by {
                if t == 0 {
                    assert(pre.contains(x));
                } else {
                    assert(pre.contains(pre[0])) by {
                        assert(pre[0] == pre[0]);
                    }
                    assert(score_spec(next@[0]) <= score_spec(pre[0]));
                    assert(score_spec(pre[0]) <= score_spec(x));
                }
            }
        }
        pop = next;
        t = t + 1;
    }
    pop
}

} // verus!
