//! Summarizing a population's fitness for display: the extreme scores, the
//! score total (from which a mean is derived), and a best member.  The
//! population itself is left untouched.

use vstd::prelude::*;

use crate::candidate::clone_candidate;
use crate::candidate::lemma_candidate_len;
use crate::fitness::eval_single;
use crate::fitness::lemma_score_bounds;
use crate::fitness::score_spec;
use crate::population::Population;
use crate::sums::lemma_sum_over_take_step;
use crate::sums::sum_over;

verus! {

/// A member's score, for summation.
pub open spec fn score_fn() -> spec_fn(Seq<u8>) -> int {
    |c: Seq<u8>| score_spec(c)
}

/// The total of all members' scores.
pub open spec fn total_score(s: Seq<Seq<u8>>) -> int {
    sum_over(s, score_fn())
}

/// A population's fitness summary.
pub struct PopulationStats {
    /// The lowest (best) score of any member.
    pub min: i64,
    /// The highest (worst) score of any member.
    pub max: i64,
    /// The total of all members' scores; the mean is this over `count`.
    pub total: i64,
    /// How many members were summarized.
    pub count: usize,
    /// A copy of a member achieving the lowest score.
    pub best: Vec<u8>,
}

/// Summarize a population without changing it.  Returns `None` exactly on
/// an empty population.
#[verifier::loop_isolation(false)]
pub fn population_stats(population: &Population) -> (r: Option<PopulationStats>)
    requires
        population.wf(),
        population@.len() <= 1000000000,
    ensures
        (r is Some) <==> population@.len() > 0,
        r matches Some(st) ==> {
            &&& st.count == population@.len()
            &&& population@.contains(st.best@)
            &&& st.min == score_spec(st.best@)
            &&& forall|t: int|
                0 <= t < population@.len() ==> st.min <= score_spec(#[trigger] population@[t])
                    <= st.max
            &&& exists|t: int|
                0 <= t < population@.len() && st.max == score_spec(#[trigger] population@[t])
            &&& st.total == total_score(population@)
        },
{
    let n = population.len();
    if n == 0 {
        return None;
    }
    proof {
        lemma_candidate_len(population@[0]);
        lemma_score_bounds(population@[0]);
    }
    let s0 = eval_single(population.member(0));
    let mut min_score = s0;
    let mut max_score = s0;
    let mut total = s0;
    let mut best_idx: usize = 0;
    proof {
        assert(population@.take(0).len() == 0);
        lemma_sum_over_take_step(population@, score_fn(), 0);
        assert(score_fn()(population@[0]) == score_spec(population@[0]));
    }
    let mut t: usize = 1;
    while t < n
        invariant
            1 <= t <= n,
            best_idx < t,
            min_score == score_spec(population@[best_idx as int]),
            forall|u: int|
                0 <= u < t ==> min_score <= score_spec(#[trigger] population@[u]) <= max_score,
            exists|u: int| 0 <= u < t && max_score == score_spec(#[trigger] population@[u]),
            total == sum_over(population@.take(t as int), score_fn()),
            0 <= total <= 371100 * t,
            0 <= min_score <= 371100,
            0 <= max_score <= 371100,
        decreases n - t,
    {
        proof {
            lemma_candidate_len(population@[t as int]);
            lemma_score_bounds(population@[t as int]);
        }
        let s = eval_single(population.member(t));
        if s < min_score {
            min_score = s;
            best_idx = t;
        }
        if s > max_score {
            max_score = s;
        }
        total = total + s;
        proof {
            lemma_sum_over_take_step(population@, score_fn(), t as int);
            assert(score_fn()(population@[t as int]) == score_spec(population@[t as int]));
        }
        t = t + 1;
    }
    let best = clone_candidate(population.member(best_idx));
    proof {
        assert(population@.take(n as int) =~= population@);
        assert(population@.contains(best@)) by {
            assert(population@[best_idx as int] == best@);
        }
    }
    Some(PopulationStats { min: min_score, max: max_score, total, count: n, best })
}

} // verus!
