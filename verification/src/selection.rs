//! Evaluating and truncating a population: score every member, order the
//! result ascending by score, and keep only the best.

use vstd::prelude::*;

use vstd::multiset::Multiset;

use crate::candidate::clone_candidate;
use crate::candidate::is_candidate;
use crate::candidate::lemma_candidate_len;
use crate::fitness::eval_single;
use crate::fitness::score_spec;
use crate::population::Population;
use crate::population::POPULATION_SIZE;
use crate::sums::lemma_map_values_multiset;

verus! {

/// The candidate of one scored pair.
pub open spec fn pair_cand_fn() -> spec_fn((i64, Vec<u8>)) -> Seq<u8> {
    |p: (i64, Vec<u8>)| p.1@
}

/// The candidates of a scored list, in order.
pub open spec fn cands_of(rs: Seq<(i64, Vec<u8>)>) -> Seq<Seq<u8>> {
    rs.map_values(pair_cand_fn())
}

/// Ascending by score.
pub open spec fn sorted_by_score(s: Seq<(i64, Vec<u8>)>) -> bool {
    forall|a: int, b: int| 0 <= a < b < s.len() ==> s[a].0 <= s[b].0
}

/// Every pair carries its candidate's true score, and a valid candidate.
pub open spec fn pairs_scored(s: Seq<(i64, Vec<u8>)>) -> bool {
    forall|t: int|
        0 <= t < s.len() ==> (#[trigger] s[t]).0 == score_spec(s[t].1@) && is_candidate(s[t].1@)
}

#[verifier::loop_isolation(false)]
fn merge_pairs(a: Vec<(i64, Vec<u8>)>, b: Vec<(i64, Vec<u8>)>) -> (r: Vec<(i64, Vec<u8>)>)
    requires
        sorted_by_score(a@),
        sorted_by_score(b@),
    ensures
        sorted_by_score(r@),
        r@.to_multiset() == a@.to_multiset().add(b@.to_multiset()),
    decreases a@.len() + b@.len(),
{
    broadcast use vstd::seq_lib::group_to_multiset_ensures;
    broadcast use vstd::multiset::group_multiset_axioms;

    let ghost orig_ms = a@.to_multiset().add(b@.to_multiset());
    let mut a = a;
    let mut b = b;
    let mut rev: Vec<(i64, Vec<u8>)> = Vec::new();
    proof {
        assert(rev@.to_multiset().len() == 0);
        assert(rev@.to_multiset() =~= Multiset::<(i64, Vec<u8>)>::empty());
        assert(rev@.to_multiset().add(a@.to_multiset()).add(b@.to_multiset()) =~= orig_ms);
    }
    while a.len() > 0 || b.len() > 0
        invariant
            sorted_by_score(a@),
            sorted_by_score(b@),
            forall|x: int, y: int|
                0 <= x < y < rev@.len() ==> (#[trigger] rev@[x]).0 >= (#[trigger] rev@[y]).0,
            forall|x: int, y: int|
                0 <= x < rev@.len() && 0 <= y < a@.len() ==> (#[trigger] rev@[x]).0
                    >= (#[trigger] a@[y]).0,
            forall|x: int, y: int|
                0 <= x < rev@.len() && 0 <= y < b@.len() ==> (#[trigger] rev@[x]).0
                    >= (#[trigger] b@[y]).0,
            rev@.to_multiset().add(a@.to_multiset()).add(b@.to_multiset()) == orig_ms,
        decreases a@.len() + b@.len(),
    {
        let ghost pre_a = a@;
        let ghost pre_b = b@;
        let from_a: bool;
        if a.len() == 0 {
            from_a = false;
        } else if b.len() == 0 {
            from_a = true;
        } else {
            from_a = a[a.len() - 1].0 >= b[b.len() - 1].0;
        }
        let x: (i64, Vec<u8>);
        if from_a {
            x = a.pop().unwrap();
            proof {
                assert(pre_a.drop_last() =~= pre_a.remove(pre_a.len() - 1));
                assert(a@.to_multiset() == pre_a.to_multiset().remove(x));
                assert(pre_a[pre_a.len() - 1] == x);
                assert(pre_a.contains(x));
                assert(pre_a.to_multiset().count(x) > 0);
            }
        } else {
            x = b.pop().unwrap();
            proof {
                assert(pre_b.drop_last() =~= pre_b.remove(pre_b.len() - 1));
                assert(b@.to_multiset() == pre_b.to_multiset().remove(x));
                assert(pre_b[pre_b.len() - 1] == x);
                assert(pre_b.contains(x));
                assert(pre_b.to_multiset().count(x) > 0);
            }
        }
        let ghost pre_rev = rev@;
        rev.push(x);
        proof {
            assert(rev@.to_multiset() == pre_rev.to_multiset().insert(x));
            assert(rev@.to_multiset().add(a@.to_multiset()).add(b@.to_multiset()) =~= orig_ms);
            assert forall|y: int| 0 <= y < a@.len() implies x.0 >= (#[trigger] a@[y]).0 by {
                if from_a {
                    assert(a@[y] == pre_a[y]);
                } else {
                    assert(pre_b[pre_b.len() - 1] == x);
                }
            }
            assert forall|y: int| 0 <= y < b@.len() implies x.0 >= (#[trigger] b@[y]).0 by {
                if from_a {
                    if pre_b.len() > 0 {
                        assert(b@[y] == pre_b[y]);
                        assert(pre_b[y].0 <= pre_b[pre_b.len() - 1].0);
                    }
                } else {
                    assert(b@[y] == pre_b[y]);
                }
            }
        }
    }
    // `rev` is descending; reverse it into ascending order.
    let ghost full = rev@;
    proof {
        assert(a@.to_multiset().len() == 0);
        assert(a@.to_multiset() =~= Multiset::<(i64, Vec<u8>)>::empty());
        assert(b@.to_multiset().len() == 0);
        assert(b@.to_multiset() =~= Multiset::<(i64, Vec<u8>)>::empty());
        assert(full.to_multiset() =~= orig_ms);
    }
    let mut r: Vec<(i64, Vec<u8>)> = Vec::new();
    while rev.len() > 0
        invariant
            rev@ == full.take(rev@.len() as int),
            r@.len() + rev@.len() == full.len(),
            forall|t: int| 0 <= t < r@.len() ==> r@[t] == full[full.len() - 1 - t],
        decreases rev@.len(),
    {
        let ghost pre = rev@;
        let x = rev.pop().unwrap();
        r.push(x);
        proof {
            assert(rev@ =~= full.take(rev@.len() as int));
        }
    }
    proof {
        assert(r@ =~= full.reverse());
        full.lemma_reverse_to_multiset();
        assert forall|s: int, t: int| 0 <= s < t < r@.len() implies (#[trigger] r@[s]).0
            <= (#[trigger] r@[t]).0 by {
            assert(r@[s] == full[full.len() - 1 - s]);
            assert(r@[t] == full[full.len() - 1 - t]);
        }
    }
    r
}

#[verifier::loop_isolation(false)]
fn sort_pairs(v: Vec<(i64, Vec<u8>)>) -> (r: Vec<(i64, Vec<u8>)>)
    ensures
        sorted_by_score(r@),
        r@.to_multiset() == v@.to_multiset(),
    decreases v@.len(),
{
    if v.len() <= 1 {
        return v;
    }
    let ghost orig = v@;
    let mut v = v;
    let mid = v.len() / 2;
    let right = v.split_off(mid);
    proof {
        assert(orig =~= v@ + right@);
        vstd::seq_lib::lemma_multiset_commutative(v@, right@);
    }
    let left_sorted = sort_pairs(v);
    let right_sorted = sort_pairs(right);
    let r = merge_pairs(left_sorted, right_sorted);
    proof {
        assert(r@.to_multiset() =~= orig.to_multiset());
    }
    r
}

/// Score every member of the population, emptying it, and return the scored
/// pairs in ascending score order.  The pairs hold exactly the population's
/// former members.
#[verifier::loop_isolation(false)]
pub fn eval_all(population: &mut Population) -> (r: Vec<(i64, Vec<u8>)>)
    requires
        old(population).wf(),
    ensures
        final(population)@.len() == 0,
        sorted_by_score(r@),
        pairs_scored(r@),
        cands_of(r@).to_multiset() == old(population)@.to_multiset(),
        r@.len() == old(population)@.len(),
{
    broadcast use vstd::seq_lib::group_to_multiset_ensures;
    broadcast use vstd::multiset::group_multiset_axioms;

    let mut scored: Vec<(i64, Vec<u8>)> = Vec::new();
    proof {
        assert(cands_of(scored@) =~= Seq::<Seq<u8>>::empty());
        assert(cands_of(scored@).to_multiset().len() == 0);
        assert(cands_of(scored@).to_multiset() =~= Multiset::<Seq<u8>>::empty());
        assert(cands_of(scored@).to_multiset().add(population@.to_multiset()) =~= population@.to_multiset());
    }
    while population.len() > 0
        invariant
            population.wf(),
            pairs_scored(scored@),
            cands_of(scored@).to_multiset().add(population@.to_multiset()) == old(
                population,
            )@.to_multiset(),
            scored@.len() + population@.len() == old(population)@.len(),
        decreases population@.len(),
    {
        let ghost pre = population@;
        let c = population.take_last();
        proof {
            assert(is_candidate(pre[pre.len() - 1]));
            lemma_candidate_len(c@);
            assert(pre.drop_last() =~= pre.remove(pre.len() - 1));
            assert(population@.to_multiset() == pre.to_multiset().remove(c@));
            assert(pre.contains(pre[pre.len() - 1]));
            assert(pre.to_multiset().count(c@) > 0);
            assert forall|s: int, t: int| 0 <= s < t < population@.len() implies population@[s]
                != population@[t] by {
                assert(pre[s] == population@[s]);
                assert(pre[t] == population@[t]);
            }
        }
        let s = eval_single(&c);
        let ghost pre_scored = scored@;
        scored.push((s, c));
        proof {
            assert(cands_of(scored@) =~= cands_of(pre_scored).push(c@));
            assert(cands_of(scored@).to_multiset() == cands_of(pre_scored).to_multiset().insert(
                c@,
            ));
            assert(cands_of(scored@).to_multiset().add(population@.to_multiset()) =~= old(
                population,
            )@.to_multiset());
        }
    }
    proof {
        assert(population@.to_multiset().len() == 0);
        assert(population@.to_multiset() =~= Multiset::<Seq<u8>>::empty());
        assert(cands_of(scored@).to_multiset() =~= old(population)@.to_multiset());
    }
    let r = sort_pairs(scored);
    proof {
        lemma_map_values_multiset(r@, scored@, pair_cand_fn());
        assert(cands_of(r@).to_multiset() == cands_of(scored@).to_multiset());
        assert(r@.to_multiset().len() == scored@.to_multiset().len());
        assert forall|t: int| 0 <= t < r@.len() implies (#[trigger] r@[t]).0 == score_spec(
            r@[t].1@,
        ) && is_candidate(r@[t].1@) by {
            assert(r@.contains(r@[t]));
            assert(r@.to_multiset().count(r@[t]) > 0);
            assert(scored@.to_multiset().count(r@[t]) > 0);
            assert(scored@.contains(r@[t]));
            let u = choose|u: int| 0 <= u < scored@.len() && scored@[u] == r@[t];
            assert(scored@[u].0 == score_spec(scored@[u].1@));
        }
    }
    r
}

/// Truncation selection: keep the `POPULATION_SIZE` lowest-scoring members
/// (all of them, if there are fewer), as a fresh population in ascending
/// score order.  Every kept member was in the input; no discarded member
/// scores better than a kept one; the input's best member survives.
#[verifier::loop_isolation(false)]
pub fn select(population: Population) -> (new_pop: Population)
    requires
        population.wf(),
    ensures
        new_pop.wf(),
        new_pop@.len() == if population@.len() < POPULATION_SIZE {
            population@.len() as int
        } else {
            POPULATION_SIZE as int
        },
        forall|t: int| 0 <= t < new_pop@.len() ==> population@.contains(#[trigger] new_pop@[t]),
        forall|s: int, t: int|
            0 <= s < t < new_pop@.len() ==> score_spec(#[trigger] new_pop@[s]) <= score_spec(
                #[trigger] new_pop@[t],
            ),
        forall|x: Seq<u8>|
            #![trigger population@.contains(x)]
            population@.contains(x) && !new_pop@.contains(x) ==> (forall|t: int|
                0 <= t < new_pop@.len() ==> score_spec(#[trigger] new_pop@[t]) <= score_spec(x)),
        population@.len() > 0 ==> new_pop@.len() > 0 && (forall|x: Seq<u8>|
            #![trigger population@.contains(x)]
            population@.contains(x) ==> score_spec(new_pop@[0]) <= score_spec(x)),
{
    broadcast use vstd::seq_lib::group_to_multiset_ensures;
    broadcast use vstd::multiset::group_multiset_axioms;

    let ghost orig = population@;
    let mut population = population;
    let pairs = eval_all(&mut population);
    proof {
        orig.lemma_multiset_has_no_duplicates();
        cands_of(pairs@).lemma_multiset_has_no_duplicates_conv();
        assert(cands_of(pairs@).no_duplicates());
    }
    let keep = if pairs.len() < POPULATION_SIZE {
        pairs.len()
    } else {
        POPULATION_SIZE
    };
    let mut out = Population::new();
    let mut t: usize = 0;
    while t < keep
        invariant
            t <= keep,
            out.wf(),
            out@ == cands_of(pairs@).take(t as int),
        decreases keep - t,
    {
        let c = clone_candidate(&pairs[t].1);
        proof {
            assert(c@ == cands_of(pairs@)[t as int]);
            assert(!out@.contains(c@)) by {
                if out@.contains(c@) {
                    let u = choose|u: int| 0 <= u < out@.len() && out@[u] == c@;
                    assert(cands_of(pairs@)[u] == cands_of(pairs@)[t as int]);
                }
            }
        }
        let added = out.insert(c);
        proof {
            assert(out@ =~= cands_of(pairs@).take(t as int + 1));
        }
        t = t + 1;
    }
    proof {
        let cs = cands_of(pairs@);
        assert(out@.len() == keep);
        // every kept member came from the input
        assert forall|u: int| 0 <= u < out@.len() implies orig.contains(#[trigger] out@[u]) by {
            assert(out@[u] == cs[u]);
            assert(cs.contains(cs[u]));
            assert(cs.to_multiset().count(cs[u]) > 0);
            assert(orig.to_multiset().count(cs[u]) > 0);
            assert(orig.contains(cs[u]));
        }
        // kept members are in ascending score order
        assert forall|s: int, u: int| 0 <= s < u < out@.len() implies score_spec(
            #[trigger] out@[s],
        ) <= score_spec(#[trigger] out@[u]) by {
            assert(out@[s] == cs[s] && cs[s] == pairs@[s].1@);
            assert(out@[u] == cs[u] && cs[u] == pairs@[u].1@);
            assert(pairs@[s].0 <= pairs@[u].0);
        }
        // no discarded member scores better than a kept one
        assert forall|x: Seq<u8>|
            #![trigger orig.contains(x)]
            orig.contains(x) && !out@.contains(x) implies (forall|u: int|
            0 <= u < out@.len() ==> score_spec(#[trigger] out@[u]) <= score_spec(x)) by {
            assert(orig.to_multiset().count(x) > 0);
            assert(cs.to_multiset().count(x) > 0);
            assert(cs.contains(x));
            let w = choose|w: int| 0 <= w < cs.len() && cs[w] == x;
            assert(w >= keep) by {
                if w < keep {
                    assert(out@[w] == cs[w]);
                    assert(out@.contains(x));
                }
            }
            assert(pairs@[w].1@ == x);
            assert(pairs@[w].0 == score_spec(x));
            assert forall|u: int| 0 <= u < out@.len() implies score_spec(#[trigger] out@[u])
                <= score_spec(x) by {
                assert(out@[u] == cs[u] && cs[u] == pairs@[u].1@);
                assert(pairs@[u].0 <= pairs@[w].0);
            }
        }
        // the input's best member survives at the front
        if orig.len() > 0 {
            assert(out@.len() > 0);
            assert forall|x: Seq<u8>|
                #![trigger orig.contains(x)]
                orig.contains(x) implies score_spec(out@[0]) <= score_spec(x) by {
                assert(orig.to_multiset().count(x) > 0);
                assert(cs.to_multiset().count(x) > 0);
                assert(cs.contains(x));
                let w = choose|w: int| 0 <= w < cs.len() && cs[w] == x;
                assert(pairs@[w].1@ == x);
                assert(pairs@[w].0 == score_spec(x));
                assert(out@[0] == cs[0] && cs[0] == pairs@[0].1@);
                if w > 0 {
                    assert(pairs@[0].0 <= pairs@[w].0);
                }
            }
        }
    }
    out
}

} // verus!
