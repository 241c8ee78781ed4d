//! Scoring a candidate arrangement against the board.
//!
//! For each line the deviation is `38 - (sum of the candidate's values on
//! that line)`.  The score adds two error terms: the total absolute
//! deviation over all lines, and, per cell, the absolute value of the
//! accumulated deviations of every line through that cell, summed over all
//! 19 cells.  A score of zero means a perfect magic hexagon.

use vstd::prelude::*;

use crate::sums::lemma_sum_over_bounds;
use crate::sums::lemma_sum_over_nonneg;
use crate::sums::lemma_sum_over_permutation;
use crate::sums::lemma_sum_over_take_step;
use crate::sums::lemma_sum_over_zero;
use crate::sums::sum_over;
use crate::topology::lemma_lines_wf;
use crate::topology::line;
use crate::topology::line_wf;
use crate::topology::lines_spec;
use crate::topology::MAGIC;

verus! {

/// Sum of the candidate's values at the cells of one line.
pub open spec fn line_sum(c: Seq<u8>, l: Seq<usize>) -> int
    decreases l.len(),
{
    if l.len() == 0 {
        0
    } else {
        line_sum(c, l.drop_last()) + c[l.last() as int]
    }
}

/// How far one line falls short of the magic constant.
pub open spec fn line_dev(c: Seq<u8>, l: Seq<usize>) -> int {
    MAGIC - line_sum(c, l)
}

/// The term one line contributes to the first error term.
pub open spec fn dev_term_fn(c: Seq<u8>) -> spec_fn(Seq<usize>) -> int {
    |l: Seq<usize>| vstd::math::abs(line_dev(c, l)) as int
}

/// First error term: total absolute deviation over the given lines.
pub open spec fn overall_term(c: Seq<u8>, ls: Seq<Seq<usize>>) -> int {
    sum_over(ls, dev_term_fn(c))
}

/// The term one line contributes to cell `i`'s accumulation.
pub open spec fn cell_term_fn(c: Seq<u8>, i: usize) -> spec_fn(Seq<usize>) -> int {
    |l: Seq<usize>| if l.contains(i) {
        line_dev(c, l)
    } else {
        0
    }
}

/// The deviations of every line through cell `i`, accumulated.
pub open spec fn cell_accum(c: Seq<u8>, ls: Seq<Seq<usize>>, i: usize) -> int {
    sum_over(ls, cell_term_fn(c, i))
}

/// Second error term, summed over cells `0..n`.
pub open spec fn per_cell_upto(c: Seq<u8>, ls: Seq<Seq<usize>>, n: int) -> int
    decreases n,
{
    if n <= 0 {
        0
    } else {
        per_cell_upto(c, ls, n - 1) + vstd::math::abs(cell_accum(c, ls, (n - 1) as usize)) as int
    }
}

/// The score of a candidate against a given list of lines.
pub open spec fn score_with(c: Seq<u8>, ls: Seq<Seq<usize>>) -> int {
    overall_term(c, ls) + per_cell_upto(c, ls, 19)
}

/// The score of a candidate against the board's lines.
pub open spec fn score_spec(c: Seq<u8>) -> int {
    score_with(c, lines_spec())
}

proof fn lemma_line_sum_take_step(c: Seq<u8>, l: Seq<usize>, j: int)
    requires
        0 <= j < l.len(),
    ensures
        line_sum(c, l.take(j + 1)) == line_sum(c, l.take(j)) + c[l[j] as int],
{
    assert(l.take(j + 1).drop_last() =~= l.take(j));
    assert(l.take(j + 1).last() == l[j]);
}

fn abs_i64(x: i64) -> (r: i64)
    requires
        x != i64::MIN,
    ensures
        r == vstd::math::abs(x as int),
{
    if x < 0 {
        -x
    } else {
        x
    }
}

/// Score one candidate arrangement.
#[verifier::loop_isolation(false)]
pub fn eval_single(candidate: &Vec<u8>) -> (score: i64)
    requires
        candidate@.len() == 19,
    ensures
        score == score_spec(candidate@),
{
    proof {
        lemma_lines_wf();
    }
    let ghost gls = lines_spec();
    let mut field_scores: Vec<i64> = vec![0i64; 19];
    assert(forall|i: int|
        0 <= i < 19 ==> #[trigger] field_scores@[i] == cell_accum(candidate@, gls.take(0), i as usize));
    let mut overall: i64 = 0;
    let mut k: usize = 0;
    while k < 15
        invariant
            k <= 15,
            field_scores@.len() == 19,
            0 <= overall <= 1275 * k,
            overall == overall_term(candidate@, gls.take(k as int)),
            forall|i: int|
                0 <= i < 19 ==> #[trigger] field_scores@[i] == cell_accum(
                    candidate@,
                    gls.take(k as int),
                    i as usize,
                ),
            forall|i: int| 0 <= i < 19 ==> -1275 * k <= #[trigger] field_scores@[i] <= 1275 * k,
        decreases 15 - k,
    {
        let row = line(k);
        let mut s: i64 = 0;
        let mut j: usize = 0;
        while j < row.len()
            invariant
                j <= row@.len(),
                row@ == gls[k as int],
                k < 15,
                0 <= s <= 255 * j,
                s == line_sum(candidate@, row@.take(j as int)),
            decreases row@.len() - j,
        {
            let idx = row[j];
            assert(idx < 19);
            s = s + candidate[idx] as i64;
            proof {
                lemma_line_sum_take_step(candidate@, row@, j as int);
            }
            j = j + 1;
        }
        assert(row@.take(row@.len() as int) =~= row@);
        let row_score: i64 = MAGIC - s;
        assert(row_score == line_dev(candidate@, gls[k as int]));
        proof {
            assert forall|i: int|
                #![trigger cell_accum(candidate@, gls.take(k as int), i as usize)]
                0 <= i < 19 implies -1275 * (k as int) <= cell_accum(
                candidate@,
                gls.take(k as int),
                i as usize,
            ) <= 1275 * (k as int) by {
                assert(field_scores@[i] == cell_accum(candidate@, gls.take(k as int), i as usize));
            }
        }
        j = 0;
        while j < row.len()
            invariant
                j <= row@.len(),
                row@ == gls[k as int],
                k < 15,
                field_scores@.len() == 19,
                -1237 <= row_score <= 38,
                row_score == line_dev(candidate@, row@),
                forall|i: int|
                    0 <= i < 19 ==> #[trigger] field_scores@[i] == cell_accum(
                        candidate@,
                        gls.take(k as int),
                        i as usize,
                    ) + if row@.take(j as int).contains(i as usize) {
                        row_score as int
                    } else {
                        0
                    },
                forall|i: int|
                    #![trigger cell_accum(candidate@, gls.take(k as int), i as usize)]
                    0 <= i < 19 ==> -1275 * (k as int) <= cell_accum(
                        candidate@,
                        gls.take(k as int),
                        i as usize,
                    ) <= 1275 * (k as int),
                forall|i: int|
                    0 <= i < 19 ==> -1275 * (k + 1) <= #[trigger] field_scores@[i] <= 1275 * (k
                        + 1),
            decreases row@.len() - j,
        {
            let idx = row[j];
            assert(idx < 19);
            assert(!row@.take(j as int).contains(idx)) by {
                if row@.take(j as int).contains(idx) {
                    let t = choose|t: int| 0 <= t < j && row@.take(j as int)[t] == idx;
                    assert(row@[t] == row@[j as int]);
                }
            }
            let cur = field_scores[idx];
            assert(cur == cell_accum(candidate@, gls.take(k as int), idx));
            field_scores[idx] = cur + row_score;
            proof {
                assert(row@.take(j as int + 1) =~= row@.take(j as int).push(row@[j as int]));
                assert forall|i: int|
                    #![trigger row@.take(j as int + 1).contains(i as usize)]
                    0 <= i < 19 && i != idx implies (row@.take(
                    j as int + 1,
                ).contains(i as usize) <==> row@.take(j as int).contains(i as usize)) by {
                    let pre = row@.take(j as int);
                    if pre.contains(i as usize) {
                        let t = choose|t: int| 0 <= t < pre.len() && pre[t] == i as usize;
                        assert(pre.push(row@[j as int])[t] == i as usize);
                    }
                    if pre.push(row@[j as int]).contains(i as usize) {
                        let t = choose|t: int|
                            0 <= t < pre.len() + 1 && pre.push(row@[j as int])[t] == i as usize;
                        if t < pre.len() {
                            assert(pre[t] == i as usize);
                        }
                    }
                }
                assert(row@.take(j as int + 1)[j as int] == idx);
                assert(row@.take(j as int + 1).contains(idx));
            }
            j = j + 1;
        }
        assert(row@.take(row@.len() as int) =~= row@);
        proof {
            assert forall|i: int|
                #![trigger cell_accum(candidate@, gls.take(k as int + 1), i as usize)]
                0 <= i < 19 implies cell_accum(
                candidate@,
                gls.take(k as int + 1),
                i as usize,
            ) == cell_accum(candidate@, gls.take(k as int), i as usize) + if row@.contains(
                i as usize,
            ) {
                row_score as int
            } else {
                0
            } by {
                lemma_sum_over_take_step(gls, cell_term_fn(candidate@, i as usize), k as int);
                assert(cell_term_fn(candidate@, i as usize)(gls[k as int]) == if row@.contains(
                    i as usize,
                ) {
                    line_dev(candidate@, row@)
                } else {
                    0
                });
            }
        }
        overall = overall + abs_i64(row_score);
        proof {
            lemma_sum_over_take_step(gls, dev_term_fn(candidate@), k as int);
            assert(dev_term_fn(candidate@)(gls[k as int]) == vstd::math::abs(
                line_dev(candidate@, row@),
            ) as int);
        }
        k = k + 1;
    }
    assert(gls.take(15) =~= gls);
    let mut total: i64 = overall;
    let mut i: usize = 0;
    while i < 19
        invariant
            i <= 19,
            total == overall + per_cell_upto(candidate@, gls, i as int),
            0 <= total <= 19125 + 19125 * i,
        decreases 19 - i,
    {
        let v = field_scores[i];
        total = total + abs_i64(v);
        i = i + 1;
    }
    total
}

proof fn lemma_per_cell_upto_nonneg(c: Seq<u8>, ls: Seq<Seq<usize>>, n: int)
    ensures
        per_cell_upto(c, ls, n) >= 0,
    decreases n,
{
    if n > 0 {
        lemma_per_cell_upto_nonneg(c, ls, n - 1);
    }
}

proof fn lemma_per_cell_upto_zero(c: Seq<u8>, ls: Seq<Seq<usize>>, n: int)
    requires
        forall|i: usize| (i as int) < n ==> #[trigger] cell_accum(c, ls, i) == 0,
    ensures
        per_cell_upto(c, ls, n) == 0,
    decreases n,
{
    if n > 0 {
        lemma_per_cell_upto_zero(c, ls, n - 1);
        assert(cell_accum(c, ls, (n - 1) as usize) == 0);
    }
}

proof fn lemma_per_cell_upto_eq(c: Seq<u8>, ls1: Seq<Seq<usize>>, ls2: Seq<Seq<usize>>, n: int)
    requires
        forall|i: usize| (i as int) < n ==> #[trigger] cell_accum(c, ls1, i) == cell_accum(
            c,
            ls2,
            i,
        ),
    ensures
        per_cell_upto(c, ls1, n) == per_cell_upto(c, ls2, n),
    decreases n,
{
    if n > 0 {
        lemma_per_cell_upto_eq(c, ls1, ls2, n - 1);
        assert(cell_accum(c, ls1, (n - 1) as usize) == cell_accum(c, ls2, (n - 1) as usize));
    }
}

proof fn lemma_per_cell_upto_bound(c: Seq<u8>, ls: Seq<Seq<usize>>, n: int, b: int)
    requires
        0 <= n,
        b >= 0,
        forall|i: usize| (i as int) < n ==> vstd::math::abs(#[trigger] cell_accum(c, ls, i)) <= b,
    ensures
        per_cell_upto(c, ls, n) <= n * b,
    decreases n,
{
    if n <= 0 {
    } else {
        lemma_per_cell_upto_bound(c, ls, n - 1, b);
        assert(vstd::math::abs(cell_accum(c, ls, (n - 1) as usize)) <= b);
        assert((n - 1) * b + b == n * b) by (nonlinear_arith);
    }
}

/// The score is nonnegative, and zero exactly when every line of the board
/// sums to the magic constant.
pub proof fn lemma_score_nonneg_zero(c: Seq<u8>)
    ensures
        score_spec(c) >= 0,
        score_spec(c) == 0 <==> (forall|k: int|
            0 <= k < 15 ==> line_sum(c, #[trigger] lines_spec()[k]) == MAGIC),
{
    let ls = lines_spec();
    let f = dev_term_fn(c);
    assert forall|k: int| 0 <= k < ls.len() implies #[trigger] f(ls[k]) >= 0 by {
        assert(f(ls[k]) == vstd::math::abs(line_dev(c, ls[k])) as int);
    }
    lemma_sum_over_nonneg(ls, f);
    lemma_per_cell_upto_nonneg(c, ls, 19);
    if forall|k: int| 0 <= k < 15 ==> line_sum(c, #[trigger] ls[k]) == MAGIC {
        assert forall|k: int| 0 <= k < ls.len() implies #[trigger] f(ls[k]) == 0 by {
            assert(line_sum(c, ls[k]) == MAGIC);
        }
        lemma_sum_over_zero(ls, f);
        assert forall|i: usize| (i as int) < 19 implies #[trigger] cell_accum(c, ls, i) == 0 by {
            let g = cell_term_fn(c, i);
            assert forall|k: int| 0 <= k < ls.len() implies #[trigger] g(ls[k]) == 0 by {
                assert(line_sum(c, ls[k]) == MAGIC);
            }
            lemma_sum_over_zero(ls, g);
        }
        lemma_per_cell_upto_zero(c, ls, 19);
        assert(score_spec(c) == 0);
    }
    if score_spec(c) == 0 {
        assert(overall_term(c, ls) == 0);
        assert forall|k: int| 0 <= k < 15 implies line_sum(c, #[trigger] ls[k]) == MAGIC by {
            assert(sum_over(ls, f) >= f(ls[k]));
            assert(f(ls[k]) == vstd::math::abs(line_dev(c, ls[k])) as int);
        }
    }
}

/// The score is a function of the candidate's values alone: equal
/// candidates score equally.
pub proof fn lemma_score_deterministic(c1: Seq<u8>, c2: Seq<u8>)
    requires
        c1 == c2,
    ensures
        score_spec(c1) == score_spec(c2),
{
}

/// Listing the board's lines in another order leaves every score unchanged.
pub proof fn lemma_score_line_order(c: Seq<u8>, ls: Seq<Seq<usize>>)
    requires
        ls.to_multiset() == lines_spec().to_multiset(),
    ensures
        score_with(c, ls) == score_spec(c),
{
    lemma_sum_over_permutation(ls, lines_spec(), dev_term_fn(c));
    assert forall|i: usize| (i as int) < 19 implies #[trigger] cell_accum(c, ls, i) == cell_accum(
        c,
        lines_spec(),
        i,
    ) by {
        lemma_sum_over_permutation(ls, lines_spec(), cell_term_fn(c, i));
    }
    lemma_per_cell_upto_eq(c, ls, lines_spec(), 19);
}

/// Every score of a 19-cell arrangement lies in a small fixed range.
pub proof fn lemma_score_bounds(c: Seq<u8>)
    requires
        c.len() == 19,
    ensures
        0 <= score_spec(c) <= 371100,
{
    lemma_lines_wf();
    let ls = lines_spec();
    let f = dev_term_fn(c);
    assert forall|k: int| 0 <= k < ls.len() implies 0 <= #[trigger] f(ls[k]) <= 1237 by {
        lemma_line_sum_bounds(c, ls[k]);
        assert(f(ls[k]) == vstd::math::abs(line_dev(c, ls[k])) as int);
    }
    lemma_sum_over_bounds(ls, f, 0, 1237);
    assert forall|i: usize| (i as int) < 19 implies vstd::math::abs(
        #[trigger] cell_accum(c, ls, i),
    ) <= 18555 by {
        let g = cell_term_fn(c, i);
        assert forall|k: int| 0 <= k < ls.len() implies -1237 <= #[trigger] g(ls[k]) <= 1237 by {
            lemma_line_sum_bounds(c, ls[k]);
        }
        lemma_sum_over_bounds(ls, g, -1237, 1237);
    }
    lemma_per_cell_upto_bound(c, ls, 19, 18555);
    lemma_per_cell_upto_nonneg(c, ls, 19);
}

proof fn lemma_line_sum_bounds(c: Seq<u8>, l: Seq<usize>)
    requires
        line_wf(l),
    ensures
        0 <= line_sum(c, l) <= 1275,
{
    lemma_line_sum_bounds_rec(c, l, l.len() as int);
    assert(l.take(l.len() as int) =~= l);
}

proof fn lemma_line_sum_bounds_rec(c: Seq<u8>, l: Seq<usize>, n: int)
    requires
        0 <= n <= l.len(),
        l.len() <= 5,
    ensures
        0 <= line_sum(c, l.take(n)) <= 255 * n,
    decreases n,
{
    if n == 0 {
        assert(l.take(0).len() == 0);
    } else {
        lemma_line_sum_bounds_rec(c, l, n - 1);
        lemma_line_sum_take_step(c, l, n - 1);
    }
}

} // verus!
