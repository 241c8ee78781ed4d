//! Candidate arrangements: permutations of the values 1..=19, one value per
//! board cell, stored in cell order.

use vstd::prelude::*;

verus! {

/// The values a candidate arranges: 1 through 19, in order.
pub open spec fn base_seq() -> Seq<u8> {
    seq![1u8, 2, 3, 4, 5, 6, 7, 8, 9, 10, 11, 12, 13, 14, 15, 16, 17, 18, 19]
}

/// A candidate arrangement holds exactly the values 1..=19, each once.
pub open spec fn is_candidate(s: Seq<u8>) -> bool {
    s.to_multiset() == base_seq().to_multiset()
}

/// A candidate has exactly 19 values.
pub proof fn lemma_candidate_len(s: Seq<u8>)
    requires
        is_candidate(s),
    ensures
        s.len() == 19,
{
    s.to_multiset_ensures();
    base_seq().to_multiset_ensures();
    assert(s.to_multiset().len() == base_seq().to_multiset().len());
}

/// The arrangement 1,2,...,19 in cell order.
pub fn base_candidate() -> (r: Vec<u8>)
    ensures
        r@ == base_seq(),
        is_candidate(r@),
{
    let mut r: Vec<u8> = Vec::new();
    r.push(1);
    r.push(2);
    r.push(3);
    r.push(4);
    r.push(5);
    r.push(6);
    r.push(7);
    r.push(8);
    r.push(9);
    r.push(10);
    r.push(11);
    r.push(12);
    r.push(13);
    r.push(14);
    r.push(15);
    r.push(16);
    r.push(17);
    r.push(18);
    r.push(19);
    assert(r@ =~= base_seq());
    r
}

/// A fresh copy of a candidate's values.
pub fn clone_candidate(v: &Vec<u8>) -> (r: Vec<u8>)
    ensures
        r@ == v@,
{
    let mut r: Vec<u8> = Vec::new();
    let mut i: usize = 0;
    while i < v.len()
        invariant
            i <= v@.len(),
            r@ == v@.take(i as int),
        decreases v@.len() - i,
    {
        r.push(v[i]);
        assert(r@ =~= v@.take(i as int + 1));
        i = i + 1;
    }
    assert(v@.take(v@.len() as int) =~= v@);
    r
}

} // verus!
