//! The fixed board: 19 cells, 15 straight lines.
//!
//! Cells are numbered row by row:
//!
//! ```text
//!     00  01  02
//!   03  04  05  06
//! 07  08  09  10  11
//!   12  13  14  15
//!     16  17  18
//! ```

use vstd::prelude::*;

verus! {

/// The magic constant every line of a perfect arrangement sums to.
pub const MAGIC: i64 = 38;

/// The 15 straight lines of the board, each as the cell indices it crosses:
/// five horizontal rows, five lines sloping one way, five the other.
pub open spec fn lines_spec() -> Seq<Seq<usize>> {
    seq![
        seq![0usize, 1, 2],
        seq![3usize, 4, 5, 6],
        seq![7usize, 8, 9, 10, 11],
        seq![12usize, 13, 14, 15],
        seq![16usize, 17, 18],
        seq![0usize, 3, 7],
        seq![1usize, 4, 8, 12],
        seq![2usize, 5, 9, 13, 16],
        seq![6usize, 10, 14, 17],
        seq![11usize, 15, 18],
        seq![2usize, 6, 11],
        seq![1usize, 5, 10, 15],
        seq![0usize, 4, 9, 14, 18],
        seq![3usize, 8, 13, 17],
        seq![7usize, 12, 16],
    ]
}

/// A well-formed line: between 3 and 5 cells, all on the board, no cell twice.
pub open spec fn line_wf(l: Seq<usize>) -> bool {
    &&& 3 <= l.len() <= 5
    &&& forall|j: int| 0 <= j < l.len() ==> #[trigger] l[j] < 19
    &&& forall|j1: int, j2: int| 0 <= j1 < j2 < l.len() ==> l[j1] != l[j2]
}

/// Every line of the board is well-formed.
pub proof fn lemma_lines_wf()
    ensures
        lines_spec().len() == 15,
        forall|k: int| 0 <= k < 15 ==> line_wf(#[trigger] lines_spec()[k]),
{
    assert forall|k: int| 0 <= k < 15 implies line_wf(#[trigger] lines_spec()[k]) by {
        if k == 0 {
            assert(line_wf(lines_spec()[0]));
        } else if k == 1 {
            assert(line_wf(lines_spec()[1]));
        } else if k == 2 {
            assert(line_wf(lines_spec()[2]));
        } else if k == 3 {
            assert(line_wf(lines_spec()[3]));
        } else if k == 4 {
            assert(line_wf(lines_spec()[4]));
        } else if k == 5 {
            assert(line_wf(lines_spec()[5]));
        } else if k == 6 {
            assert(line_wf(lines_spec()[6]));
        } else if k == 7 {
            assert(line_wf(lines_spec()[7]));
        } else if k == 8 {
            assert(line_wf(lines_spec()[8]));
        } else if k == 9 {
            assert(line_wf(lines_spec()[9]));
        } else if k == 10 {
            assert(line_wf(lines_spec()[10]));
        } else if k == 11 {
            assert(line_wf(lines_spec()[11]));
        } else if k == 12 {
            assert(line_wf(lines_spec()[12]));
        } else if k == 13 {
            assert(line_wf(lines_spec()[13]));
        } else {
            assert(line_wf(lines_spec()[14]));
        }
    }
}

fn line3(a: usize, b: usize, c: usize) -> (r: Vec<usize>)
    ensures
        r@ =~= seq![a, b, c],
{
    let mut r: Vec<usize> = Vec::new();
    r.push(a);
    r.push(b);
    r.push(c);
    r
}

fn line4(a: usize, b: usize, c: usize, d: usize) -> (r: Vec<usize>)
    ensures
        r@ =~= seq![a, b, c, d],
{
    let mut r: Vec<usize> = Vec::new();
    r.push(a);
    r.push(b);
    r.push(c);
    r.push(d);
    r
}

fn line5(a: usize, b: usize, c: usize, d: usize, e: usize) -> (r: Vec<usize>)
    ensures
        r@ =~= seq![a, b, c, d, e],
{
    let mut r: Vec<usize> = Vec::new();
    r.push(a);
    r.push(b);
    r.push(c);
    r.push(d);
    r.push(e);
    r
}

/// The `k`-th line of the board, as runtime data.
pub fn line(k: usize) -> (r: Vec<usize>)
    requires
        k < 15,
    ensures
        r@ == lines_spec()[k as int],
{
    let r = match k {
        0 => line3(0, 1, 2),
        1 => line4(3, 4, 5, 6),
        2 => line5(7, 8, 9, 10, 11),
        3 => line4(12, 13, 14, 15),
        4 => line3(16, 17, 18),
        5 => line3(0, 3, 7),
        6 => line4(1, 4, 8, 12),
        7 => line5(2, 5, 9, 13, 16),
        8 => line4(6, 10, 14, 17),
        9 => line3(11, 15, 18),
        10 => line3(2, 6, 11),
        11 => line4(1, 5, 10, 15),
        12 => line5(0, 4, 9, 14, 18),
        13 => line4(3, 8, 13, 17),
        _ => line3(7, 12, 16),
    };
    assert(r@ =~= lines_spec()[k as int]);
    r
}

} // verus!
