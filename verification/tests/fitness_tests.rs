use magic_hexagon::evolve::generate_new_candidate;
use magic_hexagon::fitness::eval_single;

/// A known magic hexagon, row by row; every line sums to 38.
fn canonical_solution() -> Vec<u8> {
    vec![3, 17, 18, 19, 7, 1, 11, 16, 2, 5, 6, 9, 12, 4, 8, 14, 10, 13, 15]
}

#[test]
fn canonical_solution_scores_zero() {
    let c = canonical_solution();
    assert_eq!(eval_single(&c), 0);
}

#[test]
fn perturbed_solution_scores_positive() {
    // Swapping two distinct values breaks at least one line sum.
    let mut c = canonical_solution();
    c.swap(0, 1);
    assert!(eval_single(&c) > 0);
}

#[test]
fn identity_arrangement_exact_score() {
    let c: Vec<u8> = (1..20).collect();
    assert_eq!(eval_single(&c), 708);
}

#[test]
fn random_candidate_score_nonnegative() {
    let mut rng = rand::rng();
    for _ in 0..50 {
        let c = generate_new_candidate(&mut rng);
        assert!(eval_single(&c) >= 0);
    }
}

#[test]
fn board_lines_well_formed() {
    let mut seen_per_cell = [0usize; 19];
    for k in 0..15 {
        let l = magic_hexagon::topology::line(k);
        assert!(3 <= l.len() && l.len() <= 5);
        for (a, &cell) in l.iter().enumerate() {
            assert!(cell < 19);
            seen_per_cell[cell] += 1;
            for &other in &l[..a] {
                assert_ne!(cell, other);
            }
        }
    }
    // every cell lies on exactly one line of each of the three directions
    for count in seen_per_cell {
        assert_eq!(count, 3);
    }
}

#[test]
fn score_identical_for_identical_candidates() {
    let c1 = canonical_solution();
    let c2 = canonical_solution();
    assert_eq!(eval_single(&c1), eval_single(&c2));
    let i1: Vec<u8> = (1..20).collect();
    let i2: Vec<u8> = (1..20).collect();
    assert_eq!(eval_single(&i1), eval_single(&i2));
}
