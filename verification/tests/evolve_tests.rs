use magic_hexagon::evolve::generate_new_candidate;
use magic_hexagon::evolve::generate_population;
use magic_hexagon::evolve::mutate_single;
use magic_hexagon::evolve::mutate_population;
use magic_hexagon::population::Population;

fn is_permutation_of_1_to_19(c: &[u8]) -> bool {
    let mut sorted: Vec<u8> = c.to_vec();
    sorted.sort_unstable();
    sorted == (1..20).collect::<Vec<u8>>()
}

#[test]
fn generated_candidate_is_permutation() {
    let mut rng = rand::rng();
    for _ in 0..100 {
        let c = generate_new_candidate(&mut rng);
        assert!(is_permutation_of_1_to_19(&c));
    }
}

#[test]
fn mutation_preserves_values() {
    let mut rng = rand::rng();
    for _ in 0..200 {
        let c = generate_new_candidate(&mut rng);
        let m = mutate_single(&c, &mut rng);
        assert_eq!(m.len(), c.len());
        // same multiset of values: both are permutations of 1..=19
        assert!(is_permutation_of_1_to_19(&m));
    }
}

#[test]
fn initial_population_full_and_valid() {
    let mut rng = rand::rng();
    let p = generate_population(&mut rng).expect("the attempt ceiling is ample");
    assert_eq!(p.len(), 10000);
    for i in 0..p.len() {
        assert!(is_permutation_of_1_to_19(p.member(i)));
    }
}

#[test]
fn expansion_bounds_on_small_population() {
    let mut rng = rand::rng();
    let mut p = Population::new();
    p.insert(vec![3, 17, 18, 19, 7, 1, 11, 16, 2, 5, 6, 9, 12, 4, 8, 14, 10, 13, 15]);
    p.insert((1..20).collect());
    p.insert((1..20).rev().collect());
    let before = p.len();
    let reached = mutate_population(&mut p, &mut rng);
    assert!(p.len() >= before);
    assert!(p.len() <= 2 * before);
    assert_eq!(reached, p.len() == 2 * before);
    for i in 0..p.len() {
        assert!(is_permutation_of_1_to_19(p.member(i)));
    }
}
