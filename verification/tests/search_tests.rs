use magic_hexagon::fitness::eval_single;
use magic_hexagon::population::Population;
use magic_hexagon::search::run_generation;
use magic_hexagon::search::run_generations;

fn small_population() -> Population {
    let mut p = Population::new();
    p.insert((1..20).collect());
    p.insert((1..20).rev().collect());
    p.insert(vec![2, 1, 3, 4, 5, 6, 7, 8, 9, 10, 11, 12, 13, 14, 15, 16, 17, 18, 19]);
    p
}

fn best_score(p: &Population) -> i64 {
    (0..p.len()).map(|i| eval_single(p.member(i))).min().unwrap()
}

#[test]
fn one_generation_never_worsens_the_best() {
    let mut rng = rand::rng();
    let p = small_population();
    let best_before = best_score(&p);
    let next = run_generation(p, &mut rng);
    // three members went in, so at least three come out
    assert!(next.len() >= 3);
    assert!(next.len() <= 10000);
    // the front member is a best member, and no worse than the old best
    let front = eval_single(next.member(0));
    assert_eq!(front, best_score(&next));
    assert!(front <= best_before);
}

#[test]
fn several_generations_never_worsen_the_best() {
    let mut rng = rand::rng();
    let p = small_population();
    let best_before = best_score(&p);
    let result = run_generations(p, &mut rng, 5);
    assert!(result.len() >= 3);
    assert!(result.len() <= 10000);
    assert!(eval_single(result.member(0)) <= best_before);
}
