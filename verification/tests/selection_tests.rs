use magic_hexagon::fitness::eval_single;
use magic_hexagon::population::Population;
use magic_hexagon::report::population_stats;
use magic_hexagon::selection::eval_all;
use magic_hexagon::selection::select;

fn canonical_solution() -> Vec<u8> {
    vec![3, 17, 18, 19, 7, 1, 11, 16, 2, 5, 6, 9, 12, 4, 8, 14, 10, 13, 15]
}

fn identity() -> Vec<u8> {
    (1..20).collect()
}

fn reversed() -> Vec<u8> {
    (1..20).rev().collect()
}

fn small_population() -> Population {
    let mut p = Population::new();
    p.insert(identity());
    p.insert(canonical_solution());
    p.insert(reversed());
    p
}

#[test]
fn eval_all_sorts_scores_and_empties() {
    let mut p = small_population();
    let pairs = eval_all(&mut p);
    assert_eq!(p.len(), 0);
    assert_eq!(pairs.len(), 3);
    for w in pairs.windows(2) {
        assert!(w[0].0 <= w[1].0);
    }
    for (score, cand) in &pairs {
        assert_eq!(*score, eval_single(cand));
    }
    // the perfect arrangement comes first
    assert_eq!(pairs[0].0, 0);
    assert_eq!(pairs[0].1, canonical_solution());
}

#[test]
fn select_keeps_everything_small_and_best_first() {
    let p = small_population();
    let kept = select(p);
    // fewer members than the target size: all are kept
    assert_eq!(kept.len(), 3);
    assert_eq!(kept.member(0), &canonical_solution());
    assert!(kept.contains(&identity()));
    assert!(kept.contains(&reversed()));
}

#[test]
fn stats_exact_values() {
    let mut p = Population::new();
    p.insert(canonical_solution());
    p.insert(identity());
    let st = population_stats(&p).expect("population is not empty");
    assert_eq!(st.count, 2);
    assert_eq!(st.min, 0);
    assert_eq!(st.max, 708);
    assert_eq!(st.total, 708);
    assert_eq!(st.best, canonical_solution());
    // the population itself is untouched
    assert_eq!(p.len(), 2);
}

#[test]
fn stats_of_empty_population_is_none() {
    let p = Population::new();
    assert!(population_stats(&p).is_none());
}

#[test]
fn eval_all_of_empty_population_is_empty() {
    let mut p = Population::new();
    let pairs = eval_all(&mut p);
    assert!(pairs.is_empty());
    assert_eq!(p.len(), 0);
}

#[test]
fn select_of_empty_population_is_empty() {
    let p = Population::new();
    let kept = select(p);
    assert_eq!(kept.len(), 0);
}
