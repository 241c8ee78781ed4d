use magic_hexagon::evolve::generate_population;
use magic_hexagon::evolve::mutate_population;
use magic_hexagon::report::population_stats;
use magic_hexagon::selection::select;

#[test]
fn one_full_generation_cycle() {
    let mut rng = rand::rng();
    let mut population = generate_population(&mut rng).expect("the attempt ceiling is ample");
    assert_eq!(population.len(), 10000);

    mutate_population(&mut population, &mut rng);
    let expanded_len = population.len();
    assert!((10000..=20000).contains(&expanded_len));

    let before = population_stats(&population).expect("population is not empty");

    let selected = select(population);
    assert_eq!(selected.len(), 10000);

    let after = population_stats(&selected).expect("population is not empty");
    // selection never discards the round's best candidate
    assert_eq!(after.min, before.min);
    // and it cannot improve on it either: it only keeps existing members
    assert!(after.min >= before.min);
    assert!(after.max <= before.max);
}
