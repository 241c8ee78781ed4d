use magic_hexagon::population::Population;

fn canonical_solution() -> Vec<u8> {
    vec![3, 17, 18, 19, 7, 1, 11, 16, 2, 5, 6, 9, 12, 4, 8, 14, 10, 13, 15]
}

fn identity() -> Vec<u8> {
    (1..20).collect()
}

#[test]
fn insert_deduplicates() {
    let mut p = Population::new();
    assert_eq!(p.len(), 0);
    assert!(p.insert(canonical_solution()));
    assert_eq!(p.len(), 1);
    // a structurally identical candidate collapses to the same member
    assert!(!p.insert(canonical_solution()));
    assert_eq!(p.len(), 1);
}

#[test]
fn insert_distinct_grows() {
    let mut p = Population::new();
    assert!(p.insert(canonical_solution()));
    assert!(p.insert(identity()));
    assert_eq!(p.len(), 2);
    assert!(p.contains(&canonical_solution()));
    assert!(p.contains(&identity()));
    assert_eq!(p.member(0), &canonical_solution());
    assert_eq!(p.member(1), &identity());
}

#[test]
fn take_last_returns_last_inserted() {
    let mut p = Population::new();
    p.insert(canonical_solution());
    p.insert(identity());
    assert_eq!(p.take_last(), identity());
    assert_eq!(p.take_last(), canonical_solution());
    assert_eq!(p.len(), 0);
}
