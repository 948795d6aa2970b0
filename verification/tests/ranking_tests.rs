use rag_core::ranking::{position, rank, Neighbour};

fn near(id: usize, distance: u32) -> Neighbour {
    Neighbour { id, distance }
}

fn pairs(found: &[Neighbour]) -> Vec<(usize, u32)> {
    found.iter().map(|n| (n.id, n.distance)).collect()
}

#[test]
fn position_is_the_place_among_the_keys() {
    let keys = vec![7, 3, 9];
    assert_eq!(position(&keys, 7), 0);
    assert_eq!(position(&keys, 3), 1);
    assert_eq!(position(&keys, 9), 2);
}

#[test]
fn position_of_an_unknown_identifier_is_behind_all_keys() {
    let keys = vec![7, 3, 9];
    assert_eq!(position(&keys, 4), 3);
    assert_eq!(position(&Vec::new(), 4), 0);
}

#[test]
fn rank_sorts_by_distance() {
    let keys = vec![1, 2, 3, 4];
    let found = vec![near(1, 40), near(2, 10), near(3, 30), near(4, 20)];
    assert_eq!(pairs(&rank(&keys, &found)), vec![(2, 10), (4, 20), (3, 30), (1, 40)]);
}

#[test]
fn rank_breaks_ties_by_insertion_order() {
    let keys = vec![30, 10, 20];
    let found = vec![near(20, 7), near(10, 7), near(30, 7)];
    assert_eq!(pairs(&rank(&keys, &found)), vec![(30, 7), (10, 7), (20, 7)]);
}

#[test]
fn rank_puts_unknown_identifiers_behind_known_ones_of_the_same_distance() {
    let keys = vec![5];
    let found = vec![near(9, 1), near(2, 1), near(5, 1), near(9, 0)];
    assert_eq!(pairs(&rank(&keys, &found)), vec![(9, 0), (5, 1), (2, 1), (9, 1)]);
}

#[test]
fn rank_keeps_every_entry_found() {
    let keys = vec![1, 2];
    let found = vec![near(1, 3), near(1, 3), near(2, 0), near(1, 1)];
    assert_eq!(pairs(&rank(&keys, &found)), vec![(2, 0), (1, 1), (1, 3), (1, 3)]);
}

#[test]
fn rank_of_nothing_is_empty() {
    assert!(rank(&vec![1, 2], &Vec::new()).is_empty());
    assert_eq!(pairs(&rank(&Vec::new(), &vec![near(1, 0)])), vec![(1, 0)]);
}

#[test]
fn rank_handles_the_extreme_distances() {
    let keys = vec![1, 2, 3];
    let found = vec![near(1, u32::MAX), near(2, 0), near(3, u32::MAX)];
    assert_eq!(pairs(&rank(&keys, &found)), vec![(2, 0), (1, u32::MAX), (3, u32::MAX)]);
}

#[test]
fn rank_agrees_with_a_stable_sort_by_distance_and_place() {
    let keys: Vec<usize> = vec![11, 4, 8, 15, 16, 23, 42];
    let mut found: Vec<Neighbour> = Vec::new();
    let mut seed: u32 = 12345;
    let mut round: usize = 0;
    while round < 40 {
        seed = seed.wrapping_mul(1103515245).wrapping_add(12345);
        let id = keys[(seed >> 16) as usize % keys.len()];
        seed = seed.wrapping_mul(1103515245).wrapping_add(12345);
        found.push(near(id, (seed >> 16) % 5));
        round += 1;
    }
    let mut expected = found.clone();
    expected.sort_by_key(|n| (n.distance, keys.iter().position(|k| *k == n.id).unwrap(), n.id));
    assert_eq!(pairs(&rank(&keys, &found)), pairs(&expected));
}
