use rag_core::error::ErrorKind;
use rag_core::index::{IndexConfig, IndexManager, IndexSnapshot};
use std::collections::HashMap;
use rag_core::ranking::Neighbour;

fn small(capacity: usize) -> IndexConfig {
    IndexConfig {
        dimension: 4,
        max_capacity: capacity,
        connectivity: 16,
        build_effort: 100,
        search_effort: 200,
    }
}

/// What the structure found, in this order and each one step farther
/// than the one before it.
fn found(ids: &[usize]) -> Vec<Neighbour> {
    let mut out: Vec<Neighbour> = Vec::new();
    let mut distance: u32 = 0;
    for id in ids {
        out.push(Neighbour { id: *id, distance });
        distance += 1;
    }
    out
}

fn documents(entries: &[(usize, &str)]) -> HashMap<usize, String> {
    entries.iter().map(|(id, text)| (*id, text.to_string())).collect()
}

/// A snapshot of an index built for vectors of length 4.
fn snapshot_of(keys: Vec<usize>, entries: &[(usize, &str)]) -> IndexSnapshot {
    IndexSnapshot { dimension: 4, keys, documents: documents(entries) }
}

#[test]
fn reference_parameters() {
    let c = IndexConfig::reference();
    assert_eq!(c.dimension, 384);
    assert_eq!(c.max_capacity, 1000);
    assert_eq!(c.connectivity, 16);
    assert_eq!(c.build_effort, 100);
    assert_eq!(c.search_effort, 200);
}

#[test]
fn new_index_is_empty() {
    let m = IndexManager::new(small(10));
    assert_eq!(m.len(), 0);
    assert_eq!(m.next_id(), 0);
    assert!(m.keys().is_empty());
    assert!(m.documents().is_empty());
    assert_eq!(m.config().dimension, 4);
    assert_eq!(m.config().max_capacity, 10);
}

#[test]
fn search_of_an_empty_index_is_empty() {
    let m = IndexManager::new(small(10));
    assert_eq!(m.effective_k(3), 0);
    assert_eq!(m.search(&found(&[]), 3), Vec::<usize>::new());
    assert_eq!(m.search(&found(&[1, 2, 3]), 3), Vec::<usize>::new());
}

#[test]
fn search_for_zero_neighbours_is_empty() {
    let mut m = IndexManager::new(small(10));
    m.insert("alpha", "1").unwrap();
    m.insert("beta", "2").unwrap();
    assert_eq!(m.effective_k(0), 0);
    assert_eq!(m.search(&found(&[1, 2]), 0), Vec::<usize>::new());
}

#[test]
fn insert_with_a_given_identifier_uses_it() {
    let mut m = IndexManager::new(small(10));
    let done = m.insert("alpha", "17").unwrap();
    assert_eq!(done.id, 17);
    assert!(done.fresh);
    assert_eq!(m.resolve_text(17), Some(&"alpha".to_string()));
    assert_eq!(m.next_id(), 0);
    assert_eq!(m.keys(), &vec![17]);
    assert!(m.has_key(17));
    assert!(!m.has_key(16));
}

#[test]
fn insert_without_identifier_draws_from_the_counter() {
    let mut m = IndexManager::new(small(10));
    let a = m.insert("alpha", "").unwrap();
    let b = m.insert("beta", "not a number").unwrap();
    let c = m.insert("gamma", "-3").unwrap();
    assert_eq!((a.id, b.id, c.id), (0, 1, 2));
    assert_eq!(m.next_id(), 3);
    assert_eq!(m.resolve_text(1), Some(&"beta".to_string()));
    assert_eq!(m.keys(), &vec![0, 1, 2]);
}

#[test]
fn assigned_identifiers_never_repeat() {
    let mut m = IndexManager::new(small(50));
    let mut seen: Vec<usize> = Vec::new();
    let mut round: usize = 0;
    while round < 20 {
        let done = m.insert("text", "auto").unwrap();
        assert!(!seen.contains(&done.id));
        seen.push(done.id);
        if round % 3 == 0 {
            m.soft_delete(done.id);
        }
        if round % 4 == 0 {
            m.insert("given", "40").unwrap();
        }
        round += 1;
    }
    assert_eq!(seen.len(), 20);
}

#[test]
fn insert_under_a_live_identifier_replaces_the_text() {
    let mut m = IndexManager::new(small(10));
    m.insert("old", "5").unwrap();
    let again = m.insert("new", "5").unwrap();
    assert_eq!(again.id, 5);
    assert!(!again.fresh);
    assert_eq!(m.resolve_text(5), Some(&"new".to_string()));
    assert_eq!(m.len(), 1);
    assert_eq!(m.documents().len(), 1);
}

#[test]
fn a_full_index_rejects_a_new_entry() {
    let mut m = IndexManager::new(small(2));
    m.insert("a", "1").unwrap();
    m.insert("b", "2").unwrap();
    let r = m.insert("c", "3");
    assert_eq!(r.err(), Some(ErrorKind::IndexCapacity));
    assert_eq!(m.len(), 2);
    assert_eq!(m.resolve_text(3), None);
    assert_eq!(m.keys(), &vec![1, 2]);
    let auto = m.insert("d", "");
    assert_eq!(auto.err(), Some(ErrorKind::IndexCapacity));
    assert_eq!(m.next_id(), 0);
}

#[test]
fn a_full_index_still_replaces() {
    let mut m = IndexManager::new(small(2));
    m.insert("a", "1").unwrap();
    m.insert("b", "2").unwrap();
    let again = m.insert("bb", "2").unwrap();
    assert!(!again.fresh);
    assert_eq!(m.resolve_text(2), Some(&"bb".to_string()));
}

#[test]
fn an_index_of_no_capacity_takes_nothing() {
    let mut m = IndexManager::new(small(0));
    assert_eq!(m.insert("a", "1").err(), Some(ErrorKind::IndexCapacity));
    assert_eq!(m.len(), 0);
}

#[test]
fn soft_delete_removes_the_text_and_keeps_the_entry() {
    let mut m = IndexManager::new(small(10));
    m.insert("alpha", "1").unwrap();
    m.insert("beta", "2").unwrap();
    assert!(!m.is_tombstone(1));
    assert!(m.soft_delete(1));
    assert_eq!(m.resolve_text(1), None);
    assert_eq!(m.resolve_text(2), Some(&"beta".to_string()));
    assert_eq!(m.len(), 2);
    assert!(m.is_tombstone(1));
    assert!(!m.is_tombstone(2));
    assert!(!m.is_tombstone(3));
    let listed: Vec<usize> = m.documents().keys().copied().collect();
    assert_eq!(listed, vec![2]);
}

#[test]
fn soft_delete_of_an_unknown_identifier_changes_nothing() {
    let mut m = IndexManager::new(small(10));
    m.insert("alpha", "1").unwrap();
    assert!(!m.soft_delete(9));
    assert!(m.soft_delete(1));
    assert!(!m.soft_delete(1));
    assert_eq!(m.len(), 1);
}

#[test]
fn a_deleted_document_is_not_found_by_search() {
    let mut m = IndexManager::new(small(10));
    m.insert("alpha", "1").unwrap();
    m.insert("beta", "2").unwrap();
    m.insert("gamma", "3").unwrap();
    m.soft_delete(2);
    assert_eq!(m.search(&found(&[2, 1, 3]), 3), vec![1, 3]);
    assert_eq!(m.search(&found(&[2]), 3), Vec::<usize>::new());
}

#[test]
fn a_deleted_document_can_be_stored_again() {
    let mut m = IndexManager::new(small(10));
    m.insert("alpha", "1").unwrap();
    m.soft_delete(1);
    let again = m.insert("alpha two", "1").unwrap();
    assert!(!again.fresh);
    assert!(!m.is_tombstone(1));
    assert_eq!(m.search(&found(&[1]), 1), vec![1]);
    assert_eq!(m.resolve_text(1), Some(&"alpha two".to_string()));
}

#[test]
fn search_keeps_the_ranking_and_stops_at_k() {
    let mut m = IndexManager::new(small(10));
    m.insert("a", "1").unwrap();
    m.insert("b", "2").unwrap();
    m.insert("c", "3").unwrap();
    m.insert("d", "4").unwrap();
    assert_eq!(m.search(&found(&[3, 1, 4, 2]), 2), vec![3, 1]);
    assert_eq!(m.search(&found(&[3, 1, 4, 2]), 4), vec![3, 1, 4, 2]);
    assert_eq!(m.search(&found(&[3, 1, 4, 2]), 9), vec![3, 1, 4, 2]);
    assert_eq!(m.search(&found(&[4]), 2), vec![4]);
}

#[test]
fn search_leaves_out_unknown_identifiers() {
    let mut m = IndexManager::new(small(10));
    m.insert("a", "1").unwrap();
    m.insert("b", "2").unwrap();
    assert_eq!(m.search(&found(&[7, 2, 8, 1]), 2), vec![2, 1]);
}

#[test]
fn search_returns_no_more_than_the_index_holds() {
    let mut m = IndexManager::new(small(10));
    m.insert("a", "1").unwrap();
    assert_eq!(m.effective_k(3), 1);
    assert_eq!(m.effective_k(1), 1);
    assert_eq!(m.search(&found(&[1, 1, 1]), 3), vec![1]);
    assert_eq!(m.search(&found(&[1]), 3), vec![1]);
}

#[test]
fn an_inserted_document_ranked_first_is_the_first_hit() {
    let mut m = IndexManager::new(small(10));
    m.insert("other", "1").unwrap();
    let done = m.insert("the document", "").unwrap();
    let hits = m.search(&found(&[done.id, 1]), 3);
    assert_eq!(hits[0], done.id);
    assert_eq!(m.texts_of(&hits), vec!["the document".to_string(), "other".to_string()]);
}

#[test]
fn texts_of_follows_the_identifiers() {
    let mut m = IndexManager::new(small(10));
    m.insert("a", "1").unwrap();
    m.insert("b", "2").unwrap();
    assert_eq!(m.texts_of(&vec![2, 1, 2]), vec!["b".to_string(), "a".to_string(), "b".to_string()]);
    assert_eq!(m.texts_of(&vec![]), Vec::<String>::new());
}

#[test]
fn initialize_without_snapshot_starts_empty() {
    let (m, restored) = IndexManager::initialize(small(10), None);
    assert!(!restored);
    assert_eq!(m.len(), 0);
    assert_eq!(m.next_id(), 0);
}

#[test]
fn initialize_restores_a_valid_snapshot() {
    let snapshot = snapshot_of(vec![4, 9, 2], &[(9, "nine"), (2, "two")]);
    let (m, restored) = IndexManager::initialize(small(10), Some(snapshot));
    assert!(restored);
    assert_eq!(m.keys(), &vec![4, 9, 2]);
    assert_eq!(m.resolve_text(9), Some(&"nine".to_string()));
    assert_eq!(m.resolve_text(2), Some(&"two".to_string()));
    assert_eq!(m.resolve_text(4), None);
    assert!(m.is_tombstone(4));
    assert_eq!(m.next_id(), 10);
}

#[test]
fn initialize_seeds_the_counter_above_the_documents() {
    let snapshot = snapshot_of(vec![0, 5], &[(0, "zero")]);
    let (mut m, restored) = IndexManager::initialize(small(10), Some(snapshot));
    assert!(restored);
    assert_eq!(m.next_id(), 1);
    let done = m.insert("next", "").unwrap();
    assert_eq!(done.id, 1);
    assert!(done.fresh);
}

#[test]
fn initialize_with_an_empty_snapshot() {
    let snapshot = snapshot_of(vec![], &[]);
    let (m, restored) = IndexManager::initialize(small(10), Some(snapshot));
    assert!(restored);
    assert_eq!(m.len(), 0);
    assert_eq!(m.next_id(), 0);
}

#[test]
fn initialize_falls_back_on_a_repeated_key() {
    let snapshot = snapshot_of(vec![1, 2, 1], &[(1, "one")]);
    let (m, restored) = IndexManager::initialize(small(10), Some(snapshot));
    assert!(!restored);
    assert_eq!(m.len(), 0);
    assert_eq!(m.resolve_text(1), None);
}

#[test]
fn initialize_falls_back_on_another_dimension() {
    let mut snapshot = snapshot_of(vec![1, 2], &[(1, "one")]);
    snapshot.dimension = 5;
    let (m, restored) = IndexManager::initialize(small(10), Some(snapshot));
    assert!(!restored);
    assert_eq!(m.len(), 0);
    assert_eq!(m.resolve_text(1), None);
    assert_eq!(m.config().dimension, 4);
}

#[test]
fn initialize_falls_back_on_a_document_without_entry() {
    let snapshot = snapshot_of(vec![1], &[(2, "two")]);
    let (m, restored) = IndexManager::initialize(small(10), Some(snapshot));
    assert!(!restored);
    assert_eq!(m.len(), 0);
    assert_eq!(m.next_id(), 0);
}

#[test]
fn initialize_falls_back_on_too_many_keys() {
    let snapshot = snapshot_of(vec![1, 2, 3], &[]);
    let (m, restored) = IndexManager::initialize(small(2), Some(snapshot));
    assert!(!restored);
    assert_eq!(m.len(), 0);
}

#[test]
fn the_counter_is_exhausted_at_the_greatest_identifier() {
    let snapshot = snapshot_of(vec![usize::MAX], &[(usize::MAX, "last")]);
    let (mut m, restored) = IndexManager::initialize(small(10), Some(snapshot));
    assert!(restored);
    assert_eq!(m.next_id(), usize::MAX);
    assert_eq!(m.insert("more", "").err(), Some(ErrorKind::IndexCapacity));
    assert_eq!(m.len(), 1);
    let given = m.insert("given", "3").unwrap();
    assert_eq!(given.id, 3);
}

#[test]
fn insert_without_embedding_fails_and_changes_nothing() {
    let mut m = IndexManager::new(small(10));
    m.insert("a", "1").unwrap();
    let r = m.insert_encoded("b", "", None);
    assert_eq!(r.err(), Some(ErrorKind::Encode));
    assert_eq!(m.len(), 1);
    assert_eq!(m.next_id(), 0);
    assert_eq!(m.documents().len(), 1);
}

#[test]
fn insert_with_embedding_stores_the_text() {
    let mut m = IndexManager::new(small(10));
    let done = m.insert_encoded("b", "8", Some(4)).unwrap();
    assert_eq!(done.id, 8);
    assert!(done.fresh);
    assert_eq!(m.resolve_text(8), Some(&"b".to_string()));
}

#[test]
fn delete_document_reads_the_identifier() {
    let mut m = IndexManager::new(small(10));
    m.insert("a", "1").unwrap();
    assert_eq!(m.delete_document("abc"), Err(ErrorKind::Validation));
    assert_eq!(m.delete_document(""), Err(ErrorKind::Validation));
    assert_eq!(m.resolve_text(1), Some(&"a".to_string()));
    assert_eq!(m.delete_document("2"), Ok(false));
    assert_eq!(m.delete_document("1"), Ok(true));
    assert_eq!(m.resolve_text(1), None);
    assert_eq!(m.delete_document("+1"), Ok(false));
}

#[test]
fn search_puts_the_nearest_first_whatever_the_order_found() {
    let mut m = IndexManager::new(small(10));
    m.insert("a", "1").unwrap();
    m.insert("b", "2").unwrap();
    m.insert("c", "3").unwrap();
    let unsorted = vec![
        Neighbour { id: 1, distance: 30 },
        Neighbour { id: 2, distance: 10 },
        Neighbour { id: 3, distance: 20 },
    ];
    assert_eq!(m.search(&unsorted, 3), vec![2, 3, 1]);
    assert_eq!(m.search(&unsorted, 2), vec![2, 3]);
    assert_eq!(m.search(&unsorted, 1), vec![2]);
}

#[test]
fn search_breaks_ties_by_insertion_order() {
    let mut m = IndexManager::new(small(10));
    m.insert("first", "9").unwrap();
    m.insert("second", "4").unwrap();
    m.insert("third", "7").unwrap();
    let tied = vec![
        Neighbour { id: 7, distance: 5 },
        Neighbour { id: 4, distance: 5 },
        Neighbour { id: 9, distance: 5 },
    ];
    assert_eq!(m.search(&tied, 3), vec![9, 4, 7]);
    assert_eq!(m.search(&tied, 1), vec![9]);
    let mixed = vec![
        Neighbour { id: 7, distance: 5 },
        Neighbour { id: 4, distance: 1 },
        Neighbour { id: 9, distance: 5 },
    ];
    assert_eq!(m.search(&mixed, 3), vec![4, 9, 7]);
}

#[test]
fn a_tie_with_a_deleted_entry_goes_to_the_live_one() {
    let mut m = IndexManager::new(small(10));
    m.insert("first", "1").unwrap();
    m.insert("second", "2").unwrap();
    m.soft_delete(1);
    let tied = vec![Neighbour { id: 2, distance: 0 }, Neighbour { id: 1, distance: 0 }];
    assert_eq!(m.search(&tied, 2), vec![2]);
}

#[test]
fn an_inserted_document_found_nearest_is_the_first_hit() {
    let mut m = IndexManager::new(small(10));
    m.insert("other", "1").unwrap();
    m.insert("another", "2").unwrap();
    let done = m.insert("the document", "").unwrap();
    let near = vec![
        Neighbour { id: 2, distance: 900 },
        Neighbour { id: 1, distance: 400 },
        Neighbour { id: done.id, distance: 0 },
    ];
    assert_eq!(m.search(&near, 3)[0], done.id);
    assert_eq!(m.search(&near, 1), vec![done.id]);
}

#[test]
fn texts_of_passes_over_identifiers_without_text() {
    let mut m = IndexManager::new(small(10));
    m.insert("a", "1").unwrap();
    m.insert("b", "2").unwrap();
    m.soft_delete(1);
    assert_eq!(m.texts_of(&vec![1, 2, 5]), vec!["b".to_string()]);
}

#[test]
fn a_snapshot_restores_the_index() {
    let mut m = IndexManager::new(small(10));
    m.insert("a", "4").unwrap();
    m.insert("b", "").unwrap();
    m.insert("c", "9").unwrap();
    m.soft_delete(4);
    let snapshot = m.snapshot();
    assert_eq!(snapshot.keys, vec![4, 0, 9]);
    assert_eq!(snapshot.dimension, 4);
    assert_eq!(snapshot.documents, documents(&[(0, "b"), (9, "c")]));
    let (again, restored) = IndexManager::initialize(small(10), Some(snapshot));
    assert!(restored);
    assert_eq!(again.keys(), m.keys());
    assert_eq!(again.resolve_text(0), Some(&"b".to_string()));
    assert_eq!(again.resolve_text(9), Some(&"c".to_string()));
    assert_eq!(again.resolve_text(4), None);
    assert!(again.is_tombstone(4));
    assert_eq!(again.next_id(), 10);
}

#[test]
fn a_failed_write_is_reported_and_the_document_stays() {
    let mut m = IndexManager::new(small(10));
    let done = m.insert("a", "3").unwrap();
    assert_eq!(done.persisted(false), Err(ErrorKind::Persistence));
    assert_eq!(m.resolve_text(3), Some(&"a".to_string()));
    assert_eq!(done.persisted(true), Ok(3));
}

#[test]
fn initialize_falls_back_where_one_of_many_documents_has_no_entry() {
    let snapshot = snapshot_of(vec![1, 2, 3], &[(1, "one"), (2, "two"), (7, "seven")]);
    let (m, restored) = IndexManager::initialize(small(10), Some(snapshot));
    assert!(!restored);
    assert_eq!(m.len(), 0);
    let all = snapshot_of(vec![1, 2, 3], &[(1, "one"), (2, "two"), (3, "three")]);
    let (m, restored) = IndexManager::initialize(small(10), Some(all));
    assert!(restored);
    assert_eq!(m.next_id(), 4);
    assert!(m.is_live(3));
    assert!(!m.is_live(4));
}
