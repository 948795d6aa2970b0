use rag_core::cache::{CacheEntry, QueryCache};

fn texts(items: &[&str]) -> Vec<String> {
    items.iter().map(|s| s.to_string()).collect()
}

#[test]
fn a_new_cache_has_no_entry() {
    let cache = QueryCache::new();
    assert_eq!(cache.len(), 0);
    assert_eq!(cache.lookup("anything"), None);
    assert_eq!(cache.lookup(""), None);
}

#[test]
fn store_then_lookup_returns_the_texts_in_order() {
    let mut cache = QueryCache::new();
    cache.store("q", texts(&["a", "b", "c"]));
    assert_eq!(cache.lookup("q"), Some(&texts(&["a", "b", "c"])));
    cache.store("r", texts(&["c", "a", "b"]));
    assert_eq!(cache.lookup("r"), Some(&texts(&["c", "a", "b"])));
    assert_eq!(cache.lookup("q"), Some(&texts(&["a", "b", "c"])));
}

#[test]
fn a_trailing_space_is_another_key() {
    let mut cache = QueryCache::new();
    cache.store("foo", texts(&["x"]));
    assert_eq!(cache.lookup("foo "), None);
    assert_eq!(cache.lookup(" foo"), None);
    assert_eq!(cache.lookup("Foo"), None);
    assert_eq!(cache.lookup("fo"), None);
    assert_eq!(cache.lookup("foo"), Some(&texts(&["x"])));
}

#[test]
fn a_second_store_replaces_the_first() {
    let mut cache = QueryCache::new();
    cache.store("q", texts(&["a", "b"]));
    cache.store("q", texts(&["c"]));
    assert_eq!(cache.lookup("q"), Some(&texts(&["c"])));
    assert_eq!(cache.len(), 1);
    assert_eq!(cache.entries().len(), 1);
}

#[test]
fn an_empty_result_is_cached_as_such() {
    let mut cache = QueryCache::new();
    cache.store("nothing", Vec::new());
    assert_eq!(cache.lookup("nothing"), Some(&Vec::<String>::new()));
}

#[test]
fn the_empty_query_is_a_key_like_any_other() {
    let mut cache = QueryCache::new();
    cache.store("", texts(&["e"]));
    assert_eq!(cache.lookup(""), Some(&texts(&["e"])));
    assert_eq!(cache.lookup(" "), None);
}

#[test]
fn restore_keeps_the_later_of_two_entries() {
    let entries = vec![
        CacheEntry { query: "q".to_string(), results: texts(&["old"]) },
        CacheEntry { query: "p".to_string(), results: texts(&["p1", "p2"]) },
        CacheEntry { query: "q".to_string(), results: texts(&["new"]) },
    ];
    let cache = QueryCache::restore(entries);
    assert_eq!(cache.len(), 2);
    assert_eq!(cache.lookup("q"), Some(&texts(&["new"])));
    assert_eq!(cache.lookup("p"), Some(&texts(&["p1", "p2"])));
}

#[test]
fn restore_of_nothing_is_empty() {
    let cache = QueryCache::restore(Vec::new());
    assert_eq!(cache.len(), 0);
}

#[test]
fn store_entry_stores_under_its_query() {
    let mut cache = QueryCache::new();
    cache.store_entry(CacheEntry { query: "k".to_string(), results: texts(&["v"]) });
    assert_eq!(cache.lookup("k"), Some(&texts(&["v"])));
    let queries: Vec<String> = cache.entries().iter().map(|e| e.query.clone()).collect();
    assert_eq!(queries, vec!["k".to_string()]);
}

#[test]
fn len_counts_the_queries() {
    let mut cache = QueryCache::new();
    cache.store("a", texts(&["1"]));
    cache.store("b", texts(&[]));
    cache.store("a", texts(&["2"]));
    cache.store("a ", texts(&["3"]));
    assert_eq!(cache.len(), 3);
}
