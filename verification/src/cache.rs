//! The query cache: for a query, word for word, the texts that were
//! retrieved for it, in their ranking order.
//!
//! Entries do not expire and are not dropped when documents are inserted or
//! deleted: a hit can be older than the index.

use vstd::prelude::*;
use crate::models::views;
use crate::text::{clone_texts, same_text};

verus! {

/// One cached retrieval.
#[derive(Debug)]
pub struct CacheEntry {
    /// The query, exactly as it was asked.
    pub query: String,
    /// The texts retrieved for it, best first.
    pub results: Vec<String>,
}

/// Whether some entry is for the query `q`.
pub open spec fn has_query(entries: Seq<CacheEntry>, q: Seq<char>) -> bool {
    exists|i: int| 0 <= i < entries.len() && (#[trigger] entries[i]).query@ == q
}

/// The position of the entry for the query `q`.
pub open spec fn position_of_query(entries: Seq<CacheEntry>, q: Seq<char>) -> int {
    choose|i: int| 0 <= i < entries.len() && (#[trigger] entries[i]).query@ == q
}

/// Whether no two entries are for the same query.
pub open spec fn distinct_queries(entries: Seq<CacheEntry>) -> bool {
    forall|i: int, j: int|
        0 <= i < j < entries.len() ==> (#[trigger] entries[i]).query@ != (
        #[trigger] entries[j]).query@
}

/// The cache that the entries write down.
pub open spec fn cache_map(entries: Seq<CacheEntry>) -> Map<Seq<char>, Seq<Seq<char>>> {
    Map::new(
        |q: Seq<char>| has_query(entries, q),
        |q: Seq<char>| views(entries[position_of_query(entries, q)].results@),
    )
}

/// The cache after `entries` were stored into `cache` one after the other:
/// of two entries for one query the later one stays.
pub open spec fn stored_all(
    cache: Map<Seq<char>, Seq<Seq<char>>>,
    entries: Seq<CacheEntry>,
) -> Map<Seq<char>, Seq<Seq<char>>>
    decreases entries.len(),
{
    if entries.len() == 0 {
        cache
    } else {
        stored_all(cache, entries.drop_last()).insert(
            entries.last().query@,
            views(entries.last().results@),
        )
    }
}

/// What a lookup of `q` finds in `cache`.
pub open spec fn cached(cache: Map<Seq<char>, Seq<Seq<char>>>, q: Seq<char>) -> Option<
    Seq<Seq<char>>,
> {
    if cache.contains_key(q) {
        Some(cache[q])
    } else {
        None
    }
}

proof fn lemma_has_query(entries: Seq<CacheEntry>, q: Seq<char>)
    requires
        has_query(entries, q),
    ensures
        0 <= position_of_query(entries, q) < entries.len(),
        entries[position_of_query(entries, q)].query@ == q,
{
}

proof fn lemma_position_of_query(entries: Seq<CacheEntry>, i: int)
    requires
        distinct_queries(entries),
        0 <= i < entries.len(),
    ensures
        has_query(entries, entries[i].query@),
        position_of_query(entries, entries[i].query@) == i,
{
    let j = position_of_query(entries, entries[i].query@);
    assert(entries[i].query@ == entries[i].query@);
    if j < i {
        assert(entries[j].query@ != entries[i].query@);
    } else if i < j {
        assert(entries[i].query@ != entries[j].query@);
    }
}

proof fn lemma_cache_map_push(entries: Seq<CacheEntry>, e: CacheEntry)
    requires
        distinct_queries(entries),
        !has_query(entries, e.query@),
    ensures
        distinct_queries(entries.push(e)),
        cache_map(entries.push(e)) == cache_map(entries).insert(e.query@, views(e.results@)),
{
    let after = entries.push(e);
    assert forall|i: int, j: int| 0 <= i < j < after.len() implies (#[trigger] after[i]).query@ != (
    #[trigger] after[j]).query@ by {
        if j == entries.len() {
            assert(entries[i].query@ != e.query@);
        } else {
            assert(entries[i].query@ != entries[j].query@);
        }
    }
    let want = cache_map(entries).insert(e.query@, views(e.results@));
    assert forall|q: Seq<char>| cache_map(after).contains_key(q) <==> want.contains_key(q) by {
        if has_query(after, q) {
            lemma_has_query(after, q);
            let i = position_of_query(after, q);
            if i < entries.len() {
                assert(entries[i].query@ == q);
            }
        }
        if has_query(entries, q) {
            lemma_has_query(entries, q);
            assert(after[position_of_query(entries, q)].query@ == q);
        }
        if q == e.query@ {
            assert(after[entries.len() as int].query@ == q);
        }
    }
    assert forall|q: Seq<char>| cache_map(after).contains_key(q) implies cache_map(after)[q]
        == want[q] by {
        if q == e.query@ {
            lemma_position_of_query(after, entries.len() as int);
        } else {
            lemma_has_query(after, q);
            let i = position_of_query(after, q);
            assert(entries[i].query@ == q);
            lemma_position_of_query(entries, i);
        }
    }
    assert(cache_map(after) =~= want);
}

proof fn lemma_cache_map_update(entries: Seq<CacheEntry>, i: int, e: CacheEntry)
    requires
        distinct_queries(entries),
        0 <= i < entries.len(),
        e.query@ == entries[i].query@,
    ensures
        distinct_queries(entries.update(i, e)),
        cache_map(entries.update(i, e)) == cache_map(entries).insert(e.query@, views(e.results@)),
{
    let after = entries.update(i, e);
    assert forall|a: int, b: int| 0 <= a < b < after.len() implies (#[trigger] after[a]).query@ != (
    #[trigger] after[b]).query@ by {
        assert(entries[a].query@ != entries[b].query@);
    }
    let want = cache_map(entries).insert(e.query@, views(e.results@));
    assert forall|q: Seq<char>| cache_map(after).contains_key(q) <==> want.contains_key(q) by {
        if has_query(after, q) {
            lemma_has_query(after, q);
            assert(entries[position_of_query(after, q)].query@ == q);
        }
        if has_query(entries, q) {
            lemma_has_query(entries, q);
            assert(after[position_of_query(entries, q)].query@ == q);
        }
        if q == e.query@ {
            assert(after[i].query@ == q);
        }
    }
    assert forall|q: Seq<char>| cache_map(after).contains_key(q) implies cache_map(after)[q]
        == want[q] by {
        lemma_has_query(after, q);
        let a = position_of_query(after, q);
        if q == e.query@ {
            lemma_position_of_query(after, i);
        } else {
            assert(entries[a].query@ == q);
            lemma_position_of_query(entries, a);
        }
    }
    assert(cache_map(after) =~= want);
}

proof fn lemma_cache_map_len(entries: Seq<CacheEntry>)
    requires
        distinct_queries(entries),
    ensures
        cache_map(entries).dom().finite(),
        cache_map(entries).dom().len() == entries.len(),
    decreases entries.len(),
{
    if entries.len() == 0 {
        assert(cache_map(entries).dom() =~= Set::<Seq<char>>::empty());
    } else {
        let rest = entries.drop_last();
        let last = entries.last();
        assert forall|i: int, j: int| 0 <= i < j < rest.len() implies (#[trigger] rest[i]).query@ != (
        #[trigger] rest[j]).query@ by {
            assert(entries[i].query@ != entries[j].query@);
        }
        if has_query(rest, last.query@) {
            lemma_has_query(rest, last.query@);
            let i = position_of_query(rest, last.query@);
            assert(entries[i].query@ != entries[entries.len() - 1].query@);
        }
        lemma_cache_map_len(rest);
        lemma_cache_map_push(rest, last);
        assert(rest.push(last) =~= entries);
        assert(cache_map(entries).dom() =~= cache_map(rest).dom().insert(last.query@));
    }
}

/// The cache of retrievals, keyed by the exact text of the query.
pub struct QueryCache {
    entries: Vec<CacheEntry>,
}

impl View for QueryCache {
    type V = Map<Seq<char>, Seq<Seq<char>>>;

    closed spec fn view(&self) -> Map<Seq<char>, Seq<Seq<char>>> {
        cache_map(self.entries@)
    }
}

impl QueryCache {
    /// The invariant of the cache: one entry per query.
    pub closed spec fn wf(&self) -> bool {
        distinct_queries(self.entries@)
    }

    /// A cache without entries.
    pub fn new() -> (cache: QueryCache)
        ensures
            cache.wf(),
            cache@ == Map::<Seq<char>, Seq<Seq<char>>>::empty(),
    {
        let cache = QueryCache { entries: Vec::new() };
        assert(cache@ =~= Map::<Seq<char>, Seq<Seq<char>>>::empty());
        cache
    }

    /// The cache that holds the persisted `entries`, stored in their order.
    pub fn restore(entries: Vec<CacheEntry>) -> (cache: QueryCache)
        ensures
            cache.wf(),
            cache@ == stored_all(Map::empty(), entries@),
    {
        let mut cache = QueryCache::new();
        let mut i: usize = 0;
        assert(entries@.take(0) =~= Seq::<CacheEntry>::empty());
        while i < entries.len()
            invariant
                cache.wf(),
                i <= entries@.len(),
                cache@ == stored_all(Map::empty(), entries@.take(i as int)),
            decreases entries@.len() - i,
        {
            let entry = &entries[i];
            assert(entries@.take(i + 1).drop_last() =~= entries@.take(i as int));
            assert(entries@.take(i + 1).last() == entries@[i as int]);
            cache.store(entry.query.as_str(), clone_texts(&entry.results));
            i += 1;
        }
        assert(entries@.take(entries@.len() as int) =~= entries@);
        cache
    }

    /// The number of cached queries.
    pub fn len(&self) -> (n: usize)
        requires
            self.wf(),
        ensures
            self@.dom().finite(),
            n == self@.dom().len(),
    {
        proof {
            lemma_cache_map_len(self.entries@);
        }
        self.entries.len()
    }

    /// The entries, as they are persisted.
    pub fn entries(&self) -> (entries: &Vec<CacheEntry>)
        requires
            self.wf(),
        ensures
            distinct_queries(entries@),
            cache_map(entries@) == self@,
    {
        &self.entries
    }

    /// The texts cached for `query`. Only the very same text is a hit: no
    /// trimming, no folding of case.
    pub fn lookup(&self, query: &str) -> (hit: Option<&Vec<String>>)
        requires
            self.wf(),
        ensures
            hit is Some == self@.contains_key(query@),
            hit matches Some(texts) ==> Some(views(texts@)) == cached(self@, query@),
            hit is None ==> cached(self@, query@) is None,
    {
        match self.find(query) {
            Some(i) => {
                proof {
                    lemma_position_of_query(self.entries@, i as int);
                }
                Some(&self.entries[i].results)
            },
            None => None,
        }
    }

    /// Caches `results` for `query`, in place of what was cached for it.
    pub fn store(&mut self, query: &str, results: Vec<String>)
        requires
            old(self).wf(),
        ensures
            final(self).wf(),
            final(self)@ == old(self)@.insert(query@, views(results@)),
    {
        self.store_entry(CacheEntry { query: query.to_owned(), results });
    }

    /// Caches one entry, in place of the entry for the same query.
    pub fn store_entry(&mut self, entry: CacheEntry)
        requires
            old(self).wf(),
        ensures
            final(self).wf(),
            final(self)@ == old(self)@.insert(entry.query@, views(entry.results@)),
    {
        match self.find(entry.query.as_str()) {
            Some(i) => {
                proof {
                    lemma_cache_map_update(self.entries@, i as int, entry);
                }
                self.entries.set(i, entry);
            },
            None => {
                proof {
                    lemma_cache_map_push(self.entries@, entry);
                }
                self.entries.push(entry);
            },
        }
    }

    /// The position of the entry for `query`.
    fn find(&self, query: &str) -> (at: Option<usize>)
        ensures
            at is Some == has_query(self.entries@, query@),
            at matches Some(i) ==> i < self.entries@.len() && self.entries@[i as int].query@
                == query@,
    {
        let mut i: usize = 0;
        while i < self.entries.len()
            invariant
                i <= self.entries@.len(),
                forall|j: int| 0 <= j < i ==> (#[trigger] self.entries@[j]).query@ != query@,
            decreases self.entries@.len() - i,
        {
            if same_text(self.entries[i].query.as_str(), query) {
                return Some(i);
            }
            i += 1;
        }
        None
    }
}

/// A lookup that follows a store of the same query returns what was
/// stored, in the same order.
pub proof fn lemma_store_then_lookup(
    cache: Map<Seq<char>, Seq<Seq<char>>>,
    query: Seq<char>,
    results: Seq<Seq<char>>,
)
    ensures
        cached(cache.insert(query, results), query) == Some(results),
{
}

/// A store changes nothing for any other query, however close: a lookup of
/// a different text finds what it found before.
pub proof fn lemma_store_keeps_others(
    cache: Map<Seq<char>, Seq<Seq<char>>>,
    query: Seq<char>,
    results: Seq<Seq<char>>,
    other: Seq<char>,
)
    requires
        other != query,
    ensures
        cached(cache.insert(query, results), other) == cached(cache, other),
{
}

/// A query with a space added at its end is a different key: after a store
/// of `query` into a cache that has nothing for the longer text, a lookup
/// of the longer text is a miss.
pub proof fn lemma_trailing_space_is_another_key(
    cache: Map<Seq<char>, Seq<Seq<char>>>,
    query: Seq<char>,
    results: Seq<Seq<char>>,
)
    requires
        !cache.contains_key(query.push(' ')),
    ensures
        cached(cache.insert(query, results), query.push(' ')) is None,
{
    assert(query.push(' ').len() != query.len());
}

/// Of two stores for one query the second one wins: nothing is merged.
pub proof fn lemma_store_replaces(
    cache: Map<Seq<char>, Seq<Seq<char>>>,
    query: Seq<char>,
    first: Seq<Seq<char>>,
    second: Seq<Seq<char>>,
)
    ensures
        cache.insert(query, first).insert(query, second) == cache.insert(query, second),
{
    assert(cache.insert(query, first).insert(query, second) =~= cache.insert(query, second));
}

} // verus!
