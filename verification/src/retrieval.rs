//! From a query to its context: the cache is asked first, a miss is
//! answered from the index and cached, every text gets its metadata, and the
//! prompt for the completion service is assembled.
//!
//! The steps that need the embedding model, the nearest-neighbour structure
//! or the document store are the caller's: it runs them between the
//! functions of this module and hands their results in.

use vstd::prelude::*;
use vstd::string::StringExecFns;
use crate::cache::{cached, QueryCache};
use crate::index::{IndexManager, IndexState};
use crate::models::{views, DocumentMetadata, SearchResult};
use crate::ranking::Neighbour;
use crate::text::clone_texts;

verus! {

/// How many documents a question is answered from.
pub const DEFAULT_TOP_K: usize = 3;

/// What the first step of a retrieval found.
#[derive(Debug)]
pub enum Retrieval {
    /// The query was cached: these are its texts, and neither the embedding
    /// model nor the index is needed.
    Hit(Vec<String>),
    /// The query was not cached: it is to be embedded and the structure
    /// asked for its `fetch` nearest entries; with `fetch == 0` there is
    /// nothing to ask.
    Miss { fetch: usize },
}

/// The texts a retrieval returns: those cached for the query, else the
/// texts of what a search for `k` makes of what the structure found.
pub open spec fn retrieved(
    cache: Map<Seq<char>, Seq<Seq<char>>>,
    index: IndexState,
    query: Seq<char>,
    found: Seq<Neighbour>,
    k: usize,
) -> Seq<Seq<char>> {
    match cached(cache, query) {
        Some(texts) => texts,
        None => index.texts(index.search(found, k)),
    }
}

/// The cache after a retrieval: a miss caches what it returned, a hit
/// changes nothing.
pub open spec fn cache_after(
    cache: Map<Seq<char>, Seq<Seq<char>>>,
    index: IndexState,
    query: Seq<char>,
    found: Seq<Neighbour>,
    k: usize,
) -> Map<Seq<char>, Seq<Seq<char>>> {
    match cached(cache, query) {
        Some(_) => cache,
        None => cache.insert(query, index.texts(index.search(found, k))),
    }
}

/// Looks `query` up in the cache, and on a miss says how many neighbours to
/// ask of the structure.
pub fn begin_retrieval(cache: &QueryCache, index: &IndexManager, query: &str, k: usize) -> (r:
    Retrieval)
    requires
        cache.wf(),
    ensures
        match r {
            Retrieval::Hit(texts) => cached(cache@, query@) == Some(views(texts@)),
            Retrieval::Miss { fetch } => cached(cache@, query@) is None && fetch
                == index@.effective_k(k),
        },
{
    match cache.lookup(query) {
        Some(texts) => Retrieval::Hit(clone_texts(texts)),
        None => Retrieval::Miss { fetch: index.effective_k(k) },
    }
}

/// Answers a miss: turns what the structure found into texts, nearest
/// first, and caches them for `query`.
pub fn complete_retrieval(
    cache: &mut QueryCache,
    index: &IndexManager,
    query: &str,
    found: &Vec<Neighbour>,
    k: usize,
) -> (texts: Vec<String>)
    requires
        old(cache).wf(),
        index.wf(),
    ensures
        final(cache).wf(),
        views(texts@) == index@.texts(index@.search(found@, k)),
        final(cache)@ == old(cache)@.insert(query@, views(texts@)),
{
    let hits = index.search(found, k);
    proof {
        crate::index_proofs::lemma_search_bounds(index@, found@, k);
        assert forall|i: int| 0 <= i < hits@.len() implies index@.documents.contains_key(
            #[trigger] hits@[i],
        ) by {
            assert(hits@[i] == index@.nearest(found@, k)[i].id);
        }
        crate::index_proofs::lemma_live_hits_of_live(hits@, index@.documents);
    }
    let texts = index.texts_of(&hits);
    cache.store(query, clone_texts(&texts));
    texts
}

/// The metadata at position `i`: what the document store found for the
/// text there, if it found anything.
pub open spec fn found_at(found: Seq<Option<DocumentMetadata>>, i: int) -> Option<
    DocumentMetadata,
> {
    if 0 <= i < found.len() {
        found[i]
    } else {
        None
    }
}

/// Pairs the texts with their metadata, position by position and in the
/// order of the texts. A text for which the store found nothing gets the
/// fallback metadata; nothing fails.
pub fn attach_metadata(documents: Vec<String>, found: Vec<Option<DocumentMetadata>>) -> (r:
    SearchResult)
    ensures
        r.documents == documents,
        r.metadata@.len() == documents@.len(),
        forall|i: int|
            0 <= i < documents@.len() ==> match found_at(found@, i) {
                Some(m) => (#[trigger] r.metadata@[i]) == m,
                None => r.metadata@[i].is_fallback(),
            },
{
    let mut metadata: Vec<DocumentMetadata> = Vec::new();
    let mut i: usize = 0;
    while i < documents.len()
        invariant
            i <= documents@.len(),
            metadata@.len() == i,
            forall|j: int|
                0 <= j < i ==> match found_at(found@, j) {
                    Some(m) => (#[trigger] metadata@[j]) == m,
                    None => metadata@[j].is_fallback(),
                },
        decreases documents@.len() - i,
    {
        if i < found.len() {
            match &found[i] {
                Some(m) => {
                    metadata.push(m.duplicate());
                },
                None => {
                    metadata.push(DocumentMetadata::fallback());
                },
            }
        } else {
            metadata.push(DocumentMetadata::fallback());
        }
        i += 1;
    }
    SearchResult { documents, metadata }
}

/// The title under which the text at position `i` is cited.
pub open spec fn title_at(metadata: Seq<DocumentMetadata>, i: int) -> Seq<char> {
    if 0 <= i < metadata.len() {
        metadata[i].title@
    } else {
        "Untitled"@
    }
}

/// One document of the context: a header line with its title, its text and
/// a blank line.
pub open spec fn context_block(title: Seq<char>, text: Seq<char>) -> Seq<char> {
    "[Dokumen: "@ + title + "]\n"@ + text + "\n\n"@
}

/// The context of the first `n` documents, in their order.
pub open spec fn context_of(
    documents: Seq<String>,
    metadata: Seq<DocumentMetadata>,
    n: int,
) -> Seq<char>
    decreases n,
{
    if n <= 0 {
        Seq::empty()
    } else {
        context_of(documents, metadata, n - 1) + context_block(
            title_at(metadata, n - 1),
            documents[n - 1]@,
        )
    }
}

/// The context that is put before the completion service: the retrieved
/// documents, best first, each under a header line that names its title.
pub fn build_context(result: &SearchResult) -> (context: String)
    ensures
        context@ == context_of(
            result.documents@,
            result.metadata@,
            result.documents@.len() as int,
        ),
{
    let mut context = String::new();
    let mut i: usize = 0;
    while i < result.documents.len()
        invariant
            i <= result.documents@.len(),
            context@ == context_of(result.documents@, result.metadata@, i as int),
        decreases result.documents@.len() - i,
    {
        let ghost before = context@;
        context.append("[Dokumen: ");
        if i < result.metadata.len() {
            context.append(result.metadata[i].title.as_str());
        } else {
            context.append("Untitled");
        }
        context.append("]\n");
        context.append(result.documents[i].as_str());
        context.append("\n\n");
        assert(context@ =~= before + context_block(
            title_at(result.metadata@, i as int),
            result.documents@[i as int]@,
        ));
        i += 1;
    }
    context
}

/// The instructions that open every prompt: answer from the context only,
/// say so where it does not suffice, and name the sources.
pub open spec fn prompt_head() -> Seq<char> {
    "Gunakan informasi berikut untuk menjawab pertanyaan pengguna.\nJika informasi tidak mencukupi, katakan Anda tidak memiliki cukup informasi.\nJangan mengarang jawaban jika tidak ada di konteks.\nSertakan sumber dokumen yang digunakan dalam jawaban.\n\nKonteks:\n"@
}

/// The prompt for `query` over `context`.
pub open spec fn prompt_of(context: Seq<char>, query: Seq<char>) -> Seq<char> {
    prompt_head() + context + "\n\nPertanyaan: "@ + query + "\nJawaban:"@
}

/// The prompt that asks the completion service to answer `query` from
/// `context`.
pub fn build_prompt(context: &str, query: &str) -> (prompt: String)
    ensures
        prompt@ == prompt_of(context@, query@),
{
    let mut prompt = String::new();
    prompt.append(
        "Gunakan informasi berikut untuk menjawab pertanyaan pengguna.\nJika informasi tidak mencukupi, katakan Anda tidak memiliki cukup informasi.\nJangan mengarang jawaban jika tidak ada di konteks.\nSertakan sumber dokumen yang digunakan dalam jawaban.\n\nKonteks:\n",
    );
    prompt.append(context);
    prompt.append("\n\nPertanyaan: ");
    prompt.append(query);
    prompt.append("\nJawaban:");
    assert(prompt@ =~= prompt_of(context@, query@));
    prompt
}

/// The prompt that asks for an answer to `query` from the retrieved
/// documents.
pub fn chat_prompt(result: &SearchResult, query: &str) -> (prompt: String)
    ensures
        prompt@ == prompt_of(
            context_of(result.documents@, result.metadata@, result.documents@.len() as int),
            query@,
        ),
{
    let context = build_context(result);
    build_prompt(context.as_str(), query)
}

/// A query that was answered once is a hit from then on: whatever the index
/// has become and whatever the structure would rank, a second retrieval of
/// the same query returns the same texts in the same order, and the cache
/// stays as it is.
pub proof fn lemma_retrieval_is_cached(
    cache: Map<Seq<char>, Seq<Seq<char>>>,
    index: IndexState,
    query: Seq<char>,
    found: Seq<Neighbour>,
    k: usize,
    later_index: IndexState,
    later_found: Seq<Neighbour>,
    later_k: usize,
)
    ensures
        ({
            let first = retrieved(cache, index, query, found, k);
            let after = cache_after(cache, index, query, found, k);
            &&& cached(after, query) == Some(first)
            &&& retrieved(after, later_index, query, later_found, later_k) == first
            &&& cache_after(after, later_index, query, later_found, later_k) == after
        }),
{
}

/// A retrieval returns at most `k` texts, and none for `k == 0` or from an
/// empty index, unless the query was cached.
pub proof fn lemma_fresh_retrieval_bounds(
    cache: Map<Seq<char>, Seq<Seq<char>>>,
    index: IndexState,
    query: Seq<char>,
    found: Seq<Neighbour>,
    k: usize,
)
    requires
        cached(cache, query) is None,
    ensures
        retrieved(cache, index, query, found, k).len() <= k,
        (k == 0 || index.keys.len() == 0) ==> retrieved(cache, index, query, found, k).len() == 0,
{
    crate::index_proofs::lemma_search_bounds(index, found, k);
}

} // verus!
