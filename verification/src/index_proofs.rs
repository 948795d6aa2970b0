//! What holds of the index in every state it can reach.

use vstd::prelude::*;
use crate::index::{first_n, live_found, live_hits, IndexConfig, IndexOp, IndexState};
use crate::ranking::{
    ids_of, lemma_nearest_is_first, lemma_ranked, nearer_or_equal, ranked, Neighbour,
};

verus! {

/// An insertion keeps the index well formed: the document it stores has its
/// entry in the structure, and the structure stays within its capacity.
pub proof fn lemma_insert_wf(state: IndexState, text: Seq<char>, id_text: Seq<char>)
    requires
        state.wf(),
    ensures
        state.insert(text, id_text).wf(),
        state.insert(text, id_text).config == state.config,
{
    let after = state.insert(text, id_text);
    match state.insert_outcome(id_text) {
        Ok(id) => {
            if !state.keys.contains(id) {
                assert(after.keys[state.keys.len() as int] == id);
            }
            assert forall|other: usize| after.documents.contains_key(other) implies after.keys.contains(
                other,
            ) by {
                if other != id {
                    assert(state.documents.contains_key(other));
                    assert(state.keys.contains(other));
                    let k = choose|k: int| 0 <= k < state.keys.len() && state.keys[k] == other;
                    assert(after.keys[k] == other);
                }
            }
        },
        Err(_) => {},
    }
}

/// A deletion keeps the index well formed and leaves the structure as it is.
pub proof fn lemma_soft_delete_wf(state: IndexState, id: usize)
    requires
        state.wf(),
    ensures
        state.soft_delete(id).wf(),
        state.soft_delete(id).keys == state.keys,
        state.soft_delete(id).config == state.config,
{
}

/// Every state reached from a well-formed one is well formed, and has the
/// parameters, hence the vector dimension, it started with.
pub proof fn lemma_run_wf(state: IndexState, ops: Seq<IndexOp>)
    requires
        state.wf(),
    ensures
        state.run(ops).wf(),
        state.run(ops).config == state.config,
    decreases ops.len(),
{
    if ops.len() > 0 {
        let before = state.run(ops.drop_last());
        lemma_run_wf(state, ops.drop_last());
        match ops.last() {
            IndexOp::Insert { text, id_text } => {
                lemma_insert_wf(before, text, id_text);
            },
            IndexOp::Delete { id } => {
                lemma_soft_delete_wf(before, id);
            },
        }
    }
}

/// A document whose identifier the store wrote in decimal is inserted
/// under that very identifier, and the counter stays as it is.
pub proof fn lemma_written_id_is_used(state: IndexState, text: Seq<char>, id: usize)
    requires
        state.has_room(id),
    ensures
        state.insert_outcome(crate::text::decimal(id as nat)) == Ok::<
            usize,
            crate::error::ErrorKind,
        >(id),
        state.insert(text, crate::text::decimal(id as nat)).documents[id] == text,
        state.insert(text, crate::text::decimal(id as nat)).next_id == state.next_id,
{
    crate::text::lemma_decimal_reads_back(id as nat);
}

/// No operation lowers the counter, and an insertion that draws from the
/// counter raises it above the identifier it assigned.
pub proof fn lemma_apply_counter(state: IndexState, op: IndexOp)
    ensures
        state.next_id <= state.apply(op).next_id,
        state.auto_assigned(op) matches Some(id) ==> id == state.next_id && id < state.apply(
            op,
        ).next_id,
{
}

/// The counter never goes down in the course of operations.
pub proof fn lemma_counter_monotonic(state: IndexState, ops: Seq<IndexOp>, i: int)
    requires
        0 <= i <= ops.len(),
    ensures
        state.run(ops.take(i)).next_id <= state.run(ops).next_id,
    decreases ops.len(),
{
    if i == ops.len() {
        assert(ops.take(i) =~= ops);
    } else {
        let rest = ops.drop_last();
        assert(rest.take(i) =~= ops.take(i));
        lemma_counter_monotonic(state, rest, i);
        lemma_apply_counter(state.run(rest), ops.last());
    }
}

/// Two insertions that draw their identifiers from the counter never get
/// the same one, whatever happens between them: the later one gets the
/// greater identifier. The manager is changed through an exclusive
/// reference, so insertions that arrive together take turns, and this
/// holds of them in whichever order they do.
pub proof fn lemma_auto_ids_distinct(state: IndexState, ops: Seq<IndexOp>, i: int, j: int)
    requires
        0 <= i < j < ops.len(),
        state.run(ops.take(i)).auto_assigned(ops[i]) is Some,
        state.run(ops.take(j)).auto_assigned(ops[j]) is Some,
    ensures
        state.run(ops.take(i)).auto_assigned(ops[i])->0 < state.run(ops.take(j)).auto_assigned(
            ops[j],
        )->0,
{
    let before_i = state.run(ops.take(i));
    let prefix = ops.take(j);
    assert(prefix.take(i + 1).drop_last() =~= ops.take(i));
    assert(prefix.take(i + 1).last() == ops[i]);
    assert(state.run(prefix.take(i + 1)) == before_i.apply(ops[i]));
    lemma_apply_counter(before_i, ops[i]);
    lemma_counter_monotonic(state, prefix, i + 1);
    lemma_apply_counter(state.run(prefix), ops[j]);
}

/// The live identifiers of a ranking all have a text, and each of them
/// occurs in the ranking.
pub proof fn lemma_live_hits(ranked: Seq<usize>, documents: Map<usize, Seq<char>>)
    ensures
        live_hits(ranked, documents).len() <= ranked.len(),
        forall|i: int|
            0 <= i < live_hits(ranked, documents).len() ==> documents.contains_key(
                #[trigger] live_hits(ranked, documents)[i],
            ) && ranked.contains(live_hits(ranked, documents)[i]),
    decreases ranked.len(),
{
    if ranked.len() > 0 {
        let rest = ranked.drop_last();
        lemma_live_hits(rest, documents);
        let hits = live_hits(ranked, documents);
        assert forall|i: int| 0 <= i < hits.len() implies documents.contains_key(#[trigger] hits[i])
            && ranked.contains(hits[i]) by {
            if i < live_hits(rest, documents).len() {
                let id = live_hits(rest, documents)[i];
                assert(rest.contains(id));
                let k = choose|k: int| 0 <= k < rest.len() && rest[k] == id;
                assert(ranked[k] == id);
            } else {
                assert(ranked[ranked.len() - 1] == hits[i]);
            }
        }
    }
}

/// A ranking all of whose identifiers are live is its own list of live
/// hits.
pub proof fn lemma_live_hits_of_live(ranked: Seq<usize>, documents: Map<usize, Seq<char>>)
    requires
        forall|i: int| 0 <= i < ranked.len() ==> documents.contains_key(#[trigger] ranked[i]),
    ensures
        live_hits(ranked, documents) == ranked,
    decreases ranked.len(),
{
    if ranked.len() > 0 {
        let rest = ranked.drop_last();
        assert forall|i: int| 0 <= i < rest.len() implies documents.contains_key(
            #[trigger] rest[i],
        ) by {
            assert(rest[i] == ranked[i]);
        }
        lemma_live_hits_of_live(rest, documents);
        assert(ranked.last() == ranked[ranked.len() - 1]);
        assert(rest.push(ranked.last()) =~= ranked);
    } else {
        assert(ranked =~= Seq::<usize>::empty());
    }
}

/// The live entries of what was found all have a text, and each of them
/// was found.
pub proof fn lemma_live_found(found: Seq<Neighbour>, documents: Map<usize, Seq<char>>)
    ensures
        live_found(found, documents).len() <= found.len(),
        forall|i: int|
            0 <= i < live_found(found, documents).len() ==> documents.contains_key(
                (#[trigger] live_found(found, documents)[i]).id,
            ) && found.contains(live_found(found, documents)[i]),
        forall|i: int|
            0 <= i < found.len() && documents.contains_key((#[trigger] found[i]).id)
                ==> live_found(found, documents).contains(found[i]),
    decreases found.len(),
{
    if found.len() > 0 {
        let rest = found.drop_last();
        lemma_live_found(rest, documents);
        let before = live_found(rest, documents);
        let live = live_found(found, documents);
        assert forall|i: int| 0 <= i < live.len() implies documents.contains_key(
            (#[trigger] live[i]).id,
        ) && found.contains(live[i]) by {
            if i < before.len() {
                assert(rest.contains(before[i]));
                let k = choose|k: int| 0 <= k < rest.len() && rest[k] == before[i];
                assert(found[k] == before[i]);
            } else {
                assert(found[found.len() - 1] == live[i]);
            }
        }
        assert forall|i: int|
            0 <= i < found.len() && documents.contains_key((#[trigger] found[i]).id) implies live.contains(
            found[i],
        ) by {
            if i < rest.len() {
                assert(rest[i] == found[i]);
                assert(before.contains(rest[i]));
                let k = choose|k: int| 0 <= k < before.len() && before[k] == found[i];
                assert(live[k] == found[i]);
            } else {
                assert(live[live.len() - 1] == found[i]);
            }
        }
    }
}

/// What a search returns: at most `k` entries and no more than the index
/// holds, none for `k == 0` or from an empty index; each of them live and
/// among those found; each before all that are farther from the query,
/// and before those equally far that were inserted later.
pub proof fn lemma_search_bounds(state: IndexState, found: Seq<Neighbour>, k: usize)
    ensures
        state.search(found, k).len() == state.nearest(found, k).len(),
        state.search(found, k).len() <= k,
        state.search(found, k).len() <= state.keys.len(),
        state.search(found, k).len() <= found.len(),
        (k == 0 || state.keys.len() == 0) ==> state.search(found, k) == Seq::<usize>::empty(),
        forall|i: int|
            0 <= i < state.nearest(found, k).len() ==> state.search(found, k)[i] == (
            #[trigger] state.nearest(found, k)[i]).id && state.documents.contains_key(
                state.nearest(found, k)[i].id,
            ) && found.contains(state.nearest(found, k)[i]),
        forall|i: int, j: int|
            0 <= i < j < state.nearest(found, k).len() ==> nearer_or_equal(
                state.keys,
                #[trigger] state.nearest(found, k)[i],
                #[trigger] state.nearest(found, k)[j],
            ),
{
    let live = live_found(found, state.documents);
    let all = ranked(state.keys, live);
    let best = state.nearest(found, k);
    lemma_live_found(found, state.documents);
    lemma_ranked(state.keys, live);
    assert(first_n(all, 0) =~= Seq::<Neighbour>::empty());
    assert(ids_of(Seq::<Neighbour>::empty()) =~= Seq::<usize>::empty());
    assert forall|i: int| 0 <= i < best.len() implies state.search(found, k)[i] == (
    #[trigger] best[i]).id && state.documents.contains_key(best[i].id) && found.contains(
        best[i],
    ) by {
        assert(best[i] == all[i]);
        assert(live.contains(all[i]));
        let at = choose|at: int| 0 <= at < live.len() && live[at] == all[i];
        assert(state.documents.contains_key(live[at].id));
    }
    assert forall|i: int, j: int| 0 <= i < j < best.len() implies nearer_or_equal(
        state.keys,
        #[trigger] best[i],
        #[trigger] best[j],
    ) by {
        assert(best[i] == all[i] && best[j] == all[j]);
    }
}

/// Of two entries of a result that are equally far from the query, the one
/// that was inserted first comes first.
pub proof fn lemma_ties_by_insertion(
    state: IndexState,
    found: Seq<Neighbour>,
    k: usize,
    i: int,
    j: int,
)
    requires
        state.wf(),
        0 <= i < j < state.nearest(found, k).len(),
        state.nearest(found, k)[i].distance == state.nearest(found, k)[j].distance,
    ensures
        state.keys.index_of(state.nearest(found, k)[i].id) <= state.keys.index_of(
            state.nearest(found, k)[j].id,
        ),
{
    lemma_search_bounds(state, found, k);
    let a = state.nearest(found, k)[i];
    let b = state.nearest(found, k)[j];
    assert(nearer_or_equal(state.keys, a, b));
    assert(state.documents.contains_key(a.id));
    assert(state.documents.contains_key(b.id));
    assert(state.keys.contains(a.id));
    assert(state.keys.contains(b.id));
}

/// No identifier without a text is in the result of a search.
pub proof fn lemma_search_is_live(state: IndexState, found: Seq<Neighbour>, k: usize, id: usize)
    requires
        !state.documents.contains_key(id),
    ensures
        !state.search(found, k).contains(id),
{
    lemma_search_bounds(state, found, k);
    if state.search(found, k).contains(id) {
        let i = choose|i: int|
            0 <= i < state.search(found, k).len() && state.search(found, k)[i] == id;
        assert(state.documents.contains_key(state.nearest(found, k)[i].id));
    }
}

/// After the deletion of `id` there is no text under `id`, `id` is not
/// among the documents, and no search returns it, whatever the structure
/// finds; `id` is a tombstone if the structure holds it.
pub proof fn lemma_deleted_is_gone(state: IndexState, id: usize, found: Seq<Neighbour>, k: usize)
    ensures
        !state.soft_delete(id).documents.contains_key(id),
        !state.soft_delete(id).search(found, k).contains(id),
        state.keys.contains(id) ==> state.soft_delete(id).tombstones().contains(id),
{
    lemma_search_is_live(state.soft_delete(id), found, k, id);
}

/// Deleting `id` does not touch any other document.
pub proof fn lemma_delete_keeps_others(state: IndexState, id: usize, other: usize)
    requires
        other != id,
    ensures
        state.soft_delete(id).documents.contains_key(other) == state.documents.contains_key(other),
        state.documents.contains_key(other) ==> state.soft_delete(id).documents[other]
            == state.documents[other],
{
}

/// A document that was inserted is found again under its identifier. If
/// the structure then finds it for a query, and nothing live that it finds
/// comes before it, a search for at least one entry returns it first.
pub proof fn lemma_inserted_ranks_first(
    state: IndexState,
    text: Seq<char>,
    id_text: Seq<char>,
    found: Seq<Neighbour>,
    best: Neighbour,
    k: usize,
)
    requires
        state.insert_outcome(id_text) is Ok,
        best.id == state.insert_outcome(id_text)->Ok_0,
        found.contains(best),
        forall|i: int|
            0 <= i < found.len() && state.insert(text, id_text).documents.contains_key(
                (#[trigger] found[i]).id,
            ) ==> nearer_or_equal(state.insert(text, id_text).keys, best, found[i]),
        k > 0,
    ensures
        state.insert(text, id_text).documents.contains_key(best.id),
        state.insert(text, id_text).documents[best.id] == text,
        state.insert(text, id_text).search(found, k).len() > 0,
        state.insert(text, id_text).search(found, k)[0] == best.id,
{
    let after = state.insert(text, id_text);
    if !state.keys.contains(best.id) {
        assert(after.keys[state.keys.len() as int] == best.id);
    }
    assert(after.keys.contains(best.id));
    let live = live_found(found, after.documents);
    lemma_live_found(found, after.documents);
    let at = choose|at: int| 0 <= at < found.len() && found[at] == best;
    assert(live.contains(found[at]));
    assert forall|i: int| 0 <= i < live.len() implies nearer_or_equal(
        after.keys,
        best,
        #[trigger] live[i],
    ) by {
        assert(found.contains(live[i]));
        let j = choose|j: int| 0 <= j < found.len() && found[j] == live[i];
        assert(after.documents.contains_key(found[j].id));
    }
    lemma_nearest_is_first(after.keys, live, best);
    lemma_ranked(after.keys, live);
    assert(after.nearest(found, k)[0] == ranked(after.keys, live)[0]);
}

/// An index restored from a valid snapshot is well formed.
pub proof fn lemma_restored_wf(
    config: IndexConfig,
    dimension: usize,
    keys: Seq<usize>,
    docs: Map<usize, Seq<char>>,
)
    requires
        crate::index::snapshot_valid(config, dimension, keys, docs),
    ensures
        IndexState::restored(config, keys, docs).wf(),
        IndexState::restored(config, keys, docs).config.dimension == dimension,
{
}

/// What was persisted of a well-formed index is restored as it was: the
/// same keys in the same order and the same documents, for the same
/// vector dimension, under a counter that starts above the documents.
pub proof fn lemma_snapshot_restores(state: IndexState)
    requires
        state.wf(),
    ensures
        crate::index::snapshot_valid(
            state.config,
            state.config.dimension,
            state.keys,
            state.documents,
        ),
        IndexState::restored(state.config, state.keys, state.documents).keys == state.keys,
        IndexState::restored(state.config, state.keys, state.documents).documents
            == state.documents,
        IndexState::restored(state.config, state.keys, state.documents).wf(),
{
}

/// The counter of a restored index is above every identifier of its
/// documents, except where that is `usize::MAX`.
pub proof fn lemma_seed_above(keys: Seq<usize>, docs: Map<usize, Seq<char>>, i: int)
    requires
        0 <= i < keys.len(),
        docs.contains_key(keys[i]),
    ensures
        keys[i] < crate::index::seed_id(keys, docs) || crate::index::seed_id(keys, docs)
            == usize::MAX,
    decreases keys.len(),
{
    if i < keys.len() - 1 {
        lemma_seed_above(keys.drop_last(), docs, i);
    }
}

} // verus!
