//! The order of search results: nearest first, and of two equally near
//! entries the one that was inserted first.

use vstd::prelude::*;
use vstd::relations::{sorted_by, total_ordering};
use vstd::seq_lib::lemma_sorted_unique;

verus! {

broadcast use vstd::seq_lib::group_to_multiset_ensures;

/// One entry that the nearest-neighbour structure found for a query.
#[derive(Clone, Copy, Debug)]
pub struct Neighbour {
    /// The identifier of the entry.
    pub id: usize,
    /// How far the entry is from the query, as a key: of two entries the
    /// one with the smaller key is the nearer one.
    pub distance: u32,
}

/// The place of `id` in the order of insertion: its position among `keys`,
/// and behind all of them where it is not among them.
pub open spec fn key_position(keys: Seq<usize>, id: usize) -> int {
    if keys.contains(id) {
        keys.index_of(id)
    } else {
        keys.len() as int
    }
}

/// Whether `a` comes before `b` in a result, or is `b` itself: the nearer
/// one comes first, of two equally near ones the one inserted first.
/// (Entries that are not among the keys are told apart by their
/// identifiers.)
pub open spec fn nearer_or_equal(keys: Seq<usize>, a: Neighbour, b: Neighbour) -> bool {
    ||| a.distance < b.distance
    ||| a.distance == b.distance && key_position(keys, a.id) < key_position(keys, b.id)
    ||| a.distance == b.distance && key_position(keys, a.id) == key_position(keys, b.id) && a.id
        <= b.id
}

/// The order of results over the keys `keys`.
pub open spec fn ranking_order(keys: Seq<usize>) -> spec_fn(Neighbour, Neighbour) -> bool {
    |a: Neighbour, b: Neighbour| nearer_or_equal(keys, a, b)
}

/// `found` in the order of results: nearest first, ties in the order of
/// insertion.
pub open spec fn ranked(keys: Seq<usize>, found: Seq<Neighbour>) -> Seq<Neighbour> {
    found.sort_by(ranking_order(keys))
}

/// The identifiers of `found`, position by position.
pub open spec fn ids_of(found: Seq<Neighbour>) -> Seq<usize> {
    Seq::new(found.len(), |i: int| found[i].id)
}

/// The order of results is a total order.
pub proof fn lemma_ranking_order_total(keys: Seq<usize>)
    ensures
        total_ordering(ranking_order(keys)),
{
    let leq = ranking_order(keys);
    assert forall|a: Neighbour| #[trigger] leq(a, a) by {}
    assert forall|a: Neighbour, b: Neighbour| #[trigger] leq(a, b) && #[trigger] leq(b, a) implies a
        == b by {}
    assert forall|a: Neighbour, b: Neighbour, c: Neighbour| #[trigger]
        leq(a, b) && #[trigger] leq(b, c) implies leq(a, c) by {}
    assert forall|a: Neighbour, b: Neighbour| #[trigger] leq(a, b) || #[trigger] leq(b, a) by {}
    assert(vstd::relations::reflexive(leq));
    assert(vstd::relations::antisymmetric(leq));
    assert(vstd::relations::transitive(leq));
    assert(vstd::relations::strongly_connected(leq));
}

/// What `ranked` is: the same entries, each as often as it was found,
/// every one before all that are farther, and before those equally far
/// that were inserted later.
pub proof fn lemma_ranked(keys: Seq<usize>, found: Seq<Neighbour>)
    ensures
        ranked(keys, found).to_multiset() == found.to_multiset(),
        ranked(keys, found).len() == found.len(),
        forall|i: int, j: int|
            0 <= i < j < ranked(keys, found).len() ==> nearer_or_equal(
                keys,
                #[trigger] ranked(keys, found)[i],
                #[trigger] ranked(keys, found)[j],
            ),
        forall|i: int|
            0 <= i < ranked(keys, found).len() ==> found.contains(#[trigger] ranked(keys, found)[i]),
        forall|i: int| 0 <= i < found.len() ==> ranked(keys, found).contains(#[trigger] found[i]),
{
    let leq = ranking_order(keys);
    let r = ranked(keys, found);
    lemma_ranking_order_total(keys);
    found.lemma_sort_by_ensures(leq);
    assert(r.len() == found.len()) by {
        vstd::seq_lib::to_multiset_len(r);
        vstd::seq_lib::to_multiset_len(found);
    }
    assert forall|i: int, j: int| 0 <= i < j < r.len() implies nearer_or_equal(
        keys,
        #[trigger] r[i],
        #[trigger] r[j],
    ) by {
        assert(leq(r[i], r[j]));
    }
    assert forall|i: int| 0 <= i < r.len() implies found.contains(#[trigger] r[i]) by {
        assert(r.contains(r[i]));
    }
    assert forall|i: int| 0 <= i < found.len() implies r.contains(#[trigger] found[i]) by {
        assert(found.contains(found[i]));
        vstd::seq_lib::to_multiset_contains(found, found[i]);
        vstd::seq_lib::to_multiset_contains(r, found[i]);
    }
}

/// An entry that comes before every entry found is the first of the
/// result.
pub proof fn lemma_nearest_is_first(keys: Seq<usize>, found: Seq<Neighbour>, best: Neighbour)
    requires
        found.contains(best),
        forall|i: int| 0 <= i < found.len() ==> nearer_or_equal(keys, best, #[trigger] found[i]),
    ensures
        ranked(keys, found).len() > 0,
        ranked(keys, found)[0] == best,
{
    let r = ranked(keys, found);
    lemma_ranked(keys, found);
    let at = choose|i: int| 0 <= i < found.len() && found[i] == best;
    assert(r.contains(found[at]));
    let j = choose|j: int| 0 <= j < r.len() && r[j] == best;
    if j > 0 {
        assert(nearer_or_equal(keys, r[0], r[j]));
        assert(found.contains(r[0]));
        let k = choose|k: int| 0 <= k < found.len() && found[k] == r[0];
        assert(nearer_or_equal(keys, best, found[k]));
    }
}

/// The place of `id` in the order of insertion.
pub fn position(keys: &Vec<usize>, id: usize) -> (p: usize)
    requires
        keys@.no_duplicates(),
    ensures
        p == key_position(keys@, id),
{
    let mut i: usize = 0;
    while i < keys.len()
        invariant
            keys@.no_duplicates(),
            i <= keys@.len(),
            forall|j: int| 0 <= j < i ==> keys@[j] != id,
        decreases keys@.len() - i,
    {
        if keys[i] == id {
            proof {
                assert(keys@[i as int] == id);
                assert(keys@.contains(id));
                let j = keys@.index_of(id);
                assert(0 <= j < keys@.len() && keys@[j] == id);
                if j != i {
                    assert(keys@[j] != keys@[i as int]);
                }
            }
            return i;
        }
        i += 1;
    }
    i
}

/// Whether an entry at distance `d1`, place `p1` and identifier `i1` comes
/// before, or is, one at `d2`, `p2`, `i2`.
fn comes_first(d1: u32, p1: usize, i1: usize, d2: u32, p2: usize, i2: usize) -> (b: bool)
    ensures
        b == (d1 < d2 || (d1 == d2 && p1 < p2) || (d1 == d2 && p1 == p2 && i1 <= i2)),
{
    d1 < d2 || (d1 == d2 && p1 < p2) || (d1 == d2 && p1 == p2 && i1 <= i2)
}

/// Puts what the structure found into the order of results: nearest first,
/// and of two equally near entries the one that was inserted first.
pub fn rank(keys: &Vec<usize>, found: &Vec<Neighbour>) -> (result: Vec<Neighbour>)
    requires
        keys@.no_duplicates(),
    ensures
        result@ == ranked(keys@, found@),
{
    let ghost leq = ranking_order(keys@);
    let mut sorted: Vec<Neighbour> = Vec::new();
    let mut places: Vec<usize> = Vec::new();
    let mut i: usize = 0;
    proof {
        lemma_ranking_order_total(keys@);
        assert(found@.take(0) =~= Seq::<Neighbour>::empty());
    }
    while i < found.len()
        invariant
            keys@.no_duplicates(),
            leq == ranking_order(keys@),
            total_ordering(leq),
            i <= found@.len(),
            sorted@.len() == i,
            places@.len() == i,
            forall|j: int| 0 <= j < i ==> places@[j] == key_position(keys@, (#[trigger] sorted@[j]).id),
            sorted_by(sorted@, leq),
            sorted@.to_multiset() == found@.take(i as int).to_multiset(),
        decreases found@.len() - i,
    {
        let x = found[i];
        let place = position(keys, x.id);
        let mut p: usize = 0;
        while p < sorted.len() && comes_first(
            sorted[p].distance,
            places[p],
            sorted[p].id,
            x.distance,
            place,
            x.id,
        )
            invariant
                p <= sorted@.len(),
                sorted@.len() == places@.len(),
                place == key_position(keys@, x.id),
                forall|j: int|
                    0 <= j < sorted@.len() ==> places@[j] == key_position(
                        keys@,
                        (#[trigger] sorted@[j]).id,
                    ),
                forall|j: int| 0 <= j < p ==> nearer_or_equal(keys@, #[trigger] sorted@[j], x),
            decreases sorted@.len() - p,
        {
            p += 1;
        }
        let ghost before = sorted@;
        sorted.insert(p, x);
        places.insert(p, place);
        proof {
            assert forall|a: int, b: int| 0 <= a < b < sorted@.len() implies #[trigger] leq(
                sorted@[a],
                sorted@[b],
            ) by {
                if b < p {
                    assert(leq(before[a], before[b]));
                } else if b == p {
                    assert(nearer_or_equal(keys@, before[a], x));
                } else if a == p {
                    assert(!nearer_or_equal(keys@, before[p as int], x));
                    assert(leq(x, before[p as int]) || leq(before[p as int], x));
                    if b - 1 > p {
                        assert(leq(before[p as int], before[b - 1]));
                    }
                    assert(leq(x, before[b - 1]));
                } else if a < p {
                    assert(leq(before[a], before[b - 1]));
                } else {
                    assert(leq(before[a - 1], before[b - 1]));
                }
            }
            assert(found@.take(i + 1) =~= found@.take(i as int).push(x));
            vstd::seq_lib::to_multiset_insert(before, p as int, x);
            vstd::seq_lib::to_multiset_build(found@.take(i as int), x);
        }
        i += 1;
    }
    proof {
        assert(found@.take(found@.len() as int) =~= found@);
        found@.lemma_sort_by_ensures(leq);
        lemma_sorted_unique(sorted@, found@.sort_by(leq), leq);
    }
    sorted
}

} // verus!
