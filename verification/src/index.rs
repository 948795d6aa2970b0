//! The bookkeeping of the vector index: which identifiers the nearest-neighbour
//! structure holds, which of them still have a text, and the counter that
//! assigns identifiers.
//!
//! The nearest-neighbour structure itself works on embedding vectors and is
//! kept by the caller. The manager decides what is inserted under which
//! identifier, and turns what the structure finds for a query into the
//! identifiers and texts of live documents, nearest first.

use std::collections::HashMap;
use vstd::prelude::*;
use crate::error::ErrorKind;
use crate::ranking::{ids_of, rank, ranked, Neighbour};
use crate::text::{parse_id, parsed_id};

verus! {

broadcast use vstd::std_specs::hash::group_hash_axioms;

/// The parameters an index is built with.
#[derive(Clone, Copy, Debug)]
pub struct IndexConfig {
    /// The length of every embedding vector.
    pub dimension: usize,
    /// The greatest number of entries the structure can hold.
    pub max_capacity: usize,
    /// The number of links per entry.
    pub connectivity: usize,
    /// The effort spent on each insertion.
    pub build_effort: usize,
    /// The effort spent on each search.
    pub search_effort: usize,
}

impl IndexConfig {
    /// The parameters of the reference embedding model.
    pub fn reference() -> (c: IndexConfig)
        ensures
            c.dimension == 384,
            c.max_capacity == 1000,
            c.connectivity == 16,
            c.build_effort == 100,
            c.search_effort == 200,
    {
        IndexConfig {
            dimension: 384,
            max_capacity: 1000,
            connectivity: 16,
            build_effort: 100,
            search_effort: 200,
        }
    }
}

/// What a persisted index holds: the vector dimension it was built for,
/// the identifiers in the nearest-neighbour structure, in insertion order,
/// and the document map.
#[derive(Debug)]
pub struct IndexSnapshot {
    pub dimension: usize,
    pub keys: Vec<usize>,
    pub documents: HashMap<usize, String>,
}

/// The index as a mathematical value.
pub struct IndexState {
    /// The identifiers held by the nearest-neighbour structure, first
    /// inserted first. One that has no text any more is a tombstone.
    pub keys: Seq<usize>,
    /// The text of every live document.
    pub documents: Map<usize, Seq<char>>,
    /// The next identifier that the counter assigns.
    pub next_id: usize,
    /// The parameters the index was built with.
    pub config: IndexConfig,
}

impl IndexState {
    /// Every document has an entry in the structure, no entry occurs twice
    /// and the structure is within its capacity.
    pub open spec fn wf(self) -> bool {
        &&& self.keys.no_duplicates()
        &&& self.keys.len() <= self.config.max_capacity
        &&& forall|id: usize| self.documents.contains_key(id) ==> self.keys.contains(id)
    }

    /// An index without entries.
    pub open spec fn empty(config: IndexConfig) -> IndexState {
        IndexState { keys: Seq::empty(), documents: Map::empty(), next_id: 0, config }
    }

    /// The identifiers that were deleted but still sit in the structure.
    pub open spec fn tombstones(self) -> Set<usize> {
        Set::new(|id: usize| self.keys.contains(id) && !self.documents.contains_key(id))
    }

    /// Whether a new entry under `id` has room: either the structure holds
    /// `id` already, or it is not full.
    pub open spec fn has_room(self, id: usize) -> bool {
        self.keys.contains(id) || self.keys.len() < self.config.max_capacity
    }

    /// The identifier an insertion uses and whether it succeeds. A given
    /// identifier that reads as a number is used as it is; otherwise the
    /// counter assigns one, and is exhausted at `usize::MAX`.
    pub open spec fn insert_outcome(self, id_text: Seq<char>) -> Result<usize, ErrorKind> {
        let id = match parsed_id(id_text) {
            Some(given) => given,
            None => self.next_id,
        };
        if parsed_id(id_text) is None && self.next_id == usize::MAX {
            Err(ErrorKind::IndexCapacity)
        } else if self.has_room(id) {
            Ok(id)
        } else {
            Err(ErrorKind::IndexCapacity)
        }
    }

    /// The index after an insertion of `text`.
    pub open spec fn insert(self, text: Seq<char>, id_text: Seq<char>) -> IndexState {
        match self.insert_outcome(id_text) {
            Err(_) => self,
            Ok(id) => IndexState {
                keys: if self.keys.contains(id) {
                    self.keys
                } else {
                    self.keys.push(id)
                },
                documents: self.documents.insert(id, text),
                next_id: if parsed_id(id_text) is None {
                    (self.next_id + 1) as usize
                } else {
                    self.next_id
                },
                config: self.config,
            },
        }
    }

    /// The index after the deletion of `id`: its text is gone, its entry in
    /// the structure stays as a tombstone.
    pub open spec fn soft_delete(self, id: usize) -> IndexState {
        IndexState { documents: self.documents.remove(id), ..self }
    }

    /// How many hits a search for `k` asks of the structure.
    pub open spec fn effective_k(self, k: usize) -> nat {
        if k <= self.keys.len() {
            k as nat
        } else {
            self.keys.len()
        }
    }

    /// The entries a search for `k` returns, given what the structure found
    /// for the query: of the entries found those that are live, nearest
    /// first and of equally near ones the one inserted first, at most
    /// `effective_k(k)` of them.
    pub open spec fn nearest(self, found: Seq<Neighbour>, k: usize) -> Seq<Neighbour> {
        first_n(ranked(self.keys, live_found(found, self.documents)), self.effective_k(k))
    }

    /// What a search for `k` returns: the identifiers of `nearest`.
    pub open spec fn search(self, found: Seq<Neighbour>, k: usize) -> Seq<usize> {
        ids_of(self.nearest(found, k))
    }

    /// The index after the operation `op`.
    pub open spec fn apply(self, op: IndexOp) -> IndexState {
        match op {
            IndexOp::Insert { text, id_text } => self.insert(text, id_text),
            IndexOp::Delete { id } => self.soft_delete(id),
        }
    }

    /// The index after the operations `ops`, in their order.
    pub open spec fn run(self, ops: Seq<IndexOp>) -> IndexState
        decreases ops.len(),
    {
        if ops.len() == 0 {
            self
        } else {
            self.run(ops.drop_last()).apply(ops.last())
        }
    }

    /// The identifier that the counter assigns in `op`, if `op` is an
    /// insertion without a usable identifier of its own and succeeds.
    pub open spec fn auto_assigned(self, op: IndexOp) -> Option<usize> {
        match op {
            IndexOp::Insert { text, id_text } => if parsed_id(id_text) is None {
                match self.insert_outcome(id_text) {
                    Ok(id) => Some(id),
                    Err(_) => None,
                }
            } else {
                None
            },
            IndexOp::Delete { id } => None,
        }
    }

    /// The index that the snapshot `keys`, `docs` restores.
    pub open spec fn restored(
        config: IndexConfig,
        keys: Seq<usize>,
        docs: Map<usize, Seq<char>>,
    ) -> IndexState {
        IndexState { keys, documents: docs, next_id: seed_id(keys, docs), config }
    }

    /// The texts of `ids`, position by position.
    pub open spec fn texts(self, ids: Seq<usize>) -> Seq<Seq<char>> {
        Seq::new(ids.len(), |i: int| self.documents[ids[i]])
    }
}

/// One change of the index.
pub enum IndexOp {
    /// An insertion of `text` under the identifier written in `id_text`.
    Insert { text: Seq<char>, id_text: Seq<char> },
    /// The deletion of `id`.
    Delete { id: usize },
}

/// The first `n` items of `s`, or all of it where it has fewer.
pub open spec fn first_n<A>(s: Seq<A>, n: nat) -> Seq<A> {
    if n <= s.len() {
        s.take(n as int)
    } else {
        s
    }
}

/// The entries of `found` whose identifiers have a text, in the order of
/// `found`.
pub open spec fn live_found(found: Seq<Neighbour>, documents: Map<usize, Seq<char>>) -> Seq<
    Neighbour,
>
    decreases found.len(),
{
    if found.len() == 0 {
        Seq::empty()
    } else {
        let rest = live_found(found.drop_last(), documents);
        if documents.contains_key(found.last().id) {
            rest.push(found.last())
        } else {
            rest
        }
    }
}

/// The identifiers of `ranked` that have a text, in the order of `ranked`.
pub open spec fn live_hits(ranked: Seq<usize>, documents: Map<usize, Seq<char>>) -> Seq<usize>
    decreases ranked.len(),
{
    if ranked.len() == 0 {
        Seq::empty()
    } else {
        let rest = live_hits(ranked.drop_last(), documents);
        if documents.contains_key(ranked.last()) {
            rest.push(ranked.last())
        } else {
            rest
        }
    }
}

/// The document map that `docs` holds: the text under each identifier.
pub open spec fn text_map(docs: Map<usize, String>) -> Map<usize, Seq<char>> {
    Map::new(|id: usize| docs.contains_key(id), |id: usize| docs[id]@)
}

/// The identifier the counter starts from: one more than the greatest
/// identifier among `keys` that has a text, held at `usize::MAX`; 0 where
/// there is none.
pub open spec fn seed_id(keys: Seq<usize>, docs: Map<usize, Seq<char>>) -> usize
    decreases keys.len(),
{
    if keys.len() == 0 {
        0
    } else {
        let rest = seed_id(keys.drop_last(), docs);
        let id = keys.last();
        if !docs.contains_key(id) || id < rest {
            rest
        } else if id == usize::MAX {
            usize::MAX
        } else {
            (id + 1) as usize
        }
    }
}

/// Whether a snapshot is one that the manager could have written for an
/// index with the parameters `config`: it was built for the same vector
/// dimension, no key occurs twice, the keys are within the capacity, and
/// every document is among the keys.
pub open spec fn snapshot_valid(
    config: IndexConfig,
    dimension: usize,
    keys: Seq<usize>,
    docs: Map<usize, Seq<char>>,
) -> bool {
    &&& dimension == config.dimension
    &&& keys.no_duplicates()
    &&& keys.len() <= config.max_capacity
    &&& forall|id: usize| docs.contains_key(id) ==> keys.contains(id)
}

/// How many of `keys` are in `live`.
pub open spec fn live_count(keys: Seq<usize>, live: Set<usize>) -> nat
    decreases keys.len(),
{
    if keys.len() == 0 {
        0
    } else {
        live_count(keys.drop_last(), live) + if live.contains(keys.last()) {
            1nat
        } else {
            0nat
        }
    }
}

/// Keys that do not repeat cover a finite set exactly when as many of them
/// are in the set as the set has members.
pub proof fn lemma_live_count(keys: Seq<usize>, live: Set<usize>)
    requires
        keys.no_duplicates(),
        live.finite(),
    ensures
        live_count(keys, live) == keys.to_set().intersect(live).len(),
        live_count(keys, live) <= live.len(),
        live_count(keys, live) == live.len() <==> (forall|id: usize|
            live.contains(id) ==> keys.contains(id)),
    decreases keys.len(),
{
    let met = keys.to_set().intersect(live);
    if keys.len() == 0 {
        assert(met =~= Set::<usize>::empty());
    } else {
        let rest = keys.drop_last();
        let last = keys.last();
        let before = rest.to_set().intersect(live);
        lemma_live_count(rest, live);
        assert(!rest.contains(last)) by {
            if rest.contains(last) {
                let i = choose|i: int| 0 <= i < rest.len() && rest[i] == last;
                assert(keys[i] == keys[keys.len() - 1]);
            }
        }
        assert forall|id: usize| keys.to_set().contains(id) <==> (rest.to_set().contains(id) || id
            == last) by {
            if keys.contains(id) {
                let i = choose|i: int| 0 <= i < keys.len() && keys[i] == id;
                if i < rest.len() {
                    assert(rest[i] == id);
                }
            }
            if rest.contains(id) {
                let i = choose|i: int| 0 <= i < rest.len() && rest[i] == id;
                assert(keys[i] == id);
            }
            if id == last {
                assert(keys[keys.len() - 1] == id);
            }
        }
        if live.contains(last) {
            assert(met =~= before.insert(last));
        } else {
            assert(met =~= before);
        }
    }
    assert(met.subset_of(live));
    vstd::set_lib::lemma_len_subset(met, live);
    if met.len() == live.len() {
        vstd::set_lib::lemma_subset_equality(met, live);
        assert forall|id: usize| live.contains(id) implies keys.contains(id) by {
            assert(met.contains(id));
        }
    }
    if forall|id: usize| live.contains(id) ==> keys.contains(id) {
        assert(met =~= live);
    }
}

/// What a successful insertion did.
#[derive(Clone, Copy, Debug)]
pub struct Insertion {
    /// The identifier the document is stored under.
    pub id: usize,
    /// Whether the structure gets a new entry for it; if not, the vector of
    /// its entry is replaced.
    pub fresh: bool,
}

impl Insertion {
    /// The result of the insertion once its snapshot was written, or was
    /// not: a failed write is reported, though the document stays in the
    /// index in memory.
    pub fn persisted(self, written: bool) -> (r: Result<usize, ErrorKind>)
        ensures
            written ==> r == Ok::<usize, ErrorKind>(self.id),
            !written ==> r == Err::<usize, ErrorKind>(ErrorKind::Persistence),
    {
        if written {
            Ok(self.id)
        } else {
            Err(ErrorKind::Persistence)
        }
    }
}

/// The document map, the keys of the nearest-neighbour structure and the
/// identifier counter, kept consistent as one unit.
pub struct IndexManager {
    config: IndexConfig,
    keys: Vec<usize>,
    documents: HashMap<usize, String>,
    next_id: usize,
}

impl View for IndexManager {
    type V = IndexState;

    closed spec fn view(&self) -> IndexState {
        IndexState {
            keys: self.keys@,
            documents: text_map(self.documents@),
            next_id: self.next_id,
            config: self.config,
        }
    }
}

impl IndexManager {
    /// The invariant of the manager: its value is well formed.
    pub closed spec fn wf(&self) -> bool {
        self@.wf()
    }

    /// A well-formed manager has a well-formed value.
    pub proof fn lemma_wf(&self)
        requires
            self.wf(),
        ensures
            self@.wf(),
    {
    }

    /// An empty index with the parameters `config`.
    pub fn new(config: IndexConfig) -> (m: IndexManager)
        ensures
            m.wf(),
            m@ == IndexState::empty(config),
    {
        let m = IndexManager { config, keys: Vec::new(), documents: HashMap::new(), next_id: 0 };
        assert(m@.documents =~= Map::empty());
        m
    }

    /// Starts an index from what was persisted. A snapshot that is valid
    /// for `config` is restored, and the counter starts above its greatest
    /// document identifier. Without one, or with one that is not valid, the
    /// index starts empty. The flag says whether the snapshot was restored.
    pub fn initialize(config: IndexConfig, snapshot: Option<IndexSnapshot>) -> (r: (
        IndexManager,
        bool,
    ))
        ensures
            r.0.wf(),
            r.1 == (snapshot matches Some(s) && snapshot_valid(
                config,
                s.dimension,
                s.keys@,
                text_map(s.documents@),
            )),
            r.1 ==> r.0@ == IndexState::restored(
                config,
                snapshot->0.keys@,
                text_map(snapshot->0.documents@),
            ),
            !r.1 ==> r.0@ == IndexState::empty(config),
    {
        match snapshot {
            Some(s) => {
                if s.dimension == config.dimension && s.keys.len() <= config.max_capacity
                    && keys_distinct(&s.keys) && documents_keyed(&s.keys, &s.documents) {
                    let next_id = seed_of(&s.keys, &s.documents);
                    let m = IndexManager {
                        config,
                        keys: s.keys,
                        documents: s.documents,
                        next_id,
                    };
                    (m, true)
                } else {
                    (IndexManager::new(config), false)
                }
            },
            None => (IndexManager::new(config), false),
        }
    }

    /// The parameters of the index.
    pub fn config(&self) -> (c: IndexConfig)
        ensures
            c == self@.config,
    {
        self.config
    }

    /// The number of entries in the nearest-neighbour structure, tombstones
    /// included.
    pub fn len(&self) -> (n: usize)
        ensures
            n == self@.keys.len(),
    {
        self.keys.len()
    }

    /// The identifier that the counter assigns next.
    pub fn next_id(&self) -> (id: usize)
        ensures
            id == self@.next_id,
    {
        self.next_id
    }

    /// The keys of the nearest-neighbour structure, first inserted first.
    pub fn keys(&self) -> (keys: &Vec<usize>)
        ensures
            keys@ == self@.keys,
    {
        &self.keys
    }

    /// The document map, as it is persisted.
    pub fn documents(&self) -> (docs: &HashMap<usize, String>)
        ensures
            text_map(docs@) == self@.documents,
    {
        &self.documents
    }

    /// What is persisted of the index: its vector dimension and a copy of
    /// its keys and documents. It is a valid snapshot, and restores the
    /// keys and the documents as they are.
    pub fn snapshot(&self) -> (s: IndexSnapshot)
        requires
            self.wf(),
        ensures
            snapshot_valid(self@.config, s.dimension, s.keys@, text_map(s.documents@)),
            s.keys@ == self@.keys,
            text_map(s.documents@) == self@.documents,
    {
        let mut keys: Vec<usize> = Vec::new();
        let mut i: usize = 0;
        while i < self.keys.len()
            invariant
                i <= self.keys@.len(),
                keys@ == self.keys@.take(i as int),
            decreases self.keys@.len() - i,
        {
            keys.push(self.keys[i]);
            assert(keys@ =~= self.keys@.take(i + 1));
            i += 1;
        }
        assert(self.keys@.take(self.keys@.len() as int) =~= self.keys@);
        IndexSnapshot { dimension: self.config.dimension, keys, documents: self.documents.clone() }
    }

    /// Whether the structure holds an entry under `id`.
    pub fn has_key(&self, id: usize) -> (b: bool)
        ensures
            b == self@.keys.contains(id),
    {
        contains_key(&self.keys, id)
    }

    /// Whether `id` has a text.
    pub fn is_live(&self, id: usize) -> (b: bool)
        ensures
            b == self@.documents.contains_key(id),
    {
        self.documents.contains_key(&id)
    }

    /// Whether `id` was deleted but still sits in the structure.
    pub fn is_tombstone(&self, id: usize) -> (b: bool)
        requires
            self.wf(),
        ensures
            b == self@.tombstones().contains(id),
    {
        self.has_key(id) && !self.is_live(id)
    }

    /// The text stored under `id`, if it is live.
    pub fn resolve_text(&self, id: usize) -> (text: Option<&String>)
        requires
            self.wf(),
        ensures
            text is Some == self@.documents.contains_key(id),
            text matches Some(t) ==> t@ == self@.documents[id],
    {
        self.documents.get(&id)
    }

    /// Stores `text`. The identifier is `doc_id_str` where that reads as a
    /// number, else the next value of the counter. Fails, and changes
    /// nothing, where the structure would need an entry more than its
    /// capacity or the counter is exhausted.
    pub fn insert(&mut self, text: &str, doc_id_str: &str) -> (r: Result<Insertion, ErrorKind>)
        requires
            old(self).wf(),
        ensures
            final(self).wf(),
            final(self)@ == old(self)@.insert(text@, doc_id_str@),
            match r {
                Ok(done) => old(self)@.insert_outcome(doc_id_str@) == Ok::<usize, ErrorKind>(
                    done.id,
                ) && done.fresh == !old(self)@.keys.contains(done.id),
                Err(e) => old(self)@.insert_outcome(doc_id_str@) == Err::<usize, ErrorKind>(e),
            },
    {
        let given = parse_id(doc_id_str);
        let id = match given {
            Some(g) => g,
            None => {
                if self.next_id == usize::MAX {
                    return Err(ErrorKind::IndexCapacity);
                }
                self.next_id
            },
        };
        let known = self.has_key(id);
        if !known && self.keys.len() >= self.config.max_capacity {
            return Err(ErrorKind::IndexCapacity);
        }
        let ghost before = self@;
        if !known {
            self.keys.push(id);
        }
        self.documents.insert(id, text.to_owned());
        if given.is_none() {
            self.next_id = self.next_id + 1;
        }
        proof {
            assert(self@.documents =~= before.documents.insert(id, text@));
            assert forall|other: usize| self@.documents.contains_key(other) implies self@.keys.contains(
                other,
            ) by {
                if other == id {
                    if !known {
                        assert(self@.keys[before.keys.len() as int] == id);
                    }
                } else {
                    assert(before.documents.contains_key(other));
                    assert(before.keys.contains(other));
                    let k = choose|k: int| 0 <= k < before.keys.len() && before.keys[k] == other;
                    assert(self@.keys[k] == other);
                }
            }
        }
        Ok(Insertion { id, fresh: !known })
    }

    /// The insertion as a whole, given how the embedding of `text` went:
    /// `vector_len` is the length of the vector, or `None` where the text
    /// could not be embedded. Without a vector nothing is changed and the
    /// failure is reported as such; with one, `text` is stored as `insert`
    /// stores it. A vector of another length than the index was built for
    /// is the caller's fault.
    pub fn insert_encoded(
        &mut self,
        text: &str,
        doc_id_str: &str,
        vector_len: Option<usize>,
    ) -> (r: Result<Insertion, ErrorKind>)
        requires
            old(self).wf(),
            vector_len matches Some(n) ==> n == old(self)@.config.dimension,
        ensures
            final(self).wf(),
            vector_len is None ==> *final(self) == *old(self) && r == Err::<Insertion, ErrorKind>(
                ErrorKind::Encode,
            ),
            vector_len is Some ==> final(self)@ == old(self)@.insert(text@, doc_id_str@) && match r {
                Ok(done) => old(self)@.insert_outcome(doc_id_str@) == Ok::<usize, ErrorKind>(
                    done.id,
                ) && done.fresh == !old(self)@.keys.contains(done.id),
                Err(e) => old(self)@.insert_outcome(doc_id_str@) == Err::<usize, ErrorKind>(e),
            },
    {
        match vector_len {
            None => Err(ErrorKind::Encode),
            Some(_) => self.insert(text, doc_id_str),
        }
    }

    /// Deletes the document whose identifier `doc_id_str` writes, and says
    /// whether it had a text. Fails, and changes nothing, where
    /// `doc_id_str` does not read as a number.
    pub fn delete_document(&mut self, doc_id_str: &str) -> (r: Result<bool, ErrorKind>)
        requires
            old(self).wf(),
        ensures
            final(self).wf(),
            match parsed_id(doc_id_str@) {
                Some(id) => final(self)@ == old(self)@.soft_delete(id) && r == Ok::<
                    bool,
                    ErrorKind,
                >(old(self)@.documents.contains_key(id)),
                None => *final(self) == *old(self) && r == Err::<bool, ErrorKind>(
                    ErrorKind::Validation,
                ),
            },
    {
        match parse_id(doc_id_str) {
            Some(id) => Ok(self.soft_delete(id)),
            None => Err(ErrorKind::Validation),
        }
    }

    /// Deletes the text stored under `id` and says whether there was one.
    /// The entry in the structure stays, as a tombstone.
    pub fn soft_delete(&mut self, id: usize) -> (removed: bool)
        requires
            old(self).wf(),
        ensures
            final(self).wf(),
            final(self)@ == old(self)@.soft_delete(id),
            removed == old(self)@.documents.contains_key(id),
    {
        let ghost before = self@;
        let removed = self.documents.remove(&id);
        assert(self@.documents =~= before.documents.remove(id));
        removed.is_some()
    }

    /// How many hits a search for `k` asks of the structure: `k`, but no
    /// more than the structure holds.
    pub fn effective_k(&self, k: usize) -> (n: usize)
        ensures
            n == self@.effective_k(k),
            (k == 0 || self@.keys.len() == 0) ==> n == 0,
    {
        if k <= self.keys.len() {
            k
        } else {
            self.keys.len()
        }
    }

    /// The entries of `found` that are live, in the order of `found`.
    fn live_of(&self, found: &Vec<Neighbour>) -> (live: Vec<Neighbour>)
        ensures
            live@ == live_found(found@, self@.documents),
    {
        let mut live: Vec<Neighbour> = Vec::new();
        let mut i: usize = 0;
        assert(found@.take(0) =~= Seq::<Neighbour>::empty());
        while i < found.len()
            invariant
                i <= found@.len(),
                live@ == live_found(found@.take(i as int), self@.documents),
            decreases found@.len() - i,
        {
            let x = found[i];
            assert(found@.take(i + 1).drop_last() =~= found@.take(i as int));
            assert(found@.take(i + 1).last() == x);
            if self.is_live(x.id) {
                live.push(x);
            }
            i += 1;
        }
        assert(found@.take(found@.len() as int) =~= found@);
        live
    }

    /// Turns what the structure found for a query into the result of a
    /// search for `k`: tombstones and unknown identifiers are left out, the
    /// nearest entry comes first, and of two equally near entries the one
    /// that was inserted first. Nothing is returned for `k == 0` or from an
    /// empty index.
    pub fn search(&self, found: &Vec<Neighbour>, k: usize) -> (hits: Vec<usize>)
        requires
            self.wf(),
        ensures
            hits@ == self@.search(found@, k),
            (k == 0 || self@.keys.len() == 0) ==> hits@.len() == 0,
    {
        let limit = self.effective_k(k);
        let live = self.live_of(found);
        let best = rank(&self.keys, &live);
        let mut hits: Vec<usize> = Vec::new();
        let mut i: usize = 0;
        while i < best.len() && i < limit
            invariant
                i <= best@.len(),
                i <= limit,
                hits@ == ids_of(best@.take(i as int)),
            decreases best@.len() - i,
        {
            hits.push(best[i].id);
            assert(hits@ =~= ids_of(best@.take(i + 1)));
            i += 1;
        }
        assert(best@.take(i as int) =~= first_n(best@, limit as nat));
        hits
    }

    /// The texts of the identifiers `ids`, in their order; an identifier
    /// without a text is passed over.
    pub fn texts_of(&self, ids: &Vec<usize>) -> (texts: Vec<String>)
        requires
            self.wf(),
        ensures
            crate::models::views(texts@) == self@.texts(live_hits(ids@, self@.documents)),
    {
        let mut texts: Vec<String> = Vec::new();
        let mut i: usize = 0;
        assert(ids@.take(0) =~= Seq::empty());
        assert(crate::models::views(texts@) =~= self@.texts(Seq::empty()));
        while i < ids.len()
            invariant
                self.wf(),
                i <= ids@.len(),
                crate::models::views(texts@) == self@.texts(
                    live_hits(ids@.take(i as int), self@.documents),
                ),
            decreases ids@.len() - i,
        {
            let ghost before = live_hits(ids@.take(i as int), self@.documents);
            let ghost seen = crate::models::views(texts@);
            assert(ids@.take(i + 1).drop_last() =~= ids@.take(i as int));
            assert(ids@.take(i + 1).last() == ids@[i as int]);
            match self.resolve_text(ids[i]) {
                Some(t) => {
                    texts.push(t.clone());
                    assert forall|j: int| 0 <= j < texts@.len() implies crate::models::views(
                        texts@,
                    )[j] == self@.texts(before.push(ids@[i as int]))[j] by {
                        if j < seen.len() {
                            assert(crate::models::views(texts@)[j] == seen[j]);
                            assert(seen[j] == self@.texts(before)[j]);
                        }
                    }
                    assert(seen.len() == before.len());
                    assert(crate::models::views(texts@).len() == before.len() + 1);
                    assert(crate::models::views(texts@) =~= self@.texts(before.push(ids@[i as int])));
                },
                None => {},
            }
            i += 1;
        }
        assert(ids@.take(ids@.len() as int) =~= ids@);
        texts
    }
}

/// Whether `keys` holds `id`.
fn contains_key(keys: &Vec<usize>, id: usize) -> (b: bool)
    ensures
        b == keys@.contains(id),
{
    let mut i: usize = 0;
    while i < keys.len()
        invariant
            i <= keys@.len(),
            forall|j: int| 0 <= j < i ==> keys@[j] != id,
        decreases keys@.len() - i,
    {
        if keys[i] == id {
            return true;
        }
        i += 1;
    }
    false
}

/// Whether no key occurs twice.
fn keys_distinct(keys: &Vec<usize>) -> (b: bool)
    ensures
        b == keys@.no_duplicates(),
{
    let mut i: usize = 0;
    while i < keys.len()
        invariant
            i <= keys@.len(),
            forall|a: int, b: int| 0 <= a < b < i ==> keys@[a] != keys@[b],
        decreases keys@.len() - i,
    {
        let mut j: usize = 0;
        while j < i
            invariant
                j <= i < keys@.len(),
                forall|a: int| 0 <= a < j ==> keys@[a] != keys@[i as int],
            decreases i - j,
        {
            if keys[j] == keys[i] {
                return false;
            }
            j += 1;
        }
        i += 1;
    }
    assert forall|a: int, b: int|
        0 <= a < keys@.len() && 0 <= b < keys@.len() && a != b implies keys@[a] != keys@[b] by {
        if a < b {
            assert(keys@[a] != keys@[b]);
        } else {
            assert(keys@[b] != keys@[a]);
        }
    }
    true
}

/// Whether every document has its identifier among `keys`.
fn documents_keyed(keys: &Vec<usize>, docs: &HashMap<usize, String>) -> (b: bool)
    requires
        keys@.no_duplicates(),
    ensures
        b == (forall|id: usize| text_map(docs@).contains_key(id) ==> keys@.contains(id)),
{
    let ghost live = docs@.dom();
    let mut met: usize = 0;
    let mut i: usize = 0;
    assert(keys@.take(0) =~= Seq::<usize>::empty());
    while i < keys.len()
        invariant
            i <= keys@.len(),
            live == docs@.dom(),
            met == live_count(keys@.take(i as int), live),
            met <= i,
        decreases keys@.len() - i,
    {
        assert(keys@.take(i + 1).drop_last() =~= keys@.take(i as int));
        assert(keys@.take(i + 1).last() == keys@[i as int]);
        if docs.contains_key(&keys[i]) {
            met += 1;
        }
        i += 1;
    }
    assert(keys@.take(keys@.len() as int) =~= keys@);
    proof {
        lemma_live_count(keys@, live);
        assert(forall|id: usize| text_map(docs@).contains_key(id) == live.contains(id));
    }
    met == docs.len()
}

/// The identifier the counter starts from.
fn seed_of(keys: &Vec<usize>, docs: &HashMap<usize, String>) -> (seed: usize)
    ensures
        seed == seed_id(keys@, text_map(docs@)),
{
    let mut seed: usize = 0;
    let mut i: usize = 0;
    assert(keys@.take(0) =~= Seq::<usize>::empty());
    while i < keys.len()
        invariant
            i <= keys@.len(),
            seed == seed_id(keys@.take(i as int), text_map(docs@)),
        decreases keys@.len() - i,
    {
        let id = keys[i];
        assert(keys@.take(i + 1).drop_last() =~= keys@.take(i as int));
        assert(keys@.take(i + 1).last() == id);
        if docs.contains_key(&id) && id >= seed {
            seed = if id == usize::MAX {
                usize::MAX
            } else {
                id + 1
            };
        }
        i += 1;
    }
    assert(keys@.take(keys@.len() as int) =~= keys@);
    seed
}

} // verus!
