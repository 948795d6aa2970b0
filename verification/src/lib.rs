//! The retrieval core of a question-answering service over stored documents.
//!
//! - `text`: trimming, newline folding, file extensions, decimal
//!   identifiers.
//! - `index`: the index manager, which keeps the document map, the keys of
//!   the nearest-neighbour structure and the identifier counter as one unit;
//!   `index_proofs`: what holds of it in every state.
//! - `ranking`: the order of search results.
//! - `cache`: the query cache.
//! - `retrieval`: from a query to its texts, metadata and prompt.
//! - `ingest`: uploads, text extraction and titles.
//! - `json`: the stored form of cached results and the exchange with the
//!   completion service.
//! - `models`, `error`: the records and the kinds of failure.
//!
//! Embedding vectors, the nearest-neighbour structure, the document store
//! and the network are the caller's. The caller hands in what they
//! returned; the functions here decide what follows from it.

pub mod cache;
pub mod error;
pub mod index;
pub mod index_proofs;
pub mod ingest;
pub mod json;
pub mod models;
pub mod ranking;
pub mod retrieval;
pub mod text;
