//! Core of a local file-search service: the document schema, the ingestion
//! worker's batching and commit-retry policy, the upsert-by-identity index
//! model, and the query composition and ranking rules. The surrounding
//! process wires these decisions to an on-disk inverted index and an HTTP
//! front end.

use vstd::prelude::*;

pub mod config;
pub mod dto;
pub mod errors;
pub mod facet;
pub mod index_model;
pub mod query;
pub mod rank;
pub mod schema;
pub mod text;
pub mod worker;

verus! {

/// Number of result documents a query returns at most.
pub const RESULT_LIMIT: usize = 10;

/// Neutral popularity signal in thousandths: stands for the numeric
/// signal 1, which leaves a relevance score unchanged.
pub const NEUTRAL_POPULARITY: u64 = 1000;

/// The popularity signal used for scoring: the stored value when one is
/// present, the neutral default when the document lacks one.
pub fn effective_popularity(stored: Option<u64>) -> (p: u64)
    ensures
        p == match stored {
            Some(v) => v,
            None => NEUTRAL_POPULARITY,
        },
{
    match stored {
        Some(v) => v,
        None => NEUTRAL_POPULARITY,
    }
}

} // verus!
