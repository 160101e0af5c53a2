//! Data carried across the library boundary: one ingestion record per
//! observed file, and the raw query payload a front end may send.

use vstd::prelude::*;

verus! {

/// One observation of a file's indexable state, produced by a crawler and
/// consumed by the ingestion worker. `file_id` is the stable identity used
/// for upserts. `popularity` is a numeric signal in thousandths (1000
/// stands for the neutral signal 1); `None` means the producer supplied
/// none, and scoring then falls back to the neutral default.
#[derive(Clone, Debug)]
pub struct FileDTO {
    pub file_id: String,
    pub name: String,
    pub file_path: String,
    pub date_modified: u64,
    pub metadata: String,
    pub popularity: Option<u64>,
}

/// Raw query payload of the request layer, kept as plain text until the
/// request handler shapes it into search parameters.
#[derive(Clone, Debug)]
pub struct QueryDTOInput {
    pub search_term: String,
    pub query: String,
}

} // verus!
