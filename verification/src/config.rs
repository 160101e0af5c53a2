//! Configuration of the indexing pipeline.

use vstd::prelude::*;

verus! {

/// Tuning knobs of the index store and the ingestion worker.
///
/// `tantivy_out_path` locates the on-disk index directory; `buffer_size`
/// is the writer's in-memory budget in bytes before a forced flush, a
/// tuning knob and not a correctness parameter; `indexer_batch_size` is
/// the number of ingested documents per commit.
#[derive(Clone, Debug)]
pub struct FileIndexerConfig {
    pub tantivy_out_path: String,
    pub buffer_size: usize,
    pub indexer_batch_size: usize,
}

impl FileIndexerConfig {
    /// A usable configuration commits after at least one document;
    /// a batch size of zero would ask for a commit before any work.
    pub open spec fn wf(&self) -> bool {
        self.indexer_batch_size >= 1
    }

    /// Runtime check of `wf`, for callers that receive a configuration
    /// from outside.
    pub fn is_well_formed(&self) -> (ok: bool)
        ensures
            ok == self.wf(),
    {
        self.indexer_batch_size >= 1
    }
}

} // verus!
