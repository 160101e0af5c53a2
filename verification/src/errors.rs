//! Error taxonomy of the indexing pipeline.

use vstd::prelude::*;

verus! {

/// Everything that can go wrong across the pipeline, by origin and
/// severity.
#[derive(Clone, Copy, Debug, PartialEq, Eq, Structural)]
pub enum IndexError {
    /// The store could not be opened or created at startup. Fatal: the
    /// process must not proceed without a usable store.
    StoreInit,
    /// Deleting by identity before an insert failed. Non-fatal: the
    /// insert proceeds, accepting a transient duplicate until the next
    /// merge.
    DeleteBeforeInsert,
    /// A commit attempt failed. Retried with bounded backoff; after
    /// exhaustion surfaced and the worker continues.
    Commit,
    /// A free-text query string could not be parsed. The whole query
    /// call fails; no partial results.
    QueryParse,
    /// A declared schema field could not be located at runtime: an
    /// invariant violation, to fail loudly.
    FieldLookup,
}

impl IndexError {
    /// Whether the error must end the affected operation outright rather
    /// than be absorbed by the pipeline: store-level and schema-level
    /// failures are not recoverable by the caller.
    pub open spec fn spec_fatal(self) -> bool {
        self is StoreInit || self is FieldLookup
    }

    /// Runtime form of [`IndexError::spec_fatal`].
    pub fn is_fatal(&self) -> (b: bool)
        ensures
            b == self.spec_fatal(),
    {
        match self {
            IndexError::StoreInit => true,
            IndexError::FieldLookup => true,
            _ => false,
        }
    }

    /// A short diagnostic for logs and responses.
    pub fn message(&self) -> (r: &'static str)
        ensures
            (*self is StoreInit) ==> r@ == "could not open or create the index store"@,
            (*self is DeleteBeforeInsert) ==> r@ == "could not delete the previous document"@,
            (*self is Commit) ==> r@ == "commit failed"@,
            (*self is QueryParse) ==> r@ == "malformed query string"@,
            (*self is FieldLookup) ==> r@ == "declared schema field not found"@,
    {
        match self {
            IndexError::StoreInit => "could not open or create the index store",
            IndexError::DeleteBeforeInsert => "could not delete the previous document",
            IndexError::Commit => "commit failed",
            IndexError::QueryParse => "malformed query string",
            IndexError::FieldLookup => "declared schema field not found",
        }
    }
}

} // verus!
