//! Control state of the ingestion worker: upsert ordering, batch
//! accounting, and the bounded commit-retry policy.
//!
//! The worker itself is a long-lived task that owns the consumer end of the
//! ingestion queue. Its outside work — deleting and adding documents on the
//! index writer, committing, sleeping between retries — is handed back to
//! the caller as [`WorkerAction`] values; the functions here decide, for
//! each event (a record received, a commit outcome, queue closure), which
//! actions follow and what the next control state is.

use vstd::prelude::*;
use vstd::arithmetic::div_mod::{
    lemma_div_plus_one, lemma_basic_div, lemma_small_mod, lemma_mod_add_multiples_vanish,
};
use crate::dto::FileDTO;

verus! {

/// How many times one batch's commit is attempted before the failure is
/// surfaced and the worker moves on.
pub const MAX_COMMIT_ATTEMPTS: usize = 3;

/// Fixed wait between two commit attempts, in milliseconds.
pub const COMMIT_BACKOFF_MS: u64 = 500;

/// One unit of outside work requested by the worker. The caller performs
/// the actions of a batch in order and reports commit outcomes back
/// through [`IndexWorker::on_commit_result`].
#[derive(Clone, Debug)]
pub enum WorkerAction {
    /// Delete every indexed document whose identity field equals the given
    /// value. Issued before the matching add, so that at most one live
    /// document per identity survives the next commit. A failure here is
    /// non-fatal: the caller logs it and proceeds to the add.
    DeleteByFileId(String),
    /// Stage the given record as a new document in the writer.
    AddDocument(FileDTO),
    /// Try to commit everything staged since the last successful commit.
    AttemptCommit,
    /// Wait the given number of milliseconds before the retry that follows.
    Backoff(u64),
    /// Bounded retries are exhausted: surface the error, keep running.
    ReportCommitFailure,
}

/// The batch counter after one more record, given the batch size.
pub open spec fn step_count(count: int, batch_size: int) -> int {
    if count + 1 == batch_size {
        0
    } else {
        count + 1
    }
}

/// Whether taking one more record at this counter reaches the batch
/// boundary and issues a commit.
pub open spec fn step_commits(count: int, batch_size: int) -> bool {
    count + 1 == batch_size
}

/// The batch counter after `n` records arrive at counter `count`.
pub open spec fn run_count(count: int, n: nat, batch_size: int) -> int
    decreases n,
{
    if n == 0 {
        count
    } else {
        run_count(step_count(count, batch_size), (n - 1) as nat, batch_size)
    }
}

/// How many commits a run of `n` records starting at counter `count`
/// issues.
pub open spec fn run_commits(count: int, n: nat, batch_size: int) -> int
    decreases n,
{
    if n == 0 {
        0
    } else {
        (if step_commits(count, batch_size) {
            1int
        } else {
            0int
        }) + run_commits(step_count(count, batch_size), (n - 1) as nat, batch_size)
    }
}

/// Batch boundary law, general form: from a counter `0 <= count <
/// batch_size`, a run of `n` records issues one commit per full batch —
/// `(count + n) / batch_size` in all — and leaves the counter at the
/// remainder `(count + n) % batch_size`. In particular a run of exactly
/// `batch_size` records from an empty counter issues exactly one commit.
pub proof fn lemma_batch_boundary(count: int, n: nat, batch_size: int)
    requires
        batch_size >= 1,
        0 <= count < batch_size,
    ensures
        run_commits(count, n, batch_size) == (count + n) / batch_size,
        run_count(count, n, batch_size) == (count + n) % batch_size,
    decreases n,
{
    if n == 0 {
        lemma_basic_div(count, batch_size);
        lemma_small_mod(count as nat, batch_size as nat);
    } else {
        let next = step_count(count, batch_size);
        lemma_batch_boundary(next, (n - 1) as nat, batch_size);
        if step_commits(count, batch_size) {
            // count + n == batch_size + (n - 1)
            lemma_div_plus_one(n - 1, batch_size);
            lemma_mod_add_multiples_vanish(n - 1, batch_size);
        }
    }
}

/// Control state of the single ingestion worker bound to one index store.
///
/// `batch_count` is the number of documents staged since the last commit
/// was issued; it always stays below `batch_size`. `attempts` is the
/// number of commit attempts issued in the current commit cycle, zero when
/// no commit is outstanding. `closed` records that the queue has been
/// drained and no further records are accepted.
pub struct IndexWorker {
    pub batch_size: usize,
    pub batch_count: usize,
    pub attempts: usize,
    pub closed: bool,
}

impl IndexWorker {
    /// Control-state invariant.
    pub open spec fn wf(&self) -> bool {
        &&& self.batch_size >= 1
        &&& self.batch_count < self.batch_size
        &&& self.attempts <= MAX_COMMIT_ATTEMPTS
    }

    /// A commit has been issued and its outcome has not been reported yet.
    pub open spec fn awaiting_commit(&self) -> bool {
        self.attempts >= 1
    }

    /// The queue is closed and no commit is outstanding: the worker task
    /// terminates.
    pub open spec fn finished(&self) -> bool {
        self.closed && self.attempts == 0
    }

    /// A fresh worker for a store, committing every `batch_size`
    /// documents.
    pub fn new(batch_size: usize) -> (w: IndexWorker)
        requires
            batch_size >= 1,
        ensures
            w.wf(),
            w.batch_size == batch_size,
            w.batch_count == 0,
            !w.awaiting_commit(),
            !w.closed,
    {
        IndexWorker { batch_size, batch_count: 0, attempts: 0, closed: false }
    }

    /// The two staging actions of one record: delete any document with the
    /// same identity, then add the new document — in that order, within
    /// the same write transaction.
    pub open spec fn upsert_actions(rec: FileDTO) -> Seq<WorkerAction> {
        seq![
            WorkerAction::DeleteByFileId(rec.file_id),
            WorkerAction::AddDocument(rec),
        ]
    }

    /// One record was received from the queue. The worker stages the
    /// upsert (delete before add) and counts it against the batch; when
    /// the counter reaches the batch size, and only then, a commit is
    /// issued and the counter is reset.
    pub fn on_record(&mut self, rec: FileDTO) -> (actions: Vec<WorkerAction>)
        requires
            old(self).wf(),
            !old(self).awaiting_commit(),
            !old(self).closed,
        ensures
            final(self).wf(),
            final(self).batch_size == old(self).batch_size,
            !final(self).closed,
            final(self).batch_count == step_count(
                old(self).batch_count as int,
                old(self).batch_size as int,
            ),
            final(self).awaiting_commit() == step_commits(
                old(self).batch_count as int,
                old(self).batch_size as int,
            ),
            final(self).attempts == if step_commits(
                old(self).batch_count as int,
                old(self).batch_size as int,
            ) {
                1int
            } else {
                0int
            },
            actions@ == if step_commits(
                old(self).batch_count as int,
                old(self).batch_size as int,
            ) {
                Self::upsert_actions(rec).push(WorkerAction::AttemptCommit)
            } else {
                Self::upsert_actions(rec)
            },
    {
        let mut actions: Vec<WorkerAction> = Vec::new();
        actions.push(WorkerAction::DeleteByFileId(rec.file_id.clone()));
        actions.push(WorkerAction::AddDocument(rec));
        self.batch_count = self.batch_count + 1;
        if self.batch_count == self.batch_size {
            self.batch_count = 0;
            self.attempts = 1;
            actions.push(WorkerAction::AttemptCommit);
        }
        proof {
            assert(actions@ =~= if step_commits(
                old(self).batch_count as int,
                old(self).batch_size as int,
            ) {
                Self::upsert_actions(rec).push(WorkerAction::AttemptCommit)
            } else {
                Self::upsert_actions(rec)
            });
        }
        actions
    }

    /// The outcome of the outstanding commit attempt came back. On
    /// success the cycle ends. On failure the worker retries after a fixed
    /// backoff, up to [`MAX_COMMIT_ATTEMPTS`] attempts in the cycle; after
    /// the last failed attempt it surfaces the failure and continues —
    /// staged documents stay in the writer and are covered by the next
    /// commit boundary.
    pub fn on_commit_result(&mut self, ok: bool) -> (actions: Vec<WorkerAction>)
        requires
            old(self).wf(),
            old(self).awaiting_commit(),
        ensures
            final(self).wf(),
            final(self).batch_size == old(self).batch_size,
            final(self).batch_count == old(self).batch_count,
            final(self).closed == old(self).closed,
            ok ==> !final(self).awaiting_commit() && actions@ == Seq::<WorkerAction>::empty(),
            !ok && old(self).attempts < MAX_COMMIT_ATTEMPTS ==> {
                &&& final(self).attempts == old(self).attempts + 1
                &&& actions@ == seq![
                    WorkerAction::Backoff(COMMIT_BACKOFF_MS),
                    WorkerAction::AttemptCommit,
                ]
            },
            !ok && old(self).attempts == MAX_COMMIT_ATTEMPTS ==> {
                &&& !final(self).awaiting_commit()
                &&& actions@ == seq![WorkerAction::ReportCommitFailure]
            },
    {
        let mut actions: Vec<WorkerAction> = Vec::new();
        if ok {
            self.attempts = 0;
        } else if self.attempts < MAX_COMMIT_ATTEMPTS {
            self.attempts = self.attempts + 1;
            actions.push(WorkerAction::Backoff(COMMIT_BACKOFF_MS));
            actions.push(WorkerAction::AttemptCommit);
            proof {
                assert(actions@ =~= seq![
                    WorkerAction::Backoff(COMMIT_BACKOFF_MS),
                    WorkerAction::AttemptCommit,
                ]);
            }
        } else {
            self.attempts = 0;
            actions.push(WorkerAction::ReportCommitFailure);
            proof {
                assert(actions@ =~= seq![WorkerAction::ReportCommitFailure]);
            }
        }
        actions
    }

    /// The queue closed and drained. Anything staged since the last commit
    /// — fewer than `batch_size` documents — is covered by one final
    /// commit before the worker terminates; with nothing staged the worker
    /// terminates at once.
    pub fn on_close(&mut self) -> (actions: Vec<WorkerAction>)
        requires
            old(self).wf(),
            !old(self).awaiting_commit(),
            !old(self).closed,
        ensures
            final(self).wf(),
            final(self).batch_size == old(self).batch_size,
            final(self).closed,
            final(self).batch_count == 0,
            old(self).batch_count > 0 ==> {
                &&& final(self).attempts == 1
                &&& actions@ == seq![WorkerAction::AttemptCommit]
            },
            old(self).batch_count == 0 ==> {
                &&& final(self).finished()
                &&& actions@ == Seq::<WorkerAction>::empty()
            },
    {
        self.closed = true;
        let mut actions: Vec<WorkerAction> = Vec::new();
        if self.batch_count > 0 {
            self.batch_count = 0;
            self.attempts = 1;
            actions.push(WorkerAction::AttemptCommit);
            proof {
                assert(actions@ =~= seq![WorkerAction::AttemptCommit]);
            }
        }
        actions
    }
}

} // verus!
