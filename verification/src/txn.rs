use vstd::prelude::*;

use crate::classify::cap64;

verus! {

/// gRPC status code for an aborted (write-conflicting) transaction.
pub const GRPC_ABORTED: i32 = 10;

/// gRPC status code for a rate-limited or overloaded server.
pub const GRPC_RESOURCE_EXHAUSTED: i32 = 8;

/// The transport-level outcome of one commit attempt, as the database
/// client reports it: success, a gRPC request failure carrying its status
/// code, or any other failure.
#[derive(Clone, Copy, PartialEq, Eq, Structural, Debug)]
pub enum CommitOutcome {
    Committed,
    GrpcStatus { code: i32 },
    OtherError,
}

/// Whether a failed commit is transient: a write conflict or an
/// overload signal, both of which warrant a full-transaction retry.
pub open spec fn spec_is_transient(o: CommitOutcome) -> bool {
    o matches CommitOutcome::GrpcStatus { code } && (code == GRPC_ABORTED
        || code == GRPC_RESOURCE_EXHAUSTED)
}

/// The executor's next move after one commit attempt.
#[derive(Clone, Copy, PartialEq, Eq, Structural, Debug)]
pub enum TxnStep {
    /// The transaction committed; the chunk is done.
    Done,
    /// Transient failure: retry the whole transaction after this backoff.
    Retry { backoff_ms: u64 },
    /// Fatal failure: abort the chunk and the run.
    Fail,
}

/// Decide the executor's next move: success ends the attempt loop, a write
/// conflict or resource-exhaustion signal retries the entire transaction
/// unchanged after a randomized backoff, and anything else is fatal.
pub fn next_step(outcome: &CommitOutcome) -> (r: TxnStep)
    ensures
        outcome is Committed ==> r == TxnStep::Done,
        spec_is_transient(*outcome) ==> (r matches TxnStep::Retry { backoff_ms } && 500
            <= backoff_ms < 1500),
        !(outcome is Committed) && !spec_is_transient(*outcome) ==> r == TxnStep::Fail,
{
    match outcome {
        CommitOutcome::Committed => TxnStep::Done,
        CommitOutcome::GrpcStatus { code } => {
            if *code == GRPC_ABORTED || *code == GRPC_RESOURCE_EXHAUSTED {
                TxnStep::Retry { backoff_ms: backoff_ms() }
            } else {
                TxnStep::Fail
            }
        },
        CommitOutcome::OtherError => TxnStep::Fail,
    }
}

/// Relies on rand::random_range: a duration drawn uniformly from the
/// backoff window, used to desynchronize competing transactions. Only the
/// window is promised, never a particular value.
#[verifier::external_body]
fn backoff_ms() -> (r: u64)
    ensures
        500 <= r < 1500,
{
    rand::random_range(500u64..1500u64)
}

/// What one committed chunk reports back to the orchestrator.
#[derive(Clone, Copy, PartialEq, Eq, Structural, Debug)]
pub struct ChunkStats {
    pub docs: u64,
    pub nquads: u64,
    pub aborted: u64,
}

/// Sum of the document counts of a run of chunk reports.
pub open spec fn sum_docs(ss: Seq<ChunkStats>) -> nat
    decreases ss,
{
    if ss.len() == 0 {
        0
    } else {
        sum_docs(ss.drop_last()) + ss.last().docs as nat
    }
}

/// Sum of the leaf estimates of a run of chunk reports.
pub open spec fn sum_nquads(ss: Seq<ChunkStats>) -> nat
    decreases ss,
{
    if ss.len() == 0 {
        0
    } else {
        sum_nquads(ss.drop_last()) + ss.last().nquads as nat
    }
}

/// Sum of the abort counts of a run of chunk reports.
pub open spec fn sum_aborts(ss: Seq<ChunkStats>) -> nat
    decreases ss,
{
    if ss.len() == 0 {
        0
    } else {
        sum_aborts(ss.drop_last()) + ss.last().aborted as nat
    }
}

/// Process-wide running totals, folded from every completed chunk.
#[derive(Clone, Copy, PartialEq, Eq, Structural, Debug)]
pub struct RunTotals {
    pub txns: u64,
    pub docs: u64,
    pub nquads: u64,
    pub aborts: u64,
}

impl RunTotals {
    pub fn new() -> (r: RunTotals)
        ensures
            r == (RunTotals { txns: 0u64, docs: 0u64, nquads: 0u64, aborts: 0u64 }),
    {
        RunTotals { txns: 0, docs: 0, nquads: 0, aborts: 0 }
    }

    /// Fold one completed chunk's report into the totals. Every update is
    /// exact until a counter saturates.
    pub fn fold_chunk(&mut self, s: &ChunkStats)
        ensures
            final(self).txns as nat == cap64(old(self).txns as nat + 1),
            final(self).docs as nat == cap64(old(self).docs as nat + s.docs as nat),
            final(self).nquads as nat == cap64(old(self).nquads as nat + s.nquads as nat),
            final(self).aborts as nat == cap64(old(self).aborts as nat + s.aborted as nat),
    {
        self.txns = self.txns.saturating_add(1);
        self.docs = self.docs.saturating_add(s.docs);
        self.nquads = self.nquads.saturating_add(s.nquads);
        self.aborts = self.aborts.saturating_add(s.aborted);
    }
}

/// Fold a whole run of chunk reports, in the order they completed.
pub fn fold_all(reports: &Vec<ChunkStats>) -> (r: RunTotals)
    ensures
        r.txns as nat == cap64(reports@.len()),
        r.docs as nat == cap64(sum_docs(reports@)),
        r.nquads as nat == cap64(sum_nquads(reports@)),
        r.aborts as nat == cap64(sum_aborts(reports@)),
{
    let mut t = RunTotals::new();
    let mut i: usize = 0;
    while i < reports.len()
        invariant
            i <= reports.len(),
            t.txns as nat == cap64(reports@.take(i as int).len()),
            t.docs as nat == cap64(sum_docs(reports@.take(i as int))),
            t.nquads as nat == cap64(sum_nquads(reports@.take(i as int))),
            t.aborts as nat == cap64(sum_aborts(reports@.take(i as int))),
        decreases reports.len() - i,
    {
        proof {
            assert(reports@.take(i as int + 1).drop_last() =~= reports@.take(i as int));
            assert(reports@.take(i as int + 1).last() == reports@[i as int]);
        }
        t.fold_chunk(&reports[i]);
        i = i + 1;
    }
    proof {
        assert(reports@.take(reports@.len() as int) =~= reports@);
    }
    t
}

} // verus!
