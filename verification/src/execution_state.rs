//! The execution contract: the state-machine-replication interface through
//! which the consensus-output delivery pipeline drives an application
//! engine. It is polymorphic over the transaction, outcome and error shapes,
//! so alternative application state machines can be substituted without
//! touching the DAG or the linkage checker.

use vstd::prelude::*;

use crate::codec::DecodeError;

verus! {

/// Progress cursor into the ordered consensus output stream: how far the
/// engine has applied it, down to the transaction within a batch within a
/// certificate. Strictly non-decreasing across successful applications, so
/// re-delivery of already-applied output can be recognized and made a no-op.
#[derive(Debug, Clone, Copy, PartialEq, Eq, Structural)]
pub struct ExecutionIndices {
    /// Index of the next certificate to process.
    pub next_certificate_index: u64,
    /// Index of the next batch within that certificate.
    pub next_batch_index: u64,
    /// Index of the next transaction within that batch.
    pub next_transaction_index: u64,
}

impl ExecutionIndices {
    /// The origin cursor: nothing applied yet.
    pub open spec fn origin() -> ExecutionIndices {
        ExecutionIndices {
            next_certificate_index: 0,
            next_batch_index: 0,
            next_transaction_index: 0,
        }
    }
}

impl Default for ExecutionIndices {
    /// The origin cursor, used on a first run when no cursor was persisted.
    fn default() -> (r: Self)
        ensures
            r == ExecutionIndices::origin(),
    {
        ExecutionIndices {
            next_certificate_index: 0,
            next_batch_index: 0,
            next_transaction_index: 0,
        }
    }
}

/// Metadata accompanying one committed consensus output record: the digest
/// of the certificate that carried it and its position in the total order.
#[derive(Debug, Clone, Copy, PartialEq, Eq, Structural)]
pub struct ConsensusOutput {
    /// Digest of the certificate this output was committed under.
    pub certificate_digest: u64,
    /// Position of the record in the totally ordered output stream.
    pub consensus_index: u64,
}

/// Classification of an engine error, so the delivery pipeline can decide
/// whether a failure is fatal to the local node or transient.
pub trait ExecutionStateError: Sized {
    /// Which class the error belongs to: `true` marks a node-level
    /// operational fault, `false` a transient per-record failure.
    spec fn node_error_spec(&self) -> bool;

    /// Whether this error is fatal to the local node.
    fn node_error(&self) -> (r: bool)
        ensures
            r == self.node_error_spec(),
    ;
}

/// The execution engine contract. The delivery pipeline invokes, per
/// transaction and in this lifecycle order: `load_execution_indices` (once,
/// at start), `ask_consensus_write_lock`, `handle_consensus_transaction`,
/// `release_consensus_write_lock`. Exclusive access during an apply is
/// embodied in `handle_consensus_transaction` taking the engine by `&mut`:
/// the type system admits no second apply in flight on the same engine.
pub trait ExecutionState: Sized {
    /// The application transaction shape.
    type Transaction;

    /// What an applied transaction reports back.
    type Outcome;

    /// Engine-specific failures.
    type Error;

    /// What one apply step means: how the state afterwards relates to the
    /// state before, and which outcome or error comes back.
    spec fn apply_rel(
        pre: Self,
        t: Self::Transaction,
        post: Self,
        r: Result<Self::Outcome, Self::Error>,
    ) -> bool;

    /// Whether the engine insists on single-flight delivery around applies.
    spec fn wants_exclusive_access() -> bool;

    /// What a recovered progress cursor may be.
    spec fn loaded_indices(&self, r: Result<ExecutionIndices, Self::Error>) -> bool;

    /// What deserialization returns for a given framed buffer.
    spec fn deserialized(bytes: Seq<u8>, r: Result<Self::Transaction, DecodeError>) -> bool;

    /// Applies one decoded transaction against owned state and reports its
    /// effect; the progress cursor conceptually advances to
    /// `execution_indices` together with the mutation.
    fn handle_consensus_transaction(
        &mut self,
        consensus_output: &ConsensusOutput,
        execution_indices: ExecutionIndices,
        transaction: Self::Transaction,
    ) -> (r: Result<Self::Outcome, Self::Error>)
        ensures
            Self::apply_rel(*old(self), transaction, *final(self), r),
    ;

    /// Recovers the last durably recorded progress cursor, or the origin
    /// cursor if none was persisted. Callable before any apply; the pipeline
    /// uses it to know where to resume delivering consensus output.
    fn load_execution_indices(&self) -> (r: Result<ExecutionIndices, Self::Error>)
        ensures
            self.loaded_indices(r),
    ;

    /// Whether the pipeline must serialize delivery to this engine: when
    /// `true`, no two applies may be in flight at once.
    fn ask_consensus_write_lock(&self) -> (r: bool)
        ensures
            r == Self::wants_exclusive_access(),
    ;

    /// Paired with the request above; invoked once an apply step completes,
    /// on every exit path.
    fn release_consensus_write_lock(&self);

    /// Recovers one transaction from a framed buffer, skipping the fixed
    /// metadata header the upstream framer placed before it.
    fn deserialize(bytes: &[u8]) -> (r: Result<Self::Transaction, DecodeError>)
        ensures
            Self::deserialized(bytes@, r),
    ;
}

} // verus!
