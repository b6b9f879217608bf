//! The in-memory key-value execution engine: owns a string-keyed mapping and
//! applies insert/get/remove transactions to it in the order consensus
//! committed them.

use vstd::prelude::*;

use crate::codec::{decode, spec_decode_tx, DecodeError};
use crate::execution_state::{
    ConsensusOutput, ExecutionIndices, ExecutionState, ExecutionStateError,
};
use crate::kv_store::KvStore;
use crate::kv_transaction::{KVTransaction, TxView};

verus! {

/// Byte length of the fixed metadata header that the upstream framer places
/// before the encoded transaction. A protocol constant shared with the
/// framer, not derived from the payload; deserialization skips exactly this
/// many bytes before interpreting the rest as the encoded transaction.
pub const HEADER_LENGTH: usize = 9;

/// Engine-specific failures of the in-memory engine. Purely in-memory, it
/// can fail in no engine-specific way: the engine's contracts rule every
/// error path out, and the contract shape is kept only for uniformity with
/// engines backed by fallible storage. The verifier asks that the type be
/// inhabited, so it holds one variant that nothing ever produces.
#[derive(Debug)]
pub enum MemoryExecutionEngineError {
    /// Never produced by this engine; every contract of the engine excludes it.
    Unreachable,
}

impl ExecutionStateError for MemoryExecutionEngineError {
    open spec fn node_error_spec(&self) -> bool {
        true
    }

    /// Were an engine error ever constructed, it would count as fatal to the
    /// local node.
    fn node_error(&self) -> (r: bool) {
        true
    }
}

/// The state transition one transaction makes on the mapping: insert binds
/// its key, remove unbinds it, get leaves the mapping untouched.
pub open spec fn kv_apply(m: Map<Seq<char>, Seq<char>>, t: TxView) -> Map<Seq<char>, Seq<char>> {
    match t {
        TxView::Insert { key, value } => m.insert(key, value),
        TxView::Get { .. } => m,
        TxView::Remove { key } => m.remove(key),
    }
}

/// The outcome one transaction reports: the value bound to its key in the
/// mapping it was applied to (the previous value for insert, the removed
/// value for remove, the current value for get), or absence.
pub open spec fn kv_outcome(m: Map<Seq<char>, Seq<char>>, t: TxView) -> Option<Seq<char>> {
    let key = match t {
        TxView::Insert { key, .. } => key,
        TxView::Get { key } => key,
        TxView::Remove { key } => key,
    };
    if m.contains_key(key) {
        Some(m[key])
    } else {
        None
    }
}

/// What the engine's deserialization returns for a framed buffer: too short
/// a buffer cannot even hold the header; otherwise the header is skipped and
/// the rest decoded as a transaction.
pub open spec fn spec_deserialize(b: Seq<u8>) -> Result<TxView, DecodeError> {
    if b.len() < HEADER_LENGTH {
        Err(DecodeError::Truncated)
    } else {
        spec_decode_tx(b.skip(HEADER_LENGTH as int))
    }
}

/// The in-memory key-value execution engine.
pub struct MemoryKVExecutionEngine {
    inner: KvStore,
}

impl View for MemoryKVExecutionEngine {
    type V = Map<Seq<char>, Seq<char>>;

    closed spec fn view(&self) -> Map<Seq<char>, Seq<char>> {
        self.inner@
    }
}

impl Default for MemoryKVExecutionEngine {
    /// An engine over an empty mapping.
    fn default() -> (r: Self)
        ensures
            r@ == Map::<Seq<char>, Seq<char>>::empty(),
    {
        MemoryKVExecutionEngine { inner: KvStore::new() }
    }
}

impl ExecutionState for MemoryKVExecutionEngine {
    type Transaction = KVTransaction<String, String>;

    type Outcome = Option<String>;

    type Error = MemoryExecutionEngineError;

    /// One apply step: the mapping takes the transaction's transition, the
    /// outcome reports the binding the transaction found, and no error can
    /// come back.
    open spec fn apply_rel(
        pre: Self,
        t: KVTransaction<String, String>,
        post: Self,
        r: Result<Option<String>, MemoryExecutionEngineError>,
    ) -> bool {
        &&& post@ == kv_apply(pre@, t@)
        &&& match r {
            Ok(o) => match o {
                Some(s) => kv_outcome(pre@, t@) == Some(s@),
                None => kv_outcome(pre@, t@) is None,
            },
            Err(_) => false,
        }
    }

    /// The engine requires single-flight delivery.
    open spec fn wants_exclusive_access() -> bool {
        true
    }

    /// Nothing is persisted, so recovery always yields the origin cursor.
    open spec fn loaded_indices(&self, r: Result<ExecutionIndices, MemoryExecutionEngineError>) -> bool {
        r == Ok::<ExecutionIndices, MemoryExecutionEngineError>(ExecutionIndices::origin())
    }

    /// Deserialization behaves exactly as [`spec_deserialize`] says.
    open spec fn deserialized(
        bytes: Seq<u8>,
        r: Result<KVTransaction<String, String>, DecodeError>,
    ) -> bool {
        match r {
            Ok(t) => spec_deserialize(bytes) == Ok::<TxView, DecodeError>(t@),
            Err(e) => spec_deserialize(bytes) == Err::<TxView, DecodeError>(e),
        }
    }

    /// Applies one transaction to the owned mapping and reports the binding
    /// it found; the read-modify-write happens under the exclusive access
    /// that `&mut self` embodies.
    fn handle_consensus_transaction(
        &mut self,
        consensus_output: &ConsensusOutput,
        execution_indices: ExecutionIndices,
        transaction: KVTransaction<String, String>,
    ) -> (r: Result<Option<String>, MemoryExecutionEngineError>) {
        let outcome = match transaction {
            KVTransaction::Insert(k, v) => self.inner.insert(k, v),
            KVTransaction::Get(k) => match self.inner.get(&k) {
                Some(v) => Some(v.clone()),
                None => None,
            },
            KVTransaction::Remove(k) => self.inner.remove(&k),
        };
        Ok(outcome)
    }

    /// Nothing was persisted, so the origin cursor is returned.
    fn load_execution_indices(&self) -> (r: Result<ExecutionIndices, MemoryExecutionEngineError>) {
        Ok(ExecutionIndices::default())
    }

    /// This engine insists on exclusive access for each apply.
    fn ask_consensus_write_lock(&self) -> (r: bool) {
        true
    }

    /// Nothing to release: exclusivity lives in the `&mut` borrow.
    fn release_consensus_write_lock(&self) {
    }

    /// Skips the framing header, then decodes the remaining bytes.
    fn deserialize(bytes: &[u8]) -> (r: Result<KVTransaction<String, String>, DecodeError>) {
        if bytes.len() < HEADER_LENGTH {
            return Err(DecodeError::Truncated);
        }
        let payload = vstd::slice::slice_subrange(bytes, HEADER_LENGTH, bytes.len());
        let r = decode(payload);
        proof {
            assert(payload@ =~= bytes@.skip(HEADER_LENGTH as int));
        }
        r
    }
}

/// Idempotent resume: applying the same consensus-output record a second
/// time, as after a restart that re-delivers the last record already
/// applied, leaves the mapping exactly as applying it once did.
pub proof fn lemma_reapply_idempotent(m: Map<Seq<char>, Seq<char>>, t: TxView)
    ensures
        kv_apply(kv_apply(m, t), t) == kv_apply(m, t),
{
    match t {
        TxView::Insert { key, value } => {
            assert(kv_apply(kv_apply(m, t), t) =~= kv_apply(m, t));
        },
        TxView::Get { .. } => {
        },
        TxView::Remove { key } => {
            assert(kv_apply(kv_apply(m, t), t) =~= kv_apply(m, t));
        },
    }
}

} // verus!
