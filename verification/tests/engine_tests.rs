use dag_execution::execution_state::{
    ConsensusOutput, ExecutionIndices, ExecutionState, ExecutionStateError,
};
use dag_execution::kv_transaction::KVTransaction;
use dag_execution::memory_execution_engine::{
    MemoryExecutionEngineError, MemoryKVExecutionEngine,
};

fn output(consensus_index: u64) -> ConsensusOutput {
    ConsensusOutput { certificate_digest: 0, consensus_index }
}

fn insert(k: &str, v: &str) -> KVTransaction<String, String> {
    KVTransaction::Insert(k.to_string(), v.to_string())
}

fn get(k: &str) -> KVTransaction<String, String> {
    KVTransaction::Get(k.to_string())
}

fn remove(k: &str) -> KVTransaction<String, String> {
    KVTransaction::Remove(k.to_string())
}

fn apply(
    engine: &mut MemoryKVExecutionEngine,
    index: u64,
    t: KVTransaction<String, String>,
) -> Option<String> {
    let indices = ExecutionIndices::default();
    engine
        .handle_consensus_transaction(&output(index), indices, t)
        .expect("the in-memory engine cannot fail")
}

#[test]
fn kv_scenario() {
    let mut engine = MemoryKVExecutionEngine::default();
    assert_eq!(apply(&mut engine, 0, insert("a", "1")), None);
    assert_eq!(apply(&mut engine, 1, insert("a", "2")), Some("1".to_string()));
    assert_eq!(apply(&mut engine, 2, get("a")), Some("2".to_string()));
    assert_eq!(apply(&mut engine, 3, remove("a")), Some("2".to_string()));
    assert_eq!(apply(&mut engine, 4, get("a")), None);
}

#[test]
fn get_does_not_mutate() {
    let mut engine = MemoryKVExecutionEngine::default();
    apply(&mut engine, 0, insert("k", "v"));
    assert_eq!(apply(&mut engine, 1, get("missing")), None);
    assert_eq!(apply(&mut engine, 2, get("k")), Some("v".to_string()));
    assert_eq!(apply(&mut engine, 3, get("k")), Some("v".to_string()));
}

#[test]
fn remove_absent_key_is_absent_outcome() {
    let mut engine = MemoryKVExecutionEngine::default();
    assert_eq!(apply(&mut engine, 0, remove("nothing")), None);
}

#[test]
fn idempotent_resume() {
    // the record applied once
    let mut once = MemoryKVExecutionEngine::default();
    apply(&mut once, 0, insert("a", "1"));
    apply(&mut once, 1, insert("b", "2"));

    // the same last record re-delivered after a simulated restart that
    // reloads the progress cursor
    let mut twice = MemoryKVExecutionEngine::default();
    apply(&mut twice, 0, insert("a", "1"));
    apply(&mut twice, 1, insert("b", "2"));
    let reloaded = twice.load_execution_indices().expect("loading cannot fail");
    assert_eq!(reloaded, ExecutionIndices::default());
    apply(&mut twice, 1, insert("b", "2"));

    for key in ["a", "b", "c"] {
        assert_eq!(
            apply(&mut once, 2, get(key)),
            apply(&mut twice, 2, get(key))
        );
    }
}

#[test]
fn idempotent_resume_remove() {
    let mut once = MemoryKVExecutionEngine::default();
    apply(&mut once, 0, insert("a", "1"));
    apply(&mut once, 1, remove("a"));

    let mut twice = MemoryKVExecutionEngine::default();
    apply(&mut twice, 0, insert("a", "1"));
    apply(&mut twice, 1, remove("a"));
    apply(&mut twice, 1, remove("a"));

    assert_eq!(apply(&mut once, 2, get("a")), apply(&mut twice, 2, get("a")));
}

#[test]
fn load_execution_indices_yields_origin() {
    let engine = MemoryKVExecutionEngine::default();
    let indices = engine.load_execution_indices().expect("loading cannot fail");
    assert_eq!(indices.next_certificate_index, 0);
    assert_eq!(indices.next_batch_index, 0);
    assert_eq!(indices.next_transaction_index, 0);
}

#[test]
fn exclusive_access_discipline() {
    // The engine insists on single-flight delivery; with delivery serialized
    // as demanded, interleaved applies from two callers land in one total
    // order and every outcome is consistent with it.
    let mut engine = MemoryKVExecutionEngine::default();
    assert!(engine.ask_consensus_write_lock());
    assert_eq!(apply(&mut engine, 0, insert("k", "first")), None);
    engine.release_consensus_write_lock();
    assert!(engine.ask_consensus_write_lock());
    assert_eq!(apply(&mut engine, 1, remove("k")), Some("first".to_string()));
    engine.release_consensus_write_lock();
    assert!(engine.ask_consensus_write_lock());
    assert_eq!(apply(&mut engine, 2, insert("k", "second")), None);
    engine.release_consensus_write_lock();
    assert_eq!(apply(&mut engine, 3, get("k")), Some("second".to_string()));
}

#[test]
fn engine_error_is_node_error() {
    let e = MemoryExecutionEngineError::Unreachable;
    assert!(e.node_error());
}
