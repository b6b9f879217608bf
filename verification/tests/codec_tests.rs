use dag_execution::codec::{decode, encode, DecodeError};
use dag_execution::execution_state::ExecutionState;
use dag_execution::kv_transaction::{random_string, KVTransaction};
use dag_execution::memory_execution_engine::MemoryKVExecutionEngine;

#[test]
fn create_transaction() {
    let key_len = 10;
    let value_len = 100;
    let insert = KVTransaction::<String, String>::Insert(
        random_string(key_len),
        random_string(value_len),
    );
    let get = KVTransaction::<String, String>::Get(random_string(key_len));
    let remove = KVTransaction::<String, String>::Remove(random_string(key_len));
    assert_eq!(20 + key_len + value_len, encode(&insert).len());
    assert_eq!(12 + key_len, encode(&get).len());
    assert_eq!(12 + key_len, encode(&remove).len());
}

#[test]
fn insert_exact_bytes() {
    let t = KVTransaction::<String, String>::Insert("a".to_string(), "1".to_string());
    let expected: Vec<u8> = vec![
        0, 0, 0, 0, // tag: insert
        1, 0, 0, 0, 0, 0, 0, 0, // key length
        97, // "a"
        1, 0, 0, 0, 0, 0, 0, 0, // value length
        49, // "1"
    ];
    assert_eq!(expected, encode(&t));
}

#[test]
fn get_exact_bytes() {
    let t = KVTransaction::<String, String>::Get("ab".to_string());
    let expected: Vec<u8> = vec![1, 0, 0, 0, 2, 0, 0, 0, 0, 0, 0, 0, 97, 98];
    assert_eq!(expected, encode(&t));
}

#[test]
fn remove_exact_bytes() {
    let t = KVTransaction::<String, String>::Remove("k".to_string());
    let expected: Vec<u8> = vec![2, 0, 0, 0, 1, 0, 0, 0, 0, 0, 0, 0, 107];
    assert_eq!(expected, encode(&t));
}

#[test]
fn round_trip_insert() {
    let t = KVTransaction::<String, String>::Insert("key".to_string(), "value".to_string());
    let bytes = encode(&t);
    match decode(&bytes) {
        Ok(KVTransaction::Insert(k, v)) => {
            assert_eq!(k, "key");
            assert_eq!(v, "value");
        }
        other => panic!("expected an insert back, got {:?}", other),
    }
}

#[test]
fn round_trip_get() {
    let t = KVTransaction::<String, String>::Get("some key".to_string());
    let bytes = encode(&t);
    match decode(&bytes) {
        Ok(KVTransaction::Get(k)) => assert_eq!(k, "some key"),
        other => panic!("expected a get back, got {:?}", other),
    }
}

#[test]
fn round_trip_remove() {
    let t = KVTransaction::<String, String>::Remove(String::new());
    let bytes = encode(&t);
    match decode(&bytes) {
        Ok(KVTransaction::Remove(k)) => assert_eq!(k, ""),
        other => panic!("expected a remove back, got {:?}", other),
    }
}

#[test]
fn round_trip_random() {
    let t = KVTransaction::<String, String>::Insert(random_string(16), random_string(64));
    let (key, value) = match &t {
        KVTransaction::Insert(k, v) => (k.clone(), v.clone()),
        _ => unreachable!(),
    };
    match decode(&encode(&t)) {
        Ok(KVTransaction::Insert(k, v)) => {
            assert_eq!(k, key);
            assert_eq!(v, value);
        }
        other => panic!("expected an insert back, got {:?}", other),
    }
}

#[test]
fn decode_empty_is_truncated() {
    assert!(matches!(decode(&[]), Err(DecodeError::Truncated)));
    assert!(matches!(decode(&[0, 0, 0]), Err(DecodeError::Truncated)));
}

#[test]
fn decode_unknown_tag() {
    assert!(matches!(
        decode(&[9, 0, 0, 0, 0, 0, 0, 0, 0, 0, 0, 0]),
        Err(DecodeError::UnknownTag)
    ));
}

#[test]
fn decode_short_payload_is_truncated() {
    // a get announcing a five-byte key but carrying only two bytes
    assert!(matches!(
        decode(&[1, 0, 0, 0, 5, 0, 0, 0, 0, 0, 0, 0, 97, 98]),
        Err(DecodeError::Truncated)
    ));
}

#[test]
fn decode_invalid_utf8() {
    assert!(matches!(
        decode(&[1, 0, 0, 0, 1, 0, 0, 0, 0, 0, 0, 0, 0xff]),
        Err(DecodeError::InvalidUtf8)
    ));
}

#[test]
fn decode_trailing_bytes() {
    let mut bytes = encode(&KVTransaction::<String, String>::Get("a".to_string()));
    bytes.push(0);
    assert!(matches!(decode(&bytes), Err(DecodeError::TrailingBytes)));
}

#[test]
fn deserialize_skips_header() {
    let t = KVTransaction::<String, String>::Insert("a".to_string(), "b".to_string());
    let mut framed: Vec<u8> = vec![7; 9];
    framed.extend_from_slice(&encode(&t));
    match MemoryKVExecutionEngine::deserialize(&framed) {
        Ok(KVTransaction::Insert(k, v)) => {
            assert_eq!(k, "a");
            assert_eq!(v, "b");
        }
        other => panic!("expected an insert back, got {:?}", other),
    }
}

#[test]
fn deserialize_short_frame_is_truncated() {
    assert!(matches!(
        MemoryKVExecutionEngine::deserialize(&[0; 8]),
        Err(DecodeError::Truncated)
    ));
}

#[test]
fn random_string_shape() {
    let s = random_string(32);
    assert_eq!(s.chars().count(), 32);
    assert!(s.chars().all(|c| c.is_ascii_alphanumeric()));
    assert_eq!(random_string(0), "");
}
