//! Wire-format tests: exact encodings, round-trips, rejected inputs,
//! and agreement with an independent serializer for the shared layout
//! (little-endian fixed-width integers, u64 length prefixes, u32 tags).

use nomos_vm::codec::{
    decode_action, decode_message, decode_store, encode_action, encode_message, encode_store,
    Action, ExecutionMessage,
};
use nomos_vm::{Store, VmError};

fn roundtrip_action(a: Action) -> Action {
    let bytes = encode_action(&a);
    decode_action(&bytes).unwrap()
}

#[test]
fn action_increment_round_trip() {
    assert_eq!(roundtrip_action(Action::Increment(6)), Action::Increment(6));
    assert_eq!(roundtrip_action(Action::Increment(0)), Action::Increment(0));
    assert_eq!(roundtrip_action(Action::Increment(-7)), Action::Increment(-7));
    assert_eq!(
        roundtrip_action(Action::Increment(i32::MIN)),
        Action::Increment(i32::MIN)
    );
    assert_eq!(
        roundtrip_action(Action::Increment(i32::MAX)),
        Action::Increment(i32::MAX)
    );
}

#[test]
fn action_upgrade_round_trip() {
    assert_eq!(
        roundtrip_action(Action::Upgrade(vec![])),
        Action::Upgrade(vec![])
    );
    assert_eq!(
        roundtrip_action(Action::Upgrade(vec![0, 1, 255, 42])),
        Action::Upgrade(vec![0, 1, 255, 42])
    );
}

#[test]
fn action_execute_round_trip() {
    assert_eq!(
        roundtrip_action(Action::Execute(vec![9; 1000])),
        Action::Execute(vec![9; 1000])
    );
}

#[test]
fn action_exact_bytes() {
    assert_eq!(encode_action(&Action::Increment(6)), vec![0, 0, 0, 0, 6, 0, 0, 0]);
    assert_eq!(
        encode_action(&Action::Increment(-1)),
        vec![0, 0, 0, 0, 255, 255, 255, 255]
    );
    assert_eq!(
        encode_action(&Action::Upgrade(vec![7, 8])),
        vec![1, 0, 0, 0, 2, 0, 0, 0, 0, 0, 0, 0, 7, 8]
    );
    assert_eq!(
        encode_action(&Action::Execute(vec![5])),
        vec![2, 0, 0, 0, 1, 0, 0, 0, 0, 0, 0, 0, 5]
    );
}

#[test]
fn action_matches_independent_serializer() {
    // bincode's default layout for an enum is a little-endian u32 tag
    // followed by the variant's fields, which is this crate's layout.
    assert_eq!(
        encode_action(&Action::Increment(6)),
        bincode::serialize(&(0u32, 6i32)).unwrap()
    );
    assert_eq!(
        encode_action(&Action::Upgrade(vec![7u8, 8u8])),
        bincode::serialize(&(1u32, vec![7u8, 8u8])).unwrap()
    );
    assert_eq!(
        encode_action(&Action::Execute(vec![5u8])),
        bincode::serialize(&(2u32, vec![5u8])).unwrap()
    );
}

#[test]
fn action_decode_rejects_bad_input() {
    assert_eq!(decode_action(&[]), Err(VmError::Decode));
    assert_eq!(decode_action(&[0, 0, 0]), Err(VmError::Decode));
    // unknown tag
    assert_eq!(decode_action(&[9, 0, 0, 0, 1, 0, 0, 0]), Err(VmError::Decode));
    // truncated payload
    assert_eq!(decode_action(&[1, 0, 0, 0, 2, 0, 0, 0, 0, 0, 0, 0, 7]), Err(VmError::Decode));
    // trailing garbage
    assert_eq!(
        decode_action(&[0, 0, 0, 0, 6, 0, 0, 0, 99]),
        Err(VmError::Decode)
    );
}

#[test]
fn message_round_trip() {
    let m = ExecutionMessage {
        code_key: b"code_to_execute".to_vec(),
        store_key: b"child_store".to_vec(),
        entry_function_name: "_run".to_string(),
    };
    let bytes = encode_message(&m);
    let d = decode_message(&bytes).unwrap();
    assert_eq!(d, m);
}

#[test]
fn message_round_trip_unicode_and_empty() {
    let m = ExecutionMessage {
        code_key: vec![],
        store_key: vec![0, 255],
        entry_function_name: "héllo → wörld".to_string(),
    };
    let d = decode_message(&encode_message(&m)).unwrap();
    assert_eq!(d, m);
}

#[test]
fn message_matches_independent_serializer() {
    let m = ExecutionMessage {
        code_key: b"code".to_vec(),
        store_key: b"store".to_vec(),
        entry_function_name: "_run".to_string(),
    };
    // A struct is its fields in order; strings carry a u64 length and
    // their UTF-8 bytes.
    let expected = bincode::serialize(&(
        b"code".to_vec(),
        b"store".to_vec(),
        "_run".to_string(),
    ))
    .unwrap();
    assert_eq!(encode_message(&m), expected);
}

#[test]
fn message_decode_rejects_bad_input() {
    assert_eq!(decode_message(&[]), Err(VmError::Decode));
    // valid keys, then a name that is not UTF-8
    let mut bytes = Vec::new();
    bytes.extend_from_slice(&0u64.to_le_bytes());
    bytes.extend_from_slice(&0u64.to_le_bytes());
    bytes.extend_from_slice(&1u64.to_le_bytes());
    bytes.push(0xff);
    assert_eq!(decode_message(&bytes), Err(VmError::Decode));
    // trailing garbage
    let m = ExecutionMessage {
        code_key: vec![1],
        store_key: vec![2],
        entry_function_name: "f".to_string(),
    };
    let mut enc = encode_message(&m);
    enc.push(0);
    assert_eq!(decode_message(&enc), Err(VmError::Decode));
}

#[test]
fn store_round_trip() {
    let mut st = Store::new();
    st.insert(b"alpha".to_vec(), vec![1, 2, 3]);
    st.insert(b"beta".to_vec(), vec![]);
    st.insert(b"alpha".to_vec(), vec![9]);
    let bytes = encode_store(&st);
    let d = decode_store(&bytes).unwrap();
    assert_eq!(d.get(b"alpha"), Some(&vec![9u8]));
    assert_eq!(d.get(b"beta"), Some(&vec![]));
    assert_eq!(d.get(b"gamma"), None);
}

#[test]
fn empty_store_matches_independent_serializer() {
    let st = Store::new();
    let empty: std::collections::BTreeMap<Vec<u8>, Vec<u8>> = std::collections::BTreeMap::new();
    assert_eq!(encode_store(&st), bincode::serialize(&empty).unwrap());
}

#[test]
fn store_matches_independent_serializer() {
    // Entries keep insertion order; inserting in sorted order matches a
    // sorted-map serialization byte for byte.
    let mut st = Store::new();
    st.insert(b"a".to_vec(), vec![1]);
    st.insert(b"b".to_vec(), vec![2, 3]);
    let mut m: std::collections::BTreeMap<Vec<u8>, Vec<u8>> = std::collections::BTreeMap::new();
    m.insert(b"a".to_vec(), vec![1]);
    m.insert(b"b".to_vec(), vec![2, 3]);
    assert_eq!(encode_store(&st), bincode::serialize(&m).unwrap());
}

#[test]
fn store_decode_rejects_bad_input() {
    assert!(decode_store(&[]).is_err());
    // claims one entry, holds none
    assert!(decode_store(&1u64.to_le_bytes()).is_err());
    // trailing garbage after a valid empty store
    let mut bytes = 0u64.to_le_bytes().to_vec();
    bytes.push(1);
    assert!(decode_store(&bytes).is_err());
}
