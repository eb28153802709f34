use mazzaroth_rs::codec::CodecError;
use mazzaroth_rs::host::{insert, query, ExternalError};
use mazzaroth_rs::mock::MockRuntime;
use mazzaroth_rs::query::{Insert, Query, Select};

#[test]
fn test_validate() {
    let runtime = MockRuntime::new();
    assert_eq!(0, runtime.validate_signature(vec![], vec![], vec![]));
}

#[test]
fn test_hashes() {
    let runtime = MockRuntime::new();
    let expected: Vec<u8> = vec![];
    assert_eq!(expected, runtime.sha256(vec![]));
    assert_eq!(expected, runtime.sha3_256(vec![]));
    assert_eq!(expected, runtime.sha3_512(vec![]));
    assert_eq!(expected, runtime.keccak256(vec![]));
    assert_eq!(expected, runtime.shake256(vec![]));
}

#[test]
fn test_sender() {
    let mut runtime = MockRuntime::new();
    runtime.sender_key = Some(vec![3, 3, 3]);
    assert_eq!(vec![3, 3, 3], runtime.sender());
}

#[test]
fn test_arguments() {
    let mut runtime = MockRuntime::new();
    runtime.args = Some(vec![4, 4, 4]);
    assert_eq!(vec![4, 4, 4], runtime.arguments());
}

#[test]
fn test_ret() {
    let runtime = MockRuntime::new();
    assert_eq!((), runtime.ret(&vec![]));
}

#[test]
fn test_is_owner_true() {
    let mut runtime = MockRuntime::new();
    runtime.owner = true;
    assert_eq!(runtime.is_owner(&vec![]), true);
}

#[test]
fn test_log() {
    let mut runtime = MockRuntime::new();
    runtime.log("asdf".to_string());
    assert_eq!(vec!["asdf".to_string()], runtime.log_messages);
}

#[test]
fn test_get_miss() {
    let runtime = MockRuntime::new();
    assert_eq!(
        Err(ExternalError::MissingKeyError),
        runtime.get(&vec![1, 2, 3])
    );
}

#[test]
fn test_get() {
    let mut runtime = MockRuntime::new();
    runtime.store(&vec![1, 2], &vec![1, 1, 1, 1]);
    assert_eq!(Ok(vec![1, 1, 1, 1]), runtime.get(&vec![1, 2]));
}

#[test]
fn test_get_delete() {
    let mut runtime = MockRuntime::new();
    runtime.store(&vec![3, 2], &vec![1, 1, 1, 1]);
    runtime.delete(&vec![3, 2]).unwrap();
    assert_eq!(Err(ExternalError::MissingKeyError), runtime.get(&vec![3, 2]));
}

#[test]
fn store_replaces_value_under_key() {
    let mut runtime = MockRuntime::new();
    runtime.store(&vec![9], &vec![1]);
    runtime.store(&vec![9], &vec![2]);
    assert_eq!(Ok(vec![2]), runtime.get(&vec![9]));
    runtime.delete(&vec![9]).unwrap();
    assert_eq!(Err(ExternalError::MissingKeyError), runtime.get(&vec![9]));
}

#[test]
fn delete_missing_key_fails() {
    let mut runtime = MockRuntime::new();
    assert_eq!(
        Err(ExternalError::MissingKeyError),
        runtime.delete(&vec![42])
    );
}

#[test]
fn query_with_no_rows_is_none() {
    let mut runtime = MockRuntime::new();
    let q = Query {
        source: "T".to_string(),
        operations: vec![],
    };
    assert_eq!(Ok(None), query(&mut runtime, &q));
}

#[test]
fn query_fetches_configured_result() {
    let mut runtime = MockRuntime::new();
    runtime.query_result = Some(vec![5, 6, 7]);
    let q = Query {
        source: "T".to_string(),
        operations: vec![],
    };
    assert_eq!(Ok(Some(vec![5, 6, 7])), query(&mut runtime, &q));
}

#[test]
fn query_over_bounds_is_rejected_before_the_host() {
    let mut runtime = MockRuntime::new();
    runtime.query_result = Some(vec![1]);
    let q = Query {
        source: "x".repeat(65),
        operations: vec![],
    };
    assert_eq!(Err(CodecError::InvalidEncoding), query(&mut runtime, &q));
}

#[test]
fn insert_hands_the_encoded_row_over() {
    let mut runtime = MockRuntime::new();
    let mut row = Vec::new();
    Select { props: vec![] }.encode(&mut row).unwrap();
    let ins = Insert {
        table: "CoolTable".to_string(),
        data: row,
    };
    insert(&mut runtime, &ins).unwrap();
    let mut expected = vec![9, 0, 0, 0];
    expected.extend_from_slice(b"CoolTable");
    expected.extend_from_slice(&[4, 0, 0, 0, 0, 0, 0, 0]);
    assert_eq!(vec![expected], runtime.inserted);
}

#[test]
fn external_error_messages() {
    assert_eq!(
        "could not find key in state",
        ExternalError::MissingKeyError.message()
    );
    assert_eq!(
        "incorrect key length",
        ExternalError::KeyLengthError.message()
    );
    assert_eq!(
        "problem generating key pair",
        ExternalError::KeyPairGenerateError.message()
    );
    assert_eq!(
        "problem signing message",
        ExternalError::SignMessageError.message()
    );
}
