use move_abi::metadata::{
    abi_move_key_bytes, abi_move_metadata, abi_move_payload, find_abi_move_payload,
    is_abi_move_key, Metadata, MetadataError,
};

fn entry(key: &[u8], value: &[u8]) -> Metadata {
    Metadata { key: key.to_vec(), value: value.to_vec() }
}

#[test]
fn key_is_abi_move() {
    assert_eq!(abi_move_key_bytes(), b"abi_move".to_vec());
    assert!(is_abi_move_key(&b"abi_move".to_vec()));
    assert!(!is_abi_move_key(&b"abi_mov".to_vec()));
    assert!(!is_abi_move_key(&b"abi_movE".to_vec()));
    assert!(!is_abi_move_key(&Vec::new()));
}

#[test]
fn store_without_the_key_is_absent() {
    let store = vec![entry(b"other", b"1"), entry(b"abi", b"2"), entry(b"abi_move_", b"3")];
    assert_eq!(find_abi_move_payload(&store), Ok(None));
    assert_eq!(find_abi_move_payload(&Vec::new()), Ok(None));
}

#[test]
fn two_entries_under_the_key_are_rejected() {
    let same = vec![entry(b"abi_move", b"x"), entry(b"abi_move", b"x")];
    assert_eq!(find_abi_move_payload(&same), Err(MetadataError::DuplicateKey));
    let differ = vec![entry(b"abi_move", b"x"), entry(b"k", b""), entry(b"abi_move", b"y")];
    assert_eq!(find_abi_move_payload(&differ), Err(MetadataError::DuplicateKey));
}

#[test]
fn encoded_entry_decodes_to_its_payload() {
    let payload = b"{\"event_map\": {}, \"func_map\": {}}".to_vec();
    let store = vec![entry(b"other", b"1"), abi_move_metadata(payload.clone()), entry(b"z", b"")];
    assert_eq!(find_abi_move_payload(&store), Ok(Some(payload.clone())));
    assert_eq!(abi_move_payload(&store[1]), Some(payload));
    assert_eq!(abi_move_payload(&store[0]), None);
}
