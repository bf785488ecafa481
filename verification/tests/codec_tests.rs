use ledger_auth::blob::AccountStateBlob;
use ledger_auth::codec::{decode, encode};
use ledger_auth::errors::CodecError;
use ledger_auth::state::AccountState;
use sha3::Digest;

fn state_from(entries: &[(&[u8], &[u8])]) -> AccountState {
    let mut s = AccountState::new();
    for (k, v) in entries {
        s.insert(k.to_vec(), v.to_vec());
    }
    s
}

#[test]
fn encode_deterministic_across_insert_orders() {
    let a = state_from(&[(b"alpha", b"1"), (b"beta", b"2"), (b"gamma", b"3")]);
    let b = state_from(&[(b"gamma", b"3"), (b"alpha", b"1"), (b"beta", b"2")]);
    let c = state_from(&[(b"beta", b"2"), (b"gamma", b"3"), (b"alpha", b"1")]);
    assert_eq!(encode(&a), encode(&b));
    assert_eq!(encode(&a), encode(&c));
}

#[test]
fn encode_deterministic_across_repeated_calls() {
    let s = state_from(&[(b"k", b"v")]);
    assert_eq!(encode(&s), encode(&s));
}

#[test]
fn insert_replaces_earlier_binding() {
    let mut s = AccountState::new();
    s.insert(b"k".to_vec(), b"old".to_vec());
    s.insert(b"k".to_vec(), b"new".to_vec());
    assert_eq!(s.get(&b"k".to_vec()), Some(&b"new".to_vec()));
    assert_eq!(s.len(), 1);
}

#[test]
fn decode_inverts_encode() {
    let s = state_from(&[(b"path/a", b"payload-a"), (b"path/b", b""), (b"", b"root")]);
    let bytes = encode(&s);
    let back = decode(&bytes).expect("canonical bytes must decode");
    assert_eq!(encode(&back), bytes);
    assert_eq!(back.get(&b"path/a".to_vec()), Some(&b"payload-a".to_vec()));
    assert_eq!(back.get(&b"path/b".to_vec()), Some(&b"".to_vec()));
    assert_eq!(back.get(&b"".to_vec()), Some(&b"root".to_vec()));
    assert_eq!(back.get(&b"absent".to_vec()), None);
    assert_eq!(back.len(), 3);
}

#[test]
fn decode_empty_state_round_trip() {
    let s = AccountState::new();
    let bytes = encode(&s);
    assert_eq!(bytes.len(), 8);
    let back = decode(&bytes).expect("empty state must decode");
    assert_eq!(back.len(), 0);
}

#[test]
fn decode_rejects_truncated_bytes() {
    assert!(matches!(decode(&vec![1, 2, 3]), Err(CodecError::MalformedState)));
    let s = state_from(&[(b"k", b"v")]);
    let mut bytes = encode(&s);
    bytes.pop();
    assert!(matches!(decode(&bytes), Err(CodecError::MalformedState)));
}

#[test]
fn decode_rejects_trailing_bytes() {
    let s = state_from(&[(b"k", b"v")]);
    let mut bytes = encode(&s);
    bytes.push(0);
    assert!(matches!(decode(&bytes), Err(CodecError::MalformedState)));
}

#[test]
fn decode_rejects_non_canonical_order() {
    // Two states, encoded separately, spliced so the keys descend.
    let hi = state_from(&[(b"b", b"1")]);
    let lo = state_from(&[(b"a", b"2")]);
    let hi_bytes = encode(&hi);
    let lo_bytes = encode(&lo);
    let mut spliced = Vec::new();
    spliced.extend_from_slice(&2u64.to_le_bytes());
    spliced.extend_from_slice(&hi_bytes[8..]);
    spliced.extend_from_slice(&lo_bytes[8..]);
    assert!(matches!(decode(&spliced), Err(CodecError::MalformedState)));
    // The same entries ascending are accepted.
    let mut sorted = Vec::new();
    sorted.extend_from_slice(&2u64.to_le_bytes());
    sorted.extend_from_slice(&lo_bytes[8..]);
    sorted.extend_from_slice(&hi_bytes[8..]);
    assert!(decode(&sorted).is_ok());
}

#[test]
fn blob_hash_binds_to_bytes() {
    let payload = vec![0u8, 1, 2, 250, 251, 252];
    let blob = AccountStateBlob::from_bytes(payload.clone());
    let expected: Vec<u8> = sha3::Sha3_256::digest(payload.as_slice()).to_vec();
    assert_eq!(blob.hash().as_bytes(), &expected);
    assert_eq!(blob.bytes(), &payload);
}

#[test]
fn blob_hash_is_32_bytes_and_not_the_input() {
    let blob = AccountStateBlob::from_bytes(vec![7u8; 32]);
    assert_eq!(blob.hash().as_bytes().len(), 32);
    assert_ne!(blob.hash().as_bytes(), &vec![7u8; 32]);
}

#[test]
fn blob_from_state_hashes_the_encoding() {
    let s = state_from(&[(b"k", b"v")]);
    let blob = AccountStateBlob::from_state(&s);
    assert_eq!(blob.bytes(), &encode(&s));
    let expected: Vec<u8> = sha3::Sha3_256::digest(encode(&s).as_slice()).to_vec();
    assert_eq!(blob.hash().as_bytes(), &expected);
}

#[test]
fn blob_equality_is_over_bytes() {
    let a = AccountStateBlob::from_bytes(vec![1, 2, 3]);
    let b = AccountStateBlob::from_bytes(vec![1, 2, 3]);
    let c = AccountStateBlob::from_bytes(vec![1, 2, 4]);
    assert!(a.equals(&b));
    assert!(!a.equals(&c));
}

#[test]
fn render_of_undecodable_bytes_uses_fallback() {
    let blob = AccountStateBlob::from_bytes(vec![1, 2, 3]);
    assert_eq!(
        blob.render(),
        "AccountStateBlob { Raw: 0x010203 Decoded: [fail] }"
    );
    assert_eq!(hex::encode(vec![1u8, 2, 3]), "010203");
}

#[test]
fn render_of_decodable_bytes_shows_entries() {
    let s = state_from(&[(&[0xABu8][..], &[0xCDu8][..])]);
    let blob = AccountStateBlob::from_state(&s);
    let rendered = blob.render();
    assert!(rendered.starts_with("AccountStateBlob { Raw: 0x"));
    assert!(rendered.contains("Decoded: 0xab: 0xcd "));
    assert!(!rendered.contains("[fail]"));
}

#[test]
fn test_debug_does_not_panic() {
    format!(
        "{:#?}",
        AccountStateBlob::from_bytes(vec![1u8, 2u8, 3u8]).render()
    );
}
