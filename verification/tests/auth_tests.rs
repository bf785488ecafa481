use ledger_auth::authenticator::{AccountAddress, AccountStateWithProof, LedgerInfo};
use ledger_auth::blob::AccountStateBlob;
use ledger_auth::chunk::AccountStatesChunkWithProof;
use ledger_auth::errors::AuthError;
use ledger_auth::hashing::{internal_hash, leaf_hash, HashValue};
use ledger_auth::merkle::{verify_inclusion, verify_range, SparseMerkleProof, SparseMerkleRangeProof};

fn h(byte: u8) -> HashValue {
    HashValue::from_raw(vec![byte; 32])
}

#[test]
fn inclusion_proof_accepts_genuine_leaf() {
    let key = h(0);
    let value_hash = h(9);
    let sibling = h(3);
    let leaf = leaf_hash(&key, &value_hash);
    // Key bits are all zero, so the leaf is the left child.
    let root = internal_hash(&leaf, &sibling);
    let proof = SparseMerkleProof::new(
        Some((key.duplicate(), value_hash.duplicate())),
        vec![sibling.duplicate()],
    );
    assert_eq!(verify_inclusion(&root, &key, Some(&value_hash), &proof), Ok(()));
}

#[test]
fn inclusion_proof_respects_key_bit_direction() {
    let key = HashValue::from_raw(vec![0xFF; 32]);
    let value_hash = h(9);
    let sibling = h(3);
    let leaf = leaf_hash(&key, &value_hash);
    // Key bits are all one, so the leaf is the right child.
    let root = internal_hash(&sibling, &leaf);
    let proof = SparseMerkleProof::new(
        Some((key.duplicate(), value_hash.duplicate())),
        vec![sibling.duplicate()],
    );
    assert_eq!(verify_inclusion(&root, &key, Some(&value_hash), &proof), Ok(()));
    // The mirrored root fails.
    let wrong_root = internal_hash(&leaf, &sibling);
    assert_eq!(
        verify_inclusion(&wrong_root, &key, Some(&value_hash), &proof),
        Err(AuthError::ProofMismatch)
    );
}

#[test]
fn inclusion_proof_rejects_corruption() {
    let key = h(0);
    let value_hash = h(9);
    let leaf = leaf_hash(&key, &value_hash);
    let proof = SparseMerkleProof::new(
        Some((key.duplicate(), value_hash.duplicate())),
        vec![],
    );
    assert_eq!(verify_inclusion(&leaf, &key, Some(&value_hash), &proof), Ok(()));
    // A single corrupted bit in the claimed value is rejected.
    let mut corrupt = vec![9u8; 32];
    corrupt[0] ^= 1;
    let corrupt_value = HashValue::from_raw(corrupt);
    assert_eq!(
        verify_inclusion(&leaf, &key, Some(&corrupt_value), &proof),
        Err(AuthError::ProofMismatch)
    );
    // A corrupted root is rejected.
    let mut root_bytes = leaf.as_bytes().clone();
    root_bytes[31] ^= 1;
    let corrupt_root = HashValue::from_raw(root_bytes);
    assert_eq!(
        verify_inclusion(&corrupt_root, &key, Some(&value_hash), &proof),
        Err(AuthError::ProofMismatch)
    );
}

#[test]
fn absence_proof_accepts_empty_subtree() {
    let key = h(0);
    let root = HashValue::placeholder();
    let proof = SparseMerkleProof::new(None, vec![]);
    assert_eq!(verify_inclusion(&root, &key, None, &proof), Ok(()));
    // Claiming a value against an empty subtree fails.
    assert_eq!(
        verify_inclusion(&root, &key, Some(&h(9)), &proof),
        Err(AuthError::ProofMismatch)
    );
}

#[test]
fn absence_proof_accepts_different_leaf() {
    let key = h(0);
    let other_key = h(4);
    let other_value = h(5);
    let root = leaf_hash(&other_key, &other_value);
    let proof = SparseMerkleProof::new(
        Some((other_key.duplicate(), other_value.duplicate())),
        vec![],
    );
    assert_eq!(verify_inclusion(&root, &key, None, &proof), Ok(()));
    // The same leaf cannot prove its own key absent.
    assert_eq!(
        verify_inclusion(&root, &other_key, None, &proof),
        Err(AuthError::ProofMismatch)
    );
}

#[test]
fn version_gating_rejects_wrong_version() {
    let root = HashValue::placeholder();
    let ledger_info = LedgerInfo::new(7, root);
    let address = AccountAddress::new(vec![0xAA; 32]);
    // A perfectly valid absence proof, answering version 6.
    let swp = AccountStateWithProof::new(6, None, SparseMerkleProof::new(None, vec![]));
    assert_eq!(
        swp.verify(&ledger_info, 7, &address),
        Err(AuthError::VersionMismatch)
    );
    // The same proof at its own version is accepted.
    let ledger_info6 = LedgerInfo::new(6, HashValue::placeholder());
    let swp6 = AccountStateWithProof::new(6, None, SparseMerkleProof::new(None, vec![]));
    assert_eq!(swp6.verify(&ledger_info6, 6, &address), Ok(()));
}

#[test]
fn account_verification_checks_blob_hash() {
    let address = AccountAddress::new(vec![0xAA; 32]);
    let key = address.hash();
    let blob = AccountStateBlob::from_bytes(vec![1, 2, 3]);
    let root = leaf_hash(&key, blob.hash());
    let proof = SparseMerkleProof::new(
        Some((key.duplicate(), blob.hash().duplicate())),
        vec![],
    );
    let ledger_info = LedgerInfo::new(3, root);
    let swp = AccountStateWithProof::new(3, Some(blob), proof);
    assert_eq!(swp.verify(&ledger_info, 3, &address), Ok(()));
    // A different blob under the same proof is rejected.
    let other = AccountStateBlob::from_bytes(vec![1, 2, 4]);
    let proof2 = SparseMerkleProof::new(
        Some((key.duplicate(), key.duplicate())),
        vec![],
    );
    let ledger_info2 = LedgerInfo::new(3, leaf_hash(&key, &key));
    let swp2 = AccountStateWithProof::new(3, Some(other), proof2);
    assert_eq!(
        swp2.verify(&ledger_info2, 3, &address),
        Err(AuthError::ProofMismatch)
    );
}

#[test]
fn range_proof_rejects_unsorted_entries() {
    let entries = vec![(h(2), h(9)), (h(1), h(9))];
    let proof = SparseMerkleRangeProof::new(vec![]);
    assert_eq!(
        verify_range(&HashValue::placeholder(), &entries, &proof),
        Err(AuthError::RangeOrderViolation)
    );
}

fn single_chunk() -> (LedgerInfo, AccountStatesChunkWithProof) {
    let key = h(1);
    let blob = AccountStateBlob::from_bytes(vec![5, 5]);
    let root = leaf_hash(&key, blob.hash());
    let ledger_info = LedgerInfo::new(11, root);
    let chunk = AccountStatesChunkWithProof {
        first_index: 4,
        last_index: 4,
        first_key: key.duplicate(),
        last_key: key.duplicate(),
        account_blobs: vec![(key, blob)],
        proof: SparseMerkleRangeProof::new(vec![]),
    };
    (ledger_info, chunk)
}

#[test]
fn chunk_verifies_contiguous_run() {
    let (ledger_info, chunk) = single_chunk();
    assert_eq!(chunk.verify(&ledger_info, 11), Ok(()));
    assert_eq!(chunk.verify(&ledger_info, 12), Err(AuthError::VersionMismatch));
}

#[test]
fn chunk_index_arithmetic_is_checked_before_crypto() {
    let (ledger_info, mut chunk) = single_chunk();
    chunk.last_index = 9;
    assert_eq!(chunk.verify(&ledger_info, 11), Err(AuthError::MalformedChunk));
    // Also on an inverted span.
    let (ledger_info2, mut chunk2) = single_chunk();
    chunk2.first_index = 8;
    chunk2.last_index = 7;
    assert_eq!(chunk2.verify(&ledger_info2, 11), Err(AuthError::MalformedChunk));
}

#[test]
fn chunk_boundary_keys_and_order_are_checked() {
    let (ledger_info, mut chunk) = single_chunk();
    chunk.first_key = h(9);
    assert_eq!(chunk.verify(&ledger_info, 11), Err(AuthError::MalformedChunk));

    // Two entries out of order: a structural error, not a cryptographic one,
    // even under a garbage root.
    let b1 = AccountStateBlob::from_bytes(vec![1]);
    let b2 = AccountStateBlob::from_bytes(vec![2]);
    let unsorted = AccountStatesChunkWithProof {
        first_index: 0,
        last_index: 1,
        first_key: h(2),
        last_key: h(1),
        account_blobs: vec![(h(2), b1), (h(1), b2)],
        proof: SparseMerkleRangeProof::new(vec![]),
    };
    let garbage = LedgerInfo::new(11, HashValue::placeholder());
    assert_eq!(unsorted.verify(&garbage, 11), Err(AuthError::MalformedChunk));
}

#[test]
fn chunk_of_two_entries_reconstructs_root() {
    let k1 = h(1);
    let k2 = h(2);
    let b1 = AccountStateBlob::from_bytes(vec![1]);
    let b2 = AccountStateBlob::from_bytes(vec![2]);
    let leaves = internal_hash(&leaf_hash(&k1, b1.hash()), &leaf_hash(&k2, b2.hash()));
    let sibling = h(7);
    let root = internal_hash(&leaves, &sibling);
    let ledger_info = LedgerInfo::new(2, root);
    let chunk = AccountStatesChunkWithProof {
        first_index: 0,
        last_index: 1,
        first_key: k1.duplicate(),
        last_key: k2.duplicate(),
        account_blobs: vec![(k1, b1), (k2, b2)],
        proof: SparseMerkleRangeProof::new(vec![sibling]),
    };
    assert_eq!(chunk.verify(&ledger_info, 2), Ok(()));
    // A wrong root is a proof mismatch.
    let wrong = LedgerInfo::new(2, HashValue::placeholder());
    assert_eq!(chunk.verify(&wrong, 2), Err(AuthError::ProofMismatch));
}
