use ledger_auth::blob::AccountStateBlob;
use ledger_auth::errors::{CodecError, ValidationError};
use ledger_auth::gas_price::NonZeroGasPrice;
use ledger_auth::state::AccountState;
use ledger_auth::validator::{
    account_resource_path_bytes, crsn_resource_path_bytes, encode_account_resource,
    encode_crsn_resource, get_account_sequence_number, AccountSequenceInfo, OnChainConfigPayload,
    SignedTransaction, TransactionValidation, VMValidator, ValidationStatus,
};

fn counter_blob(sequence_number: u64) -> AccountStateBlob {
    let mut s = AccountState::new();
    s.insert(account_resource_path_bytes(), encode_account_resource(sequence_number));
    AccountStateBlob::from_state(&s)
}

fn crsn_blob(min_nonce: u64, size: u64, counter: u64) -> AccountStateBlob {
    let mut s = AccountState::new();
    s.insert(account_resource_path_bytes(), encode_account_resource(counter));
    s.insert(crsn_resource_path_bytes(), encode_crsn_resource(min_nonce, size));
    AccountStateBlob::from_state(&s)
}

fn txn(sequence_number: u64) -> SignedTransaction {
    SignedTransaction { sender: vec![0xAA; 32], sequence_number }
}

#[test]
fn sequence_of_nonexistent_account_is_zero() {
    assert_eq!(
        get_account_sequence_number(None),
        Ok(AccountSequenceInfo::Sequential(0))
    );
}

#[test]
fn sequence_of_stored_counter() {
    let blob = counter_blob(42);
    assert_eq!(
        get_account_sequence_number(Some(&blob)),
        Ok(AccountSequenceInfo::Sequential(42))
    );
}

#[test]
fn windowed_nonce_resource_wins_over_counter() {
    let blob = crsn_blob(10, 8, 42);
    assert_eq!(
        get_account_sequence_number(Some(&blob)),
        Ok(AccountSequenceInfo::CRSN { min_nonce: 10, size: 8 })
    );
}

#[test]
fn sequence_resolution_propagates_decode_failure() {
    let blob = AccountStateBlob::from_bytes(vec![0xFF; 5]);
    assert_eq!(
        get_account_sequence_number(Some(&blob)),
        Err(CodecError::MalformedState)
    );
    // A malformed resource payload is propagated too, not defaulted over.
    let mut s = AccountState::new();
    s.insert(account_resource_path_bytes(), vec![1, 2, 3]);
    let short_resource = AccountStateBlob::from_state(&s);
    assert_eq!(
        get_account_sequence_number(Some(&short_resource)),
        Err(CodecError::MalformedState)
    );
}

#[test]
fn validation_unavailable_before_first_view() {
    let v = VMValidator::uninitialized(OnChainConfigPayload { protocol_version: 1 });
    assert_eq!(
        v.validate_transaction(&txn(0), None).err(),
        Some(ValidationError::ValidationUnavailable)
    );
}

#[test]
fn commit_notification_installs_committed_version() {
    let mut v = VMValidator::new(3, OnChainConfigPayload { protocol_version: 1 });
    assert_eq!(v.cached_version(), Some(3));
    v.notify_commit(9);
    assert_eq!(v.cached_version(), Some(9));
    // A validation after the commit is answered, at the new view.
    let blob = counter_blob(5);
    let verdict = v
        .validate_transaction(&txn(5), Some(&blob))
        .expect("fresh cache must answer");
    assert_eq!(verdict.status, None);
}

#[test]
fn commit_notification_constructs_uninitialized_cache() {
    let mut v = VMValidator::uninitialized(OnChainConfigPayload { protocol_version: 1 });
    v.notify_commit(4);
    assert_eq!(v.cached_version(), Some(4));
    assert!(v.validate_transaction(&txn(0), None).is_ok());
}

#[test]
fn restart_refreshes_view_and_config() {
    let mut v = VMValidator::new(3, OnChainConfigPayload { protocol_version: 1 });
    let r = v.restart(OnChainConfigPayload { protocol_version: 2 }, 12);
    assert_eq!(r, Ok(()));
    assert_eq!(v.cached_version(), Some(12));
}

#[test]
fn monotonic_counter_screen() {
    let v = VMValidator::new(1, OnChainConfigPayload { protocol_version: 1 });
    let blob = counter_blob(42);
    let too_old = v.validate_transaction(&txn(41), Some(&blob)).unwrap();
    assert_eq!(too_old.status, Some(ValidationStatus::SequenceNumberTooOld));
    let current = v.validate_transaction(&txn(42), Some(&blob)).unwrap();
    assert_eq!(current.status, None);
    let future = v.validate_transaction(&txn(43), Some(&blob)).unwrap();
    assert_eq!(future.status, None);
}

#[test]
fn windowed_nonce_screen() {
    let v = VMValidator::new(1, OnChainConfigPayload { protocol_version: 1 });
    let blob = crsn_blob(10, 8, 0);
    let below = v.validate_transaction(&txn(9), Some(&blob)).unwrap();
    assert_eq!(below.status, Some(ValidationStatus::SequenceNumberTooOld));
    let low_edge = v.validate_transaction(&txn(10), Some(&blob)).unwrap();
    assert_eq!(low_edge.status, None);
    let high_edge = v.validate_transaction(&txn(17), Some(&blob)).unwrap();
    assert_eq!(high_edge.status, None);
    let beyond = v.validate_transaction(&txn(18), Some(&blob)).unwrap();
    assert_eq!(beyond.status, Some(ValidationStatus::SequenceNumberTooNew));
}

#[test]
fn validation_propagates_malformed_sender_state() {
    let v = VMValidator::new(1, OnChainConfigPayload { protocol_version: 1 });
    let blob = AccountStateBlob::from_bytes(vec![9, 9, 9]);
    assert_eq!(
        v.validate_transaction(&txn(0), Some(&blob)).err(),
        Some(ValidationError::MalformedState)
    );
}

#[test]
fn new_account_accepts_first_sequence() {
    let v = VMValidator::new(1, OnChainConfigPayload { protocol_version: 1 });
    let verdict = v.validate_transaction(&txn(0), None).unwrap();
    assert_eq!(verdict.status, None);
}

#[test]
fn gas_price_scenario_name() {
    assert_eq!(NonZeroGasPrice.name(), "gas-price-unit-1");
}
