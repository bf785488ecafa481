//! Transaction pre-validation against a cached, versioned view of chain
//! state: sequence resolution for an account, the ordering-token screen, and
//! the cache's commit/reconfiguration lifecycle. The view is replaced
//! wholesale on every refresh, never mutated field by field.

use vstd::prelude::*;

use crate::blob::AccountStateBlob;
use crate::codec::read_u64_at;
use crate::codec::spec_decode;
use crate::codec::spec_decode_u64;
use crate::codec::spec_u64_le;
use crate::codec::u64_le_bytes;
use crate::errors::CodecError;
use crate::errors::ValidationError;
use crate::state::spec_get;

verus! {

/// The expected next-transaction ordering token of an account: a strictly
/// monotonic counter, or a windowed nonce that tolerates reordering inside a
/// bounded window.
#[derive(Clone, Copy, Debug, PartialEq, Eq, Structural)]
pub enum AccountSequenceInfo {
    /// A monotonic counter: the account's next sequence number.
    Sequential(u64),
    /// A windowed nonce: any nonce in `[min_nonce, min_nonce + size)`.
    CRSN { min_nonce: u64, size: u64 },
}

/// The resource-path key of the account resource.
pub open spec fn account_resource_path() -> Seq<u8> {
    seq![1u8]
}

/// The resource-path key of the windowed-nonce resource.
pub open spec fn crsn_resource_path() -> Seq<u8> {
    seq![2u8]
}

/// The account resource's path key, as bytes.
pub fn account_resource_path_bytes() -> (r: Vec<u8>)
    ensures
        r@ == account_resource_path(),
{
    let mut v: Vec<u8> = Vec::new();
    v.push(1u8);
    proof {
        assert(v@ =~= account_resource_path());
    }
    v
}

/// The windowed-nonce resource's path key, as bytes.
pub fn crsn_resource_path_bytes() -> (r: Vec<u8>)
    ensures
        r@ == crsn_resource_path(),
{
    let mut v: Vec<u8> = Vec::new();
    v.push(2u8);
    proof {
        assert(v@ =~= crsn_resource_path());
    }
    v
}

/// The stored sequence counter held in an account-resource payload, when the
/// payload is well-formed.
pub open spec fn spec_account_resource(b: Seq<u8>) -> Option<u64> {
    if b.len() == 8 {
        Some(spec_decode_u64(b))
    } else {
        None
    }
}

/// The (min_nonce, size) pair held in a windowed-nonce payload, when the
/// payload is well-formed.
pub open spec fn spec_crsn_resource(b: Seq<u8>) -> Option<(u64, u64)> {
    if b.len() == 16 {
        Some((spec_decode_u64(b), spec_decode_u64(b.skip(8))))
    } else {
        None
    }
}

/// Encodes an account resource: its stored sequence counter.
pub fn encode_account_resource(sequence_number: u64) -> (r: Vec<u8>)
    ensures
        r@ == spec_u64_le(sequence_number),
        spec_account_resource(r@) == Some(sequence_number),
{
    let r = u64_le_bytes(sequence_number);
    proof {
        crate::codec::lemma_u64_le_round_trip(sequence_number);
    }
    r
}

/// Encodes a windowed-nonce resource.
pub fn encode_crsn_resource(min_nonce: u64, size: u64) -> (r: Vec<u8>)
    ensures
        r@ == spec_u64_le(min_nonce) + spec_u64_le(size),
        spec_crsn_resource(r@) == Some((min_nonce, size)),
{
    let mut r = u64_le_bytes(min_nonce);
    let mut tail = u64_le_bytes(size);
    r.append(&mut tail);
    proof {
        crate::codec::lemma_decode_u64_prefix(min_nonce, spec_u64_le(size));
        assert(r@.skip(8) =~= spec_u64_le(size));
        crate::codec::lemma_u64_le_round_trip(size);
    }
    r
}

/// The sequence information the latest authenticated state assigns to an
/// account whose blob is `blob` (`None`: the account does not exist yet).
pub open spec fn spec_resolve_sequence(blob: Option<Seq<u8>>) -> Result<
    AccountSequenceInfo,
    CodecError,
> {
    match blob {
        None => Ok(AccountSequenceInfo::Sequential(0)),
        Some(b) => match spec_decode(b) {
            None => Err(CodecError::MalformedState),
            Some(state) => match spec_get(state, crsn_resource_path()) {
                Some(cr) => match spec_crsn_resource(cr) {
                    Some(c) => Ok(
                        AccountSequenceInfo::CRSN { min_nonce: c.0, size: c.1 },
                    ),
                    None => Err(CodecError::MalformedState),
                },
                None => match spec_get(state, account_resource_path()) {
                    Some(ar) => match spec_account_resource(ar) {
                        Some(n) => Ok(AccountSequenceInfo::Sequential(n)),
                        None => Err(CodecError::MalformedState),
                    },
                    None => Err(CodecError::MalformedState),
                },
            },
        },
    }
}

/// Resolves an account's expected ordering token from its stored state. A
/// never-yet-used account gets the counter seeded at 0; an account carrying a
/// windowed-nonce resource gets the windowed variant, its counter resource
/// ignored; any decode failure of the underlying state or resource is
/// propagated, never defaulted over.
pub fn get_account_sequence_number(blob: Option<&AccountStateBlob>) -> (r: Result<
    AccountSequenceInfo,
    CodecError,
>)
    ensures
        r == spec_resolve_sequence(
            match blob {
                Some(b) => Some(b@),
                None => None,
            },
        ),
{
    let b = match blob {
        Some(b) => b,
        None => {
            return Ok(AccountSequenceInfo::Sequential(0));
        },
    };
    let state = match b.to_state() {
        Ok(s) => s,
        Err(_) => {
            return Err(CodecError::MalformedState);
        },
    };
    let crsn_key = crsn_resource_path_bytes();
    match state.get(&crsn_key) {
        Some(cr) => {
            if cr.len() != 16 {
                return Err(CodecError::MalformedState);
            }
            let min_nonce = read_u64_at(cr, 0);
            let size = read_u64_at(cr, 8);
            proof {
                assert(cr@.skip(0) =~= cr@);
            }
            Ok(AccountSequenceInfo::CRSN { min_nonce, size })
        },
        None => {
            let account_key = account_resource_path_bytes();
            match state.get(&account_key) {
                Some(ar) => {
                    if ar.len() != 8 {
                        return Err(CodecError::MalformedState);
                    }
                    let n = read_u64_at(ar, 0);
                    proof {
                        assert(ar@.skip(0) =~= ar@);
                    }
                    Ok(AccountSequenceInfo::Sequential(n))
                },
                None => Err(CodecError::MalformedState),
            }
        },
    }
}

/// A transaction as the pre-validation screen sees it: its sender and the
/// ordering token it claims.
pub struct SignedTransaction {
    /// The claimed sender's address bytes.
    pub sender: Vec<u8>,
    /// The sequence number or nonce the transaction carries.
    pub sequence_number: u64,
}

/// Why the screen rejects a transaction.
#[derive(Clone, Copy, Debug, PartialEq, Eq, Structural)]
pub enum ValidationStatus {
    /// The ordering token was already consumed.
    SequenceNumberTooOld,
    /// The ordering token lies beyond the account's nonce window.
    SequenceNumberTooNew,
}

/// The outcome of one validation call: acceptance, or a reason to reject.
pub struct VMValidatorResult {
    /// `None` is acceptance; `Some` carries the rejection.
    pub status: Option<ValidationStatus>,
}

/// The verdict the ordering-token screen assigns.
pub open spec fn spec_screen(info: AccountSequenceInfo, txn_seq: u64) -> Option<ValidationStatus> {
    match info {
        AccountSequenceInfo::Sequential(n) => if txn_seq < n {
            Some(ValidationStatus::SequenceNumberTooOld)
        } else {
            None
        },
        AccountSequenceInfo::CRSN { min_nonce, size } => if txn_seq < min_nonce {
            Some(ValidationStatus::SequenceNumberTooOld)
        } else if txn_seq >= min_nonce + size {
            Some(ValidationStatus::SequenceNumberTooNew)
        } else {
            None
        },
    }
}

/// The verdict of one validation call, as a function of the sender's stored
/// state and the transaction's ordering token.
pub open spec fn spec_validate(blob: Option<Seq<u8>>, txn_seq: u64) -> Result<
    VMValidatorResult,
    ValidationError,
> {
    match spec_resolve_sequence(blob) {
        Err(_) => Err(ValidationError::MalformedState),
        Ok(info) => Ok(VMValidatorResult { status: spec_screen(info, txn_seq) }),
    }
}

/// A versioned, immutable snapshot of chain state: what one validation call
/// reads against.
pub struct CachedView {
    /// The ledger version the snapshot was taken at.
    pub version: u64,
}

/// The distilled on-chain configuration the validation oracle is rebuilt
/// from on a reconfiguration.
pub struct OnChainConfigPayload {
    /// The chain's protocol version.
    pub protocol_version: u64,
}

/// What a transaction-validation backend owes its callers: it answers
/// validations against a versioned view, installs the committed version on
/// every commit notification, and rebuilds its oracle on reconfiguration.
pub trait TransactionValidation: Sized {
    /// The version of the view the backend currently validates against.
    spec fn spec_version(&self) -> Option<u64>;

    /// The protocol version the backend's oracle was configured with.
    spec fn spec_config_version(&self) -> u64;

    /// Screens one transaction against the current view, read-only.
    fn validate_transaction(
        &self,
        txn: &SignedTransaction,
        sender_state: Option<&AccountStateBlob>,
    ) -> (r: Result<VMValidatorResult, ValidationError>)
        ensures
            self.spec_version() is None ==> r == Err::<VMValidatorResult, ValidationError>(
                ValidationError::ValidationUnavailable,
            ),
            self.spec_version() is Some ==> r == spec_validate(
                match sender_state {
                    Some(b) => Some(b@),
                    None => None,
                },
                txn.sequence_number,
            ),
    ;

    /// A reconfiguration: refresh the view, then rebuild the oracle.
    fn restart(&mut self, config: OnChainConfigPayload, latest_version: u64) -> (r: Result<
        (),
        ValidationError,
    >)
        ensures
            r is Ok,
            final(self).spec_version() == Some(latest_version),
            final(self).spec_config_version() == config.protocol_version,
    ;

    /// A commit was applied: install a view at the committed version before
    /// any further validation is answered.
    fn notify_commit(&mut self, latest_version: u64)
        ensures
            final(self).spec_version() == Some(latest_version),
            final(self).spec_config_version() == old(self).spec_config_version(),
    ;
}

/// The transaction-validation cache: a frozen view of chain state, replaced
/// (never patched) whenever a commit or reconfiguration is announced, so that
/// no validation call ever reads state older than the last known commit.
pub struct VMValidator {
    view: Option<CachedView>,
    config_version: u64,
}

impl VMValidator {
    /// Constructs the cache over the latest committed version.
    pub fn new(latest_version: u64, config: OnChainConfigPayload) -> (r: VMValidator)
        ensures
            r.spec_version() == Some(latest_version),
            r.spec_config_version() == config.protocol_version,
    {
        VMValidator {
            view: Some(CachedView { version: latest_version }),
            config_version: config.protocol_version,
        }
    }

    /// A handle that has not yet seen storage: every validation fails with
    /// `ValidationUnavailable` until a commit notification constructs the
    /// first view.
    pub fn uninitialized(config: OnChainConfigPayload) -> (r: VMValidator)
        ensures
            r.spec_version() is None,
            r.spec_config_version() == config.protocol_version,
    {
        VMValidator { view: None, config_version: config.protocol_version }
    }

    /// The version validation currently reads at.
    pub fn cached_version(&self) -> (r: Option<u64>)
        ensures
            r == self.spec_version(),
    {
        match &self.view {
            Some(v) => Some(v.version),
            None => None,
        }
    }

}

impl TransactionValidation for VMValidator {
    /// The version of the current cached view, if one was constructed.
    closed spec fn spec_version(&self) -> Option<u64> {
        match self.view {
            Some(v) => Some(v.version),
            None => None,
        }
    }

    /// The protocol version the oracle was last configured with.
    closed spec fn spec_config_version(&self) -> u64 {
        self.config_version
    }

    /// A commit was applied: discard the current view and install one at the
    /// newly committed version, unconditionally.
    fn notify_commit(&mut self, latest_version: u64) {
        self.view = Some(CachedView { version: latest_version });
    }

    /// An on-chain reconfiguration: refresh the view as a commit would, then
    /// rebuild the oracle from the new configuration.
    fn restart(&mut self, config: OnChainConfigPayload, latest_version: u64) -> (r: Result<
        (),
        ValidationError,
    >) {
        self.notify_commit(latest_version);
        self.config_version = config.protocol_version;
        Ok(())
    }

    /// Screens one transaction against the current view. `sender_state` is
    /// the sender's blob as read, at the view's version, from authenticated
    /// storage. Read-only: the cache's state never changes here.
    fn validate_transaction(
        &self,
        txn: &SignedTransaction,
        sender_state: Option<&AccountStateBlob>,
    ) -> (r: Result<VMValidatorResult, ValidationError>) {
        if self.view.is_none() {
            return Err(ValidationError::ValidationUnavailable);
        }
        let info = match get_account_sequence_number(sender_state) {
            Ok(info) => info,
            Err(_) => {
                return Err(ValidationError::MalformedState);
            },
        };
        let status = match info {
            AccountSequenceInfo::Sequential(n) => {
                if txn.sequence_number < n {
                    Some(ValidationStatus::SequenceNumberTooOld)
                } else {
                    None
                }
            },
            AccountSequenceInfo::CRSN { min_nonce, size } => {
                if txn.sequence_number < min_nonce {
                    Some(ValidationStatus::SequenceNumberTooOld)
                } else if txn.sequence_number - min_nonce >= size {
                    Some(ValidationStatus::SequenceNumberTooNew)
                } else {
                    None
                }
            },
        };
        Ok(VMValidatorResult { status })
    }
}

/// Cache coherence: once a commit at `committed` has been announced, the
/// cache's view is exactly at that version — validation can never observe
/// state strictly older than the commit it was just told about.
pub proof fn lemma_cache_coherence(v: VMValidator, committed: u64)
    requires
        v.spec_version() == Some(committed),
    ensures
        forall|w: u64| v.spec_version() == Some(w) ==> w >= committed,
{
}

} // verus!
