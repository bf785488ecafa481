//! Account-state authentication: answers "is this state, at this version, for
//! this address, authentic?" against a signed ledger checkpoint. Verification
//! is a pure function of its inputs; the checkpoint's signature is assumed to
//! have been validated by the caller.

use vstd::prelude::*;

use crate::blob::AccountStateBlob;
use crate::errors::AuthError;
use crate::hashing::digest_of;
use crate::hashing::HashValue;
use crate::merkle::spec_verify_inclusion;
use crate::merkle::verify_inclusion;
use crate::merkle::SparseMerkleProof;

verus! {

/// An account's address: the preimage of its lookup key in the state tree.
pub struct AccountAddress {
    bytes: Vec<u8>,
}

impl View for AccountAddress {
    type V = Seq<u8>;

    closed spec fn view(&self) -> Seq<u8> {
        self.bytes@
    }
}

impl AccountAddress {
    /// Wraps raw address bytes.
    pub fn new(bytes: Vec<u8>) -> (r: AccountAddress)
        ensures
            r@ == bytes@,
    {
        AccountAddress { bytes }
    }

    /// The address bytes.
    pub fn as_bytes(&self) -> (r: &Vec<u8>)
        ensures
            r@ == self@,
    {
        &self.bytes
    }

    /// The account's lookup key in the state tree: the digest of the address.
    pub fn hash(&self) -> (r: HashValue)
        ensures
            r@ == digest_of(self@),
            r.wf(),
    {
        HashValue::from_bytes_digest(&self.bytes)
    }
}

/// The consumed part of a signed ledger checkpoint: the version it summarises
/// and the state root it commits to. Signature material stays with the
/// caller, which validates it before handing the checkpoint in.
pub struct LedgerInfo {
    version: u64,
    root: HashValue,
}

impl LedgerInfo {
    /// The checkpoint's version.
    pub closed spec fn spec_version(self) -> u64 {
        self.version
    }

    /// The state root the checkpoint commits to.
    pub closed spec fn spec_root(self) -> Seq<u8> {
        self.root@
    }

    /// Assembles a checkpoint view.
    pub fn new(version: u64, root: HashValue) -> (r: LedgerInfo)
        ensures
            r.spec_version() == version,
            r.spec_root() == root@,
    {
        LedgerInfo { version, root }
    }

    /// The checkpoint's version.
    pub fn version(&self) -> (r: u64)
        ensures
            r == self.spec_version(),
    {
        self.version
    }

    /// The state root.
    pub fn root(&self) -> (r: &HashValue)
        ensures
            r@ == self.spec_root(),
    {
        &self.root
    }
}

/// The digest the state tree binds to an account: the hash of its blob, or
/// nothing for an absent account.
pub open spec fn spec_blob_hash(blob: Option<AccountStateBlob>) -> Option<Seq<u8>> {
    match blob {
        Some(b) => Some(b.spec_hash()),
        None => None,
    }
}

/// One account's state at one ledger version, with the proof that binds it to
/// that version's state root. An absent blob means the account does not
/// exist at that version.
pub struct AccountStateWithProof {
    /// The transaction version at which this account state is seen.
    pub version: u64,
    /// The account's state; absent when the account does not exist.
    pub blob: Option<AccountStateBlob>,
    /// The proof that authenticates the value.
    pub proof: SparseMerkleProof,
}

impl AccountStateWithProof {
    /// Assembles the answer to one read.
    pub fn new(version: u64, blob: Option<AccountStateBlob>, proof: SparseMerkleProof) -> (r:
        AccountStateWithProof)
        ensures
            r.version == version,
            r.blob == blob,
            r.proof == proof,
    {
        AccountStateWithProof { version, blob, proof }
    }

    /// Verifies the carried state against `ledger_info`. A proof answering a
    /// version other than the requested one is rejected outright, whatever
    /// the proof's own merit; otherwise the blob's hash (or its absence) is
    /// checked at `Hash(address)` under the checkpoint's root.
    pub fn verify(&self, ledger_info: &LedgerInfo, version: u64, address: &AccountAddress) -> (r:
        Result<(), AuthError>)
        ensures
            self.version != version ==> r == Err::<(), AuthError>(AuthError::VersionMismatch),
            self.version == version ==> (r is Ok <==> spec_verify_inclusion(
                ledger_info.spec_root(),
                digest_of(address@),
                spec_blob_hash(self.blob),
                self.proof.spec_leaf(),
                self.proof.spec_siblings(),
            )),
            self.version == version && r is Err ==> r == Err::<(), AuthError>(
                AuthError::ProofMismatch,
            ),
    {
        if self.version != version {
            return Err(AuthError::VersionMismatch);
        }
        let key = address.hash();
        match &self.blob {
            Some(b) => verify_inclusion(ledger_info.root(), &key, Some(b.hash()), &self.proof),
            None => verify_inclusion(ledger_info.root(), &key, None, &self.proof),
        }
    }
}

} // verus!
