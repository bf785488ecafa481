//! Batch authentication: a contiguous, ordered run of account states checked
//! as one unit against a range proof. Local structure is checked first; a
//! structural violation is `MalformedChunk`, never a cryptographic failure.

use vstd::prelude::*;

use crate::blob::AccountStateBlob;
use crate::byteorder::lex_lt;
use crate::errors::AuthError;
use crate::hashing::HashValue;
use crate::merkle::hash_pairs_view;
use crate::merkle::spec_verify_range;
use crate::merkle::verify_range;
use crate::merkle::SparseMerkleRangeProof;
use crate::state::sorted_adjacent;

verus! {

/// The (key digest, blob digest) sequence a chunk hands to the range proof.
pub open spec fn chunk_entry_hashes(blobs: Seq<(HashValue, AccountStateBlob)>) -> Seq<(Seq<u8>,
    Seq<u8>)> {
    Seq::new(blobs.len(), |i: int| (blobs[i].0@, blobs[i].1.spec_hash()))
}

/// A single chunk of all account states at a specific version: a contiguous
/// slice of the state tree's leaves, by position and by key.
pub struct AccountStatesChunkWithProof {
    /// The position of the chunk's first account among all accounts.
    pub first_index: u64,
    /// The position of the chunk's last account.
    pub last_index: u64,
    /// The key of the first account in the chunk.
    pub first_key: HashValue,
    /// The key of the last account in the chunk.
    pub last_key: HashValue,
    /// The accounts' keyed state blobs, ascending by key.
    pub account_blobs: Vec<(HashValue, AccountStateBlob)>,
    /// The proof tying the run to the version's state root.
    pub proof: SparseMerkleRangeProof,
}

impl AccountStatesChunkWithProof {
    /// The chunk's internal invariants: a non-empty run whose index span
    /// matches its length, whose boundary keys are the first and last entry
    /// keys, and whose entries ascend strictly by key.
    pub open spec fn spec_consistent(self) -> bool {
        let e = chunk_entry_hashes(self.account_blobs@);
        &&& e.len() >= 1
        &&& self.first_index <= self.last_index
        &&& self.last_index - self.first_index == e.len() - 1
        &&& self.first_key@ == e[0].0
        &&& self.last_key@ == e[e.len() - 1].0
        &&& sorted_adjacent(e)
    }

    /// Verifies the chunk against a checkpoint. Structural invariants are
    /// checked before anything cryptographic: an index-arithmetic or ordering
    /// violation is `MalformedChunk` and no proof work happens for it.
    #[verifier::loop_isolation(false)]
    pub fn verify(&self, ledger_info: &crate::authenticator::LedgerInfo, version: u64) -> (r:
        Result<(), AuthError>)
        ensures
            ledger_info.spec_version() != version ==> r == Err::<(), AuthError>(
                AuthError::VersionMismatch,
            ),
            ledger_info.spec_version() == version && !self.spec_consistent() ==> r == Err::<
                (),
                AuthError,
            >(AuthError::MalformedChunk),
            ledger_info.spec_version() == version && self.spec_consistent() ==> (r is Ok
                <==> spec_verify_range(
                ledger_info.spec_root(),
                chunk_entry_hashes(self.account_blobs@),
                self.proof.spec_siblings(),
            )) && (r is Err ==> r == Err::<(), AuthError>(AuthError::ProofMismatch)),
    {
        let ghost e = chunk_entry_hashes(self.account_blobs@);
        if ledger_info.version() != version {
            return Err(AuthError::VersionMismatch);
        }
        let n = self.account_blobs.len();
        if n == 0 {
            return Err(AuthError::MalformedChunk);
        }
        if self.last_index < self.first_index {
            return Err(AuthError::MalformedChunk);
        }
        proof {
            assert(usize::MAX <= u64::MAX);
        }
        if self.last_index - self.first_index != (n - 1) as u64 {
            return Err(AuthError::MalformedChunk);
        }
        if !self.first_key.equals(&self.account_blobs[0].0) {
            proof {
                assert(e[0].0 == self.account_blobs@[0].0@);
            }
            return Err(AuthError::MalformedChunk);
        }
        if !self.last_key.equals(&self.account_blobs[n - 1].0) {
            proof {
                assert(e[n - 1].0 == self.account_blobs@[n - 1].0@);
            }
            return Err(AuthError::MalformedChunk);
        }
        let mut j: usize = 0;
        while j < n - 1
            invariant
                0 <= j <= n - 1,
                n >= 1,
                n == self.account_blobs@.len(),
                n == e.len(),
                e == chunk_entry_hashes(self.account_blobs@),
                forall|i: int|
                    #![trigger e[i]]
                    0 <= i < j ==> lex_lt(e[i].0, e[i + 1].0),
            decreases n - 1 - j,
        {
            if !self.account_blobs[j].0.lt(&self.account_blobs[j + 1].0) {
                proof {
                    assert(e[j as int].0 == self.account_blobs@[j as int].0@);
                    assert(e[j + 1].0 == self.account_blobs@[j + 1].0@);
                    assert(!sorted_adjacent(e));
                }
                return Err(AuthError::MalformedChunk);
            }
            j = j + 1;
        }
        proof {
            assert(sorted_adjacent(e));
            assert(self.spec_consistent());
        }
        // Hand the (key, blob digest) run to the range-proof path.
        let mut hashes: Vec<(HashValue, HashValue)> = Vec::new();
        let mut i: usize = 0;
        while i < n
            invariant
                0 <= i <= n,
                n == self.account_blobs@.len(),
                n == e.len(),
                e == chunk_entry_hashes(self.account_blobs@),
                hash_pairs_view(hashes@) == e.take(i as int),
            decreases n - i,
        {
            let entry = &self.account_blobs[i];
            let pair = (entry.0.duplicate(), entry.1.hash().duplicate());
            hashes.push(pair);
            proof {
                assert(hash_pairs_view(hashes@) =~~= e.take(i + 1));
            }
            i = i + 1;
        }
        proof {
            assert(e.take(n as int) =~= e);
            assert(hash_pairs_view(hashes@) == e);
        }
        let res = verify_range(ledger_info.root(), &hashes, &self.proof);
        proof {
            if res == Err::<(), AuthError>(AuthError::RangeOrderViolation) {
                assert(false);
            }
        }
        res
    }
}

} // verus!
