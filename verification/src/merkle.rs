//! Sparse-Merkle proof verification: inclusion (or provable absence) of one
//! key, and contiguous ranges of keyed values, both checked by reconstructing
//! a root digest and comparing it to the trusted one.

use vstd::prelude::*;

use crate::errors::AuthError;
use crate::hashing::internal_hash;
use crate::hashing::leaf_hash;
use crate::hashing::placeholder_digest;
use crate::hashing::spec_internal_hash;
use crate::hashing::spec_leaf_hash;
use crate::hashing::HashValue;
use crate::state::sorted_adjacent;

verus! {

/// The bit of a 32-byte key at `depth`, counting from the most significant
/// bit of the first byte: the branching direction at that tree level.
pub open spec fn key_bit(key: Seq<u8>, depth: int) -> bool {
    (key[depth / 8] >> ((7 - (depth % 8)) as u8)) & 1 == 1
}

fn key_bit_at(key: &HashValue, depth: usize) -> (r: bool)
    requires
        depth < 256,
        key@.len() == 32,
    ensures
        r == key_bit(key@, depth as int),
{
    let byte = key.as_bytes()[depth / 8];
    let shift = (7 - (depth % 8)) as u8;
    (byte >> shift) & 1 == 1
}

/// An inclusion or absence proof for one key: the leaf actually at the end of
/// the key's path (none for an empty subtree), and the sibling digests from
/// the bottom of the path up.
pub struct SparseMerkleProof {
    leaf: Option<(HashValue, HashValue)>,
    siblings: Vec<HashValue>,
}

impl SparseMerkleProof {
    /// The proof's leaf: a (key, value digest) pair.
    pub closed spec fn spec_leaf(self) -> Option<(Seq<u8>, Seq<u8>)> {
        match self.leaf {
            Some(l) => Some((l.0@, l.1@)),
            None => None,
        }
    }

    /// The proof's sibling digests, bottom-up.
    pub closed spec fn spec_siblings(self) -> Seq<Seq<u8>> {
        Seq::new(self.siblings@.len(), |i: int| self.siblings@[i]@)
    }

    /// Assembles a proof.
    pub fn new(leaf: Option<(HashValue, HashValue)>, siblings: Vec<HashValue>) -> (r:
        SparseMerkleProof)
        ensures
            r.spec_leaf() == (match leaf {
                Some(l) => Some((l.0@, l.1@)),
                None => None::<(Seq<u8>, Seq<u8>)>,
            }),
            r.spec_siblings() == Seq::new(siblings@.len(), |i: int| siblings@[i]@),
    {
        SparseMerkleProof { leaf, siblings }
    }
}

/// Folds sibling digests up the key's path, from position `i` on; the digest
/// of the subtree at the path's bottom is `h`.
pub open spec fn spec_fold_siblings(h: Seq<u8>, key: Seq<u8>, sibs: Seq<Seq<u8>>, i: int) -> Seq<
    u8,
>
    decreases sibs.len() - i,
{
    if i < 0 || i >= sibs.len() {
        h
    } else {
        let depth = sibs.len() - 1 - i;
        let combined = if key_bit(key, depth) {
            spec_internal_hash(sibs[i], h)
        } else {
            spec_internal_hash(h, sibs[i])
        };
        spec_fold_siblings(combined, key, sibs, i + 1)
    }
}

/// The digest at the bottom of the key's path, as the proof's leaf claims it:
/// the leaf itself when the key is present; a different leaf or an empty
/// subtree when the key is claimed absent. `None` marks a structurally
/// unusable claim.
pub open spec fn spec_leaf_start(
    leaf: Option<(Seq<u8>, Seq<u8>)>,
    key: Seq<u8>,
    value_hash: Option<Seq<u8>>,
) -> Option<Seq<u8>> {
    match (leaf, value_hash) {
        (Some(l), Some(vh)) => if l.0 == key && l.1 == vh {
            Some(spec_leaf_hash(l.0, l.1))
        } else {
            None
        },
        (Some(l), None) => if l.0 != key {
            Some(spec_leaf_hash(l.0, l.1))
        } else {
            None
        },
        (None, Some(_)) => None,
        (None, None) => Some(placeholder_digest()),
    }
}

/// An inclusion proof is accepted exactly when its leaf claim is usable and
/// the root it reconstructs along the key's path is the trusted root.
pub open spec fn spec_verify_inclusion(
    root: Seq<u8>,
    key: Seq<u8>,
    value_hash: Option<Seq<u8>>,
    leaf: Option<(Seq<u8>, Seq<u8>)>,
    sibs: Seq<Seq<u8>>,
) -> bool {
    &&& sibs.len() <= 256
    &&& match spec_leaf_start(leaf, key, value_hash) {
        Some(h0) => spec_fold_siblings(h0, key, sibs, 0) == root,
        None => false,
    }
}

/// Verifies that `value_hash` is the digest bound to `key` under `root`
/// (`None`: that `key` is absent under `root`).
pub fn verify_inclusion(
    root: &HashValue,
    key: &HashValue,
    value_hash: Option<&HashValue>,
    proof: &SparseMerkleProof,
) -> (r: Result<(), AuthError>)
    requires
        key@.len() == 32,
    ensures
        r is Ok <==> spec_verify_inclusion(
            root@,
            key@,
            match value_hash {
                Some(h) => Some(h@),
                None => None,
            },
            proof.spec_leaf(),
            proof.spec_siblings(),
        ),
        r is Err ==> r == Err::<(), AuthError>(AuthError::ProofMismatch),
{
    let ghost vh_view: Option<Seq<u8>> = match value_hash {
        Some(h) => Some(h@),
        None => None,
    };
    let d = proof.siblings.len();
    if d > 256 {
        return Err(AuthError::ProofMismatch);
    }
    let start: HashValue = match (&proof.leaf, value_hash) {
        (Some(l), Some(vh)) => {
            if l.0.equals(key) && l.1.equals(vh) {
                leaf_hash(&l.0, &l.1)
            } else {
                return Err(AuthError::ProofMismatch);
            }
        },
        (Some(l), None) => {
            if !l.0.equals(key) {
                leaf_hash(&l.0, &l.1)
            } else {
                return Err(AuthError::ProofMismatch);
            }
        },
        (None, Some(_)) => {
            return Err(AuthError::ProofMismatch);
        },
        (None, None) => HashValue::placeholder(),
    };
    proof {
        assert(spec_leaf_start(proof.spec_leaf(), key@, vh_view) == Some(start@));
    }
    let ghost h0 = start@;
    let ghost sibs = proof.spec_siblings();
    let mut current = start;
    let mut i: usize = 0;
    while i < d
        invariant
            0 <= i <= d,
            d == proof.siblings@.len(),
            d <= 256,
            sibs == proof.spec_siblings(),
            sibs.len() == d,
            key@.len() == 32,
            spec_fold_siblings(h0, key@, sibs, 0) == spec_fold_siblings(
                current@,
                key@,
                sibs,
                i as int,
            ),
        decreases d - i,
    {
        let sib = &proof.siblings[i];
        proof {
            assert(sibs[i as int] == proof.siblings@[i as int]@);
        }
        let bit = key_bit_at(key, d - 1 - i);
        let next = if bit {
            internal_hash(sib, &current)
        } else {
            internal_hash(&current, sib)
        };
        current = next;
        i = i + 1;
    }
    if current.equals(root) {
        Ok(())
    } else {
        Err(AuthError::ProofMismatch)
    }
}

/// Soundness: evidence assembled from the leaf genuinely at the key's path,
/// whose fold along that path is the root, is always accepted.
pub proof fn lemma_inclusion_sound(
    root: Seq<u8>,
    key: Seq<u8>,
    value_hash: Option<Seq<u8>>,
    leaf: Option<(Seq<u8>, Seq<u8>)>,
    sibs: Seq<Seq<u8>>,
)
    requires
        sibs.len() <= 256,
        spec_leaf_start(leaf, key, value_hash) is Some,
        root == spec_fold_siblings(spec_leaf_start(leaf, key, value_hash).unwrap(), key, sibs, 0),
    ensures
        spec_verify_inclusion(root, key, value_hash, leaf, sibs),
{
}

/// A range proof: the digests of the subtrees hanging off the right edge of
/// the range, bottom-up.
pub struct SparseMerkleRangeProof {
    right_siblings: Vec<HashValue>,
}

impl SparseMerkleRangeProof {
    /// The proof's right-edge sibling digests, bottom-up.
    pub closed spec fn spec_siblings(self) -> Seq<Seq<u8>> {
        Seq::new(self.right_siblings@.len(), |i: int| self.right_siblings@[i]@)
    }

    /// Assembles a range proof.
    pub fn new(right_siblings: Vec<HashValue>) -> (r: SparseMerkleRangeProof)
        ensures
            r.spec_siblings() == Seq::new(right_siblings@.len(), |i: int| right_siblings@[i]@),
    {
        SparseMerkleRangeProof { right_siblings }
    }
}

/// The mathematical contents of a (key digest, value digest) vector.
pub open spec fn hash_pairs_view(s: Seq<(HashValue, HashValue)>) -> Seq<(Seq<u8>, Seq<u8>)> {
    Seq::new(s.len(), |i: int| (s[i].0@, s[i].1@))
}

/// Folds the leaf digests of a range left to right, starting from `acc`.
pub open spec fn spec_fold_leaves(acc: Seq<u8>, entries: Seq<(Seq<u8>, Seq<u8>)>, i: int) -> Seq<
    u8,
>
    decreases entries.len() - i,
{
    if i < 0 || i >= entries.len() {
        acc
    } else {
        spec_fold_leaves(
            spec_internal_hash(acc, spec_leaf_hash(entries[i].0, entries[i].1)),
            entries,
            i + 1,
        )
    }
}

/// Folds the right-edge siblings onto the range's accumulated digest.
pub open spec fn spec_fold_rights(acc: Seq<u8>, sibs: Seq<Seq<u8>>, i: int) -> Seq<u8>
    decreases sibs.len() - i,
{
    if i < 0 || i >= sibs.len() {
        acc
    } else {
        spec_fold_rights(spec_internal_hash(acc, sibs[i]), sibs, i + 1)
    }
}

/// The root a range reconstructs: its leaves folded in order, then the right
/// edge of the tree.
pub open spec fn spec_range_root(entries: Seq<(Seq<u8>, Seq<u8>)>, sibs: Seq<Seq<u8>>) -> Seq<u8> {
    let first = if entries.len() == 0 {
        placeholder_digest()
    } else {
        spec_leaf_hash(entries[0].0, entries[0].1)
    };
    spec_fold_rights(spec_fold_leaves(first, entries, 1), sibs, 0)
}

/// A range proof is accepted exactly when the entries are strictly ascending
/// by key and reconstruct the trusted root.
pub open spec fn spec_verify_range(
    root: Seq<u8>,
    entries: Seq<(Seq<u8>, Seq<u8>)>,
    sibs: Seq<Seq<u8>>,
) -> bool {
    &&& sorted_adjacent(entries)
    &&& spec_range_root(entries, sibs) == root
}

/// Verifies that the ordered `entries` are exactly the contiguous run of
/// leaves that `root` commits to along the proof's right edge.
pub fn verify_range(
    root: &HashValue,
    entries: &Vec<(HashValue, HashValue)>,
    proof: &SparseMerkleRangeProof,
) -> (r: Result<(), AuthError>)
    ensures
        r is Ok <==> spec_verify_range(root@, hash_pairs_view(entries@), proof.spec_siblings()),
        r == Err::<(), AuthError>(AuthError::RangeOrderViolation) <==> !sorted_adjacent(
            hash_pairs_view(entries@),
        ),
        r == Err::<(), AuthError>(AuthError::ProofMismatch) <==> (sorted_adjacent(
            hash_pairs_view(entries@),
        ) && spec_range_root(hash_pairs_view(entries@), proof.spec_siblings()) != root@),
{
    let ghost e = hash_pairs_view(entries@);
    let ghost sibs = proof.spec_siblings();
    let n = entries.len();
    let mut j: usize = 0;
    while n > 0 && j < n - 1
        invariant
            0 <= j <= n,
            n == entries@.len(),
            n == e.len(),
            e == hash_pairs_view(entries@),
            forall|i: int|
                #![trigger e[i]]
                0 <= i && i + 1 < j + 1 && i + 1 < n ==> crate::byteorder::lex_lt(
                    e[i].0,
                    e[i + 1].0,
                ),
        decreases n - j,
    {
        if !entries[j].0.lt(&entries[j + 1].0) {
            proof {
                assert(e[j as int].0 == entries@[j as int].0@);
                assert(e[j + 1].0 == entries@[j + 1].0@);
                assert(!crate::byteorder::lex_lt(e[j as int].0, e[j + 1].0));
                assert(!sorted_adjacent(e));
            }
            return Err(AuthError::RangeOrderViolation);
        }
        j = j + 1;
    }
    proof {
        assert(sorted_adjacent(e));
    }
    let mut current = if n == 0 {
        HashValue::placeholder()
    } else {
        proof {
            assert(e[0] == (entries@[0].0@, entries@[0].1@));
        }
        leaf_hash(&entries[0].0, &entries[0].1)
    };
    let ghost first = current@;
    let mut i: usize = 1;
    proof {
        if n == 0 {
            assert(spec_fold_leaves(first, e, 1) == first);
        }
    }
    while i < n
        invariant
            1 <= i <= n || (n == 0 && i == 1),
            n == entries@.len(),
            n == e.len(),
            e == hash_pairs_view(entries@),
            spec_fold_leaves(first, e, 1) == spec_fold_leaves(current@, e, i as int),
        decreases n - i,
    {
        proof {
            assert(e[i as int] == (entries@[i as int].0@, entries@[i as int].1@));
        }
        let lh = leaf_hash(&entries[i].0, &entries[i].1);
        current = internal_hash(&current, &lh);
        i = i + 1;
    }
    let d = proof.right_siblings.len();
    let ghost leaves_root = current@;
    proof {
        assert(spec_fold_leaves(first, e, 1) == leaves_root);
    }
    let mut k: usize = 0;
    while k < d
        invariant
            0 <= k <= d,
            d == proof.right_siblings@.len(),
            sibs == proof.spec_siblings(),
            sibs.len() == d,
            spec_fold_rights(leaves_root, sibs, 0) == spec_fold_rights(current@, sibs, k as int),
        decreases d - k,
    {
        proof {
            assert(sibs[k as int] == proof.right_siblings@[k as int]@);
        }
        let next = internal_hash(&current, &proof.right_siblings[k]);
        current = next;
        k = k + 1;
    }
    proof {
        assert(current@ == spec_range_root(e, sibs));
    }
    if current.equals(root) {
        Ok(())
    } else {
        Err(AuthError::ProofMismatch)
    }
}

} // verus!
