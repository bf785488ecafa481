//! Content hashing: a 256-bit digest type, the trusted digest primitive, and
//! the domain-separated node hashes of the sparse Merkle tree.

use vstd::prelude::*;

use crate::byteorder::lex_lt;
use crate::byteorder::bytes_eq;
use crate::byteorder::bytes_lt;
use sha3::Digest;

verus! {

/// The digest that the hash primitive assigns to a byte string. It depends on
/// the input bytes alone; no contract of this crate says what it is on any
/// given input.
pub uninterp spec fn digest_of(bytes: Seq<u8>) -> Seq<u8>;

/// Relies on `sha3::Sha3_256` (through `digest::Digest::digest`): a 32-byte
/// digest that is a function of the input bytes alone.
#[verifier::external_body]
fn compute_digest(bytes: &Vec<u8>) -> (r: Vec<u8>)
    ensures
        r@ == digest_of(bytes@),
        r@.len() == 32,
{
    sha3::Sha3_256::digest(bytes.as_slice()).to_vec()
}

/// A 256-bit content digest.
#[derive(Debug)]
pub struct HashValue {
    bytes: Vec<u8>,
}

impl View for HashValue {
    type V = Seq<u8>;

    closed spec fn view(&self) -> Seq<u8> {
        self.bytes@
    }
}

impl HashValue {
    /// A well-formed digest is exactly 32 bytes long.
    pub open spec fn wf(self) -> bool {
        self@.len() == 32
    }

    /// Hashes a byte string.
    pub fn from_bytes_digest(bytes: &Vec<u8>) -> (r: HashValue)
        ensures
            r@ == digest_of(bytes@),
            r.wf(),
    {
        HashValue { bytes: compute_digest(bytes) }
    }

    /// Wraps raw digest bytes. Intended for values that arrived from outside
    /// (a signed root, a proof's sibling) rather than ones computed here.
    pub fn from_raw(bytes: Vec<u8>) -> (r: HashValue)
        requires
            bytes@.len() == 32,
        ensures
            r@ == bytes@,
            r.wf(),
    {
        HashValue { bytes }
    }

    /// The all-zero digest, standing for an empty sparse-Merkle subtree.
    pub fn placeholder() -> (r: HashValue)
        ensures
            r@ == placeholder_digest(),
            r.wf(),
    {
        let bytes: Vec<u8> = vec![0u8; 32];
        proof {
            assert(bytes@ =~= placeholder_digest());
        }
        HashValue { bytes }
    }

    /// A fresh copy of this digest.
    pub fn duplicate(&self) -> (r: HashValue)
        ensures
            r@ == self@,
    {
        let n = self.bytes.len();
        let mut bytes: Vec<u8> = Vec::new();
        let mut i: usize = 0;
        while i < n
            invariant
                0 <= i <= n,
                n == self.bytes@.len(),
                bytes@ == self.bytes@.take(i as int),
            decreases n - i,
        {
            bytes.push(self.bytes[i]);
            proof {
                assert(bytes@ =~= self.bytes@.take(i + 1));
            }
            i = i + 1;
        }
        proof {
            assert(self.bytes@.take(n as int) =~= self.bytes@);
        }
        HashValue { bytes }
    }

    /// The digest bytes.
    pub fn as_bytes(&self) -> (r: &Vec<u8>)
        ensures
            r@ == self@,
    {
        &self.bytes
    }

    /// Decides view equality of two digests.
    pub fn equals(&self, other: &HashValue) -> (r: bool)
        ensures
            r == (self@ == other@),
    {
        bytes_eq(&self.bytes, &other.bytes)
    }

    /// Decides whether `self` sorts strictly below `other` in key order.
    pub fn lt(&self, other: &HashValue) -> (r: bool)
        ensures
            r == lex_lt(self@, other@),
    {
        bytes_lt(&self.bytes, &other.bytes)
    }
}

/// The all-zero digest.
pub open spec fn placeholder_digest() -> Seq<u8> {
    Seq::new(32, |i: int| 0u8)
}

/// The digest of a sparse-Merkle leaf for key `key` holding a value whose
/// own digest is `value_hash`; domain-separated from internal nodes.
pub open spec fn spec_leaf_hash(key: Seq<u8>, value_hash: Seq<u8>) -> Seq<u8> {
    digest_of(seq![0u8] + key + value_hash)
}

/// The digest of a sparse-Merkle internal node over child digests.
pub open spec fn spec_internal_hash(left: Seq<u8>, right: Seq<u8>) -> Seq<u8> {
    digest_of(seq![1u8] + left + right)
}

/// Hashes a leaf node.
pub fn leaf_hash(key: &HashValue, value_hash: &HashValue) -> (r: HashValue)
    ensures
        r@ == spec_leaf_hash(key@, value_hash@),
        r.wf(),
{
    let mut buf: Vec<u8> = Vec::new();
    buf.push(0u8);
    buf.extend_from_slice(key.as_bytes().as_slice());
    buf.extend_from_slice(value_hash.as_bytes().as_slice());
    proof {
        assert(buf@ =~= seq![0u8] + key@ + value_hash@);
    }
    HashValue::from_bytes_digest(&buf)
}

/// Hashes an internal node.
pub fn internal_hash(left: &HashValue, right: &HashValue) -> (r: HashValue)
    ensures
        r@ == spec_internal_hash(left@, right@),
        r.wf(),
{
    let mut buf: Vec<u8> = Vec::new();
    buf.push(1u8);
    buf.extend_from_slice(left.as_bytes().as_slice());
    buf.extend_from_slice(right.as_bytes().as_slice());
    proof {
        assert(buf@ =~= seq![1u8] + left@ + right@);
    }
    HashValue::from_bytes_digest(&buf)
}

} // verus!
