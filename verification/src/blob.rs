//! The account-state blob: an immutable byte payload bound at construction to
//! its content hash. The byte form, not the decoded form, is the unit of
//! hashing and storage, so raw bytes are accepted without requiring that they
//! decode.

use vstd::prelude::*;

use crate::codec;
use crate::codec::spec_decode;
use crate::codec::spec_encode;
use crate::hashing::digest_of;
use crate::hashing::HashValue;
use crate::state::AccountState;

verus! {

/// The sixteen lowercase hexadecimal digits, in value order.
pub open spec fn hex_digits() -> Seq<char> {
    seq!['0', '1', '2', '3', '4', '5', '6', '7', '8', '9', 'a', 'b', 'c', 'd', 'e', 'f']
}

/// Lowercase hexadecimal rendering of a byte string, two digits per byte.
pub open spec fn hex_lower_of(b: Seq<u8>) -> Seq<char>
    decreases b.len(),
{
    if b.len() == 0 {
        Seq::empty()
    } else {
        seq![
            hex_digits()[(b[0] >> 4) as int],
            hex_digits()[(b[0] & 0x0f) as int],
        ] + hex_lower_of(b.drop_first())
    }
}

/// Relies on `hex::encode`: two lowercase hexadecimal digits for each input
/// byte, in input order.
#[verifier::external_body]
fn to_hex(b: &Vec<u8>) -> (r: String)
    ensures
        r@ == hex_lower_of(b@),
{
    hex::encode(b.as_slice())
}

/// The rendering of decoded entries: each key and value in hex.
pub open spec fn spec_render_entries(e: Seq<(Seq<u8>, Seq<u8>)>) -> Seq<char>
    decreases e.len(),
{
    if e.len() == 0 {
        Seq::empty()
    } else {
        "0x"@ + hex_lower_of(e[0].0) + ": 0x"@ + hex_lower_of(e[0].1) + " "@
            + spec_render_entries(e.drop_first())
    }
}

/// The full inspection rendering of a blob: the raw bytes in hex, then the
/// decoded entries, or a fallback label when the bytes do not decode.
pub open spec fn spec_render(b: Seq<u8>) -> Seq<char> {
    "AccountStateBlob { Raw: 0x"@ + hex_lower_of(b) + " Decoded: "@ + (match spec_decode(b) {
        Some(e) => spec_render_entries(e),
        None => "[fail]"@,
    }) + " }"@
}

fn render_entry(key: &Vec<u8>, value: &Vec<u8>) -> (r: String)
    ensures
        r@ == "0x"@ + hex_lower_of(key@) + ": 0x"@ + hex_lower_of(value@) + " "@,
{
    let mut s = String::from_str("0x");
    s.append(to_hex(key).as_str());
    s.append(": 0x");
    s.append(to_hex(value).as_str());
    s.append(" ");
    proof {
        assert(s@ =~= "0x"@ + hex_lower_of(key@) + ": 0x"@ + hex_lower_of(value@) + " "@);
    }
    s
}

fn render_entries(state: &AccountState) -> (r: String)
    ensures
        r@ == spec_render_entries(state@),
{
    let ghost e = state@;
    let n = state.len();
    let mut s = String::new();
    let mut i = n;
    proof {
        assert(e.skip(n as int).len() == 0);
        assert(s@ =~= spec_render_entries(e.skip(n as int)));
    }
    while i > 0
        invariant
            0 <= i <= n,
            n == e.len(),
            e == state@,
            s@ == spec_render_entries(e.skip(i as int)),
        decreases i,
    {
        i = i - 1;
        let (key, value) = state.entry_at(i);
        let piece = render_entry(key, value);
        let s2 = piece.concat(s.as_str());
        proof {
            assert(e.skip(i as int)[0] == e[i as int]);
            assert(e.skip(i as int).drop_first() =~= e.skip(i + 1));
            assert(s2@ =~= spec_render_entries(e.skip(i as int)));
        }
        s = s2;
    }
    proof {
        assert(e.skip(0) =~= e);
    }
    s
}

/// An immutable account-state payload with its content hash, computed once at
/// construction and never recomputed. Identity is the bytes alone.
pub struct AccountStateBlob {
    blob: Vec<u8>,
    hash: HashValue,
}

impl View for AccountStateBlob {
    type V = Seq<u8>;

    closed spec fn view(&self) -> Seq<u8> {
        self.blob@
    }
}

impl AccountStateBlob {
    /// The stored content hash.
    pub closed spec fn spec_hash(self) -> Seq<u8> {
        self.hash@
    }

    /// The hash is bound to the bytes: it is their digest, always.
    pub open spec fn wf(self) -> bool {
        self.spec_hash() == digest_of(self@)
    }

    /// Wraps raw bytes, deriving their hash. The bytes need not decode:
    /// storage may hold blobs this layer does not interpret.
    pub fn from_bytes(blob: Vec<u8>) -> (r: AccountStateBlob)
        ensures
            r@ == blob@,
            r.spec_hash() == digest_of(blob@),
            r.wf(),
    {
        let hash = HashValue::from_bytes_digest(&blob);
        AccountStateBlob { blob, hash }
    }

    /// Encodes an account state canonically and wraps the result.
    pub fn from_state(state: &AccountState) -> (r: AccountStateBlob)
        ensures
            r@ == spec_encode(state@),
            r.spec_hash() == digest_of(spec_encode(state@)),
            r.wf(),
    {
        AccountStateBlob::from_bytes(codec::encode(state))
    }

    /// The payload bytes.
    pub fn bytes(&self) -> (r: &Vec<u8>)
        ensures
            r@ == self@,
    {
        &self.blob
    }

    /// The content hash.
    pub fn hash(&self) -> (r: &HashValue)
        ensures
            r@ == self.spec_hash(),
    {
        &self.hash
    }

    /// Decodes the payload as an account state.
    pub fn to_state(&self) -> (r: Result<AccountState, crate::errors::CodecError>)
        ensures
            match r {
                Ok(s) => spec_decode(self@) == Some(s@) && s.wf(),
                Err(e) => spec_decode(self@) is None && e
                    == crate::errors::CodecError::MalformedState,
            },
    {
        codec::decode(&self.blob)
    }

    /// Equality of blobs is equality of their bytes.
    pub fn equals(&self, other: &AccountStateBlob) -> (r: bool)
        ensures
            r == (self@ == other@),
    {
        crate::byteorder::bytes_eq(&self.blob, &other.blob)
    }

    /// A human-readable inspection rendering: the raw bytes in hex and, when
    /// the payload decodes, the decoded entries; a fallback label otherwise.
    /// A decode failure never escapes this routine.
    pub fn render(&self) -> (r: String)
        ensures
            r@ == spec_render(self@),
    {
        let mut s = String::from_str("AccountStateBlob { Raw: 0x");
        s.append(to_hex(&self.blob).as_str());
        s.append(" Decoded: ");
        match codec::decode(&self.blob) {
            Ok(state) => {
                s.append(render_entries(&state).as_str());
            },
            Err(_) => {
                s.append("[fail]");
            },
        }
        s.append(" }");
        proof {
            assert(s@ =~= spec_render(self@));
        }
        s
    }
}

} // verus!
