//! The canonical codec: a deterministic, self-describing byte encoding of an
//! account state. Lengths are 8-byte little-endian fields; entries follow in
//! canonical key order, so a logical state has exactly one encoding.

use vstd::prelude::*;

use crate::byteorder::bytes_lt;
use crate::errors::CodecError;
use crate::state::AccountState;
use crate::state::entries_view;
use crate::state::lemma_adjacent_implies_sorted;
use crate::state::lemma_canonical_unique;
use crate::state::size_ok;
use crate::state::sorted_adjacent;
use crate::state::sorted_strict;
use crate::state::spec_get;

verus! {

/// The 8-byte little-endian encoding of a 64-bit length field.
pub open spec fn spec_u64_le(x: u64) -> Seq<u8> {
    seq![
        (x & 0xff) as u8,
        ((x >> 8) & 0xff) as u8,
        ((x >> 16) & 0xff) as u8,
        ((x >> 24) & 0xff) as u8,
        ((x >> 32) & 0xff) as u8,
        ((x >> 40) & 0xff) as u8,
        ((x >> 48) & 0xff) as u8,
        ((x >> 56) & 0xff) as u8,
    ]
}

/// The 64-bit value held in the first 8 bytes, little-endian.
pub open spec fn spec_decode_u64(b: Seq<u8>) -> u64 {
    (b[0] as u64) | ((b[1] as u64) << 8) | ((b[2] as u64) << 16) | ((b[3] as u64) << 24)
        | ((b[4] as u64) << 32) | ((b[5] as u64) << 40) | ((b[6] as u64) << 48) | (
    (b[7] as u64) << 56)
}

/// Reading back an encoded length field yields the value written.
pub proof fn lemma_u64_le_round_trip(x: u64)
    ensures
        spec_decode_u64(spec_u64_le(x)) == x,
{
    let b = spec_u64_le(x);
    assert(b[0] == (x & 0xff) as u8);
    assert(b[1] == ((x >> 8) & 0xff) as u8);
    assert(b[2] == ((x >> 16) & 0xff) as u8);
    assert(b[3] == ((x >> 24) & 0xff) as u8);
    assert(b[4] == ((x >> 32) & 0xff) as u8);
    assert(b[5] == ((x >> 40) & 0xff) as u8);
    assert(b[6] == ((x >> 48) & 0xff) as u8);
    assert(b[7] == ((x >> 56) & 0xff) as u8);
    assert((((x & 0xff) as u8) as u64) | ((((x >> 8) & 0xff) as u8) as u64) << 8 | ((((x >> 16)
        & 0xff) as u8) as u64) << 16 | ((((x >> 24) & 0xff) as u8) as u64) << 24 | ((((x >> 32)
        & 0xff) as u8) as u64) << 32 | ((((x >> 40) & 0xff) as u8) as u64) << 40 | ((((x >> 48)
        & 0xff) as u8) as u64) << 48 | ((((x >> 56) & 0xff) as u8) as u64) << 56 == x)
        by (bit_vector);
}

/// The first 8 bytes decide `spec_decode_u64`, whatever follows them.
pub proof fn lemma_decode_u64_prefix(x: u64, rest: Seq<u8>)
    ensures
        spec_decode_u64(spec_u64_le(x) + rest) == x,
{
    let c = spec_u64_le(x) + rest;
    assert(forall|i: int| 0 <= i < 8 ==> c[i] == spec_u64_le(x)[i]);
    lemma_u64_le_round_trip(x);
}

/// The encoding of one entry: each of key and value is preceded by its length.
pub open spec fn spec_encode_entry(e: (Seq<u8>, Seq<u8>)) -> Seq<u8> {
    spec_u64_le(e.0.len() as u64) + e.0 + spec_u64_le(e.1.len() as u64) + e.1
}

/// The concatenated encodings of a run of entries.
pub open spec fn spec_encode_entries(e: Seq<(Seq<u8>, Seq<u8>)>) -> Seq<u8>
    decreases e.len(),
{
    if e.len() == 0 {
        Seq::empty()
    } else {
        spec_encode_entry(e[0]) + spec_encode_entries(e.drop_first())
    }
}

/// The canonical encoding of an account state: entry count, then the entries
/// in canonical order.
pub open spec fn spec_encode(e: Seq<(Seq<u8>, Seq<u8>)>) -> Seq<u8> {
    spec_u64_le(e.len() as u64) + spec_encode_entries(e)
}

proof fn lemma_encode_entries_push(a: Seq<(Seq<u8>, Seq<u8>)>, x: (Seq<u8>, Seq<u8>))
    ensures
        spec_encode_entries(a.push(x)) == spec_encode_entries(a) + spec_encode_entry(x),
    decreases a.len(),
{
    if a.len() == 0 {
        assert(a.push(x)[0] == x);
        assert(a.push(x).drop_first() =~= Seq::<(Seq<u8>, Seq<u8>)>::empty());
        assert(spec_encode_entries(a.push(x).drop_first()) == Seq::<u8>::empty());
        assert(spec_encode_entries(a.push(x)) == spec_encode_entry(x) + Seq::<u8>::empty());
        assert(spec_encode_entry(x) + Seq::<u8>::empty() =~= spec_encode_entry(x));
        assert(spec_encode_entries(a) == Seq::<u8>::empty());
        assert(Seq::<u8>::empty() + spec_encode_entry(x) =~= spec_encode_entry(x));
    } else {
        assert(a.push(x)[0] == a[0]);
        assert(a.push(x).drop_first() =~= a.drop_first().push(x));
        lemma_encode_entries_push(a.drop_first(), x);
        assert(spec_encode_entry(a[0]) + (spec_encode_entries(a.drop_first())
            + spec_encode_entry(x)) =~= (spec_encode_entry(a[0]) + spec_encode_entries(
            a.drop_first())) + spec_encode_entry(x));
    }
}

/// The structural parse of `n` entries from `b`; `None` is a malformed
/// encoding (truncation, overrun, or trailing bytes).
pub open spec fn spec_decode_entries(b: Seq<u8>, n: nat) -> Option<Seq<(Seq<u8>, Seq<u8>)>>
    decreases n,
{
    if n == 0 {
        if b.len() == 0 {
            Some(Seq::empty())
        } else {
            None
        }
    } else if b.len() < 8 {
        None
    } else {
        let klen = spec_decode_u64(b) as int;
        let b1 = b.skip(8);
        if b1.len() < klen {
            None
        } else {
            let k = b1.take(klen);
            let b2 = b1.skip(klen);
            if b2.len() < 8 {
                None
            } else {
                let vlen = spec_decode_u64(b2) as int;
                let b3 = b2.skip(8);
                if b3.len() < vlen {
                    None
                } else {
                    let v = b3.take(vlen);
                    let b4 = b3.skip(vlen);
                    match spec_decode_entries(b4, (n - 1) as nat) {
                        Some(rest) => Some(seq![(k, v)] + rest),
                        None => None,
                    }
                }
            }
        }
    }
}

/// The canonical decoding: the structural parse, accepted only in canonical
/// (strictly ascending) key order.
pub open spec fn spec_decode(b: Seq<u8>) -> Option<Seq<(Seq<u8>, Seq<u8>)>> {
    if b.len() < 8 {
        None
    } else {
        match spec_decode_entries(b.skip(8), spec_decode_u64(b) as nat) {
            Some(e) => if sorted_adjacent(e) {
                Some(e)
            } else {
                None
            },
            None => None,
        }
    }
}

/// Parsing a length-prefixed block gives back the block and leaves the rest.
proof fn lemma_parse_block(x: Seq<u8>, rest: Seq<u8>)
    requires
        x.len() <= u64::MAX,
    ensures
        spec_decode_u64(spec_u64_le(x.len() as u64) + (x + rest)) as int == x.len(),
        (spec_u64_le(x.len() as u64) + (x + rest)).skip(8) == x + rest,
        (x + rest).take(x.len() as int) == x,
        (x + rest).skip(x.len() as int) == rest,
{
    lemma_decode_u64_prefix(x.len() as u64, x + rest);
    assert((spec_u64_le(x.len() as u64) + (x + rest)).skip(8) =~= x + rest);
    assert((x + rest).take(x.len() as int) =~= x);
    assert((x + rest).skip(x.len() as int) =~= rest);
}

#[verifier::rlimit(100)]
proof fn lemma_entries_round_trip(e: Seq<(Seq<u8>, Seq<u8>)>)
    requires
        forall|i: int|
            #![trigger e[i]]
            0 <= i < e.len() ==> e[i].0.len() <= u64::MAX && e[i].1.len() <= u64::MAX,
    ensures
        spec_decode_entries(spec_encode_entries(e), e.len()) == Some(e),
    decreases e.len(),
{
    if e.len() == 0 {
        assert(spec_encode_entries(e).len() == 0);
        assert(spec_decode_entries(spec_encode_entries(e), 0) == Some(Seq::<(Seq<u8>,
            Seq<u8>)>::empty()));
        assert(e =~= Seq::<(Seq<u8>, Seq<u8>)>::empty());
    } else {
        let k = e[0].0;
        let v = e[0].1;
        let rest_enc = spec_encode_entries(e.drop_first());
        let b = spec_encode_entries(e);
        let r1 = v + rest_enc;
        let r0 = spec_u64_le(v.len() as u64) + r1;
        assert(b =~= spec_u64_le(k.len() as u64) + (k + r0));
        lemma_parse_block(k, r0);
        assert(b.skip(8) == k + r0);
        lemma_parse_block(v, rest_enc);
        assert(forall|i: int|
            #![trigger e.drop_first()[i]]
            0 <= i < e.drop_first().len() ==> e.drop_first()[i] == e[i + 1]);
        lemma_entries_round_trip(e.drop_first());
        assert(spec_decode_entries(rest_enc, (e.len() - 1) as nat) == Some(e.drop_first()));
        assert(spec_decode_entries(b, e.len()) == Some(seq![(k, v)] + e.drop_first()));
        assert(seq![(k, v)] + e.drop_first() =~= e);
    }
}

/// The codec round trip: decoding the canonical encoding of any well-formed
/// state yields that state back, exactly.
pub proof fn lemma_round_trip(e: Seq<(Seq<u8>, Seq<u8>)>)
    requires
        sorted_strict(e),
        size_ok(e),
    ensures
        spec_decode(spec_encode(e)) == Some(e),
{
    let n = e.len() as u64;
    let body = spec_encode_entries(e);
    let b = spec_encode(e);
    lemma_decode_u64_prefix(n, body);
    assert(spec_decode_u64(b) == n);
    assert(n as nat == e.len());
    assert(b.skip(8) =~= body);
    lemma_entries_round_trip(e);
    assert(spec_decode_entries(b.skip(8), e.len()) == Some(e));
    assert(sorted_adjacent(e));
}

/// Determinism of the canonical form: two well-formed states that bind every
/// key alike — however they were built up — have byte-identical encodings.
pub proof fn lemma_encode_deterministic(e1: Seq<(Seq<u8>, Seq<u8>)>, e2: Seq<(Seq<u8>, Seq<u8>)>)
    requires
        sorted_strict(e1),
        sorted_strict(e2),
        forall|k: Seq<u8>| spec_get(e1, k) == spec_get(e2, k),
    ensures
        spec_encode(e1) == spec_encode(e2),
{
    lemma_canonical_unique(e1, e2);
}

/// Writes a 64-bit length field.
pub(crate) fn u64_le_bytes(x: u64) -> (r: Vec<u8>)
    ensures
        r@ == spec_u64_le(x),
{
    proof {
        assert((x & 0xff) < 256 && ((x >> 8) & 0xff) < 256 && ((x >> 16) & 0xff) < 256 && ((x
            >> 24) & 0xff) < 256 && ((x >> 32) & 0xff) < 256 && ((x >> 40) & 0xff) < 256 && ((x
            >> 48) & 0xff) < 256 && ((x >> 56) & 0xff) < 256) by (bit_vector);
    }
    let mut r: Vec<u8> = Vec::new();
    r.push((x & 0xff) as u8);
    r.push(((x >> 8) & 0xff) as u8);
    r.push(((x >> 16) & 0xff) as u8);
    r.push(((x >> 24) & 0xff) as u8);
    r.push(((x >> 32) & 0xff) as u8);
    r.push(((x >> 40) & 0xff) as u8);
    r.push(((x >> 48) & 0xff) as u8);
    r.push(((x >> 56) & 0xff) as u8);
    proof {
        assert(r@ =~= spec_u64_le(x));
    }
    r
}

/// Reads the 64-bit length field at `pos`.
pub(crate) fn read_u64_at(bytes: &Vec<u8>, pos: usize) -> (r: u64)
    requires
        pos + 8 <= bytes@.len(),
    ensures
        r == spec_decode_u64(bytes@.skip(pos as int)),
{
    let total = bytes.len();
    let b0 = bytes[pos] as u64;
    let b1 = bytes[pos + 1] as u64;
    let b2 = bytes[pos + 2] as u64;
    let b3 = bytes[pos + 3] as u64;
    let b4 = bytes[pos + 4] as u64;
    let b5 = bytes[pos + 5] as u64;
    let b6 = bytes[pos + 6] as u64;
    let b7 = bytes[pos + 7] as u64;
    proof {
        assert(bytes@.skip(pos as int)[0] == bytes@[pos as int]);
        assert(bytes@.skip(pos as int)[1] == bytes@[pos + 1]);
        assert(bytes@.skip(pos as int)[2] == bytes@[pos + 2]);
        assert(bytes@.skip(pos as int)[3] == bytes@[pos + 3]);
        assert(bytes@.skip(pos as int)[4] == bytes@[pos + 4]);
        assert(bytes@.skip(pos as int)[5] == bytes@[pos + 5]);
        assert(bytes@.skip(pos as int)[6] == bytes@[pos + 6]);
        assert(bytes@.skip(pos as int)[7] == bytes@[pos + 7]);
    }
    b0 | (b1 << 8) | (b2 << 16) | (b3 << 24) | (b4 << 32) | (b5 << 40) | (b6 << 48) | (b7 << 56)
}

/// Copies `len` bytes starting at `pos`.
fn copy_range(bytes: &Vec<u8>, pos: usize, len: usize) -> (r: Vec<u8>)
    requires
        pos + len <= bytes@.len(),
    ensures
        r@ == bytes@.subrange(pos as int, pos + len),
{
    let total = bytes.len();
    let mut r: Vec<u8> = Vec::new();
    let mut i: usize = 0;
    while i < len
        invariant
            0 <= i <= len,
            total == bytes@.len(),
            pos + len <= bytes@.len(),
            r@ == bytes@.subrange(pos as int, pos + i),
        decreases len - i,
    {
        r.push(bytes[pos + i]);
        proof {
            assert(r@ =~= bytes@.subrange(pos as int, pos + i + 1));
        }
        i = i + 1;
    }
    r
}

/// Encodes an account state canonically: the same logical state always yields
/// these exact bytes.
pub fn encode(state: &AccountState) -> (r: Vec<u8>)
    ensures
        r@ == spec_encode(state@),
{
    let n = state.len();
    proof {
        assert(usize::MAX <= u64::MAX);
    }
    let mut out = u64_le_bytes(n as u64);
    let ghost e = state@;
    proof {
        assert(n as u64 == e.len() as u64);
        assert(spec_encode_entries(e.take(0)) =~= Seq::<u8>::empty());
        assert(out@ =~= spec_u64_le(e.len() as u64) + spec_encode_entries(e.take(0)));
    }
    let mut i: usize = 0;
    while i < n
        invariant
            0 <= i <= n,
            n == e.len(),
            e == state@,
            out@ == spec_u64_le(e.len() as u64) + spec_encode_entries(e.take(i as int)),
        decreases n - i,
    {
        let (key, value) = state.entry_at(i);
        let kl = key.len();
        let vl = value.len();
        let mut piece = u64_le_bytes(kl as u64);
        piece.extend_from_slice(key.as_slice());
        let mut piece2 = u64_le_bytes(vl as u64);
        piece2.extend_from_slice(value.as_slice());
        piece.append(&mut piece2);
        proof {
            assert(usize::MAX <= u64::MAX);
            assert(kl as u64 == e[i as int].0.len() as u64);
            assert(vl as u64 == e[i as int].1.len() as u64);
            assert(piece@ =~= spec_encode_entry(e[i as int]));
        }
        out.append(&mut piece);
        proof {
            lemma_encode_entries_push(e.take(i as int), e[i as int]);
            assert(e.take(i as int).push(e[i as int]) =~= e.take(i + 1));
            assert(out@ =~= spec_u64_le(e.len() as u64) + spec_encode_entries(e.take(i + 1)));
        }
        i = i + 1;
    }
    proof {
        assert(e.take(n as int) =~= e);
    }
    out
}

/// Decodes canonical bytes back to an account state. Exactly the canonical
/// encodings are accepted: anything else is `MalformedState`.
#[verifier::rlimit(100)]
pub fn decode(bytes: &Vec<u8>) -> (r: Result<AccountState, CodecError>)
    ensures
        match r {
            Ok(s) => spec_decode(bytes@) == Some(s@) && s.wf(),
            Err(e) => spec_decode(bytes@) is None && e == CodecError::MalformedState,
        },
{
    let total = bytes.len();
    if total < 8 {
        return Err(CodecError::MalformedState);
    }
    proof {
        assert(usize::MAX <= u64::MAX);
        assert(bytes@.skip(0) =~= bytes@);
    }
    let count = read_u64_at(bytes, 0);
    let mut pos: usize = 8;
    let mut parsed: u64 = 0;
    let mut acc: Vec<(Vec<u8>, Vec<u8>)> = Vec::new();
    proof {
        assert(entries_view(acc@) =~= Seq::<(Seq<u8>, Seq<u8>)>::empty());
    }
    loop
        invariant
            8 <= pos <= total,
            total == bytes@.len(),
            parsed <= count,
            count == spec_decode_u64(bytes@),
            entries_view(acc@).len() == parsed,
            forall|i: int|
                #![trigger entries_view(acc@)[i]]
                0 <= i < parsed ==> entries_view(acc@)[i].0.len() <= u64::MAX && entries_view(
                    acc@,
                )[i].1.len() <= u64::MAX,
            spec_decode_entries(bytes@.skip(8), count as nat) == (
            match spec_decode_entries(bytes@.skip(pos as int), (count - parsed) as nat) {
                Some(rest) => Some(entries_view(acc@) + rest),
                None => None::<Seq<(Seq<u8>, Seq<u8>)>>,
            }),
        ensures
            parsed == count,
            pos <= total,
            total == bytes@.len(),
            entries_view(acc@).len() == parsed,
            forall|i: int|
                #![trigger entries_view(acc@)[i]]
                0 <= i < parsed ==> entries_view(acc@)[i].0.len() <= u64::MAX && entries_view(
                    acc@,
                )[i].1.len() <= u64::MAX,
            spec_decode_entries(bytes@.skip(8), count as nat) == (
            match spec_decode_entries(bytes@.skip(pos as int), 0) {
                Some(rest) => Some(entries_view(acc@) + rest),
                None => None::<Seq<(Seq<u8>, Seq<u8>)>>,
            }),
        decreases count - parsed,
    {
        if parsed == count {
            break;
        }
        let ghost n_left = (count - parsed) as nat;
        let ghost rem = bytes@.skip(pos as int);
        proof {
            assert(n_left > 0);
            assert(rem.len() == total - pos);
        }
        if total - pos < 8 {
            proof {
                assert(spec_decode_entries(rem, n_left) is None);
            }
            return Err(CodecError::MalformedState);
        }
        let klen64 = read_u64_at(bytes, pos);
        if klen64 > (total - pos - 8) as u64 {
            proof {
                assert(rem.skip(8).len() == total - pos - 8);
                assert(spec_decode_entries(rem, n_left) is None);
            }
            return Err(CodecError::MalformedState);
        }
        let klen = klen64 as usize;
        let key = copy_range(bytes, pos + 8, klen);
        let pos2 = pos + 8 + klen;
        proof {
            assert(key@ =~= rem.skip(8).take(klen64 as int));
        }
        if total - pos2 < 8 {
            proof {
                assert(rem.skip(8).skip(klen64 as int) =~= bytes@.skip(pos2 as int));
                assert(spec_decode_entries(rem, n_left) is None);
            }
            return Err(CodecError::MalformedState);
        }
        let vlen64 = read_u64_at(bytes, pos2);
        let ghost rem2 = bytes@.skip(pos2 as int);
        proof {
            assert(rem.skip(8).skip(klen64 as int) =~= rem2);
        }
        if vlen64 > (total - pos2 - 8) as u64 {
            proof {
                assert(rem2.skip(8).len() == total - pos2 - 8);
                assert(spec_decode_entries(rem, n_left) is None);
            }
            return Err(CodecError::MalformedState);
        }
        let vlen = vlen64 as usize;
        let value = copy_range(bytes, pos2 + 8, vlen);
        let pos3 = pos2 + 8 + vlen;
        proof {
            assert(value@ =~= rem2.skip(8).take(vlen64 as int));
            assert(rem2.skip(8).skip(vlen64 as int) =~= bytes@.skip(pos3 as int));
        }
        let ghost acc_old = entries_view(acc@);
        acc.push((key, value));
        proof {
            assert(entries_view(acc@) =~= acc_old.push((key@, value@)));
            assert(entries_view(acc@) =~= acc_old + seq![(key@, value@)]);
            let rest_new = spec_decode_entries(bytes@.skip(pos3 as int), (n_left - 1) as nat);
            assert(spec_decode_entries(rem, n_left) == (match rest_new {
                Some(r2) => Some(seq![(key@, value@)] + r2),
                None => None::<Seq<(Seq<u8>, Seq<u8>)>>,
            }));
            if rest_new is Some {
                assert(acc_old + (seq![(key@, value@)] + rest_new.unwrap()) =~= entries_view(acc@)
                    + rest_new.unwrap());
            }
        }
        pos = pos3;
        parsed = parsed + 1;
    }
    if pos != total {
        proof {
            assert(bytes@.skip(pos as int).len() != 0);
            assert(spec_decode_entries(bytes@.skip(pos as int), 0) is None);
        }
        return Err(CodecError::MalformedState);
    }
    proof {
        assert(bytes@.skip(pos as int).len() == 0);
        assert(spec_decode_entries(bytes@.skip(pos as int), 0) == Some(Seq::<(Seq<u8>,
            Seq<u8>)>::empty()));
        assert(entries_view(acc@) + Seq::<(Seq<u8>, Seq<u8>)>::empty() =~= entries_view(acc@));
        assert(spec_decode_entries(bytes@.skip(8), count as nat) == Some(entries_view(acc@)));
    }
    // The structural parse is done; accept only the canonical order.
    let m = acc.len();
    let mut j: usize = 0;
    while m > 0 && j < m - 1
        invariant
            0 <= j <= m,
            m == acc@.len(),
            m == entries_view(acc@).len(),
            total == bytes@.len(),
            total >= 8,
            count == spec_decode_u64(bytes@),
            spec_decode_entries(bytes@.skip(8), count as nat) == Some(entries_view(acc@)),
            forall|i: int|
                #![trigger entries_view(acc@)[i]]
                0 <= i && i + 1 < j + 1 && i + 1 < m ==> crate::byteorder::lex_lt(
                    entries_view(acc@)[i].0,
                    entries_view(acc@)[i + 1].0,
                ),
        decreases m - j,
    {
        if !bytes_lt(&acc[j].0, &acc[j + 1].0) {
            proof {
                assert(entries_view(acc@)[j as int].0 == acc@[j as int].0@);
                assert(entries_view(acc@)[j + 1].0 == acc@[j + 1].0@);
                assert(!crate::byteorder::lex_lt(
                    entries_view(acc@)[j as int].0,
                    entries_view(acc@)[j + 1].0,
                ));
                assert(!sorted_adjacent(entries_view(acc@)));
            }
            return Err(CodecError::MalformedState);
        }
        j = j + 1;
    }
    proof {
        assert(sorted_adjacent(entries_view(acc@)));
        lemma_adjacent_implies_sorted(entries_view(acc@));
        assert(size_ok(entries_view(acc@)));
    }
    let state = AccountState::from_sorted(acc);
    Ok(state)
}

} // verus!
