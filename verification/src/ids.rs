//! Content-addressed identifiers.
//!
//! Every entity is identified by a collision-resistant hash over its strict
//! binary encoding.  The digest is held as four 64-bit words; the same type
//! serves as schema id, contract id, node id, transaction id, state
//! commitment and blinded outpoint hash.

use vstd::prelude::*;
use vstd::bytes::*;
use crate::codec::{read_u64, write_u64};

verus! {

/// A 256-bit digest, stored as four 64-bit words.
#[derive(Clone, Copy, PartialEq, Eq, Structural, Debug)]
pub struct Hash32 {
    pub w0: u64,
    pub w1: u64,
    pub w2: u64,
    pub w3: u64,
}

// ---------------------------------------------------------------------------
// Codec
// ---------------------------------------------------------------------------

pub open spec fn spec_enc_hash32(h: Hash32) -> Seq<u8> {
    spec_u64_to_le_bytes(h.w0) + spec_u64_to_le_bytes(h.w1) + spec_u64_to_le_bytes(h.w2)
        + spec_u64_to_le_bytes(h.w3)
}

pub proof fn lemma_enc_hash32_len(h: Hash32)
    ensures
        spec_enc_hash32(h).len() == 32,
{
    lemma_auto_spec_u64_to_from_le_bytes();
}

pub open spec fn spec_dec_hash32(s: Seq<u8>) -> Option<(Hash32, int)> {
    if s.len() < 32 {
        None
    } else {
        Some(
            (
                Hash32 {
                    w0: spec_u64_from_le_bytes(s.subrange(0, 8)),
                    w1: spec_u64_from_le_bytes(s.subrange(8, 16)),
                    w2: spec_u64_from_le_bytes(s.subrange(16, 24)),
                    w3: spec_u64_from_le_bytes(s.subrange(24, 32)),
                },
                32,
            ),
        )
    }
}

pub proof fn lemma_hash32_round_trip(h: Hash32, rest: Seq<u8>)
    ensures
        spec_dec_hash32(spec_enc_hash32(h) + rest) == Some((h, 32int)),
{
    lemma_auto_spec_u64_to_from_le_bytes();
    let s = spec_enc_hash32(h) + rest;
    assert(s.subrange(0, 8) =~= spec_u64_to_le_bytes(h.w0));
    assert(s.subrange(8, 16) =~= spec_u64_to_le_bytes(h.w1));
    assert(s.subrange(16, 24) =~= spec_u64_to_le_bytes(h.w2));
    assert(s.subrange(24, 32) =~= spec_u64_to_le_bytes(h.w3));
}

pub proof fn lemma_hash32_canonical(s: Seq<u8>)
    ensures
        spec_dec_hash32(s) matches Some((h, c)) ==> {
            &&& c == 32 <= s.len()
            &&& spec_enc_hash32(h) == s.subrange(0, 32)
        },
{
    lemma_auto_spec_u64_to_from_le_bytes();
    if let Some((h, c)) = spec_dec_hash32(s) {
        assert(spec_u64_to_le_bytes(spec_u64_from_le_bytes(s.subrange(0, 8))) == s.subrange(0, 8));
        assert(spec_u64_to_le_bytes(spec_u64_from_le_bytes(s.subrange(8, 16))) == s.subrange(8, 16));
        assert(spec_u64_to_le_bytes(spec_u64_from_le_bytes(s.subrange(16, 24))) == s.subrange(16, 24));
        assert(spec_u64_to_le_bytes(spec_u64_from_le_bytes(s.subrange(24, 32))) == s.subrange(24, 32));
        assert(spec_enc_hash32(h) =~= s.subrange(0, 32));
    }
}

pub fn write_hash32(out: &mut Vec<u8>, h: &Hash32)
    ensures
        final(out)@ == old(out)@ + spec_enc_hash32(*h),
        final(out)@.len() == old(out)@.len() + 32,
{
    proof {
        lemma_enc_hash32_len(*h);
    }
    write_u64(out, h.w0);
    write_u64(out, h.w1);
    write_u64(out, h.w2);
    write_u64(out, h.w3);
    proof {
        assert(final(out)@ =~= old(out)@ + spec_enc_hash32(*h));
    }
}

pub fn read_hash32(b: &Vec<u8>, pos: usize) -> (r: Option<(Hash32, usize)>)
    requires
        pos <= b@.len(),
    ensures
        match r {
            Some((h, newpos)) => {
                &&& pos < newpos <= b@.len()
                &&& spec_dec_hash32(b@.skip(pos as int)) == Some((h, newpos - pos))
            },
            None => spec_dec_hash32(b@.skip(pos as int)) is None,
        },
{
    let ghost s = b@.skip(pos as int);
    if b.len() - pos < 32 {
        return None;
    }
    proof {
        lemma_auto_spec_u64_to_from_le_bytes();
        assert(s.subrange(0, 8) =~= b@.subrange(pos as int, pos as int + 8));
        assert(s.subrange(8, 16) =~= b@.subrange(pos as int + 8, pos as int + 16));
        assert(s.subrange(16, 24) =~= b@.subrange(pos as int + 16, pos as int + 24));
        assert(s.subrange(24, 32) =~= b@.subrange(pos as int + 24, pos as int + 32));
    }
    let w0 = read_u64(b, pos);
    let w1 = read_u64(b, pos + 8);
    let w2 = read_u64(b, pos + 16);
    let w3 = read_u64(b, pos + 24);
    Some((Hash32 { w0, w1, w2, w3 }, pos + 32))
}

// ---------------------------------------------------------------------------
// Content addressing
// ---------------------------------------------------------------------------

/// The SHA-256 digest of a byte string.  Left without a definition: the
/// implementation is supplied by an outside crate and relied upon to be a
/// pure function of the input bytes.
pub uninterp spec fn sha256_of(data: Seq<u8>) -> Seq<u8>;

/// Relies on `bitcoin_hashes::sha256::Hash::hash`: the SHA-256 digest is a
/// function of the input bytes alone and is 32 bytes long.
#[verifier::external_body]
fn sha256(data: &Vec<u8>) -> (r: Vec<u8>)
    ensures
        r@ == sha256_of(data@),
        r@.len() == 32,
{
    bitcoin_hashes::sha256::Hash::hash(data.as_slice()).to_byte_array().to_vec()
}

/// Packs a 32-byte string into an id, reading each word little-endian.
pub open spec fn words_of(s: Seq<u8>) -> Hash32
    recommends
        s.len() == 32,
{
    Hash32 {
        w0: spec_u64_from_le_bytes(s.subrange(0, 8)),
        w1: spec_u64_from_le_bytes(s.subrange(8, 16)),
        w2: spec_u64_from_le_bytes(s.subrange(16, 24)),
        w3: spec_u64_from_le_bytes(s.subrange(24, 32)),
    }
}

/// The content id of a byte string: its SHA-256 digest, packed into words.
pub open spec fn spec_id_of(data: Seq<u8>) -> Hash32 {
    words_of(sha256_of(data))
}

pub fn hash32_of_bytes(v: &Vec<u8>) -> (r: Hash32)
    requires
        v@.len() == 32,
    ensures
        r == words_of(v@),
{
    proof {
        lemma_auto_spec_u64_to_from_le_bytes();
    }
    let w0 = read_u64(v, 0);
    let w1 = read_u64(v, 8);
    let w2 = read_u64(v, 16);
    let w3 = read_u64(v, 24);
    Hash32 { w0, w1, w2, w3 }
}

/// Content id of a byte string.  Deterministic: the result is a function of
/// the bytes alone, which is what makes content addressing stable across
/// runs and platforms.
pub fn id_of(data: &Vec<u8>) -> (r: Hash32)
    ensures
        r == spec_id_of(data@),
{
    let digest = sha256(data);
    hash32_of_bytes(&digest)
}

} // verus!
