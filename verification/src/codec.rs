//! Strict deterministic binary encoding.
//!
//! Every domain entity serializes to a canonical byte string: fixed-width
//! integers are little-endian, variable-length fields carry a small-varint
//! length prefix, and decoding rejects non-minimal varints, so that each
//! value has exactly one encoding.  Content addressing hashes these bytes,
//! which makes the determinism proved here a correctness requirement.

use vstd::prelude::*;
use vstd::bytes::*;

verus! {

// ---------------------------------------------------------------------------
// Sequence helpers
// ---------------------------------------------------------------------------

pub proof fn lemma_concat_parts(a: Seq<u8>, b: Seq<u8>)
    ensures
        (a + b).subrange(0, a.len() as int) == a,
        (a + b).skip(a.len() as int) == b,
{
    assert((a + b).subrange(0, a.len() as int) =~= a);
    assert((a + b).skip(a.len() as int) =~= b);
}

pub proof fn lemma_skip_skip(s: Seq<u8>, a: int, b: int)
    requires
        0 <= a,
        0 <= b,
        a + b <= s.len(),
    ensures
        s.skip(a).skip(b) == s.skip(a + b),
{
    assert(s.skip(a).skip(b) =~= s.skip(a + b));
}

// ---------------------------------------------------------------------------
// Fixed-width integers
// ---------------------------------------------------------------------------

pub fn write_u8(out: &mut Vec<u8>, x: u8)
    ensures
        final(out)@ == old(out)@ + seq![x],
{
    out.push(x);
}

pub fn write_u16(out: &mut Vec<u8>, x: u16)
    ensures
        final(out)@ == old(out)@ + spec_u16_to_le_bytes(x),
        final(out)@.len() == old(out)@.len() + 2,
{
    proof {
        lemma_auto_spec_u16_to_from_le_bytes();
    }
    let mut bytes = u16_to_le_bytes(x);
    out.append(&mut bytes);
}

pub fn write_u32(out: &mut Vec<u8>, x: u32)
    ensures
        final(out)@ == old(out)@ + spec_u32_to_le_bytes(x),
        final(out)@.len() == old(out)@.len() + 4,
{
    proof {
        lemma_auto_spec_u32_to_from_le_bytes();
    }
    let mut bytes = u32_to_le_bytes(x);
    out.append(&mut bytes);
}

pub fn write_u64(out: &mut Vec<u8>, x: u64)
    ensures
        final(out)@ == old(out)@ + spec_u64_to_le_bytes(x),
        final(out)@.len() == old(out)@.len() + 8,
{
    proof {
        lemma_auto_spec_u64_to_from_le_bytes();
    }
    let mut bytes = u64_to_le_bytes(x);
    out.append(&mut bytes);
}

/// Copies `b[pos..pos + n]` into a fresh vector.
pub fn read_bytes(b: &Vec<u8>, pos: usize, n: usize) -> (r: Vec<u8>)
    requires
        pos + n <= b@.len(),
    ensures
        r@ == b@.subrange(pos as int, pos as int + n as int),
{
    let mut r: Vec<u8> = Vec::new();
    let total: usize = b.len();
    let mut i: usize = 0;
    while i < n
        invariant
            pos + n <= total,
            total == b@.len(),
            i <= n,
            r@ == b@.subrange(pos as int, pos as int + i as int),
        decreases n - i,
    {
        r.push(b[pos + i]);
        proof {
            assert(r@ =~= b@.subrange(pos as int, pos as int + (i + 1) as int));
        }
        i = i + 1;
    }
    r
}

pub fn read_u16(b: &Vec<u8>, pos: usize) -> (x: u16)
    requires
        pos + 2 <= b@.len(),
    ensures
        spec_u16_to_le_bytes(x) == b@.subrange(pos as int, pos as int + 2),
{
    proof {
        lemma_auto_spec_u16_to_from_le_bytes();
    }
    let bytes = read_bytes(b, pos, 2);
    u16_from_le_bytes(bytes.as_slice())
}

pub fn read_u32(b: &Vec<u8>, pos: usize) -> (x: u32)
    requires
        pos + 4 <= b@.len(),
    ensures
        spec_u32_to_le_bytes(x) == b@.subrange(pos as int, pos as int + 4),
{
    proof {
        lemma_auto_spec_u32_to_from_le_bytes();
    }
    let bytes = read_bytes(b, pos, 4);
    u32_from_le_bytes(bytes.as_slice())
}

pub fn read_u64(b: &Vec<u8>, pos: usize) -> (x: u64)
    requires
        pos + 8 <= b@.len(),
    ensures
        spec_u64_to_le_bytes(x) == b@.subrange(pos as int, pos as int + 8),
{
    proof {
        lemma_auto_spec_u64_to_from_le_bytes();
    }
    let bytes = read_bytes(b, pos, 8);
    u64_from_le_bytes(bytes.as_slice())
}

// ---------------------------------------------------------------------------
// Small varint: canonical variable-width length prefix
// ---------------------------------------------------------------------------

/// Canonical small-varint encoding of a length or tagless number.
pub open spec fn spec_enc_varint(n: u64) -> Seq<u8> {
    if n < 253 {
        seq![n as u8]
    } else if n < 0x10000 {
        seq![253u8] + spec_u16_to_le_bytes(n as u16)
    } else if n < 0x100000000 {
        seq![254u8] + spec_u32_to_le_bytes(n as u32)
    } else {
        seq![255u8] + spec_u64_to_le_bytes(n)
    }
}

/// Decodes a small-varint from the head of `s`, rejecting non-minimal forms.
/// Returns the value and the number of bytes consumed.
pub open spec fn spec_dec_varint(s: Seq<u8>) -> Option<(u64, int)> {
    if s.len() < 1 {
        None
    } else if s[0] < 253 {
        Some((s[0] as u64, 1))
    } else if s[0] == 253 {
        if s.len() < 3 {
            None
        } else {
            let n = spec_u16_from_le_bytes(s.subrange(1, 3)) as u64;
            if n < 253 {
                None
            } else {
                Some((n, 3))
            }
        }
    } else if s[0] == 254 {
        if s.len() < 5 {
            None
        } else {
            let n = spec_u32_from_le_bytes(s.subrange(1, 5)) as u64;
            if n < 0x10000 {
                None
            } else {
                Some((n, 5))
            }
        }
    } else {
        if s.len() < 9 {
            None
        } else {
            let n = spec_u64_from_le_bytes(s.subrange(1, 9));
            if n < 0x100000000 {
                None
            } else {
                Some((n, 9))
            }
        }
    }
}

/// Round trip: decoding an encoded varint yields the value back, whatever
/// bytes follow it.
pub proof fn lemma_varint_round_trip(n: u64, rest: Seq<u8>)
    ensures
        spec_dec_varint(spec_enc_varint(n) + rest) == Some((n, spec_enc_varint(n).len() as int)),
{
    lemma_auto_spec_u16_to_from_le_bytes();
    lemma_auto_spec_u32_to_from_le_bytes();
    lemma_auto_spec_u64_to_from_le_bytes();
    let s = spec_enc_varint(n) + rest;
    if n < 253 {
        assert(s[0] == n as u8);
    } else if n < 0x10000 {
        assert(s[0] == 253u8);
        assert(s.subrange(1, 3) =~= spec_u16_to_le_bytes(n as u16));
        assert(spec_u16_from_le_bytes(spec_u16_to_le_bytes(n as u16)) == n as u16);
    } else if n < 0x100000000 {
        assert(s[0] == 254u8);
        assert(s.subrange(1, 5) =~= spec_u32_to_le_bytes(n as u32));
        assert(spec_u32_from_le_bytes(spec_u32_to_le_bytes(n as u32)) == n as u32);
    } else {
        assert(s[0] == 255u8);
        assert(s.subrange(1, 9) =~= spec_u64_to_le_bytes(n));
    }
}

/// Canonicity: the bytes a successful decode consumed are exactly the
/// encoding of the decoded value.
pub proof fn lemma_varint_canonical(s: Seq<u8>)
    ensures
        spec_dec_varint(s) matches Some((n, c)) ==> {
            &&& 1 <= c <= s.len()
            &&& spec_enc_varint(n) == s.subrange(0, c)
        },
{
    lemma_auto_spec_u16_to_from_le_bytes();
    lemma_auto_spec_u32_to_from_le_bytes();
    lemma_auto_spec_u64_to_from_le_bytes();
    if let Some((n, c)) = spec_dec_varint(s) {
        if s[0] < 253 {
            assert(spec_enc_varint(n) =~= s.subrange(0, 1));
        } else if s[0] == 253 {
            assert(spec_u16_to_le_bytes(spec_u16_from_le_bytes(s.subrange(1, 3)))
                == s.subrange(1, 3));
            assert(spec_enc_varint(n) =~= s.subrange(0, 3));
        } else if s[0] == 254 {
            assert(spec_u32_to_le_bytes(spec_u32_from_le_bytes(s.subrange(1, 5)))
                == s.subrange(1, 5));
            assert(spec_enc_varint(n) =~= s.subrange(0, 5));
        } else {
            assert(spec_u64_to_le_bytes(spec_u64_from_le_bytes(s.subrange(1, 9)))
                == s.subrange(1, 9));
            assert(spec_enc_varint(n) =~= s.subrange(0, 9));
        }
    }
}

pub fn write_varint(out: &mut Vec<u8>, n: u64)
    ensures
        final(out)@ == old(out)@ + spec_enc_varint(n),
{
    if n < 253 {
        out.push(n as u8);
        proof {
            assert(final(out)@ =~= old(out)@ + spec_enc_varint(n));
        }
    } else if n < 0x10000 {
        out.push(253u8);
        write_u16(out, n as u16);
        proof {
            assert(final(out)@ =~= old(out)@ + spec_enc_varint(n));
        }
    } else if n < 0x100000000 {
        out.push(254u8);
        write_u32(out, n as u32);
        proof {
            assert(final(out)@ =~= old(out)@ + spec_enc_varint(n));
        }
    } else {
        out.push(255u8);
        write_u64(out, n);
        proof {
            assert(final(out)@ =~= old(out)@ + spec_enc_varint(n));
        }
    }
}

pub fn read_varint(b: &Vec<u8>, pos: usize) -> (r: Option<(u64, usize)>)
    requires
        pos <= b@.len(),
    ensures
        match r {
            Some((n, newpos)) => {
                &&& pos < newpos <= b@.len()
                &&& spec_dec_varint(b@.skip(pos as int)) == Some((n, newpos - pos))
            },
            None => spec_dec_varint(b@.skip(pos as int)) is None,
        },
{
    let ghost s = b@.skip(pos as int);
    if pos >= b.len() {
        return None;
    }
    let first = b[pos];
    assert(s[0] == first);
    if first < 253 {
        Some((first as u64, pos + 1))
    } else if first == 253 {
        if b.len() - pos < 3 {
            None
        } else {
            let x = read_u16(b, pos + 1);
            proof {
                assert(s.subrange(1, 3) =~= b@.subrange(pos as int + 1, pos as int + 3));
                lemma_auto_spec_u16_to_from_le_bytes();
            }
            let n = x as u64;
            if n < 253 {
                None
            } else {
                Some((n, pos + 3))
            }
        }
    } else if first == 254 {
        if b.len() - pos < 5 {
            None
        } else {
            let x = read_u32(b, pos + 1);
            proof {
                assert(s.subrange(1, 5) =~= b@.subrange(pos as int + 1, pos as int + 5));
                lemma_auto_spec_u32_to_from_le_bytes();
            }
            let n = x as u64;
            if n < 0x10000 {
                None
            } else {
                Some((n, pos + 5))
            }
        }
    } else {
        if b.len() - pos < 9 {
            None
        } else {
            let n = read_u64(b, pos + 1);
            proof {
                assert(s.subrange(1, 9) =~= b@.subrange(pos as int + 1, pos as int + 9));
                lemma_auto_spec_u64_to_from_le_bytes();
            }
            if n < 0x100000000 {
                None
            } else {
                Some((n, pos + 9))
            }
        }
    }
}

// ---------------------------------------------------------------------------
// Length-prefixed byte strings
// ---------------------------------------------------------------------------

/// Encoding of a variable-length byte string: varint length, then the bytes.
pub open spec fn spec_enc_bytes(s: Seq<u8>) -> Seq<u8> {
    spec_enc_varint(s.len() as u64) + s
}

pub open spec fn spec_dec_bytes(s: Seq<u8>) -> Option<(Seq<u8>, int)> {
    match spec_dec_varint(s) {
        None => None,
        Some((n, c)) => {
            if n > s.len() - c {
                None
            } else {
                Some((s.subrange(c, c + n as int), c + n as int))
            }
        },
    }
}

pub proof fn lemma_bytes_round_trip(x: Seq<u8>, rest: Seq<u8>)
    requires
        x.len() <= u64::MAX,
    ensures
        spec_dec_bytes(spec_enc_bytes(x) + rest) == Some((x, spec_enc_bytes(x).len() as int)),
{
    let n = x.len() as u64;
    let s = spec_enc_bytes(x) + rest;
    assert(s =~= spec_enc_varint(n) + (x + rest));
    lemma_varint_round_trip(n, x + rest);
    let c = spec_enc_varint(n).len() as int;
    assert(s.subrange(c, c + n as int) =~= x);
}

pub proof fn lemma_bytes_canonical(s: Seq<u8>)
    ensures
        spec_dec_bytes(s) matches Some((x, c)) ==> {
            &&& 1 <= c <= s.len()
            &&& spec_enc_bytes(x) == s.subrange(0, c)
        },
{
    lemma_varint_canonical(s);
    if let Some((x, c)) = spec_dec_bytes(s) {
        let (n, cv) = spec_dec_varint(s).unwrap();
        assert(x.len() == n);
        assert(spec_enc_bytes(x) =~= s.subrange(0, c));
    }
}

pub fn write_bytes(out: &mut Vec<u8>, x: &Vec<u8>)
    ensures
        final(out)@ == old(out)@ + spec_enc_bytes(x@),
{
    write_varint(out, x.len() as u64);
    let mut i: usize = 0;
    let ghost mid = out@;
    while i < x.len()
        invariant
            i <= x@.len(),
            out@ == mid + x@.subrange(0, i as int),
        decreases x@.len() - i,
    {
        out.push(x[i]);
        proof {
            assert(out@ =~= mid + x@.subrange(0, (i + 1) as int));
        }
        i = i + 1;
    }
    proof {
        assert(x@.subrange(0, x@.len() as int) =~= x@);
    }
}

pub fn read_byte_string(b: &Vec<u8>, pos: usize) -> (r: Option<(Vec<u8>, usize)>)
    requires
        pos <= b@.len(),
    ensures
        match r {
            Some((x, newpos)) => {
                &&& pos < newpos <= b@.len()
                &&& spec_dec_bytes(b@.skip(pos as int)) == Some((x@, newpos - pos))
            },
            None => spec_dec_bytes(b@.skip(pos as int)) is None,
        },
{
    let ghost s = b@.skip(pos as int);
    match read_varint(b, pos) {
        None => None,
        Some((n, lenpos)) => {
            let ghost c = lenpos - pos;
            let avail = b.len() - lenpos;
            if n > avail as u64 {
                assert(n > s.len() - c);
                None
            } else {
                let n_usize = n as usize;
                let body = read_bytes(b, lenpos, n_usize);
                proof {
                    assert(s.subrange(c, c + n as int)
                        =~= b@.subrange(lenpos as int, lenpos as int + n as int));
                }
                Some((body, lenpos + n_usize))
            }
        },
    }
}

} // verus!
