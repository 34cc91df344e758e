//! Domain entities and their strict encodings.
//!
//! The leaf values (seals, state data, assignments, inputs, anchors) are
//! plain scalar records; the composite entities (schema, genesis, transition,
//! consignment) carry vectors of them.  Each entity has a specification-level
//! encoder and decoder together with round-trip and canonicity lemmas: the
//! codec is deterministic and injective, which content addressing rests on.

use vstd::prelude::*;
use vstd::bytes::*;
use crate::codec::{
    lemma_skip_skip, read_u16, read_u32, read_u64, write_u8, write_u16, write_u32, write_u64,
};
use crate::ids::{Hash32, spec_enc_hash32, spec_dec_hash32, lemma_hash32_round_trip,
    lemma_hash32_canonical, lemma_enc_hash32_len, write_hash32, read_hash32};

verus! {

// ---------------------------------------------------------------------------
// Primitive decoders in "remaining bytes" style
// ---------------------------------------------------------------------------

pub open spec fn spec_dec_u8(s: Seq<u8>) -> Option<(u8, int)> {
    if s.len() < 1 {
        None
    } else {
        Some((s[0], 1))
    }
}

pub open spec fn spec_dec_u16(s: Seq<u8>) -> Option<(u16, int)> {
    if s.len() < 2 {
        None
    } else {
        Some((spec_u16_from_le_bytes(s.subrange(0, 2)), 2))
    }
}

pub open spec fn spec_dec_u32(s: Seq<u8>) -> Option<(u32, int)> {
    if s.len() < 4 {
        None
    } else {
        Some((spec_u32_from_le_bytes(s.subrange(0, 4)), 4))
    }
}

pub open spec fn spec_dec_u64(s: Seq<u8>) -> Option<(u64, int)> {
    if s.len() < 8 {
        None
    } else {
        Some((spec_u64_from_le_bytes(s.subrange(0, 8)), 8))
    }
}

pub proof fn lemma_prim_round_trip()
    ensures
        forall|x: u16, rest: Seq<u8>| #[trigger] spec_dec_u16(spec_u16_to_le_bytes(x) + rest)
            == Some((x, 2int)),
        forall|x: u32, rest: Seq<u8>| #[trigger] spec_dec_u32(spec_u32_to_le_bytes(x) + rest)
            == Some((x, 4int)),
        forall|x: u64, rest: Seq<u8>| #[trigger] spec_dec_u64(spec_u64_to_le_bytes(x) + rest)
            == Some((x, 8int)),
        forall|s: Seq<u8>| #[trigger] spec_dec_u16(s) matches Some((x, c))
            ==> spec_u16_to_le_bytes(x) == s.subrange(0, 2) && c == 2 <= s.len(),
        forall|s: Seq<u8>| #[trigger] spec_dec_u32(s) matches Some((x, c))
            ==> spec_u32_to_le_bytes(x) == s.subrange(0, 4) && c == 4 <= s.len(),
        forall|s: Seq<u8>| #[trigger] spec_dec_u64(s) matches Some((x, c))
            ==> spec_u64_to_le_bytes(x) == s.subrange(0, 8) && c == 8 <= s.len(),
        forall|x: u16| #![trigger spec_u16_to_le_bytes(x)] spec_u16_from_le_bytes(
            spec_u16_to_le_bytes(x),
        ) == x && spec_u16_to_le_bytes(x).len() == 2,
        forall|x: u32| #![trigger spec_u32_to_le_bytes(x)] spec_u32_from_le_bytes(
            spec_u32_to_le_bytes(x),
        ) == x && spec_u32_to_le_bytes(x).len() == 4,
        forall|x: u64| #![trigger spec_u64_to_le_bytes(x)] spec_u64_from_le_bytes(
            spec_u64_to_le_bytes(x),
        ) == x && spec_u64_to_le_bytes(x).len() == 8,
{
    lemma_auto_spec_u16_to_from_le_bytes();
    lemma_auto_spec_u32_to_from_le_bytes();
    lemma_auto_spec_u64_to_from_le_bytes();
    assert forall|x: u16| #![trigger spec_u16_to_le_bytes(x)] spec_u16_from_le_bytes(
        spec_u16_to_le_bytes(x),
    ) == x && spec_u16_to_le_bytes(x).len() == 2 by {
        assert(spec_u16_to_le_bytes(x).len() == 2);
    }
    assert forall|x: u32| #![trigger spec_u32_to_le_bytes(x)] spec_u32_from_le_bytes(
        spec_u32_to_le_bytes(x),
    ) == x && spec_u32_to_le_bytes(x).len() == 4 by {
        assert(spec_u32_to_le_bytes(x).len() == 4);
    }
    assert forall|x: u16, rest: Seq<u8>| #[trigger] spec_dec_u16(spec_u16_to_le_bytes(x) + rest)
        == Some((x, 2int)) by {
        assert((spec_u16_to_le_bytes(x) + rest).subrange(0, 2) =~= spec_u16_to_le_bytes(x));
    }
    assert forall|x: u32, rest: Seq<u8>| #[trigger] spec_dec_u32(spec_u32_to_le_bytes(x) + rest)
        == Some((x, 4int)) by {
        assert((spec_u32_to_le_bytes(x) + rest).subrange(0, 4) =~= spec_u32_to_le_bytes(x));
    }
    assert forall|x: u64, rest: Seq<u8>| #[trigger] spec_dec_u64(spec_u64_to_le_bytes(x) + rest)
        == Some((x, 8int)) by {
        assert((spec_u64_to_le_bytes(x) + rest).subrange(0, 8) =~= spec_u64_to_le_bytes(x));
    }
}

// ---------------------------------------------------------------------------
// Leaf entities
// ---------------------------------------------------------------------------

/// A UTXO reference.
#[derive(Clone, Copy, PartialEq, Eq, Structural, Debug)]
pub struct OutPoint {
    pub txid: Hash32,
    pub vout: u32,
}

/// The revealed form of a blinded outpoint: hashing its encoding yields the
/// confidential outpoint hash.
#[derive(Clone, Copy, PartialEq, Eq, Structural, Debug)]
pub struct OutpointReveal {
    pub txid: Hash32,
    pub vout: u32,
    pub blinding: u64,
}

/// The seal of an owned-right assignment: a blinded outpoint hash, or the
/// revealed outpoint it commits to.
#[derive(Clone, Copy, PartialEq, Eq, Structural, Debug)]
pub enum Seal {
    Confidential(Hash32),
    Revealed(OutpointReveal),
}

/// The state of an owned-right assignment: a commitment, or the revealed
/// amount with its blinding factor.
#[derive(Clone, Copy, PartialEq, Eq, Structural, Debug)]
pub enum StateData {
    Confidential(Hash32),
    Revealed { amount: u64, blinding: u64 },
}

/// One owned-right assignment produced by a node.
#[derive(Clone, Copy, PartialEq, Eq, Structural, Debug)]
pub struct Assignment {
    pub right_type: u16,
    pub seal: Seal,
    pub state: StateData,
}

/// One owned right consumed by a transition, referencing the producing node
/// by content id, the right type, and the index of the assignment among the
/// producer's outputs.
#[derive(Clone, Copy, PartialEq, Eq, Structural, Debug)]
pub struct TransitionInput {
    pub prev_node: Hash32,
    pub right_type: u16,
    pub index: u16,
    /// Commitment to the state of the consumed assignment, checked against
    /// the producing node during validation.
    pub state_commitment: Hash32,
}

/// Binds a node id to an output of an on-chain transaction through a
/// deterministic hash commitment.
#[derive(Clone, Copy, PartialEq, Eq, Structural, Debug)]
pub struct Anchor {
    pub txid: Hash32,
    pub output_no: u32,
    pub commitment: Hash32,
}

// ---------------------------------------------------------------------------
// Leaf codecs
// ---------------------------------------------------------------------------

pub open spec fn spec_enc_outpoint(x: OutPoint) -> Seq<u8> {
    spec_enc_hash32(x.txid) + spec_u32_to_le_bytes(x.vout)
}

pub open spec fn spec_dec_outpoint(s: Seq<u8>) -> Option<(OutPoint, int)> {
    match spec_dec_hash32(s) {
        None => None,
        Some((txid, c1)) => match spec_dec_u32(s.skip(c1)) {
            None => None,
            Some((vout, c2)) => Some((OutPoint { txid, vout }, c1 + c2)),
        },
    }
}

pub open spec fn spec_enc_reveal(x: OutpointReveal) -> Seq<u8> {
    spec_enc_hash32(x.txid) + spec_u32_to_le_bytes(x.vout) + spec_u64_to_le_bytes(x.blinding)
}

pub open spec fn spec_dec_reveal(s: Seq<u8>) -> Option<(OutpointReveal, int)> {
    match spec_dec_hash32(s) {
        None => None,
        Some((txid, c1)) => match spec_dec_u32(s.skip(c1)) {
            None => None,
            Some((vout, c2)) => match spec_dec_u64(s.skip(c1 + c2)) {
                None => None,
                Some((blinding, c3)) => Some(
                    (OutpointReveal { txid, vout, blinding }, c1 + c2 + c3),
                ),
            },
        },
    }
}

pub open spec fn spec_enc_seal(x: Seal) -> Seq<u8> {
    match x {
        Seal::Confidential(h) => seq![0u8] + spec_enc_hash32(h),
        Seal::Revealed(r) => seq![1u8] + spec_enc_reveal(r),
    }
}

pub open spec fn spec_dec_seal(s: Seq<u8>) -> Option<(Seal, int)> {
    if s.len() < 1 {
        None
    } else if s[0] == 0 {
        match spec_dec_hash32(s.skip(1)) {
            None => None,
            Some((h, c)) => Some((Seal::Confidential(h), 1 + c)),
        }
    } else if s[0] == 1 {
        match spec_dec_reveal(s.skip(1)) {
            None => None,
            Some((r, c)) => Some((Seal::Revealed(r), 1 + c)),
        }
    } else {
        None
    }
}

pub open spec fn spec_enc_state(x: StateData) -> Seq<u8> {
    match x {
        StateData::Confidential(h) => seq![0u8] + spec_enc_hash32(h),
        StateData::Revealed { amount, blinding } => seq![1u8] + spec_u64_to_le_bytes(amount)
            + spec_u64_to_le_bytes(blinding),
    }
}

pub open spec fn spec_dec_state(s: Seq<u8>) -> Option<(StateData, int)> {
    if s.len() < 1 {
        None
    } else if s[0] == 0 {
        match spec_dec_hash32(s.skip(1)) {
            None => None,
            Some((h, c)) => Some((StateData::Confidential(h), 1 + c)),
        }
    } else if s[0] == 1 {
        match spec_dec_u64(s.skip(1)) {
            None => None,
            Some((amount, c1)) => match spec_dec_u64(s.skip(1 + c1)) {
                None => None,
                Some((blinding, c2)) => Some(
                    (StateData::Revealed { amount, blinding }, 1 + c1 + c2),
                ),
            },
        }
    } else {
        None
    }
}

pub open spec fn spec_enc_assignment(x: Assignment) -> Seq<u8> {
    spec_u16_to_le_bytes(x.right_type) + spec_enc_seal(x.seal) + spec_enc_state(x.state)
}

pub open spec fn spec_dec_assignment(s: Seq<u8>) -> Option<(Assignment, int)> {
    match spec_dec_u16(s) {
        None => None,
        Some((right_type, c1)) => match spec_dec_seal(s.skip(c1)) {
            None => None,
            Some((seal, c2)) => match spec_dec_state(s.skip(c1 + c2)) {
                None => None,
                Some((state, c3)) => Some(
                    (Assignment { right_type, seal, state }, c1 + c2 + c3),
                ),
            },
        },
    }
}

pub open spec fn spec_enc_input(x: TransitionInput) -> Seq<u8> {
    spec_enc_hash32(x.prev_node) + spec_u16_to_le_bytes(x.right_type) + spec_u16_to_le_bytes(
        x.index,
    ) + spec_enc_hash32(x.state_commitment)
}

pub open spec fn spec_dec_input(s: Seq<u8>) -> Option<(TransitionInput, int)> {
    match spec_dec_hash32(s) {
        None => None,
        Some((prev_node, c1)) => match spec_dec_u16(s.skip(c1)) {
            None => None,
            Some((right_type, c2)) => match spec_dec_u16(s.skip(c1 + c2)) {
                None => None,
                Some((index, c3)) => match spec_dec_hash32(s.skip(c1 + c2 + c3)) {
                    None => None,
                    Some((state_commitment, c4)) => Some(
                        (
                            TransitionInput { prev_node, right_type, index, state_commitment },
                            c1 + c2 + c3 + c4,
                        ),
                    ),
                },
            },
        },
    }
}

pub open spec fn spec_enc_anchor(x: Anchor) -> Seq<u8> {
    spec_enc_hash32(x.txid) + spec_u32_to_le_bytes(x.output_no) + spec_enc_hash32(x.commitment)
}

pub open spec fn spec_dec_anchor(s: Seq<u8>) -> Option<(Anchor, int)> {
    match spec_dec_hash32(s) {
        None => None,
        Some((txid, c1)) => match spec_dec_u32(s.skip(c1)) {
            None => None,
            Some((output_no, c2)) => match spec_dec_hash32(s.skip(c1 + c2)) {
                None => None,
                Some((commitment, c3)) => Some(
                    (Anchor { txid, output_no, commitment }, c1 + c2 + c3),
                ),
            },
        },
    }
}

// ---------------------------------------------------------------------------
// Leaf round-trip and canonicity lemmas
// ---------------------------------------------------------------------------

/// Round trip for every leaf entity: decoding an encoding, followed by any
/// trailing bytes, yields the value and consumes exactly its encoding.
pub proof fn lemma_leaf_round_trip()
    ensures
        forall|x: OutPoint, rest: Seq<u8>| #[trigger] spec_dec_outpoint(spec_enc_outpoint(x) + rest)
            == Some((x, spec_enc_outpoint(x).len() as int)),
        forall|x: OutpointReveal, rest: Seq<u8>| #[trigger] spec_dec_reveal(
            spec_enc_reveal(x) + rest,
        ) == Some((x, spec_enc_reveal(x).len() as int)),
        forall|x: Seal, rest: Seq<u8>| #[trigger] spec_dec_seal(spec_enc_seal(x) + rest) == Some(
            (x, spec_enc_seal(x).len() as int),
        ),
        forall|x: StateData, rest: Seq<u8>| #[trigger] spec_dec_state(spec_enc_state(x) + rest)
            == Some((x, spec_enc_state(x).len() as int)),
        forall|x: Assignment, rest: Seq<u8>| #[trigger] spec_dec_assignment(
            spec_enc_assignment(x) + rest,
        ) == Some((x, spec_enc_assignment(x).len() as int)),
        forall|x: TransitionInput, rest: Seq<u8>| #[trigger] spec_dec_input(
            spec_enc_input(x) + rest,
        ) == Some((x, spec_enc_input(x).len() as int)),
        forall|x: Anchor, rest: Seq<u8>| #[trigger] spec_dec_anchor(spec_enc_anchor(x) + rest)
            == Some((x, spec_enc_anchor(x).len() as int)),
{
    lemma_prim_round_trip();
    assert forall|x: OutPoint, rest: Seq<u8>| #[trigger] spec_dec_outpoint(
        spec_enc_outpoint(x) + rest,
    ) == Some((x, spec_enc_outpoint(x).len() as int)) by {
        lemma_outpoint_round_trip(x, rest);
    }
    assert forall|x: OutpointReveal, rest: Seq<u8>| #[trigger] spec_dec_reveal(
        spec_enc_reveal(x) + rest,
    ) == Some((x, spec_enc_reveal(x).len() as int)) by {
        lemma_reveal_round_trip(x, rest);
    }
    assert forall|x: Seal, rest: Seq<u8>| #[trigger] spec_dec_seal(spec_enc_seal(x) + rest) == Some(
        (x, spec_enc_seal(x).len() as int),
    ) by {
        lemma_seal_round_trip(x, rest);
    }
    assert forall|x: StateData, rest: Seq<u8>| #[trigger] spec_dec_state(spec_enc_state(x) + rest)
        == Some((x, spec_enc_state(x).len() as int)) by {
        lemma_state_round_trip(x, rest);
    }
    assert forall|x: Assignment, rest: Seq<u8>| #[trigger] spec_dec_assignment(
        spec_enc_assignment(x) + rest,
    ) == Some((x, spec_enc_assignment(x).len() as int)) by {
        lemma_assignment_round_trip(x, rest);
    }
    assert forall|x: TransitionInput, rest: Seq<u8>| #[trigger] spec_dec_input(
        spec_enc_input(x) + rest,
    ) == Some((x, spec_enc_input(x).len() as int)) by {
        lemma_input_round_trip(x, rest);
    }
    assert forall|x: Anchor, rest: Seq<u8>| #[trigger] spec_dec_anchor(spec_enc_anchor(x) + rest)
        == Some((x, spec_enc_anchor(x).len() as int)) by {
        lemma_anchor_round_trip(x, rest);
    }
}

pub proof fn lemma_outpoint_round_trip(x: OutPoint, rest: Seq<u8>)
    ensures
        spec_dec_outpoint(spec_enc_outpoint(x) + rest) == Some(
            (x, spec_enc_outpoint(x).len() as int),
        ),
{
    lemma_prim_round_trip();
    lemma_enc_hash32_len(x.txid);
    let s = spec_enc_outpoint(x) + rest;
    assert(s =~= spec_enc_hash32(x.txid) + (spec_u32_to_le_bytes(x.vout) + rest));
    lemma_hash32_round_trip(x.txid, spec_u32_to_le_bytes(x.vout) + rest);
    assert(s.skip(32) =~= spec_u32_to_le_bytes(x.vout) + rest);
}

pub proof fn lemma_reveal_round_trip(x: OutpointReveal, rest: Seq<u8>)
    ensures
        spec_dec_reveal(spec_enc_reveal(x) + rest) == Some((x, spec_enc_reveal(x).len() as int)),
{
    lemma_prim_round_trip();
    lemma_enc_hash32_len(x.txid);
    let s = spec_enc_reveal(x) + rest;
    assert(s =~= spec_enc_hash32(x.txid) + (spec_u32_to_le_bytes(x.vout) + (spec_u64_to_le_bytes(
        x.blinding,
    ) + rest)));
    lemma_hash32_round_trip(
        x.txid,
        spec_u32_to_le_bytes(x.vout) + (spec_u64_to_le_bytes(x.blinding) + rest),
    );
    assert(s.skip(32) =~= spec_u32_to_le_bytes(x.vout) + (spec_u64_to_le_bytes(x.blinding)
        + rest));
    assert(s.skip(36) =~= spec_u64_to_le_bytes(x.blinding) + rest);
}

pub proof fn lemma_seal_round_trip(x: Seal, rest: Seq<u8>)
    ensures
        spec_dec_seal(spec_enc_seal(x) + rest) == Some((x, spec_enc_seal(x).len() as int)),
{
    let s = spec_enc_seal(x) + rest;
    match x {
        Seal::Confidential(h) => {
            assert(s[0] == 0u8);
            assert(s.skip(1) =~= spec_enc_hash32(h) + rest);
            lemma_hash32_round_trip(h, rest);
            lemma_enc_hash32_len(h);
        },
        Seal::Revealed(r) => {
            assert(s[0] == 1u8);
            assert(s.skip(1) =~= spec_enc_reveal(r) + rest);
            lemma_reveal_round_trip(r, rest);
        },
    }
}

pub proof fn lemma_state_round_trip(x: StateData, rest: Seq<u8>)
    ensures
        spec_dec_state(spec_enc_state(x) + rest) == Some((x, spec_enc_state(x).len() as int)),
{
    lemma_prim_round_trip();
    let s = spec_enc_state(x) + rest;
    match x {
        StateData::Confidential(h) => {
            assert(s[0] == 0u8);
            assert(s.skip(1) =~= spec_enc_hash32(h) + rest);
            lemma_hash32_round_trip(h, rest);
            lemma_enc_hash32_len(h);
        },
        StateData::Revealed { amount, blinding } => {
            assert(s[0] == 1u8);
            assert(s.skip(1) =~= spec_u64_to_le_bytes(amount) + (spec_u64_to_le_bytes(blinding)
                + rest));
            assert(s.skip(9) =~= spec_u64_to_le_bytes(blinding) + rest);
        },
    }
}

pub proof fn lemma_assignment_round_trip(x: Assignment, rest: Seq<u8>)
    ensures
        spec_dec_assignment(spec_enc_assignment(x) + rest) == Some(
            (x, spec_enc_assignment(x).len() as int),
        ),
{
    lemma_prim_round_trip();
    let s = spec_enc_assignment(x) + rest;
    let cs = spec_enc_seal(x.seal).len() as int;
    assert(s =~= spec_u16_to_le_bytes(x.right_type) + (spec_enc_seal(x.seal) + (spec_enc_state(
        x.state,
    ) + rest)));
    assert(s.skip(2) =~= spec_enc_seal(x.seal) + (spec_enc_state(x.state) + rest));
    lemma_seal_round_trip(x.seal, spec_enc_state(x.state) + rest);
    assert(s.skip(2 + cs) =~= spec_enc_state(x.state) + rest);
    lemma_state_round_trip(x.state, rest);
}

pub proof fn lemma_input_round_trip(x: TransitionInput, rest: Seq<u8>)
    ensures
        spec_dec_input(spec_enc_input(x) + rest) == Some((x, spec_enc_input(x).len() as int)),
{
    lemma_prim_round_trip();
    lemma_enc_hash32_len(x.prev_node);
    lemma_enc_hash32_len(x.state_commitment);
    let s = spec_enc_input(x) + rest;
    assert(s =~= spec_enc_hash32(x.prev_node) + (spec_u16_to_le_bytes(x.right_type) + (
    spec_u16_to_le_bytes(x.index) + (spec_enc_hash32(x.state_commitment) + rest))));
    lemma_hash32_round_trip(
        x.prev_node,
        spec_u16_to_le_bytes(x.right_type) + (spec_u16_to_le_bytes(x.index) + (spec_enc_hash32(
            x.state_commitment,
        ) + rest)),
    );
    assert(s.skip(32) =~= spec_u16_to_le_bytes(x.right_type) + (spec_u16_to_le_bytes(x.index) + (
    spec_enc_hash32(x.state_commitment) + rest)));
    assert(s.skip(34) =~= spec_u16_to_le_bytes(x.index) + (spec_enc_hash32(x.state_commitment)
        + rest));
    assert(s.skip(36) =~= spec_enc_hash32(x.state_commitment) + rest);
    lemma_hash32_round_trip(x.state_commitment, rest);
}

pub proof fn lemma_anchor_round_trip(x: Anchor, rest: Seq<u8>)
    ensures
        spec_dec_anchor(spec_enc_anchor(x) + rest) == Some((x, spec_enc_anchor(x).len() as int)),
{
    lemma_prim_round_trip();
    lemma_enc_hash32_len(x.txid);
    lemma_enc_hash32_len(x.commitment);
    let s = spec_enc_anchor(x) + rest;
    assert(s =~= spec_enc_hash32(x.txid) + (spec_u32_to_le_bytes(x.output_no) + (spec_enc_hash32(
        x.commitment,
    ) + rest)));
    lemma_hash32_round_trip(
        x.txid,
        spec_u32_to_le_bytes(x.output_no) + (spec_enc_hash32(x.commitment) + rest),
    );
    assert(s.skip(32) =~= spec_u32_to_le_bytes(x.output_no) + (spec_enc_hash32(x.commitment)
        + rest));
    assert(s.skip(36) =~= spec_enc_hash32(x.commitment) + rest);
    lemma_hash32_round_trip(x.commitment, rest);
}

// ---------------------------------------------------------------------------
// Leaf writers and readers
// ---------------------------------------------------------------------------

pub fn write_outpoint(out: &mut Vec<u8>, x: &OutPoint)
    ensures
        final(out)@ == old(out)@ + spec_enc_outpoint(*x),
{
    write_hash32(out, &x.txid);
    write_u32(out, x.vout);
    proof {
        assert(final(out)@ =~= old(out)@ + spec_enc_outpoint(*x));
    }
}

pub fn write_reveal(out: &mut Vec<u8>, x: &OutpointReveal)
    ensures
        final(out)@ == old(out)@ + spec_enc_reveal(*x),
{
    write_hash32(out, &x.txid);
    write_u32(out, x.vout);
    write_u64(out, x.blinding);
    proof {
        assert(final(out)@ =~= old(out)@ + spec_enc_reveal(*x));
    }
}

pub fn write_seal(out: &mut Vec<u8>, x: &Seal)
    ensures
        final(out)@ == old(out)@ + spec_enc_seal(*x),
{
    match x {
        Seal::Confidential(h) => {
            write_u8(out, 0);
            write_hash32(out, h);
        },
        Seal::Revealed(r) => {
            write_u8(out, 1);
            write_reveal(out, r);
        },
    }
    proof {
        assert(final(out)@ =~= old(out)@ + spec_enc_seal(*x));
    }
}

pub fn write_state(out: &mut Vec<u8>, x: &StateData)
    ensures
        final(out)@ == old(out)@ + spec_enc_state(*x),
{
    match x {
        StateData::Confidential(h) => {
            write_u8(out, 0);
            write_hash32(out, h);
        },
        StateData::Revealed { amount, blinding } => {
            write_u8(out, 1);
            write_u64(out, *amount);
            write_u64(out, *blinding);
        },
    }
    proof {
        assert(final(out)@ =~= old(out)@ + spec_enc_state(*x));
    }
}

pub fn write_assignment(out: &mut Vec<u8>, x: &Assignment)
    ensures
        final(out)@ == old(out)@ + spec_enc_assignment(*x),
{
    write_u16(out, x.right_type);
    write_seal(out, &x.seal);
    write_state(out, &x.state);
    proof {
        assert(final(out)@ =~= old(out)@ + spec_enc_assignment(*x));
    }
}

pub fn write_input(out: &mut Vec<u8>, x: &TransitionInput)
    ensures
        final(out)@ == old(out)@ + spec_enc_input(*x),
{
    write_hash32(out, &x.prev_node);
    write_u16(out, x.right_type);
    write_u16(out, x.index);
    write_hash32(out, &x.state_commitment);
    proof {
        assert(final(out)@ =~= old(out)@ + spec_enc_input(*x));
    }
}

pub fn write_anchor(out: &mut Vec<u8>, x: &Anchor)
    ensures
        final(out)@ == old(out)@ + spec_enc_anchor(*x),
{
    write_hash32(out, &x.txid);
    write_u32(out, x.output_no);
    write_hash32(out, &x.commitment);
    proof {
        assert(final(out)@ =~= old(out)@ + spec_enc_anchor(*x));
    }
}

pub fn read_outpoint(b: &Vec<u8>, pos: usize) -> (r: Option<(OutPoint, usize)>)
    requires
        pos <= b@.len(),
    ensures
        match r {
            Some((x, newpos)) => {
                &&& pos < newpos <= b@.len()
                &&& spec_dec_outpoint(b@.skip(pos as int)) == Some((x, newpos - pos))
            },
            None => spec_dec_outpoint(b@.skip(pos as int)) is None,
        },
{
    let ghost s = b@.skip(pos as int);
    let (txid, p1) = match read_hash32(b, pos) {
        None => { return None; },
        Some(v) => v,
    };
    proof {
        lemma_skip_skip(b@, pos as int, p1 - pos);
    }
    if b.len() - p1 < 4 {
        return None;
    }
    let vout = read_u32(b, p1);
    proof {
        assert(s.skip(p1 - pos).subrange(0, 4) =~= b@.subrange(p1 as int, p1 as int + 4));
        lemma_prim_round_trip();
    }
    Some((OutPoint { txid, vout }, p1 + 4))
}

pub fn read_reveal(b: &Vec<u8>, pos: usize) -> (r: Option<(OutpointReveal, usize)>)
    requires
        pos <= b@.len(),
    ensures
        match r {
            Some((x, newpos)) => {
                &&& pos < newpos <= b@.len()
                &&& spec_dec_reveal(b@.skip(pos as int)) == Some((x, newpos - pos))
            },
            None => spec_dec_reveal(b@.skip(pos as int)) is None,
        },
{
    let ghost s = b@.skip(pos as int);
    let (txid, p1) = match read_hash32(b, pos) {
        None => { return None; },
        Some(v) => v,
    };
    proof {
        lemma_skip_skip(b@, pos as int, p1 - pos);
    }
    if b.len() - p1 < 4 {
        return None;
    }
    let vout = read_u32(b, p1);
    proof {
        assert(s.skip(p1 - pos).subrange(0, 4) =~= b@.subrange(p1 as int, p1 as int + 4));
        lemma_skip_skip(b@, pos as int, p1 + 4 - pos);
        lemma_prim_round_trip();
    }
    if b.len() - (p1 + 4) < 8 {
        return None;
    }
    let blinding = read_u64(b, p1 + 4);
    proof {
        assert(s.skip(p1 + 4 - pos).subrange(0, 8) =~= b@.subrange(
            p1 as int + 4,
            p1 as int + 12,
        ));
    }
    Some((OutpointReveal { txid, vout, blinding }, p1 + 12))
}

pub fn read_seal(b: &Vec<u8>, pos: usize) -> (r: Option<(Seal, usize)>)
    requires
        pos <= b@.len(),
    ensures
        match r {
            Some((x, newpos)) => {
                &&& pos < newpos <= b@.len()
                &&& spec_dec_seal(b@.skip(pos as int)) == Some((x, newpos - pos))
            },
            None => spec_dec_seal(b@.skip(pos as int)) is None,
        },
{
    let ghost s = b@.skip(pos as int);
    if pos >= b.len() {
        return None;
    }
    let tag = b[pos];
    assert(s[0] == tag);
    proof {
        lemma_skip_skip(b@, pos as int, 1);
    }
    if tag == 0 {
        match read_hash32(b, pos + 1) {
            None => None,
            Some((h, newpos)) => Some((Seal::Confidential(h), newpos)),
        }
    } else if tag == 1 {
        match read_reveal(b, pos + 1) {
            None => None,
            Some((r, newpos)) => Some((Seal::Revealed(r), newpos)),
        }
    } else {
        None
    }
}

pub fn read_state(b: &Vec<u8>, pos: usize) -> (r: Option<(StateData, usize)>)
    requires
        pos <= b@.len(),
    ensures
        match r {
            Some((x, newpos)) => {
                &&& pos < newpos <= b@.len()
                &&& spec_dec_state(b@.skip(pos as int)) == Some((x, newpos - pos))
            },
            None => spec_dec_state(b@.skip(pos as int)) is None,
        },
{
    let ghost s = b@.skip(pos as int);
    if pos >= b.len() {
        return None;
    }
    let tag = b[pos];
    assert(s[0] == tag);
    proof {
        lemma_skip_skip(b@, pos as int, 1);
    }
    if tag == 0 {
        match read_hash32(b, pos + 1) {
            None => None,
            Some((h, newpos)) => Some((StateData::Confidential(h), newpos)),
        }
    } else if tag == 1 {
        if b.len() - (pos + 1) < 8 {
            return None;
        }
        let amount = read_u64(b, pos + 1);
        proof {
            assert(s.skip(1).subrange(0, 8) =~= b@.subrange(pos as int + 1, pos as int + 9));
            lemma_skip_skip(b@, pos as int, 9);
            lemma_prim_round_trip();
        }
        if b.len() - (pos + 9) < 8 {
            return None;
        }
        let blinding = read_u64(b, pos + 9);
        proof {
            assert(s.skip(9).subrange(0, 8) =~= b@.subrange(pos as int + 9, pos as int + 17));
        }
        Some((StateData::Revealed { amount, blinding }, pos + 17))
    } else {
        None
    }
}

pub fn read_assignment(b: &Vec<u8>, pos: usize) -> (r: Option<(Assignment, usize)>)
    requires
        pos <= b@.len(),
    ensures
        match r {
            Some((x, newpos)) => {
                &&& pos < newpos <= b@.len()
                &&& spec_dec_assignment(b@.skip(pos as int)) == Some((x, newpos - pos))
            },
            None => spec_dec_assignment(b@.skip(pos as int)) is None,
        },
{
    let ghost s = b@.skip(pos as int);
    if b.len() - pos < 2 {
        proof {
            lemma_prim_round_trip();
        }
        return None;
    }
    let right_type = read_u16(b, pos);
    proof {
        assert(s.subrange(0, 2) =~= b@.subrange(pos as int, pos as int + 2));
        lemma_skip_skip(b@, pos as int, 2);
        lemma_prim_round_trip();
    }
    let (seal, p2) = match read_seal(b, pos + 2) {
        None => { return None; },
        Some(v) => v,
    };
    proof {
        lemma_skip_skip(b@, pos as int, p2 - pos);
    }
    let (state, p3) = match read_state(b, p2) {
        None => { return None; },
        Some(v) => v,
    };
    Some((Assignment { right_type, seal, state }, p3))
}

pub fn read_input(b: &Vec<u8>, pos: usize) -> (r: Option<(TransitionInput, usize)>)
    requires
        pos <= b@.len(),
    ensures
        match r {
            Some((x, newpos)) => {
                &&& pos < newpos <= b@.len()
                &&& spec_dec_input(b@.skip(pos as int)) == Some((x, newpos - pos))
            },
            None => spec_dec_input(b@.skip(pos as int)) is None,
        },
{
    let ghost s = b@.skip(pos as int);
    let (prev_node, p1) = match read_hash32(b, pos) {
        None => { return None; },
        Some(v) => v,
    };
    proof {
        lemma_skip_skip(b@, pos as int, p1 - pos);
        lemma_prim_round_trip();
    }
    if b.len() - p1 < 2 {
        return None;
    }
    let right_type = read_u16(b, p1);
    proof {
        assert(s.skip(p1 - pos).subrange(0, 2) =~= b@.subrange(p1 as int, p1 as int + 2));
        lemma_skip_skip(b@, pos as int, p1 + 2 - pos);
    }
    if b.len() - (p1 + 2) < 2 {
        return None;
    }
    let index = read_u16(b, p1 + 2);
    proof {
        assert(s.skip(p1 + 2 - pos).subrange(0, 2) =~= b@.subrange(p1 as int + 2, p1 as int + 4));
        lemma_skip_skip(b@, pos as int, p1 + 4 - pos);
    }
    match read_hash32(b, p1 + 4) {
        None => None,
        Some((state_commitment, newpos)) => Some(
            (TransitionInput { prev_node, right_type, index, state_commitment }, newpos),
        ),
    }
}

pub fn read_anchor(b: &Vec<u8>, pos: usize) -> (r: Option<(Anchor, usize)>)
    requires
        pos <= b@.len(),
    ensures
        match r {
            Some((x, newpos)) => {
                &&& pos < newpos <= b@.len()
                &&& spec_dec_anchor(b@.skip(pos as int)) == Some((x, newpos - pos))
            },
            None => spec_dec_anchor(b@.skip(pos as int)) is None,
        },
{
    let ghost s = b@.skip(pos as int);
    let (txid, p1) = match read_hash32(b, pos) {
        None => { return None; },
        Some(v) => v,
    };
    proof {
        lemma_skip_skip(b@, pos as int, p1 - pos);
        lemma_prim_round_trip();
    }
    if b.len() - p1 < 4 {
        return None;
    }
    let output_no = read_u32(b, p1);
    proof {
        assert(s.skip(p1 - pos).subrange(0, 4) =~= b@.subrange(p1 as int, p1 as int + 4));
        lemma_skip_skip(b@, pos as int, p1 + 4 - pos);
    }
    match read_hash32(b, p1 + 4) {
        None => None,
        Some((commitment, newpos)) => Some((Anchor { txid, output_no, commitment }, newpos)),
    }
}

} // verus!
