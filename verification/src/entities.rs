//! Composite entities: schema, genesis, transition, consignment.
//!
//! Each carries vectors of leaf values.  Vectors encode as a varint element
//! count followed by the concatenated element encodings; mappings are kept
//! sorted by key before encoding, so every composite value has exactly one
//! encoding and content addressing is deterministic.

use vstd::prelude::*;
use vstd::bytes::*;
use crate::codec::{
    lemma_concat_parts, lemma_skip_skip, read_byte_string, read_u16, read_u32, read_varint,
    spec_dec_bytes, spec_dec_varint, spec_enc_bytes, spec_enc_varint, lemma_bytes_round_trip,
    lemma_varint_round_trip, write_bytes, write_u8, write_u16, write_u32, write_varint,
};
use crate::ids::{
    Hash32, spec_id_of, lemma_enc_hash32_len, lemma_hash32_round_trip, read_hash32, spec_dec_hash32,
    spec_enc_hash32, write_hash32,
};
use crate::data::{
    Anchor, Assignment, TransitionInput, lemma_anchor_round_trip, lemma_assignment_round_trip,
    lemma_input_round_trip, read_anchor, spec_dec_anchor, spec_enc_anchor, write_anchor,
    lemma_prim_round_trip, read_assignment, read_input, spec_dec_assignment, spec_dec_input,
    spec_dec_u16, spec_dec_u32, spec_dec_u8, spec_enc_assignment, spec_enc_input, write_assignment, write_input,
};

verus! {

// ---------------------------------------------------------------------------
// Sequences of u16 values
// ---------------------------------------------------------------------------

pub open spec fn spec_enc_seq_u16(xs: Seq<u16>) -> Seq<u8>
    decreases xs.len(),
{
    if xs.len() == 0 {
        Seq::empty()
    } else {
        spec_u16_to_le_bytes(xs[0]) + spec_enc_seq_u16(xs.drop_first())
    }
}

pub open spec fn spec_dec_seq_u16(s: Seq<u8>, n: int) -> Option<(Seq<u16>, int)>
    decreases n,
{
    if n <= 0 {
        Some((Seq::empty(), 0))
    } else {
        match spec_dec_u16(s) {
            None => None,
            Some((x, c)) => match spec_dec_seq_u16(s.skip(c), n - 1) {
                None => None,
                Some((xs, c2)) => Some((seq![x] + xs, c + c2)),
            },
        }
    }
}

pub proof fn lemma_seq_u16_round_trip(xs: Seq<u16>, rest: Seq<u8>)
    ensures
        spec_dec_seq_u16(spec_enc_seq_u16(xs) + rest, xs.len() as int) == Some(
            (xs, spec_enc_seq_u16(xs).len() as int),
        ),
    decreases xs.len(),
{
    lemma_prim_round_trip();
    if xs.len() == 0 {
        assert(spec_enc_seq_u16(xs) + rest =~= rest);
        assert(xs =~= Seq::<u16>::empty());
    } else {
        let hd = xs[0];
        let tl = xs.drop_first();
        let s = spec_enc_seq_u16(xs) + rest;
        assert(s =~= spec_u16_to_le_bytes(hd) + (spec_enc_seq_u16(tl) + rest));
        lemma_concat_parts(spec_u16_to_le_bytes(hd), spec_enc_seq_u16(tl) + rest);
        lemma_seq_u16_round_trip(tl, rest);
        assert(seq![hd] + tl =~= xs);
    }
}

pub fn write_seq_u16(out: &mut Vec<u8>, xs: &Vec<u16>)
    ensures
        final(out)@ == old(out)@ + spec_enc_varint(xs@.len() as u64) + spec_enc_seq_u16(xs@),
{
    write_varint(out, xs.len() as u64);
    let ghost mid = out@;
    let mut i: usize = 0;
    while i < xs.len()
        invariant
            i <= xs@.len(),
            out@ == mid + spec_enc_seq_u16(xs@.subrange(0, i as int)),
        decreases xs@.len() - i,
    {
        write_u16(out, xs[i]);
        proof {
            lemma_enc_seq_u16_snoc(xs@.subrange(0, i as int), xs@[i as int]);
            assert(xs@.subrange(0, i as int).push(xs@[i as int]) =~= xs@.subrange(
                0,
                i as int + 1,
            ));
        }
        i = i + 1;
    }
    proof {
        assert(xs@.subrange(0, xs@.len() as int) =~= xs@);
    }
}

pub proof fn lemma_enc_seq_u16_snoc(xs: Seq<u16>, x: u16)
    ensures
        spec_enc_seq_u16(xs.push(x)) == spec_enc_seq_u16(xs) + spec_u16_to_le_bytes(x),
    decreases xs.len(),
{
    let ps = xs.push(x);
    if xs.len() == 0 {
        assert(ps[0] == x);
        assert(ps.drop_first() =~= Seq::<u16>::empty());
        assert(spec_enc_seq_u16(ps.drop_first()) == Seq::<u8>::empty());
        assert(spec_enc_seq_u16(ps) =~= spec_enc_seq_u16(xs) + spec_u16_to_le_bytes(x));
    } else {
        assert(ps[0] == xs[0]);
        assert(ps.drop_first() =~= xs.drop_first().push(x));
        lemma_enc_seq_u16_snoc(xs.drop_first(), x);
        assert(spec_enc_seq_u16(ps.drop_first()) == spec_enc_seq_u16(xs.drop_first())
            + spec_u16_to_le_bytes(x));
        assert(spec_enc_seq_u16(ps) =~= spec_enc_seq_u16(xs) + spec_u16_to_le_bytes(x));
    }
}

pub fn read_seq_u16(b: &Vec<u8>, pos: usize, n: u64) -> (r: Option<(Vec<u16>, usize)>)
    requires
        pos <= b@.len(),
    ensures
        match r {
            Some((xs, newpos)) => {
                &&& pos <= newpos <= b@.len()
                &&& spec_dec_seq_u16(b@.skip(pos as int), n as int) == Some((xs@, newpos - pos))
            },
            None => spec_dec_seq_u16(b@.skip(pos as int), n as int) is None,
        },
{
    let ghost s0 = b@.skip(pos as int);
    let mut acc: Vec<u16> = Vec::new();
    let mut cur: usize = pos;
    let mut i: u64 = 0;
    while i < n
        invariant
            s0 == b@.skip(pos as int),
            pos <= cur <= b@.len(),
            i <= n,
            acc@.len() == i,
            spec_dec_seq_u16(s0, n as int) == match spec_dec_seq_u16(
                b@.skip(cur as int),
                n as int - i as int,
            ) {
                None => None::<(Seq<u16>, int)>,
                Some((vs, c)) => Some((acc@ + vs, cur - pos + c)),
            },
        decreases n - i,
    {
        proof {
            lemma_prim_round_trip();
        }
        if b.len() - cur < 2 {
            proof {
                assert(b@.skip(cur as int).len() < 2);
                assert(spec_dec_u16(b@.skip(cur as int)) is None);
                assert(spec_dec_seq_u16(b@.skip(cur as int), n as int - i as int) is None);
                assert(spec_dec_seq_u16(s0, n as int) is None);
            }
            return None;
        }
        let x = read_u16(b, cur);
        proof {
            assert(b@.skip(cur as int).subrange(0, 2) =~= b@.subrange(
                cur as int,
                cur as int + 2,
            ));
            lemma_skip_skip(b@, cur as int, 2);
        }
        let ghost prev_acc = acc@;
        acc.push(x);
        proof {
            assert forall|vs: Seq<u16>| true implies prev_acc + (seq![x] + vs) == acc@ + vs by {
                assert(prev_acc + (seq![x] + vs) =~= acc@ + vs);
            }
        }
        cur = cur + 2;
        i = i + 1;
    }
    proof {
        assert(acc@ + Seq::<u16>::empty() =~= acc@);
    }
    Some((acc, cur))
}

// ---------------------------------------------------------------------------
// Sequences of assignments
// ---------------------------------------------------------------------------

pub open spec fn spec_enc_seq_assignment(xs: Seq<Assignment>) -> Seq<u8>
    decreases xs.len(),
{
    if xs.len() == 0 {
        Seq::empty()
    } else {
        spec_enc_assignment(xs[0]) + spec_enc_seq_assignment(xs.drop_first())
    }
}

pub open spec fn spec_dec_seq_assignment(s: Seq<u8>, n: int) -> Option<(Seq<Assignment>, int)>
    decreases n,
{
    if n <= 0 {
        Some((Seq::empty(), 0))
    } else {
        match spec_dec_assignment(s) {
            None => None,
            Some((x, c)) => match spec_dec_seq_assignment(s.skip(c), n - 1) {
                None => None,
                Some((xs, c2)) => Some((seq![x] + xs, c + c2)),
            },
        }
    }
}

pub proof fn lemma_seq_assignment_round_trip(xs: Seq<Assignment>, rest: Seq<u8>)
    ensures
        spec_dec_seq_assignment(spec_enc_seq_assignment(xs) + rest, xs.len() as int) == Some(
            (xs, spec_enc_seq_assignment(xs).len() as int),
        ),
    decreases xs.len(),
{
    if xs.len() == 0 {
        assert(spec_enc_seq_assignment(xs) + rest =~= rest);
        assert(xs =~= Seq::<Assignment>::empty());
    } else {
        let hd = xs[0];
        let tl = xs.drop_first();
        let s = spec_enc_seq_assignment(xs) + rest;
        assert(s =~= spec_enc_assignment(hd) + (spec_enc_seq_assignment(tl) + rest));
        lemma_assignment_round_trip(hd, spec_enc_seq_assignment(tl) + rest);
        lemma_concat_parts(spec_enc_assignment(hd), spec_enc_seq_assignment(tl) + rest);
        lemma_seq_assignment_round_trip(tl, rest);
        assert(seq![hd] + tl =~= xs);
    }
}

pub proof fn lemma_enc_seq_assignment_snoc(xs: Seq<Assignment>, x: Assignment)
    ensures
        spec_enc_seq_assignment(xs.push(x)) == spec_enc_seq_assignment(xs) + spec_enc_assignment(
            x,
        ),
    decreases xs.len(),
{
    let ps = xs.push(x);
    if xs.len() == 0 {
        assert(ps[0] == x);
        assert(ps.drop_first() =~= Seq::<Assignment>::empty());
        assert(spec_enc_seq_assignment(ps.drop_first()) == Seq::<u8>::empty());
        assert(spec_enc_seq_assignment(ps) =~= spec_enc_seq_assignment(xs) + spec_enc_assignment(
            x,
        ));
    } else {
        assert(ps[0] == xs[0]);
        assert(ps.drop_first() =~= xs.drop_first().push(x));
        lemma_enc_seq_assignment_snoc(xs.drop_first(), x);
        assert(spec_enc_seq_assignment(ps.drop_first()) == spec_enc_seq_assignment(
            xs.drop_first(),
        ) + spec_enc_assignment(x));
        assert(spec_enc_seq_assignment(ps) =~= spec_enc_seq_assignment(xs) + spec_enc_assignment(
            x,
        ));
    }
}

pub fn write_seq_assignment(out: &mut Vec<u8>, xs: &Vec<Assignment>)
    ensures
        final(out)@ == old(out)@ + spec_enc_varint(xs@.len() as u64) + spec_enc_seq_assignment(
            xs@,
        ),
{
    write_varint(out, xs.len() as u64);
    let ghost mid = out@;
    let mut i: usize = 0;
    while i < xs.len()
        invariant
            i <= xs@.len(),
            out@ == mid + spec_enc_seq_assignment(xs@.subrange(0, i as int)),
        decreases xs@.len() - i,
    {
        write_assignment(out, &xs[i]);
        proof {
            lemma_enc_seq_assignment_snoc(xs@.subrange(0, i as int), xs@[i as int]);
            assert(xs@.subrange(0, i as int).push(xs@[i as int]) =~= xs@.subrange(
                0,
                i as int + 1,
            ));
        }
        i = i + 1;
    }
    proof {
        assert(xs@.subrange(0, xs@.len() as int) =~= xs@);
    }
}

pub fn read_seq_assignment(b: &Vec<u8>, pos: usize, n: u64) -> (r: Option<(Vec<Assignment>, usize)>)
    requires
        pos <= b@.len(),
    ensures
        match r {
            Some((xs, newpos)) => {
                &&& pos <= newpos <= b@.len()
                &&& spec_dec_seq_assignment(b@.skip(pos as int), n as int) == Some(
                    (xs@, newpos - pos),
                )
            },
            None => spec_dec_seq_assignment(b@.skip(pos as int), n as int) is None,
        },
{
    let ghost s0 = b@.skip(pos as int);
    let mut acc: Vec<Assignment> = Vec::new();
    let mut cur: usize = pos;
    let mut i: u64 = 0;
    while i < n
        invariant
            s0 == b@.skip(pos as int),
            pos <= cur <= b@.len(),
            i <= n,
            acc@.len() == i,
            spec_dec_seq_assignment(s0, n as int) == match spec_dec_seq_assignment(
                b@.skip(cur as int),
                n as int - i as int,
            ) {
                None => None::<(Seq<Assignment>, int)>,
                Some((vs, c)) => Some((acc@ + vs, cur - pos + c)),
            },
        decreases n - i,
    {
        let (x, newcur) = match read_assignment(b, cur) {
            None => {
                proof {
                    assert(spec_dec_seq_assignment(b@.skip(cur as int), n as int - i as int)
                        is None);
                    assert(spec_dec_seq_assignment(s0, n as int) is None);
                }
                return None;
            },
            Some(v) => v,
        };
        proof {
            lemma_skip_skip(b@, cur as int, newcur - cur);
        }
        let ghost prev_acc = acc@;
        acc.push(x);
        proof {
            assert forall|vs: Seq<Assignment>| true implies prev_acc + (seq![x] + vs) == acc@
                + vs by {
                assert(prev_acc + (seq![x] + vs) =~= acc@ + vs);
            }
        }
        cur = newcur;
        i = i + 1;
    }
    proof {
        assert(acc@ + Seq::<Assignment>::empty() =~= acc@);
    }
    Some((acc, cur))
}

// ---------------------------------------------------------------------------
// Sequences of transition inputs
// ---------------------------------------------------------------------------

pub open spec fn spec_enc_seq_input(xs: Seq<TransitionInput>) -> Seq<u8>
    decreases xs.len(),
{
    if xs.len() == 0 {
        Seq::empty()
    } else {
        spec_enc_input(xs[0]) + spec_enc_seq_input(xs.drop_first())
    }
}

pub open spec fn spec_dec_seq_input(s: Seq<u8>, n: int) -> Option<(Seq<TransitionInput>, int)>
    decreases n,
{
    if n <= 0 {
        Some((Seq::empty(), 0))
    } else {
        match spec_dec_input(s) {
            None => None,
            Some((x, c)) => match spec_dec_seq_input(s.skip(c), n - 1) {
                None => None,
                Some((xs, c2)) => Some((seq![x] + xs, c + c2)),
            },
        }
    }
}

pub proof fn lemma_seq_input_round_trip(xs: Seq<TransitionInput>, rest: Seq<u8>)
    ensures
        spec_dec_seq_input(spec_enc_seq_input(xs) + rest, xs.len() as int) == Some(
            (xs, spec_enc_seq_input(xs).len() as int),
        ),
    decreases xs.len(),
{
    if xs.len() == 0 {
        assert(spec_enc_seq_input(xs) + rest =~= rest);
        assert(xs =~= Seq::<TransitionInput>::empty());
    } else {
        let hd = xs[0];
        let tl = xs.drop_first();
        let s = spec_enc_seq_input(xs) + rest;
        assert(s =~= spec_enc_input(hd) + (spec_enc_seq_input(tl) + rest));
        lemma_input_round_trip(hd, spec_enc_seq_input(tl) + rest);
        lemma_concat_parts(spec_enc_input(hd), spec_enc_seq_input(tl) + rest);
        lemma_seq_input_round_trip(tl, rest);
        assert(seq![hd] + tl =~= xs);
    }
}

pub proof fn lemma_enc_seq_input_snoc(xs: Seq<TransitionInput>, x: TransitionInput)
    ensures
        spec_enc_seq_input(xs.push(x)) == spec_enc_seq_input(xs) + spec_enc_input(x),
    decreases xs.len(),
{
    let ps = xs.push(x);
    if xs.len() == 0 {
        assert(ps[0] == x);
        assert(ps.drop_first() =~= Seq::<TransitionInput>::empty());
        assert(spec_enc_seq_input(ps.drop_first()) == Seq::<u8>::empty());
        assert(spec_enc_seq_input(ps) =~= spec_enc_seq_input(xs) + spec_enc_input(x));
    } else {
        assert(ps[0] == xs[0]);
        assert(ps.drop_first() =~= xs.drop_first().push(x));
        lemma_enc_seq_input_snoc(xs.drop_first(), x);
        assert(spec_enc_seq_input(ps.drop_first()) == spec_enc_seq_input(xs.drop_first())
            + spec_enc_input(x));
        assert(spec_enc_seq_input(ps) =~= spec_enc_seq_input(xs) + spec_enc_input(x));
    }
}

pub fn write_seq_input(out: &mut Vec<u8>, xs: &Vec<TransitionInput>)
    ensures
        final(out)@ == old(out)@ + spec_enc_varint(xs@.len() as u64) + spec_enc_seq_input(xs@),
{
    write_varint(out, xs.len() as u64);
    let ghost mid = out@;
    let mut i: usize = 0;
    while i < xs.len()
        invariant
            i <= xs@.len(),
            out@ == mid + spec_enc_seq_input(xs@.subrange(0, i as int)),
        decreases xs@.len() - i,
    {
        write_input(out, &xs[i]);
        proof {
            lemma_enc_seq_input_snoc(xs@.subrange(0, i as int), xs@[i as int]);
            assert(xs@.subrange(0, i as int).push(xs@[i as int]) =~= xs@.subrange(
                0,
                i as int + 1,
            ));
        }
        i = i + 1;
    }
    proof {
        assert(xs@.subrange(0, xs@.len() as int) =~= xs@);
    }
}

pub fn read_seq_input(b: &Vec<u8>, pos: usize, n: u64) -> (r: Option<(Vec<TransitionInput>, usize)>)
    requires
        pos <= b@.len(),
    ensures
        match r {
            Some((xs, newpos)) => {
                &&& pos <= newpos <= b@.len()
                &&& spec_dec_seq_input(b@.skip(pos as int), n as int) == Some((xs@, newpos - pos))
            },
            None => spec_dec_seq_input(b@.skip(pos as int), n as int) is None,
        },
{
    let ghost s0 = b@.skip(pos as int);
    let mut acc: Vec<TransitionInput> = Vec::new();
    let mut cur: usize = pos;
    let mut i: u64 = 0;
    while i < n
        invariant
            s0 == b@.skip(pos as int),
            pos <= cur <= b@.len(),
            i <= n,
            acc@.len() == i,
            spec_dec_seq_input(s0, n as int) == match spec_dec_seq_input(
                b@.skip(cur as int),
                n as int - i as int,
            ) {
                None => None::<(Seq<TransitionInput>, int)>,
                Some((vs, c)) => Some((acc@ + vs, cur - pos + c)),
            },
        decreases n - i,
    {
        let (x, newcur) = match read_input(b, cur) {
            None => {
                proof {
                    assert(spec_dec_seq_input(b@.skip(cur as int), n as int - i as int) is None);
                    assert(spec_dec_seq_input(s0, n as int) is None);
                }
                return None;
            },
            Some(v) => v,
        };
        proof {
            lemma_skip_skip(b@, cur as int, newcur - cur);
        }
        let ghost prev_acc = acc@;
        acc.push(x);
        proof {
            assert forall|vs: Seq<TransitionInput>| true implies prev_acc + (seq![x] + vs) == acc@
                + vs by {
                assert(prev_acc + (seq![x] + vs) =~= acc@ + vs);
            }
        }
        cur = newcur;
        i = i + 1;
    }
    proof {
        assert(acc@ + Seq::<TransitionInput>::empty() =~= acc@);
    }
    Some((acc, cur))
}

// ---------------------------------------------------------------------------
// Schema
// ---------------------------------------------------------------------------

/// A contract template: the whitelists a conforming node must respect.
#[derive(Clone, Debug)]
pub struct Schema {
    /// Transition types a contract under this schema may use.
    pub transition_types: Vec<u16>,
    /// Owned-right types assignments and inputs may carry.
    pub owned_right_types: Vec<u16>,
}

/// Specification-level model of a [`Schema`].
pub struct SchemaV {
    pub transition_types: Seq<u16>,
    pub owned_right_types: Seq<u16>,
}

impl View for Schema {
    type V = SchemaV;

    open spec fn view(&self) -> SchemaV {
        SchemaV {
            transition_types: self.transition_types@,
            owned_right_types: self.owned_right_types@,
        }
    }
}

pub open spec fn spec_enc_schema(x: SchemaV) -> Seq<u8> {
    spec_enc_varint(x.transition_types.len() as u64) + spec_enc_seq_u16(x.transition_types)
        + spec_enc_varint(x.owned_right_types.len() as u64) + spec_enc_seq_u16(
        x.owned_right_types,
    )
}

pub open spec fn spec_dec_seq_u16_counted(s: Seq<u8>) -> Option<(Seq<u16>, int)> {
    match spec_dec_varint(s) {
        None => None,
        Some((n, c)) => match spec_dec_seq_u16(s.skip(c), n as int) {
            None => None,
            Some((xs, c2)) => Some((xs, c + c2)),
        },
    }
}

pub open spec fn spec_dec_schema(s: Seq<u8>) -> Option<(SchemaV, int)> {
    match spec_dec_seq_u16_counted(s) {
        None => None,
        Some((tt, c1)) => match spec_dec_seq_u16_counted(s.skip(c1)) {
            None => None,
            Some((ort, c2)) => Some(
                (SchemaV { transition_types: tt, owned_right_types: ort }, c1 + c2),
            ),
        },
    }
}

pub proof fn lemma_seq_u16_counted_round_trip(xs: Seq<u16>, rest: Seq<u8>)
    requires
        xs.len() <= u64::MAX,
    ensures
        spec_dec_seq_u16_counted(
            spec_enc_varint(xs.len() as u64) + spec_enc_seq_u16(xs) + rest,
        ) == Some(
            (xs, spec_enc_varint(xs.len() as u64).len() + spec_enc_seq_u16(xs).len() as int),
        ),
{
    let n = xs.len() as u64;
    let s = spec_enc_varint(n) + spec_enc_seq_u16(xs) + rest;
    assert(s =~= spec_enc_varint(n) + (spec_enc_seq_u16(xs) + rest));
    lemma_varint_round_trip(n, spec_enc_seq_u16(xs) + rest);
    lemma_concat_parts(spec_enc_varint(n), spec_enc_seq_u16(xs) + rest);
    lemma_seq_u16_round_trip(xs, rest);
}

pub proof fn lemma_schema_round_trip(x: SchemaV, rest: Seq<u8>)
    requires
        x.transition_types.len() <= u64::MAX,
        x.owned_right_types.len() <= u64::MAX,
    ensures
        spec_dec_schema(spec_enc_schema(x) + rest) == Some((x, spec_enc_schema(x).len() as int)),
{
    let ett = spec_enc_varint(x.transition_types.len() as u64) + spec_enc_seq_u16(
        x.transition_types,
    );
    let eort = spec_enc_varint(x.owned_right_types.len() as u64) + spec_enc_seq_u16(
        x.owned_right_types,
    );
    let s = spec_enc_schema(x) + rest;
    assert(s =~= ett + (eort + rest));
    lemma_seq_u16_counted_round_trip(x.transition_types, eort + rest);
    lemma_concat_parts(ett, eort + rest);
    lemma_seq_u16_counted_round_trip(x.owned_right_types, rest);
}

pub fn write_schema(out: &mut Vec<u8>, x: &Schema)
    ensures
        final(out)@ == old(out)@ + spec_enc_schema(x@),
{
    write_seq_u16(out, &x.transition_types);
    write_seq_u16(out, &x.owned_right_types);
    proof {
        assert(final(out)@ =~= old(out)@ + spec_enc_schema(x@));
    }
}

pub fn read_seq_u16_counted(b: &Vec<u8>, pos: usize) -> (r: Option<(Vec<u16>, usize)>)
    requires
        pos <= b@.len(),
    ensures
        match r {
            Some((xs, newpos)) => {
                &&& pos <= newpos <= b@.len()
                &&& spec_dec_seq_u16_counted(b@.skip(pos as int)) == Some((xs@, newpos - pos))
            },
            None => spec_dec_seq_u16_counted(b@.skip(pos as int)) is None,
        },
{
    let (n, p1) = match read_varint(b, pos) {
        None => { return None; },
        Some(v) => v,
    };
    proof {
        lemma_skip_skip(b@, pos as int, p1 - pos);
    }
    match read_seq_u16(b, p1, n) {
        None => None,
        Some((xs, newpos)) => Some((xs, newpos)),
    }
}

pub fn read_schema(b: &Vec<u8>, pos: usize) -> (r: Option<(Schema, usize)>)
    requires
        pos <= b@.len(),
    ensures
        match r {
            Some((x, newpos)) => {
                &&& pos <= newpos <= b@.len()
                &&& spec_dec_schema(b@.skip(pos as int)) == Some((x@, newpos - pos))
            },
            None => spec_dec_schema(b@.skip(pos as int)) is None,
        },
{
    let (tt, p1) = match read_seq_u16_counted(b, pos) {
        None => { return None; },
        Some(v) => v,
    };
    proof {
        lemma_skip_skip(b@, pos as int, p1 - pos);
    }
    match read_seq_u16_counted(b, p1) {
        None => None,
        Some((ort, newpos)) => Some(
            (Schema { transition_types: tt, owned_right_types: ort }, newpos),
        ),
    }
}


// ---------------------------------------------------------------------------
// Genesis
// ---------------------------------------------------------------------------

/// The root node of a contract: schema reference, network tag, asset
/// metadata, and the initial owned-right assignments.
#[derive(Clone, Debug)]
pub struct Genesis {
    pub schema_id: Hash32,
    pub network: u32,
    pub ticker: Vec<u8>,
    pub name: Vec<u8>,
    /// Free-form description; empty when none was given.
    pub description: Vec<u8>,
    pub precision: u8,
    pub assignments: Vec<Assignment>,
}

/// Specification-level model of a [`Genesis`].
pub struct GenesisV {
    pub schema_id: Hash32,
    pub network: u32,
    pub ticker: Seq<u8>,
    pub name: Seq<u8>,
    pub description: Seq<u8>,
    pub precision: u8,
    pub assignments: Seq<Assignment>,
}

impl View for Genesis {
    type V = GenesisV;

    open spec fn view(&self) -> GenesisV {
        GenesisV {
            schema_id: self.schema_id,
            network: self.network,
            ticker: self.ticker@,
            name: self.name@,
            description: self.description@,
            precision: self.precision,
            assignments: self.assignments@,
        }
    }
}

pub open spec fn genesis_len_ok(g: GenesisV) -> bool {
    &&& g.ticker.len() <= u64::MAX
    &&& g.name.len() <= u64::MAX
    &&& g.description.len() <= u64::MAX
    &&& g.assignments.len() <= u64::MAX
}

pub open spec fn spec_enc_genesis(g: GenesisV) -> Seq<u8> {
    spec_enc_hash32(g.schema_id) + spec_u32_to_le_bytes(g.network) + spec_enc_bytes(g.ticker)
        + spec_enc_bytes(g.name) + spec_enc_bytes(g.description) + seq![g.precision]
        + spec_enc_varint(g.assignments.len() as u64) + spec_enc_seq_assignment(g.assignments)
}

pub open spec fn spec_dec_seq_assignment_counted(s: Seq<u8>) -> Option<(Seq<Assignment>, int)> {
    match spec_dec_varint(s) {
        None => None,
        Some((n, c)) => match spec_dec_seq_assignment(s.skip(c), n as int) {
            None => None,
            Some((xs, c2)) => Some((xs, c + c2)),
        },
    }
}

pub open spec fn spec_dec_genesis(s: Seq<u8>) -> Option<(GenesisV, int)> {
    match spec_dec_hash32(s) {
        None => None,
        Some((schema_id, c1)) => match spec_dec_u32(s.skip(c1)) {
            None => None,
            Some((network, c2)) => match spec_dec_bytes(s.skip(c1 + c2)) {
                None => None,
                Some((ticker, c3)) => match spec_dec_bytes(s.skip(c1 + c2 + c3)) {
                    None => None,
                    Some((name, c4)) => match spec_dec_bytes(s.skip(c1 + c2 + c3 + c4)) {
                        None => None,
                        Some((description, c4b)) => match spec_dec_u8(
                            s.skip(c1 + c2 + c3 + c4 + c4b),
                        ) {
                            None => None,
                            Some((precision, c5)) => match spec_dec_seq_assignment_counted(
                                s.skip(c1 + c2 + c3 + c4 + c4b + c5),
                            ) {
                                None => None,
                                Some((assignments, c6)) => Some(
                                    (
                                        GenesisV {
                                            schema_id,
                                            network,
                                            ticker,
                                            name,
                                            description,
                                            precision,
                                            assignments,
                                        },
                                        c1 + c2 + c3 + c4 + c4b + c5 + c6,
                                    ),
                                ),
                            },
                        },
                    },
                },
            },
        },
    }
}

pub proof fn lemma_seq_assignment_counted_round_trip(xs: Seq<Assignment>, rest: Seq<u8>)
    requires
        xs.len() <= u64::MAX,
    ensures
        spec_dec_seq_assignment_counted(
            spec_enc_varint(xs.len() as u64) + spec_enc_seq_assignment(xs) + rest,
        ) == Some(
            (
                xs,
                spec_enc_varint(xs.len() as u64).len() + spec_enc_seq_assignment(xs).len() as int,
            ),
        ),
{
    let n = xs.len() as u64;
    let s = spec_enc_varint(n) + spec_enc_seq_assignment(xs) + rest;
    assert(s =~= spec_enc_varint(n) + (spec_enc_seq_assignment(xs) + rest));
    lemma_varint_round_trip(n, spec_enc_seq_assignment(xs) + rest);
    lemma_concat_parts(spec_enc_varint(n), spec_enc_seq_assignment(xs) + rest);
    lemma_seq_assignment_round_trip(xs, rest);
}

#[verifier::rlimit(100)]
#[verifier::spinoff_prover]
pub proof fn lemma_genesis_round_trip(g: GenesisV, rest: Seq<u8>)
    requires
        genesis_len_ok(g),
    ensures
        spec_dec_genesis(spec_enc_genesis(g) + rest) == Some(
            (g, spec_enc_genesis(g).len() as int),
        ),
{
    lemma_prim_round_trip();
    lemma_enc_hash32_len(g.schema_id);
    let e1 = spec_enc_hash32(g.schema_id);
    let e2 = spec_u32_to_le_bytes(g.network);
    let e3 = spec_enc_bytes(g.ticker);
    let e4 = spec_enc_bytes(g.name);
    let e4b = spec_enc_bytes(g.description);
    let e5 = seq![g.precision];
    let e6 = spec_enc_varint(g.assignments.len() as u64) + spec_enc_seq_assignment(g.assignments);
    let s = spec_enc_genesis(g) + rest;
    assert(s =~= e1 + (e2 + (e3 + (e4 + (e4b + (e5 + (e6 + rest)))))));
    lemma_hash32_round_trip(g.schema_id, e2 + (e3 + (e4 + (e4b + (e5 + (e6 + rest))))));
    lemma_concat_parts(e1, e2 + (e3 + (e4 + (e4b + (e5 + (e6 + rest))))));
    lemma_concat_parts(e2, e3 + (e4 + (e4b + (e5 + (e6 + rest)))));
    lemma_bytes_round_trip(g.ticker, e4 + (e4b + (e5 + (e6 + rest))));
    lemma_concat_parts(e3, e4 + (e4b + (e5 + (e6 + rest))));
    lemma_bytes_round_trip(g.name, e4b + (e5 + (e6 + rest)));
    lemma_concat_parts(e4, e4b + (e5 + (e6 + rest)));
    lemma_bytes_round_trip(g.description, e5 + (e6 + rest));
    lemma_concat_parts(e4b, e5 + (e6 + rest));
    lemma_concat_parts(e5, e6 + rest);
    assert((e5 + (e6 + rest))[0] == g.precision);
    lemma_seq_assignment_counted_round_trip(g.assignments, rest);
    assert(s.skip(e1.len() as int) =~= e2 + (e3 + (e4 + (e4b + (e5 + (e6 + rest))))));
    assert(s.skip(e1.len() + e2.len() as int) =~= e3 + (e4 + (e4b + (e5 + (e6 + rest)))));
    assert(s.skip(e1.len() + e2.len() + e3.len() as int) =~= e4 + (e4b + (e5 + (e6 + rest))));
    assert(s.skip(e1.len() + e2.len() + e3.len() + e4.len() as int) =~= e4b + (e5 + (e6
        + rest)));
    assert(s.skip(e1.len() + e2.len() + e3.len() + e4.len() + e4b.len() as int) =~= e5 + (e6
        + rest));
    assert(s.skip(e1.len() + e2.len() + e3.len() + e4.len() + e4b.len() + 1 as int) =~= e6
        + rest);
}

pub fn write_genesis(out: &mut Vec<u8>, g: &Genesis)
    ensures
        final(out)@ == old(out)@ + spec_enc_genesis(g@),
{
    write_hash32(out, &g.schema_id);
    write_u32(out, g.network);
    write_bytes(out, &g.ticker);
    write_bytes(out, &g.name);
    write_bytes(out, &g.description);
    write_u8(out, g.precision);
    write_seq_assignment(out, &g.assignments);
    proof {
        assert(final(out)@ =~= old(out)@ + spec_enc_genesis(g@));
    }
}

pub fn read_seq_assignment_counted(b: &Vec<u8>, pos: usize) -> (r: Option<(Vec<Assignment>, usize)>)
    requires
        pos <= b@.len(),
    ensures
        match r {
            Some((xs, newpos)) => {
                &&& pos <= newpos <= b@.len()
                &&& spec_dec_seq_assignment_counted(b@.skip(pos as int)) == Some(
                    (xs@, newpos - pos),
                )
            },
            None => spec_dec_seq_assignment_counted(b@.skip(pos as int)) is None,
        },
{
    let (n, p1) = match read_varint(b, pos) {
        None => { return None; },
        Some(v) => v,
    };
    proof {
        lemma_skip_skip(b@, pos as int, p1 - pos);
    }
    match read_seq_assignment(b, p1, n) {
        None => None,
        Some((xs, newpos)) => Some((xs, newpos)),
    }
}

pub fn read_genesis(b: &Vec<u8>, pos: usize) -> (r: Option<(Genesis, usize)>)
    requires
        pos <= b@.len(),
    ensures
        match r {
            Some((x, newpos)) => {
                &&& pos <= newpos <= b@.len()
                &&& spec_dec_genesis(b@.skip(pos as int)) == Some((x@, newpos - pos))
            },
            None => spec_dec_genesis(b@.skip(pos as int)) is None,
        },
{
    let ghost s = b@.skip(pos as int);
    let (schema_id, p1) = match read_hash32(b, pos) {
        None => { return None; },
        Some(v) => v,
    };
    proof {
        lemma_skip_skip(b@, pos as int, p1 - pos);
        lemma_prim_round_trip();
    }
    if b.len() - p1 < 4 {
        return None;
    }
    let network = read_u32(b, p1);
    proof {
        assert(s.skip(p1 - pos).subrange(0, 4) =~= b@.subrange(p1 as int, p1 as int + 4));
        lemma_skip_skip(b@, pos as int, p1 + 4 - pos);
    }
    let (ticker, p2) = match read_byte_string(b, p1 + 4) {
        None => { return None; },
        Some(v) => v,
    };
    proof {
        lemma_skip_skip(b@, pos as int, p2 - pos);
    }
    let (name, p2b) = match read_byte_string(b, p2) {
        None => { return None; },
        Some(v) => v,
    };
    proof {
        lemma_skip_skip(b@, pos as int, p2b - pos);
    }
    let (description, p3) = match read_byte_string(b, p2b) {
        None => { return None; },
        Some(v) => v,
    };
    proof {
        lemma_skip_skip(b@, pos as int, p3 - pos);
    }
    if p3 >= b.len() {
        return None;
    }
    let precision = b[p3];
    proof {
        assert(b@.skip(p3 as int)[0] == precision);
        lemma_skip_skip(b@, pos as int, p3 + 1 - pos);
    }
    let (assignments, p4) = match read_seq_assignment_counted(b, p3 + 1) {
        None => { return None; },
        Some(v) => v,
    };
    Some(
        (
            Genesis { schema_id, network, ticker, name, description, precision, assignments },
            p4,
        ),
    )
}

// ---------------------------------------------------------------------------
// Transition
// ---------------------------------------------------------------------------

/// A non-root node: consumes previously owned rights and produces new
/// assignments.
#[derive(Clone, Debug)]
pub struct Transition {
    pub transition_type: u16,
    pub inputs: Vec<TransitionInput>,
    pub assignments: Vec<Assignment>,
}

/// Specification-level model of a [`Transition`].
pub struct TransitionV {
    pub transition_type: u16,
    pub inputs: Seq<TransitionInput>,
    pub assignments: Seq<Assignment>,
}

impl View for Transition {
    type V = TransitionV;

    open spec fn view(&self) -> TransitionV {
        TransitionV {
            transition_type: self.transition_type,
            inputs: self.inputs@,
            assignments: self.assignments@,
        }
    }
}

pub open spec fn transition_len_ok(t: TransitionV) -> bool {
    &&& t.inputs.len() <= u64::MAX
    &&& t.assignments.len() <= u64::MAX
}

pub open spec fn spec_enc_transition(t: TransitionV) -> Seq<u8> {
    spec_u16_to_le_bytes(t.transition_type) + spec_enc_varint(t.inputs.len() as u64)
        + spec_enc_seq_input(t.inputs) + spec_enc_varint(t.assignments.len() as u64)
        + spec_enc_seq_assignment(t.assignments)
}

pub open spec fn spec_dec_seq_input_counted(s: Seq<u8>) -> Option<(Seq<TransitionInput>, int)> {
    match spec_dec_varint(s) {
        None => None,
        Some((n, c)) => match spec_dec_seq_input(s.skip(c), n as int) {
            None => None,
            Some((xs, c2)) => Some((xs, c + c2)),
        },
    }
}

pub open spec fn spec_dec_transition(s: Seq<u8>) -> Option<(TransitionV, int)> {
    match spec_dec_u16(s) {
        None => None,
        Some((transition_type, c1)) => match spec_dec_seq_input_counted(s.skip(c1)) {
            None => None,
            Some((inputs, c2)) => match spec_dec_seq_assignment_counted(s.skip(c1 + c2)) {
                None => None,
                Some((assignments, c3)) => Some(
                    (TransitionV { transition_type, inputs, assignments }, c1 + c2 + c3),
                ),
            },
        },
    }
}

pub proof fn lemma_seq_input_counted_round_trip(xs: Seq<TransitionInput>, rest: Seq<u8>)
    requires
        xs.len() <= u64::MAX,
    ensures
        spec_dec_seq_input_counted(
            spec_enc_varint(xs.len() as u64) + spec_enc_seq_input(xs) + rest,
        ) == Some(
            (xs, spec_enc_varint(xs.len() as u64).len() + spec_enc_seq_input(xs).len() as int),
        ),
{
    let n = xs.len() as u64;
    let s = spec_enc_varint(n) + spec_enc_seq_input(xs) + rest;
    assert(s =~= spec_enc_varint(n) + (spec_enc_seq_input(xs) + rest));
    lemma_varint_round_trip(n, spec_enc_seq_input(xs) + rest);
    lemma_concat_parts(spec_enc_varint(n), spec_enc_seq_input(xs) + rest);
    lemma_seq_input_round_trip(xs, rest);
}

pub proof fn lemma_transition_round_trip(t: TransitionV, rest: Seq<u8>)
    requires
        transition_len_ok(t),
    ensures
        spec_dec_transition(spec_enc_transition(t) + rest) == Some(
            (t, spec_enc_transition(t).len() as int),
        ),
{
    lemma_prim_round_trip();
    let e1 = spec_u16_to_le_bytes(t.transition_type);
    let e2 = spec_enc_varint(t.inputs.len() as u64) + spec_enc_seq_input(t.inputs);
    let e3 = spec_enc_varint(t.assignments.len() as u64) + spec_enc_seq_assignment(t.assignments);
    let s = spec_enc_transition(t) + rest;
    assert(s =~= e1 + (e2 + (e3 + rest)));
    lemma_concat_parts(e1, e2 + (e3 + rest));
    lemma_seq_input_counted_round_trip(t.inputs, e3 + rest);
    lemma_concat_parts(e2, e3 + rest);
    lemma_seq_assignment_counted_round_trip(t.assignments, rest);
    assert(s.skip(2) =~= e2 + (e3 + rest));
    assert(s.skip(2 + e2.len() as int) =~= e3 + rest);
}

pub fn write_transition(out: &mut Vec<u8>, t: &Transition)
    ensures
        final(out)@ == old(out)@ + spec_enc_transition(t@),
{
    write_u16(out, t.transition_type);
    write_seq_input(out, &t.inputs);
    write_seq_assignment(out, &t.assignments);
    proof {
        assert(final(out)@ =~= old(out)@ + spec_enc_transition(t@));
    }
}

pub fn read_seq_input_counted(b: &Vec<u8>, pos: usize) -> (r: Option<(Vec<TransitionInput>, usize)>)
    requires
        pos <= b@.len(),
    ensures
        match r {
            Some((xs, newpos)) => {
                &&& pos <= newpos <= b@.len()
                &&& spec_dec_seq_input_counted(b@.skip(pos as int)) == Some((xs@, newpos - pos))
            },
            None => spec_dec_seq_input_counted(b@.skip(pos as int)) is None,
        },
{
    let (n, p1) = match read_varint(b, pos) {
        None => { return None; },
        Some(v) => v,
    };
    proof {
        lemma_skip_skip(b@, pos as int, p1 - pos);
    }
    match read_seq_input(b, p1, n) {
        None => None,
        Some((xs, newpos)) => Some((xs, newpos)),
    }
}

pub fn read_transition(b: &Vec<u8>, pos: usize) -> (r: Option<(Transition, usize)>)
    requires
        pos <= b@.len(),
    ensures
        match r {
            Some((x, newpos)) => {
                &&& pos <= newpos <= b@.len()
                &&& spec_dec_transition(b@.skip(pos as int)) == Some((x@, newpos - pos))
            },
            None => spec_dec_transition(b@.skip(pos as int)) is None,
        },
{
    let ghost s = b@.skip(pos as int);
    proof {
        lemma_prim_round_trip();
    }
    if b.len() - pos < 2 {
        return None;
    }
    let transition_type = read_u16(b, pos);
    proof {
        assert(s.subrange(0, 2) =~= b@.subrange(pos as int, pos as int + 2));
        lemma_skip_skip(b@, pos as int, 2);
    }
    let (inputs, p1) = match read_seq_input_counted(b, pos + 2) {
        None => { return None; },
        Some(v) => v,
    };
    proof {
        lemma_skip_skip(b@, pos as int, p1 - pos);
    }
    let (assignments, p2) = match read_seq_assignment_counted(b, p1) {
        None => { return None; },
        Some(v) => v,
    };
    Some((Transition { transition_type, inputs, assignments }, p2))
}
// ---------------------------------------------------------------------------
// Endpoint pairs: (node id, blinded outpoint hash)
// ---------------------------------------------------------------------------

pub open spec fn spec_enc_endpoint(p: (Hash32, Hash32)) -> Seq<u8> {
    spec_enc_hash32(p.0) + spec_enc_hash32(p.1)
}

pub open spec fn spec_dec_endpoint(s: Seq<u8>) -> Option<((Hash32, Hash32), int)> {
    match spec_dec_hash32(s) {
        None => None,
        Some((a, c1)) => match spec_dec_hash32(s.skip(c1)) {
            None => None,
            Some((b, c2)) => Some(((a, b), c1 + c2)),
        },
    }
}

pub proof fn lemma_endpoint_round_trip(p: (Hash32, Hash32), rest: Seq<u8>)
    ensures
        spec_dec_endpoint(spec_enc_endpoint(p) + rest) == Some(
            (p, spec_enc_endpoint(p).len() as int),
        ),
{
    lemma_enc_hash32_len(p.0);
    lemma_enc_hash32_len(p.1);
    let s = spec_enc_endpoint(p) + rest;
    assert(s =~= spec_enc_hash32(p.0) + (spec_enc_hash32(p.1) + rest));
    lemma_hash32_round_trip(p.0, spec_enc_hash32(p.1) + rest);
    assert(s.skip(32) =~= spec_enc_hash32(p.1) + rest);
    lemma_hash32_round_trip(p.1, rest);
}

pub fn write_endpoint(out: &mut Vec<u8>, p: &(Hash32, Hash32))
    ensures
        final(out)@ == old(out)@ + spec_enc_endpoint(*p),
{
    write_hash32(out, &p.0);
    write_hash32(out, &p.1);
    proof {
        assert(final(out)@ =~= old(out)@ + spec_enc_endpoint(*p));
    }
}

pub fn read_endpoint(b: &Vec<u8>, pos: usize) -> (r: Option<((Hash32, Hash32), usize)>)
    requires
        pos <= b@.len(),
    ensures
        match r {
            Some((p, newpos)) => {
                &&& pos < newpos <= b@.len()
                &&& spec_dec_endpoint(b@.skip(pos as int)) == Some((p, newpos - pos))
            },
            None => spec_dec_endpoint(b@.skip(pos as int)) is None,
        },
{
    let (a, p1) = match read_hash32(b, pos) {
        None => { return None; },
        Some(v) => v,
    };
    proof {
        lemma_skip_skip(b@, pos as int, p1 - pos);
    }
    match read_hash32(b, p1) {
        None => None,
        Some((c, newpos)) => Some(((a, c), newpos)),
    }
}

pub open spec fn spec_enc_seq_endpoint(xs: Seq<(Hash32, Hash32)>) -> Seq<u8>
    decreases xs.len(),
{
    if xs.len() == 0 {
        Seq::empty()
    } else {
        spec_enc_endpoint(xs[0]) + spec_enc_seq_endpoint(xs.drop_first())
    }
}

pub open spec fn spec_dec_seq_endpoint(s: Seq<u8>, n: int) -> Option<(Seq<(Hash32, Hash32)>, int)>
    decreases n,
{
    if n <= 0 {
        Some((Seq::empty(), 0))
    } else {
        match spec_dec_endpoint(s) {
            None => None,
            Some((x, c)) => match spec_dec_seq_endpoint(s.skip(c), n - 1) {
                None => None,
                Some((xs, c2)) => Some((seq![x] + xs, c + c2)),
            },
        }
    }
}

pub proof fn lemma_seq_endpoint_round_trip(xs: Seq<(Hash32, Hash32)>, rest: Seq<u8>)
    ensures
        spec_dec_seq_endpoint(spec_enc_seq_endpoint(xs) + rest, xs.len() as int) == Some(
            (xs, spec_enc_seq_endpoint(xs).len() as int),
        ),
    decreases xs.len(),
{
    if xs.len() == 0 {
        assert(spec_enc_seq_endpoint(xs) + rest =~= rest);
        assert(xs =~= Seq::<(Hash32, Hash32)>::empty());
    } else {
        let hd = xs[0];
        let tl = xs.drop_first();
        let s = spec_enc_seq_endpoint(xs) + rest;
        assert(s =~= spec_enc_endpoint(hd) + (spec_enc_seq_endpoint(tl) + rest));
        lemma_endpoint_round_trip(hd, spec_enc_seq_endpoint(tl) + rest);
        lemma_concat_parts(spec_enc_endpoint(hd), spec_enc_seq_endpoint(tl) + rest);
        lemma_seq_endpoint_round_trip(tl, rest);
        assert(seq![hd] + tl =~= xs);
    }
}

pub proof fn lemma_enc_seq_endpoint_snoc(xs: Seq<(Hash32, Hash32)>, x: (Hash32, Hash32))
    ensures
        spec_enc_seq_endpoint(xs.push(x)) == spec_enc_seq_endpoint(xs) + spec_enc_endpoint(x),
    decreases xs.len(),
{
    let ps = xs.push(x);
    if xs.len() == 0 {
        assert(ps[0] == x);
        assert(ps.drop_first() =~= Seq::<(Hash32, Hash32)>::empty());
        assert(spec_enc_seq_endpoint(ps.drop_first()) == Seq::<u8>::empty());
        assert(spec_enc_seq_endpoint(ps) =~= spec_enc_seq_endpoint(xs) + spec_enc_endpoint(x));
    } else {
        assert(ps[0] == xs[0]);
        assert(ps.drop_first() =~= xs.drop_first().push(x));
        lemma_enc_seq_endpoint_snoc(xs.drop_first(), x);
        assert(spec_enc_seq_endpoint(ps.drop_first()) == spec_enc_seq_endpoint(xs.drop_first())
            + spec_enc_endpoint(x));
        assert(spec_enc_seq_endpoint(ps) =~= spec_enc_seq_endpoint(xs) + spec_enc_endpoint(x));
    }
}

pub fn write_seq_endpoint(out: &mut Vec<u8>, xs: &Vec<(Hash32, Hash32)>)
    ensures
        final(out)@ == old(out)@ + spec_enc_varint(xs@.len() as u64) + spec_enc_seq_endpoint(xs@),
{
    write_varint(out, xs.len() as u64);
    let ghost mid = out@;
    let mut i: usize = 0;
    while i < xs.len()
        invariant
            i <= xs@.len(),
            out@ == mid + spec_enc_seq_endpoint(xs@.subrange(0, i as int)),
        decreases xs@.len() - i,
    {
        write_endpoint(out, &xs[i]);
        proof {
            lemma_enc_seq_endpoint_snoc(xs@.subrange(0, i as int), xs@[i as int]);
            assert(xs@.subrange(0, i as int).push(xs@[i as int]) =~= xs@.subrange(
                0,
                i as int + 1,
            ));
        }
        i = i + 1;
    }
    proof {
        assert(xs@.subrange(0, xs@.len() as int) =~= xs@);
    }
}

pub fn read_seq_endpoint(b: &Vec<u8>, pos: usize, n: u64) -> (r: Option<
    (Vec<(Hash32, Hash32)>, usize),
>)
    requires
        pos <= b@.len(),
    ensures
        match r {
            Some((xs, newpos)) => {
                &&& pos <= newpos <= b@.len()
                &&& spec_dec_seq_endpoint(b@.skip(pos as int), n as int) == Some(
                    (xs@, newpos - pos),
                )
            },
            None => spec_dec_seq_endpoint(b@.skip(pos as int), n as int) is None,
        },
{
    let ghost s0 = b@.skip(pos as int);
    let mut acc: Vec<(Hash32, Hash32)> = Vec::new();
    let mut cur: usize = pos;
    let mut i: u64 = 0;
    while i < n
        invariant
            s0 == b@.skip(pos as int),
            pos <= cur <= b@.len(),
            i <= n,
            acc@.len() == i,
            spec_dec_seq_endpoint(s0, n as int) == match spec_dec_seq_endpoint(
                b@.skip(cur as int),
                n as int - i as int,
            ) {
                None => None::<(Seq<(Hash32, Hash32)>, int)>,
                Some((vs, c)) => Some((acc@ + vs, cur - pos + c)),
            },
        decreases n - i,
    {
        let (x, newcur) = match read_endpoint(b, cur) {
            None => {
                proof {
                    assert(spec_dec_seq_endpoint(b@.skip(cur as int), n as int - i as int)
                        is None);
                    assert(spec_dec_seq_endpoint(s0, n as int) is None);
                }
                return None;
            },
            Some(v) => v,
        };
        proof {
            lemma_skip_skip(b@, cur as int, newcur - cur);
        }
        let ghost prev_acc = acc@;
        acc.push(x);
        proof {
            assert forall|vs: Seq<(Hash32, Hash32)>| true implies prev_acc + (seq![x] + vs)
                == acc@ + vs by {
                assert(prev_acc + (seq![x] + vs) =~= acc@ + vs);
            }
        }
        cur = newcur;
        i = i + 1;
    }
    proof {
        assert(acc@ + Seq::<(Hash32, Hash32)>::empty() =~= acc@);
    }
    Some((acc, cur))
}

// ---------------------------------------------------------------------------
// Anchored transitions: (anchor, transition) pairs
// ---------------------------------------------------------------------------

/// Model view of a vector of anchored transitions.
pub open spec fn pairs_view(s: Seq<(Anchor, Transition)>) -> Seq<(Anchor, TransitionV)> {
    s.map_values(|p: (Anchor, Transition)| (p.0, p.1@))
}

pub open spec fn spec_enc_pair(p: (Anchor, TransitionV)) -> Seq<u8> {
    spec_enc_anchor(p.0) + spec_enc_transition(p.1)
}

pub open spec fn spec_dec_pair(s: Seq<u8>) -> Option<((Anchor, TransitionV), int)> {
    match spec_dec_anchor(s) {
        None => None,
        Some((a, c1)) => match spec_dec_transition(s.skip(c1)) {
            None => None,
            Some((t, c2)) => Some(((a, t), c1 + c2)),
        },
    }
}

pub proof fn lemma_pair_round_trip(p: (Anchor, TransitionV), rest: Seq<u8>)
    requires
        transition_len_ok(p.1),
    ensures
        spec_dec_pair(spec_enc_pair(p) + rest) == Some((p, spec_enc_pair(p).len() as int)),
{
    let s = spec_enc_pair(p) + rest;
    assert(s =~= spec_enc_anchor(p.0) + (spec_enc_transition(p.1) + rest));
    lemma_anchor_round_trip(p.0, spec_enc_transition(p.1) + rest);
    lemma_concat_parts(spec_enc_anchor(p.0), spec_enc_transition(p.1) + rest);
    lemma_transition_round_trip(p.1, rest);
}

pub fn write_pair(out: &mut Vec<u8>, p: &(Anchor, Transition))
    ensures
        final(out)@ == old(out)@ + spec_enc_pair((p.0, p.1@)),
{
    write_anchor(out, &p.0);
    write_transition(out, &p.1);
    proof {
        assert(final(out)@ =~= old(out)@ + spec_enc_pair((p.0, p.1@)));
    }
}

pub fn read_pair(b: &Vec<u8>, pos: usize) -> (r: Option<((Anchor, Transition), usize)>)
    requires
        pos <= b@.len(),
    ensures
        match r {
            Some((p, newpos)) => {
                &&& pos < newpos <= b@.len()
                &&& spec_dec_pair(b@.skip(pos as int)) == Some(((p.0, p.1@), newpos - pos))
            },
            None => spec_dec_pair(b@.skip(pos as int)) is None,
        },
{
    let (a, p1) = match read_anchor(b, pos) {
        None => { return None; },
        Some(v) => v,
    };
    proof {
        lemma_skip_skip(b@, pos as int, p1 - pos);
    }
    match read_transition(b, p1) {
        None => None,
        Some((t, newpos)) => Some(((a, t), newpos)),
    }
}

pub open spec fn spec_enc_seq_pair(xs: Seq<(Anchor, TransitionV)>) -> Seq<u8>
    decreases xs.len(),
{
    if xs.len() == 0 {
        Seq::empty()
    } else {
        spec_enc_pair(xs[0]) + spec_enc_seq_pair(xs.drop_first())
    }
}

pub open spec fn spec_dec_seq_pair(s: Seq<u8>, n: int) -> Option<(Seq<(Anchor, TransitionV)>, int)>
    decreases n,
{
    if n <= 0 {
        Some((Seq::empty(), 0))
    } else {
        match spec_dec_pair(s) {
            None => None,
            Some((x, c)) => match spec_dec_seq_pair(s.skip(c), n - 1) {
                None => None,
                Some((xs, c2)) => Some((seq![x] + xs, c + c2)),
            },
        }
    }
}

pub proof fn lemma_seq_pair_round_trip(xs: Seq<(Anchor, TransitionV)>, rest: Seq<u8>)
    requires
        forall|i: int| 0 <= i < xs.len() ==> transition_len_ok(#[trigger] xs[i].1),
    ensures
        spec_dec_seq_pair(spec_enc_seq_pair(xs) + rest, xs.len() as int) == Some(
            (xs, spec_enc_seq_pair(xs).len() as int),
        ),
    decreases xs.len(),
{
    if xs.len() == 0 {
        assert(spec_enc_seq_pair(xs) + rest =~= rest);
        assert(xs =~= Seq::<(Anchor, TransitionV)>::empty());
    } else {
        let hd = xs[0];
        let tl = xs.drop_first();
        let s = spec_enc_seq_pair(xs) + rest;
        assert(s =~= spec_enc_pair(hd) + (spec_enc_seq_pair(tl) + rest));
        lemma_pair_round_trip(hd, spec_enc_seq_pair(tl) + rest);
        lemma_concat_parts(spec_enc_pair(hd), spec_enc_seq_pair(tl) + rest);
        assert(forall|i: int| 0 <= i < tl.len() ==> transition_len_ok(#[trigger] tl[i].1));
        lemma_seq_pair_round_trip(tl, rest);
        assert(seq![hd] + tl =~= xs);
    }
}

pub proof fn lemma_enc_seq_pair_snoc(xs: Seq<(Anchor, TransitionV)>, x: (Anchor, TransitionV))
    ensures
        spec_enc_seq_pair(xs.push(x)) == spec_enc_seq_pair(xs) + spec_enc_pair(x),
    decreases xs.len(),
{
    let ps = xs.push(x);
    if xs.len() == 0 {
        assert(ps[0] == x);
        assert(ps.drop_first() =~= Seq::<(Anchor, TransitionV)>::empty());
        assert(spec_enc_seq_pair(ps.drop_first()) == Seq::<u8>::empty());
        assert(spec_enc_seq_pair(ps) =~= spec_enc_seq_pair(xs) + spec_enc_pair(x));
    } else {
        assert(ps[0] == xs[0]);
        assert(ps.drop_first() =~= xs.drop_first().push(x));
        lemma_enc_seq_pair_snoc(xs.drop_first(), x);
        assert(spec_enc_seq_pair(ps.drop_first()) == spec_enc_seq_pair(xs.drop_first())
            + spec_enc_pair(x));
        assert(spec_enc_seq_pair(ps) =~= spec_enc_seq_pair(xs) + spec_enc_pair(x));
    }
}

pub fn write_seq_pair(out: &mut Vec<u8>, xs: &Vec<(Anchor, Transition)>)
    ensures
        final(out)@ == old(out)@ + spec_enc_varint(xs@.len() as u64) + spec_enc_seq_pair(
            pairs_view(xs@),
        ),
{
    write_varint(out, xs.len() as u64);
    let ghost mid = out@;
    let mut i: usize = 0;
    while i < xs.len()
        invariant
            i <= xs@.len(),
            out@ == mid + spec_enc_seq_pair(pairs_view(xs@.subrange(0, i as int))),
        decreases xs@.len() - i,
    {
        write_pair(out, &xs[i]);
        proof {
            lemma_enc_seq_pair_snoc(
                pairs_view(xs@.subrange(0, i as int)),
                (xs@[i as int].0, xs@[i as int].1@),
            );
            assert(pairs_view(xs@.subrange(0, i as int)).push((xs@[i as int].0, xs@[i as int].1@))
                =~= pairs_view(xs@.subrange(0, i as int + 1)));
        }
        i = i + 1;
    }
    proof {
        assert(xs@.subrange(0, xs@.len() as int) =~= xs@);
    }
}

pub fn read_seq_pair(b: &Vec<u8>, pos: usize, n: u64) -> (r: Option<
    (Vec<(Anchor, Transition)>, usize),
>)
    requires
        pos <= b@.len(),
    ensures
        match r {
            Some((xs, newpos)) => {
                &&& pos <= newpos <= b@.len()
                &&& spec_dec_seq_pair(b@.skip(pos as int), n as int) == Some(
                    (pairs_view(xs@), newpos - pos),
                )
            },
            None => spec_dec_seq_pair(b@.skip(pos as int), n as int) is None,
        },
{
    let ghost s0 = b@.skip(pos as int);
    let mut acc: Vec<(Anchor, Transition)> = Vec::new();
    let mut cur: usize = pos;
    let mut i: u64 = 0;
    while i < n
        invariant
            s0 == b@.skip(pos as int),
            pos <= cur <= b@.len(),
            i <= n,
            acc@.len() == i,
            spec_dec_seq_pair(s0, n as int) == match spec_dec_seq_pair(
                b@.skip(cur as int),
                n as int - i as int,
            ) {
                None => None::<(Seq<(Anchor, TransitionV)>, int)>,
                Some((vs, c)) => Some((pairs_view(acc@) + vs, cur - pos + c)),
            },
        decreases n - i,
    {
        let (x, newcur) = match read_pair(b, cur) {
            None => {
                proof {
                    assert(spec_dec_seq_pair(b@.skip(cur as int), n as int - i as int) is None);
                    assert(spec_dec_seq_pair(s0, n as int) is None);
                }
                return None;
            },
            Some(v) => v,
        };
        proof {
            lemma_skip_skip(b@, cur as int, newcur - cur);
        }
        let ghost prev_acc = acc@;
        acc.push(x);
        proof {
            assert(pairs_view(acc@) =~= pairs_view(prev_acc).push((x.0, x.1@)));
            assert forall|vs: Seq<(Anchor, TransitionV)>| true implies pairs_view(prev_acc) + (
            seq![(x.0, x.1@)] + vs) == pairs_view(acc@) + vs by {
                assert(pairs_view(prev_acc) + (seq![(x.0, x.1@)] + vs) =~= pairs_view(acc@) + vs);
            }
        }
        cur = newcur;
        i = i + 1;
    }
    proof {
        assert(pairs_view(acc@) + Seq::<(Anchor, TransitionV)>::empty() =~= pairs_view(acc@));
    }
    Some((acc, cur))
}

// ---------------------------------------------------------------------------
// Consignment
// ---------------------------------------------------------------------------

/// A self-contained, verifiable ancestry slice: the genesis, anchored
/// transitions in ancestor order, and the terminal endpoints.
#[derive(Clone, Debug)]
pub struct Consignment {
    pub genesis: Genesis,
    pub state_transitions: Vec<(Anchor, Transition)>,
    pub endpoints: Vec<(Hash32, Hash32)>,
}

/// Specification-level model of a [`Consignment`].
pub struct ConsignmentV {
    pub genesis: GenesisV,
    pub state_transitions: Seq<(Anchor, TransitionV)>,
    pub endpoints: Seq<(Hash32, Hash32)>,
}

impl View for Consignment {
    type V = ConsignmentV;

    open spec fn view(&self) -> ConsignmentV {
        ConsignmentV {
            genesis: self.genesis@,
            state_transitions: pairs_view(self.state_transitions@),
            endpoints: self.endpoints@,
        }
    }
}

pub open spec fn consignment_len_ok(c: ConsignmentV) -> bool {
    &&& genesis_len_ok(c.genesis)
    &&& c.state_transitions.len() <= u64::MAX
    &&& forall|i: int| 0 <= i < c.state_transitions.len() ==> transition_len_ok(
        #[trigger] c.state_transitions[i].1,
    )
    &&& c.endpoints.len() <= u64::MAX
}

pub open spec fn spec_enc_consignment(c: ConsignmentV) -> Seq<u8> {
    spec_enc_genesis(c.genesis) + spec_enc_varint(c.state_transitions.len() as u64)
        + spec_enc_seq_pair(c.state_transitions) + spec_enc_varint(c.endpoints.len() as u64)
        + spec_enc_seq_endpoint(c.endpoints)
}

pub open spec fn spec_dec_seq_pair_counted(s: Seq<u8>) -> Option<(Seq<(Anchor, TransitionV)>, int)> {
    match spec_dec_varint(s) {
        None => None,
        Some((n, c)) => match spec_dec_seq_pair(s.skip(c), n as int) {
            None => None,
            Some((xs, c2)) => Some((xs, c + c2)),
        },
    }
}

pub open spec fn spec_dec_seq_endpoint_counted(s: Seq<u8>) -> Option<(Seq<(Hash32, Hash32)>, int)> {
    match spec_dec_varint(s) {
        None => None,
        Some((n, c)) => match spec_dec_seq_endpoint(s.skip(c), n as int) {
            None => None,
            Some((xs, c2)) => Some((xs, c + c2)),
        },
    }
}

pub open spec fn spec_dec_consignment(s: Seq<u8>) -> Option<(ConsignmentV, int)> {
    match spec_dec_genesis(s) {
        None => None,
        Some((genesis, c1)) => match spec_dec_seq_pair_counted(s.skip(c1)) {
            None => None,
            Some((state_transitions, c2)) => match spec_dec_seq_endpoint_counted(s.skip(c1 + c2)) {
                None => None,
                Some((endpoints, c3)) => Some(
                    (ConsignmentV { genesis, state_transitions, endpoints }, c1 + c2 + c3),
                ),
            },
        },
    }
}

pub proof fn lemma_seq_pair_counted_round_trip(xs: Seq<(Anchor, TransitionV)>, rest: Seq<u8>)
    requires
        xs.len() <= u64::MAX,
        forall|i: int| 0 <= i < xs.len() ==> transition_len_ok(#[trigger] xs[i].1),
    ensures
        spec_dec_seq_pair_counted(
            spec_enc_varint(xs.len() as u64) + spec_enc_seq_pair(xs) + rest,
        ) == Some(
            (xs, spec_enc_varint(xs.len() as u64).len() + spec_enc_seq_pair(xs).len() as int),
        ),
{
    let n = xs.len() as u64;
    let s = spec_enc_varint(n) + spec_enc_seq_pair(xs) + rest;
    assert(s =~= spec_enc_varint(n) + (spec_enc_seq_pair(xs) + rest));
    lemma_varint_round_trip(n, spec_enc_seq_pair(xs) + rest);
    lemma_concat_parts(spec_enc_varint(n), spec_enc_seq_pair(xs) + rest);
    lemma_seq_pair_round_trip(xs, rest);
}

pub proof fn lemma_seq_endpoint_counted_round_trip(xs: Seq<(Hash32, Hash32)>, rest: Seq<u8>)
    requires
        xs.len() <= u64::MAX,
    ensures
        spec_dec_seq_endpoint_counted(
            spec_enc_varint(xs.len() as u64) + spec_enc_seq_endpoint(xs) + rest,
        ) == Some(
            (
                xs,
                spec_enc_varint(xs.len() as u64).len() + spec_enc_seq_endpoint(xs).len() as int,
            ),
        ),
{
    let n = xs.len() as u64;
    let s = spec_enc_varint(n) + spec_enc_seq_endpoint(xs) + rest;
    assert(s =~= spec_enc_varint(n) + (spec_enc_seq_endpoint(xs) + rest));
    lemma_varint_round_trip(n, spec_enc_seq_endpoint(xs) + rest);
    lemma_concat_parts(spec_enc_varint(n), spec_enc_seq_endpoint(xs) + rest);
    lemma_seq_endpoint_round_trip(xs, rest);
}

/// The two trailing sections of a consignment encoding decode back.
#[verifier::spinoff_prover]
proof fn lemma_consignment_tail_round_trip(c: ConsignmentV, rest: Seq<u8>)
    requires
        consignment_len_ok(c),
    ensures
        ({
            let e2 = spec_enc_varint(c.state_transitions.len() as u64) + spec_enc_seq_pair(
                c.state_transitions,
            );
            let e3 = spec_enc_varint(c.endpoints.len() as u64) + spec_enc_seq_endpoint(
                c.endpoints,
            );
            spec_dec_seq_pair_counted(e2 + (e3 + rest)) == Some(
                (c.state_transitions, e2.len() as int),
            ) && spec_dec_seq_endpoint_counted(e3 + rest) == Some(
                (c.endpoints, e3.len() as int),
            ) && (e2 + (e3 + rest)).skip(e2.len() as int) == e3 + rest
        }),
{
    let e2 = spec_enc_varint(c.state_transitions.len() as u64) + spec_enc_seq_pair(
        c.state_transitions,
    );
    let e3 = spec_enc_varint(c.endpoints.len() as u64) + spec_enc_seq_endpoint(c.endpoints);
    let n2 = c.state_transitions.len() as u64;
    assert(e2 + (e3 + rest) =~= spec_enc_varint(n2) + (spec_enc_seq_pair(c.state_transitions) + (
    e3 + rest)));
    lemma_varint_round_trip(n2, spec_enc_seq_pair(c.state_transitions) + (e3 + rest));
    lemma_concat_parts(spec_enc_varint(n2), spec_enc_seq_pair(c.state_transitions) + (e3 + rest));
    lemma_seq_pair_round_trip(c.state_transitions, e3 + rest);
    lemma_concat_parts(spec_enc_seq_pair(c.state_transitions), e3 + rest);
    assert((e2 + (e3 + rest)).skip(e2.len() as int) =~= e3 + rest);
    let n3 = c.endpoints.len() as u64;
    assert(e3 + rest =~= spec_enc_varint(n3) + (spec_enc_seq_endpoint(c.endpoints) + rest));
    lemma_varint_round_trip(n3, spec_enc_seq_endpoint(c.endpoints) + rest);
    lemma_concat_parts(spec_enc_varint(n3), spec_enc_seq_endpoint(c.endpoints) + rest);
    lemma_seq_endpoint_round_trip(c.endpoints, rest);
}

#[verifier::rlimit(100)]
#[verifier::spinoff_prover]
pub proof fn lemma_consignment_round_trip(c: ConsignmentV, rest: Seq<u8>)
    requires
        consignment_len_ok(c),
    ensures
        spec_dec_consignment(spec_enc_consignment(c) + rest) == Some(
            (c, spec_enc_consignment(c).len() as int),
        ),
{
    let e1 = spec_enc_genesis(c.genesis);
    let e2 = spec_enc_varint(c.state_transitions.len() as u64) + spec_enc_seq_pair(
        c.state_transitions,
    );
    let e3 = spec_enc_varint(c.endpoints.len() as u64) + spec_enc_seq_endpoint(c.endpoints);
    let s = spec_enc_consignment(c) + rest;
    assert(s =~= e1 + (e2 + (e3 + rest)));
    lemma_genesis_round_trip(c.genesis, e2 + (e3 + rest));
    lemma_concat_parts(e1, e2 + (e3 + rest));
    assert(s.skip(e1.len() as int) =~= e2 + (e3 + rest));
    lemma_consignment_tail_round_trip(c, rest);
    lemma_skip_skip(s, e1.len() as int, e2.len() as int);
    assert(s.skip(e1.len() + e2.len() as int) == e3 + rest);
    assert(spec_dec_genesis(s) == Some((c.genesis, e1.len() as int)));
    assert(spec_dec_seq_pair_counted(s.skip(e1.len() as int)) == Some(
        (c.state_transitions, e2.len() as int),
    ));
    assert(spec_dec_seq_endpoint_counted(s.skip(e1.len() + e2.len() as int)) == Some(
        (c.endpoints, e3.len() as int),
    ));
}

pub fn write_consignment(out: &mut Vec<u8>, c: &Consignment)
    ensures
        final(out)@ == old(out)@ + spec_enc_consignment(c@),
{
    write_genesis(out, &c.genesis);
    write_seq_pair(out, &c.state_transitions);
    write_seq_endpoint(out, &c.endpoints);
    proof {
        assert(final(out)@ =~= old(out)@ + spec_enc_consignment(c@));
    }
}

#[verifier::rlimit(60)]
#[verifier::spinoff_prover]
pub fn read_consignment(b: &Vec<u8>, pos: usize) -> (r: Option<(Consignment, usize)>)
    requires
        pos <= b@.len(),
    ensures
        match r {
            Some((x, newpos)) => {
                &&& pos <= newpos <= b@.len()
                &&& spec_dec_consignment(b@.skip(pos as int)) == Some((x@, newpos - pos))
            },
            None => spec_dec_consignment(b@.skip(pos as int)) is None,
        },
{
    let (genesis, p1) = match read_genesis(b, pos) {
        None => { return None; },
        Some(v) => v,
    };
    proof {
        lemma_skip_skip(b@, pos as int, p1 - pos);
    }
    let (n2, p2) = match read_varint(b, p1) {
        None => { return None; },
        Some(v) => v,
    };
    proof {
        lemma_skip_skip(b@, p1 as int, p2 - p1);
    }
    let (state_transitions, p3) = match read_seq_pair(b, p2, n2) {
        None => { return None; },
        Some(v) => v,
    };
    proof {
        lemma_skip_skip(b@, pos as int, p3 - pos);
    }
    let (n3, p4) = match read_varint(b, p3) {
        None => { return None; },
        Some(v) => v,
    };
    proof {
        lemma_skip_skip(b@, p3 as int, p4 - p3);
    }
    let (endpoints, p5) = match read_seq_endpoint(b, p4, n3) {
        None => { return None; },
        Some(v) => v,
    };
    Some((Consignment { genesis, state_transitions, endpoints }, p5))
}

// ---------------------------------------------------------------------------
// Content ids and encoding-based equality
// ---------------------------------------------------------------------------

/// The schema id: content hash of the schema's encoding.
pub open spec fn spec_schema_id(x: SchemaV) -> Hash32 {
    spec_id_of(spec_enc_schema(x))
}

/// The contract id: content hash of the genesis encoding.
pub open spec fn spec_contract_id(g: GenesisV) -> Hash32 {
    spec_id_of(spec_enc_genesis(g))
}

/// The node id of a transition: content hash of its encoding.
pub open spec fn spec_node_id(t: TransitionV) -> Hash32 {
    spec_id_of(spec_enc_transition(t))
}

pub fn enc_schema_vec(x: &Schema) -> (r: Vec<u8>)
    ensures
        r@ == spec_enc_schema(x@),
{
    let mut out: Vec<u8> = Vec::new();
    write_schema(&mut out, x);
    proof {
        assert(out@ =~= spec_enc_schema(x@));
    }
    out
}

pub fn enc_genesis_vec(g: &Genesis) -> (r: Vec<u8>)
    ensures
        r@ == spec_enc_genesis(g@),
{
    let mut out: Vec<u8> = Vec::new();
    write_genesis(&mut out, g);
    proof {
        assert(out@ =~= spec_enc_genesis(g@));
    }
    out
}

pub fn enc_transition_vec(t: &Transition) -> (r: Vec<u8>)
    ensures
        r@ == spec_enc_transition(t@),
{
    let mut out: Vec<u8> = Vec::new();
    write_transition(&mut out, t);
    proof {
        assert(out@ =~= spec_enc_transition(t@));
    }
    out
}

pub fn enc_consignment_vec(c: &Consignment) -> (r: Vec<u8>)
    ensures
        r@ == spec_enc_consignment(c@),
{
    let mut out: Vec<u8> = Vec::new();
    write_consignment(&mut out, c);
    proof {
        assert(out@ =~= spec_enc_consignment(c@));
    }
    out
}

pub fn schema_id_of(x: &Schema) -> (r: Hash32)
    ensures
        r == spec_schema_id(x@),
{
    crate::ids::id_of(&enc_schema_vec(x))
}

pub fn contract_id_of(g: &Genesis) -> (r: Hash32)
    ensures
        r == spec_contract_id(g@),
{
    crate::ids::id_of(&enc_genesis_vec(g))
}

pub fn node_id_of(t: &Transition) -> (r: Hash32)
    ensures
        r == spec_node_id(t@),
{
    crate::ids::id_of(&enc_transition_vec(t))
}

pub fn bytes_eq(a: &Vec<u8>, b: &Vec<u8>) -> (r: bool)
    ensures
        r == (a@ == b@),
{
    if a.len() != b.len() {
        return false;
    }
    let mut i: usize = 0;
    while i < a.len()
        invariant
            a@.len() == b@.len(),
            i <= a@.len(),
            forall|j: int| 0 <= j < i ==> a@[j] == b@[j],
        decreases a@.len() - i,
    {
        if a[i] != b[i] {
            return false;
        }
        i = i + 1;
    }
    proof {
        assert(a@ =~= b@);
    }
    true
}

/// Views of executable values always have machine-bounded lengths.
pub proof fn lemma_genesis_view_len_ok(g: &Genesis)
    ensures
        genesis_len_ok(g@),
{
    broadcast use vstd::std_specs::vec::axiom_spec_len;

    assert(g.ticker@.len() == g.ticker.len());
    assert(g.name@.len() == g.name.len());
    assert(g.description@.len() == g.description.len());
    assert(g.assignments@.len() == g.assignments.len());
}

pub proof fn lemma_transition_view_len_ok(t: &Transition)
    ensures
        transition_len_ok(t@),
{
    broadcast use vstd::std_specs::vec::axiom_spec_len;

    assert(t.inputs@.len() == t.inputs.len());
    assert(t.assignments@.len() == t.assignments.len());
}

pub proof fn lemma_schema_view_len_ok(x: &Schema)
    ensures
        x@.transition_types.len() <= u64::MAX,
        x@.owned_right_types.len() <= u64::MAX,
{
    broadcast use vstd::std_specs::vec::axiom_spec_len;

    assert(x.transition_types@.len() == x.transition_types.len());
    assert(x.owned_right_types@.len() == x.owned_right_types.len());
}

/// The strict encoding is injective: equal encodings mean equal models.
pub proof fn lemma_enc_genesis_injective(a: GenesisV, b: GenesisV)
    requires
        genesis_len_ok(a),
        genesis_len_ok(b),
        spec_enc_genesis(a) == spec_enc_genesis(b),
    ensures
        a == b,
{
    lemma_genesis_round_trip(a, Seq::empty());
    lemma_genesis_round_trip(b, Seq::empty());
    assert(spec_enc_genesis(a) + Seq::<u8>::empty() =~= spec_enc_genesis(a));
    assert(spec_enc_genesis(b) + Seq::<u8>::empty() =~= spec_enc_genesis(b));
}

pub proof fn lemma_enc_transition_injective(a: TransitionV, b: TransitionV)
    requires
        transition_len_ok(a),
        transition_len_ok(b),
        spec_enc_transition(a) == spec_enc_transition(b),
    ensures
        a == b,
{
    lemma_transition_round_trip(a, Seq::empty());
    lemma_transition_round_trip(b, Seq::empty());
    assert(spec_enc_transition(a) + Seq::<u8>::empty() =~= spec_enc_transition(a));
    assert(spec_enc_transition(b) + Seq::<u8>::empty() =~= spec_enc_transition(b));
}

pub proof fn lemma_enc_schema_injective(a: SchemaV, b: SchemaV)
    requires
        a.transition_types.len() <= u64::MAX,
        a.owned_right_types.len() <= u64::MAX,
        b.transition_types.len() <= u64::MAX,
        b.owned_right_types.len() <= u64::MAX,
        spec_enc_schema(a) == spec_enc_schema(b),
    ensures
        a == b,
{
    lemma_schema_round_trip(a, Seq::empty());
    lemma_schema_round_trip(b, Seq::empty());
    assert(spec_enc_schema(a) + Seq::<u8>::empty() =~= spec_enc_schema(a));
    assert(spec_enc_schema(b) + Seq::<u8>::empty() =~= spec_enc_schema(b));
}

pub fn genesis_eq(a: &Genesis, b: &Genesis) -> (r: bool)
    ensures
        r == (a@ == b@),
{
    let ea = enc_genesis_vec(a);
    let eb = enc_genesis_vec(b);
    let r = bytes_eq(&ea, &eb);
    proof {
        lemma_genesis_view_len_ok(a);
        lemma_genesis_view_len_ok(b);
        if ea@ == eb@ {
            lemma_enc_genesis_injective(a@, b@);
        }
    }
    r
}

pub fn transition_eq(a: &Transition, b: &Transition) -> (r: bool)
    ensures
        r == (a@ == b@),
{
    let ea = enc_transition_vec(a);
    let eb = enc_transition_vec(b);
    let r = bytes_eq(&ea, &eb);
    proof {
        lemma_transition_view_len_ok(a);
        lemma_transition_view_len_ok(b);
        if ea@ == eb@ {
            lemma_enc_transition_injective(a@, b@);
        }
    }
    r
}

pub fn schema_eq(a: &Schema, b: &Schema) -> (r: bool)
    ensures
        r == (a@ == b@),
{
    let ea = enc_schema_vec(a);
    let eb = enc_schema_vec(b);
    let r = bytes_eq(&ea, &eb);
    proof {
        lemma_schema_view_len_ok(a);
        lemma_schema_view_len_ok(b);
        if ea@ == eb@ {
            lemma_enc_schema_injective(a@, b@);
        }
    }
    r
}

// ---------------------------------------------------------------------------
// Deep copies with known models
// ---------------------------------------------------------------------------

pub fn copy_bytes(v: &Vec<u8>) -> (r: Vec<u8>)
    ensures
        r@ == v@,
{
    let mut r: Vec<u8> = Vec::new();
    let mut i: usize = 0;
    while i < v.len()
        invariant
            i <= v@.len(),
            r@ == v@.subrange(0, i as int),
        decreases v@.len() - i,
    {
        r.push(v[i]);
        proof {
            assert(r@ =~= v@.subrange(0, i as int + 1));
        }
        i = i + 1;
    }
    proof {
        assert(v@.subrange(0, v@.len() as int) =~= v@);
    }
    r
}

pub fn copy_assignments(v: &Vec<Assignment>) -> (r: Vec<Assignment>)
    ensures
        r@ == v@,
{
    let mut r: Vec<Assignment> = Vec::new();
    let mut i: usize = 0;
    while i < v.len()
        invariant
            i <= v@.len(),
            r@ == v@.subrange(0, i as int),
        decreases v@.len() - i,
    {
        r.push(v[i]);
        proof {
            assert(r@ =~= v@.subrange(0, i as int + 1));
        }
        i = i + 1;
    }
    proof {
        assert(v@.subrange(0, v@.len() as int) =~= v@);
    }
    r
}

pub fn copy_inputs(v: &Vec<TransitionInput>) -> (r: Vec<TransitionInput>)
    ensures
        r@ == v@,
{
    let mut r: Vec<TransitionInput> = Vec::new();
    let mut i: usize = 0;
    while i < v.len()
        invariant
            i <= v@.len(),
            r@ == v@.subrange(0, i as int),
        decreases v@.len() - i,
    {
        r.push(v[i]);
        proof {
            assert(r@ =~= v@.subrange(0, i as int + 1));
        }
        i = i + 1;
    }
    proof {
        assert(v@.subrange(0, v@.len() as int) =~= v@);
    }
    r
}

pub fn copy_genesis(g: &Genesis) -> (r: Genesis)
    ensures
        r@ == g@,
{
    Genesis {
        schema_id: g.schema_id,
        network: g.network,
        ticker: copy_bytes(&g.ticker),
        name: copy_bytes(&g.name),
        description: copy_bytes(&g.description),
        precision: g.precision,
        assignments: copy_assignments(&g.assignments),
    }
}

pub fn copy_transition(t: &Transition) -> (r: Transition)
    ensures
        r@ == t@,
{
    Transition {
        transition_type: t.transition_type,
        inputs: copy_inputs(&t.inputs),
        assignments: copy_assignments(&t.assignments),
    }
}

pub fn copy_schema(s: &Schema) -> (r: Schema)
    ensures
        r@ == s@,
{
    let mut tt: Vec<u16> = Vec::new();
    let mut i: usize = 0;
    while i < s.transition_types.len()
        invariant
            i <= s.transition_types@.len(),
            tt@ == s.transition_types@.subrange(0, i as int),
        decreases s.transition_types@.len() - i,
    {
        tt.push(s.transition_types[i]);
        proof {
            assert(tt@ =~= s.transition_types@.subrange(0, i as int + 1));
        }
        i = i + 1;
    }
    let mut ort: Vec<u16> = Vec::new();
    let mut k: usize = 0;
    while k < s.owned_right_types.len()
        invariant
            k <= s.owned_right_types@.len(),
            ort@ == s.owned_right_types@.subrange(0, k as int),
        decreases s.owned_right_types@.len() - k,
    {
        ort.push(s.owned_right_types[k]);
        proof {
            assert(ort@ =~= s.owned_right_types@.subrange(0, k as int + 1));
        }
        k = k + 1;
    }
    proof {
        assert(s.transition_types@.subrange(0, s.transition_types@.len() as int)
            =~= s.transition_types@);
        assert(s.owned_right_types@.subrange(0, s.owned_right_types@.len() as int)
            =~= s.owned_right_types@);
    }
    Schema { transition_types: tt, owned_right_types: ort }
}

pub fn copy_consignment(c: &Consignment) -> (r: Consignment)
    ensures
        r@ == c@,
{
    let mut sts: Vec<(Anchor, Transition)> = Vec::new();
    let mut i: usize = 0;
    while i < c.state_transitions.len()
        invariant
            i <= c.state_transitions@.len(),
            pairs_view(sts@) == pairs_view(c.state_transitions@).subrange(0, i as int),
        decreases c.state_transitions@.len() - i,
    {
        let a = c.state_transitions[i].0;
        let t = copy_transition(&c.state_transitions[i].1);
        let ghost prev = sts@;
        sts.push((a, t));
        proof {
            assert(pairs_view(sts@) =~= pairs_view(prev).push((a, t@)));
            assert(pairs_view(c.state_transitions@)[i as int] == (
                c.state_transitions@[i as int].0,
                c.state_transitions@[i as int].1@,
            ));
            assert(pairs_view(c.state_transitions@).subrange(0, i as int + 1) =~= pairs_view(
                c.state_transitions@,
            ).subrange(0, i as int).push(pairs_view(c.state_transitions@)[i as int]));
        }
        i = i + 1;
    }
    let mut eps: Vec<(Hash32, Hash32)> = Vec::new();
    let mut k: usize = 0;
    while k < c.endpoints.len()
        invariant
            k <= c.endpoints@.len(),
            eps@ == c.endpoints@.subrange(0, k as int),
        decreases c.endpoints@.len() - k,
    {
        eps.push(c.endpoints[k]);
        proof {
            assert(eps@ =~= c.endpoints@.subrange(0, k as int + 1));
        }
        k = k + 1;
    }
    proof {
        assert(pairs_view(c.state_transitions@).subrange(
            0,
            c.state_transitions@.len() as int,
        ) =~= pairs_view(c.state_transitions@));
        assert(c.endpoints@.subrange(0, c.endpoints@.len() as int) =~= c.endpoints@);
    }
    Consignment { genesis: copy_genesis(&c.genesis), state_transitions: sts, endpoints: eps }
}

} // verus!
