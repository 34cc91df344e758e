//! Consignment validation.
//!
//! Validation is a pure function of the consignment and the installed schema
//! set.  It checks that the bundle is non-empty, that its ancestry is closed
//! and ordered (parents before children, which rules out cycles), that every
//! node conforms to the genesis schema, that ownership is continuous along
//! every edge (matching right type and state commitment), that no owned
//! right is consumed twice, that all state is revealed (range proofs of
//! confidential state belong to the underlying commitment library and are
//! refused here), that amounts balance per transition and right type, that
//! every anchor commits to its node's id, and that endpoints reference
//! transitions of the bundle.

use vstd::prelude::*;
use vstd::bytes::{spec_u32_to_le_bytes, spec_u64_to_le_bytes};
use crate::codec::{write_u32, write_u64};
use crate::ids::{Hash32, id_of, spec_enc_hash32, spec_id_of, write_hash32};
use crate::data::{Anchor, Assignment, Seal, StateData, OutpointReveal, TransitionInput,
    spec_enc_reveal, write_reveal};
use crate::entities::{
    Consignment, ConsignmentV, Genesis, GenesisV, Schema, SchemaV, Transition, TransitionV,
    node_id_of, contract_id_of, schema_id_of, spec_contract_id, spec_node_id, spec_schema_id,
};

verus! {

/// Owned-right type carrying fungible asset ownership.
pub const RIGHT_ASSETS: u16 = 1;

/// Transition type of an asset transfer.
pub const TRANSITION_TRANSFER: u16 = 1;

// ---------------------------------------------------------------------------
// Hash commitments
// ---------------------------------------------------------------------------

/// The confidential form of a state: for revealed state, the content hash of
/// amount and blinding factor.
pub open spec fn spec_state_commitment(s: StateData) -> Hash32 {
    match s {
        StateData::Confidential(h) => h,
        StateData::Revealed { amount, blinding } => spec_id_of(
            spec_u64_to_le_bytes(amount) + spec_u64_to_le_bytes(blinding),
        ),
    }
}

pub fn state_commitment_of(s: &StateData) -> (r: Hash32)
    ensures
        r == spec_state_commitment(*s),
{
    match s {
        StateData::Confidential(h) => *h,
        StateData::Revealed { amount, blinding } => {
            let mut buf: Vec<u8> = Vec::new();
            write_u64(&mut buf, *amount);
            write_u64(&mut buf, *blinding);
            proof {
                assert(buf@ =~= spec_u64_to_le_bytes(*amount) + spec_u64_to_le_bytes(*blinding));
            }
            id_of(&buf)
        },
    }
}

/// The blinded outpoint hash a revealed outpoint commits to.
pub open spec fn spec_outpoint_hash(r: OutpointReveal) -> Hash32 {
    spec_id_of(spec_enc_reveal(r))
}

pub fn outpoint_hash_of(r: &OutpointReveal) -> (h: Hash32)
    ensures
        h == spec_outpoint_hash(*r),
{
    let mut buf: Vec<u8> = Vec::new();
    write_reveal(&mut buf, r);
    proof {
        assert(buf@ =~= spec_enc_reveal(*r));
    }
    id_of(&buf)
}

/// The hash a seal exposes: the blinded hash itself, or the hash the
/// revealed outpoint commits to.
pub open spec fn spec_seal_hash(s: Seal) -> Hash32 {
    match s {
        Seal::Confidential(h) => h,
        Seal::Revealed(r) => spec_outpoint_hash(r),
    }
}

pub fn seal_hash_of(s: &Seal) -> (h: Hash32)
    ensures
        h == spec_seal_hash(*s),
{
    match s {
        Seal::Confidential(h) => *h,
        Seal::Revealed(r) => outpoint_hash_of(r),
    }
}

/// The deterministic commitment an anchor must carry for a given node.
pub open spec fn spec_anchor_commitment(txid: Hash32, output_no: u32, node: Hash32) -> Hash32 {
    spec_id_of(spec_enc_hash32(txid) + spec_u32_to_le_bytes(output_no) + spec_enc_hash32(node))
}

pub fn anchor_commitment_of(txid: &Hash32, output_no: u32, node: &Hash32) -> (r: Hash32)
    ensures
        r == spec_anchor_commitment(*txid, output_no, *node),
{
    let mut buf: Vec<u8> = Vec::new();
    write_hash32(&mut buf, txid);
    write_u32(&mut buf, output_no);
    write_hash32(&mut buf, node);
    proof {
        assert(buf@ =~= spec_enc_hash32(*txid) + spec_u32_to_le_bytes(output_no)
            + spec_enc_hash32(*node));
    }
    id_of(&buf)
}

/// Builds a sound anchor for a node.
pub fn make_anchor(txid: &Hash32, output_no: u32, node: &Hash32) -> (r: Anchor)
    ensures
        r.txid == *txid,
        r.output_no == output_no,
        r.commitment == spec_anchor_commitment(*txid, output_no, *node),
{
    Anchor { txid: *txid, output_no, commitment: anchor_commitment_of(txid, output_no, node) }
}

// ---------------------------------------------------------------------------
// Node ids of a consignment
// ---------------------------------------------------------------------------

/// The node ids of the transitions of a consignment, in bundle order.
pub open spec fn st_ids(c: ConsignmentV) -> Seq<Hash32> {
    c.state_transitions.map_values(|p: (Anchor, TransitionV)| spec_node_id(p.1))
}

pub fn compute_ids(c: &Consignment) -> (r: Vec<Hash32>)
    ensures
        r@ == st_ids(c@),
{
    let mut r: Vec<Hash32> = Vec::new();
    let mut i: usize = 0;
    while i < c.state_transitions.len()
        invariant
            i <= c.state_transitions@.len(),
            r@.len() == i,
            forall|j: int| 0 <= j < i ==> r@[j] == st_ids(c@)[j],
        decreases c.state_transitions@.len() - i,
    {
        let id = node_id_of(&c.state_transitions[i].1);
        r.push(id);
        i = i + 1;
    }
    proof {
        assert(r@ =~= st_ids(c@));
    }
    r
}

// ---------------------------------------------------------------------------
// Schema lookup
// ---------------------------------------------------------------------------

/// Model view of an installed schema list.
pub open spec fn schemas_view(ss: Seq<Schema>) -> Seq<SchemaV> {
    ss.map_values(|s: Schema| s@)
}

/// The first installed schema whose content id matches, scanning from `from`.
pub open spec fn spec_schema_from(id: Hash32, ss: Seq<SchemaV>, from: int) -> Option<SchemaV>
    decreases ss.len() - from,
{
    if from < 0 || from >= ss.len() {
        None
    } else if spec_schema_id(ss[from]) == id {
        Some(ss[from])
    } else {
        spec_schema_from(id, ss, from + 1)
    }
}

/// The installed schema a genesis refers to, if any.
pub open spec fn spec_schema_for(id: Hash32, ss: Seq<SchemaV>) -> Option<SchemaV> {
    spec_schema_from(id, ss, 0)
}

pub fn schema_for<'a>(id: &Hash32, schemata: &'a Vec<Schema>) -> (r: Option<&'a Schema>)
    ensures
        match r {
            Some(s) => spec_schema_for(*id, schemas_view(schemata@)) == Some(s@),
            None => spec_schema_for(*id, schemas_view(schemata@)) is None,
        },
{
    let ghost ss = schemas_view(schemata@);
    let mut i: usize = 0;
    while i < schemata.len()
        invariant
            ss == schemas_view(schemata@),
            i <= schemata@.len(),
            spec_schema_from(*id, ss, 0) == spec_schema_from(*id, ss, i as int),
        decreases schemata@.len() - i,
    {
        let sid = schema_id_of(&schemata[i]);
        if sid.w0 == id.w0 && sid.w1 == id.w1 && sid.w2 == id.w2 && sid.w3 == id.w3 {
            proof {
                assert(*id == Hash32 { w0: id.w0, w1: id.w1, w2: id.w2, w3: id.w3 });
                assert(spec_schema_id(ss[i as int]) == *id);
            }
            return Some(&schemata[i]);
        }
        i = i + 1;
    }
    None
}

// ---------------------------------------------------------------------------
// Individual checks
// ---------------------------------------------------------------------------

pub open spec fn contains_u16(s: Seq<u16>, x: u16) -> bool {
    exists|j: int| 0 <= j < s.len() && s[j] == x
}

pub fn contains_u16_exec(s: &Vec<u16>, x: u16) -> (r: bool)
    ensures
        r == contains_u16(s@, x),
{
    let mut i: usize = 0;
    while i < s.len()
        invariant
            i <= s@.len(),
            forall|j: int| 0 <= j < i ==> s@[j] != x,
        decreases s@.len() - i,
    {
        if s[i] == x {
            return true;
        }
        i = i + 1;
    }
    false
}

/// A consignment must carry at least one transition.
pub open spec fn check_nonempty(c: ConsignmentV) -> bool {
    c.state_transitions.len() > 0
}

/// Whether `id` resolves among the genesis and the transitions before `i`.
pub open spec fn known_ancestor(c: ConsignmentV, i: int, id: Hash32) -> bool {
    ||| id == spec_contract_id(c.genesis)
    ||| exists|j: int| 0 <= j < i && st_ids(c)[j] == id
}

/// Ancestor order: every input of every transition resolves to the genesis
/// or to an earlier transition of the bundle.  This is referential closure
/// and, since every edge points backwards, it also rules out cycles.
pub open spec fn check_order(c: ConsignmentV) -> bool {
    forall|i: int, k: int|
        0 <= i < c.state_transitions.len() && 0 <= k < c.state_transitions[i].1.inputs.len()
            ==> known_ancestor(c, i, (#[trigger] c.state_transitions[i].1.inputs[k]).prev_node)
}

/// One transition conforms to the schema whitelists.
pub open spec fn transition_conforms(t: TransitionV, sch: SchemaV) -> bool {
    &&& contains_u16(sch.transition_types, t.transition_type)
    &&& forall|k: int| 0 <= k < t.inputs.len() ==> contains_u16(
        sch.owned_right_types,
        (#[trigger] t.inputs[k]).right_type,
    )
    &&& forall|k: int| 0 <= k < t.assignments.len() ==> contains_u16(
        sch.owned_right_types,
        (#[trigger] t.assignments[k]).right_type,
    )
}

/// Schema conformance of the whole bundle.
pub open spec fn check_conformance(c: ConsignmentV, sch: SchemaV) -> bool {
    &&& forall|k: int| 0 <= k < c.genesis.assignments.len() ==> contains_u16(
        sch.owned_right_types,
        (#[trigger] c.genesis.assignments[k]).right_type,
    )
    &&& forall|i: int| 0 <= i < c.state_transitions.len() ==> transition_conforms(
        (#[trigger] c.state_transitions[i]).1,
        sch,
    )
}

/// All states of the bundle are revealed.
pub open spec fn check_states_revealed(c: ConsignmentV) -> bool {
    &&& forall|k: int| 0 <= k < c.genesis.assignments.len() ==> (
    #[trigger] c.genesis.assignments[k]).state is Revealed
    &&& forall|i: int, k: int|
        0 <= i < c.state_transitions.len() && 0 <= k
            < c.state_transitions[i].1.assignments.len() ==> (
        #[trigger] c.state_transitions[i].1.assignments[k]).state is Revealed
}

/// Every anchor commits to the id of its transition.
pub open spec fn check_anchors(c: ConsignmentV) -> bool {
    forall|i: int|
        0 <= i < c.state_transitions.len() ==> (#[trigger] c.state_transitions[i]).0.commitment
            == spec_anchor_commitment(
            c.state_transitions[i].0.txid,
            c.state_transitions[i].0.output_no,
            st_ids(c)[i],
        )
}

/// Whether one endpoint references a transition of the bundle.
pub open spec fn endpoint_ok(c: ConsignmentV, e: int) -> bool {
    exists|j: int| 0 <= j < st_ids(c).len() && st_ids(c)[j] == c.endpoints[e].0
}

/// Every endpoint references a transition of the bundle.
pub open spec fn check_endpoints(c: ConsignmentV) -> bool {
    forall|e: int| 0 <= e < c.endpoints.len() ==> #[trigger] endpoint_ok(c, e)
}

fn hash_eq(a: &Hash32, b: &Hash32) -> (r: bool)
    ensures
        r == (*a == *b),
{
    a.w0 == b.w0 && a.w1 == b.w1 && a.w2 == b.w2 && a.w3 == b.w3
}

pub fn check_nonempty_exec(c: &Consignment) -> (r: bool)
    ensures
        r == check_nonempty(c@),
{
    c.state_transitions.len() > 0
}

pub fn check_order_exec(c: &Consignment, gid: &Hash32, ids: &Vec<Hash32>) -> (r: bool)
    requires
        *gid == spec_contract_id(c@.genesis),
        ids@ == st_ids(c@),
    ensures
        r == check_order(c@),
{
    let mut i: usize = 0;
    while i < c.state_transitions.len()
        invariant
            *gid == spec_contract_id(c@.genesis),
            ids@ == st_ids(c@),
            i <= c.state_transitions@.len(),
            forall|i2: int, k2: int|
                0 <= i2 < i && 0 <= k2 < c@.state_transitions[i2].1.inputs.len()
                    ==> known_ancestor(
                    c@,
                    i2,
                    (#[trigger] c@.state_transitions[i2].1.inputs[k2]).prev_node,
                ),
        decreases c.state_transitions@.len() - i,
    {
        let t = &c.state_transitions[i].1;
        let mut k: usize = 0;
        while k < t.inputs.len()
            invariant
                *gid == spec_contract_id(c@.genesis),
                ids@ == st_ids(c@),
                i < c.state_transitions@.len(),
                t@ == c@.state_transitions[i as int].1,
                k <= t.inputs@.len(),
                forall|k2: int| 0 <= k2 < k ==> known_ancestor(
                    c@,
                    i as int,
                    (#[trigger] c@.state_transitions[i as int].1.inputs[k2]).prev_node,
                ),
            decreases t.inputs@.len() - k,
        {
            let prev = &t.inputs[k].prev_node;
            let mut found = hash_eq(prev, gid);
            let mut j: usize = 0;
            while j < i
                invariant
                    ids@ == st_ids(c@),
                    i < c.state_transitions@.len(),
                    j <= i,
                    t@ == c@.state_transitions[i as int].1,
                    k < t.inputs@.len(),
                    *prev == c@.state_transitions[i as int].1.inputs[k as int].prev_node,
                    found ==> known_ancestor(c@, i as int, *prev),
                    !found ==> forall|j2: int| 0 <= j2 < j ==> st_ids(c@)[j2] != *prev,
                    !found ==> *prev != spec_contract_id(c@.genesis),
                decreases i - j,
            {
                if !found && hash_eq(&ids[j], prev) {
                    found = true;
                }
                j = j + 1;
            }
            if !found {
                proof {
                    assert(!known_ancestor(c@, i as int, *prev));
                }
                return false;
            }
            k = k + 1;
        }
        i = i + 1;
    }
    true
}

pub fn check_conformance_exec(c: &Consignment, sch: &Schema) -> (r: bool)
    ensures
        r == check_conformance(c@, sch@),
{
    let mut k: usize = 0;
    while k < c.genesis.assignments.len()
        invariant
            k <= c.genesis.assignments@.len(),
            forall|k2: int| 0 <= k2 < k ==> contains_u16(
                sch@.owned_right_types,
                (#[trigger] c@.genesis.assignments[k2]).right_type,
            ),
        decreases c.genesis.assignments@.len() - k,
    {
        if !contains_u16_exec(&sch.owned_right_types, c.genesis.assignments[k].right_type) {
            return false;
        }
        k = k + 1;
    }
    let mut i: usize = 0;
    while i < c.state_transitions.len()
        invariant
            i <= c.state_transitions@.len(),
            forall|k2: int| 0 <= k2 < c@.genesis.assignments.len() ==> contains_u16(
                sch@.owned_right_types,
                (#[trigger] c@.genesis.assignments[k2]).right_type,
            ),
            forall|i2: int| 0 <= i2 < i ==> transition_conforms(
                (#[trigger] c@.state_transitions[i2]).1,
                sch@,
            ),
        decreases c.state_transitions@.len() - i,
    {
        let t = &c.state_transitions[i].1;
        if !contains_u16_exec(&sch.transition_types, t.transition_type) {
            proof {
                assert(!transition_conforms(c@.state_transitions[i as int].1, sch@));
            }
            return false;
        }
        let mut k2: usize = 0;
        while k2 < t.inputs.len()
            invariant
                i < c.state_transitions@.len(),
                t@ == c@.state_transitions[i as int].1,
                k2 <= t.inputs@.len(),
                forall|k3: int| 0 <= k3 < k2 ==> contains_u16(
                    sch@.owned_right_types,
                    (#[trigger] t@.inputs[k3]).right_type,
                ),
            decreases t.inputs@.len() - k2,
        {
            if !contains_u16_exec(&sch.owned_right_types, t.inputs[k2].right_type) {
                proof {
                    assert(!contains_u16(
                        sch@.owned_right_types,
                        c@.state_transitions[i as int].1.inputs[k2 as int].right_type,
                    ));
                    assert(!transition_conforms(c@.state_transitions[i as int].1, sch@));
                }
                return false;
            }
            k2 = k2 + 1;
        }
        let mut k3: usize = 0;
        while k3 < t.assignments.len()
            invariant
                i < c.state_transitions@.len(),
                t@ == c@.state_transitions[i as int].1,
                k3 <= t.assignments@.len(),
                forall|k4: int| 0 <= k4 < t@.inputs.len() ==> contains_u16(
                    sch@.owned_right_types,
                    (#[trigger] t@.inputs[k4]).right_type,
                ),
                forall|k4: int| 0 <= k4 < k3 ==> contains_u16(
                    sch@.owned_right_types,
                    (#[trigger] t@.assignments[k4]).right_type,
                ),
            decreases t.assignments@.len() - k3,
        {
            if !contains_u16_exec(&sch.owned_right_types, t.assignments[k3].right_type) {
                proof {
                    assert(!contains_u16(
                        sch@.owned_right_types,
                        c@.state_transitions[i as int].1.assignments[k3 as int].right_type,
                    ));
                    assert(!transition_conforms(c@.state_transitions[i as int].1, sch@));
                }
                return false;
            }
            k3 = k3 + 1;
        }
        proof {
            assert(transition_conforms(c@.state_transitions[i as int].1, sch@));
        }
        i = i + 1;
    }
    true
}

pub fn check_states_revealed_exec(c: &Consignment) -> (r: bool)
    ensures
        r == check_states_revealed(c@),
{
    let mut k: usize = 0;
    while k < c.genesis.assignments.len()
        invariant
            k <= c.genesis.assignments@.len(),
            forall|k2: int| 0 <= k2 < k ==> (#[trigger] c@.genesis.assignments[k2]).state
                is Revealed,
        decreases c.genesis.assignments@.len() - k,
    {
        if !matches!(c.genesis.assignments[k].state, StateData::Revealed { .. }) {
            return false;
        }
        k = k + 1;
    }
    let mut i: usize = 0;
    while i < c.state_transitions.len()
        invariant
            i <= c.state_transitions@.len(),
            forall|k2: int| 0 <= k2 < c@.genesis.assignments.len() ==> (
            #[trigger] c@.genesis.assignments[k2]).state is Revealed,
            forall|i2: int, k2: int|
                0 <= i2 < i && 0 <= k2 < c@.state_transitions[i2].1.assignments.len() ==> (
                #[trigger] c@.state_transitions[i2].1.assignments[k2]).state is Revealed,
        decreases c.state_transitions@.len() - i,
    {
        let t = &c.state_transitions[i].1;
        let mut k2: usize = 0;
        while k2 < t.assignments.len()
            invariant
                i < c.state_transitions@.len(),
                t@ == c@.state_transitions[i as int].1,
                k2 <= t.assignments@.len(),
                forall|k3: int| 0 <= k3 < k2 ==> (
                #[trigger] c@.state_transitions[i as int].1.assignments[k3]).state is Revealed,
            decreases t.assignments@.len() - k2,
        {
            if !matches!(t.assignments[k2].state, StateData::Revealed { .. }) {
                return false;
            }
            k2 = k2 + 1;
        }
        i = i + 1;
    }
    true
}

pub fn check_anchors_exec(c: &Consignment, ids: &Vec<Hash32>) -> (r: bool)
    requires
        ids@ == st_ids(c@),
    ensures
        r == check_anchors(c@),
{
    let mut i: usize = 0;
    while i < c.state_transitions.len()
        invariant
            ids@ == st_ids(c@),
            i <= c.state_transitions@.len(),
            forall|i2: int|
                0 <= i2 < i ==> (#[trigger] c@.state_transitions[i2]).0.commitment
                    == spec_anchor_commitment(
                    c@.state_transitions[i2].0.txid,
                    c@.state_transitions[i2].0.output_no,
                    st_ids(c@)[i2],
                ),
        decreases c.state_transitions@.len() - i,
    {
        let a = &c.state_transitions[i].0;
        let expect = anchor_commitment_of(&a.txid, a.output_no, &ids[i]);
        if !hash_eq(&a.commitment, &expect) {
            return false;
        }
        i = i + 1;
    }
    true
}

pub fn check_endpoints_exec(c: &Consignment, ids: &Vec<Hash32>) -> (r: bool)
    requires
        ids@ == st_ids(c@),
    ensures
        r == check_endpoints(c@),
{
    let mut e: usize = 0;
    while e < c.endpoints.len()
        invariant
            ids@ == st_ids(c@),
            e <= c.endpoints@.len(),
            forall|e2: int| 0 <= e2 < e ==> #[trigger] endpoint_ok(c@, e2),
        decreases c.endpoints@.len() - e,
    {
        let target = &c.endpoints[e].0;
        let mut found = false;
        let mut j: usize = 0;
        while j < ids.len()
            invariant
                ids@ == st_ids(c@),
                e < c.endpoints@.len(),
                j <= ids@.len(),
                *target == c@.endpoints[e as int].0,
                found ==> endpoint_ok(c@, e as int),
                !found ==> forall|j2: int| 0 <= j2 < j ==> st_ids(c@)[j2] != c@.endpoints[
                    e as int
                ].0,
            decreases ids@.len() - j,
        {
            if hash_eq(&ids[j], target) {
                proof {
                    assert(st_ids(c@)[j as int] == c@.endpoints[e as int].0);
                    assert(endpoint_ok(c@, e as int));
                }
                found = true;
            }
            j = j + 1;
        }
        if !found {
            proof {
                assert(!endpoint_ok(c@, e as int));
            }
            return false;
        }
        e = e + 1;
    }
    true
}

// ---------------------------------------------------------------------------
// Ownership continuity
// ---------------------------------------------------------------------------

pub open spec fn input_at(c: ConsignmentV, i: int, k: int) -> TransitionInput {
    c.state_transitions[i].1.inputs[k]
}

/// The consumed reference points at an assignment of the producer with the
/// same right type and state commitment.
pub open spec fn assignment_matches(a: Seq<Assignment>, inp: TransitionInput) -> bool {
    &&& (inp.index as int) < a.len()
    &&& a[inp.index as int].right_type == inp.right_type
    &&& spec_state_commitment(a[inp.index as int].state) == inp.state_commitment
}

pub fn assignment_matches_exec(a: &Vec<Assignment>, inp: &TransitionInput) -> (r: bool)
    ensures
        r == assignment_matches(a@, *inp),
{
    let idx = inp.index as usize;
    if idx >= a.len() {
        return false;
    }
    if a[idx].right_type != inp.right_type {
        return false;
    }
    let com = state_commitment_of(&a[idx].state);
    hash_eq(&com, &inp.state_commitment)
}

/// Continuity of one consumed right: resolved against the genesis when the
/// reference names the contract id, else against every transition of the
/// bundle that carries the referenced id.
pub open spec fn continuity_at(c: ConsignmentV, i: int, k: int) -> bool {
    if input_at(c, i, k).prev_node == spec_contract_id(c.genesis) {
        assignment_matches(c.genesis.assignments, input_at(c, i, k))
    } else {
        forall|j: int|
            0 <= j < i && st_ids(c)[j] == input_at(c, i, k).prev_node ==> assignment_matches(
                (#[trigger] c.state_transitions[j]).1.assignments,
                input_at(c, i, k),
            )
    }
}

pub open spec fn check_continuity(c: ConsignmentV) -> bool {
    forall|i: int, k: int|
        0 <= i < c.state_transitions.len() && 0 <= k < c.state_transitions[i].1.inputs.len()
            ==> #[trigger] continuity_at(c, i, k)
}

fn continuity_at_exec(c: &Consignment, gid: &Hash32, ids: &Vec<Hash32>, i: usize, k: usize) -> (r:
    bool)
    requires
        *gid == spec_contract_id(c@.genesis),
        ids@ == st_ids(c@),
        i < c.state_transitions@.len(),
        k < c.state_transitions@[i as int].1.inputs@.len(),
    ensures
        r == continuity_at(c@, i as int, k as int),
{
    let inp = &c.state_transitions[i].1.inputs[k];
    proof {
        assert(*inp == input_at(c@, i as int, k as int));
    }
    if hash_eq(&inp.prev_node, gid) {
        assignment_matches_exec(&c.genesis.assignments, inp)
    } else {
        let mut j: usize = 0;
        while j < i
            invariant
                ids@ == st_ids(c@),
                i < c.state_transitions@.len(),
                k < c.state_transitions@[i as int].1.inputs@.len(),
                *inp == input_at(c@, i as int, k as int),
                inp.prev_node != spec_contract_id(c@.genesis),
                j <= i,
                forall|j2: int|
                    0 <= j2 < j && st_ids(c@)[j2] == inp.prev_node ==> assignment_matches(
                        (#[trigger] c@.state_transitions[j2]).1.assignments,
                        input_at(c@, i as int, k as int),
                    ),
            decreases i - j,
        {
            if hash_eq(&ids[j], &inp.prev_node) {
                if !assignment_matches_exec(&c.state_transitions[j].1.assignments, inp) {
                    proof {
                        assert(!continuity_at(c@, i as int, k as int));
                    }
                    return false;
                }
            }
            j = j + 1;
        }
        true
    }
}

pub fn check_continuity_exec(c: &Consignment, gid: &Hash32, ids: &Vec<Hash32>) -> (r: bool)
    requires
        *gid == spec_contract_id(c@.genesis),
        ids@ == st_ids(c@),
    ensures
        r == check_continuity(c@),
{
    let mut i: usize = 0;
    while i < c.state_transitions.len()
        invariant
            *gid == spec_contract_id(c@.genesis),
            ids@ == st_ids(c@),
            i <= c.state_transitions@.len(),
            forall|i2: int, k2: int|
                0 <= i2 < i && 0 <= k2 < c@.state_transitions[i2].1.inputs.len()
                    ==> #[trigger] continuity_at(c@, i2, k2),
        decreases c.state_transitions@.len() - i,
    {
        let n = c.state_transitions[i].1.inputs.len();
        let mut k: usize = 0;
        while k < n
            invariant
                *gid == spec_contract_id(c@.genesis),
                ids@ == st_ids(c@),
                i < c.state_transitions@.len(),
                n == c@.state_transitions[i as int].1.inputs.len(),
                k <= n,
                forall|k2: int| 0 <= k2 < k ==> #[trigger] continuity_at(c@, i as int, k2),
            decreases n - k,
        {
            if !continuity_at_exec(c, gid, ids, i, k) {
                return false;
            }
            k = k + 1;
        }
        i = i + 1;
    }
    true
}

// ---------------------------------------------------------------------------
// Double spend within the bundle
// ---------------------------------------------------------------------------

/// The owned-right references one transition consumes.
pub open spec fn refs_of(t: TransitionV) -> Seq<(Hash32, u16)> {
    t.inputs.map_values(|inp: TransitionInput| (inp.prev_node, inp.index))
}

/// All references consumed by the first `i` transitions, flattened.
pub open spec fn consumed_refs_upto(c: ConsignmentV, i: int) -> Seq<(Hash32, u16)>
    decreases i,
{
    if i <= 0 {
        Seq::empty()
    } else {
        consumed_refs_upto(c, i - 1) + refs_of(c.state_transitions[i - 1].1)
    }
}

pub open spec fn consumed_refs(c: ConsignmentV) -> Seq<(Hash32, u16)> {
    consumed_refs_upto(c, c.state_transitions.len() as int)
}

pub open spec fn distinct_refs(s: Seq<(Hash32, u16)>) -> bool {
    forall|a: int, b: int| 0 <= a < b < s.len() ==> s[a] != s[b]
}

/// No owned right is consumed twice anywhere in the bundle.
pub open spec fn check_no_double_spend(c: ConsignmentV) -> bool {
    distinct_refs(consumed_refs(c))
}

fn collect_refs(c: &Consignment) -> (r: Vec<(Hash32, u16)>)
    ensures
        r@ == consumed_refs(c@),
{
    let mut acc: Vec<(Hash32, u16)> = Vec::new();
    let mut i: usize = 0;
    while i < c.state_transitions.len()
        invariant
            i <= c.state_transitions@.len(),
            acc@ == consumed_refs_upto(c@, i as int),
        decreases c.state_transitions@.len() - i,
    {
        let t = &c.state_transitions[i].1;
        let ghost base = acc@;
        let mut k: usize = 0;
        while k < t.inputs.len()
            invariant
                i < c.state_transitions@.len(),
                t@ == c@.state_transitions[i as int].1,
                k <= t.inputs@.len(),
                acc@ == base + refs_of(c@.state_transitions[i as int].1).subrange(0, k as int),
            decreases t.inputs@.len() - k,
        {
            let inp = &t.inputs[k];
            acc.push((inp.prev_node, inp.index));
            proof {
                assert(acc@ =~= base + refs_of(c@.state_transitions[i as int].1).subrange(
                    0,
                    k as int + 1,
                ));
            }
            k = k + 1;
        }
        proof {
            assert(refs_of(c@.state_transitions[i as int].1).subrange(
                0,
                t.inputs@.len() as int,
            ) =~= refs_of(c@.state_transitions[i as int].1));
            assert(consumed_refs_upto(c@, i as int + 1) == consumed_refs_upto(c@, i as int)
                + refs_of(c@.state_transitions[i as int].1));
        }
        i = i + 1;
    }
    acc
}

pub fn check_no_double_spend_exec(c: &Consignment) -> (r: bool)
    ensures
        r == check_no_double_spend(c@),
{
    let refs = collect_refs(c);
    let mut a: usize = 0;
    while a < refs.len()
        invariant
            refs@ == consumed_refs(c@),
            a <= refs@.len(),
            forall|a2: int, b2: int| 0 <= a2 < a && a2 < b2 < refs@.len() ==> refs@[a2]
                != refs@[b2],
        decreases refs@.len() - a,
    {
        let mut b: usize = a + 1;
        while b < refs.len()
            invariant
                refs@ == consumed_refs(c@),
                a < b,
                a < refs@.len(),
                b <= refs@.len(),
                forall|b2: int| a < b2 < b ==> refs@[a as int] != refs@[b2],
            decreases refs@.len() - b,
        {
            let same = hash_eq(&refs[a].0, &refs[b].0) && refs[a].1 == refs[b].1;
            if same {
                proof {
                    assert(refs@[a as int] == refs@[b as int]);
                    assert(!distinct_refs(consumed_refs(c@)));
                }
                return false;
            }
            b = b + 1;
        }
        a = a + 1;
    }
    true
}

// ---------------------------------------------------------------------------
// Balance per transition and right type
// ---------------------------------------------------------------------------

/// Revealed amount of a state; confidential state contributes nothing and is
/// refused by the revealed-state check.
pub open spec fn state_amount(s: StateData) -> int {
    match s {
        StateData::Confidential(_) => 0,
        StateData::Revealed { amount, blinding } => amount as int,
    }
}

/// First transition before `bound` with the given node id, scanning up.
pub open spec fn fm_from(c: ConsignmentV, from: int, bound: int, id: Hash32) -> Option<int>
    decreases bound - from,
{
    if from < 0 || from >= bound {
        None
    } else if st_ids(c)[from] == id {
        Some(from)
    } else {
        fm_from(c, from + 1, bound, id)
    }
}

/// Assignments of the producer a consumed reference resolves to.
pub open spec fn producer_assignments(c: ConsignmentV, i: int, id: Hash32) -> Option<
    Seq<Assignment>,
> {
    if id == spec_contract_id(c.genesis) {
        Some(c.genesis.assignments)
    } else {
        match fm_from(c, 0, i, id) {
            None => None,
            Some(j) => Some(c.state_transitions[j].1.assignments),
        }
    }
}

/// Amount carried by one consumed right; zero when unresolved.
pub open spec fn consumed_amount(c: ConsignmentV, i: int, k: int) -> int {
    match producer_assignments(c, i, input_at(c, i, k).prev_node) {
        None => 0,
        Some(a) => if (input_at(c, i, k).index as int) < a.len() {
            state_amount(a[input_at(c, i, k).index as int].state)
        } else {
            0
        },
    }
}

pub open spec fn sum_consumed(c: ConsignmentV, i: int, rt: u16, k: int) -> int
    decreases k,
{
    if k <= 0 {
        0
    } else {
        sum_consumed(c, i, rt, k - 1) + if input_at(c, i, k - 1).right_type == rt {
            consumed_amount(c, i, k - 1)
        } else {
            0
        }
    }
}

pub open spec fn sum_produced(a: Seq<Assignment>, rt: u16, k: int) -> int
    decreases k,
{
    if k <= 0 {
        0
    } else {
        sum_produced(a, rt, k - 1) + if a[k - 1].right_type == rt {
            state_amount(a[k - 1].state)
        } else {
            0
        }
    }
}

/// Consumed and produced amounts agree for one transition and right type.
pub open spec fn balanced_for(c: ConsignmentV, i: int, rt: u16) -> bool {
    sum_consumed(c, i, rt, c.state_transitions[i].1.inputs.len() as int) == sum_produced(
        c.state_transitions[i].1.assignments,
        rt,
        c.state_transitions[i].1.assignments.len() as int,
    )
}

pub open spec fn balanced_at(c: ConsignmentV, i: int) -> bool {
    forall|rt: u16| #[trigger] balanced_for(c, i, rt)
}

/// The confidential-state homomorphism over revealed amounts: per transition
/// and owned-right type, what is consumed equals what is produced.
pub open spec fn check_balance(c: ConsignmentV) -> bool {
    forall|i: int| 0 <= i < c.state_transitions.len() ==> #[trigger] balanced_at(c, i)
}

fn state_amount_exec(s: &StateData) -> (r: u64)
    ensures
        r as int == state_amount(*s),
{
    match s {
        StateData::Confidential(_) => 0,
        StateData::Revealed { amount, blinding } => *amount,
    }
}

fn find_producer<'a>(c: &'a Consignment, gid: &Hash32, ids: &Vec<Hash32>, i: usize, prev: &Hash32)
    -> (r: Option<&'a Vec<Assignment>>)
    requires
        *gid == spec_contract_id(c@.genesis),
        ids@ == st_ids(c@),
        i <= c.state_transitions@.len(),
    ensures
        match r {
            Some(a) => producer_assignments(c@, i as int, *prev) == Some(a@),
            None => producer_assignments(c@, i as int, *prev) is None,
        },
{
    if hash_eq(prev, gid) {
        return Some(&c.genesis.assignments);
    }
    let mut j: usize = 0;
    while j < i
        invariant
            ids@ == st_ids(c@),
            i <= c.state_transitions@.len(),
            j <= i,
            *prev != spec_contract_id(c@.genesis),
            fm_from(c@, 0, i as int, *prev) == fm_from(c@, j as int, i as int, *prev),
        decreases i - j,
    {
        if hash_eq(&ids[j], prev) {
            return Some(&c.state_transitions[j].1.assignments);
        }
        j = j + 1;
    }
    None
}

fn consumed_amount_exec(c: &Consignment, gid: &Hash32, ids: &Vec<Hash32>, i: usize, k: usize) -> (r:
    u64)
    requires
        *gid == spec_contract_id(c@.genesis),
        ids@ == st_ids(c@),
        i < c.state_transitions@.len(),
        k < c.state_transitions@[i as int].1.inputs@.len(),
    ensures
        r as int == consumed_amount(c@, i as int, k as int),
{
    let inp = &c.state_transitions[i].1.inputs[k];
    proof {
        assert(*inp == input_at(c@, i as int, k as int));
    }
    match find_producer(c, gid, ids, i, &inp.prev_node) {
        None => 0,
        Some(a) => {
            let idx = inp.index as usize;
            if idx < a.len() {
                state_amount_exec(&a[idx].state)
            } else {
                0
            }
        },
    }
}

fn sum_consumed_exec(c: &Consignment, gid: &Hash32, ids: &Vec<Hash32>, i: usize, rt: u16) -> (r:
    u128)
    requires
        *gid == spec_contract_id(c@.genesis),
        ids@ == st_ids(c@),
        i < c.state_transitions@.len(),
    ensures
        r as int == sum_consumed(
            c@,
            i as int,
            rt,
            c@.state_transitions[i as int].1.inputs.len() as int,
        ),
{
    let n = c.state_transitions[i].1.inputs.len();
    let mut acc: u128 = 0;
    let mut k: usize = 0;
    while k < n
        invariant
            *gid == spec_contract_id(c@.genesis),
            ids@ == st_ids(c@),
            i < c.state_transitions@.len(),
            n == c@.state_transitions[i as int].1.inputs.len(),
            k <= n,
            acc as int == sum_consumed(c@, i as int, rt, k as int),
            acc as int <= k as int * 0xffff_ffff_ffff_ffff,
        decreases n - k,
    {
        if c.state_transitions[i].1.inputs[k].right_type == rt {
            let amt = consumed_amount_exec(c, gid, ids, i, k);
            acc = acc + amt as u128;
        }
        k = k + 1;
    }
    acc
}

fn sum_produced_exec(a: &Vec<Assignment>, rt: u16) -> (r: u128)
    ensures
        r as int == sum_produced(a@, rt, a@.len() as int),
{
    let mut acc: u128 = 0;
    let mut k: usize = 0;
    while k < a.len()
        invariant
            k <= a@.len(),
            acc as int == sum_produced(a@, rt, k as int),
            acc as int <= k as int * 0xffff_ffff_ffff_ffff,
        decreases a@.len() - k,
    {
        if a[k].right_type == rt {
            let amt = state_amount_exec(&a[k].state);
            acc = acc + amt as u128;
        }
        k = k + 1;
    }
    acc
}

proof fn lemma_sum_consumed_absent(c: ConsignmentV, i: int, rt: u16, k: int)
    requires
        forall|k2: int| 0 <= k2 < k ==> (#[trigger] input_at(c, i, k2)).right_type != rt,
    ensures
        sum_consumed(c, i, rt, k) == 0,
    decreases k,
{
    if k > 0 {
        lemma_sum_consumed_absent(c, i, rt, k - 1);
    }
}

pub proof fn lemma_sum_produced_absent(a: Seq<Assignment>, rt: u16, k: int)
    requires
        forall|k2: int| 0 <= k2 < k ==> (#[trigger] a[k2]).right_type != rt,
    ensures
        sum_produced(a, rt, k) == 0,
    decreases k,
{
    if k > 0 {
        lemma_sum_produced_absent(a, rt, k - 1);
    }
}

fn balanced_at_exec(c: &Consignment, gid: &Hash32, ids: &Vec<Hash32>, i: usize) -> (r: bool)
    requires
        *gid == spec_contract_id(c@.genesis),
        ids@ == st_ids(c@),
        i < c.state_transitions@.len(),
    ensures
        r == balanced_at(c@, i as int),
{
    let n_in = c.state_transitions[i].1.inputs.len();
    let mut k: usize = 0;
    while k < n_in
        invariant
            *gid == spec_contract_id(c@.genesis),
            ids@ == st_ids(c@),
            i < c.state_transitions@.len(),
            n_in == c@.state_transitions[i as int].1.inputs.len(),
            k <= n_in,
            forall|k2: int| 0 <= k2 < k ==> balanced_for(
                c@,
                i as int,
                (#[trigger] input_at(c@, i as int, k2)).right_type,
            ),
        decreases n_in - k,
    {
        let rt = c.state_transitions[i].1.inputs[k].right_type;
        proof {
            assert(rt == input_at(c@, i as int, k as int).right_type);
        }
        let sc = sum_consumed_exec(c, gid, ids, i, rt);
        let sp = sum_produced_exec(&c.state_transitions[i].1.assignments, rt);
        if sc != sp {
            proof {
                assert(!balanced_for(c@, i as int, rt));
            }
            return false;
        }
        k = k + 1;
    }
    let n_out = c.state_transitions[i].1.assignments.len();
    let mut k2: usize = 0;
    while k2 < n_out
        invariant
            *gid == spec_contract_id(c@.genesis),
            ids@ == st_ids(c@),
            i < c.state_transitions@.len(),
            n_out == c@.state_transitions[i as int].1.assignments.len(),
            k2 <= n_out,
            forall|k3: int| 0 <= k3 < c@.state_transitions[i as int].1.inputs.len()
                ==> balanced_for(
                c@,
                i as int,
                (#[trigger] input_at(c@, i as int, k3)).right_type,
            ),
            forall|k3: int| 0 <= k3 < k2 ==> balanced_for(
                c@,
                i as int,
                (#[trigger] c@.state_transitions[i as int].1.assignments[k3]).right_type,
            ),
        decreases n_out - k2,
    {
        let rt = c.state_transitions[i].1.assignments[k2].right_type;
        let sc = sum_consumed_exec(c, gid, ids, i, rt);
        let sp = sum_produced_exec(&c.state_transitions[i].1.assignments, rt);
        if sc != sp {
            proof {
                assert(!balanced_for(c@, i as int, rt));
            }
            return false;
        }
        k2 = k2 + 1;
    }
    proof {
        let t = c@.state_transitions[i as int].1;
        assert forall|rt: u16| #[trigger] balanced_for(c@, i as int, rt) by {
            if exists|k3: int|
                0 <= k3 < t.inputs.len() && (#[trigger] input_at(c@, i as int, k3)).right_type
                    == rt {
                let k3 = choose|k3: int|
                    0 <= k3 < t.inputs.len() && (#[trigger] input_at(
                        c@,
                        i as int,
                        k3,
                    )).right_type == rt;
                assert(balanced_for(c@, i as int, input_at(c@, i as int, k3).right_type));
            } else if exists|k3: int|
                0 <= k3 < t.assignments.len() && (#[trigger] t.assignments[k3]).right_type
                    == rt {
                let k3 = choose|k3: int|
                    0 <= k3 < t.assignments.len() && (#[trigger] t.assignments[k3]).right_type
                        == rt;
                assert(balanced_for(c@, i as int, t.assignments[k3].right_type));
            } else {
                lemma_sum_consumed_absent(c@, i as int, rt, t.inputs.len() as int);
                lemma_sum_produced_absent(t.assignments, rt, t.assignments.len() as int);
            }
        }
    }
    true
}

pub fn check_balance_exec(c: &Consignment, gid: &Hash32, ids: &Vec<Hash32>) -> (r: bool)
    requires
        *gid == spec_contract_id(c@.genesis),
        ids@ == st_ids(c@),
    ensures
        r == check_balance(c@),
{
    let mut i: usize = 0;
    while i < c.state_transitions.len()
        invariant
            *gid == spec_contract_id(c@.genesis),
            ids@ == st_ids(c@),
            i <= c.state_transitions@.len(),
            forall|i2: int| 0 <= i2 < i ==> #[trigger] balanced_at(c@, i2),
        decreases c.state_transitions@.len() - i,
    {
        if !balanced_at_exec(c, gid, ids, i) {
            return false;
        }
        i = i + 1;
    }
    true
}

// ---------------------------------------------------------------------------
// The validation verdict
// ---------------------------------------------------------------------------

/// One category of validation failure.
#[derive(Clone, Copy, PartialEq, Eq, Structural, Debug)]
pub enum ValidationFailure {
    EmptyConsignment,
    SchemaUnknown,
    SchemaViolation,
    UnresolvedAncestor,
    ContinuityBroken,
    DoubleSpend,
    StateNotRevealed,
    Unbalanced,
    AnchorMismatch,
    EndpointUnknown,
}

/// The verdict of validating a consignment.
#[derive(Clone, Debug)]
pub struct ValidationStatus {
    pub valid: bool,
    pub failures: Vec<ValidationFailure>,
}

/// The failure list validation yields: one entry per failed check, in a
/// fixed order.  Validation is a pure function of the consignment and the
/// installed schema set, which is what this definition states.
pub open spec fn spec_validation_failures(c: ConsignmentV, ss: Seq<SchemaV>) -> Seq<
    ValidationFailure,
> {
    (if !check_nonempty(c) {
        seq![ValidationFailure::EmptyConsignment]
    } else {
        Seq::empty()
    }) + (match spec_schema_for(c.genesis.schema_id, ss) {
        None => seq![ValidationFailure::SchemaUnknown],
        Some(sch) => if !check_conformance(c, sch) {
            seq![ValidationFailure::SchemaViolation]
        } else {
            Seq::empty()
        },
    }) + (if !check_order(c) {
        seq![ValidationFailure::UnresolvedAncestor]
    } else {
        Seq::empty()
    }) + (if !check_continuity(c) {
        seq![ValidationFailure::ContinuityBroken]
    } else {
        Seq::empty()
    }) + (if !check_no_double_spend(c) {
        seq![ValidationFailure::DoubleSpend]
    } else {
        Seq::empty()
    }) + (if !check_states_revealed(c) {
        seq![ValidationFailure::StateNotRevealed]
    } else {
        Seq::empty()
    }) + (if !check_balance(c) {
        seq![ValidationFailure::Unbalanced]
    } else {
        Seq::empty()
    }) + (if !check_anchors(c) {
        seq![ValidationFailure::AnchorMismatch]
    } else {
        Seq::empty()
    }) + (if !check_endpoints(c) {
        seq![ValidationFailure::EndpointUnknown]
    } else {
        Seq::empty()
    })
}

/// A consignment is valid when no check fails.
pub open spec fn spec_consignment_valid(c: ConsignmentV, ss: Seq<SchemaV>) -> bool {
    spec_validation_failures(c, ss).len() == 0
}

/// Validates a consignment against the installed schema set.
///
/// Deterministic by contract: the verdict is pinned to a specification
/// function of the consignment and schema models alone, so validating the
/// same bundle against the same schemata always yields the same result.
#[verifier::rlimit(60)]
#[verifier::spinoff_prover]
pub fn validate(c: &Consignment, schemata: &Vec<Schema>) -> (r: ValidationStatus)
    ensures
        r.failures@ == spec_validation_failures(c@, schemas_view(schemata@)),
        r.valid == spec_consignment_valid(c@, schemas_view(schemata@)),
{
    let gid = contract_id_of(&c.genesis);
    let ids = compute_ids(c);
    let mut failures: Vec<ValidationFailure> = Vec::new();
    if !check_nonempty_exec(c) {
        failures.push(ValidationFailure::EmptyConsignment);
    }
    match schema_for(&c.genesis.schema_id, schemata) {
        None => {
            failures.push(ValidationFailure::SchemaUnknown);
        },
        Some(sch) => {
            if !check_conformance_exec(c, sch) {
                failures.push(ValidationFailure::SchemaViolation);
            }
        },
    }
    if !check_order_exec(c, &gid, &ids) {
        failures.push(ValidationFailure::UnresolvedAncestor);
    }
    if !check_continuity_exec(c, &gid, &ids) {
        failures.push(ValidationFailure::ContinuityBroken);
    }
    if !check_no_double_spend_exec(c) {
        failures.push(ValidationFailure::DoubleSpend);
    }
    if !check_states_revealed_exec(c) {
        failures.push(ValidationFailure::StateNotRevealed);
    }
    if !check_balance_exec(c, &gid, &ids) {
        failures.push(ValidationFailure::Unbalanced);
    }
    if !check_anchors_exec(c, &ids) {
        failures.push(ValidationFailure::AnchorMismatch);
    }
    if !check_endpoints_exec(c, &ids) {
        failures.push(ValidationFailure::EndpointUnknown);
    }
    let valid = failures.len() == 0;
    proof {
        assert(failures@ =~= spec_validation_failures(c@, schemas_view(schemata@)));
    }
    ValidationStatus { valid, failures }
}

/// Referential closure of a valid consignment: every node id an input
/// references is the contract id or the id of an earlier transition of the
/// same bundle, and endpoints name transitions of the bundle.
pub proof fn lemma_valid_consignment_closure(c: ConsignmentV, ss: Seq<SchemaV>)
    requires
        spec_consignment_valid(c, ss),
    ensures
        check_order(c),
        check_endpoints(c),
        forall|i: int, k: int|
            0 <= i < c.state_transitions.len() && 0 <= k < c.state_transitions[i].1.inputs.len()
                ==> known_ancestor(c, i, (#[trigger] c.state_transitions[i].1.inputs[k]).prev_node),
{
    if !check_order(c) {
        assert(spec_validation_failures(c, ss).len() > 0);
    }
    if !check_endpoints(c) {
        assert(spec_validation_failures(c, ss).len() > 0);
    }
}

/// A valid consignment carries at least one transition: the empty bundle is
/// rejected as malformed.
pub proof fn lemma_valid_consignment_nonempty(c: ConsignmentV, ss: Seq<SchemaV>)
    requires
        spec_consignment_valid(c, ss),
    ensures
        c.state_transitions.len() > 0,
{
    if !check_nonempty(c) {
        assert(spec_validation_failures(c, ss).len() > 0);
    }
}

} // verus!
