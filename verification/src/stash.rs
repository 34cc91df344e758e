//! The stash: a content-addressed store of schemata, geneses, transitions
//! and anchors, with the reverse index from blinded outpoint hashes to the
//! owned rights assigned to them.
//!
//! Every table is keyed by the content hash of its entries, so adding an
//! entry that is already present is a no-op and adding different content
//! under an existing key is refused.

use vstd::prelude::*;
use crate::ids::Hash32;
use crate::data::{Anchor, OutPoint, OutpointReveal, TransitionInput};
use crate::entities::{
    Consignment, ConsignmentV, Genesis, GenesisV, Schema, SchemaV, Transition, TransitionV,
    contract_id_of, copy_genesis, copy_schema, copy_transition, genesis_eq, node_id_of,
    schema_eq, schema_id_of, spec_contract_id, spec_node_id, spec_schema_id, transition_eq,
};
use crate::validation::{schemas_view, spec_consignment_valid, spec_schema_for, spec_seal_hash};
use crate::rpc::{FailureReason, Reply};

verus! {

/// The persistent store of the stash service.
#[derive(Debug)]
pub struct Stash {
    pub schemata: Vec<Schema>,
    pub geneses: Vec<Genesis>,
    pub transitions: Vec<(Transition, Anchor)>,
    /// Reverse index: blinded outpoint hash, owning node id, assignment index.
    pub reverse_index: Vec<(Hash32, Hash32, u16)>,
}

/// Hash-key invariant: each table holds at most one entry per content id.
pub open spec fn stash_wf(s: Stash) -> bool {
    &&& forall|i: int, j: int|
        #![trigger s.schemata@[i], s.schemata@[j]]
        0 <= i < j < s.schemata@.len() ==> spec_schema_id(s.schemata@[i]@) != spec_schema_id(
            s.schemata@[j]@,
        )
    &&& forall|i: int, j: int|
        #![trigger s.geneses@[i], s.geneses@[j]]
        0 <= i < j < s.geneses@.len() ==> spec_contract_id(s.geneses@[i]@) != spec_contract_id(
            s.geneses@[j]@,
        )
    &&& forall|i: int, j: int|
        #![trigger s.transitions@[i], s.transitions@[j]]
        0 <= i < j < s.transitions@.len() ==> spec_node_id(s.transitions@[i].0@) != spec_node_id(
            s.transitions@[j].0@,
        )
}

pub open spec fn stash_has_genesis(s: Stash, g: GenesisV) -> bool {
    exists|i: int| 0 <= i < s.geneses@.len() && (#[trigger] s.geneses@[i])@ == g
}

pub open spec fn stash_has_transition(s: Stash, t: TransitionV) -> bool {
    exists|i: int| 0 <= i < s.transitions@.len() && (#[trigger] s.transitions@[i]).0@ == t
}

pub open spec fn stash_has_schema(s: Stash, x: SchemaV) -> bool {
    exists|i: int| 0 <= i < s.schemata@.len() && (#[trigger] s.schemata@[i])@ == x
}

/// The whole bundle of a consignment is stored.
pub open spec fn stash_contains_bundle(s: Stash, c: ConsignmentV) -> bool {
    &&& stash_has_genesis(s, c.genesis)
    &&& forall|k: int| 0 <= k < c.state_transitions.len() ==> stash_has_transition(
        s,
        (#[trigger] c.state_transitions[k]).1,
    )
}

/// No stored transition answers the i-th requested node id.
pub open spec fn id_missing(s: Stash, ids: Seq<Hash32>, i: int) -> bool {
    forall|j: int| 0 <= j < s.transitions@.len() ==> spec_node_id(
        (#[trigger] s.transitions@[j]).0@,
    ) != ids[i]
}

fn hash_eq(a: &Hash32, b: &Hash32) -> (r: bool)
    ensures
        r == (*a == *b),
{
    a.w0 == b.w0 && a.w1 == b.w1 && a.w2 == b.w2 && a.w3 == b.w3
}

impl Stash {
    pub fn new() -> (r: Stash)
        ensures
            stash_wf(r),
            r.schemata@.len() == 0,
            r.geneses@.len() == 0,
            r.transitions@.len() == 0,
            r.reverse_index@.len() == 0,
    {
        Stash {
            schemata: Vec::new(),
            geneses: Vec::new(),
            transitions: Vec::new(),
            reverse_index: Vec::new(),
        }
    }

    pub fn find_schema_index(&self, id: &Hash32) -> (r: Option<usize>)
        ensures
            match r {
                Some(i) => i < self.schemata@.len() && spec_schema_id(self.schemata@[i as int]@)
                    == *id,
                None => forall|i: int| 0 <= i < self.schemata@.len() ==> spec_schema_id(
                    (#[trigger] self.schemata@[i])@,
                ) != *id,
            },
    {
        let mut i: usize = 0;
        while i < self.schemata.len()
            invariant
                i <= self.schemata@.len(),
                forall|j: int| 0 <= j < i ==> spec_schema_id((#[trigger] self.schemata@[j])@)
                    != *id,
            decreases self.schemata@.len() - i,
        {
            let sid = schema_id_of(&self.schemata[i]);
            if hash_eq(&sid, id) {
                return Some(i);
            }
            i = i + 1;
        }
        None
    }

    pub fn find_genesis_index(&self, id: &Hash32) -> (r: Option<usize>)
        ensures
            match r {
                Some(i) => i < self.geneses@.len() && spec_contract_id(self.geneses@[i as int]@)
                    == *id,
                None => forall|i: int| 0 <= i < self.geneses@.len() ==> spec_contract_id(
                    (#[trigger] self.geneses@[i])@,
                ) != *id,
            },
    {
        let mut i: usize = 0;
        while i < self.geneses.len()
            invariant
                i <= self.geneses@.len(),
                forall|j: int| 0 <= j < i ==> spec_contract_id((#[trigger] self.geneses@[j])@)
                    != *id,
            decreases self.geneses@.len() - i,
        {
            let gid = contract_id_of(&self.geneses[i]);
            if hash_eq(&gid, id) {
                return Some(i);
            }
            i = i + 1;
        }
        None
    }

    pub fn find_node_index(&self, id: &Hash32) -> (r: Option<usize>)
        ensures
            match r {
                Some(i) => i < self.transitions@.len() && spec_node_id(
                    self.transitions@[i as int].0@,
                ) == *id,
                None => forall|i: int| 0 <= i < self.transitions@.len() ==> spec_node_id(
                    (#[trigger] self.transitions@[i]).0@,
                ) != *id,
            },
    {
        let mut i: usize = 0;
        while i < self.transitions.len()
            invariant
                i <= self.transitions@.len(),
                forall|j: int| 0 <= j < i ==> spec_node_id((#[trigger] self.transitions@[j]).0@)
                    != *id,
            decreases self.transitions@.len() - i,
        {
            let nid = node_id_of(&self.transitions[i].0);
            if hash_eq(&nid, id) {
                return Some(i);
            }
            i = i + 1;
        }
        None
    }

    /// Installs a schema.  Idempotent: the same schema again answers
    /// `Success` and changes nothing; different content under the same id is
    /// refused.
    pub fn add_schema(&mut self, sch: &Schema) -> (r: Reply)
        requires
            stash_wf(*old(self)),
        ensures
            stash_wf(*final(self)),
            (r is Success) <==> !(exists|i: int|
                0 <= i < old(self).schemata@.len() && spec_schema_id(
                    (#[trigger] old(self).schemata@[i])@,
                ) == spec_schema_id(sch@) && old(self).schemata@[i]@ != sch@),
            !(r is Success) ==> *final(self) == *old(self) && r == Reply::Failure(
                FailureReason::SchemaMismatch,
            ),
            (r is Success) ==> stash_has_schema(*final(self), sch@),
            stash_has_schema(*old(self), sch@) ==> *final(self) == *old(self),
            (r is Success && !stash_has_schema(*old(self), sch@)) ==> {
                &&& final(self).schemata@.len() == old(self).schemata@.len() + 1
                &&& final(self).schemata@.last()@ == sch@
                &&& forall|i: int| 0 <= i < old(self).schemata@.len() ==> (
                #[trigger] final(self).schemata@[i]) == old(self).schemata@[i]
            },
            final(self).geneses@ == old(self).geneses@,
            final(self).transitions@ == old(self).transitions@,
            final(self).reverse_index@ == old(self).reverse_index@,
    {
        let id = schema_id_of(sch);
        match self.find_schema_index(&id) {
            Some(i) => {
                if schema_eq(&self.schemata[i], sch) {
                    proof {
                        assert(stash_has_schema(*self, sch@));
                    }
                    Reply::Success
                } else {
                    proof {
                        if stash_has_schema(*old(self), sch@) {
                            let w = choose|w: int|
                                0 <= w < self.schemata@.len() && (
                                #[trigger] self.schemata@[w])@ == sch@;
                            assert(spec_schema_id(self.schemata@[w]@) == spec_schema_id(sch@));
                            assert(w == i);
                        }
                    }
                    Reply::Failure(FailureReason::SchemaMismatch)
                }
            },
            None => {
                proof {
                    if stash_has_schema(*old(self), sch@) {
                        let w = choose|w: int|
                            0 <= w < self.schemata@.len() && (#[trigger] self.schemata@[w])@
                                == sch@;
                        assert(spec_schema_id(self.schemata@[w]@) == spec_schema_id(sch@));
                    }
                }
                self.schemata.push(copy_schema(sch));
                proof {
                    assert(self.schemata@.last()@ == sch@);
                    assert(stash_has_schema(*self, sch@));
                }
                Reply::Success
            },
        }
    }

    /// Adds a genesis.  Idempotent: the same genesis again answers `Success`
    /// and changes nothing; different content under the same contract id is
    /// refused.
    pub fn add_genesis(&mut self, g: &Genesis) -> (r: Reply)
        requires
            stash_wf(*old(self)),
        ensures
            stash_wf(*final(self)),
            (r is Success) <==> !(exists|i: int|
                0 <= i < old(self).geneses@.len() && spec_contract_id(
                    (#[trigger] old(self).geneses@[i])@,
                ) == spec_contract_id(g@) && old(self).geneses@[i]@ != g@),
            !(r is Success) ==> *final(self) == *old(self) && r == Reply::Failure(
                FailureReason::GenesisMismatch,
            ),
            (r is Success) ==> stash_has_genesis(*final(self), g@),
            stash_has_genesis(*old(self), g@) ==> *final(self) == *old(self),
            final(self).schemata@ == old(self).schemata@,
            final(self).transitions@ == old(self).transitions@,
            final(self).reverse_index@ == old(self).reverse_index@,
    {
        let id = contract_id_of(g);
        match self.find_genesis_index(&id) {
            Some(i) => {
                if genesis_eq(&self.geneses[i], g) {
                    proof {
                        assert(stash_has_genesis(*self, g@));
                    }
                    Reply::Success
                } else {
                    proof {
                        if stash_has_genesis(*old(self), g@) {
                            let w = choose|w: int|
                                0 <= w < self.geneses@.len() && (#[trigger] self.geneses@[w])@
                                    == g@;
                            assert(spec_contract_id(self.geneses@[w]@) == spec_contract_id(g@));
                            assert(w == i);
                        }
                    }
                    Reply::Failure(FailureReason::GenesisMismatch)
                }
            },
            None => {
                proof {
                    if stash_has_genesis(*old(self), g@) {
                        let w = choose|w: int|
                            0 <= w < self.geneses@.len() && (#[trigger] self.geneses@[w])@
                                == g@;
                        assert(spec_contract_id(self.geneses@[w]@) == spec_contract_id(g@));
                    }
                }
                self.geneses.push(copy_genesis(g));
                proof {
                    assert(self.geneses@.last()@ == g@);
                    assert(stash_has_genesis(*self, g@));
                }
                Reply::Success
            },
        }
    }

    /// The stored genesis of a contract.
    pub fn read_genesis(&self, id: &Hash32) -> (r: Reply)
        ensures
            match r {
                Reply::GenesisEntry(g) => spec_contract_id(g@) == *id && stash_has_genesis(
                    *self,
                    g@,
                ),
                Reply::Failure(f) => f == FailureReason::UnknownContract && (forall|i: int|
                    0 <= i < self.geneses@.len() ==> spec_contract_id(
                        (#[trigger] self.geneses@[i])@,
                    ) != *id),
                _ => false,
            },
    {
        match self.find_genesis_index(id) {
            Some(i) => {
                let g = copy_genesis(&self.geneses[i]);
                proof {
                    assert(stash_has_genesis(*self, g@));
                }
                Reply::GenesisEntry(g)
            },
            None => Reply::Failure(FailureReason::UnknownContract),
        }
    }

    /// The stored schema under an id.
    pub fn read_schema(&self, id: &Hash32) -> (r: Reply)
        ensures
            match r {
                Reply::SchemaEntry(s) => spec_schema_id(s@) == *id && stash_has_schema(
                    *self,
                    s@,
                ),
                Reply::Failure(f) => f == FailureReason::UnknownSchema && (forall|i: int|
                    0 <= i < self.schemata@.len() ==> spec_schema_id(
                        (#[trigger] self.schemata@[i])@,
                    ) != *id),
                _ => false,
            },
    {
        match self.find_schema_index(id) {
            Some(i) => {
                let s = copy_schema(&self.schemata[i]);
                proof {
                    assert(stash_has_schema(*self, s@));
                }
                Reply::SchemaEntry(s)
            },
            None => Reply::Failure(FailureReason::UnknownSchema),
        }
    }

    /// The ids of all installed schemata, in store order.
    pub fn list_schemata(&self) -> (r: Vec<Hash32>)
        ensures
            r@.len() == self.schemata@.len(),
            forall|i: int| 0 <= i < r@.len() ==> r@[i] == spec_schema_id(
                (#[trigger] self.schemata@[i])@,
            ),
    {
        let mut r: Vec<Hash32> = Vec::new();
        let mut i: usize = 0;
        while i < self.schemata.len()
            invariant
                i <= self.schemata@.len(),
                r@.len() == i,
                forall|j: int| 0 <= j < i ==> r@[j] == spec_schema_id(
                    (#[trigger] self.schemata@[j])@,
                ),
            decreases self.schemata@.len() - i,
        {
            let id = schema_id_of(&self.schemata[i]);
            r.push(id);
            i = i + 1;
        }
        r
    }

    /// The contract ids of all stored geneses, in store order.
    pub fn list_geneses(&self) -> (r: Vec<Hash32>)
        ensures
            r@.len() == self.geneses@.len(),
            forall|i: int| 0 <= i < r@.len() ==> r@[i] == spec_contract_id(
                (#[trigger] self.geneses@[i])@,
            ),
    {
        let mut r: Vec<Hash32> = Vec::new();
        let mut i: usize = 0;
        while i < self.geneses.len()
            invariant
                i <= self.geneses@.len(),
                r@.len() == i,
                forall|j: int| 0 <= j < i ==> r@[j] == spec_contract_id(
                    (#[trigger] self.geneses@[j])@,
                ),
            decreases self.geneses@.len() - i,
        {
            let id = contract_id_of(&self.geneses[i]);
            r.push(id);
            i = i + 1;
        }
        r
    }

    /// Reads transitions with their anchors, in request order; any missing
    /// id fails the whole request.
    pub fn read_transitions(&self, ids: &Vec<Hash32>) -> (r: Reply)
        ensures
            match r {
                Reply::Transitions(v) => {
                    &&& v@.len() == ids@.len()
                    &&& forall|i: int| 0 <= i < v@.len() ==> spec_node_id(
                        (#[trigger] v@[i]).0@,
                    ) == ids@[i] && stash_has_transition(*self, v@[i].0@)
                },
                Reply::Failure(f) => f == FailureReason::UnknownNode,
                _ => false,
            },
            (r is Failure) <==> (exists|i: int|
                0 <= i < ids@.len() && #[trigger] id_missing(*self, ids@, i)),
    {
        let mut v: Vec<(Transition, Anchor)> = Vec::new();
        let mut i: usize = 0;
        while i < ids.len()
            invariant
                i <= ids@.len(),
                v@.len() == i,
                forall|j: int| 0 <= j < i ==> spec_node_id((#[trigger] v@[j]).0@) == ids@[j]
                    && stash_has_transition(*self, v@[j].0@),
            decreases ids@.len() - i,
        {
            match self.find_node_index(&ids[i]) {
                None => {
                    proof {
                        assert(id_missing(*self, ids@, i as int));
                    }
                    return Reply::Failure(FailureReason::UnknownNode);
                },
                Some(j) => {
                    let t = copy_transition(&self.transitions[j].0);
                    let a = self.transitions[j].1;
                    proof {
                        assert(stash_has_transition(*self, t@));
                    }
                    v.push((t, a));
                },
            }
            i = i + 1;
        }
        proof {
            assert forall|i2: int| 0 <= i2 < ids@.len() implies !(#[trigger] id_missing(
                *self,
                ids@,
                i2,
            )) by {
                assert(stash_has_transition(*self, v@[i2].0@));
                let w = choose|w: int|
                    0 <= w < self.transitions@.len() && (#[trigger] self.transitions@[w]).0@
                        == v@[i2].0@;
                assert(spec_node_id(self.transitions@[w].0@) == ids@[i2]);
            }
        }
        Reply::Transitions(v)
    }
}

/// No stored transition carries the given node id.
pub open spec fn node_id_free(s: Stash, id: Hash32) -> bool {
    forall|j: int| 0 <= j < s.transitions@.len() ==> spec_node_id(
        (#[trigger] s.transitions@[j]).0@,
    ) != id
}

/// The reverse index entry recorded for one assignment of a transition.
pub open spec fn assignment_entry(t: TransitionV, idx: int) -> (Hash32, Hash32, u16) {
    (spec_seal_hash(t.assignments[idx].seal), spec_node_id(t), idx as u16)
}

proof fn lemma_prefix_push(b: Seq<(Hash32, Hash32, u16)>, x: (Hash32, Hash32, u16))
    ensures
        b.is_prefix_of(b.push(x)),
{
    assert(b.push(x).subrange(0, b.len() as int) =~= b);
}

proof fn lemma_prefix_trans(
    a: Seq<(Hash32, Hash32, u16)>,
    b: Seq<(Hash32, Hash32, u16)>,
    c: Seq<(Hash32, Hash32, u16)>,
)
    requires
        a.is_prefix_of(b),
        b.is_prefix_of(c),
    ensures
        a.is_prefix_of(c),
{
    assert(c.subrange(0, a.len() as int) =~= a);
}

proof fn lemma_prefix_contains(
    a: Seq<(Hash32, Hash32, u16)>,
    b: Seq<(Hash32, Hash32, u16)>,
    y: (Hash32, Hash32, u16),
)
    requires
        a.is_prefix_of(b),
        a.contains(y),
    ensures
        b.contains(y),
{
    let w = choose|w: int| 0 <= w < a.len() && a[w] == y;
    assert(b.subrange(0, a.len() as int)[w] == y);
    assert(b[w] == y);
}

/// Every store entry whose node id matches a bundle transition holds the
/// same content.
pub open spec fn store_matches_bundle(s: Stash, c: ConsignmentV) -> bool {
    forall|k: int, j: int|
        #![trigger c.state_transitions[k], s.transitions@[j]]
        0 <= k < c.state_transitions.len() && 0 <= j < s.transitions@.len() && spec_node_id(
            s.transitions@[j].0@,
        ) == spec_node_id(c.state_transitions[k].1) ==> s.transitions@[j].0@
            == c.state_transitions[k].1
}

/// Any stored genesis under the bundle's contract id holds the same
/// content as the bundle's genesis.
pub open spec fn genesis_compatible(s: Stash, g: GenesisV) -> bool {
    forall|i: int|
        0 <= i < s.geneses@.len() && spec_contract_id((#[trigger] s.geneses@[i])@)
            == spec_contract_id(g) ==> s.geneses@[i]@ == g
}

/// Bundle transitions that share a node id hold the same content.
pub open spec fn bundle_consistent(c: ConsignmentV) -> bool {
    forall|k1: int, k2: int|
        #![trigger c.state_transitions[k1], c.state_transitions[k2]]
        0 <= k1 < c.state_transitions.len() && 0 <= k2 < c.state_transitions.len()
            && spec_node_id(c.state_transitions[k1].1) == spec_node_id(c.state_transitions[k2].1)
            ==> c.state_transitions[k1].1 == c.state_transitions[k2].1
}

impl Stash {
    /// Checks that the bundle can be inserted without rewriting any content
    /// hash key: no store entry and no pair of bundle entries disagree under
    /// one node id.
    fn bundle_compatible(&self, c: &Consignment, ids: &Vec<Hash32>) -> (r: bool)
        requires
            stash_wf(*self),
            ids@ == crate::validation::st_ids(c@),
        ensures
            r ==> store_matches_bundle(*self, c@) && bundle_consistent(c@),
            !r ==> !(store_matches_bundle(*self, c@) && bundle_consistent(c@)),
    {
        let n = c.state_transitions.len();
        let mut k: usize = 0;
        while k < n
            invariant
                stash_wf(*self),
                ids@ == crate::validation::st_ids(c@),
                n == c@.state_transitions.len(),
                k <= n,
                forall|k2: int, j: int|
                    #![trigger c@.state_transitions[k2], self.transitions@[j]]
                    0 <= k2 < k && 0 <= j < self.transitions@.len() && spec_node_id(
                        self.transitions@[j].0@,
                    ) == spec_node_id(c@.state_transitions[k2].1) ==> self.transitions@[j].0@
                        == c@.state_transitions[k2].1,
                forall|k1: int, k2: int|
                    #![trigger c@.state_transitions[k1], c@.state_transitions[k2]]
                    0 <= k1 < k && 0 <= k2 < k && spec_node_id(c@.state_transitions[k1].1)
                        == spec_node_id(c@.state_transitions[k2].1) ==> c@.state_transitions[
                        k1
                    ].1 == c@.state_transitions[k2].1,
            decreases n - k,
        {
            proof {
                assert(crate::validation::st_ids(c@)[k as int] == spec_node_id(
                    c@.state_transitions[k as int].1,
                ));
            }
            match self.find_node_index(&ids[k]) {
                Some(j) => {
                    if !transition_eq(&self.transitions[j].0, &c.state_transitions[k].1) {
                        proof {
                            assert(spec_node_id(self.transitions@[j as int].0@) == spec_node_id(
                                c@.state_transitions[k as int].1,
                            ));
                            assert(!store_matches_bundle(*self, c@));
                        }
                        return false;
                    }
                    proof {
                        assert forall|j2: int|
                            0 <= j2 < self.transitions@.len() && spec_node_id(
                                (#[trigger] self.transitions@[j2]).0@,
                            ) == spec_node_id(c@.state_transitions[k as int].1) implies
                            self.transitions@[j2].0@ == c@.state_transitions[k as int].1 by {
                            assert(j2 == j);
                        }
                    }
                },
                None => {},
            }
            let mut k2: usize = 0;
            while k2 < k
                invariant
                    ids@ == crate::validation::st_ids(c@),
                    n == c@.state_transitions.len(),
                    k < n,
                    k2 <= k,
                    forall|k3: int|
                        0 <= k3 < k2 && spec_node_id((#[trigger] c@.state_transitions[k3]).1)
                            == spec_node_id(c@.state_transitions[k as int].1)
                            ==> c@.state_transitions[k3].1 == c@.state_transitions[k as int].1,
                decreases k - k2,
            {
                proof {
                    assert(crate::validation::st_ids(c@)[k2 as int] == spec_node_id(
                        c@.state_transitions[k2 as int].1,
                    ));
                }
                if hash_eq(&ids[k2], &ids[k]) {
                    if !transition_eq(&c.state_transitions[k2].1, &c.state_transitions[k].1) {
                        proof {
                            assert(spec_node_id(c@.state_transitions[k2 as int].1)
                                == spec_node_id(c@.state_transitions[k as int].1));
                            assert(!bundle_consistent(c@));
                        }
                        return false;
                    }
                }
                k2 = k2 + 1;
            }
            k = k + 1;
        }
        true
    }

    /// Inserts the bundle's transitions, each under its content id,
    /// skipping the ones already stored; reverse index entries are added for
    /// every newly stored assignment.
    fn insert_transitions(&mut self, c: &Consignment, ids: &Vec<Hash32>)
        requires
            stash_wf(*old(self)),
            ids@ == crate::validation::st_ids(c@),
            store_matches_bundle(*old(self), c@),
            bundle_consistent(c@),
        ensures
            stash_wf(*final(self)),
            final(self).schemata@ == old(self).schemata@,
            final(self).geneses@ == old(self).geneses@,
            forall|k: int| 0 <= k < c@.state_transitions.len() ==> stash_has_transition(
                *final(self),
                (#[trigger] c@.state_transitions[k]).1,
            ),
            (forall|k: int|
                0 <= k < c@.state_transitions.len() ==> stash_has_transition(
                    *old(self),
                    (#[trigger] c@.state_transitions[k]).1,
                )) ==> *final(self) == *old(self),
            old(self).reverse_index@.is_prefix_of(final(self).reverse_index@),
            forall|k: int, idx: int|
                #![trigger c@.state_transitions[k].1.assignments[idx]]
                0 <= k < c@.state_transitions.len() && 0 <= idx < c@.state_transitions[
                    k
                ].1.assignments.len() && idx < 0x10000 && node_id_free(
                    *old(self),
                    spec_node_id(c@.state_transitions[k].1),
                ) ==> final(self).reverse_index@.contains(
                    assignment_entry(c@.state_transitions[k].1, idx),
                ),
    {
        let n = c.state_transitions.len();
        let mut k: usize = 0;
        while k < n
            invariant
                stash_wf(*self),
                ids@ == crate::validation::st_ids(c@),
                n == c@.state_transitions.len(),
                k <= n,
                self.schemata@ == old(self).schemata@,
                self.geneses@ == old(self).geneses@,
                store_matches_bundle(*old(self), c@),
                bundle_consistent(c@),
                old(self).transitions@.is_prefix_of(self.transitions@),
                forall|j: int|
                    old(self).transitions@.len() <= j < self.transitions@.len() ==> exists|
                        k2: int,
                    |
                        0 <= k2 < k && (#[trigger] self.transitions@[j]).0@
                            == c@.state_transitions[k2].1,
                forall|k2: int| 0 <= k2 < k ==> stash_has_transition(
                    *self,
                    (#[trigger] c@.state_transitions[k2]).1,
                ),
                (forall|k2: int|
                    0 <= k2 < n ==> stash_has_transition(
                        *old(self),
                        (#[trigger] c@.state_transitions[k2]).1,
                    )) ==> *self == *old(self),
                old(self).reverse_index@.is_prefix_of(self.reverse_index@),
                forall|k2: int, idx: int|
                    #![trigger c@.state_transitions[k2].1.assignments[idx]]
                    0 <= k2 < k && 0 <= idx < c@.state_transitions[k2].1.assignments.len()
                        && idx < 0x10000 && node_id_free(
                        *old(self),
                        spec_node_id(c@.state_transitions[k2].1),
                    ) ==> self.reverse_index@.contains(
                        assignment_entry(c@.state_transitions[k2].1, idx),
                    ),
            decreases n - k,
        {
            proof {
                assert(crate::validation::st_ids(c@)[k as int] == spec_node_id(
                    c@.state_transitions[k as int].1,
                ));
            }
            match self.find_node_index(&ids[k]) {
                Some(j) => {
                    proof {
                        let jj = j as int;
                        if jj < old(self).transitions@.len() {
                            assert(old(self).transitions@[jj] == self.transitions@[jj]);
                            assert(self.transitions@[jj].0@ == c@.state_transitions[
                                k as int
                            ].1);
                            assert(!node_id_free(
                                *old(self),
                                spec_node_id(c@.state_transitions[k as int].1),
                            ));
                        } else {
                            let k2 = choose|k2: int|
                                0 <= k2 < k && (#[trigger] self.transitions@[jj]).0@
                                    == c@.state_transitions[k2].1;
                            assert(spec_node_id(c@.state_transitions[k2].1) == spec_node_id(
                                c@.state_transitions[k as int].1,
                            ));
                            assert(self.transitions@[jj].0@ == c@.state_transitions[
                                k as int
                            ].1);
                            assert(c@.state_transitions[k2].1 == c@.state_transitions[
                                k as int
                            ].1);
                            if node_id_free(
                                *old(self),
                                spec_node_id(c@.state_transitions[k as int].1),
                            ) {
                                assert forall|idx: int|
                                    0 <= idx < c@.state_transitions[
                                        k as int
                                    ].1.assignments.len() && idx < 0x10000 implies
                                    self.reverse_index@.contains(
                                        assignment_entry(
                                            (#[trigger] c@.state_transitions[k as int]).1,
                                            idx,
                                        ),
                                    ) by {
                                    assert(c@.state_transitions[k2].1.assignments[idx]
                                        == c@.state_transitions[k as int].1.assignments[idx]);
                                    assert(self.reverse_index@.contains(
                                        assignment_entry(c@.state_transitions[k2].1, idx),
                                    ));
                                    assert(assignment_entry(c@.state_transitions[k2].1, idx)
                                        == assignment_entry(
                                        c@.state_transitions[k as int].1,
                                        idx,
                                    ));
                                }
                            }
                        }
                        assert(stash_has_transition(*self, c@.state_transitions[k as int].1));
                    }
                },
                None => {
                    proof {
                        if forall|k2: int|
                            0 <= k2 < n ==> stash_has_transition(
                                *old(self),
                                (#[trigger] c@.state_transitions[k2]).1,
                            ) {
                            assert(stash_has_transition(
                                *old(self),
                                c@.state_transitions[k as int].1,
                            ));
                            let w = choose|w: int|
                                0 <= w < old(self).transitions@.len() && (#[trigger] old(
                                    self,
                                ).transitions@[w]).0@ == c@.state_transitions[k as int].1;
                            assert(self.transitions@[w] == old(self).transitions@[w]);
                            assert(spec_node_id(self.transitions@[w].0@) == ids@[k as int]);
                        }
                    }
                    let t = copy_transition(&c.state_transitions[k].1);
                    let a = c.state_transitions[k].0;
                    let ghost before_push = *self;
                    self.transitions.push((t, a));
                    proof {
                        assert(self.transitions@.last().0@ == c@.state_transitions[k as int].1);
                        assert(stash_has_transition(*self, c@.state_transitions[k as int].1));
                        assert(before_push.transitions@.is_prefix_of(self.transitions@));
                        assert(old(self).transitions@.is_prefix_of(self.transitions@));
                    }
                    let na = c.state_transitions[k].1.assignments.len();
                    let nid = ids[k];
                    let ghost snap = *self;
                    let mut idx: usize = 0;
                    while idx < na
                        invariant
                            na == c.state_transitions@[k as int].1.assignments@.len(),
                            k < n,
                            n == c@.state_transitions.len(),
                            ids@ == crate::validation::st_ids(c@),
                            nid == spec_node_id(c@.state_transitions[k as int].1),
                            idx <= na,
                            self.schemata@ == snap.schemata@,
                            self.geneses@ == snap.geneses@,
                            self.transitions@ == snap.transitions@,
                            old(self).reverse_index@.is_prefix_of(snap.reverse_index@),
                            snap.reverse_index@.is_prefix_of(self.reverse_index@),
                            forall|k2: int, idx2: int|
                                #![trigger c@.state_transitions[k2].1.assignments[idx2]]
                                0 <= k2 < k && 0 <= idx2 < c@.state_transitions[
                                    k2
                                ].1.assignments.len() && idx2 < 0x10000 && node_id_free(
                                    *old(self),
                                    spec_node_id(c@.state_transitions[k2].1),
                                ) ==> snap.reverse_index@.contains(
                                    assignment_entry(c@.state_transitions[k2].1, idx2),
                                ),
                            forall|idx2: int|
                                0 <= idx2 < idx && idx2 < 0x10000
                                    ==> self.reverse_index@.contains(
                                    #[trigger] assignment_entry(
                                        c@.state_transitions[k as int].1,
                                        idx2,
                                    ),
                                ),
                        decreases na - idx,
                    {
                        let h = crate::validation::seal_hash_of(
                            &c.state_transitions[k].1.assignments[idx].seal,
                        );
                        let iu: u16 = #[verifier::truncate] (idx as u16);
                        let ghost pre_rev = self.reverse_index@;
                        self.reverse_index.push((h, nid, iu));
                        proof {
                            lemma_prefix_push(pre_rev, (h, nid, iu));
                            lemma_prefix_trans(
                                snap.reverse_index@,
                                pre_rev,
                                self.reverse_index@,
                            );
                            if idx < 0x10000 {
                                assert((h, nid, iu) == assignment_entry(
                                    c@.state_transitions[k as int].1,
                                    idx as int,
                                ));
                                assert(self.reverse_index@.last() == assignment_entry(
                                    c@.state_transitions[k as int].1,
                                    idx as int,
                                ));
                            }
                            assert forall|idx2: int|
                                0 <= idx2 < idx + 1 && idx2 < 0x10000 implies
                                self.reverse_index@.contains(
                                    #[trigger] assignment_entry(
                                        c@.state_transitions[k as int].1,
                                        idx2,
                                    ),
                                ) by {
                                if idx2 < idx {
                                    lemma_prefix_contains(
                                        pre_rev,
                                        self.reverse_index@,
                                        assignment_entry(
                                            c@.state_transitions[k as int].1,
                                            idx2,
                                        ),
                                    );
                                }
                            }
                        }
                        idx = idx + 1;
                    }
                    proof {
                        lemma_prefix_trans(
                            old(self).reverse_index@,
                            snap.reverse_index@,
                            self.reverse_index@,
                        );
                        assert forall|k2: int, idx2: int|
                            #![trigger c@.state_transitions[k2].1.assignments[idx2]]
                            0 <= k2 < k + 1 && 0 <= idx2 < c@.state_transitions[
                                k2
                            ].1.assignments.len() && idx2 < 0x10000 && node_id_free(
                                *old(self),
                                spec_node_id(c@.state_transitions[k2].1),
                            ) implies self.reverse_index@.contains(
                            assignment_entry(c@.state_transitions[k2].1, idx2),
                        ) by {
                            if k2 < k {
                                lemma_prefix_contains(
                                    snap.reverse_index@,
                                    self.reverse_index@,
                                    assignment_entry(c@.state_transitions[k2].1, idx2),
                                );
                            }
                        }
                    }
                },
            }
            k = k + 1;
        }
    }

    /// Merges a validated consignment into the store.
    ///
    /// Validation runs first; an invalid consignment is refused and nothing
    /// changes.  Every node of the bundle is added idempotently: merging a
    /// consignment whose bundle the store already holds changes nothing at
    /// all, so merging the same consignment twice is the same as merging it
    /// once.
    #[verifier::rlimit(100)]
    #[verifier::spinoff_prover]
    pub fn merge(&mut self, c: &Consignment) -> (r: Reply)
        requires
            stash_wf(*old(self)),
        ensures
            stash_wf(*final(self)),
            final(self).schemata@ == old(self).schemata@,
            !(r is Success) ==> *final(self) == *old(self) && r is Failure,
            !spec_consignment_valid(c@, schemas_view(old(self).schemata@)) ==> r
                == Reply::Failure(FailureReason::InvalidConsignment),
            (r is Success) ==> spec_consignment_valid(c@, schemas_view(old(self).schemata@)),
            (r is Success) ==> stash_contains_bundle(*final(self), c@),
            (stash_contains_bundle(*old(self), c@) && r is Success) ==> *final(self) == *old(
                self,
            ),
            (spec_consignment_valid(c@, schemas_view(old(self).schemata@)) && genesis_compatible(
                *old(self),
                c@.genesis,
            ) && store_matches_bundle(*old(self), c@) && bundle_consistent(c@)) ==> r is Success,
            (r is Success) ==> old(self).reverse_index@.is_prefix_of(
                final(self).reverse_index@,
            ),
            (r is Success) ==> forall|k: int, idx: int|
                #![trigger c@.state_transitions[k].1.assignments[idx]]
                0 <= k < c@.state_transitions.len() && 0 <= idx < c@.state_transitions[
                    k
                ].1.assignments.len() && idx < 0x10000 && node_id_free(
                    *old(self),
                    spec_node_id(c@.state_transitions[k].1),
                ) ==> final(self).reverse_index@.contains(
                    assignment_entry(c@.state_transitions[k].1, idx),
                ),
    {
        let vs = crate::validation::validate(c, &self.schemata);
        if !vs.valid {
            return Reply::Failure(FailureReason::InvalidConsignment);
        }
        let gid = contract_id_of(&c.genesis);
        match self.find_genesis_index(&gid) {
            Some(i) => {
                if !genesis_eq(&self.geneses[i], &c.genesis) {
                    proof {
                        assert(spec_contract_id(self.geneses@[i as int]@) == spec_contract_id(
                            c@.genesis,
                        ));
                        assert(!genesis_compatible(*self, c@.genesis));
                    }
                    return Reply::Failure(FailureReason::GenesisMismatch);
                }
            },
            None => {},
        }
        let ids = crate::validation::compute_ids(c);
        if !self.bundle_compatible(c, &ids) {
            return Reply::Failure(FailureReason::NodeMismatch);
        }
        match self.find_genesis_index(&gid) {
            Some(_) => {
                proof {
                    assert(stash_has_genesis(*self, c@.genesis));
                }
            },
            None => {
                proof {
                    if stash_has_genesis(*old(self), c@.genesis) {
                        let w = choose|w: int|
                            0 <= w < self.geneses@.len() && (#[trigger] self.geneses@[w])@
                                == c@.genesis;
                        assert(spec_contract_id(self.geneses@[w]@) == spec_contract_id(
                            c@.genesis,
                        ));
                    }
                }
                self.geneses.push(copy_genesis(&c.genesis));
                proof {
                    assert(self.geneses@.last()@ == c@.genesis);
                    assert(stash_has_genesis(*self, c@.genesis));
                }
            },
        }
        proof {
            assert(stash_has_genesis(*old(self), c@.genesis) ==> *self == *old(self));
        }
        let ghost mid = *self;
        self.insert_transitions(c, &ids);
        proof {
            assert(mid.reverse_index@ == old(self).reverse_index@);
            assert forall|k: int, idx: int|
                #![trigger c@.state_transitions[k].1.assignments[idx]]
                0 <= k < c@.state_transitions.len() && 0 <= idx < c@.state_transitions[
                    k
                ].1.assignments.len() && idx < 0x10000 && node_id_free(
                    *old(self),
                    spec_node_id(c@.state_transitions[k].1),
                ) implies self.reverse_index@.contains(
                assignment_entry(c@.state_transitions[k].1, idx),
            ) by {
                assert(mid.transitions@ == old(self).transitions@);
                assert(node_id_free(mid, spec_node_id(c@.state_transitions[k].1)));
            }
        }
        Reply::Success
    }
    /// Assembles a consignment for a new transition: collects its stored
    /// ancestry walking input references backwards, anchors the new
    /// transition to the transaction derived from the supplied PSBT, and
    /// validates the bundle before handing it out.  The result is pinned to
    /// the assembly function: an unknown contract id is refused, and
    /// otherwise a consignment is returned exactly when the assembled
    /// bundle passes full validation.
    ///
    /// Ancestors are emitted in store order, which is a topological order
    /// for stores maintained by `merge` (bundles arrive parents first).  The
    /// node-id tie-break between ancestors of equal depth is not applied, so
    /// two stores holding the same nodes under different merge histories can
    /// emit byte-different, equally valid bundles; for one store the output
    /// is an exact function of the store and the request.
    #[verifier::rlimit(100)]
    #[verifier::spinoff_prover]
    pub fn consign(&self, req: &crate::rpc::ConsignRequest) -> (r: Result<
        Consignment,
        FailureReason,
    >)
        requires
            stash_wf(*self),
        ensures
            match r {
                Ok(c) => spec_genesis_for(*self, req.contract_id) matches Some(g) && c@
                    == spec_assembled(*self, g, req.transition@, req.outpoints@, req.psbt@)
                    && spec_consignment_valid(c@, schemas_view(self.schemata@)),
                Err(f) => {
                    ||| (f == FailureReason::UnknownContract && spec_genesis_for(
                        *self,
                        req.contract_id,
                    ) is None)
                    ||| (f == FailureReason::InvalidConsignment && (spec_genesis_for(
                        *self,
                        req.contract_id,
                    ) matches Some(g) && !spec_consignment_valid(
                        spec_assembled(*self, g, req.transition@, req.outpoints@, req.psbt@),
                        schemas_view(self.schemata@),
                    )))
                },
            },
    {
        let found = self.find_genesis_index(&req.contract_id);
        proof {
            lemma_genesis_from_sound(self.geneses@, req.contract_id, 0);
        }
        let genesis = match found {
            None => {
                return Err(FailureReason::UnknownContract);
            },
            Some(i) => {
                proof {
                    let gf = spec_genesis_from(req.contract_id, self.geneses@, 0);
                    if gf is Some {
                        let w = choose|w: int|
                            0 <= w < self.geneses@.len() && (#[trigger] self.geneses@[w])@
                                == gf.unwrap() && spec_contract_id(gf.unwrap())
                                == req.contract_id;
                        assert(w == i);
                    }
                }
                copy_genesis(&self.geneses[i])
            },
        };
        let ghost g = genesis@;
        // Collect the ids the new transition consumes, then sweep the store
        // backwards so that each marked ancestor contributes its own inputs
        // before earlier entries are considered.
        let ghost init = input_id_seq(req.transition@);
        let mut needed: Vec<Hash32> = Vec::new();
        let mut k: usize = 0;
        while k < req.transition.inputs.len()
            invariant
                k <= req.transition.inputs@.len(),
                init == input_id_seq(req.transition@),
                needed@ == init.subrange(0, k as int),
            decreases req.transition.inputs@.len() - k,
        {
            needed.push(req.transition.inputs[k].prev_node);
            proof {
                assert(needed@ =~= init.subrange(0, k as int + 1));
            }
            k = k + 1;
        }
        proof {
            assert(init.subrange(0, init.len() as int) =~= init);
        }
        let n = self.transitions.len();
        let mut marked: Vec<bool> = Vec::new();
        let mut j0: usize = 0;
        while j0 < n
            invariant
                marked@.len() == j0,
                n == self.transitions@.len(),
                j0 <= n,
            decreases n - j0,
        {
            marked.push(false);
            j0 = j0 + 1;
        }
        let mut j: usize = n;
        while j > 0
            invariant
                marked@.len() == n,
                n == self.transitions@.len(),
                j <= n,
                init == input_id_seq(req.transition@),
                needed@ == spec_needed(*self, init, j as int),
                forall|idx: int| j <= idx < n ==> marked@[idx] == spec_marked(
                    *self,
                    init,
                    idx,
                ),
            decreases j,
        {
            j = j - 1;
            let nid = node_id_of(&self.transitions[j].0);
            let mut hit = false;
            let mut q: usize = 0;
            while q < needed.len()
                invariant
                    q <= needed@.len(),
                    nid == spec_node_id(self.transitions@[j as int].0@),
                    hit ==> id_in(needed@, nid),
                    !hit ==> forall|q2: int| 0 <= q2 < q ==> needed@[q2] != nid,
                decreases needed@.len() - q,
            {
                if hash_eq(&needed[q], &nid) {
                    proof {
                        assert(needed@[q as int] == nid);
                    }
                    hit = true;
                }
                q = q + 1;
            }
            proof {
                assert(hit == id_in(spec_needed(*self, init, j as int + 1), nid));
                assert(hit == spec_marked(*self, init, j as int));
            }
            marked.set(j, hit);
            if hit {
                let n_in = self.transitions[j].0.inputs.len();
                let ghost base = needed@;
                let mut k2: usize = 0;
                while k2 < n_in
                    invariant
                        n == self.transitions@.len(),
                        j < n,
                        n_in == self.transitions@[j as int].0.inputs@.len(),
                        k2 <= n_in,
                        needed@ == base + input_id_seq(
                            self.transitions@[j as int].0@,
                        ).subrange(0, k2 as int),
                    decreases n_in - k2,
                {
                    needed.push(self.transitions[j].0.inputs[k2].prev_node);
                    proof {
                        assert(needed@ =~= base + input_id_seq(
                            self.transitions@[j as int].0@,
                        ).subrange(0, k2 as int + 1));
                    }
                    k2 = k2 + 1;
                }
                proof {
                    let full = input_id_seq(self.transitions@[j as int].0@);
                    assert(full.subrange(0, full.len() as int) =~= full);
                    assert(needed@ == spec_needed(*self, init, j as int));
                }
            } else {
                proof {
                    assert(needed@ == spec_needed(*self, init, j as int));
                }
            }
        }
        let mut sts: Vec<(Anchor, Transition)> = Vec::new();
        let mut j2: usize = 0;
        while j2 < n
            invariant
                marked@.len() == n,
                n == self.transitions@.len(),
                j2 <= n,
                init == input_id_seq(req.transition@),
                forall|idx: int| 0 <= idx < n ==> marked@[idx] == spec_marked(
                    *self,
                    init,
                    idx,
                ),
                crate::entities::pairs_view(sts@) == spec_selected(*self, init, j2 as int),
            decreases n - j2,
        {
            let ghost prevp = crate::entities::pairs_view(sts@);
            if marked[j2] {
                let t = copy_transition(&self.transitions[j2].0);
                let a = self.transitions[j2].1;
                sts.push((a, t));
                proof {
                    assert(crate::entities::pairs_view(sts@) =~= prevp.push(
                        (self.transitions@[j2 as int].1, self.transitions@[j2 as int].0@),
                    ));
                    assert(crate::entities::pairs_view(sts@) =~= spec_selected(
                        *self,
                        init,
                        j2 as int + 1,
                    ));
                }
            } else {
                proof {
                    assert(prevp + Seq::<(Anchor, TransitionV)>::empty() =~= prevp);
                    assert(crate::entities::pairs_view(sts@) =~= spec_selected(
                        *self,
                        init,
                        j2 as int + 1,
                    ));
                }
            }
            j2 = j2 + 1;
        }
        let txid = crate::ids::id_of(&req.psbt);
        let new_id = node_id_of(&req.transition);
        let anchor = crate::validation::make_anchor(&txid, 0, &new_id);
        let ghost before_last = crate::entities::pairs_view(sts@);
        sts.push((anchor, copy_transition(&req.transition)));
        proof {
            assert(anchor == spec_new_anchor(req.psbt@, req.transition@));
            assert(crate::entities::pairs_view(sts@) =~= before_last.push(
                (spec_new_anchor(req.psbt@, req.transition@), req.transition@),
            ));
            assert(crate::entities::pairs_view(sts@) =~= spec_selected(
                *self,
                init,
                n as int,
            ) + seq![(spec_new_anchor(req.psbt@, req.transition@), req.transition@)]);
        }
        let mut endpoints: Vec<(Hash32, Hash32)> = Vec::new();
        let mut e: usize = 0;
        while e < req.outpoints.len()
            invariant
                e <= req.outpoints@.len(),
                new_id == spec_node_id(req.transition@),
                endpoints@ == req.outpoints@.subrange(0, e as int).map_values(
                    |oh: Hash32| (spec_node_id(req.transition@), oh),
                ),
            decreases req.outpoints@.len() - e,
        {
            endpoints.push((new_id, req.outpoints[e]));
            proof {
                assert(endpoints@ =~= req.outpoints@.subrange(0, e as int + 1).map_values(
                    |oh: Hash32| (spec_node_id(req.transition@), oh),
                ));
            }
            e = e + 1;
        }
        proof {
            assert(req.outpoints@.subrange(0, req.outpoints@.len() as int)
                =~= req.outpoints@);
        }
        let candidate = Consignment { genesis, state_transitions: sts, endpoints };
        proof {
            assert(candidate@ == spec_assembled(
                *self,
                g,
                req.transition@,
                req.outpoints@,
                req.psbt@,
            ));
        }
        let vs = crate::validation::validate(&candidate, &self.schemata);
        if vs.valid {
            Ok(candidate)
        } else {
            Err(FailureReason::InvalidConsignment)
        }
    }

    /// Drops the listed owned-right records from the reverse index.  A
    /// transition all of whose records are dropped is removed as well; the
    /// request is refused exactly when a surviving transition still
    /// consumes from a dropped one, and then nothing changes.
    #[verifier::rlimit(100)]
    #[verifier::spinoff_prover]
    pub fn forget(&mut self, list: &Vec<(Hash32, u16)>) -> (r: Reply)
        requires
            stash_wf(*old(self)),
        ensures
            stash_wf(*final(self)),
            final(self).schemata@ == old(self).schemata@,
            final(self).geneses@ == old(self).geneses@,
            !(r is Success) ==> *final(self) == *old(self) && r == Reply::Failure(
                FailureReason::DescendantsPresent,
            ),
            (r is Success) <==> !forget_blocked(
                *old(self),
                spec_drop_entries(old(self).reverse_index@, list@, 0),
                list@,
            ),
            (r is Success) ==> final(self).reverse_index@ == spec_drop_entries(
                old(self).reverse_index@,
                list@,
                0,
            ),
            (r is Success) ==> trans_view(final(self).transitions@) == spec_kept_transitions(
                *old(self),
                spec_drop_entries(old(self).reverse_index@, list@, 0),
                list@,
                old(self).transitions@.len() as int,
            ),
    {
        let ghost d = spec_drop_entries(old(self).reverse_index@, list@, 0);
        // The surviving reverse index.
        let mut new_rev: Vec<(Hash32, Hash32, u16)> = Vec::new();
        let mut e: usize = 0;
        while e < self.reverse_index.len()
            invariant
                *self == *old(self),
                stash_wf(*self),
                d == spec_drop_entries(old(self).reverse_index@, list@, 0),
                e <= self.reverse_index@.len(),
                d == new_rev@ + spec_drop_entries(self.reverse_index@, list@, e as int),
            decreases self.reverse_index@.len() - e,
        {
            let entry = self.reverse_index[e];
            let ghost tail = spec_drop_entries(self.reverse_index@, list@, e as int + 1);
            if !listed_exec(&entry, list) {
                let ghost prev = new_rev@;
                new_rev.push(entry);
                proof {
                    assert(spec_drop_entries(self.reverse_index@, list@, e as int)
                        == seq![entry] + tail);
                    assert(prev + (seq![entry] + tail) =~= new_rev@ + tail);
                }
            } else {
                proof {
                    assert(spec_drop_entries(self.reverse_index@, list@, e as int)
                        == Seq::<(Hash32, Hash32, u16)>::empty() + tail);
                    assert(new_rev@ + (Seq::<(Hash32, Hash32, u16)>::empty() + tail)
                        =~= new_rev@ + tail);
                }
            }
            e = e + 1;
        }
        proof {
            assert(spec_drop_entries(
                self.reverse_index@,
                list@,
                self.reverse_index@.len() as int,
            ) =~= Seq::<(Hash32, Hash32, u16)>::empty());
            assert(new_rev@ + Seq::<(Hash32, Hash32, u16)>::empty() =~= new_rev@);
            assert(new_rev@ == d);
        }
        // Which transitions survive: all whose node id keeps an entry, or
        // whose id was never listed.
        let n = self.transitions.len();
        let mut keep: Vec<bool> = Vec::new();
        let mut j: usize = 0;
        while j < n
            invariant
                *self == *old(self),
                stash_wf(*self),
                new_rev@ == d,
                d == spec_drop_entries(old(self).reverse_index@, list@, 0),
                n == self.transitions@.len(),
                j <= n,
                keep@.len() == j,
                forall|j2: int| 0 <= j2 < j ==> keep@[j2] == spec_keep_transition(
                    *old(self),
                    d,
                    list@,
                    j2,
                ),
            decreases n - j,
        {
            let nid = node_id_of(&self.transitions[j].0);
            let mut is_listed = false;
            let mut q: usize = 0;
            while q < list.len()
                invariant
                    *self == *old(self),
                    stash_wf(*self),
                    n == self.transitions@.len(),
                    j < n,
                    q <= list@.len(),
                    nid == spec_node_id(self.transitions@[j as int].0@),
                    is_listed ==> node_listed(nid, list@),
                    !is_listed ==> forall|q2: int| 0 <= q2 < q ==> (#[trigger] list@[q2]).0
                        != nid,
                decreases list@.len() - q,
            {
                if hash_eq(&list[q].0, &nid) {
                    proof {
                        assert(list@[q as int].0 == nid);
                    }
                    is_listed = true;
                }
                q = q + 1;
            }
            let mut has_entry = false;
            let mut q2: usize = 0;
            while q2 < new_rev.len()
                invariant
                    *self == *old(self),
                    stash_wf(*self),
                    n == self.transitions@.len(),
                    j < n,
                    q2 <= new_rev@.len(),
                    nid == spec_node_id(self.transitions@[j as int].0@),
                    is_listed == node_listed(nid, list@),
                    has_entry ==> rev_has_node(new_rev@, nid),
                    !has_entry ==> forall|q3: int| 0 <= q3 < q2 ==> (#[trigger] new_rev@[
                        q3
                    ]).1 != nid,
                decreases new_rev@.len() - q2,
            {
                if hash_eq(&new_rev[q2].1, &nid) {
                    proof {
                        assert(new_rev@[q2 as int].1 == nid);
                    }
                    has_entry = true;
                }
                q2 = q2 + 1;
            }
            keep.push(!is_listed || has_entry);
            proof {
                assert(keep@.last() == spec_keep_transition(*old(self), d, list@, j as int));
            }
            j = j + 1;
        }
        // Refuse when a surviving transition still consumes from a dropped
        // one.
        let mut j2: usize = 0;
        while j2 < n
            invariant
                *self == *old(self),
                stash_wf(*self),
                new_rev@ == d,
                d == spec_drop_entries(old(self).reverse_index@, list@, 0),
                n == self.transitions@.len(),
                keep@.len() == n,
                forall|j5: int| 0 <= j5 < n ==> keep@[j5] == spec_keep_transition(
                    *old(self),
                    d,
                    list@,
                    j5,
                ),
                j2 <= n,
                forall|a: int, b: int, c: int|
                    0 <= a < j2 && 0 <= b < self.transitions@[a].0@.inputs.len() && 0 <= c < n
                        ==> !#[trigger] blocked_at(*old(self), d, list@, a, b, c),
            decreases n - j2,
        {
            if keep[j2] {
                let n_in = self.transitions[j2].0.inputs.len();
                let mut k: usize = 0;
                while k < n_in
                    invariant
                        *self == *old(self),
                        stash_wf(*self),
                        new_rev@ == d,
                        d == spec_drop_entries(old(self).reverse_index@, list@, 0),
                        n == self.transitions@.len(),
                        keep@.len() == n,
                        forall|j5: int| 0 <= j5 < n ==> keep@[j5] == spec_keep_transition(
                            *old(self),
                            d,
                            list@,
                            j5,
                        ),
                        j2 < n,
                        keep@[j2 as int],
                        n_in == self.transitions@[j2 as int].0@.inputs.len(),
                        k <= n_in,
                        forall|b: int, c: int|
                            0 <= b < k && 0 <= c < n ==> !#[trigger] blocked_at(
                                *old(self),
                                d,
                                list@,
                                j2 as int,
                                b,
                                c,
                            ),
                    decreases n_in - k,
                {
                    let prev = self.transitions[j2].0.inputs[k].prev_node;
                    let mut j3: usize = 0;
                    while j3 < n
                        invariant
                            *self == *old(self),
                            stash_wf(*self),
                            new_rev@ == d,
                            d == spec_drop_entries(old(self).reverse_index@, list@, 0),
                            n == self.transitions@.len(),
                            keep@.len() == n,
                            forall|j5: int| 0 <= j5 < n ==> keep@[j5] == spec_keep_transition(
                                *old(self),
                                d,
                                list@,
                                j5,
                            ),
                            j2 < n,
                            k < n_in,
                            n_in == self.transitions@[j2 as int].0@.inputs.len(),
                            prev == self.transitions@[j2 as int].0@.inputs[k as int].prev_node,
                            keep@[j2 as int],
                            j3 <= n,
                            forall|c: int| 0 <= c < j3 ==> !#[trigger] blocked_at(
                                *old(self),
                                d,
                                list@,
                                j2 as int,
                                k as int,
                                c,
                            ),
                        decreases n - j3,
                    {
                        if !keep[j3] {
                            let nid = node_id_of(&self.transitions[j3].0);
                            if hash_eq(&nid, &prev) {
                                proof {
                                    assert(blocked_at(
                                        *old(self),
                                        d,
                                        list@,
                                        j2 as int,
                                        k as int,
                                        j3 as int,
                                    ));
                                    assert(forget_blocked(*old(self), d, list@));
                                }
                                return Reply::Failure(FailureReason::DescendantsPresent);
                            }
                        }
                        j3 = j3 + 1;
                    }
                    k = k + 1;
                }
            } else {
                proof {
                    assert forall|b: int, c: int|
                        0 <= b < self.transitions@[j2 as int].0@.inputs.len() && 0 <= c < n
                            implies !#[trigger] blocked_at(
                        *old(self),
                        d,
                        list@,
                        j2 as int,
                        b,
                        c,
                    ) by {
                        assert(!spec_keep_transition(*old(self), d, list@, j2 as int));
                    }
                }
            }
            j2 = j2 + 1;
        }
        proof {
            assert(!forget_blocked(*old(self), d, list@)) by {
                if forget_blocked(*old(self), d, list@) {
                    let (a, b, c): (int, int, int) = choose|a: int, b: int, c: int|
                        0 <= a < old(self).transitions@.len() && 0 <= b < old(
                            self,
                        ).transitions@[a].0@.inputs.len() && 0 <= c < old(
                            self,
                        ).transitions@.len() && #[trigger] blocked_at(
                            *old(self),
                            d,
                            list@,
                            a,
                            b,
                            c,
                        );
                    assert(!blocked_at(*old(self), d, list@, a, b, c));
                }
            }
        }
        // Commit.
        let mut new_ts: Vec<(Transition, Anchor)> = Vec::new();
        let mut j4: usize = 0;
        while j4 < n
            invariant
                n == self.transitions@.len(),
                keep@.len() == n,
                forall|j5: int| 0 <= j5 < n ==> keep@[j5] == spec_keep_transition(
                    *old(self),
                    d,
                    list@,
                    j5,
                ),
                new_rev@ == d,
                d == spec_drop_entries(old(self).reverse_index@, list@, 0),
                j4 <= n,
                stash_wf(*self),
                *self == *old(self),
                trans_view(new_ts@) == spec_kept_transitions(*old(self), d, list@, j4 as int),
                forall|a: int| 0 <= a < new_ts@.len() ==> drawn_from(
                    *self,
                    (#[trigger] new_ts@[a]).0@,
                    new_ts@[a].1,
                    j4 as int,
                ),
                forall|a1: int, a2: int|
                    #![trigger new_ts@[a1], new_ts@[a2]]
                    0 <= a1 < a2 < new_ts@.len() ==> spec_node_id(new_ts@[a1].0@)
                        != spec_node_id(new_ts@[a2].0@),
            decreases n - j4,
        {
            if keep[j4] {
                let t = copy_transition(&self.transitions[j4].0);
                let a = self.transitions[j4].1;
                let ghost prev = new_ts@;
                new_ts.push((t, a));
                proof {
                    assert(new_ts@.last().0@ == self.transitions@[j4 as int].0@);
                    assert(new_ts@.last().1 == self.transitions@[j4 as int].1);
                    assert(new_ts@[prev.len() as int] == new_ts@.last());
                    assert(trans_view(new_ts@) =~= trans_view(prev).push(
                        (self.transitions@[j4 as int].0@, self.transitions@[j4 as int].1),
                    ));
                    assert(trans_view(new_ts@) =~= spec_kept_transitions(
                        *old(self),
                        d,
                        list@,
                        j4 as int + 1,
                    ));
                    assert(drawn_from(
                        *self,
                        new_ts@[prev.len() as int].0@,
                        new_ts@[prev.len() as int].1,
                        j4 as int + 1,
                    ));
                    assert forall|a1: int| 0 <= a1 < prev.len() implies drawn_from(
                        *self,
                        (#[trigger] new_ts@[a1]).0@,
                        new_ts@[a1].1,
                        j4 as int + 1,
                    ) by {
                        assert(new_ts@[a1] == prev[a1]);
                        lemma_drawn_mono(*self, prev[a1].0@, prev[a1].1, j4 as int, j4 as int + 1);
                    }
                    assert forall|a1: int| 0 <= a1 < prev.len() implies spec_node_id(
                        (#[trigger] new_ts@[a1]).0@,
                    ) != spec_node_id(t@) by {
                        assert(new_ts@[a1] == prev[a1]);
                        assert(drawn_from(*self, prev[a1].0@, prev[a1].1, j4 as int));
                        let w = choose|w: int|
                            0 <= w < j4 && (#[trigger] self.transitions@[w]).0@ == prev[a1].0@
                                && self.transitions@[w].1 == prev[a1].1;
                        assert(spec_node_id(self.transitions@[w].0@) != spec_node_id(
                            self.transitions@[j4 as int].0@,
                        ));
                    }
                }
            } else {
                proof {
                    assert(trans_view(new_ts@) + Seq::<(TransitionV, Anchor)>::empty()
                        =~= trans_view(new_ts@));
                }
            }
            j4 = j4 + 1;
        }
        self.transitions = new_ts;
        self.reverse_index = new_rev;
        Reply::Success
    }
}

/// Whether a node id occurs among the listed owned rights.
pub open spec fn node_listed(id: Hash32, l: Seq<(Hash32, u16)>) -> bool {
    exists|q: int| 0 <= q < l.len() && (#[trigger] l[q]).0 == id
}

/// Whether the reverse index still carries an entry for a node id.
pub open spec fn rev_has_node(rev: Seq<(Hash32, Hash32, u16)>, id: Hash32) -> bool {
    exists|q: int| 0 <= q < rev.len() && (#[trigger] rev[q]).1 == id
}

/// The reverse index after the listed owned rights are dropped, in order.
pub open spec fn spec_drop_entries(
    rev: Seq<(Hash32, Hash32, u16)>,
    l: Seq<(Hash32, u16)>,
    from: int,
) -> Seq<(Hash32, Hash32, u16)>
    decreases rev.len() - from,
{
    if from < 0 || from >= rev.len() {
        Seq::empty()
    } else {
        (if listed(rev[from], l) {
            Seq::empty()
        } else {
            seq![rev[from]]
        }) + spec_drop_entries(rev, l, from + 1)
    }
}

/// A transition survives a forget unless its id was listed and no reverse
/// index entry for it remains.
pub open spec fn spec_keep_transition(
    s: Stash,
    dropped: Seq<(Hash32, Hash32, u16)>,
    l: Seq<(Hash32, u16)>,
    j: int,
) -> bool {
    !node_listed(spec_node_id(s.transitions@[j].0@), l) || rev_has_node(
        dropped,
        spec_node_id(s.transitions@[j].0@),
    )
}

/// The models of the transitions surviving a forget, in store order.
pub open spec fn spec_kept_transitions(
    s: Stash,
    dropped: Seq<(Hash32, Hash32, u16)>,
    l: Seq<(Hash32, u16)>,
    j: int,
) -> Seq<(TransitionV, Anchor)>
    decreases j,
{
    if j <= 0 {
        Seq::empty()
    } else {
        spec_kept_transitions(s, dropped, l, j - 1) + (if spec_keep_transition(
            s,
            dropped,
            l,
            j - 1,
        ) {
            seq![(s.transitions@[j - 1].0@, s.transitions@[j - 1].1)]
        } else {
            Seq::empty()
        })
    }
}

/// Model view of a stored transition table.
pub open spec fn trans_view(ts: Seq<(Transition, Anchor)>) -> Seq<(TransitionV, Anchor)> {
    ts.map_values(|p: (Transition, Anchor)| (p.0@, p.1))
}

/// A surviving transition consumes an owned right of a dropped one.
pub open spec fn blocked_at(
    s: Stash,
    dropped: Seq<(Hash32, Hash32, u16)>,
    l: Seq<(Hash32, u16)>,
    j2: int,
    k: int,
    j3: int,
) -> bool {
    &&& spec_keep_transition(s, dropped, l, j2)
    &&& !spec_keep_transition(s, dropped, l, j3)
    &&& s.transitions@[j2].0@.inputs[k].prev_node == spec_node_id(s.transitions@[j3].0@)
}

/// Some surviving transition still consumes from a dropped one.
pub open spec fn forget_blocked(
    s: Stash,
    dropped: Seq<(Hash32, Hash32, u16)>,
    l: Seq<(Hash32, u16)>,
) -> bool {
    exists|j2: int, k: int, j3: int|
        0 <= j2 < s.transitions@.len() && 0 <= k < s.transitions@[j2].0@.inputs.len() && 0 <= j3
            < s.transitions@.len() && #[trigger] blocked_at(s, dropped, l, j2, k, j3)
}

/// Whether a transition/anchor pair occurs among the first `bound` store
/// entries.
pub open spec fn drawn_from(s: Stash, t: TransitionV, a: Anchor, bound: int) -> bool {
    exists|w: int|
        0 <= w < bound && (#[trigger] s.transitions@[w]).0@ == t && s.transitions@[w].1 == a
}

proof fn lemma_drawn_mono(s: Stash, t: TransitionV, a: Anchor, b1: int, b2: int)
    requires
        drawn_from(s, t, a, b1),
        b1 <= b2,
    ensures
        drawn_from(s, t, a, b2),
{
    let w = choose|w: int|
        0 <= w < b1 && (#[trigger] s.transitions@[w]).0@ == t && s.transitions@[w].1 == a;
    assert(0 <= w < b2 && s.transitions@[w].0@ == t && s.transitions@[w].1 == a);
}

/// Whether a reverse index entry names one of the listed owned rights.
pub open spec fn listed(e: (Hash32, Hash32, u16), l: Seq<(Hash32, u16)>) -> bool {
    exists|i: int| 0 <= i < l.len() && l[i] == (e.1, e.2)
}

fn listed_exec(e: &(Hash32, Hash32, u16), l: &Vec<(Hash32, u16)>) -> (r: bool)
    ensures
        r == listed(*e, l@),
{
    let mut i: usize = 0;
    while i < l.len()
        invariant
            i <= l@.len(),
            forall|j: int| 0 <= j < i ==> l@[j] != (e.1, e.2),
        decreases l@.len() - i,
    {
        if hash_eq(&l[i].0, &e.1) && l[i].1 == e.2 {
            proof {
                assert(l@[i as int] == (e.1, e.2));
            }
            return true;
        }
        i = i + 1;
    }
    false
}

impl Stash {
    /// Dispatches one stash request to the owning operation and shapes the
    /// reply.  Each arm restates its handler's contract, so the dispatcher
    /// owes exactly what the operations owe.
    pub fn stash_process(&mut self, req: &crate::rpc::Request) -> (r: Reply)
        requires
            stash_wf(*old(self)),
        ensures
            stash_wf(*final(self)),
            match req {
                crate::rpc::Request::AddSchema(sch) => {
                    &&& ((r is Success) <==> !(exists|i: int|
                        0 <= i < old(self).schemata@.len() && spec_schema_id(
                            (#[trigger] old(self).schemata@[i])@,
                        ) == spec_schema_id(sch@) && old(self).schemata@[i]@ != sch@))
                    &&& (!(r is Success) ==> *final(self) == *old(self) && r == Reply::Failure(
                        FailureReason::SchemaMismatch,
                    ))
                    &&& ((r is Success) ==> stash_has_schema(*final(self), sch@))
                    &&& (stash_has_schema(*old(self), sch@) ==> *final(self) == *old(self))
                    &&& final(self).geneses@ == old(self).geneses@
                    &&& final(self).transitions@ == old(self).transitions@
                    &&& final(self).reverse_index@ == old(self).reverse_index@
                },
                crate::rpc::Request::ListSchemata => *final(self) == *old(self) && (r
                    matches Reply::SchemaIds(ids) && ids@.len() == old(self).schemata@.len()
                    && (forall|i: int| 0 <= i < ids@.len() ==> ids@[i] == spec_schema_id(
                    (#[trigger] old(self).schemata@[i])@,
                ))),
                crate::rpc::Request::ReadSchema(id) => *final(self) == *old(self) && (match r {
                    Reply::SchemaEntry(s) => spec_schema_id(s@) == id && stash_has_schema(
                        *old(self),
                        s@,
                    ),
                    Reply::Failure(f) => f == FailureReason::UnknownSchema && (forall|i: int|
                        0 <= i < old(self).schemata@.len() ==> spec_schema_id(
                            (#[trigger] old(self).schemata@[i])@,
                        ) != id),
                    _ => false,
                }),
                crate::rpc::Request::AddGenesis(g) => {
                    &&& ((r is Success) <==> !(exists|i: int|
                        0 <= i < old(self).geneses@.len() && spec_contract_id(
                            (#[trigger] old(self).geneses@[i])@,
                        ) == spec_contract_id(g@) && old(self).geneses@[i]@ != g@))
                    &&& (!(r is Success) ==> *final(self) == *old(self) && r == Reply::Failure(
                        FailureReason::GenesisMismatch,
                    ))
                    &&& ((r is Success) ==> stash_has_genesis(*final(self), g@))
                    &&& (stash_has_genesis(*old(self), g@) ==> *final(self) == *old(self))
                    &&& final(self).schemata@ == old(self).schemata@
                    &&& final(self).transitions@ == old(self).transitions@
                    &&& final(self).reverse_index@ == old(self).reverse_index@
                },
                crate::rpc::Request::ListGeneses => *final(self) == *old(self) && (r
                    matches Reply::ContractIds(ids) && ids@.len() == old(self).geneses@.len()
                    && (forall|i: int| 0 <= i < ids@.len() ==> ids@[i] == spec_contract_id(
                    (#[trigger] old(self).geneses@[i])@,
                ))),
                crate::rpc::Request::ReadGenesis(id) => *final(self) == *old(self) && (match r {
                    Reply::GenesisEntry(g) => spec_contract_id(g@) == id && stash_has_genesis(
                        *old(self),
                        g@,
                    ),
                    Reply::Failure(f) => f == FailureReason::UnknownContract && (forall|i: int|
                        0 <= i < old(self).geneses@.len() ==> spec_contract_id(
                            (#[trigger] old(self).geneses@[i])@,
                        ) != id),
                    _ => false,
                }),
                crate::rpc::Request::ReadTransitions(ids) => *final(self) == *old(self) && (
                match r {
                    Reply::Transitions(v) => {
                        &&& v@.len() == ids@.len()
                        &&& forall|i: int| 0 <= i < v@.len() ==> spec_node_id(
                            (#[trigger] v@[i]).0@,
                        ) == ids@[i] && stash_has_transition(*old(self), v@[i].0@)
                    },
                    Reply::Failure(f) => f == FailureReason::UnknownNode,
                    _ => false,
                }) && ((r is Failure) <==> (exists|i: int|
                    0 <= i < ids@.len() && #[trigger] id_missing(*old(self), ids@, i))),
                crate::rpc::Request::Consign(cr) => *final(self) == *old(self) && (match r {
                    Reply::Transfer(c) => spec_genesis_for(*old(self), cr.contract_id)
                        matches Some(g) && c@ == spec_assembled(
                        *old(self),
                        g,
                        cr.transition@,
                        cr.outpoints@,
                        cr.psbt@,
                    ) && spec_consignment_valid(c@, schemas_view(old(self).schemata@)),
                    Reply::Failure(f) => {
                        ||| (f == FailureReason::UnknownContract && spec_genesis_for(
                            *old(self),
                            cr.contract_id,
                        ) is None)
                        ||| (f == FailureReason::InvalidConsignment && (spec_genesis_for(
                            *old(self),
                            cr.contract_id,
                        ) matches Some(g) && !spec_consignment_valid(
                            spec_assembled(
                                *old(self),
                                g,
                                cr.transition@,
                                cr.outpoints@,
                                cr.psbt@,
                            ),
                            schemas_view(old(self).schemata@),
                        )))
                    },
                    _ => false,
                }),
                crate::rpc::Request::Validate(c) => *final(self) == *old(self) && (r
                    matches Reply::Validation(vs) && vs.valid == spec_consignment_valid(
                    c@,
                    schemas_view(old(self).schemata@),
                ) && vs.failures@ == crate::validation::spec_validation_failures(
                    c@,
                    schemas_view(old(self).schemata@),
                )),
                crate::rpc::Request::Merge(m) => {
                    &&& final(self).schemata@ == old(self).schemata@
                    &&& (!(r is Success) ==> *final(self) == *old(self) && r is Failure)
                    &&& (!spec_consignment_valid(
                        m.consignment@,
                        schemas_view(old(self).schemata@),
                    ) ==> r == Reply::Failure(FailureReason::InvalidConsignment))
                    &&& ((r is Success) ==> spec_consignment_valid(
                        m.consignment@,
                        schemas_view(old(self).schemata@),
                    ))
                    &&& ((r is Success) ==> stash_contains_bundle(*final(self), m.consignment@))
                    &&& ((stash_contains_bundle(*old(self), m.consignment@) && r is Success)
                        ==> *final(self) == *old(self))
                    &&& ((spec_consignment_valid(
                        m.consignment@,
                        schemas_view(old(self).schemata@),
                    ) && genesis_compatible(*old(self), m.consignment@.genesis)
                        && store_matches_bundle(*old(self), m.consignment@)
                        && bundle_consistent(m.consignment@)) ==> r is Success)
                    &&& ((r is Success) ==> old(self).reverse_index@.is_prefix_of(
                        final(self).reverse_index@,
                    ))
                },
                crate::rpc::Request::Forget(list) => {
                    &&& final(self).schemata@ == old(self).schemata@
                    &&& final(self).geneses@ == old(self).geneses@
                    &&& (!(r is Success) ==> *final(self) == *old(self) && r == Reply::Failure(
                        FailureReason::DescendantsPresent,
                    ))
                    &&& ((r is Success) <==> !forget_blocked(
                        *old(self),
                        spec_drop_entries(old(self).reverse_index@, list@, 0),
                        list@,
                    ))
                    &&& ((r is Success) ==> final(self).reverse_index@ == spec_drop_entries(
                        old(self).reverse_index@,
                        list@,
                        0,
                    ))
                    &&& ((r is Success) ==> trans_view(final(self).transitions@)
                        == spec_kept_transitions(
                        *old(self),
                        spec_drop_entries(old(self).reverse_index@, list@, 0),
                        list@,
                        old(self).transitions@.len() as int,
                    ))
                },
            },
    {
        match req {
            crate::rpc::Request::AddSchema(sch) => self.add_schema(sch),
            crate::rpc::Request::ListSchemata => Reply::SchemaIds(self.list_schemata()),
            crate::rpc::Request::ReadSchema(id) => self.read_schema(id),
            crate::rpc::Request::AddGenesis(g) => self.add_genesis(g),
            crate::rpc::Request::ListGeneses => Reply::ContractIds(self.list_geneses()),
            crate::rpc::Request::ReadGenesis(id) => self.read_genesis(id),
            crate::rpc::Request::ReadTransitions(ids) => self.read_transitions(ids),
            crate::rpc::Request::Consign(cr) => {
                match self.consign(cr) {
                    Ok(c) => Reply::Transfer(c),
                    Err(f) => Reply::Failure(f),
                }
            },
            crate::rpc::Request::Validate(c) => {
                let vs = crate::validation::validate(c, &self.schemata);
                Reply::Validation(vs)
            },
            crate::rpc::Request::Merge(m) => self.merge(&m.consignment),
            crate::rpc::Request::Forget(list) => self.forget(list),
        }
    }
}


/// Whether an id occurs in a sequence of ids.
pub open spec fn id_in(s: Seq<Hash32>, id: Hash32) -> bool {
    exists|q: int| 0 <= q < s.len() && (#[trigger] s[q]) == id
}

/// The node ids a transition consumes.
pub open spec fn input_id_seq(t: TransitionV) -> Seq<Hash32> {
    t.inputs.map_values(|inp: TransitionInput| inp.prev_node)
}

/// The working set of needed ancestor ids once the store has been swept
/// backwards down to index `j`: the new transition's inputs, extended by
/// the inputs of every marked ancestor at or above `j`.
pub open spec fn spec_needed(s: Stash, init: Seq<Hash32>, j: int) -> Seq<Hash32>
    decreases s.transitions@.len() - j,
{
    if j < 0 || j >= s.transitions@.len() {
        init
    } else {
        let prev = spec_needed(s, init, j + 1);
        if id_in(prev, spec_node_id(s.transitions@[j].0@)) {
            prev + input_id_seq(s.transitions@[j].0@)
        } else {
            prev
        }
    }
}

/// Whether the store entry at `j` belongs to the assembled ancestry.
pub open spec fn spec_marked(s: Stash, init: Seq<Hash32>, j: int) -> bool {
    id_in(spec_needed(s, init, j + 1), spec_node_id(s.transitions@[j].0@))
}

/// The marked ancestors among the first `j` store entries, in store order
/// (the order `merge` appended them in: parents before children).
pub open spec fn spec_selected(s: Stash, init: Seq<Hash32>, j: int) -> Seq<(Anchor, TransitionV)>
    decreases j,
{
    if j <= 0 {
        Seq::empty()
    } else {
        spec_selected(s, init, j - 1) + (if spec_marked(s, init, j - 1) {
            seq![(s.transitions@[j - 1].1, s.transitions@[j - 1].0@)]
        } else {
            Seq::empty()
        })
    }
}

/// The anchor of the new transition: the anchoring transaction is derived
/// from the PSBT, and the commitment binds the node id to its first output.
pub open spec fn spec_new_anchor(psbt: Seq<u8>, t: TransitionV) -> Anchor {
    Anchor {
        txid: crate::ids::spec_id_of(psbt),
        output_no: 0,
        commitment: crate::validation::spec_anchor_commitment(
            crate::ids::spec_id_of(psbt),
            0,
            spec_node_id(t),
        ),
    }
}

/// The consignment `consign` assembles for a request.
pub open spec fn spec_assembled(
    s: Stash,
    g: GenesisV,
    t: TransitionV,
    outs: Seq<Hash32>,
    psbt: Seq<u8>,
) -> ConsignmentV {
    ConsignmentV {
        genesis: g,
        state_transitions: spec_selected(s, input_id_seq(t), s.transitions@.len() as int)
            + seq![(spec_new_anchor(psbt, t), t)],
        endpoints: outs.map_values(|oh: Hash32| (spec_node_id(t), oh)),
    }
}

/// The first stored genesis under a contract id, scanning from `from`.
pub open spec fn spec_genesis_from(id: Hash32, gs: Seq<Genesis>, from: int) -> Option<GenesisV>
    decreases gs.len() - from,
{
    if from < 0 || from >= gs.len() {
        None
    } else if spec_contract_id(gs[from]@) == id {
        Some(gs[from]@)
    } else {
        spec_genesis_from(id, gs, from + 1)
    }
}

/// The stored genesis of a contract, if any.
pub open spec fn spec_genesis_for(s: Stash, id: Hash32) -> Option<GenesisV> {
    spec_genesis_from(id, s.geneses@, 0)
}

proof fn lemma_genesis_from_sound(gs: Seq<Genesis>, id: Hash32, from: int)
    requires
        0 <= from,
    ensures
        spec_genesis_from(id, gs, from) matches Some(g) ==> exists|w: int|
            from <= w < gs.len() && (#[trigger] gs[w])@ == g && spec_contract_id(g) == id,
        spec_genesis_from(id, gs, from) is None ==> forall|w: int|
            from <= w < gs.len() ==> spec_contract_id((#[trigger] gs[w])@) != id,
    decreases gs.len() - from,
{
    if 0 <= from < gs.len() {
        lemma_genesis_from_sound(gs, id, from + 1);
    }
}

} // verus!
