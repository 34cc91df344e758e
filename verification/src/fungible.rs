//! The fungible asset runtime: issuance, transfer, acceptance, forgetting.
//!
//! Requests are processed in up to two phases.  `rpc_process` decides either
//! a final reply or a stash request together with a pending continuation;
//! the caller performs the stash round trip and hands the reply to
//! `rpc_finish`, which checks the reply shape and completes the work.  A
//! reply of the wrong shape for the pending request is a protocol error
//! recovered as an `UnexpectedReply` failure, never a crash.

use vstd::prelude::*;
use crate::ids::Hash32;
use crate::data::{Assignment, OutPoint, OutpointReveal, Seal, StateData, TransitionInput};
use crate::entities::{
    Consignment, ConsignmentV, Genesis, GenesisV, Schema, Transition, contract_id_of,
    node_id_of, spec_contract_id, spec_node_id,
};
use crate::cache::{Allocation, Asset, AssetV, Cache, allocs_at, cache_asset};
use crate::validation::{
    RIGHT_ASSETS, TRANSITION_TRANSFER, spec_outpoint_hash, spec_seal_hash, spec_state_commitment,
    outpoint_hash_of, seal_hash_of, state_commitment_of, sum_produced,
};
use crate::rpc::{ConsignRequest, FailureReason, MergeRequest, Reply, Request};
use crate::DataFormat;

verus! {

pub const RIGHT_INFLATION: u16 = 2;

pub const RIGHT_RENOMINATION: u16 = 3;

pub const RIGHT_EPOCH: u16 = 4;

/// The built-in schema for fungible assets: one transfer transition type,
/// four owned-right types.
pub fn fungible_schema() -> (r: Schema)
    ensures
        r@.transition_types == seq![TRANSITION_TRANSFER],
        r@.owned_right_types == seq![RIGHT_ASSETS, RIGHT_INFLATION, RIGHT_RENOMINATION,
            RIGHT_EPOCH],
{
    let mut tt: Vec<u16> = Vec::new();
    tt.push(TRANSITION_TRANSFER);
    let mut ort: Vec<u16> = Vec::new();
    ort.push(RIGHT_ASSETS);
    ort.push(RIGHT_INFLATION);
    ort.push(RIGHT_RENOMINATION);
    ort.push(RIGHT_EPOCH);
    proof {
        assert(tt@ =~= seq![TRANSITION_TRANSFER]);
        assert(ort@ =~= seq![RIGHT_ASSETS, RIGHT_INFLATION, RIGHT_RENOMINATION, RIGHT_EPOCH]);
    }
    Schema { transition_types: tt, owned_right_types: ort }
}

/// An amount bound to a revealed seal.
#[derive(Clone, Copy, PartialEq, Eq, Structural, Debug)]
pub struct SealCoins {
    pub outpoint: OutPoint,
    pub blinding: u64,
    /// Amount in minor units of the asset's precision.
    pub coins: u64,
}

/// An amount bound to a blinded seal of the counterparty.
#[derive(Clone, Copy, PartialEq, Eq, Structural, Debug)]
pub struct ConsealCoins {
    pub seal_confidential: Hash32,
    pub blinding: u64,
    pub coins: u64,
}

/// An issuance request.
#[derive(Clone, Debug)]
pub struct Issue {
    pub ticker: Vec<u8>,
    pub name: Vec<u8>,
    /// Free-form description; empty when none was given.
    pub description: Vec<u8>,
    pub precision: u8,
    pub network: u32,
    pub allocation: Vec<SealCoins>,
    pub inflation: Vec<SealCoins>,
    pub renomination: Option<SealCoins>,
    pub epoch: Option<SealCoins>,
}

/// A transfer request.
#[derive(Clone, Debug)]
pub struct TransferApi {
    pub contract_id: Hash32,
    pub inputs: Vec<OutPoint>,
    pub ours: Vec<SealCoins>,
    pub theirs: Vec<ConsealCoins>,
    pub psbt: Vec<u8>,
}

/// An acceptance request.
#[derive(Clone, Debug)]
pub struct AcceptApi {
    pub consignment: Consignment,
    pub reveal_outpoints: Vec<OutpointReveal>,
}

/// Requests understood by the fungible service.
#[derive(Debug)]
pub enum FungibleRequest {
    Issue(Issue),
    Transfer(TransferApi),
    Validate(Consignment),
    Accept(AcceptApi),
    Forget(OutPoint),
    ImportAsset(Genesis),
    ExportAsset(Hash32),
    Sync(DataFormat),
    Assets(OutPoint),
    Allocations(Hash32),
}

/// The continuation kept while a stash round trip is in flight.
#[derive(Debug)]
pub enum Pending {
    RegisterSchema,
    IssueAsset(Asset),
    ImportAsset(Asset),
    ExportAsset,
    Transfer,
    Validate,
    Accept(AcceptApi),
    Forget,
}

/// What processing one request decided: a final reply, or a stash request
/// with the continuation to resume on its reply.
#[derive(Debug)]
pub enum Begun {
    Done(Reply),
    Stash(Request, Pending),
}

/// The assignment an allocation request turns into.
pub open spec fn spec_alloc_assignment(sc: SealCoins, rt: u16) -> Assignment {
    Assignment {
        right_type: rt,
        seal: Seal::Revealed(
            OutpointReveal {
                txid: sc.outpoint.txid,
                vout: sc.outpoint.vout,
                blinding: sc.blinding,
            },
        ),
        state: StateData::Revealed { amount: sc.coins, blinding: sc.blinding },
    }
}

fn alloc_assignment(sc: &SealCoins, rt: u16) -> (r: Assignment)
    ensures
        r == spec_alloc_assignment(*sc, rt),
{
    Assignment {
        right_type: rt,
        seal: Seal::Revealed(
            OutpointReveal {
                txid: sc.outpoint.txid,
                vout: sc.outpoint.vout,
                blinding: sc.blinding,
            },
        ),
        state: StateData::Revealed { amount: sc.coins, blinding: sc.blinding },
    }
}

/// The genesis assignments of an issuance: the asset allocations, then the
/// inflation rights, then renomination and epoch rights if present.
pub open spec fn spec_issue_assignments(i: Issue) -> Seq<Assignment> {
    i.allocation@.map_values(|sc: SealCoins| spec_alloc_assignment(sc, RIGHT_ASSETS))
        + spec_folded_inflation(i.inflation@, i.inflation@.len() as int).map_values(
        |e: (OutPoint, u64, int)| spec_inflation_assignment(e),
    ) + (match i.renomination {
        Some(sc) => seq![spec_alloc_assignment(sc, RIGHT_RENOMINATION)],
        None => Seq::empty(),
    }) + (match i.epoch {
        Some(sc) => seq![spec_alloc_assignment(sc, RIGHT_EPOCH)],
        None => Seq::empty(),
    })
}

/// The total supply an issuance asks for, as an unbounded sum.
pub open spec fn spec_issue_supply(i: Issue, k: int) -> int
    decreases k,
{
    if k <= 0 {
        0
    } else {
        spec_issue_supply(i, k - 1) + i.allocation@[k - 1].coins
    }
}

/// One folding step: an inflation entry is summed into the first folded
/// entry with the same outpoint, or appended as a new one.  The blinding of
/// the first occurrence is kept; amounts are unbounded here.
pub open spec fn spec_fold_add(acc: Seq<(OutPoint, u64, int)>, sc: SealCoins) -> Seq<
    (OutPoint, u64, int),
>
    decreases acc.len(),
{
    if acc.len() == 0 {
        seq![(sc.outpoint, sc.blinding, sc.coins as int)]
    } else if acc[0].0 == sc.outpoint {
        seq![(acc[0].0, acc[0].1, acc[0].2 + sc.coins)] + acc.drop_first()
    } else {
        seq![acc[0]] + spec_fold_add(acc.drop_first(), sc)
    }
}

/// The first `k` inflation entries folded by outpoint, in first-occurrence
/// order: only a single secondary-issuance right may exist per outpoint, so
/// entries naming one outpoint are folded into one with the summed amount.
pub open spec fn spec_folded_inflation(s: Seq<SealCoins>, k: int) -> Seq<(OutPoint, u64, int)>
    decreases k,
{
    if k <= 0 {
        Seq::empty()
    } else {
        spec_fold_add(spec_folded_inflation(s, k - 1), s[k - 1])
    }
}

/// Whether some folded inflation amount exceeds the 64-bit amount space.
pub open spec fn spec_inflation_overflow(s: Seq<SealCoins>) -> bool {
    exists|j: int|
        0 <= j < spec_folded_inflation(s, s.len() as int).len() && (
        #[trigger] spec_folded_inflation(s, s.len() as int)[j]).2 > u64::MAX
}

/// The assignment a folded inflation entry turns into.
pub open spec fn spec_inflation_assignment(e: (OutPoint, u64, int)) -> Assignment {
    Assignment {
        right_type: RIGHT_INFLATION,
        seal: Seal::Revealed(OutpointReveal { txid: e.0.txid, vout: e.0.vout, blinding: e.1 }),
        state: StateData::Revealed { amount: e.2 as u64, blinding: e.1 },
    }
}

/// Folding at the first index with a matching outpoint updates exactly that
/// entry.
proof fn lemma_fold_add_found(acc: Seq<(OutPoint, u64, int)>, sc: SealCoins, j: int)
    requires
        0 <= j < acc.len(),
        acc[j].0 == sc.outpoint,
        forall|p: int| 0 <= p < j ==> (#[trigger] acc[p]).0 != sc.outpoint,
    ensures
        spec_fold_add(acc, sc) == acc.update(j, (acc[j].0, acc[j].1, acc[j].2 + sc.coins)),
    decreases acc.len(),
{
    if j == 0 {
        assert(spec_fold_add(acc, sc) =~= acc.update(
            0,
            (acc[0].0, acc[0].1, acc[0].2 + sc.coins),
        ));
    } else {
        assert(acc[0].0 != sc.outpoint);
        let tl = acc.drop_first();
        assert(tl[j - 1].0 == sc.outpoint);
        assert(forall|p: int| 0 <= p < j - 1 ==> (#[trigger] tl[p]).0 != sc.outpoint);
        lemma_fold_add_found(tl, sc, j - 1);
        assert(spec_fold_add(acc, sc) =~= acc.update(
            j,
            (acc[j].0, acc[j].1, acc[j].2 + sc.coins),
        ));
    }
}

/// Folding an outpoint seen nowhere appends a fresh entry.
proof fn lemma_fold_add_absent(acc: Seq<(OutPoint, u64, int)>, sc: SealCoins)
    requires
        forall|p: int| 0 <= p < acc.len() ==> (#[trigger] acc[p]).0 != sc.outpoint,
    ensures
        spec_fold_add(acc, sc) == acc.push((sc.outpoint, sc.blinding, sc.coins as int)),
    decreases acc.len(),
{
    if acc.len() == 0 {
        assert(spec_fold_add(acc, sc) =~= acc.push((sc.outpoint, sc.blinding, sc.coins as int)));
    } else {
        lemma_fold_add_absent(acc.drop_first(), sc);
        assert(spec_fold_add(acc, sc) =~= acc.push((sc.outpoint, sc.blinding, sc.coins as int)));
    }
}

/// Folding keeps every earlier entry's outpoint and blinding, never shrinks
/// an amount, and never drops an entry.
proof fn lemma_fold_add_frame(acc: Seq<(OutPoint, u64, int)>, sc: SealCoins)
    ensures
        spec_fold_add(acc, sc).len() >= acc.len(),
        forall|j: int| 0 <= j < acc.len() ==> {
            &&& (#[trigger] spec_fold_add(acc, sc)[j]).0 == acc[j].0
            &&& spec_fold_add(acc, sc)[j].1 == acc[j].1
            &&& spec_fold_add(acc, sc)[j].2 >= acc[j].2
        },
    decreases acc.len(),
{
    if acc.len() == 0 {
    } else if acc[0].0 == sc.outpoint {
        assert(sc.coins >= 0);
    } else {
        lemma_fold_add_frame(acc.drop_first(), sc);
        assert forall|j: int| 0 <= j < acc.len() implies {
            &&& (#[trigger] spec_fold_add(acc, sc)[j]).0 == acc[j].0
            &&& spec_fold_add(acc, sc)[j].1 == acc[j].1
            &&& spec_fold_add(acc, sc)[j].2 >= acc[j].2
        } by {
            if j > 0 {
                assert(spec_fold_add(acc, sc)[j] == spec_fold_add(acc.drop_first(), sc)[j - 1]);
                assert(acc.drop_first()[j - 1] == acc[j]);
            }
        }
    }
}

/// An entry's amount only grows as more inflation entries fold in.
proof fn lemma_folded_entry_mono(s: Seq<SealCoins>, k1: int, k2: int, j: int)
    requires
        0 <= k1 <= k2,
        0 <= j < spec_folded_inflation(s, k1).len(),
    ensures
        j < spec_folded_inflation(s, k2).len(),
        spec_folded_inflation(s, k2)[j].2 >= spec_folded_inflation(s, k1)[j].2,
    decreases k2 - k1,
{
    if k1 < k2 {
        lemma_folded_entry_mono(s, k1, k2 - 1, j);
        lemma_fold_add_frame(spec_folded_inflation(s, k2 - 1), s[k2 - 1]);
    }
}

/// Sums agree on any prefix where the sequences agree.
proof fn lemma_sum_produced_agree(s1: Seq<Assignment>, s2: Seq<Assignment>, rt: u16, k: int)
    requires
        k <= s1.len(),
        k <= s2.len(),
        forall|j: int| 0 <= j < k ==> s1[j] == (#[trigger] s2[j]),
    ensures
        sum_produced(s1, rt, k) == sum_produced(s2, rt, k),
    decreases k,
{
    if k > 0 {
        lemma_sum_produced_agree(s1, s2, rt, k - 1);
    }
}

/// The sum over a concatenation splits into the sums of the parts.
proof fn lemma_sum_produced_concat(a: Seq<Assignment>, b: Seq<Assignment>, rt: u16)
    ensures
        sum_produced(a + b, rt, (a + b).len() as int) == sum_produced(a, rt, a.len() as int)
            + sum_produced(b, rt, b.len() as int),
    decreases b.len(),
{
    let ab = a + b;
    if b.len() == 0 {
        assert(ab =~= a);
        lemma_sum_produced_agree(ab, a, rt, a.len() as int);
    } else {
        let b2 = b.drop_last();
        let m: int = (a.len() + b2.len()) as int;
        assert(a + b2 =~= ab.subrange(0, m));
        lemma_sum_produced_concat(a, b2, rt);
        lemma_sum_produced_agree(a + b2, ab, rt, m);
        lemma_sum_produced_agree(b2, b, rt, b2.len() as int);
        assert(ab[m] == b[b.len() - 1]);
        assert(sum_produced(ab, rt, m + 1) == sum_produced(ab, rt, m) + (
        if ab[m].right_type == rt {
            crate::validation::state_amount(ab[m].state)
        } else {
            0
        }));
        assert(sum_produced(b, rt, b.len() as int) == sum_produced(b, rt, b.len() - 1) + (
        if b[b.len() - 1].right_type == rt {
            crate::validation::state_amount(b[b.len() - 1].state)
        } else {
            0
        }));
    }
}

/// The asset-right sum over the allocation assignments is the issue supply.
proof fn lemma_alloc_assignments_sum(s: Seq<SealCoins>, i: Issue, k: int)
    requires
        s == i.allocation@,
        0 <= k <= s.len(),
    ensures
        sum_produced(
            s.map_values(|sc: SealCoins| spec_alloc_assignment(sc, RIGHT_ASSETS)),
            RIGHT_ASSETS,
            k,
        ) == spec_issue_supply(i, k),
    decreases k,
{
    if k > 0 {
        lemma_alloc_assignments_sum(s, i, k - 1);
    }
}

/// The genesis assignments of an issuance carry exactly the requested
/// supply under the asset right type.
pub proof fn lemma_issue_assets_sum(i: Issue)
    ensures
        sum_produced(
            spec_issue_assignments(i),
            RIGHT_ASSETS,
            spec_issue_assignments(i).len() as int,
        ) == spec_issue_supply(i, i.allocation@.len() as int),
{
    let pa = i.allocation@.map_values(|sc: SealCoins| spec_alloc_assignment(sc, RIGHT_ASSETS));
    let pb = spec_folded_inflation(i.inflation@, i.inflation@.len() as int).map_values(
        |e: (OutPoint, u64, int)| spec_inflation_assignment(e),
    );
    let pc: Seq<Assignment> = match i.renomination {
        Some(sc) => seq![spec_alloc_assignment(sc, RIGHT_RENOMINATION)],
        None => Seq::empty(),
    };
    let pd: Seq<Assignment> = match i.epoch {
        Some(sc) => seq![spec_alloc_assignment(sc, RIGHT_EPOCH)],
        None => Seq::empty(),
    };
    assert(spec_issue_assignments(i) =~= pa + pb + pc + pd);
    assert(pa + pb + pc + pd =~= (pa + pb + pc) + pd);
    assert(pa + pb + pc =~= (pa + pb) + pc);
    lemma_sum_produced_concat(pa + pb + pc, pd, RIGHT_ASSETS);
    lemma_sum_produced_concat(pa + pb, pc, RIGHT_ASSETS);
    lemma_sum_produced_concat(pa, pb, RIGHT_ASSETS);
    crate::validation::lemma_sum_produced_absent(pb, RIGHT_ASSETS, pb.len() as int);
    crate::validation::lemma_sum_produced_absent(pc, RIGHT_ASSETS, pc.len() as int);
    crate::validation::lemma_sum_produced_absent(pd, RIGHT_ASSETS, pd.len() as int);
    lemma_alloc_assignments_sum(i.allocation@, i, i.allocation@.len() as int);
}

/// Sums only grow with the prefix length: every contribution is nonnegative.
pub proof fn lemma_sum_produced_mono(a: Seq<Assignment>, rt: u16, k1: int, k2: int)
    requires
        0 <= k1 <= k2,
    ensures
        sum_produced(a, rt, k1) <= sum_produced(a, rt, k2),
    decreases k2 - k1,
{
    if k1 < k2 {
        lemma_sum_produced_mono(a, rt, k1, k2 - 1);
        lemma_state_amount_nonneg(a, rt, k2);
    }
}

proof fn lemma_state_amount_nonneg(a: Seq<Assignment>, rt: u16, k: int)
    requires
        k >= 1,
    ensures
        sum_produced(a, rt, k) >= sum_produced(a, rt, k - 1),
{
}

/// Builds the genesis of a new fungible asset.  Inflation entries naming
/// one outpoint are folded into a single right with the summed amount;
/// the build fails only when the requested supply or a folded inflation
/// amount does not fit the 64-bit amount space.
pub fn issue_genesis(i: &Issue) -> (r: Result<(Genesis, u64), FailureReason>)
    ensures
        match r {
            Ok((g, supply)) => {
                &&& g@.ticker == i.ticker@
                &&& g@.name == i.name@
                &&& g@.description == i.description@
                &&& g@.precision == i.precision
                &&& g@.network == i.network
                &&& g@.assignments == spec_issue_assignments(*i)
                &&& supply as int == spec_issue_supply(*i, i.allocation@.len() as int)
                &&& g@.schema_id == crate::entities::spec_schema_id(
                    crate::fungible::fungible_schema_model(),
                )
                &&& spec_issue_supply(*i, i.allocation@.len() as int) <= u64::MAX
                &&& !spec_inflation_overflow(i.inflation@)
            },
            Err(f) => {
                &&& f == FailureReason::AmountOverflow
                &&& (spec_issue_supply(*i, i.allocation@.len() as int) > u64::MAX
                    || spec_inflation_overflow(i.inflation@))
            },
        },
{
    let mut assignments: Vec<Assignment> = Vec::new();
    let mut supply: u64 = 0;
    let mut k: usize = 0;
    while k < i.allocation.len()
        invariant
            k <= i.allocation@.len(),
            assignments@ == i.allocation@.subrange(0, k as int).map_values(
                |sc: SealCoins| spec_alloc_assignment(sc, RIGHT_ASSETS),
            ),
            supply as int == spec_issue_supply(*i, k as int),
        decreases i.allocation@.len() - k,
    {
        let sc = &i.allocation[k];
        if supply > u64::MAX - sc.coins {
            proof {
                lemma_issue_supply_monotonic(*i, k as int + 1, i.allocation@.len() as int);
            }
            return Err(FailureReason::AmountOverflow);
        }
        supply = supply + sc.coins;
        assignments.push(alloc_assignment(sc, RIGHT_ASSETS));
        proof {
            assert(assignments@ =~= i.allocation@.subrange(0, k as int + 1).map_values(
                |sc: SealCoins| spec_alloc_assignment(sc, RIGHT_ASSETS),
            ));
        }
        k = k + 1;
    }
    // Fold the inflation entries by outpoint: only a single
    // secondary-issuance right may exist per outpoint.
    let ghost fs = i.inflation@;
    let mut folded: Vec<SealCoins> = Vec::new();
    let mut k2: usize = 0;
    while k2 < i.inflation.len()
        invariant
            fs == i.inflation@,
            k2 <= fs.len(),
            folded@.len() == spec_folded_inflation(fs, k2 as int).len(),
            forall|j: int| 0 <= j < folded@.len() ==> {
                &&& (#[trigger] folded@[j]).outpoint == spec_folded_inflation(
                    fs,
                    k2 as int,
                )[j].0
                &&& folded@[j].blinding == spec_folded_inflation(fs, k2 as int)[j].1
                &&& folded@[j].coins as int == spec_folded_inflation(fs, k2 as int)[j].2
            },
        decreases fs.len() - k2,
    {
        let sc = i.inflation[k2];
        let ghost acc = spec_folded_inflation(fs, k2 as int);
        let mut found = false;
        let mut fj: usize = 0;
        let mut q: usize = 0;
        while q < folded.len()
            invariant
                q <= folded@.len(),
                found ==> fj < folded@.len() && folded@[fj as int].outpoint == sc.outpoint && (
                forall|p: int| 0 <= p < fj ==> (#[trigger] folded@[p]).outpoint != sc.outpoint),
                !found ==> forall|p: int| 0 <= p < q ==> (#[trigger] folded@[p]).outpoint
                    != sc.outpoint,
            decreases folded@.len() - q,
        {
            let a = &folded[q].outpoint;
            if !found && a.txid.w0 == sc.outpoint.txid.w0 && a.txid.w1 == sc.outpoint.txid.w1
                && a.txid.w2 == sc.outpoint.txid.w2 && a.txid.w3 == sc.outpoint.txid.w3
                && a.vout == sc.outpoint.vout {
                proof {
                    assert(folded@[q as int].outpoint == sc.outpoint);
                }
                found = true;
                fj = q;
            }
            q = q + 1;
        }
        if found {
            let cur = folded[fj].coins;
            proof {
                assert(acc[fj as int].0 == sc.outpoint);
                assert forall|p: int| 0 <= p < fj implies (#[trigger] acc[p]).0
                    != sc.outpoint by {
                    assert(folded@[p].outpoint == acc[p].0);
                    assert(folded@[p].outpoint != sc.outpoint);
                }
                lemma_fold_add_found(acc, sc, fj as int);
            }
            if cur > u64::MAX - sc.coins {
                proof {
                    assert(spec_folded_inflation(fs, k2 as int + 1)[fj as int].2 > u64::MAX);
                    lemma_folded_entry_mono(fs, k2 as int + 1, fs.len() as int, fj as int);
                    assert(spec_inflation_overflow(fs));
                }
                return Err(FailureReason::AmountOverflow);
            }
            let entry = &mut folded[fj];
            entry.coins = cur + sc.coins;
            proof {
                assert forall|j: int| 0 <= j < folded@.len() implies {
                    &&& (#[trigger] folded@[j]).outpoint == spec_folded_inflation(
                        fs,
                        k2 as int + 1,
                    )[j].0
                    &&& folded@[j].blinding == spec_folded_inflation(fs, k2 as int + 1)[j].1
                    &&& folded@[j].coins as int == spec_folded_inflation(fs, k2 as int + 1)[j].2
                } by {
                    assert(spec_folded_inflation(fs, k2 as int + 1) == acc.update(
                        fj as int,
                        (acc[fj as int].0, acc[fj as int].1, acc[fj as int].2 + sc.coins),
                    ));
                }
            }
        } else {
            proof {
                assert forall|p: int| 0 <= p < acc.len() implies (#[trigger] acc[p]).0
                    != sc.outpoint by {
                    assert(folded@[p].outpoint == acc[p].0);
                    assert(folded@[p].outpoint != sc.outpoint);
                }
                lemma_fold_add_absent(acc, sc);
            }
            folded.push(sc);
        }
        k2 = k2 + 1;
    }
    let ghost foldedspec = spec_folded_inflation(fs, fs.len() as int);
    let ghost part1 = assignments@;
    let mut k3: usize = 0;
    while k3 < folded.len()
        invariant
            foldedspec == spec_folded_inflation(fs, fs.len() as int),
            folded@.len() == foldedspec.len(),
            forall|j: int| 0 <= j < folded@.len() ==> {
                &&& (#[trigger] folded@[j]).outpoint == foldedspec[j].0
                &&& folded@[j].blinding == foldedspec[j].1
                &&& folded@[j].coins as int == foldedspec[j].2
            },
            k3 <= folded@.len(),
            assignments@ == part1 + foldedspec.subrange(0, k3 as int).map_values(
                |e: (OutPoint, u64, int)| spec_inflation_assignment(e),
            ),
        decreases folded@.len() - k3,
    {
        let sc = &folded[k3];
        assignments.push(
            Assignment {
                right_type: RIGHT_INFLATION,
                seal: Seal::Revealed(
                    OutpointReveal {
                        txid: sc.outpoint.txid,
                        vout: sc.outpoint.vout,
                        blinding: sc.blinding,
                    },
                ),
                state: StateData::Revealed { amount: sc.coins, blinding: sc.blinding },
            },
        );
        proof {
            assert(spec_inflation_assignment(foldedspec[k3 as int])
                == assignments@.last());
            assert(assignments@ =~= part1 + foldedspec.subrange(0, k3 as int + 1).map_values(
                |e: (OutPoint, u64, int)| spec_inflation_assignment(e),
            ));
        }
        k3 = k3 + 1;
    }
    match &i.renomination {
        Some(sc) => {
            assignments.push(alloc_assignment(sc, RIGHT_RENOMINATION));
        },
        None => {},
    }
    match &i.epoch {
        Some(sc) => {
            assignments.push(alloc_assignment(sc, RIGHT_EPOCH));
        },
        None => {},
    }
    let schema = fungible_schema();
    let schema_id = crate::entities::schema_id_of(&schema);
    let g = Genesis {
        schema_id,
        network: i.network,
        ticker: crate::entities::copy_bytes(&i.ticker),
        name: crate::entities::copy_bytes(&i.name),
        description: crate::entities::copy_bytes(&i.description),
        precision: i.precision,
        assignments,
    };
    proof {
        assert(i.allocation@.subrange(0, i.allocation@.len() as int) =~= i.allocation@);
        assert(foldedspec.subrange(0, foldedspec.len() as int) =~= foldedspec);
        assert(g@.assignments =~= spec_issue_assignments(*i));
        assert forall|j: int|
            0 <= j < spec_folded_inflation(fs, fs.len() as int).len() implies !((
        #[trigger] spec_folded_inflation(fs, fs.len() as int)[j]).2 > u64::MAX) by {
            assert(folded@[j].coins as int == foldedspec[j].2);
        }
        assert(!spec_inflation_overflow(fs));
    }
    Ok((g, supply))
}

/// Model of the built-in schema, for specifications.
pub open spec fn fungible_schema_model() -> crate::entities::SchemaV {
    crate::entities::SchemaV {
        transition_types: seq![TRANSITION_TRANSFER],
        owned_right_types: seq![RIGHT_ASSETS, RIGHT_INFLATION, RIGHT_RENOMINATION, RIGHT_EPOCH],
    }
}

proof fn lemma_issue_supply_monotonic(i: Issue, k1: int, k2: int)
    requires
        0 <= k1 <= k2,
    ensures
        spec_issue_supply(i, k1) <= spec_issue_supply(i, k2),
    decreases k2 - k1,
{
    if k1 < k2 {
        lemma_issue_supply_monotonic(i, k1, k2 - 1);
    }
}

/// The allocation a genesis assignment yields: present exactly for asset
/// rights with revealed seal and state at a representable index.
pub open spec fn genesis_alloc(g: GenesisV, k: int) -> Option<Allocation> {
    if 0 <= k < g.assignments.len() && k < 0x10000 && g.assignments[k].right_type
        == RIGHT_ASSETS {
        match (g.assignments[k].seal, g.assignments[k].state) {
            (Seal::Revealed(rv), StateData::Revealed { amount, blinding }) => Some(
                Allocation {
                    outpoint: OutPoint { txid: rv.txid, vout: rv.vout },
                    node_id: spec_contract_id(g),
                    index: k as u16,
                    amount,
                    blinding,
                },
            ),
            _ => None,
        }
    } else {
        None
    }
}

/// The allocation of the k-th genesis assignment, if any, is recorded in
/// the asset.
pub open spec fn galloc_recorded(av: crate::cache::AssetV, g: GenesisV, k: int) -> bool {
    match genesis_alloc(g, k) {
        Some(al) => allocs_at(av, al.outpoint).contains(al),
        None => true,
    }
}

/// The allocation table a genesis projects to, built one assignment at a
/// time.
pub open spec fn spec_genesis_table(g: GenesisV, k: int) -> Seq<(OutPoint, Seq<Allocation>)>
    decreases k,
{
    if k <= 0 {
        Seq::empty()
    } else {
        let t = spec_genesis_table(g, k - 1);
        match genesis_alloc(g, k - 1) {
            Some(al) => crate::cache::spec_table_add(t, al.outpoint, al),
            None => t,
        }
    }
}

proof fn lemma_alloc_push_contains(s: Seq<Allocation>, x: Allocation, y: Allocation)
    requires
        s.contains(y),
    ensures
        s.push(x).contains(y),
{
    let w = choose|w: int| 0 <= w < s.len() && s[w] == y;
    assert(s.push(x)[w] == y);
}

/// Builds the fungible projection of a genesis: supply is the sum of the
/// revealed asset amounts, and every asset assignment with a revealed seal
/// becomes a known allocation of the contract.
pub fn asset_from_genesis(g: &Genesis) -> (r: Result<Asset, FailureReason>)
    ensures
        match r {
            Ok(a) => {
                &&& a.contract_id == spec_contract_id(g@)
                &&& a.ticker@ == g@.ticker
                &&& a.name@ == g@.name
                &&& a.precision == g@.precision
                &&& a.supply as int == sum_produced(
                    g@.assignments,
                    RIGHT_ASSETS,
                    g@.assignments.len() as int,
                )
                &&& forall|k: int| 0 <= k < g@.assignments.len() ==> #[trigger] galloc_recorded(
                    a@,
                    g@,
                    k,
                )
                &&& a@.known_allocations == spec_genesis_table(g@, g@.assignments.len() as int)
            },
            Err(f) => f == FailureReason::AmountOverflow,
        },
        (r is Err) <==> sum_produced(g@.assignments, RIGHT_ASSETS, g@.assignments.len() as int)
            > u64::MAX,
{
    let cid = contract_id_of(g);
    let mut supply: u64 = 0;
    let mut asset = Asset {
        contract_id: cid,
        ticker: crate::entities::copy_bytes(&g.ticker),
        name: crate::entities::copy_bytes(&g.name),
        precision: g.precision,
        supply: 0,
        known_allocations: Vec::new(),
    };
    let mut k: usize = 0;
    while k < g.assignments.len()
        invariant
            k <= g.assignments@.len(),
            supply as int == sum_produced(g@.assignments, RIGHT_ASSETS, k as int),
            asset.contract_id == cid,
            cid == spec_contract_id(g@),
            asset.ticker@ == g@.ticker,
            asset.name@ == g@.name,
            asset.precision == g@.precision,
            forall|k2: int| 0 <= k2 < k ==> #[trigger] galloc_recorded(asset@, g@, k2),
            asset@.known_allocations == spec_genesis_table(g@, k as int),
        decreases g.assignments@.len() - k,
    {
        let asg = &g.assignments[k];
        let ghost before = asset@;
        if asg.right_type == RIGHT_ASSETS {
            match asg.state {
                StateData::Revealed { amount, blinding } => {
                    if supply > u64::MAX - amount {
                        proof {
                            assert(sum_produced(g@.assignments, RIGHT_ASSETS, k as int + 1)
                                > u64::MAX);
                            lemma_sum_produced_mono(
                                g@.assignments,
                                RIGHT_ASSETS,
                                k as int + 1,
                                g@.assignments.len() as int,
                            );
                        }
                        return Err(FailureReason::AmountOverflow);
                    }
                    supply = supply + amount;
                    match asg.seal {
                        Seal::Revealed(rv) if k < 0x10000 => {
                            let iu: u16 = #[verifier::truncate] (k as u16);
                            let op = OutPoint { txid: rv.txid, vout: rv.vout };
                            let al = Allocation {
                                outpoint: op,
                                node_id: cid,
                                index: iu,
                                amount,
                                blinding,
                            };
                            asset.add_allocation(op, al);
                            proof {
                                assert(genesis_alloc(g@, k as int) == Some(al));
                                assert(asset@.known_allocations == spec_genesis_table(
                                    g@,
                                    k as int + 1,
                                ));
                                assert forall|k2: int| 0 <= k2 < k + 1 implies
                                    #[trigger] galloc_recorded(asset@, g@, k2) by {
                                    if k2 < k {
                                        assert(galloc_recorded(before, g@, k2));
                                        let ga = genesis_alloc(g@, k2);
                                        if ga is Some {
                                            let al2 = ga.unwrap();
                                            if al2.outpoint == op {
                                                lemma_alloc_push_contains(
                                                    allocs_at(before, op),
                                                    al,
                                                    al2,
                                                );
                                            } else {
                                                assert(allocs_at(asset@, al2.outpoint)
                                                    == allocs_at(before, al2.outpoint));
                                            }
                                        }
                                    } else {
                                        if (k as int) < 0x10000 {
                                            assert(genesis_alloc(g@, k as int) == Some(al));
                                            assert(allocs_at(asset@, op) == allocs_at(
                                                before,
                                                op,
                                            ).push(al));
                                            assert(allocs_at(asset@, op).last() == al);
                                        } else {
                                            assert(genesis_alloc(g@, k as int) is None);
                                        }
                                    }
                                }
                            }
                        },
                        _ => {
                            proof {
                                assert(genesis_alloc(g@, k as int) is None);
                            }
                        },
                    }
                },
                StateData::Confidential(_) => {
                    proof {
                        assert(genesis_alloc(g@, k as int) is None);
                    }
                },
            }
        } else {
            proof {
                assert(genesis_alloc(g@, k as int) is None);
            }
        }
        k = k + 1;
    }
    let ghost av0 = asset@;
    asset.supply = supply;
    proof {
        assert(asset@.known_allocations == av0.known_allocations);
        assert forall|k2: int| 0 <= k2 < g@.assignments.len() implies #[trigger] galloc_recorded(
            asset@,
            g@,
            k2,
        ) by {
            assert(galloc_recorded(av0, g@, k2));
            let ga = genesis_alloc(g@, k2);
            if ga is Some {
                let al2 = ga.unwrap();
                assert(allocs_at(asset@, al2.outpoint) == allocs_at(av0, al2.outpoint));
            }
        }
    }
    Ok(asset)
}

/// The first revealed outpoint, scanning from `from`, whose blinded hash
/// equals the given seal hash.
pub open spec fn spec_find_reveal(rs: Seq<OutpointReveal>, sh: Hash32, from: int) -> Option<
    OutpointReveal,
>
    decreases rs.len() - from,
{
    if from < 0 || from >= rs.len() {
        None
    } else if spec_outpoint_hash(rs[from]) == sh {
        Some(rs[from])
    } else {
        spec_find_reveal(rs, sh, from + 1)
    }
}

/// The allocation one consignment assignment yields under the revealed
/// outpoints: present exactly for asset rights with revealed state whose
/// seal hash matches a reveal, at a representable index.
pub open spec fn matched_alloc(
    cv: ConsignmentV,
    rvs: Seq<OutpointReveal>,
    i: int,
    k: int,
) -> Option<Allocation> {
    if 0 <= i < cv.state_transitions.len() && 0 <= k < cv.state_transitions[
        i
    ].1.assignments.len() && k < 0x10000 {
        let t = cv.state_transitions[i].1;
        if t.assignments[k].right_type == RIGHT_ASSETS {
            match t.assignments[k].state {
                StateData::Revealed { amount, blinding } => match spec_find_reveal(
                    rvs,
                    spec_seal_hash(t.assignments[k].seal),
                    0,
                ) {
                    Some(rv) => Some(
                        Allocation {
                            outpoint: OutPoint { txid: rv.txid, vout: rv.vout },
                            node_id: spec_node_id(t),
                            index: k as u16,
                            amount,
                            blinding,
                        },
                    ),
                    None => None,
                },
                StateData::Confidential(_) => None,
            }
        } else {
            None
        }
    } else {
        None
    }
}

/// The matched allocation of one assignment, if any, is known to the asset.
pub open spec fn accept_recorded(
    av: AssetV,
    cv: ConsignmentV,
    rvs: Seq<OutpointReveal>,
    i: int,
    k: int,
) -> bool {
    match matched_alloc(cv, rvs, i, k) {
        Some(al) => allocs_at(av, al.outpoint).contains(al),
        None => true,
    }
}

/// One acceptance step: a matched allocation is recorded unless already
/// known; anything unmatched changes nothing.
pub open spec fn spec_accept_add(
    t: Seq<(OutPoint, Seq<Allocation>)>,
    cv: ConsignmentV,
    rvs: Seq<OutpointReveal>,
    i: int,
    k: int,
) -> Seq<(OutPoint, Seq<Allocation>)> {
    match matched_alloc(cv, rvs, i, k) {
        Some(al) => if crate::cache::allocs_at_from(t, al.outpoint, 0).contains(al) {
            t
        } else {
            crate::cache::spec_table_add(t, al.outpoint, al)
        },
        None => t,
    }
}

/// The allocation table after processing the assignments of one transition
/// up to index `k`.
pub open spec fn spec_accept_row(
    t0: Seq<(OutPoint, Seq<Allocation>)>,
    cv: ConsignmentV,
    rvs: Seq<OutpointReveal>,
    i: int,
    k: int,
) -> Seq<(OutPoint, Seq<Allocation>)>
    decreases k,
{
    if k <= 0 {
        t0
    } else {
        spec_accept_add(spec_accept_row(t0, cv, rvs, i, k - 1), cv, rvs, i, k - 1)
    }
}

/// The allocation table after processing the first `i` transitions of an
/// accepted consignment: the starting table plus exactly the matched
/// allocations, deduplicated.
pub open spec fn spec_accept_table(
    t0: Seq<(OutPoint, Seq<Allocation>)>,
    cv: ConsignmentV,
    rvs: Seq<OutpointReveal>,
    i: int,
) -> Seq<(OutPoint, Seq<Allocation>)>
    decreases i,
{
    if i <= 0 {
        t0
    } else {
        spec_accept_row(
            spec_accept_table(t0, cv, rvs, i - 1),
            cv,
            rvs,
            i - 1,
            cv.state_transitions[i - 1].1.assignments.len() as int,
        )
    }
}

/// The asset an accepted consignment starts from: the cached one, or the
/// projection of the consignment's genesis.
pub open spec fn spec_accept_start(c: Cache, cv: ConsignmentV) -> AssetV {
    match cache_asset(c, spec_contract_id(cv.genesis)) {
        Some(av) => av,
        None => AssetV {
            contract_id: spec_contract_id(cv.genesis),
            ticker: cv.genesis.ticker,
            name: cv.genesis.name,
            precision: cv.genesis.precision,
            supply: sum_produced(
                cv.genesis.assignments,
                RIGHT_ASSETS,
                cv.genesis.assignments.len() as int,
            ) as u64,
            known_allocations: spec_genesis_table(
                cv.genesis,
                cv.genesis.assignments.len() as int,
            ),
        },
    }
}

/// A reveal matches an asset assignment whose state is not revealed: the
/// consignment structure is broken, and the acceptance is refused rather
/// than recorded partially.
pub open spec fn broken_at(cv: ConsignmentV, rvs: Seq<OutpointReveal>, i: int, k: int) -> bool {
    &&& 0 <= i < cv.state_transitions.len()
    &&& 0 <= k < cv.state_transitions[i].1.assignments.len()
    &&& cv.state_transitions[i].1.assignments[k].right_type == RIGHT_ASSETS
    &&& cv.state_transitions[i].1.assignments[k].state is Confidential
    &&& spec_find_reveal(
        rvs,
        spec_seal_hash(cv.state_transitions[i].1.assignments[k].seal),
        0,
    ) is Some
}

/// Some reveal matches an assignment without revealed state.
pub open spec fn accept_broken(cv: ConsignmentV, rvs: Seq<OutpointReveal>) -> bool {
    exists|i: int, k: int| #[trigger] broken_at(cv, rvs, i, k)
}

/// Cache/stash coherence after an accepted merge: the contract is cached
/// and every reveal-matched revealed asset assignment of the consignment is
/// a known allocation at its revealed outpoint.
pub open spec fn accept_coherent(c: Cache, cv: ConsignmentV, rvs: Seq<OutpointReveal>) -> bool {
    match cache_asset(c, spec_contract_id(cv.genesis)) {
        Some(av) => forall|i: int, k: int|
            0 <= i < cv.state_transitions.len() && 0 <= k < cv.state_transitions[
                i
            ].1.assignments.len() ==> #[trigger] accept_recorded(av, cv, rvs, i, k),
        None => false,
    }
}

/// The fungible service runtime: the asset cache plus the decision logic of
/// the request loop.  Socket plumbing stays outside and drives it through
/// [`Runtime::rpc_process`] and [`Runtime::rpc_finish`].
#[derive(Debug)]
pub struct Runtime {
    pub cacher: Cache,
}

impl Runtime {
    pub fn init() -> (r: Runtime)
        ensures
            r.cacher.assets@.len() == 0,
    {
        Runtime { cacher: Cache::new() }
    }

    /// The cache, as the original exposes it to its internals.
    pub fn cache(&self) -> (r: &Cache)
        ensures
            r == &self.cacher,
    {
        &self.cacher
    }

    /// Startup registration of the built-in fungible schema with the stash.
    pub fn register_schema(&self) -> (r: (Request, Pending))
        ensures
            r.0 matches Request::AddSchema(s) && s@ == fungible_schema_model(),
            r.1 is RegisterSchema,
    {
        (Request::AddSchema(fungible_schema()), Pending::RegisterSchema)
    }

    /// Issues a new asset: builds the genesis locally and asks the stash to
    /// store it; the asset enters the cache when the stash confirms.
    /// Inflation entries naming one outpoint are folded into a single
    /// right; the request is refused only when an amount overflows the
    /// 64-bit amount space, and on every other input the stash request is
    /// made.
    pub fn rpc_issue(&self, issue: &Issue) -> (r: Begun)
        ensures
            match r {
                Begun::Done(reply) => reply matches Reply::Failure(f) && f
                    == FailureReason::AmountOverflow && (spec_issue_supply(
                    *issue,
                    issue.allocation@.len() as int,
                ) > u64::MAX || spec_inflation_overflow(issue.inflation@)),
                Begun::Stash(req, pending) => {
                    &&& spec_issue_supply(*issue, issue.allocation@.len() as int) <= u64::MAX
                    &&& !spec_inflation_overflow(issue.inflation@)
                    &&& req matches Request::AddGenesis(g) && g@.assignments
                        == spec_issue_assignments(*issue) && g@.ticker == issue.ticker@
                        && g@.name == issue.name@ && g@.description == issue.description@
                        && g@.precision == issue.precision && g@.network == issue.network
                    &&& pending matches Pending::IssueAsset(a) && a.contract_id
                        == spec_contract_id(spec_issue_genesis_of(r)) && a.supply as int
                        == spec_issue_supply(*issue, issue.allocation@.len() as int) && a.ticker@
                        == issue.ticker@ && a.name@ == issue.name@ && a.precision
                        == issue.precision && a@.known_allocations == spec_genesis_table(
                        spec_issue_genesis_of(r),
                        spec_issue_genesis_of(r).assignments.len() as int,
                    ) && (forall|k: int|
                        0 <= k < spec_issue_genesis_of(r).assignments.len()
                            ==> #[trigger] galloc_recorded(a@, spec_issue_genesis_of(r), k))
                },
            },
    {
        match issue_genesis(issue) {
            Err(f) => Begun::Done(Reply::Failure(f)),
            Ok((genesis, _supply)) => {
                proof {
                    lemma_issue_assets_sum(*issue);
                }
                match asset_from_genesis(&genesis) {
                    Err(f) => {
                        proof {
                            assert(false);
                        }
                        Begun::Done(Reply::Failure(f))
                    },
                    Ok(asset) => Begun::Stash(
                        Request::AddGenesis(genesis),
                        Pending::IssueAsset(asset),
                    ),
                }
            },
        }
    }

    /// Imports an asset from its genesis.  The import is refused exactly
    /// when the genesis's asset amounts overflow the 64-bit amount space;
    /// otherwise the genesis goes to the stash.
    pub fn rpc_import_asset(&self, genesis: &Genesis) -> (r: Begun)
        ensures
            match r {
                Begun::Done(reply) => reply matches Reply::Failure(f) && f
                    == FailureReason::AmountOverflow,
                Begun::Stash(req, pending) => {
                    &&& req matches Request::AddGenesis(g) && g@ == genesis@
                    &&& pending matches Pending::ImportAsset(a) && a.contract_id
                        == spec_contract_id(genesis@) && a.supply as int == sum_produced(
                        genesis@.assignments,
                        RIGHT_ASSETS,
                        genesis@.assignments.len() as int,
                    ) && a.ticker@ == genesis@.ticker && a.name@ == genesis@.name && a.precision
                        == genesis@.precision && a@.known_allocations == spec_genesis_table(
                        genesis@,
                        genesis@.assignments.len() as int,
                    ) && (forall|k: int|
                        0 <= k < genesis@.assignments.len() ==> #[trigger] galloc_recorded(
                            a@,
                            genesis@,
                            k,
                        ))
                },
            },
            (r is Done) <==> sum_produced(
                genesis@.assignments,
                RIGHT_ASSETS,
                genesis@.assignments.len() as int,
            ) > u64::MAX,
    {
        match asset_from_genesis(genesis) {
            Err(f) => Begun::Done(Reply::Failure(f)),
            Ok(asset) => Begun::Stash(
                Request::AddGenesis(crate::entities::copy_genesis(genesis)),
                Pending::ImportAsset(asset),
            ),
        }
    }

    /// Exports an asset: asks the stash for the stored genesis.
    pub fn rpc_export_asset(&self, asset_id: &Hash32) -> (r: Begun)
        ensures
            r matches Begun::Stash(req, pending) && req matches Request::ReadGenesis(id) && id
                == *asset_id && pending is ExportAsset,
    {
        Begun::Stash(Request::ReadGenesis(*asset_id), Pending::ExportAsset)
    }

    /// Forwards a consignment to the stash for validation.
    pub fn rpc_validate(&self, consignment: &Consignment) -> (r: Begun)
        ensures
            r matches Begun::Stash(req, pending) && req matches Request::Validate(c) && c@
                == consignment@ && pending is Validate,
    {
        Begun::Stash(
            Request::Validate(crate::entities::copy_consignment(consignment)),
            Pending::Validate,
        )
    }

    /// Hands a consignment to the stash for merging; the cache is updated
    /// when the stash confirms.
    pub fn rpc_accept(&self, accept: AcceptApi) -> (r: Begun)
        ensures
            r matches Begun::Stash(req, pending) && (req matches Request::Merge(m)
                && m.consignment@ == accept.consignment@) && (pending matches Pending::Accept(a)
                && a.consignment@ == accept.consignment@ && a.reveal_outpoints@
                == accept.reveal_outpoints@),
    {
        let c2 = crate::entities::copy_consignment(&accept.consignment);
        let mut reveals: Vec<OutpointReveal> = Vec::new();
        let mut i: usize = 0;
        while i < accept.reveal_outpoints.len()
            invariant
                i <= accept.reveal_outpoints@.len(),
                reveals@ == accept.reveal_outpoints@.subrange(0, i as int),
            decreases accept.reveal_outpoints@.len() - i,
        {
            reveals.push(accept.reveal_outpoints[i]);
            proof {
                assert(reveals@ =~= accept.reveal_outpoints@.subrange(0, i as int + 1));
            }
            i = i + 1;
        }
        proof {
            assert(accept.reveal_outpoints@.subrange(0, accept.reveal_outpoints@.len() as int)
                =~= accept.reveal_outpoints@);
        }
        Begun::Stash(
            Request::Merge(MergeRequest { consignment: c2, reveal_outpoints: reveals }),
            Pending::Accept(accept),
        )
    }

    /// Forgets an outpoint: clears the cache and, when anything was
    /// removed, asks the stash to drop the owned-right records too.
    pub fn rpc_forget(&mut self, outpoint: &OutPoint) -> (r: Begun)
        ensures
            final(self).cacher.assets@.len() == old(self).cacher.assets@.len(),
            forall|i: int| 0 <= i < old(self).cacher.assets@.len() ==> allocs_at(
                (#[trigger] final(self).cacher.assets@[i])@,
                *outpoint,
            ).len() == 0,
            forall|i: int, op2: OutPoint|
                #![trigger allocs_at(final(self).cacher.assets@[i]@, op2)]
                0 <= i < old(self).cacher.assets@.len() && op2 != *outpoint ==> allocs_at(
                    final(self).cacher.assets@[i]@,
                    op2,
                ) == allocs_at(old(self).cacher.assets@[i]@, op2),
            forall|i: int| 0 <= i < old(self).cacher.assets@.len() ==> {
                &&& (#[trigger] final(self).cacher.assets@[i]).contract_id == old(
                    self,
                ).cacher.assets@[i].contract_id
                &&& final(self).cacher.assets@[i].ticker@ == old(self).cacher.assets@[i].ticker@
                &&& final(self).cacher.assets@[i].name@ == old(self).cacher.assets@[i].name@
                &&& final(self).cacher.assets@[i].precision == old(
                    self,
                ).cacher.assets@[i].precision
                &&& final(self).cacher.assets@[i].supply == old(self).cacher.assets@[i].supply
            },
            r matches Begun::Done(reply) ==> reply is Nothing,
            (r matches Begun::Done(reply) && reply is Nothing) <==> (forall|i: int|
                0 <= i < old(self).cacher.assets@.len() ==> allocs_at(
                    (#[trigger] old(self).cacher.assets@[i])@,
                    *outpoint,
                ).len() == 0),
            r matches Begun::Stash(req, pending) ==> pending is Forget && (req
                matches Request::Forget(l) && l@ == crate::cache::spec_removed_pairs(
                old(self).cacher.assets@,
                *outpoint,
                0,
            )),
    {
        let removal = self.cacher.forget_outpoint(outpoint);
        if removal.len() == 0 {
            Begun::Done(Reply::Nothing)
        } else {
            Begun::Stash(Request::Forget(removal), Pending::Forget)
        }
    }

    /// The contracts holding allocations at an outpoint.
    pub fn rpc_outpoint_assets(&self, outpoint: &OutPoint) -> (r: Reply)
        ensures
            r matches Reply::OutpointAssets(ids) && ids@ == crate::cache::spec_outpoint_assets(
                self.cacher.assets@,
                *outpoint,
                0,
            ),
    {
        Reply::OutpointAssets(self.cacher.outpoint_assets(outpoint))
    }

    /// All allocations of one contract.
    pub fn rpc_asset_allocations(&self, contract_id: &Hash32) -> (r: Reply)
        ensures
            r matches Reply::AssetAllocations(allocs) && (match cache_asset(
                self.cacher,
                *contract_id,
            ) {
                Some(a) => allocs@ == crate::cache::spec_all_allocs(a.known_allocations, 0),
                None => allocs@.len() == 0,
            }),
    {
        Reply::AssetAllocations(self.cacher.asset_allocations(contract_id))
    }

    /// Completes a request when the stash reply arrives.  A reply whose
    /// shape does not answer the pending request is refused as
    /// `UnexpectedReply` and leaves the cache untouched.
    pub fn rpc_finish(&mut self, pending: Pending, reply: Reply) -> (r: Reply)
        ensures
            (match pending {
                Pending::RegisterSchema => !(reply is Success),
                Pending::IssueAsset(_) => !(reply is Success) && !(reply is Failure),
                Pending::ImportAsset(_) => !(reply is Success) && !(reply is Failure),
                Pending::ExportAsset => !(reply is GenesisEntry) && !(reply is Failure),
                Pending::Transfer => !(reply is Transfer) && !(reply is Failure),
                Pending::Validate => !(reply is Validation) && !(reply is Failure),
                Pending::Accept(_) => !(reply is Success) && !(reply is Failure),
                Pending::Forget => !(reply is Success) && !(reply is Failure),
            }) ==> r == Reply::Failure(FailureReason::UnexpectedReply) && *final(self) == *old(
                self,
            ),
            pending matches Pending::IssueAsset(a) ==> reply is Success ==> (r
                matches Reply::AssetEntry(out) && out@ == a@ && out.contract_id == a.contract_id
                && cache_asset(final(self).cacher, a.contract_id) == Some(a@)),
            pending matches Pending::ImportAsset(a) ==> reply is Success ==> (r is Success
                && cache_asset(final(self).cacher, a.contract_id) == Some(a@)),
            (pending is IssueAsset && reply is Failure) ==> r == reply && *final(self) == *old(
                self,
            ),
            (pending is ImportAsset && reply is Failure) ==> r == reply && *final(self) == *old(
                self,
            ),
            (pending is RegisterSchema && reply is Success) ==> r is Success && *final(self)
                == *old(self),
            (pending is ExportAsset && reply is GenesisEntry) ==> r == reply && *final(self)
                == *old(self),
            (pending is ExportAsset && reply is Failure) ==> r == reply && *final(self) == *old(
                self,
            ),
            (pending is Transfer && reply is Transfer) ==> r == reply && *final(self) == *old(
                self,
            ),
            (pending is Transfer && reply is Failure) ==> r == reply && *final(self) == *old(
                self,
            ),
            (pending is Validate && reply is Validation) ==> r == reply && *final(self) == *old(
                self,
            ),
            (pending is Validate && reply is Failure) ==> r == reply && *final(self) == *old(
                self,
            ),
            (pending is Forget && (reply is Success || reply is Failure)) ==> r == reply
                && *final(self) == *old(self),
            pending matches Pending::Accept(a) ==> reply is Failure ==> (r == reply
                && *final(self) == *old(self)),
            pending matches Pending::Accept(a) ==> reply is Success ==> ((r is Success
                && accept_coherent(final(self).cacher, a.consignment@, a.reveal_outpoints@)) || (
            r == Reply::Failure(FailureReason::AmountOverflow) && *final(self) == *old(self))
                || (r == Reply::Failure(FailureReason::BrokenConsignment) && *final(self)
                == *old(self) && accept_broken(a.consignment@, a.reveal_outpoints@))),
            pending matches Pending::Accept(a) ==> reply is Success ==> (accept_coherent(
                old(self).cacher,
                a.consignment@,
                a.reveal_outpoints@,
            ) ==> forall|id: Hash32| cache_asset(final(self).cacher, id) == cache_asset(
                old(self).cacher,
                id,
            )),
            pending matches Pending::Accept(a) ==> reply is Success ==> ((accept_coherent(
                old(self).cacher,
                a.consignment@,
                a.reveal_outpoints@,
            ) && !accept_broken(a.consignment@, a.reveal_outpoints@)) ==> r is Success),
            pending matches Pending::Accept(a) ==> reply is Success ==> r is Success
                ==> cache_asset(
                final(self).cacher,
                spec_contract_id(a.consignment@.genesis),
            ) == Some(
                AssetV {
                    known_allocations: spec_accept_table(
                        spec_accept_start(old(self).cacher, a.consignment@).known_allocations,
                        a.consignment@,
                        a.reveal_outpoints@,
                        a.consignment@.state_transitions.len() as int,
                    ),
                    ..spec_accept_start(old(self).cacher, a.consignment@)
                },
            ),
    {
        match pending {
            Pending::RegisterSchema => {
                match reply {
                    Reply::Success => Reply::Success,
                    _ => Reply::Failure(FailureReason::UnexpectedReply),
                }
            },
            Pending::IssueAsset(a) => {
                match reply {
                    Reply::Failure(f) => Reply::Failure(f),
                    Reply::Success => {
                        let id = a.contract_id;
                        let ghost av = a@;
                        let out = Asset {
                            contract_id: a.contract_id,
                            ticker: crate::entities::copy_bytes(&a.ticker),
                            name: crate::entities::copy_bytes(&a.name),
                            precision: a.precision,
                            supply: a.supply,
                            known_allocations: copy_allocation_table(&a.known_allocations),
                        };
                        proof {
                            assert(out@.known_allocations =~= av.known_allocations);
                            assert(out@ == av);
                        }
                        self.cacher.add_asset(a);
                        Reply::AssetEntry(out)
                    },
                    _ => Reply::Failure(FailureReason::UnexpectedReply),
                }
            },
            Pending::ImportAsset(a) => {
                match reply {
                    Reply::Failure(f) => Reply::Failure(f),
                    Reply::Success => {
                        self.cacher.add_asset(a);
                        Reply::Success
                    },
                    _ => Reply::Failure(FailureReason::UnexpectedReply),
                }
            },
            Pending::ExportAsset => {
                match reply {
                    Reply::GenesisEntry(g) => Reply::GenesisEntry(g),
                    Reply::Failure(f) => Reply::Failure(f),
                    _ => Reply::Failure(FailureReason::UnexpectedReply),
                }
            },
            Pending::Transfer => {
                match reply {
                    Reply::Transfer(c) => Reply::Transfer(c),
                    Reply::Failure(f) => Reply::Failure(f),
                    _ => Reply::Failure(FailureReason::UnexpectedReply),
                }
            },
            Pending::Validate => {
                match reply {
                    Reply::Validation(vs) => Reply::Validation(vs),
                    Reply::Failure(f) => Reply::Failure(f),
                    _ => Reply::Failure(FailureReason::UnexpectedReply),
                }
            },
            Pending::Accept(accept) => {
                match reply {
                    Reply::Success => {
                        let r = self.accept_into_cache(&accept);
                        r
                    },
                    Reply::Failure(f) => Reply::Failure(f),
                    _ => Reply::Failure(FailureReason::UnexpectedReply),
                }
            },
            Pending::Forget => {
                match reply {
                    Reply::Success => Reply::Success,
                    Reply::Failure(f) => Reply::Failure(f),
                    _ => Reply::Failure(FailureReason::UnexpectedReply),
                }
            },
        }
    }

    /// Reflects an accepted consignment in the cache: every asset
    /// assignment whose seal matches one of the revealed outpoints becomes a
    /// known allocation attributed to that outpoint, idempotently.  Fails
    /// exactly when the contract is not cached yet and its genesis amounts
    /// overflow the amount space; nothing changes then.
    fn accept_into_cache(&mut self, accept: &AcceptApi) -> (r: Reply)
        ensures
            (cache_asset(old(self).cacher, spec_contract_id(accept.consignment@.genesis))
                is None && sum_produced(
                accept.consignment@.genesis.assignments,
                RIGHT_ASSETS,
                accept.consignment@.genesis.assignments.len() as int,
            ) > u64::MAX) ==> r == Reply::Failure(FailureReason::AmountOverflow) && *final(self)
                == *old(self),
            !(cache_asset(old(self).cacher, spec_contract_id(accept.consignment@.genesis))
                is None && sum_produced(
                accept.consignment@.genesis.assignments,
                RIGHT_ASSETS,
                accept.consignment@.genesis.assignments.len() as int,
            ) > u64::MAX) ==> ((r is Success) <==> !accept_broken(
                accept.consignment@,
                accept.reveal_outpoints@,
            )) && (accept_broken(accept.consignment@, accept.reveal_outpoints@) ==> r
                == Reply::Failure(FailureReason::BrokenConsignment)),
            r is Failure ==> *final(self) == *old(self),
            r is Success || r is Failure,
            r is Success ==> accept_coherent(
                final(self).cacher,
                accept.consignment@,
                accept.reveal_outpoints@,
            ),
            r is Success ==> cache_asset(
                final(self).cacher,
                spec_contract_id(accept.consignment@.genesis),
            ) == Some(
                AssetV {
                    known_allocations: spec_accept_table(
                        spec_accept_start(old(self).cacher, accept.consignment@)
                            .known_allocations,
                        accept.consignment@,
                        accept.reveal_outpoints@,
                        accept.consignment@.state_transitions.len() as int,
                    ),
                    ..spec_accept_start(old(self).cacher, accept.consignment@)
                },
            ),
            r is Success ==> forall|id: Hash32|
                id != spec_contract_id(accept.consignment@.genesis) ==> cache_asset(
                    final(self).cacher,
                    id,
                ) == cache_asset(old(self).cacher, id),
            accept_coherent(old(self).cacher, accept.consignment@, accept.reveal_outpoints@)
                ==> (forall|id: Hash32| cache_asset(final(self).cacher, id) == cache_asset(
                old(self).cacher,
                id,
            )),
    {
        let ghost cv = accept.consignment@;
        let ghost rvs = accept.reveal_outpoints@;
        let asset_id = contract_id_of(&accept.consignment.genesis);
        let mut asset: Asset = match self.cacher.asset(&asset_id) {
            Some(a) => Asset {
                contract_id: a.contract_id,
                ticker: crate::entities::copy_bytes(&a.ticker),
                name: crate::entities::copy_bytes(&a.name),
                precision: a.precision,
                supply: a.supply,
                known_allocations: copy_allocation_table(&a.known_allocations),
            },
            None => match asset_from_genesis(&accept.consignment.genesis) {
                Ok(a) => a,
                Err(f) => { return Reply::Failure(f); },
            },
        };
        let ghost a0 = spec_accept_start(old(self).cacher, cv);
        proof {
            if cache_asset(old(self).cacher, asset_id) is Some {
                assert(asset@.known_allocations =~= cache_asset(
                    old(self).cacher,
                    asset_id,
                ).unwrap().known_allocations);
                assert(asset@ == cache_asset(old(self).cacher, asset_id).unwrap());
            }
            assert(asset@ == a0);
        }
        let mut i: usize = 0;
        while i < accept.consignment.state_transitions.len()
            invariant
                *self == *old(self),
                cv == accept.consignment@,
                rvs == accept.reveal_outpoints@,
                asset_id == spec_contract_id(cv.genesis),
                i <= accept.consignment.state_transitions@.len(),
                asset.contract_id == asset_id,
                !(cache_asset(old(self).cacher, asset_id) is None && sum_produced(
                    cv.genesis.assignments,
                    RIGHT_ASSETS,
                    cv.genesis.assignments.len() as int,
                ) > u64::MAX),
                forall|i2: int, k2: int|
                    0 <= i2 < i && 0 <= k2 < cv.state_transitions[i2].1.assignments.len()
                        ==> #[trigger] accept_recorded(asset@, cv, rvs, i2, k2),
                forall|i2: int, k2: int| 0 <= i2 < i ==> !#[trigger] broken_at(cv, rvs, i2, k2),
                a0 == spec_accept_start(old(self).cacher, cv),
                asset@.ticker == a0.ticker,
                asset@.name == a0.name,
                asset@.precision == a0.precision,
                asset@.supply == a0.supply,
                asset@.known_allocations == spec_accept_table(
                    a0.known_allocations,
                    cv,
                    rvs,
                    i as int,
                ),
                accept_coherent(old(self).cacher, cv, rvs) ==> asset@ == cache_asset(
                    old(self).cacher,
                    asset_id,
                ).unwrap(),
            decreases accept.consignment.state_transitions@.len() - i,
        {
            let node_id = node_id_of(&accept.consignment.state_transitions[i].1);
            let n = accept.consignment.state_transitions[i].1.assignments.len();
            let mut k: usize = 0;
            while k < n
                invariant
                    *self == *old(self),
                    cv == accept.consignment@,
                    rvs == accept.reveal_outpoints@,
                    asset_id == spec_contract_id(cv.genesis),
                    i < accept.consignment.state_transitions@.len(),
                    node_id == spec_node_id(cv.state_transitions[i as int].1),
                    n == accept.consignment.state_transitions@[i as int].1.assignments@.len(),
                    k <= n,
                    asset.contract_id == asset_id,
                    !(cache_asset(old(self).cacher, asset_id) is None && sum_produced(
                        cv.genesis.assignments,
                        RIGHT_ASSETS,
                        cv.genesis.assignments.len() as int,
                    ) > u64::MAX),
                    forall|i2: int, k2: int|
                        0 <= i2 < i && 0 <= k2 < cv.state_transitions[i2].1.assignments.len()
                            ==> #[trigger] accept_recorded(asset@, cv, rvs, i2, k2),
                    forall|k2: int| 0 <= k2 < k ==> #[trigger] accept_recorded(
                        asset@,
                        cv,
                        rvs,
                        i as int,
                        k2,
                    ),
                    forall|i2: int, k2: int| 0 <= i2 < i ==> !#[trigger] broken_at(
                        cv,
                        rvs,
                        i2,
                        k2,
                    ),
                    forall|k2: int| 0 <= k2 < k ==> !#[trigger] broken_at(
                        cv,
                        rvs,
                        i as int,
                        k2,
                    ),
                    a0 == spec_accept_start(old(self).cacher, cv),
                    asset@.ticker == a0.ticker,
                    asset@.name == a0.name,
                    asset@.precision == a0.precision,
                    asset@.supply == a0.supply,
                    asset@.known_allocations == spec_accept_row(
                        spec_accept_table(a0.known_allocations, cv, rvs, i as int),
                        cv,
                        rvs,
                        i as int,
                        k as int,
                    ),
                    accept_coherent(old(self).cacher, cv, rvs) ==> asset@ == cache_asset(
                        old(self).cacher,
                        asset_id,
                    ).unwrap(),
                decreases n - k,
            {
                let asg = &accept.consignment.state_transitions[i].1.assignments[k];
                let ghost before = asset@;
                if asg.right_type == RIGHT_ASSETS && matches!(asg.state, StateData::Confidential(
                    _,
                )) {
                    let sh = seal_hash_of(&asg.seal);
                    if find_reveal(&accept.reveal_outpoints, &sh).is_some() {
                        proof {
                            assert(broken_at(cv, rvs, i as int, k as int));
                            assert(accept_broken(cv, rvs));
                        }
                        return Reply::Failure(FailureReason::BrokenConsignment);
                    }
                    proof {
                        assert(!broken_at(cv, rvs, i as int, k as int));
                        assert(matched_alloc(cv, rvs, i as int, k as int) is None);
                        assert(asset@.known_allocations == spec_accept_row(
                            spec_accept_table(a0.known_allocations, cv, rvs, i as int),
                            cv,
                            rvs,
                            i as int,
                            k as int + 1,
                        ));
                    }
                } else if k < 0x10000 && asg.right_type == RIGHT_ASSETS {
                    match asg.state {
                        StateData::Revealed { amount, blinding } => {
                            let sh = seal_hash_of(&asg.seal);
                            match find_reveal(&accept.reveal_outpoints, &sh) {
                                Some(rv) => {
                                    let op = OutPoint { txid: rv.txid, vout: rv.vout };
                                    let iu: u16 = #[verifier::truncate] (k as u16);
                                    let al = Allocation {
                                        outpoint: op,
                                        node_id,
                                        index: iu,
                                        amount,
                                        blinding,
                                    };
                                    proof {
                                        assert(matched_alloc(cv, rvs, i as int, k as int)
                                            == Some(al));
                                    }
                                    if !alloc_known(&asset, &op, &al) {
                                        proof {
                                            if accept_coherent(old(self).cacher, cv, rvs) {
                                                assert(accept_recorded(
                                                    before,
                                                    cv,
                                                    rvs,
                                                    i as int,
                                                    k as int,
                                                ));
                                                assert(false);
                                            }
                                        }
                                        asset.add_allocation(op, al);
                                        proof {
                                            lemma_accept_recorded_step(
                                                before,
                                                asset@,
                                                cv,
                                                rvs,
                                                op,
                                                al,
                                                i as int,
                                                k as int,
                                            );
                                            assert(!crate::cache::allocs_at_from(
                                                before.known_allocations,
                                                al.outpoint,
                                                0,
                                            ).contains(al));
                                            assert(asset@.known_allocations
                                                == spec_accept_add(
                                                before.known_allocations,
                                                cv,
                                                rvs,
                                                i as int,
                                                k as int,
                                            ));
                                        }
                    } else {
                                        proof {
                                            assert(accept_recorded(
                                                asset@,
                                                cv,
                                                rvs,
                                                i as int,
                                                k as int,
                                            ));
                                        }
                                    }
                                    proof {
                                        assert(!broken_at(cv, rvs, i as int, k as int));
                                    }
                                },
                                None => {
                                    proof {
                                        assert(matched_alloc(cv, rvs, i as int, k as int)
                                            is None);
                                        assert(!broken_at(cv, rvs, i as int, k as int));
                                        assert(asset@.known_allocations == spec_accept_row(
                                            spec_accept_table(
                                                a0.known_allocations,
                                                cv,
                                                rvs,
                                                i as int,
                                            ),
                                            cv,
                                            rvs,
                                            i as int,
                                            k as int + 1,
                                        ));
                                    }
                                },
                            }
                        },
                        StateData::Confidential(_) => {
                            proof {
                                assert(false);
                            }
                        },
                    }
                } else {
                    proof {
                        assert(matched_alloc(cv, rvs, i as int, k as int) is None);
                        assert(!broken_at(cv, rvs, i as int, k as int));
                        assert(asset@.known_allocations == spec_accept_row(
                            spec_accept_table(a0.known_allocations, cv, rvs, i as int),
                            cv,
                            rvs,
                            i as int,
                            k as int + 1,
                        ));
                    }
                }
                k = k + 1;
            }
            i = i + 1;
        }
        proof {
            if accept_coherent(old(self).cacher, cv, rvs) {
                assert(cache_asset(old(self).cacher, asset_id) is Some);
            }
            assert(!accept_broken(cv, rvs)) by {
                if accept_broken(cv, rvs) {
                    let (bi, bk): (int, int) = choose|bi: int, bk: int|
                        #[trigger] broken_at(cv, rvs, bi, bk);
                    assert(!broken_at(cv, rvs, bi, bk));
                }
            }
        }
        let ghost final_model = asset@;
        self.cacher.add_asset(asset);
        proof {
            assert(cache_asset(self.cacher, asset_id) == Some(final_model));
            assert forall|i2: int, k2: int|
                0 <= i2 < cv.state_transitions.len() && 0 <= k2 < cv.state_transitions[
                    i2
                ].1.assignments.len() implies #[trigger] accept_recorded(
                final_model,
                cv,
                rvs,
                i2,
                k2,
            ) by {}
            if accept_coherent(old(self).cacher, cv, rvs) {
                assert forall|id: Hash32| cache_asset(self.cacher, id) == cache_asset(
                    old(self).cacher,
                    id,
                ) by {
                    if id != asset_id {
                    } else {
                        assert(cache_asset(self.cacher, id) == Some(final_model));
                    }
                }
            }
        }
        Reply::Success
    }
}

/// Whether an allocation is already known at an outpoint.
fn alloc_known(asset: &Asset, op: &OutPoint, al: &Allocation) -> (r: bool)
    ensures
        r == allocs_at(asset@, *op).contains(*al),
{
    let allocs = asset.allocations(op);
    let mut q: usize = 0;
    while q < allocs.len()
        invariant
            allocs@ == allocs_at(asset@, *op),
            q <= allocs@.len(),
            forall|j: int| 0 <= j < q ==> allocs@[j] != *al,
        decreases allocs@.len() - q,
    {
        if allocs[q] == *al {
            proof {
                assert(allocs@[q as int] == *al);
            }
            return true;
        }
        q = q + 1;
    }
    false
}

/// Recording one matched allocation preserves all earlier records and adds
/// the new one.
proof fn lemma_accept_recorded_step(
    before: AssetV,
    after: AssetV,
    cv: ConsignmentV,
    rvs: Seq<OutpointReveal>,
    op: OutPoint,
    al: Allocation,
    i: int,
    k: int,
)
    requires
        allocs_at(after, op) == allocs_at(before, op).push(al),
        forall|op2: OutPoint| op2 != op ==> allocs_at(after, op2) == allocs_at(before, op2),
        matched_alloc(cv, rvs, i, k) == Some(al),
        al.outpoint == op,
    ensures
        accept_recorded(after, cv, rvs, i, k),
        forall|i2: int, k2: int|
            accept_recorded(before, cv, rvs, i2, k2) ==> #[trigger] accept_recorded(
                after,
                cv,
                rvs,
                i2,
                k2,
            ),
{
    assert(allocs_at(after, op).last() == al);
    assert forall|i2: int, k2: int|
        accept_recorded(before, cv, rvs, i2, k2) implies #[trigger] accept_recorded(
        after,
        cv,
        rvs,
        i2,
        k2,
    ) by {
        let ga = matched_alloc(cv, rvs, i2, k2);
        if ga is Some {
            let al2 = ga.unwrap();
            if al2.outpoint == op {
                lemma_alloc_push_contains(allocs_at(before, op), al, al2);
            }
        }
    }
}

/// The first revealed outpoint whose blinded hash equals the given seal
/// hash.
fn find_reveal<'a>(reveals: &'a Vec<OutpointReveal>, sh: &Hash32) -> (r: Option<&'a OutpointReveal>)
    ensures
        match r {
            Some(rv) => spec_find_reveal(reveals@, *sh, 0) == Some(*rv) && spec_outpoint_hash(
                *rv,
            ) == *sh,
            None => spec_find_reveal(reveals@, *sh, 0) is None,
        },
{
    let mut i: usize = 0;
    while i < reveals.len()
        invariant
            i <= reveals@.len(),
            spec_find_reveal(reveals@, *sh, 0) == spec_find_reveal(reveals@, *sh, i as int),
        decreases reveals@.len() - i,
    {
        let h = outpoint_hash_of(&reveals[i]);
        if h.w0 == sh.w0 && h.w1 == sh.w1 && h.w2 == sh.w2 && h.w3 == sh.w3 {
            proof {
                assert(*sh == Hash32 { w0: sh.w0, w1: sh.w1, w2: sh.w2, w3: sh.w3 });
                assert(spec_outpoint_hash(reveals@[i as int]) == *sh);
            }
            return Some(&reveals[i]);
        }
        i = i + 1;
    }
    None
}

/// Deep copy of an allocation table with an unchanged model.
fn copy_allocation_table(v: &Vec<(OutPoint, Vec<Allocation>)>) -> (r: Vec<
    (OutPoint, Vec<Allocation>),
>)
    ensures
        r@.len() == v@.len(),
        forall|j: int| 0 <= j < v@.len() ==> (#[trigger] r@[j]).0 == v@[j].0 && r@[j].1@
            == v@[j].1@,
{
    let mut r: Vec<(OutPoint, Vec<Allocation>)> = Vec::new();
    let mut i: usize = 0;
    while i < v.len()
        invariant
            i <= v@.len(),
            r@.len() == i,
            forall|j: int| 0 <= j < i ==> (#[trigger] r@[j]).0 == v@[j].0 && r@[j].1@
                == v@[j].1@,
        decreases v@.len() - i,
    {
        let op = v[i].0;
        let mut inner: Vec<Allocation> = Vec::new();
        let mut k: usize = 0;
        while k < v[i].1.len()
            invariant
                i < v@.len(),
                k <= v@[i as int].1@.len(),
                inner@ == v@[i as int].1@.subrange(0, k as int),
            decreases v@[i as int].1@.len() - k,
        {
            inner.push(v[i].1[k]);
            proof {
                assert(inner@ =~= v@[i as int].1@.subrange(0, k as int + 1));
            }
            k = k + 1;
        }
        proof {
            assert(v@[i as int].1@.subrange(0, v@[i as int].1@.len() as int) =~= v@[
                i as int
            ].1@);
        }
        r.push((op, inner));
        i = i + 1;
    }
    r
}

/// Sum of the amounts of the first `m` allocations.
pub open spec fn spec_alloc_sum(s: Seq<Allocation>, m: int) -> int
    decreases m,
{
    if m <= 0 {
        0
    } else {
        spec_alloc_sum(s, m - 1) + s[m - 1].amount
    }
}

/// Total amount the cached asset holds at the first `k` input outpoints.
pub open spec fn spec_consumed_total(av: AssetV, inputs: Seq<OutPoint>, k: int) -> int
    decreases k,
{
    if k <= 0 {
        0
    } else {
        spec_consumed_total(av, inputs, k - 1) + spec_alloc_sum(
            allocs_at(av, inputs[k - 1]),
            allocs_at(av, inputs[k - 1]).len() as int,
        )
    }
}

pub open spec fn spec_coins_total(s: Seq<SealCoins>, k: int) -> int
    decreases k,
{
    if k <= 0 {
        0
    } else {
        spec_coins_total(s, k - 1) + s[k - 1].coins
    }
}

pub open spec fn spec_conseal_total(s: Seq<ConsealCoins>, k: int) -> int
    decreases k,
{
    if k <= 0 {
        0
    } else {
        spec_conseal_total(s, k - 1) + s[k - 1].coins
    }
}

/// Everything a transfer produces: revealed change plus blinded outputs.
pub open spec fn spec_outputs_total(t: TransferApi) -> int {
    spec_coins_total(t.ours@, t.ours@.len() as int) + spec_conseal_total(
        t.theirs@,
        t.theirs@.len() as int,
    )
}

/// The consumed-right reference an allocation turns into.
pub open spec fn spec_input_ref(al: Allocation) -> TransitionInput {
    TransitionInput {
        prev_node: al.node_id,
        right_type: RIGHT_ASSETS,
        index: al.index,
        state_commitment: spec_state_commitment(
            StateData::Revealed { amount: al.amount, blinding: al.blinding },
        ),
    }
}

/// The transition inputs a transfer builds: every allocation at every input
/// outpoint, in order.
pub open spec fn spec_transfer_inputs(av: AssetV, inputs: Seq<OutPoint>, k: int) -> Seq<
    TransitionInput,
>
    decreases k,
{
    if k <= 0 {
        Seq::empty()
    } else {
        spec_transfer_inputs(av, inputs, k - 1) + allocs_at(av, inputs[k - 1]).map_values(
            |al: Allocation| spec_input_ref(al),
        )
    }
}

/// The assignment a blinded output turns into.
pub open spec fn spec_their_assignment(cc: ConsealCoins) -> Assignment {
    Assignment {
        right_type: RIGHT_ASSETS,
        seal: Seal::Confidential(cc.seal_confidential),
        state: StateData::Revealed { amount: cc.coins, blinding: cc.blinding },
    }
}

pub proof fn lemma_alloc_sum_mono(s: Seq<Allocation>, m1: int, m2: int)
    requires
        0 <= m1 <= m2,
    ensures
        spec_alloc_sum(s, m1) <= spec_alloc_sum(s, m2),
    decreases m2 - m1,
{
    if m1 < m2 {
        lemma_alloc_sum_mono(s, m1, m2 - 1);
    }
}

pub proof fn lemma_consumed_total_mono(av: AssetV, inputs: Seq<OutPoint>, k1: int, k2: int)
    requires
        0 <= k1 <= k2,
    ensures
        spec_consumed_total(av, inputs, k1) <= spec_consumed_total(av, inputs, k2),
    decreases k2 - k1,
{
    if k1 < k2 {
        lemma_consumed_total_mono(av, inputs, k1, k2 - 1);
        lemma_alloc_sum_mono(
            allocs_at(av, inputs[k2 - 1]),
            0,
            allocs_at(av, inputs[k2 - 1]).len() as int,
        );
    }
}

pub proof fn lemma_coins_total_mono(s: Seq<SealCoins>, k1: int, k2: int)
    requires
        0 <= k1 <= k2,
    ensures
        spec_coins_total(s, k1) <= spec_coins_total(s, k2),
    decreases k2 - k1,
{
    if k1 < k2 {
        lemma_coins_total_mono(s, k1, k2 - 1);
    }
}

pub proof fn lemma_conseal_total_mono(s: Seq<ConsealCoins>, k1: int, k2: int)
    requires
        0 <= k1 <= k2,
    ensures
        spec_conseal_total(s, k1) <= spec_conseal_total(s, k2),
    decreases k2 - k1,
{
    if k1 < k2 {
        lemma_conseal_total_mono(s, k1, k2 - 1);
    }
}

pub proof fn lemma_conseal_total_nonneg(s: Seq<ConsealCoins>, k: int)
    ensures
        spec_conseal_total(s, k) >= 0,
    decreases k,
{
    if k > 0 {
        lemma_conseal_total_nonneg(s, k - 1);
    }
}

/// A ghost helper naming the genesis carried by an issuance decision; used
/// only to phrase contracts.
pub open spec fn spec_issue_genesis_of(r: Begun) -> GenesisV {
    match r {
        Begun::Stash(req, _) => match req {
            Request::AddGenesis(g) => g@,
            _ => arbitrary(),
        },
        _ => arbitrary(),
    }
}

impl Runtime {
    /// Prepares a transfer: spends every asset allocation at the given
    /// outpoints into the requested revealed and blinded outputs, and asks
    /// the stash to assemble the consignment.  Fails exactly when the
    /// contract is not cached, a sum overflows, or the consumed amounts do
    /// not equal the produced amounts.
    pub fn rpc_transfer(&self, transfer: &TransferApi) -> (r: Begun)
        ensures
            match r {
                Begun::Done(reply) => reply matches Reply::Failure(f) && ((f
                    == FailureReason::UnknownAsset && cache_asset(
                    self.cacher,
                    transfer.contract_id,
                ) is None) || (cache_asset(self.cacher, transfer.contract_id) matches Some(av)
                    && ((f == FailureReason::AmountOverflow && (spec_consumed_total(
                    av,
                    transfer.inputs@,
                    transfer.inputs@.len() as int,
                ) > u128::MAX || spec_outputs_total(*transfer) > u128::MAX)) || (f
                    == FailureReason::InsufficientFunds && spec_consumed_total(
                    av,
                    transfer.inputs@,
                    transfer.inputs@.len() as int,
                ) <= u128::MAX && spec_outputs_total(*transfer) <= u128::MAX
                    && spec_consumed_total(
                    av,
                    transfer.inputs@,
                    transfer.inputs@.len() as int,
                ) != spec_outputs_total(*transfer))))),
                Begun::Stash(req, pending) => pending is Transfer && (cache_asset(
                    self.cacher,
                    transfer.contract_id,
                ) matches Some(av) && spec_consumed_total(
                    av,
                    transfer.inputs@,
                    transfer.inputs@.len() as int,
                ) == spec_outputs_total(*transfer) && spec_outputs_total(*transfer)
                    <= u128::MAX && (req matches Request::Consign(cr) && cr.contract_id
                    == transfer.contract_id && cr.inputs@ == transfer.inputs@
                    && cr.transition@.transition_type == TRANSITION_TRANSFER
                    && cr.transition@.inputs == spec_transfer_inputs(
                    av,
                    transfer.inputs@,
                    transfer.inputs@.len() as int,
                ) && cr.transition@.assignments == transfer.ours@.map_values(
                    |sc: SealCoins| spec_alloc_assignment(sc, RIGHT_ASSETS),
                ) + transfer.theirs@.map_values(|cc: ConsealCoins| spec_their_assignment(cc))
                    && cr.outpoints@ == transfer.theirs@.map_values(
                    |cc: ConsealCoins| cc.seal_confidential,
                ) && cr.psbt@ == transfer.psbt@ && cr.other_transition_ids@.len() == 0)),
            },
    {
        let asset = match self.cacher.asset(&transfer.contract_id) {
            None => { return Begun::Done(Reply::Failure(FailureReason::UnknownAsset)); },
            Some(a) => a,
        };
        let ghost av = asset@;
        let mut inputs: Vec<TransitionInput> = Vec::new();
        let mut consumed: u128 = 0;
        let mut i: usize = 0;
        while i < transfer.inputs.len()
            invariant
                av == asset@,
                cache_asset(self.cacher, transfer.contract_id) == Some(av),
                i <= transfer.inputs@.len(),
                inputs@ == spec_transfer_inputs(av, transfer.inputs@, i as int),
                consumed as int == spec_consumed_total(av, transfer.inputs@, i as int),
            decreases transfer.inputs@.len() - i,
        {
            let allocs = asset.allocations(&transfer.inputs[i]);
            let ghost base_inputs = inputs@;
            let ghost base_sum = consumed as int;
            let mut k: usize = 0;
            while k < allocs.len()
                invariant
                    av == asset@,
                    cache_asset(self.cacher, transfer.contract_id) == Some(av),
                    i < transfer.inputs@.len(),
                    allocs@ == allocs_at(av, transfer.inputs@[i as int]),
                    k <= allocs@.len(),
                    inputs@ == base_inputs + allocs@.subrange(0, k as int).map_values(
                        |al: Allocation| spec_input_ref(al),
                    ),
                    base_inputs == spec_transfer_inputs(av, transfer.inputs@, i as int),
                    consumed as int == base_sum + spec_alloc_sum(allocs@, k as int),
                    base_sum == spec_consumed_total(av, transfer.inputs@, i as int),
                decreases allocs@.len() - k,
            {
                let al = &allocs[k];
                let com = state_commitment_of(
                    &StateData::Revealed { amount: al.amount, blinding: al.blinding },
                );
                inputs.push(
                    TransitionInput {
                        prev_node: al.node_id,
                        right_type: RIGHT_ASSETS,
                        index: al.index,
                        state_commitment: com,
                    },
                );
                proof {
                    assert(inputs@ =~= base_inputs + allocs@.subrange(0, k as int + 1).map_values(
                        |al2: Allocation| spec_input_ref(al2),
                    ));
                }
                if consumed > u128::MAX - al.amount as u128 {
                    proof {
                        assert(spec_alloc_sum(allocs@, k as int + 1) == spec_alloc_sum(
                            allocs@,
                            k as int,
                        ) + allocs@[k as int].amount);
                        lemma_alloc_sum_mono(allocs@, k as int + 1, allocs@.len() as int);
                        assert(spec_consumed_total(av, transfer.inputs@, i as int + 1)
                            == spec_consumed_total(av, transfer.inputs@, i as int)
                            + spec_alloc_sum(
                            allocs_at(av, transfer.inputs@[i as int]),
                            allocs_at(av, transfer.inputs@[i as int]).len() as int,
                        ));
                        lemma_consumed_total_mono(
                            av,
                            transfer.inputs@,
                            i as int + 1,
                            transfer.inputs@.len() as int,
                        );
                        assert(spec_consumed_total(
                            av,
                            transfer.inputs@,
                            transfer.inputs@.len() as int,
                        ) > u128::MAX);
                    }
                    return Begun::Done(Reply::Failure(FailureReason::AmountOverflow));
                }
                consumed = consumed + al.amount as u128;
                k = k + 1;
            }
            proof {
                assert(allocs@.subrange(0, allocs@.len() as int) =~= allocs@);
            }
            i = i + 1;
        }
        let mut assignments: Vec<Assignment> = Vec::new();
        let mut produced: u128 = 0;
        let mut k2: usize = 0;
        while k2 < transfer.ours.len()
            invariant
                av == asset@,
                cache_asset(self.cacher, transfer.contract_id) == Some(av),
                consumed as int == spec_consumed_total(
                    av,
                    transfer.inputs@,
                    transfer.inputs@.len() as int,
                ),
                inputs@ == spec_transfer_inputs(
                    av,
                    transfer.inputs@,
                    transfer.inputs@.len() as int,
                ),
                k2 <= transfer.ours@.len(),
                assignments@ == transfer.ours@.subrange(0, k2 as int).map_values(
                    |sc: SealCoins| spec_alloc_assignment(sc, RIGHT_ASSETS),
                ),
                produced as int == spec_coins_total(transfer.ours@, k2 as int),
            decreases transfer.ours@.len() - k2,
        {
            let sc = &transfer.ours[k2];
            assignments.push(alloc_assignment(sc, RIGHT_ASSETS));
            proof {
                assert(assignments@ =~= transfer.ours@.subrange(0, k2 as int + 1).map_values(
                    |sc2: SealCoins| spec_alloc_assignment(sc2, RIGHT_ASSETS),
                ));
            }
            if produced > u128::MAX - sc.coins as u128 {
                proof {
                    lemma_coins_total_mono(
                        transfer.ours@,
                        k2 as int + 1,
                        transfer.ours@.len() as int,
                    );
                    lemma_conseal_total_nonneg(transfer.theirs@, transfer.theirs@.len() as int);
                }
                return Begun::Done(Reply::Failure(FailureReason::AmountOverflow));
            }
            produced = produced + sc.coins as u128;
            k2 = k2 + 1;
        }
        let ghost ours_map = transfer.ours@.map_values(
            |sc: SealCoins| spec_alloc_assignment(sc, RIGHT_ASSETS),
        );
        proof {
            assert(transfer.ours@.subrange(0, transfer.ours@.len() as int) =~= transfer.ours@);
        }
        let mut outpoints: Vec<Hash32> = Vec::new();
        let mut k3: usize = 0;
        while k3 < transfer.theirs.len()
            invariant
                av == asset@,
                cache_asset(self.cacher, transfer.contract_id) == Some(av),
                consumed as int == spec_consumed_total(
                    av,
                    transfer.inputs@,
                    transfer.inputs@.len() as int,
                ),
                inputs@ == spec_transfer_inputs(
                    av,
                    transfer.inputs@,
                    transfer.inputs@.len() as int,
                ),
                ours_map == transfer.ours@.map_values(
                    |sc: SealCoins| spec_alloc_assignment(sc, RIGHT_ASSETS),
                ),
                k3 <= transfer.theirs@.len(),
                assignments@ == ours_map + transfer.theirs@.subrange(0, k3 as int).map_values(
                    |cc: ConsealCoins| spec_their_assignment(cc),
                ),
                outpoints@ == transfer.theirs@.subrange(0, k3 as int).map_values(
                    |cc: ConsealCoins| cc.seal_confidential,
                ),
                produced as int == spec_coins_total(transfer.ours@, transfer.ours@.len() as int)
                    + spec_conseal_total(transfer.theirs@, k3 as int),
            decreases transfer.theirs@.len() - k3,
        {
            let cc = &transfer.theirs[k3];
            assignments.push(
                Assignment {
                    right_type: RIGHT_ASSETS,
                    seal: Seal::Confidential(cc.seal_confidential),
                    state: StateData::Revealed { amount: cc.coins, blinding: cc.blinding },
                },
            );
            outpoints.push(cc.seal_confidential);
            proof {
                assert(assignments@ =~= ours_map + transfer.theirs@.subrange(
                    0,
                    k3 as int + 1,
                ).map_values(|cc2: ConsealCoins| spec_their_assignment(cc2)));
                assert(outpoints@ =~= transfer.theirs@.subrange(0, k3 as int + 1).map_values(
                    |cc2: ConsealCoins| cc2.seal_confidential,
                ));
            }
            if produced > u128::MAX - cc.coins as u128 {
                proof {
                    lemma_conseal_total_mono(
                        transfer.theirs@,
                        k3 as int + 1,
                        transfer.theirs@.len() as int,
                    );
                }
                return Begun::Done(Reply::Failure(FailureReason::AmountOverflow));
            }
            produced = produced + cc.coins as u128;
            k3 = k3 + 1;
        }
        proof {
            assert(transfer.theirs@.subrange(0, transfer.theirs@.len() as int)
                =~= transfer.theirs@);
        }
        if consumed != produced {
            return Begun::Done(Reply::Failure(FailureReason::InsufficientFunds));
        }
        let transition = Transition { transition_type: TRANSITION_TRANSFER, inputs, assignments };
        let mut in_ops: Vec<OutPoint> = Vec::new();
        let mut k4: usize = 0;
        while k4 < transfer.inputs.len()
            invariant
                k4 <= transfer.inputs@.len(),
                in_ops@ == transfer.inputs@.subrange(0, k4 as int),
            decreases transfer.inputs@.len() - k4,
        {
            in_ops.push(transfer.inputs[k4]);
            proof {
                assert(in_ops@ =~= transfer.inputs@.subrange(0, k4 as int + 1));
            }
            k4 = k4 + 1;
        }
        proof {
            assert(transfer.inputs@.subrange(0, transfer.inputs@.len() as int)
                =~= transfer.inputs@);
        }
        Begun::Stash(
            Request::Consign(
                ConsignRequest {
                    contract_id: transfer.contract_id,
                    inputs: in_ops,
                    transition,
                    other_transition_ids: Vec::new(),
                    outpoints,
                    psbt: crate::entities::copy_bytes(&transfer.psbt),
                },
            ),
            Pending::Transfer,
        )
    }

    /// Exports the cache in its strict encoding; other file formats are
    /// rendered from these values outside the library.
    pub fn rpc_sync(&self, data_format: DataFormat) -> (r: Reply)
        ensures
            r matches Reply::SyncData(f, bytes) && f == data_format && bytes@
                == crate::cache::spec_enc_cache(self.cacher),
    {
        Reply::SyncData(data_format, crate::cache::encode_cache(&self.cacher))
    }

    /// Routes one client request: either answers it from the cache or
    /// decides the stash request to make, with the continuation for its
    /// reply.  Each variant's decision is pinned to its handler's contract.
    pub fn rpc_process(&mut self, request: FungibleRequest) -> (r: Begun)
        ensures
            match request {
                FungibleRequest::Issue(issue) => *final(self) == *old(self) && (match r {
                    Begun::Done(reply) => reply matches Reply::Failure(f) && f
                        == FailureReason::AmountOverflow && (spec_issue_supply(
                        issue,
                        issue.allocation@.len() as int,
                    ) > u64::MAX || spec_inflation_overflow(issue.inflation@)),
                    Begun::Stash(req, pending) => {
                        &&& spec_issue_supply(issue, issue.allocation@.len() as int)
                            <= u64::MAX
                        &&& !spec_inflation_overflow(issue.inflation@)
                        &&& req matches Request::AddGenesis(g) && g@.assignments
                            == spec_issue_assignments(issue) && g@.ticker == issue.ticker@
                            && g@.name == issue.name@ && g@.description == issue.description@
                            && g@.precision == issue.precision && g@.network == issue.network
                        &&& pending matches Pending::IssueAsset(a) && a.contract_id
                            == spec_contract_id(spec_issue_genesis_of(r)) && a.supply as int
                            == spec_issue_supply(issue, issue.allocation@.len() as int)
                            && a@.known_allocations == spec_genesis_table(
                            spec_issue_genesis_of(r),
                            spec_issue_genesis_of(r).assignments.len() as int,
                        )
                    },
                }),
                FungibleRequest::Transfer(transfer) => *final(self) == *old(self) && (match r {
                    Begun::Done(reply) => reply matches Reply::Failure(f) && ((f
                        == FailureReason::UnknownAsset && cache_asset(
                        old(self).cacher,
                        transfer.contract_id,
                    ) is None) || (cache_asset(old(self).cacher, transfer.contract_id)
                        matches Some(av) && ((f == FailureReason::AmountOverflow && (
                    spec_consumed_total(av, transfer.inputs@, transfer.inputs@.len() as int)
                        > u128::MAX || spec_outputs_total(transfer) > u128::MAX)) || (f
                        == FailureReason::InsufficientFunds && spec_consumed_total(
                        av,
                        transfer.inputs@,
                        transfer.inputs@.len() as int,
                    ) <= u128::MAX && spec_outputs_total(transfer) <= u128::MAX
                        && spec_consumed_total(
                        av,
                        transfer.inputs@,
                        transfer.inputs@.len() as int,
                    ) != spec_outputs_total(transfer))))),
                    Begun::Stash(req, pending) => pending is Transfer && (cache_asset(
                        old(self).cacher,
                        transfer.contract_id,
                    ) matches Some(av) && spec_consumed_total(
                        av,
                        transfer.inputs@,
                        transfer.inputs@.len() as int,
                    ) == spec_outputs_total(transfer) && (req matches Request::Consign(cr)
                        && cr.contract_id == transfer.contract_id && cr.inputs@
                        == transfer.inputs@ && cr.transition@.transition_type
                        == TRANSITION_TRANSFER && cr.transition@.inputs
                        == spec_transfer_inputs(
                        av,
                        transfer.inputs@,
                        transfer.inputs@.len() as int,
                    ) && cr.transition@.assignments == transfer.ours@.map_values(
                        |sc: SealCoins| spec_alloc_assignment(sc, RIGHT_ASSETS),
                    ) + transfer.theirs@.map_values(
                        |cc: ConsealCoins| spec_their_assignment(cc),
                    ) && cr.outpoints@ == transfer.theirs@.map_values(
                        |cc: ConsealCoins| cc.seal_confidential,
                    ) && cr.psbt@ == transfer.psbt@)),
                }),
                FungibleRequest::Validate(c) => *final(self) == *old(self) && (r
                    matches Begun::Stash(req, pending) && pending is Validate && (req
                    matches Request::Validate(c2) && c2@ == c@)),
                FungibleRequest::Accept(accept) => *final(self) == *old(self) && (r
                    matches Begun::Stash(req, pending) && (req matches Request::Merge(m)
                    && m.consignment@ == accept.consignment@) && (pending
                    matches Pending::Accept(a) && a.consignment@ == accept.consignment@
                    && a.reveal_outpoints@ == accept.reveal_outpoints@)),
                FungibleRequest::Forget(outpoint) => {
                    &&& final(self).cacher.assets@.len() == old(self).cacher.assets@.len()
                    &&& forall|i: int| 0 <= i < old(self).cacher.assets@.len() ==> allocs_at(
                        (#[trigger] final(self).cacher.assets@[i])@,
                        outpoint,
                    ).len() == 0
                    &&& forall|i: int, op2: OutPoint|
                        #![trigger allocs_at(final(self).cacher.assets@[i]@, op2)]
                        0 <= i < old(self).cacher.assets@.len() && op2 != outpoint
                            ==> allocs_at(final(self).cacher.assets@[i]@, op2) == allocs_at(
                            old(self).cacher.assets@[i]@,
                            op2,
                        )
                    &&& (r matches Begun::Done(reply) ==> reply is Nothing)
                    &&& ((r matches Begun::Done(reply) && reply is Nothing) <==> (forall|
                        i: int,
                    |
                        0 <= i < old(self).cacher.assets@.len() ==> allocs_at(
                            (#[trigger] old(self).cacher.assets@[i])@,
                            outpoint,
                        ).len() == 0))
                    &&& (r matches Begun::Stash(req, pending) ==> pending is Forget && (req
                        matches Request::Forget(l) && l@ == crate::cache::spec_removed_pairs(
                        old(self).cacher.assets@,
                        outpoint,
                        0,
                    )))
                },
                FungibleRequest::ImportAsset(genesis) => *final(self) == *old(self) && ((r
                    is Done) <==> sum_produced(
                    genesis@.assignments,
                    RIGHT_ASSETS,
                    genesis@.assignments.len() as int,
                ) > u64::MAX) && (match r {
                    Begun::Done(reply) => reply matches Reply::Failure(f) && f
                        == FailureReason::AmountOverflow,
                    Begun::Stash(req, pending) => {
                        &&& req matches Request::AddGenesis(g) && g@ == genesis@
                        &&& pending matches Pending::ImportAsset(a) && a.contract_id
                            == spec_contract_id(genesis@) && a.supply as int == sum_produced(
                            genesis@.assignments,
                            RIGHT_ASSETS,
                            genesis@.assignments.len() as int,
                        ) && a@.known_allocations == spec_genesis_table(
                            genesis@,
                            genesis@.assignments.len() as int,
                        )
                    },
                }),
                FungibleRequest::ExportAsset(id) => *final(self) == *old(self) && (r
                    matches Begun::Stash(req, pending) && pending is ExportAsset && (req
                    matches Request::ReadGenesis(id2) && id2 == id)),
                FungibleRequest::Sync(fmt) => *final(self) == *old(self) && (r
                    matches Begun::Done(reply) && (reply matches Reply::SyncData(f, bytes) && f
                    == fmt && bytes@ == crate::cache::spec_enc_cache(old(self).cacher))),
                FungibleRequest::Assets(op) => *final(self) == *old(self) && (r
                    matches Begun::Done(reply) && (reply matches Reply::OutpointAssets(ids)
                    && ids@ == crate::cache::spec_outpoint_assets(
                    old(self).cacher.assets@,
                    op,
                    0,
                ))),
                FungibleRequest::Allocations(id) => *final(self) == *old(self) && (r
                    matches Begun::Done(reply) && (reply matches Reply::AssetAllocations(
                    allocs,
                ) && (match cache_asset(old(self).cacher, id) {
                    Some(a) => allocs@ == crate::cache::spec_all_allocs(a.known_allocations, 0),
                    None => allocs@.len() == 0,
                }))),
            },
    {
        match request {
            FungibleRequest::Issue(issue) => {
                let r = self.rpc_issue(&issue);
                r
            },
            FungibleRequest::Transfer(transfer) => self.rpc_transfer(&transfer),
            FungibleRequest::Validate(consignment) => self.rpc_validate(&consignment),
            FungibleRequest::Accept(accept) => self.rpc_accept(accept),
            FungibleRequest::Forget(outpoint) => self.rpc_forget(&outpoint),
            FungibleRequest::ImportAsset(genesis) => self.rpc_import_asset(&genesis),
            FungibleRequest::ExportAsset(id) => self.rpc_export_asset(&id),
            FungibleRequest::Sync(fmt) => Begun::Done(self.rpc_sync(fmt)),
            FungibleRequest::Assets(op) => Begun::Done(self.rpc_outpoint_assets(&op)),
            FungibleRequest::Allocations(id) => Begun::Done(self.rpc_asset_allocations(&id)),
        }
    }
}

} // verus!
