//! The fungible asset cache.
//!
//! An in-memory index from contract ids to asset projections, each carrying
//! the allocations known per outpoint.  The stash remains the source of
//! truth; the cache is rebuilt from accepted consignments.

use vstd::prelude::*;
use vstd::bytes::{spec_u16_to_le_bytes, spec_u64_to_le_bytes};
use crate::codec::{spec_enc_bytes, spec_enc_varint, write_bytes, write_u8, write_u16, write_u64,
    write_varint};
use crate::ids::{Hash32, spec_enc_hash32, write_hash32};
use crate::data::{OutPoint, spec_enc_outpoint, write_outpoint};

verus! {

/// One known allocation: an owned right assigned to an outpoint.
#[derive(Clone, Copy, PartialEq, Eq, Structural, Debug)]
pub struct Allocation {
    pub outpoint: OutPoint,
    pub node_id: Hash32,
    pub index: u16,
    pub amount: u64,
    pub blinding: u64,
}

/// The fungible projection of a contract.
#[derive(Clone, Debug)]
pub struct Asset {
    pub contract_id: Hash32,
    pub ticker: Vec<u8>,
    pub name: Vec<u8>,
    pub precision: u8,
    pub supply: u64,
    pub known_allocations: Vec<(OutPoint, Vec<Allocation>)>,
}

/// Specification-level model of an [`Asset`].
pub struct AssetV {
    pub contract_id: Hash32,
    pub ticker: Seq<u8>,
    pub name: Seq<u8>,
    pub precision: u8,
    pub supply: u64,
    pub known_allocations: Seq<(OutPoint, Seq<Allocation>)>,
}

impl View for Asset {
    type V = AssetV;

    open spec fn view(&self) -> AssetV {
        AssetV {
            contract_id: self.contract_id,
            ticker: self.ticker@,
            name: self.name@,
            precision: self.precision,
            supply: self.supply,
            known_allocations: self.known_allocations@.map_values(
                |p: (OutPoint, Vec<Allocation>)| (p.0, p.1@),
            ),
        }
    }
}

/// The allocations an asset knows at one outpoint; empty when the outpoint
/// is unknown.  The first matching entry decides.
pub open spec fn allocs_at_from(a: Seq<(OutPoint, Seq<Allocation>)>, op: OutPoint, from: int)
    -> Seq<Allocation>
    decreases a.len() - from,
{
    if from < 0 || from >= a.len() {
        Seq::empty()
    } else if a[from].0 == op {
        a[from].1
    } else {
        allocs_at_from(a, op, from + 1)
    }
}

pub open spec fn allocs_at(a: AssetV, op: OutPoint) -> Seq<Allocation> {
    allocs_at_from(a.known_allocations, op, 0)
}

/// A key that appears in no entry looks up to the empty sequence.
proof fn lemma_allocs_absent(a: Seq<(OutPoint, Seq<Allocation>)>, op: OutPoint, from: int)
    requires
        0 <= from,
        forall|j: int| 0 <= j < a.len() ==> (#[trigger] a[j]).0 != op,
    ensures
        allocs_at_from(a, op, from) == Seq::<Allocation>::empty(),
    decreases a.len() - from,
{
    if from < a.len() {
        lemma_allocs_absent(a, op, from + 1);
    }
}

/// The allocation table after recording one allocation: the first entry
/// holding the outpoint grows by the allocation, or a fresh entry is
/// appended.
pub open spec fn spec_table_add(
    t: Seq<(OutPoint, Seq<Allocation>)>,
    op: OutPoint,
    al: Allocation,
) -> Seq<(OutPoint, Seq<Allocation>)>
    decreases t.len(),
{
    if t.len() == 0 {
        seq![(op, seq![al])]
    } else if t[0].0 == op {
        seq![(t[0].0, t[0].1.push(al))] + t.drop_first()
    } else {
        seq![t[0]] + spec_table_add(t.drop_first(), op, al)
    }
}

proof fn lemma_table_add_found(
    t: Seq<(OutPoint, Seq<Allocation>)>,
    op: OutPoint,
    al: Allocation,
    j: int,
)
    requires
        0 <= j < t.len(),
        t[j].0 == op,
        forall|p: int| 0 <= p < j ==> (#[trigger] t[p]).0 != op,
    ensures
        spec_table_add(t, op, al) == t.update(j, (t[j].0, t[j].1.push(al))),
    decreases t.len(),
{
    if j == 0 {
        assert(spec_table_add(t, op, al) =~= t.update(0, (t[0].0, t[0].1.push(al))));
    } else {
        assert(t[0].0 != op);
        let tl = t.drop_first();
        assert(tl[j - 1].0 == op);
        assert(forall|p: int| 0 <= p < j - 1 ==> (#[trigger] tl[p]).0 != op);
        lemma_table_add_found(tl, op, al, j - 1);
        assert(spec_table_add(t, op, al) =~= t.update(j, (t[j].0, t[j].1.push(al))));
    }
}

proof fn lemma_table_add_absent(t: Seq<(OutPoint, Seq<Allocation>)>, op: OutPoint, al: Allocation)
    requires
        forall|p: int| 0 <= p < t.len() ==> (#[trigger] t[p]).0 != op,
    ensures
        spec_table_add(t, op, al) == t.push((op, seq![al])),
    decreases t.len(),
{
    if t.len() == 0 {
        assert(spec_table_add(t, op, al) =~= t.push((op, seq![al])));
    } else {
        lemma_table_add_absent(t.drop_first(), op, al);
        assert(spec_table_add(t, op, al) =~= t.push((op, seq![al])));
    }
}

fn outpoint_eq(a: &OutPoint, b: &OutPoint) -> (r: bool)
    ensures
        r == (*a == *b),
{
    a.txid.w0 == b.txid.w0 && a.txid.w1 == b.txid.w1 && a.txid.w2 == b.txid.w2 && a.txid.w3
        == b.txid.w3 && a.vout == b.vout
}

fn hash_eq(a: &Hash32, b: &Hash32) -> (r: bool)
    ensures
        r == (*a == *b),
{
    a.w0 == b.w0 && a.w1 == b.w1 && a.w2 == b.w2 && a.w3 == b.w3
}

impl Asset {
    /// The allocations known at an outpoint.
    pub fn allocations(&self, op: &OutPoint) -> (r: Vec<Allocation>)
        ensures
            r@ == allocs_at(self@, *op),
    {
        let mut i: usize = 0;
        while i < self.known_allocations.len()
            invariant
                i <= self.known_allocations@.len(),
                allocs_at(self@, *op) == allocs_at_from(self@.known_allocations, *op, i as int),
            decreases self.known_allocations@.len() - i,
        {
            if outpoint_eq(&self.known_allocations[i].0, op) {
                let mut r: Vec<Allocation> = Vec::new();
                let entry = &self.known_allocations[i].1;
                let mut k: usize = 0;
                while k < entry.len()
                    invariant
                        i < self.known_allocations@.len(),
                        entry@ == self@.known_allocations[i as int].1,
                        k <= entry@.len(),
                        r@ == entry@.subrange(0, k as int),
                    decreases entry@.len() - k,
                {
                    r.push(entry[k]);
                    proof {
                        assert(r@ =~= entry@.subrange(0, k as int + 1));
                    }
                    k = k + 1;
                }
                proof {
                    assert(entry@.subrange(0, entry@.len() as int) =~= entry@);
                }
                return r;
            }
            i = i + 1;
        }
        Vec::new()
    }

    /// Records one allocation at an outpoint, appending to the entry for the
    /// outpoint or opening a new one.
    pub fn add_allocation(&mut self, op: OutPoint, al: Allocation)
        ensures
            final(self)@.known_allocations == spec_table_add(
                old(self)@.known_allocations,
                op,
                al,
            ),
            allocs_at(final(self)@, op) == allocs_at(old(self)@, op).push(al),
            forall|op2: OutPoint| op2 != op ==> allocs_at(final(self)@, op2) == allocs_at(
                old(self)@,
                op2,
            ),
            final(self).contract_id == old(self).contract_id,
            final(self).ticker@ == old(self).ticker@,
            final(self).name@ == old(self).name@,
            final(self).precision == old(self).precision,
            final(self).supply == old(self).supply,
    {
        let mut i: usize = 0;
        while i < self.known_allocations.len()
            invariant
                i <= self.known_allocations@.len(),
                *self == *old(self),
                forall|j: int| 0 <= j < i ==> (#[trigger] self@.known_allocations[j]).0 != op,
            decreases self.known_allocations@.len() - i,
        {
            if outpoint_eq(&self.known_allocations[i].0, &op) {
                let ghost before = self@.known_allocations;
                let entry = &mut self.known_allocations[i].1;
                entry.push(al);
                proof {
                    let after = self@.known_allocations;
                    assert(after =~= before.update(
                        i as int,
                        (before[i as int].0, before[i as int].1.push(al)),
                    ));
                    lemma_allocs_update_push(before, op, i as int, al, 0);
                    assert forall|op2: OutPoint| op2 != op implies allocs_at_from(after, op2, 0)
                        == allocs_at_from(before, op2, 0) by {
                        lemma_allocs_update_other(before, after, op2, 0);
                    }
                    lemma_table_add_found(before, op, al, i as int);
                    assert(after == spec_table_add(before, op, al));
                }
                return ;
            }
            i = i + 1;
        }
        let ghost before = self@.known_allocations;
        let mut single: Vec<Allocation> = Vec::new();
        single.push(al);
        self.known_allocations.push((op, single));
        proof {
            let after = self@.known_allocations;
            assert(after =~= before.push((op, seq![al])));
            lemma_allocs_append_new(before, op, seq![al], 0);
            lemma_allocs_absent(before, op, 0);
            assert(allocs_at_from(before, op, 0).push(al) =~= seq![al]);
            lemma_table_add_absent(before, op, al);
            assert(after == spec_table_add(before, op, al));
        }
    }
}

/// Appending a fresh key at the end: lookups of other keys are unchanged and
/// the fresh key maps to the new entry, provided the key was absent.
proof fn lemma_allocs_append_new(
    a: Seq<(OutPoint, Seq<Allocation>)>,
    op: OutPoint,
    entry: Seq<Allocation>,
    from: int,
)
    requires
        0 <= from <= a.len(),
        forall|j: int| 0 <= j < a.len() ==> (#[trigger] a[j]).0 != op,
    ensures
        allocs_at_from(a.push((op, entry)), op, from) == entry,
        forall|op2: OutPoint| op2 != op ==> allocs_at_from(a.push((op, entry)), op2, from)
            == allocs_at_from(a, op2, from),
    decreases a.len() - from,
{
    let p = a.push((op, entry));
    if from < a.len() {
        assert(p[from] == a[from]);
        lemma_allocs_append_new(a, op, entry, from + 1);
        assert forall|op2: OutPoint| op2 != op implies allocs_at_from(p, op2, from)
            == allocs_at_from(a, op2, from) by {
            assert(allocs_at_from(p, op2, from + 1) == allocs_at_from(a, op2, from + 1));
        }
    } else {
        assert(p[from] == (op, entry));
        assert forall|op2: OutPoint| op2 != op implies allocs_at_from(p, op2, from)
            == allocs_at_from(a, op2, from) by {
            assert(allocs_at_from(p, op2, from + 1) =~= Seq::<Allocation>::empty());
        }
    }
}

/// Updating the entry at the first index holding `op` by pushing a value.
proof fn lemma_allocs_update_push(
    a: Seq<(OutPoint, Seq<Allocation>)>,
    op: OutPoint,
    i: int,
    al: Allocation,
    from: int,
)
    requires
        0 <= from <= i < a.len(),
        a[i].0 == op,
        forall|j: int| 0 <= j < i ==> (#[trigger] a[j]).0 != op,
    ensures
        allocs_at_from(a.update(i, (a[i].0, a[i].1.push(al))), op, from) == allocs_at_from(
            a,
            op,
            from,
        ).push(al),
    decreases a.len() - from,
{
    let u = a.update(i, (a[i].0, a[i].1.push(al)));
    if from < i {
        lemma_allocs_update_push(a, op, i, al, from + 1);
    }
}

/// Updating one entry in place never changes lookups of keys different from
/// both the old and the new key at that position.
proof fn lemma_allocs_update_other(
    a: Seq<(OutPoint, Seq<Allocation>)>,
    u: Seq<(OutPoint, Seq<Allocation>)>,
    op2: OutPoint,
    from: int,
)
    requires
        0 <= from,
        a.len() == u.len(),
        forall|j: int| 0 <= j < a.len() ==> (#[trigger] a[j]).0 == u[j].0,
        forall|j: int| 0 <= j < a.len() ==> (#[trigger] a[j]).0 == op2 ==> a[j].1 == u[j].1,
    ensures
        allocs_at_from(u, op2, from) == allocs_at_from(a, op2, from),
    decreases a.len() - from,
{
    if from < a.len() {
        lemma_allocs_update_other(a, u, op2, from + 1);
    }
}

/// The asset cache: one asset per contract id.
#[derive(Clone, Debug)]
pub struct Cache {
    pub assets: Vec<Asset>,
}

/// The cached asset for a contract id, by first match.
pub open spec fn cache_asset_from(assets: Seq<Asset>, id: Hash32, from: int) -> Option<AssetV>
    decreases assets.len() - from,
{
    if from < 0 || from >= assets.len() {
        None
    } else if assets[from].contract_id == id {
        Some(assets[from]@)
    } else {
        cache_asset_from(assets, id, from + 1)
    }
}

pub open spec fn cache_asset(c: Cache, id: Hash32) -> Option<AssetV> {
    cache_asset_from(c.assets@, id, 0)
}

impl Cache {
    pub fn new() -> (r: Cache)
        ensures
            r.assets@.len() == 0,
    {
        Cache { assets: Vec::new() }
    }

    /// Whether the cache holds an asset under this contract id.
    pub fn has_asset(&self, id: &Hash32) -> (r: bool)
        ensures
            r == (cache_asset(*self, *id) is Some),
    {
        let mut i: usize = 0;
        while i < self.assets.len()
            invariant
                i <= self.assets@.len(),
                cache_asset(*self, *id) == cache_asset_from(self.assets@, *id, i as int),
            decreases self.assets@.len() - i,
        {
            if hash_eq(&self.assets[i].contract_id, id) {
                return true;
            }
            i = i + 1;
        }
        false
    }

    /// The cached asset for a contract id.
    pub fn asset<'a>(&'a self, id: &Hash32) -> (r: Option<&'a Asset>)
        ensures
            match r {
                Some(a) => cache_asset(*self, *id) == Some(a@) && a.contract_id == *id,
                None => cache_asset(*self, *id) is None,
            },
    {
        let mut i: usize = 0;
        while i < self.assets.len()
            invariant
                i <= self.assets@.len(),
                cache_asset(*self, *id) == cache_asset_from(self.assets@, *id, i as int),
            decreases self.assets@.len() - i,
        {
            if hash_eq(&self.assets[i].contract_id, id) {
                return Some(&self.assets[i]);
            }
            i = i + 1;
        }
        None
    }

    /// Inserts or replaces the asset stored under its contract id.
    pub fn add_asset(&mut self, a: Asset)
        ensures
            cache_asset(*final(self), a.contract_id) == Some(a@),
            forall|id: Hash32| id != a.contract_id ==> cache_asset(*final(self), id)
                == cache_asset(*old(self), id),
    {
        let mut i: usize = 0;
        while i < self.assets.len()
            invariant
                i <= self.assets@.len(),
                self == old(self),
                forall|j: int| 0 <= j < i ==> (#[trigger] self.assets@[j]).contract_id
                    != a.contract_id,
            decreases self.assets@.len() - i,
        {
            if hash_eq(&self.assets[i].contract_id, &a.contract_id) {
                let ghost before = self.assets@;
                let id = a.contract_id;
                self.assets.set(i, a);
                proof {
                    let after = self.assets@;
                    lemma_cache_update(before, after, i as int, id, 0);
                }
                return ;
            }
            i = i + 1;
        }
        let ghost before = self.assets@;
        let id = a.contract_id;
        self.assets.push(a);
        proof {
            let after = self.assets@;
            lemma_cache_append(before, after, id, 0);
        }
    }
}

proof fn lemma_cache_update(before: Seq<Asset>, after: Seq<Asset>, i: int, id: Hash32, from: int)
    requires
        0 <= from <= before.len(),
        0 <= i < before.len(),
        after.len() == before.len(),
        before[i].contract_id == id,
        after[i].contract_id == id,
        forall|j: int| 0 <= j < before.len() && j != i ==> after[j] == (#[trigger] before[j]),
        forall|j: int| 0 <= j < i ==> (#[trigger] before[j]).contract_id != id,
    ensures
        cache_asset_from(after, id, from) == if from <= i {
            Some(after[i]@)
        } else {
            cache_asset_from(before, id, from)
        },
        forall|id2: Hash32| id2 != id ==> cache_asset_from(after, id2, from) == cache_asset_from(
            before,
            id2,
            from,
        ),
    decreases before.len() - from,
{
    if from < before.len() {
        if from != i {
            assert(after[from] == before[from]);
        }
        lemma_cache_update(before, after, i, id, from + 1);
        assert forall|id2: Hash32| id2 != id implies cache_asset_from(after, id2, from)
            == cache_asset_from(before, id2, from) by {
            assert(cache_asset_from(after, id2, from + 1) == cache_asset_from(
                before,
                id2,
                from + 1,
            ));
        }
    }
}

proof fn lemma_cache_append(before: Seq<Asset>, after: Seq<Asset>, id: Hash32, from: int)
    requires
        0 <= from <= before.len(),
        after.len() == before.len() + 1,
        forall|j: int| 0 <= j < before.len() ==> after[j] == (#[trigger] before[j]),
        after[before.len() as int].contract_id == id,
        forall|j: int| 0 <= j < before.len() ==> (#[trigger] before[j]).contract_id != id,
    ensures
        cache_asset_from(after, id, from) == Some(after[before.len() as int]@),
        forall|id2: Hash32| id2 != id ==> cache_asset_from(after, id2, from) == cache_asset_from(
            before,
            id2,
            from,
        ),
    decreases before.len() - from,
{
    if from < before.len() {
        assert(after[from] == before[from]);
        lemma_cache_append(before, after, id, from + 1);
        assert forall|id2: Hash32| id2 != id implies cache_asset_from(after, id2, from)
            == cache_asset_from(before, id2, from) by {
            assert(cache_asset_from(after, id2, from + 1) == cache_asset_from(
                before,
                id2,
                from + 1,
            ));
        }
    } else {
        assert forall|id2: Hash32| id2 != id implies cache_asset_from(after, id2, from)
            == cache_asset_from(before, id2, from) by {
            assert(cache_asset_from(after, id2, from + 1) is None);
            assert(cache_asset_from(before, id2, from) is None);
        }
    }
}

/// Replacing the list of the first entry holding `op`.
proof fn lemma_allocs_update_set(
    a: Seq<(OutPoint, Seq<Allocation>)>,
    op: OutPoint,
    i: int,
    nl: Seq<Allocation>,
    from: int,
)
    requires
        0 <= from <= i < a.len(),
        a[i].0 == op,
        forall|j: int| 0 <= j < i ==> (#[trigger] a[j]).0 != op,
    ensures
        allocs_at_from(a.update(i, (a[i].0, nl)), op, from) == nl,
    decreases a.len() - from,
{
    if from < i {
        lemma_allocs_update_set(a, op, i, nl, from + 1);
    }
}

/// The `(node id, assignment index)` pairs of a list of allocations.
pub open spec fn pairs_of(s: Seq<Allocation>) -> Seq<(Hash32, u16)> {
    s.map_values(|al: Allocation| (al.node_id, al.index))
}

impl Asset {
    /// Drops every allocation known at an outpoint, returning the owned
    /// right references that were removed.  Allocations at every other
    /// outpoint are untouched.
    pub fn clear_outpoint(&mut self, op: &OutPoint) -> (removed: Vec<(Hash32, u16)>)
        ensures
            allocs_at(final(self)@, *op).len() == 0,
            forall|op2: OutPoint| op2 != *op ==> allocs_at(final(self)@, op2) == allocs_at(
                old(self)@,
                op2,
            ),
            removed@ == pairs_of(allocs_at(old(self)@, *op)),
            final(self).contract_id == old(self).contract_id,
            final(self).ticker@ == old(self).ticker@,
            final(self).name@ == old(self).name@,
            final(self).precision == old(self).precision,
            final(self).supply == old(self).supply,
    {
        let mut i: usize = 0;
        while i < self.known_allocations.len()
            invariant
                i <= self.known_allocations@.len(),
                *self == *old(self),
                forall|j: int| 0 <= j < i ==> (#[trigger] self@.known_allocations[j]).0 != *op,
            decreases self.known_allocations@.len() - i,
        {
            if outpoint_eq(&self.known_allocations[i].0, op) {
                let ghost before = self@.known_allocations;
                let mut removed: Vec<(Hash32, u16)> = Vec::new();
                let entry_len = self.known_allocations[i].1.len();
                let mut k: usize = 0;
                while k < entry_len
                    invariant
                        i < self.known_allocations@.len(),
                        *self == *old(self),
                        before == self@.known_allocations,
                        entry_len == before[i as int].1.len(),
                        k <= entry_len,
                        removed@ == pairs_of(before[i as int].1.subrange(0, k as int)),
                    decreases entry_len - k,
                {
                    let al = &self.known_allocations[i].1[k];
                    removed.push((al.node_id, al.index));
                    proof {
                        assert(before[i as int].1.subrange(0, k as int + 1) =~= before[
                            i as int
                        ].1.subrange(0, k as int).push(before[i as int].1[k as int]));
                        assert(removed@ =~= pairs_of(before[i as int].1.subrange(
                            0,
                            k as int + 1,
                        )));
                    }
                    k = k + 1;
                }
                let entry = &mut self.known_allocations[i].1;
                *entry = Vec::new();
                proof {
                    let after = self@.known_allocations;
                    assert(after =~= before.update(
                        i as int,
                        (before[i as int].0, Seq::<Allocation>::empty()),
                    ));
                    lemma_allocs_update_set(
                        before,
                        *op,
                        i as int,
                        Seq::<Allocation>::empty(),
                        0,
                    );
                    assert forall|op2: OutPoint| op2 != *op implies allocs_at_from(after, op2, 0)
                        == allocs_at_from(before, op2, 0) by {
                        lemma_allocs_update_other(before, after, op2, 0);
                    }
                    assert(allocs_at_from(before, *op, 0) == before[i as int].1) by {
                        lemma_allocs_update_set(before, *op, i as int, before[i as int].1, 0);
                        assert(before.update(
                            i as int,
                            (before[i as int].0, before[i as int].1),
                        ) =~= before);
                    }
                    assert(before[i as int].1.subrange(0, entry_len as int) =~= before[
                        i as int
                    ].1);
                }
                return removed;
            }
            i = i + 1;
        }
        proof {
            lemma_allocs_absent(self@.known_allocations, *op, 0);
            assert(pairs_of(allocs_at(old(self)@, *op)) =~= Seq::<(Hash32, u16)>::empty());
        }
        Vec::new()
    }
}

/// Contract ids of the assets that know a nonempty allocation set at an
/// outpoint, scanning from `from`.
pub open spec fn spec_outpoint_assets(assets: Seq<Asset>, op: OutPoint, from: int) -> Seq<Hash32>
    decreases assets.len() - from,
{
    if from < 0 || from >= assets.len() {
        Seq::empty()
    } else {
        (if allocs_at(assets[from]@, op).len() > 0 {
            seq![assets[from].contract_id]
        } else {
            Seq::empty()
        }) + spec_outpoint_assets(assets, op, from + 1)
    }
}

/// All allocations of an asset, flattened over its outpoints.
pub open spec fn spec_all_allocs(a: Seq<(OutPoint, Seq<Allocation>)>, from: int) -> Seq<Allocation>
    decreases a.len() - from,
{
    if from < 0 || from >= a.len() {
        Seq::empty()
    } else {
        a[from].1 + spec_all_allocs(a, from + 1)
    }
}

/// The owned-right references removed when an outpoint is forgotten: the
/// pairs of every allocation at it, in cache order.
pub open spec fn spec_removed_pairs(assets: Seq<Asset>, op: OutPoint, from: int) -> Seq<
    (Hash32, u16),
>
    decreases assets.len() - from,
{
    if from < 0 || from >= assets.len() {
        Seq::empty()
    } else {
        pairs_of(allocs_at(assets[from]@, op)) + spec_removed_pairs(assets, op, from + 1)
    }
}

impl Cache {
    /// The contracts that hold allocations at an outpoint.
    pub fn outpoint_assets(&self, op: &OutPoint) -> (r: Vec<Hash32>)
        ensures
            r@ == spec_outpoint_assets(self.assets@, *op, 0),
    {
        let mut r: Vec<Hash32> = Vec::new();
        let mut i: usize = 0;
        while i < self.assets.len()
            invariant
                i <= self.assets@.len(),
                spec_outpoint_assets(self.assets@, *op, 0) == r@ + spec_outpoint_assets(
                    self.assets@,
                    *op,
                    i as int,
                ),
            decreases self.assets@.len() - i,
        {
            let allocs = self.assets[i].allocations(op);
            let ghost prev = r@;
            if allocs.len() > 0 {
                r.push(self.assets[i].contract_id);
            }
            proof {
                let tail = spec_outpoint_assets(self.assets@, *op, i as int + 1);
                if allocs_at(self.assets@[i as int]@, *op).len() > 0 {
                    assert(prev + (seq![self.assets@[i as int].contract_id] + tail) =~= r@
                        + tail);
                } else {
                    assert(prev + (Seq::<Hash32>::empty() + tail) =~= r@ + tail);
                }
            }
            i = i + 1;
        }
        proof {
            assert(spec_outpoint_assets(self.assets@, *op, self.assets@.len() as int)
                =~= Seq::<Hash32>::empty());
            assert(r@ + Seq::<Hash32>::empty() =~= r@);
        }
        r
    }

    /// All allocations known for one contract.
    pub fn asset_allocations(&self, id: &Hash32) -> (r: Vec<Allocation>)
        ensures
            match cache_asset(*self, *id) {
                Some(a) => r@ == spec_all_allocs(a.known_allocations, 0),
                None => r@.len() == 0,
            },
    {
        let asset = match self.asset(id) {
            None => { return Vec::new(); },
            Some(a) => a,
        };
        let mut r: Vec<Allocation> = Vec::new();
        let mut i: usize = 0;
        while i < asset.known_allocations.len()
            invariant
                i <= asset.known_allocations@.len(),
                spec_all_allocs(asset@.known_allocations, 0) == r@ + spec_all_allocs(
                    asset@.known_allocations,
                    i as int,
                ),
            decreases asset.known_allocations@.len() - i,
        {
            let entry = &asset.known_allocations[i].1;
            let ghost base = r@;
            let mut k: usize = 0;
            while k < entry.len()
                invariant
                    i < asset.known_allocations@.len(),
                    entry@ == asset@.known_allocations[i as int].1,
                    k <= entry@.len(),
                    r@ == base + entry@.subrange(0, k as int),
                decreases entry@.len() - k,
            {
                r.push(entry[k]);
                proof {
                    assert(r@ =~= base + entry@.subrange(0, k as int + 1));
                }
                k = k + 1;
            }
            proof {
                assert(entry@.subrange(0, entry@.len() as int) =~= entry@);
                let tail = spec_all_allocs(asset@.known_allocations, i as int + 1);
                assert(base + (entry@ + tail) =~= r@ + tail);
            }
            i = i + 1;
        }
        proof {
            assert(spec_all_allocs(asset@.known_allocations, asset@.known_allocations.len() as int)
                =~= Seq::<Allocation>::empty());
            assert(r@ + Seq::<Allocation>::empty() =~= r@);
        }
        r
    }

    /// Forgets an outpoint: afterwards no asset holds allocations at it, and
    /// no other outpoint's allocation set changes.  Returns the removed
    /// owned-right references, in cache order, for the stash to drop.
    pub fn forget_outpoint(&mut self, op: &OutPoint) -> (removed: Vec<(Hash32, u16)>)
        ensures
            final(self).assets@.len() == old(self).assets@.len(),
            forall|i: int| 0 <= i < old(self).assets@.len() ==> {
                &&& allocs_at((#[trigger] final(self).assets@[i])@, *op).len() == 0
                &&& final(self).assets@[i].contract_id == old(self).assets@[i].contract_id
                &&& final(self).assets@[i].ticker@ == old(self).assets@[i].ticker@
                &&& final(self).assets@[i].name@ == old(self).assets@[i].name@
                &&& final(self).assets@[i].precision == old(self).assets@[i].precision
                &&& final(self).assets@[i].supply == old(self).assets@[i].supply
                &&& forall|op2: OutPoint| op2 != *op ==> allocs_at(
                    (#[trigger] final(self).assets@[i])@,
                    op2,
                ) == allocs_at(old(self).assets@[i]@, op2)
            },
            removed@.len() == 0 <==> (forall|i: int|
                0 <= i < old(self).assets@.len() ==> allocs_at(
                    (#[trigger] old(self).assets@[i])@,
                    *op,
                ).len() == 0),
            removed@ == spec_removed_pairs(old(self).assets@, *op, 0),
    {
        let mut removed: Vec<(Hash32, u16)> = Vec::new();
        let mut i: usize = 0;
        while i < self.assets.len()
            invariant
                i <= self.assets@.len(),
                self.assets@.len() == old(self).assets@.len(),
                forall|j: int| i <= j < old(self).assets@.len() ==> (#[trigger] self.assets@[j])
                    == old(self).assets@[j],
                forall|j: int| 0 <= j < i ==> {
                    &&& allocs_at((#[trigger] self.assets@[j])@, *op).len() == 0
                    &&& self.assets@[j].contract_id == old(self).assets@[j].contract_id
                    &&& self.assets@[j].ticker@ == old(self).assets@[j].ticker@
                    &&& self.assets@[j].name@ == old(self).assets@[j].name@
                    &&& self.assets@[j].precision == old(self).assets@[j].precision
                    &&& self.assets@[j].supply == old(self).assets@[j].supply
                    &&& forall|op2: OutPoint| op2 != *op ==> allocs_at(
                        (#[trigger] self.assets@[j])@,
                        op2,
                    ) == allocs_at(old(self).assets@[j]@, op2)
                },
                removed@.len() == 0 <==> (forall|j: int|
                    0 <= j < i ==> allocs_at((#[trigger] old(self).assets@[j])@, *op).len()
                        == 0),
                spec_removed_pairs(old(self).assets@, *op, 0) == removed@ + spec_removed_pairs(
                    old(self).assets@,
                    *op,
                    i as int,
                ),
            decreases self.assets@.len() - i,
        {
            let part = self.assets[i].clear_outpoint(op);
            proof {
                assert(pairs_of(allocs_at(old(self).assets@[i as int]@, *op)).len() == allocs_at(
                    old(self).assets@[i as int]@,
                    *op,
                ).len());
            }
            let mut k: usize = 0;
            let ghost base = removed@;
            while k < part.len()
                invariant
                    k <= part@.len(),
                    part@ == pairs_of(allocs_at(old(self).assets@[i as int]@, *op)),
                    removed@ == base + part@.subrange(0, k as int),
                decreases part@.len() - k,
            {
                removed.push(part[k]);
                proof {
                    assert(removed@ =~= base + part@.subrange(0, k as int + 1));
                }
                k = k + 1;
            }
            proof {
                assert(part@.subrange(0, part@.len() as int) =~= part@);
                assert(removed@ == base + part@);
                let tail = spec_removed_pairs(old(self).assets@, *op, i as int + 1);
                assert(spec_removed_pairs(old(self).assets@, *op, i as int) == part@ + tail);
                assert(base + (part@ + tail) =~= removed@ + tail);
            }
            i = i + 1;
        }
        proof {
            assert(spec_removed_pairs(old(self).assets@, *op, old(self).assets@.len() as int)
                =~= Seq::<(Hash32, u16)>::empty());
            assert(removed@ + Seq::<(Hash32, u16)>::empty() =~= removed@);
        }
        removed
    }
}


// ---------------------------------------------------------------------------
// Strict encoding of the cache, for the sync export
// ---------------------------------------------------------------------------

/// Strict encoding of one allocation.
pub open spec fn spec_enc_allocation(al: Allocation) -> Seq<u8> {
    spec_enc_outpoint(al.outpoint) + spec_enc_hash32(al.node_id) + spec_u16_to_le_bytes(al.index)
        + spec_u64_to_le_bytes(al.amount) + spec_u64_to_le_bytes(al.blinding)
}

pub open spec fn spec_enc_alloc_seq(s: Seq<Allocation>) -> Seq<u8>
    decreases s.len(),
{
    if s.len() == 0 {
        Seq::empty()
    } else {
        spec_enc_allocation(s[0]) + spec_enc_alloc_seq(s.drop_first())
    }
}

proof fn lemma_enc_alloc_seq_snoc(s: Seq<Allocation>, x: Allocation)
    ensures
        spec_enc_alloc_seq(s.push(x)) == spec_enc_alloc_seq(s) + spec_enc_allocation(x),
    decreases s.len(),
{
    let ps = s.push(x);
    if s.len() == 0 {
        assert(ps[0] == x);
        assert(ps.drop_first() =~= Seq::<Allocation>::empty());
        assert(spec_enc_alloc_seq(ps.drop_first()) == Seq::<u8>::empty());
        assert(spec_enc_alloc_seq(ps) =~= spec_enc_alloc_seq(s) + spec_enc_allocation(x));
    } else {
        assert(ps[0] == s[0]);
        assert(ps.drop_first() =~= s.drop_first().push(x));
        lemma_enc_alloc_seq_snoc(s.drop_first(), x);
        assert(spec_enc_alloc_seq(ps.drop_first()) == spec_enc_alloc_seq(s.drop_first())
            + spec_enc_allocation(x));
        assert(spec_enc_alloc_seq(ps) =~= spec_enc_alloc_seq(s) + spec_enc_allocation(x));
    }
}

/// Strict encoding of one cached asset: its fields, then its allocations,
/// flattened over the outpoints in cache order.
pub open spec fn spec_enc_asset(a: AssetV) -> Seq<u8> {
    spec_enc_hash32(a.contract_id) + spec_enc_bytes(a.ticker) + spec_enc_bytes(a.name) + seq![
        a.precision,
    ] + spec_u64_to_le_bytes(a.supply) + spec_enc_varint(
        spec_all_allocs(a.known_allocations, 0).len() as u64,
    ) + spec_enc_alloc_seq(spec_all_allocs(a.known_allocations, 0))
}

pub open spec fn spec_enc_asset_seq(s: Seq<Asset>) -> Seq<u8>
    decreases s.len(),
{
    if s.len() == 0 {
        Seq::empty()
    } else {
        spec_enc_asset(s[0]@) + spec_enc_asset_seq(s.drop_first())
    }
}

proof fn lemma_enc_asset_seq_snoc(s: Seq<Asset>, x: Asset)
    ensures
        spec_enc_asset_seq(s.push(x)) == spec_enc_asset_seq(s) + spec_enc_asset(x@),
    decreases s.len(),
{
    let ps = s.push(x);
    if s.len() == 0 {
        assert(ps[0] == x);
        assert(ps.drop_first() =~= Seq::<Asset>::empty());
        assert(spec_enc_asset_seq(ps.drop_first()) == Seq::<u8>::empty());
        assert(spec_enc_asset_seq(ps) =~= spec_enc_asset_seq(s) + spec_enc_asset(x@));
    } else {
        assert(ps[0] == s[0]);
        assert(ps.drop_first() =~= s.drop_first().push(x));
        lemma_enc_asset_seq_snoc(s.drop_first(), x);
        assert(spec_enc_asset_seq(ps.drop_first()) == spec_enc_asset_seq(s.drop_first())
            + spec_enc_asset(x@));
        assert(spec_enc_asset_seq(ps) =~= spec_enc_asset_seq(s) + spec_enc_asset(x@));
    }
}

/// Strict encoding of the whole cache.
pub open spec fn spec_enc_cache(c: Cache) -> Seq<u8> {
    spec_enc_varint(c.assets@.len() as u64) + spec_enc_asset_seq(c.assets@)
}

impl Asset {
    /// All allocations of the asset, flattened over its outpoints.
    pub fn all_allocations(&self) -> (r: Vec<Allocation>)
        ensures
            r@ == spec_all_allocs(self@.known_allocations, 0),
    {
        let mut r: Vec<Allocation> = Vec::new();
        let mut i: usize = 0;
        while i < self.known_allocations.len()
            invariant
                i <= self.known_allocations@.len(),
                spec_all_allocs(self@.known_allocations, 0) == r@ + spec_all_allocs(
                    self@.known_allocations,
                    i as int,
                ),
            decreases self.known_allocations@.len() - i,
        {
            let entry = &self.known_allocations[i].1;
            let ghost base = r@;
            let mut k: usize = 0;
            while k < entry.len()
                invariant
                    i < self.known_allocations@.len(),
                    entry@ == self@.known_allocations[i as int].1,
                    k <= entry@.len(),
                    r@ == base + entry@.subrange(0, k as int),
                decreases entry@.len() - k,
            {
                r.push(entry[k]);
                proof {
                    assert(r@ =~= base + entry@.subrange(0, k as int + 1));
                }
                k = k + 1;
            }
            proof {
                assert(entry@.subrange(0, entry@.len() as int) =~= entry@);
                let tail = spec_all_allocs(self@.known_allocations, i as int + 1);
                assert(base + (entry@ + tail) =~= r@ + tail);
            }
            i = i + 1;
        }
        proof {
            assert(spec_all_allocs(
                self@.known_allocations,
                self@.known_allocations.len() as int,
            ) =~= Seq::<Allocation>::empty());
            assert(r@ + Seq::<Allocation>::empty() =~= r@);
        }
        r
    }
}

fn write_allocation(out: &mut Vec<u8>, al: &Allocation)
    ensures
        final(out)@ == old(out)@ + spec_enc_allocation(*al),
{
    write_outpoint(out, &al.outpoint);
    write_hash32(out, &al.node_id);
    write_u16(out, al.index);
    write_u64(out, al.amount);
    write_u64(out, al.blinding);
    proof {
        assert(final(out)@ =~= old(out)@ + spec_enc_allocation(*al));
    }
}

fn write_asset(out: &mut Vec<u8>, a: &Asset)
    ensures
        final(out)@ == old(out)@ + spec_enc_asset(a@),
{
    write_hash32(out, &a.contract_id);
    write_bytes(out, &a.ticker);
    write_bytes(out, &a.name);
    write_u8(out, a.precision);
    write_u64(out, a.supply);
    let allocs = a.all_allocations();
    write_varint(out, allocs.len() as u64);
    let ghost mid = out@;
    let mut k: usize = 0;
    while k < allocs.len()
        invariant
            allocs@ == spec_all_allocs(a@.known_allocations, 0),
            k <= allocs@.len(),
            out@ == mid + spec_enc_alloc_seq(allocs@.subrange(0, k as int)),
        decreases allocs@.len() - k,
    {
        write_allocation(out, &allocs[k]);
        proof {
            lemma_enc_alloc_seq_snoc(allocs@.subrange(0, k as int), allocs@[k as int]);
            assert(allocs@.subrange(0, k as int).push(allocs@[k as int]) =~= allocs@.subrange(
                0,
                k as int + 1,
            ));
        }
        k = k + 1;
    }
    proof {
        assert(allocs@.subrange(0, allocs@.len() as int) =~= allocs@);
        assert(final(out)@ =~= old(out)@ + spec_enc_asset(a@));
    }
}

/// Strict encoding of the cache, the format of the sync export.
pub fn encode_cache(c: &Cache) -> (r: Vec<u8>)
    ensures
        r@ == spec_enc_cache(*c),
{
    let mut out: Vec<u8> = Vec::new();
    write_varint(&mut out, c.assets.len() as u64);
    let ghost mid = out@;
    let mut i: usize = 0;
    while i < c.assets.len()
        invariant
            i <= c.assets@.len(),
            out@ == mid + spec_enc_asset_seq(c.assets@.subrange(0, i as int)),
        decreases c.assets@.len() - i,
    {
        write_asset(&mut out, &c.assets[i]);
        proof {
            lemma_enc_asset_seq_snoc(c.assets@.subrange(0, i as int), c.assets@[i as int]);
            assert(c.assets@.subrange(0, i as int).push(c.assets@[i as int]) =~= c.assets@.subrange(
                0,
                i as int + 1,
            ));
        }
        i = i + 1;
    }
    proof {
        assert(c.assets@.subrange(0, c.assets@.len() as int) =~= c.assets@);
        assert(out@ =~= spec_enc_cache(*c));
    }
    out
}


} // verus!
