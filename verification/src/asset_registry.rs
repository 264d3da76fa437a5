//! Asset registry: registries of assets owned by DIDs, and leases of shares of assets.
//!
//! The subject of a DID creates registries under it and assets in them. A lease
//! allocates shares of assets from a lessor to a lessee until the lease expires; the
//! shares of an asset that unexpired leases hold never exceed its total shares at the
//! time a lease is made. The time that calls use is read by the runtime and handed in.
use crate::groups::{account_or_approved, ensure_account_or_approved, next_id, take_next_id, Origin};
use crate::identity::Identity;
use crate::primitives::{asset_fits, check_asset, check_limit, fits, Asset, AssetAllocation, AssetProperty, Did, LeaseAgreement, Moment, Registry};
use crate::table::Table;
use crate::weight_inputs::{fact_len, fact_len_of, max_of, max_u32};
use vstd::prelude::*;

verus! {

/// An entry of the allocations of an asset: (lease id, allocated shares, expiry of the lease).
pub type LeaseAllocation = (u32, u64, Moment);

/// The errors of the asset registry.
#[derive(Clone, Copy, Debug, PartialEq, Eq, Structural)]
pub enum Error {
    /// The origin is not the one the call requires.
    BadOrigin,
    /// Value was None
    NoneValue,
    /// A string exceeds the maximum allowed length
    BadString,
    /// the calling account is not the subject of owner_did
    NotDidSubject,
    /// A non-registry owner account attempted to  modify a registry or asset in the registry
    NotRegistryOwner,
    /// Delete all assets in registry before deleting registry
    RegistryNotEmpty,
    /// Id out of bounds
    NoIdAvailable,
    /// Some assets could not be allocated
    AssetAllocationFailed,
    /// The asset is part of an active lease and cannot be removed
    AssetInActiveLease,
}

/// The events of the asset registry.
#[derive(Clone, Copy, Debug, PartialEq, Eq)]
pub enum Event {
    /// New registry created (owner_did, registry_id)
    RegistryCreated(Did, u32),
    /// A registry was renamed (owner_did, registry_id)
    RegistryRenamed(Did, u32),
    /// A registry was deleted (owner_did, registry_id)
    RegistryDeleted(Did, u32),
    /// New asset created in registry (registry_id, asset_id)
    AssetCreated(u32, u32),
    /// Asset was updated in registry (owner_did, registry_id, asset_id)
    AssetUpdated(Did, u32, u32),
    /// Asset was deleted in registry (owner_did, registry_id, asset_id)
    AssetDeleted(Did, u32, u32),
    /// (lease_id, lessor, lessee)
    LeaseCreated(u32, Did, Did),
    /// (lease_id, lessor)
    LeaseVoided(u32, Did),
}

/// The storage of the asset registry.
pub struct AssetRegistry {
    /// The maximum length of a name.
    pub name_limit: u32,
    /// The maximum length of a fact string.
    pub fact_string_limit: u32,
    /// The next available registry id.
    pub next_registry_id: u32,
    /// The next available asset id.
    pub next_asset_id: u32,
    /// The next available lease id.
    pub next_lease_id: u32,
    /// (owner DID, registry id) => registry
    pub registries: Table<(Did, u32), Registry>,
    /// (registry id, asset id) => asset
    pub assets: Table<(u32, u32), Asset>,
    /// (registry id, asset id) => allocations of the asset to leases
    pub lease_allocations: Table<(u32, u32), Vec<LeaseAllocation>>,
    /// (lessor DID, lease id) => lease agreement
    pub lease_agreements: Table<(Did, u32), LeaseAgreement>,
}

/// The abstract state of the asset registry.
pub struct AssetRegistryState {
    pub name_limit: u32,
    pub fact_string_limit: u32,
    pub next_registry_id: u32,
    pub next_asset_id: u32,
    pub next_lease_id: u32,
    pub registries: Map<(Did, u32), Registry>,
    pub assets: Map<(u32, u32), Asset>,
    pub lease_allocations: Map<(u32, u32), Seq<LeaseAllocation>>,
    pub lease_agreements: Map<(Did, u32), LeaseAgreement>,
}

impl View for AssetRegistry {
    type V = AssetRegistryState;

    open spec fn view(&self) -> AssetRegistryState {
        AssetRegistryState {
            name_limit: self.name_limit,
            fact_string_limit: self.fact_string_limit,
            next_registry_id: self.next_registry_id,
            next_asset_id: self.next_asset_id,
            next_lease_id: self.next_lease_id,
            registries: self.registries@,
            assets: self.assets@,
            lease_allocations: views(self.lease_allocations@),
            lease_agreements: self.lease_agreements@,
        }
    }
}

/// The allocations of each asset, as sequences.
pub open spec fn views(m: Map<(u32, u32), Vec<LeaseAllocation>>) -> Map<(u32, u32), Seq<LeaseAllocation>> {
    m.map_values(|v: Vec<LeaseAllocation>| v@)
}

proof fn lemma_views_insert(m: Map<(u32, u32), Vec<LeaseAllocation>>, k: (u32, u32), v: Vec<LeaseAllocation>)
    ensures
        views(m.insert(k, v)) == views(m).insert(k, v@),
{
    assert(views(m.insert(k, v)) =~= views(m).insert(k, v@));
}

/// Filtering twice by one test is filtering once.
proof fn lemma_filter_twice<A>(s: Seq<A>, p: spec_fn(A) -> bool)
    ensures
        s.filter(p).filter(p) == s.filter(p),
    decreases s.len(),
{
    if s.len() == 0 {
        assert(s.filter(p) =~= Seq::<A>::empty());
        assert(s.filter(p).filter(p) =~= Seq::<A>::empty());
    } else {
        let t = s.drop_last();
        let e = s.last();
        assert(s =~= t.push(e));
        lemma_filter_twice(t, p);
        t.lemma_filter_push(e, p);
        if p(e) {
            t.filter(p).lemma_filter_push(e, p);
        }
    }
}

/// The shares that the unexpired entries hold: those that expire after `now`.
pub open spec fn live_shares(s: Seq<LeaseAllocation>, now: Moment) -> int
    decreases s.len(),
{
    if s.len() == 0 {
        0
    } else {
        live_shares(s.drop_last(), now) + if s.last().2 > now {
            s.last().1 as int
        } else {
            0
        }
    }
}

/// The unexpired entries, in order.
pub open spec fn live(s: Seq<LeaseAllocation>, now: Moment) -> Seq<LeaseAllocation> {
    s.filter(unexpired(now))
}

/// An entry expires after `now`.
pub open spec fn unexpired(now: Moment) -> spec_fn(LeaseAllocation) -> bool {
    |e: LeaseAllocation| e.2 > now
}

/// An entry is not of a lease.
pub open spec fn not_of(lease_id: u32) -> spec_fn(LeaseAllocation) -> bool {
    |e: LeaseAllocation| e.0 != lease_id
}

/// The entries that are not of a lease, in order.
pub open spec fn other_leases(s: Seq<LeaseAllocation>, lease_id: u32) -> Seq<LeaseAllocation> {
    s.filter(not_of(lease_id))
}

/// The key of the asset of an allocation.
pub open spec fn asset_key(a: AssetAllocation) -> (u32, u32) {
    (a.registry_id, a.asset_id)
}

/// The assets that some allocations name.
pub open spec fn allocated_keys(allocs: Seq<AssetAllocation>) -> Set<(u32, u32)> {
    allocs.map_values(|a: AssetAllocation| asset_key(a)).to_set()
}

/// Allocations after the expired entries of the named assets are dropped.
pub open spec fn pruned(
    m: Map<(u32, u32), Seq<LeaseAllocation>>,
    keys: Set<(u32, u32)>,
    now: Moment,
) -> Map<(u32, u32), Seq<LeaseAllocation>> {
    Map::new(
        |k: (u32, u32)| m.contains_key(k),
        |k: (u32, u32)|
            if keys.contains(k) {
                live(m[k], now)
            } else {
                m[k]
            },
    )
}

/// Allocations after each allocation of a lease is appended to its asset's entries, in order.
pub open spec fn appended(
    m: Map<(u32, u32), Seq<LeaseAllocation>>,
    allocs: Seq<AssetAllocation>,
    lease_id: u32,
    expiry: Moment,
) -> Map<(u32, u32), Seq<LeaseAllocation>>
    decreases allocs.len(),
{
    if allocs.len() == 0 {
        m
    } else {
        let k = asset_key(allocs[0]);
        let prior = if m.contains_key(k) {
            m[k]
        } else {
            Seq::empty()
        };
        appended(
            m.insert(k, prior.push((lease_id, allocs[0].allocated_shares, expiry))),
            allocs.drop_first(),
            lease_id,
            expiry,
        )
    }
}

/// Allocations after a voided lease's entries are dropped from the named assets.
pub open spec fn voided(
    m: Map<(u32, u32), Seq<LeaseAllocation>>,
    keys: Set<(u32, u32)>,
    lease_id: u32,
) -> Map<(u32, u32), Seq<LeaseAllocation>> {
    Map::new(
        |k: (u32, u32)| m.contains_key(k),
        |k: (u32, u32)|
            if keys.contains(k) {
                other_leases(m[k], lease_id)
            } else {
                m[k]
            },
    )
}

/// The unexpired entries of a list of allocations, in order.
fn live_entries(s: &Vec<LeaseAllocation>, now: Moment) -> (r: Vec<LeaseAllocation>)
    ensures
        r@ == live(s@, now),
{
    let mut r: Vec<LeaseAllocation> = Vec::new();
    let mut i: usize = 0;
    while i < s.len()
        invariant
            i <= s@.len(),
            r@ == live(s@.take(i as int), now),
        decreases s@.len() - i,
    {
        let e = s[i];
        assert(s@.take(i as int + 1) =~= s@.take(i as int).push(e));
        proof {
            s@.take(i as int).lemma_filter_push(e, unexpired(now));
        }
        if e.2 > now {
            r.push(e);
        }
        i += 1;
    }
    assert(s@.take(i as int) =~= s@);
    r
}

/// The entries of a list of allocations that are not of a lease, in order.
fn without_lease(s: &Vec<LeaseAllocation>, lease_id: u32) -> (r: Vec<LeaseAllocation>)
    ensures
        r@ == other_leases(s@, lease_id),
{
    let mut r: Vec<LeaseAllocation> = Vec::new();
    let mut i: usize = 0;
    while i < s.len()
        invariant
            i <= s@.len(),
            r@ == other_leases(s@.take(i as int), lease_id),
        decreases s@.len() - i,
    {
        let e = s[i];
        assert(s@.take(i as int + 1) =~= s@.take(i as int).push(e));
        proof {
            s@.take(i as int).lemma_filter_push(e, not_of(lease_id));
        }
        if e.0 != lease_id {
            r.push(e);
        }
        i += 1;
    }
    assert(s@.take(i as int) =~= s@);
    r
}

/// The shares that the unexpired entries hold.
fn sum_live_shares(s: &Vec<LeaseAllocation>, now: Moment) -> (r: u128)
    ensures
        r == live_shares(s@, now),
        r + u64::MAX <= u128::MAX,
{
    let mut total: u128 = 0;
    let mut i: usize = 0;
    while i < s.len()
        invariant
            i <= s@.len(),
            total == live_shares(s@.take(i as int), now),
            total <= i * (u64::MAX as int),
        decreases s@.len() - i,
    {
        let e = s[i];
        assert(s@.take(i as int + 1).drop_last() =~= s@.take(i as int));
        assert(i * (u64::MAX as int) + u64::MAX <= (i + 1) * (u64::MAX as int)) by (nonlinear_arith);
        assert((i + 1) * (u64::MAX as int) < u128::MAX) by (nonlinear_arith)
            requires
                i < usize::MAX,
        ;
        if e.2 > now {
            total = total + e.1 as u128;
        }
        i += 1;
    }
    assert(s@.take(i as int) =~= s@);
    assert(total + u64::MAX <= u128::MAX) by (nonlinear_arith)
        requires
            total <= i * (u64::MAX as int),
            i <= usize::MAX,
    ;
    total
}

/// The shares that a lease's allocations ask of an asset, all together.
fn sum_lease_shares(allocs: &Vec<AssetAllocation>, k: (u32, u32)) -> (r: u128)
    ensures
        r == lease_shares(allocs@, k),
{
    let mut total: u128 = 0;
    let mut i: usize = 0;
    assert(allocs@.take(0) =~= Seq::<AssetAllocation>::empty());
    while i < allocs.len()
        invariant
            i <= allocs@.len(),
            total == lease_shares(allocs@.take(i as int), k),
            total <= i * (u64::MAX as int),
        decreases allocs@.len() - i,
    {
        let a = allocs[i];
        proof {
            assert(allocs@.take(i as int + 1) =~= allocs@.take(i as int).push(a));
            lemma_lease_shares_push(allocs@.take(i as int), a, k);
        }
        assert(i * (u64::MAX as int) + u64::MAX <= (i + 1) * (u64::MAX as int)) by (nonlinear_arith);
        assert((i + 1) * (u64::MAX as int) < u128::MAX) by (nonlinear_arith)
            requires
                i < usize::MAX,
        ;
        if a.registry_id == k.0 && a.asset_id == k.1 {
            total = total + a.allocated_shares as u128;
        }
        i += 1;
    }
    assert(allocs@.take(i as int) =~= allocs@);
    total
}

/// Drops the expired entries of the assets that allocations name.
fn prune(t: &mut Table<(u32, u32), Vec<LeaseAllocation>>, allocs: &Vec<AssetAllocation>, now: Moment)
    requires
        old(t).wf(),
    ensures
        final(t).wf(),
        views(final(t)@) == pruned(views(old(t)@), allocated_keys(allocs@), now),
{
    let ghost start = views(t@);
    let mut i: usize = 0;
    assert(allocated_keys(allocs@.take(0)) =~= Set::<(u32, u32)>::empty());
    assert(pruned(start, Set::empty(), now) =~= start);
    while i < allocs.len()
        invariant
            t.wf(),
            i <= allocs@.len(),
            views(t@) == pruned(start, allocated_keys(allocs@.take(i as int)), now),
        decreases allocs@.len() - i,
    {
        let a = allocs[i];
        let k = (a.registry_id, a.asset_id);
        let ghost before = allocated_keys(allocs@.take(i as int));
        let ghost after = allocated_keys(allocs@.take(i as int + 1));
        proof {
            let ks = allocs@.take(i as int).map_values(|a: AssetAllocation| asset_key(a));
            assert(allocs@.take(i as int + 1).map_values(|a: AssetAllocation| asset_key(a)) =~= ks.push(k));
            assert(after =~= before.insert(k)) by {
                assert forall|x: (u32, u32)| after.contains(x) <==> before.insert(k).contains(x) by {
                    let ks2 = ks.push(k);
                    if ks2.contains(x) {
                        let j = choose|j: int| 0 <= j < ks2.len() && ks2[j] == x;
                        if j < ks.len() {
                            assert(ks[j] == x);
                            assert(ks.contains(x));
                        }
                    }
                    if ks.contains(x) {
                        let j = choose|j: int| 0 <= j < ks.len() && ks[j] == x;
                        assert(ks2[j] == x);
                    }
                    if x == k {
                        assert(ks2[ks.len() as int] == x);
                    }
                }
            }
        }
        let ghost cur = t@;
        match t.remove(&k) {
            Some(list) => {
                let l = live_entries(&list, now);
                t.insert(k, l);
                proof {
                    lemma_views_insert(cur, k, l);
                    assert(cur.remove(k).insert(k, l) =~= cur.insert(k, l));
                    assert(views(cur).contains_key(k));
                    assert(views(cur)[k] == list@);
                    if before.contains(k) {
                        lemma_filter_twice(start[k], unexpired(now));
                        assert(l@ == live(start[k], now));
                    } else {
                        assert(l@ == live(start[k], now));
                    }
                    assert(views(t@) =~= pruned(start, after, now));
                }
            },
            None => {
                proof {
                    assert(t@ =~= cur);
                    assert(!views(cur).contains_key(k));
                    assert(views(t@) =~= pruned(start, after, now));
                }
            },
        }
        i += 1;
    }
    assert(allocs@.take(i as int) =~= allocs@);
}

/// Appends each allocation of a lease to its asset's entries, in order.
fn append_allocations(
    t: &mut Table<(u32, u32), Vec<LeaseAllocation>>,
    allocs: &Vec<AssetAllocation>,
    lease_id: u32,
    expiry: Moment,
)
    requires
        old(t).wf(),
    ensures
        final(t).wf(),
        views(final(t)@) == appended(views(old(t)@), allocs@, lease_id, expiry),
{
    let ghost start = views(t@);
    let mut i: usize = 0;
    assert(allocs@.skip(0) =~= allocs@);
    while i < allocs.len()
        invariant
            t.wf(),
            i <= allocs@.len(),
            appended(views(t@), allocs@.skip(i as int), lease_id, expiry) == appended(start, allocs@, lease_id, expiry),
        decreases allocs@.len() - i,
    {
        let a = allocs[i];
        let k = (a.registry_id, a.asset_id);
        let entry: LeaseAllocation = (lease_id, a.allocated_shares, expiry);
        let ghost cur = t@;
        assert(allocs@.skip(i as int)[0] == a);
        assert(allocs@.skip(i as int).drop_first() =~= allocs@.skip(i as int + 1));
        match t.remove(&k) {
            Some(list) => {
                let mut l = list;
                l.push(entry);
                let ghost lv = l;
                t.insert(k, l);
                proof {
                    lemma_views_insert(cur.remove(k), k, lv);
                    assert(cur.remove(k).insert(k, lv) =~= cur.insert(k, lv));
                    lemma_views_insert(cur, k, lv);
                }
            },
            None => {
                let mut l: Vec<LeaseAllocation> = Vec::new();
                l.push(entry);
                let ghost lv = l;
                t.insert(k, l);
                proof {
                    lemma_views_insert(cur.remove(k), k, lv);
                    assert(cur.remove(k) =~= cur);
                    assert(lv@ =~= Seq::<LeaseAllocation>::empty().push(entry));
                }
            },
        }
        i += 1;
    }
}

/// Drops a lease's entries from the assets that its allocations name.
fn release(t: &mut Table<(u32, u32), Vec<LeaseAllocation>>, allocs: &Vec<AssetAllocation>, lease_id: u32)
    requires
        old(t).wf(),
    ensures
        final(t).wf(),
        views(final(t)@) == voided(views(old(t)@), allocated_keys(allocs@), lease_id),
{
    let ghost start = views(t@);
    let mut i: usize = 0;
    assert(allocated_keys(allocs@.take(0)) =~= Set::<(u32, u32)>::empty());
    assert(voided(start, Set::empty(), lease_id) =~= start);
    while i < allocs.len()
        invariant
            t.wf(),
            i <= allocs@.len(),
            views(t@) == voided(start, allocated_keys(allocs@.take(i as int)), lease_id),
        decreases allocs@.len() - i,
    {
        let a = allocs[i];
        let k = (a.registry_id, a.asset_id);
        let ghost before = allocated_keys(allocs@.take(i as int));
        let ghost after = allocated_keys(allocs@.take(i as int + 1));
        proof {
            let ks = allocs@.take(i as int).map_values(|a: AssetAllocation| asset_key(a));
            assert(allocs@.take(i as int + 1).map_values(|a: AssetAllocation| asset_key(a)) =~= ks.push(k));
            assert(after =~= before.insert(k)) by {
                assert forall|x: (u32, u32)| after.contains(x) <==> before.insert(k).contains(x) by {
                    let ks2 = ks.push(k);
                    if ks2.contains(x) {
                        let j = choose|j: int| 0 <= j < ks2.len() && ks2[j] == x;
                        if j < ks.len() {
                            assert(ks[j] == x);
                            assert(ks.contains(x));
                        }
                    }
                    if ks.contains(x) {
                        let j = choose|j: int| 0 <= j < ks.len() && ks[j] == x;
                        assert(ks2[j] == x);
                    }
                    if x == k {
                        assert(ks2[ks.len() as int] == x);
                    }
                }
            }
        }
        let ghost cur = t@;
        match t.remove(&k) {
            Some(list) => {
                let l = without_lease(&list, lease_id);
                t.insert(k, l);
                proof {
                    lemma_views_insert(cur, k, l);
                    assert(cur.remove(k).insert(k, l) =~= cur.insert(k, l));
                    assert(views(cur).contains_key(k));
                    assert(views(cur)[k] == list@);
                    if before.contains(k) {
                        lemma_filter_twice(start[k], not_of(lease_id));
                        assert(l@ == other_leases(start[k], lease_id));
                    } else {
                        assert(l@ == other_leases(start[k], lease_id));
                    }
                    assert(views(t@) =~= voided(start, after, lease_id));
                }
            },
            None => {
                proof {
                    assert(t@ =~= cur);
                    assert(!views(cur).contains_key(k));
                    assert(views(t@) =~= voided(start, after, lease_id));
                }
            },
        }
        i += 1;
    }
    assert(allocs@.take(i as int) =~= allocs@);
}

/// The entries of an asset, or none.
pub open spec fn entries_of(m: Map<(u32, u32), Seq<LeaseAllocation>>, k: (u32, u32)) -> Seq<LeaseAllocation> {
    if m.contains_key(k) {
        m[k]
    } else {
        Seq::empty()
    }
}

/// The shares that a lease's allocations ask of an asset, all together.
pub open spec fn lease_shares(allocs: Seq<AssetAllocation>, k: (u32, u32)) -> int
    decreases allocs.len(),
{
    if allocs.len() == 0 {
        0
    } else {
        (if asset_key(allocs[0]) == k {
            allocs[0].allocated_shares as int
        } else {
            0
        }) + lease_shares(allocs.drop_first(), k)
    }
}

/// Every asset that a lease names exists, and the unexpired entries of the asset
/// plus all the shares that the lease asks of it hold no more than its total shares.
pub open spec fn allocations_fit(s: AssetRegistryState, allocs: Seq<AssetAllocation>, now: Moment) -> bool {
    forall|i: int|
        0 <= i < allocs.len() ==> {
            let k = asset_key(#[trigger] allocs[i]);
            &&& s.assets.contains_key(k)
            &&& live_shares(entries_of(s.lease_allocations, k), now) + lease_shares(allocs, k) <= s.assets[k].total_shares
        }
}

proof fn lemma_lease_shares_push(s: Seq<AssetAllocation>, a: AssetAllocation, k: (u32, u32))
    ensures
        lease_shares(s.push(a), k) == lease_shares(s, k) + if asset_key(a) == k {
            a.allocated_shares as int
        } else {
            0
        },
    decreases s.len(),
{
    assert(s.push(a)[0] == if s.len() > 0 {
        s[0]
    } else {
        a
    });
    if s.len() > 0 {
        assert(s.push(a).drop_first() =~= s.drop_first().push(a));
        lemma_lease_shares_push(s.drop_first(), a, k);
    } else {
        assert(s.push(a).drop_first() =~= Seq::<AssetAllocation>::empty());
        assert(lease_shares(Seq::<AssetAllocation>::empty(), k) == 0);
    }
}

proof fn lemma_live_shares_push(s: Seq<LeaseAllocation>, e: LeaseAllocation, now: Moment)
    ensures
        live_shares(s.push(e), now) == live_shares(s, now) + if e.2 > now {
            e.1 as int
        } else {
            0
        },
{
    assert(s.push(e).drop_last() =~= s);
}

proof fn lemma_live_shares_of_live(s: Seq<LeaseAllocation>, now: Moment)
    ensures
        live_shares(live(s, now), now) == live_shares(s, now),
    decreases s.len(),
{
    if s.len() > 0 {
        let t = s.drop_last();
        let e = s.last();
        assert(s =~= t.push(e));
        lemma_live_shares_of_live(t, now);
        t.lemma_filter_push(e, unexpired(now));
        if e.2 > now {
            lemma_live_shares_push(live(t, now), e, now);
        }
    } else {
        assert(live(s, now) =~= s);
    }
}

proof fn lemma_appended_keeps(
    m: Map<(u32, u32), Seq<LeaseAllocation>>,
    allocs: Seq<AssetAllocation>,
    lease_id: u32,
    expiry: Moment,
    k: (u32, u32),
)
    requires
        m.contains_key(k),
    ensures
        appended(m, allocs, lease_id, expiry).contains_key(k),
    decreases allocs.len(),
{
    if allocs.len() > 0 {
        let k0 = asset_key(allocs[0]);
        let m1 = m.insert(k0, entries_of(m, k0).push((lease_id, allocs[0].allocated_shares, expiry)));
        lemma_appended_keeps(m1, allocs.drop_first(), lease_id, expiry, k);
    }
}

proof fn lemma_appended_has(
    m: Map<(u32, u32), Seq<LeaseAllocation>>,
    allocs: Seq<AssetAllocation>,
    lease_id: u32,
    expiry: Moment,
    i: int,
)
    requires
        0 <= i < allocs.len(),
    ensures
        appended(m, allocs, lease_id, expiry).contains_key(asset_key(allocs[i])),
    decreases allocs.len(),
{
    let k0 = asset_key(allocs[0]);
    let m1 = m.insert(k0, entries_of(m, k0).push((lease_id, allocs[0].allocated_shares, expiry)));
    if i == 0 {
        lemma_appended_keeps(m1, allocs.drop_first(), lease_id, expiry, k0);
    } else {
        assert(allocs.drop_first()[i - 1] == allocs[i]);
        lemma_appended_has(m1, allocs.drop_first(), lease_id, expiry, i - 1);
    }
}

proof fn lemma_appended_live(
    m: Map<(u32, u32), Seq<LeaseAllocation>>,
    allocs: Seq<AssetAllocation>,
    lease_id: u32,
    expiry: Moment,
    k: (u32, u32),
    now: Moment,
)
    ensures
        live_shares(entries_of(appended(m, allocs, lease_id, expiry), k), now) <= live_shares(entries_of(m, k), now)
            + lease_shares(allocs, k),
    decreases allocs.len(),
{
    if allocs.len() > 0 {
        let k0 = asset_key(allocs[0]);
        let e0 = (lease_id, allocs[0].allocated_shares, expiry);
        let m1 = m.insert(k0, entries_of(m, k0).push(e0));
        lemma_appended_live(m1, allocs.drop_first(), lease_id, expiry, k, now);
        if k0 == k {
            lemma_live_shares_push(entries_of(m, k), e0, now);
            assert(entries_of(m1, k) == entries_of(m, k).push(e0));
        } else {
            assert(entries_of(m1, k) == entries_of(m, k));
        }
    }
}

/// No over-allocation: when every asset that a lease names exists and its
/// unexpired entries plus all the shares the lease asks of it fit its total shares,
/// then after the lease is recorded the unexpired entries of each allocated asset
/// hold no more than its total shares.
pub proof fn lemma_lease_within_shares(
    s: AssetRegistryState,
    allocs: Seq<AssetAllocation>,
    lease_id: u32,
    expiry: Moment,
    now: Moment,
)
    requires
        allocations_fit(s, allocs, now),
    ensures
        forall|i: int|
            0 <= i < allocs.len() ==> {
                let k = asset_key(#[trigger] allocs[i]);
                let m = appended(pruned(s.lease_allocations, allocated_keys(allocs), now), allocs, lease_id, expiry);
                &&& m.contains_key(k)
                &&& live_shares(m[k], now) <= s.assets[k].total_shares
            },
{
    let p = pruned(s.lease_allocations, allocated_keys(allocs), now);
    assert forall|i: int| 0 <= i < allocs.len() implies {
        let k = asset_key(#[trigger] allocs[i]);
        let m = appended(p, allocs, lease_id, expiry);
        &&& m.contains_key(k)
        &&& live_shares(m[k], now) <= s.assets[k].total_shares
    } by {
        let k = asset_key(allocs[i]);
        lemma_appended_has(p, allocs, lease_id, expiry, i);
        lemma_appended_live(p, allocs, lease_id, expiry, k, now);
        assert(allocs.map_values(|a: AssetAllocation| asset_key(a))[i] == k);
        assert(allocated_keys(allocs).contains(k));
        if s.lease_allocations.contains_key(k) {
            lemma_live_shares_of_live(s.lease_allocations[k], now);
            assert(entries_of(p, k) == live(s.lease_allocations[k], now));
        } else {
            assert(entries_of(p, k) == Seq::<LeaseAllocation>::empty());
            assert(live_shares(Seq::<LeaseAllocation>::empty(), now) == 0);
        }
    }
}

proof fn lemma_lease_shares_none(allocs: Seq<AssetAllocation>, k: (u32, u32))
    requires
        forall|j: int| 0 <= j < allocs.len() ==> asset_key(#[trigger] allocs[j]) != k,
    ensures
        lease_shares(allocs, k) == 0,
    decreases allocs.len(),
{
    if allocs.len() > 0 {
        assert(asset_key(allocs[0]) != k);
        assert forall|j: int| 0 <= j < allocs.drop_first().len() implies asset_key(#[trigger] allocs.drop_first()[j]) != k by {
            assert(allocs.drop_first()[j] == allocs[j + 1]);
        }
        lemma_lease_shares_none(allocs.drop_first(), k);
    }
}

/// No asset is ever over-allocated: when, before a lease, the unexpired entries of
/// every asset hold no more than its total shares, and the lease's allocations fit,
/// then afterwards the unexpired entries of every asset, leased or not, still hold no
/// more than its total shares.
pub proof fn lemma_lease_keeps_all_within_shares(
    s: AssetRegistryState,
    allocs: Seq<AssetAllocation>,
    lease_id: u32,
    expiry: Moment,
    now: Moment,
)
    requires
        allocations_fit(s, allocs, now),
        forall|k: (u32, u32)|
            #[trigger] s.assets.contains_key(k) ==> live_shares(entries_of(s.lease_allocations, k), now)
                <= s.assets[k].total_shares,
    ensures
        forall|k: (u32, u32)|
            #[trigger] s.assets.contains_key(k) ==> live_shares(
                entries_of(
                    appended(pruned(s.lease_allocations, allocated_keys(allocs), now), allocs, lease_id, expiry),
                    k,
                ),
                now,
            ) <= s.assets[k].total_shares,
{
    let p = pruned(s.lease_allocations, allocated_keys(allocs), now);
    assert forall|k: (u32, u32)| #[trigger] s.assets.contains_key(k) implies live_shares(
        entries_of(appended(p, allocs, lease_id, expiry), k),
        now,
    ) <= s.assets[k].total_shares by {
        lemma_appended_live(p, allocs, lease_id, expiry, k, now);
        if s.lease_allocations.contains_key(k) && allocated_keys(allocs).contains(k) {
            lemma_live_shares_of_live(s.lease_allocations[k], now);
        }
        assert(live_shares(entries_of(p, k), now) == live_shares(entries_of(s.lease_allocations, k), now));
        if exists|j: int| 0 <= j < allocs.len() && asset_key(allocs[j]) == k {
            let j = choose|j: int| 0 <= j < allocs.len() && asset_key(allocs[j]) == k;
            assert(asset_key(allocs[j]) == k);
        } else {
            lemma_lease_shares_none(allocs, k);
        }
    }
}

impl AssetRegistry {
    /// Every table is well formed.
    pub open spec fn wf(&self) -> bool {
        &&& self.registries.wf()
        &&& self.assets.wf()
        &&& self.lease_allocations.wf()
        &&& self.lease_agreements.wf()
        &&& forall|d: Did, id: u32| #[trigger] self.registries@.contains_key((d, id)) ==> id < self.next_registry_id
        &&& forall|d: Did, id: u32| #[trigger] self.lease_agreements@.contains_key((d, id)) ==> id < self.next_lease_id
    }

    /// Empty storage with the given limits; the ids start at one.
    pub fn new(name_limit: u32, fact_string_limit: u32) -> (s: Self)
        ensures
            s.wf(),
            s@ == (AssetRegistryState {
                name_limit,
                fact_string_limit,
                next_registry_id: 1,
                next_asset_id: 1,
                next_lease_id: 1,
                registries: Map::empty(),
                assets: Map::empty(),
                lease_allocations: Map::empty(),
                lease_agreements: Map::empty(),
            }),
    {
        let s = AssetRegistry {
            name_limit,
            fact_string_limit,
            next_registry_id: 1,
            next_asset_id: 1,
            next_lease_id: 1,
            registries: Table::new(),
            assets: Table::new(),
            lease_allocations: Table::new(),
            lease_agreements: Table::new(),
        };
        assert(s@.lease_allocations =~= Map::empty());
        s
    }

    /// Whether an allocation cannot be made now: its asset is missing, or it asks for
    /// more than the asset's shares, or more than the unexpired leases leave.
    pub open spec fn allocation_fails(&self, a: AssetAllocation, now: Moment) -> bool {
        let k = asset_key(a);
        ||| !self.assets@.contains_key(k)
        ||| a.allocated_shares > self.assets@[k].total_shares
        ||| (self.lease_allocations@.contains_key(k) && live_shares(self.lease_allocations@[k]@, now)
            + a.allocated_shares > self.assets@[k].total_shares)
    }

    /// The allocations after checking one: when the check reaches the entries of the
    /// asset (it exists and the shares fit its total), the expired ones are dropped.
    pub open spec fn checked(&self, a: AssetAllocation, now: Moment) -> Map<(u32, u32), Seq<LeaseAllocation>> {
        let k = asset_key(a);
        if self.assets@.contains_key(k) && a.allocated_shares <= self.assets@[k].total_shares
            && self@.lease_allocations.contains_key(k) {
            self@.lease_allocations.insert(k, live(self@.lease_allocations[k], now))
        } else {
            self@.lease_allocations
        }
    }

    /// Whether an allocation cannot be made now. Checking drops the expired entries
    /// of the asset.
    pub fn check_allocation(&mut self, a: &AssetAllocation, now: Moment) -> (r: bool)
        requires
            old(self).wf(),
        ensures
            final(self).wf(),
            r == old(self).allocation_fails(*a, now),
            final(self)@ == (AssetRegistryState { lease_allocations: old(self).checked(*a, now), ..old(self)@ }),
    {
        let k = (a.registry_id, a.asset_id);
        let total = match self.assets.get(&k) {
            Some(asset) => asset.total_shares,
            None => return true,
        };
        if a.allocated_shares > total {
            return true;
        }
        let ghost cur = self.lease_allocations@;
        match self.lease_allocations.remove(&k) {
            None => {
                proof {
                    assert(self.lease_allocations@ =~= cur);
                    assert(!views(cur).contains_key(k));
                    assert(views(self.lease_allocations@) =~= views(cur));
                }
                false
            },
            Some(list) => {
                let l = live_entries(&list, now);
                let held = sum_live_shares(&l, now);
                proof {
                    lemma_live_shares_of_live(list@, now);
                }
                self.lease_allocations.insert(k, l);
                proof {
                    lemma_views_insert(cur.remove(k), k, l);
                    assert(cur.remove(k).insert(k, l) =~= cur.insert(k, l));
                    lemma_views_insert(cur, k, l);
                    assert(views(cur).contains_key(k));
                    assert(views(cur)[k] == list@);
                }
                held + a.allocated_shares as u128 > total as u128
            },
        }
    }
}

impl AssetRegistry {
    /// The first check on the caller that a call about a DID fails, if any: the origin
    /// resolves to an account, which is the subject of the DID.
    pub open spec fn subject_error(identity: &Identity, origin: Origin, did: Did) -> Option<Error> {
        match account_or_approved(origin) {
            None => Some(Error::BadOrigin),
            Some(a) => if !identity.did_by_subject@.contains_key((a, did)) {
                Some(Error::NotDidSubject)
            } else {
                None
            },
        }
    }

    fn check_subject(identity: &Identity, origin: Origin, did: Did) -> (r: Option<Error>)
        requires
            identity.wf(),
        ensures
            r == Self::subject_error(identity, origin, did),
    {
        match ensure_account_or_approved(origin) {
            None => Some(Error::BadOrigin),
            Some(a) => if !identity.did_by_subject.contains_key(&(a, did)) {
                Some(Error::NotDidSubject)
            } else {
                None
            },
        }
    }

    /// The subject of a DID creates a registry under it.
    pub fn create_registry(&mut self, identity: &Identity, origin: Origin, owner_did: Did, name: Vec<u8>) -> (r: Result<
        Event,
        Error,
    >)
        requires
            old(self).wf(),
            identity.wf(),
        ensures
            final(self).wf(),
            ({
                let e = if account_or_approved(origin) is None {
                    Some(Error::BadOrigin)
                } else if !fits(name@, old(self).name_limit) {
                    Some(Error::BadString)
                } else if Self::subject_error(identity, origin, owner_did) is Some {
                    Self::subject_error(identity, origin, owner_did)
                } else if next_id(old(self).next_registry_id) is None {
                    Some(Error::NoIdAvailable)
                } else {
                    None
                };
                &&& e matches Some(err) ==> r == Err::<Event, Error>(err) && final(self)@
                    == old(self)@
                &&& e is None ==> {
                    let id = old(self).next_registry_id;
                    &&& final(self)@ == (AssetRegistryState {
                        next_registry_id: (id + 1) as u32,
                        registries: old(self)@.registries.insert((owner_did, id), Registry { name }),
                        ..old(self)@
                    })
                    &&& r == Ok::<Event, Error>(
                        Event::RegistryCreated(owner_did, id),
                    )
                    &&& forall|d: Did| !old(self)@.registries.contains_key((d, id))
                }
            }),
    {
        if ensure_account_or_approved(origin).is_none() {
            return Err(Error::BadOrigin);
        }
        if !check_limit(&name, self.name_limit) {
            return Err(Error::BadString);
        }
        match Self::check_subject(identity, origin, owner_did) {
            Some(e) => return Err(e),
            None => {},
        }
        let registry_id = match take_next_id(&mut self.next_registry_id) {
            Some(id) => id,
            None => return Err(Error::NoIdAvailable),
        };
        self.registries.insert((owner_did, registry_id), Registry { name });
        Ok(Event::RegistryCreated(owner_did, registry_id))
    }

    /// The subject of a DID renames one of its registries.
    pub fn update_registry(
        &mut self,
        identity: &Identity,
        origin: Origin,
        owner_did: Did,
        registry_id: u32,
        name: Vec<u8>,
    ) -> (r: Result<Event, Error>)
        requires
            old(self).wf(),
            identity.wf(),
        ensures
            final(self).wf(),
            ({
                let e = if account_or_approved(origin) is None {
                    Some(Error::BadOrigin)
                } else if !fits(name@, old(self).name_limit) {
                    Some(Error::BadString)
                } else if Self::subject_error(identity, origin, owner_did) is Some {
                    Self::subject_error(identity, origin, owner_did)
                } else if !old(self).registries@.contains_key((owner_did, registry_id)) {
                    Some(Error::NotRegistryOwner)
                } else {
                    None
                };
                &&& e matches Some(err) ==> r == Err::<Event, Error>(err) && final(self)@
                    == old(self)@
                &&& e is None ==> {
                    &&& final(self)@ == (AssetRegistryState {
                        registries: old(self)@.registries.insert((owner_did, registry_id), Registry { name }),
                        ..old(self)@
                    })
                    &&& r == Ok::<Event, Error>(
                        Event::RegistryRenamed(owner_did, registry_id),
                    )
                }
            }),
    {
        if ensure_account_or_approved(origin).is_none() {
            return Err(Error::BadOrigin);
        }
        if !check_limit(&name, self.name_limit) {
            return Err(Error::BadString);
        }
        match Self::check_subject(identity, origin, owner_did) {
            Some(e) => return Err(e),
            None => {},
        }
        if !self.registries.contains_key(&(owner_did, registry_id)) {
            return Err(Error::NotRegistryOwner);
        }
        self.registries.insert((owner_did, registry_id), Registry { name });
        Ok(Event::RegistryRenamed(owner_did, registry_id))
    }

    /// The subject of a DID deletes one of its registries that holds no asset.
    pub fn delete_registry(&mut self, identity: &Identity, origin: Origin, owner_did: Did, registry_id: u32) -> (r: Result<
        Event,
        Error,
    >)
        requires
            old(self).wf(),
            identity.wf(),
        ensures
            final(self).wf(),
            ({
                let e = if Self::subject_error(identity, origin, owner_did) is Some {
                    Self::subject_error(identity, origin, owner_did)
                } else if !old(self).registries@.contains_key((owner_did, registry_id)) {
                    Some(Error::NotRegistryOwner)
                } else if exists|a: u32| old(self).assets@.contains_key((registry_id, a)) {
                    Some(Error::RegistryNotEmpty)
                } else {
                    None
                };
                &&& e matches Some(err) ==> r == Err::<Event, Error>(err) && final(self)@
                    == old(self)@
                &&& e is None ==> {
                    &&& final(self)@ == (AssetRegistryState {
                        registries: old(self)@.registries.remove((owner_did, registry_id)),
                        ..old(self)@
                    })
                    &&& r == Ok::<Event, Error>(
                        Event::RegistryDeleted(owner_did, registry_id),
                    )
                }
            }),
    {
        match Self::check_subject(identity, origin, owner_did) {
            Some(e) => return Err(e),
            None => {},
        }
        if !self.registries.contains_key(&(owner_did, registry_id)) {
            return Err(Error::NotRegistryOwner);
        }
        if self.assets.has_prefix(&registry_id) {
            return Err(Error::RegistryNotEmpty);
        }
        self.registries.remove(&(owner_did, registry_id));
        Ok(Event::RegistryDeleted(owner_did, registry_id))
    }

    /// The subject of a DID creates an asset in one of its registries.
    pub fn create_asset(&mut self, identity: &Identity, origin: Origin, owner_did: Did, registry_id: u32, asset: Asset) -> (r:
        Result<Event, Error>)
        requires
            old(self).wf(),
            identity.wf(),
        ensures
            final(self).wf(),
            ({
                let e = if Self::subject_error(identity, origin, owner_did) is Some {
                    Self::subject_error(identity, origin, owner_did)
                } else if !old(self).registries@.contains_key((owner_did, registry_id)) {
                    Some(Error::NotRegistryOwner)
                } else if !asset_fits(asset, old(self).name_limit, old(self).fact_string_limit) {
                    Some(Error::BadString)
                } else if next_id(old(self).next_asset_id) is None {
                    Some(Error::NoIdAvailable)
                } else {
                    None
                };
                &&& e matches Some(err) ==> r == Err::<Event, Error>(err) && final(self)@
                    == old(self)@
                &&& e is None ==> {
                    let id = old(self).next_asset_id;
                    &&& final(self)@ == (AssetRegistryState {
                        next_asset_id: (id + 1) as u32,
                        assets: old(self)@.assets.insert((registry_id, id), asset),
                        ..old(self)@
                    })
                    &&& r == Ok::<Event, Error>(Event::AssetCreated(registry_id, id))
                }
            }),
    {
        match Self::check_subject(identity, origin, owner_did) {
            Some(e) => return Err(e),
            None => {},
        }
        if !self.registries.contains_key(&(owner_did, registry_id)) {
            return Err(Error::NotRegistryOwner);
        }
        if !check_asset(&asset, self.name_limit, self.fact_string_limit) {
            return Err(Error::BadString);
        }
        let asset_id = match take_next_id(&mut self.next_asset_id) {
            Some(id) => id,
            None => return Err(Error::NoIdAvailable),
        };
        self.assets.insert((registry_id, asset_id), asset);
        Ok(Event::AssetCreated(registry_id, asset_id))
    }

    /// The subject of a DID sets an asset in one of its registries.
    pub fn update_asset(
        &mut self,
        identity: &Identity,
        origin: Origin,
        owner_did: Did,
        registry_id: u32,
        asset_id: u32,
        asset: Asset,
    ) -> (r: Result<Event, Error>)
        requires
            old(self).wf(),
            identity.wf(),
        ensures
            final(self).wf(),
            ({
                let e = if Self::subject_error(identity, origin, owner_did) is Some {
                    Self::subject_error(identity, origin, owner_did)
                } else if !old(self).registries@.contains_key((owner_did, registry_id)) {
                    Some(Error::NotRegistryOwner)
                } else if !asset_fits(asset, old(self).name_limit, old(self).fact_string_limit) {
                    Some(Error::BadString)
                } else {
                    None
                };
                &&& e matches Some(err) ==> r == Err::<Event, Error>(err) && final(self)@
                    == old(self)@
                &&& e is None ==> {
                    &&& final(self)@ == (AssetRegistryState {
                        assets: old(self)@.assets.insert((registry_id, asset_id), asset),
                        ..old(self)@
                    })
                    &&& r == Ok::<Event, Error>(
                        Event::AssetUpdated(owner_did, registry_id, asset_id),
                    )
                }
            }),
    {
        match Self::check_subject(identity, origin, owner_did) {
            Some(e) => return Err(e),
            None => {},
        }
        if !self.registries.contains_key(&(owner_did, registry_id)) {
            return Err(Error::NotRegistryOwner);
        }
        if !check_asset(&asset, self.name_limit, self.fact_string_limit) {
            return Err(Error::BadString);
        }
        self.assets.insert((registry_id, asset_id), asset);
        Ok(Event::AssetUpdated(owner_did, registry_id, asset_id))
    }

    /// Whether an asset is part of a lease that is active at `now`: one of its
    /// allocations expires after `now`.
    pub open spec fn in_active_lease(&self, k: (u32, u32), now: Moment) -> bool {
        live(entries_of(self@.lease_allocations, k), now).len() > 0
    }

    /// The subject of a DID deletes an asset of one of its registries, at time `now`.
    /// An asset that is part of an active lease cannot be removed.
    pub fn delete_asset(
        &mut self,
        identity: &Identity,
        origin: Origin,
        owner_did: Did,
        registry_id: u32,
        asset_id: u32,
        now: Moment,
    ) -> (r: Result<Event, Error>)
        requires
            old(self).wf(),
            identity.wf(),
        ensures
            final(self).wf(),
            ({
                let e = if Self::subject_error(identity, origin, owner_did) is Some {
                    Self::subject_error(identity, origin, owner_did)
                } else if !old(self).registries@.contains_key((owner_did, registry_id)) {
                    Some(Error::NotRegistryOwner)
                } else if old(self).in_active_lease((registry_id, asset_id), now) {
                    Some(Error::AssetInActiveLease)
                } else {
                    None
                };
                &&& e matches Some(err) ==> r == Err::<Event, Error>(err) && final(self)@
                    == old(self)@
                &&& e is None ==> {
                    &&& final(self)@ == (AssetRegistryState {
                        assets: old(self)@.assets.remove((registry_id, asset_id)),
                        ..old(self)@
                    })
                    &&& r == Ok::<Event, Error>(
                        Event::AssetDeleted(owner_did, registry_id, asset_id),
                    )
                }
            }),
    {
        match Self::check_subject(identity, origin, owner_did) {
            Some(e) => return Err(e),
            None => {},
        }
        if !self.registries.contains_key(&(owner_did, registry_id)) {
            return Err(Error::NotRegistryOwner);
        }
        let k = (registry_id, asset_id);
        match self.lease_allocations.get(&k) {
            Some(list) => {
                let l = live_entries(list, now);
                if l.len() > 0 {
                    return Err(Error::AssetInActiveLease);
                }
            },
            None => {
                proof {
                    assert(live(Seq::<LeaseAllocation>::empty(), now) =~= Seq::<LeaseAllocation>::empty());
                }
            },
        }
        self.assets.remove(&k);
        Ok(Event::AssetDeleted(owner_did, registry_id, asset_id))
    }
}

impl AssetRegistry {
    /// The first check that a new lease fails, if any: the caller is the subject of
    /// the lessor, the allocations fit their assets (the shares a lease asks of one
    /// asset counted together), the contract number fits, and a lease id is left.
    pub open spec fn lease_error(&self, identity: &Identity, origin: Origin, lease: LeaseAgreement, now: Moment) -> Option<
        Error,
    > {
        if Self::subject_error(identity, origin, lease.lessor) is Some {
            Self::subject_error(identity, origin, lease.lessor)
        } else if !allocations_fit(self@, lease.allocations@, now) {
            Some(Error::AssetAllocationFailed)
        } else if !fits(lease.contract_number@, self.name_limit) {
            Some(Error::BadString)
        } else if next_id(self.next_lease_id) is None {
            Some(Error::NoIdAvailable)
        } else {
            None
        }
    }

    fn allocations_fit_now(&self, allocs: &Vec<AssetAllocation>, now: Moment) -> (r: bool)
        requires
            self.wf(),
        ensures
            r == allocations_fit(self@, allocs@, now),
    {
        let mut i: usize = 0;
        while i < allocs.len()
            invariant
                self.wf(),
                i <= allocs@.len(),
                forall|j: int|
                    0 <= j < i ==> {
                        let k = asset_key(#[trigger] allocs@[j]);
                        &&& self@.assets.contains_key(k)
                        &&& live_shares(entries_of(self@.lease_allocations, k), now) + lease_shares(allocs@, k)
                            <= self@.assets[k].total_shares
                    },
            decreases allocs@.len() - i,
        {
            let a = allocs[i];
            let k = (a.registry_id, a.asset_id);
            assert(asset_key(allocs@[i as int]) == k);
            let total = match self.assets.get(&k) {
                Some(asset) => asset.total_shares,
                None => return false,
            };
            let held: u128 = match self.lease_allocations.get(&k) {
                Some(list) => sum_live_shares(list, now),
                None => {
                    proof {
                        assert(entries_of(self@.lease_allocations, k) == Seq::<LeaseAllocation>::empty());
                        assert(live_shares(Seq::<LeaseAllocation>::empty(), now) == 0);
                    }
                    0
                },
            };
            let asked = sum_lease_shares(allocs, k);
            match held.checked_add(asked) {
                None => return false,
                Some(x) => if x > total as u128 {
                    return false;
                },
            }
            i += 1;
        }
        true
    }

    /// The subject of the lessor makes a lease at time `now`. The shares that the
    /// lease asks of each asset, counted together, are checked against what unexpired
    /// leases leave; on success the expired entries of the allocated assets are
    /// dropped and each allocation is recorded for the new lease until it expires.
    pub fn new_lease(&mut self, identity: &Identity, origin: Origin, lease: LeaseAgreement, now: Moment) -> (r: Result<
        Event,
        Error,
    >)
        requires
            old(self).wf(),
            identity.wf(),
        ensures
            final(self).wf(),
            old(self).lease_error(identity, origin, lease, now) matches Some(e) ==> r == Err::<
                Event,
                Error,
            >(e) && final(self)@ == old(self)@,
            old(self).lease_error(identity, origin, lease, now) is None ==> {
                let id = old(self).next_lease_id;
                &&& final(self)@ == (AssetRegistryState {
                    next_lease_id: (id + 1) as u32,
                    lease_allocations: appended(
                        pruned(old(self)@.lease_allocations, allocated_keys(lease.allocations@), now),
                        lease.allocations@,
                        id,
                        lease.expiry_ts,
                    ),
                    lease_agreements: old(self)@.lease_agreements.insert((lease.lessor, id), lease),
                    ..old(self)@
                })
                &&& r == Ok::<Event, Error>(
                    Event::LeaseCreated(id, lease.lessor, lease.lessee),
                )
                &&& forall|d: Did| !old(self)@.lease_agreements.contains_key((d, id))
            },
            old(self).lease_error(identity, origin, lease, now) is None ==> forall|i: int|
                0 <= i < lease.allocations@.len() ==> {
                    let k = asset_key(#[trigger] lease.allocations@[i]);
                    &&& final(self)@.lease_allocations.contains_key(k)
                    &&& live_shares(final(self)@.lease_allocations[k], now) <= final(self)@.assets[k].total_shares
                },
            old(self).lease_error(identity, origin, lease, now) is None && (forall|k: (u32, u32)|
                #[trigger] old(self)@.assets.contains_key(k) ==> live_shares(entries_of(old(self)@.lease_allocations, k), now)
                    <= old(self)@.assets[k].total_shares) ==> forall|k: (u32, u32)|
                #[trigger] final(self)@.assets.contains_key(k) ==> live_shares(
                    entries_of(final(self)@.lease_allocations, k),
                    now,
                ) <= final(self)@.assets[k].total_shares,
    {
        match Self::check_subject(identity, origin, lease.lessor) {
            Some(e) => return Err(e),
            None => {},
        }
        if !self.allocations_fit_now(&lease.allocations, now) {
            return Err(Error::AssetAllocationFailed);
        }
        if !check_limit(&lease.contract_number, self.name_limit) {
            return Err(Error::BadString);
        }
        let lease_id = match take_next_id(&mut self.next_lease_id) {
            Some(id) => id,
            None => return Err(Error::NoIdAvailable),
        };
        proof {
            lemma_lease_within_shares(old(self)@, lease.allocations@, lease_id, lease.expiry_ts, now);
            if forall|k: (u32, u32)|
                #[trigger] old(self)@.assets.contains_key(k) ==> live_shares(entries_of(old(self)@.lease_allocations, k), now)
                    <= old(self)@.assets[k].total_shares {
                lemma_lease_keeps_all_within_shares(old(self)@, lease.allocations@, lease_id, lease.expiry_ts, now);
            }
        }
        prune(&mut self.lease_allocations, &lease.allocations, now);
        append_allocations(&mut self.lease_allocations, &lease.allocations, lease_id, lease.expiry_ts);
        let lessor = lease.lessor;
        let lessee = lease.lessee;
        self.lease_agreements.insert((lessor, lease_id), lease);
        Ok(Event::LeaseCreated(lease_id, lessor, lessee))
    }

    /// The subject of the lessor voids one of its leases; its entries leave the
    /// allocations of its assets. A missing lease is refused as `NotDidSubject`.
    pub fn void_lease(&mut self, identity: &Identity, origin: Origin, lessor: Did, lease_id: u32) -> (r: Result<
        Event,
        Error,
    >)
        requires
            old(self).wf(),
            identity.wf(),
        ensures
            final(self).wf(),
            ({
                let e = if Self::subject_error(identity, origin, lessor) is Some {
                    Self::subject_error(identity, origin, lessor)
                } else if !old(self).lease_agreements@.contains_key((lessor, lease_id)) {
                    Some(Error::NotDidSubject)
                } else {
                    None
                };
                &&& e matches Some(err) ==> r == Err::<Event, Error>(err) && final(self)@
                    == old(self)@
                &&& e is None ==> {
                    let lease = old(self).lease_agreements@[(lessor, lease_id)];
                    &&& final(self)@ == (AssetRegistryState {
                        lease_allocations: voided(
                            old(self)@.lease_allocations,
                            allocated_keys(lease.allocations@),
                            lease_id,
                        ),
                        lease_agreements: old(self)@.lease_agreements.remove((lessor, lease_id)),
                        ..old(self)@
                    })
                    &&& r == Ok::<Event, Error>(Event::LeaseVoided(lease_id, lessor))
                }
            }),
            r is Ok ==> forall|k: (u32, u32), j: int|
                allocated_keys(old(self)@.lease_agreements[(lessor, lease_id)].allocations@).contains(k)
                    && final(self)@.lease_allocations.contains_key(k) && 0 <= j < final(self)@.lease_allocations[k].len()
                    ==> (#[trigger] final(self)@.lease_allocations[k][j]).0 != lease_id,
    {
        match Self::check_subject(identity, origin, lessor) {
            Some(e) => return Err(e),
            None => {},
        }
        let lease = match self.lease_agreements.remove(&(lessor, lease_id)) {
            Some(l) => l,
            None => {
                assert(self.lease_agreements@ =~= old(self).lease_agreements@);
                return Err(Error::NotDidSubject);
            },
        };
        release(&mut self.lease_allocations, &lease.allocations, lease_id);
        proof {
            assert forall|k: (u32, u32), j: int|
                allocated_keys(lease.allocations@).contains(k) && self@.lease_allocations.contains_key(k) && 0 <= j
                    < self@.lease_allocations[k].len() implies (#[trigger] self@.lease_allocations[k][j]).0 != lease_id by {
                old(self)@.lease_allocations[k].lemma_filter_pred(not_of(lease_id), j);
            }
        }
        Ok(Event::LeaseVoided(lease_id, lessor))
    }

    /// The registries of a DID with their ids, each once.
    pub fn get_registries(&self, did: Did) -> (r: Vec<(u32, &Registry)>)
        requires
            self.wf(),
        ensures
            forall|i: int, j: int| 0 <= i < r@.len() && 0 <= j < r@.len() && i != j ==> r@[i].0 != r@[j].0,
            forall|i: int|
                0 <= i < r@.len() ==> self.registries@.contains_key((did, #[trigger] r@[i].0)) && *r@[i].1
                    == self.registries@[(did, r@[i].0)],
            forall|id: u32| #[trigger] self.registries@.contains_key((did, id)) ==> exists|i: int| 0 <= i < r@.len() && r@[i].0 == id,
    {
        self.registries.entries_with_prefix(&did)
    }

    /// A registry of a DID.
    pub fn get_registry(&self, did: Did, registry_id: u32) -> (r: Option<&Registry>)
        requires
            self.wf(),
        ensures
            match r {
                Some(x) => self.registries@.contains_key((did, registry_id)) && *x == self.registries@[(did, registry_id)],
                None => !self.registries@.contains_key((did, registry_id)),
            },
    {
        self.registries.get(&(did, registry_id))
    }

    /// The assets of a registry with their ids, each once.
    pub fn get_assets(&self, registry_id: u32) -> (r: Vec<(u32, &Asset)>)
        requires
            self.wf(),
        ensures
            forall|i: int, j: int| 0 <= i < r@.len() && 0 <= j < r@.len() && i != j ==> r@[i].0 != r@[j].0,
            forall|i: int|
                0 <= i < r@.len() ==> self.assets@.contains_key((registry_id, #[trigger] r@[i].0)) && *r@[i].1
                    == self.assets@[(registry_id, r@[i].0)],
            forall|id: u32| #[trigger] self.assets@.contains_key((registry_id, id)) ==> exists|i: int| 0 <= i < r@.len() && r@[i].0 == id,
    {
        self.assets.entries_with_prefix(&registry_id)
    }

    /// An asset of a registry.
    pub fn get_asset(&self, registry_id: u32, asset_id: u32) -> (r: Option<&Asset>)
        requires
            self.wf(),
        ensures
            match r {
                Some(x) => self.assets@.contains_key((registry_id, asset_id)) && *x == self.assets@[(registry_id, asset_id)],
                None => !self.assets@.contains_key((registry_id, asset_id)),
            },
    {
        self.assets.get(&(registry_id, asset_id))
    }

    /// The leases of a lessor with their ids, each once.
    pub fn get_leases(&self, lessor: Did) -> (r: Vec<(u32, &LeaseAgreement)>)
        requires
            self.wf(),
        ensures
            forall|i: int, j: int| 0 <= i < r@.len() && 0 <= j < r@.len() && i != j ==> r@[i].0 != r@[j].0,
            forall|i: int|
                0 <= i < r@.len() ==> self.lease_agreements@.contains_key((lessor, #[trigger] r@[i].0)) && *r@[i].1
                    == self.lease_agreements@[(lessor, r@[i].0)],
            forall|id: u32| #[trigger] self.lease_agreements@.contains_key((lessor, id)) ==> exists|i: int| 0 <= i < r@.len() && r@[i].0 == id,
    {
        self.lease_agreements.entries_with_prefix(&lessor)
    }

    /// A lease of a lessor.
    pub fn get_lease(&self, lessor: Did, lease_id: u32) -> (r: Option<&LeaseAgreement>)
        requires
            self.wf(),
        ensures
            match r {
                Some(x) => self.lease_agreements@.contains_key((lessor, lease_id)) && *x == self.lease_agreements@[(lessor, lease_id)],
                None => !self.lease_agreements@.contains_key((lessor, lease_id)),
            },
    {
        self.lease_agreements.get(&(lessor, lease_id))
    }

    /// The allocations of an asset to leases, if any were ever recorded.
    pub fn get_lease_allocations(&self, registry_id: u32, asset_id: u32) -> (r: Option<Vec<LeaseAllocation>>)
        requires
            self.wf(),
        ensures
            match r {
                Some(v) => self@.lease_allocations.contains_key((registry_id, asset_id)) && v@ == self@.lease_allocations[(registry_id, asset_id)],
                None => !self@.lease_allocations.contains_key((registry_id, asset_id)),
            },
    {
        match self.lease_allocations.get(&(registry_id, asset_id)) {
            Some(list) => {
                let mut v: Vec<LeaseAllocation> = Vec::new();
                let mut i: usize = 0;
                while i < list.len()
                    invariant
                        i <= list@.len(),
                        v@ == list@.take(i as int),
                    decreases list@.len() - i,
                {
                    v.push(list[i]);
                    assert(list@.take(i as int + 1) =~= list@.take(i as int).push(list@[i as int]));
                    i += 1;
                }
                assert(list@.take(i as int) =~= list@);
                Some(v)
            },
            None => None,
        }
    }
}

/// The name lengths of asset properties.
pub open spec fn asset_property_name_lens(ps: Seq<AssetProperty>) -> Seq<u32> {
    ps.map_values(|p: AssetProperty| p.name@.len() as u32)
}

/// The fact lengths of asset properties.
pub open spec fn asset_property_fact_lens(ps: Seq<AssetProperty>) -> Seq<u32> {
    ps.map_values(|p: AssetProperty| fact_len(p.fact))
}

/// The longest name of some asset properties, for the weight of a call.
pub fn get_max_property_name_len(properties: &Vec<AssetProperty>) -> (r: u32)
    ensures
        r == max_of(asset_property_name_lens(properties@)),
{
    let mut lens: Vec<u32> = Vec::new();
    let mut i: usize = 0;
    while i < properties.len()
        invariant
            i <= properties@.len(),
            lens@ == asset_property_name_lens(properties@.take(i as int)),
        decreases properties@.len() - i,
    {
        lens.push(properties[i].name.len() as u32);
        assert(properties@.take(i as int + 1) =~= properties@.take(i as int).push(properties@[i as int]));
        assert(lens@ =~= asset_property_name_lens(properties@.take(i as int + 1)));
        i += 1;
    }
    assert(properties@.take(i as int) =~= properties@);
    max_u32(&lens)
}

/// The longest fact of some asset properties (ten for a fact that is not text),
/// for the weight of a call.
pub fn get_max_property_fact_len(properties: &Vec<AssetProperty>) -> (r: u32)
    ensures
        r == max_of(asset_property_fact_lens(properties@)),
{
    let mut lens: Vec<u32> = Vec::new();
    let mut i: usize = 0;
    while i < properties.len()
        invariant
            i <= properties@.len(),
            lens@ == asset_property_fact_lens(properties@.take(i as int)),
        decreases properties@.len() - i,
    {
        lens.push(fact_len_of(&properties[i].fact));
        assert(properties@.take(i as int + 1) =~= properties@.take(i as int).push(properties@[i as int]));
        assert(lens@ =~= asset_property_fact_lens(properties@.take(i as int + 1)));
        i += 1;
    }
    assert(properties@.take(i as int) =~= properties@);
    max_u32(&lens)
}

} // verus!
