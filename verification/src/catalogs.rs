//! Catalogs of DIDs: their owners create and remove them and add and remove DIDs.
use crate::groups::{account_or_executed, ensure_account_or_executed, next_id, take_next_id, Origin};
use crate::identity::{Identity, Error, Event, IdentityState};
use crate::primitives::{AccountId, Did};
use crate::table::{inserted_all, lemma_mirrored_inserted_all, lemma_mirrored_remove_keys, swapped};
use vstd::prelude::*;

verus! {

/// Every DID of a list has a document.
pub open spec fn all_documented(documents: Set<Did>, dids: Seq<Did>) -> bool {
    forall|i: int| 0 <= i < dids.len() ==> documents.contains(#[trigger] dids[i])
}

/// The catalog entries of a list of DIDs, keyed by catalog first and by DID first.
pub open spec fn catalog_entries(catalog_id: u32, dids: Seq<Did>) -> (Seq<((u32, Did), ())>, Seq<((Did, u32), ())>) {
    (dids.map_values(|d: Did| ((catalog_id, d), ())), dids.map_values(|d: Did| ((d, catalog_id), ())))
}

fn catalog_entry_lists(catalog_id: u32, dids: &Vec<Did>) -> (r: (Vec<((u32, Did), ())>, Vec<((Did, u32), ())>))
    ensures
        r.0@ == catalog_entries(catalog_id, dids@).0,
        r.1@ == catalog_entries(catalog_id, dids@).1,
{
    let mut a: Vec<((u32, Did), ())> = Vec::new();
    let mut b: Vec<((Did, u32), ())> = Vec::new();
    let mut i: usize = 0;
    while i < dids.len()
        invariant
            i <= dids@.len(),
            a@ == dids@.take(i as int).map_values(|d: Did| ((catalog_id, d), ())),
            b@ == dids@.take(i as int).map_values(|d: Did| ((d, catalog_id), ())),
        decreases dids@.len() - i,
    {
        let d = dids[i];
        a.push(((catalog_id, d), ()));
        b.push(((d, catalog_id), ()));
        assert(dids@.take(i as int + 1) =~= dids@.take(i as int).push(dids@[i as int]));
        assert(a@ =~= dids@.take(i as int + 1).map_values(|d: Did| ((catalog_id, d), ())));
        assert(b@ =~= dids@.take(i as int + 1).map_values(|d: Did| ((d, catalog_id), ())));
        i += 1;
    }
    assert(dids@.take(i as int) =~= dids@);
    (a, b)
}

fn catalog_key_lists(catalog_id: u32, dids: &Vec<Did>) -> (r: (Vec<(u32, Did)>, Vec<(Did, u32)>))
    ensures
        r.0@ == dids@.map_values(|d: Did| (catalog_id, d)),
        r.1@ == dids@.map_values(|d: Did| (d, catalog_id)),
{
    let mut a: Vec<(u32, Did)> = Vec::new();
    let mut b: Vec<(Did, u32)> = Vec::new();
    let mut i: usize = 0;
    while i < dids.len()
        invariant
            i <= dids@.len(),
            a@ == dids@.take(i as int).map_values(|d: Did| (catalog_id, d)),
            b@ == dids@.take(i as int).map_values(|d: Did| (d, catalog_id)),
        decreases dids@.len() - i,
    {
        let d = dids[i];
        a.push((catalog_id, d));
        b.push((d, catalog_id));
        assert(dids@.take(i as int + 1) =~= dids@.take(i as int).push(dids@[i as int]));
        assert(a@ =~= dids@.take(i as int + 1).map_values(|d: Did| (catalog_id, d)));
        assert(b@ =~= dids@.take(i as int + 1).map_values(|d: Did| (d, catalog_id)));
        i += 1;
    }
    assert(dids@.take(i as int) =~= dids@);
    (a, b)
}

impl Identity {
    /// The first check that a change of a catalog by its owner fails, if any.
    pub open spec fn catalog_owner_error(&self, origin: Origin, catalog_id: u32) -> Option<Error> {
        match account_or_executed(origin) {
            None => Some(Error::BadOrigin),
            Some(a) => if !self.catalogs@.contains_key((a.1, catalog_id)) {
                Some(Error::NotController)
            } else {
                None
            },
        }
    }

    /// Creates a catalog owned by the caller (or its group) under the next catalog id.
    pub fn create_catalog(&mut self, origin: Origin) -> (r: Result<Event, Error>)
        requires
            old(self).wf(),
        ensures
            final(self).wf(),
            account_or_executed(origin) is None ==> r == Err::<Event, Error>(Error::BadOrigin)
                && final(self)@ == old(self)@,
            account_or_executed(origin) is Some && next_id(old(self).next_catalog_id) is None ==> r == Err::<
                Event,
                Error,
            >(Error::NoIdAvailable) && final(self)@ == old(self)@,
            account_or_executed(origin) matches Some(a) ==> (next_id(old(self).next_catalog_id) matches Some(n) ==> {
                let id = old(self).next_catalog_id;
                &&& final(self)@ == (IdentityState {
                    next_catalog_id: n,
                    catalogs: old(self)@.catalogs.insert((a.1, id), ()),
                    ..old(self)@
                })
                &&& r == Ok::<Event, Error>(Event::CatalogCreated(a.0, a.1, id))
                &&& forall|o: AccountId| !old(self)@.catalogs.contains_key((o, id))
            }),
    {
        let (account, group_account) = match ensure_account_or_executed(origin) {
            Some(a) => a,
            None => return Err(Error::BadOrigin),
        };
        let catalog_id = match take_next_id(&mut self.next_catalog_id) {
            Some(id) => id,
            None => return Err(Error::NoIdAvailable),
        };
        self.catalogs.insert((group_account, catalog_id), ());
        Ok(Event::CatalogCreated(account, group_account, catalog_id))
    }

    /// The owner removes an empty catalog.
    pub fn remove_catalog(&mut self, origin: Origin, catalog_id: u32) -> (r: Result<Event, Error>)
        requires
            old(self).wf(),
        ensures
            final(self).wf(),
            old(self).catalog_owner_error(origin, catalog_id) matches Some(e) ==> r == Err::<Event, Error>(e)
                && final(self)@ == old(self)@,
            old(self).catalog_owner_error(origin, catalog_id) is None && (exists|d: Did|
                old(self).dids_by_catalog@.contains_key((catalog_id, d))) ==> r == Err::<Event, Error>(
                Error::CatalogNotEmpty,
            ) && final(self)@ == old(self)@,
            old(self).catalog_owner_error(origin, catalog_id) is None && !(exists|d: Did|
                old(self).dids_by_catalog@.contains_key((catalog_id, d))) ==> {
                let a = account_or_executed(origin)->0;
                &&& final(self)@ == (IdentityState {
                    catalogs: old(self)@.catalogs.remove((a.1, catalog_id)),
                    ..old(self)@
                })
                &&& r == Ok::<Event, Error>(Event::CatalogRemoved(a.0, a.1, catalog_id))
            },
    {
        let (account, group_account) = match ensure_account_or_executed(origin) {
            Some(a) => a,
            None => return Err(Error::BadOrigin),
        };
        if !self.catalogs.contains_key(&(group_account, catalog_id)) {
            return Err(Error::NotController);
        }
        if self.dids_by_catalog.has_prefix(&catalog_id) {
            return Err(Error::CatalogNotEmpty);
        }
        self.catalogs.remove(&(group_account, catalog_id));
        Ok(Event::CatalogRemoved(account, group_account, catalog_id))
    }

    /// Whether every DID of a list has a document.
    fn documented(&self, dids: &Vec<Did>) -> (r: bool)
        requires
            self.wf(),
        ensures
            r == all_documented(self.did_documents@.dom(), dids@),
    {
        let mut i: usize = 0;
        while i < dids.len()
            invariant
                self.wf(),
                i <= dids@.len(),
                forall|j: int| 0 <= j < i ==> self.did_documents@.dom().contains(#[trigger] dids@[j]),
            decreases dids@.len() - i,
        {
            if !self.did_documents.contains_key(&dids[i]) {
                return false;
            }
            i += 1;
        }
        true
    }

    /// The owner adds DIDs to a catalog; at most the catalog limit at a time, each
    /// with a document.
    pub fn add_dids_to_catalog(&mut self, origin: Origin, catalog_id: u32, dids: Vec<Did>) -> (r: Result<
        Event,
        Error,
    >)
        requires
            old(self).wf(),
        ensures
            final(self).wf(),
            old(self).catalog_owner_error(origin, catalog_id) matches Some(e) ==> r == Err::<Event, Error>(e)
                && final(self)@ == old(self)@,
            old(self).catalog_owner_error(origin, catalog_id) is None ==> {
                let a = account_or_executed(origin)->0;
                let e = if dids@.len() > old(self).limits.catalog_did_limit {
                    Some(Error::CatalogDidLimitExceeded)
                } else if !all_documented(old(self).did_documents@.dom(), dids@) {
                    Some(Error::NotFound)
                } else {
                    None
                };
                &&& e matches Some(err) ==> r == Err::<Event, Error>(err) && final(self)@ == old(self)@
                &&& e is None ==> {
                    &&& final(self)@ == (IdentityState {
                        dids_by_catalog: inserted_all(old(self)@.dids_by_catalog, catalog_entries(catalog_id, dids@).0),
                        did_catalogs: inserted_all(old(self)@.did_catalogs, catalog_entries(catalog_id, dids@).1),
                        ..old(self)@
                    })
                    &&& r == Ok::<Event, Error>(Event::CatalogDidsAdded(a.0, a.1, catalog_id))
                }
            },
    {
        let (account, group_account) = match ensure_account_or_executed(origin) {
            Some(a) => a,
            None => return Err(Error::BadOrigin),
        };
        if !self.catalogs.contains_key(&(group_account, catalog_id)) {
            return Err(Error::NotController);
        }
        if dids.len() as u64 > self.limits.catalog_did_limit as u64 {
            return Err(Error::CatalogDidLimitExceeded);
        }
        if !self.documented(&dids) {
            return Err(Error::NotFound);
        }
        let (a, b) = catalog_entry_lists(catalog_id, &dids);
        self.dids_by_catalog.insert_all(a);
        self.did_catalogs.insert_all(b);
        proof {
            let entries = catalog_entries(catalog_id, dids@);
            assert(swapped(entries.0) =~= entries.1);
            lemma_mirrored_inserted_all(old(self)@.dids_by_catalog, old(self)@.did_catalogs, entries.0);
        }
        Ok(Event::CatalogDidsAdded(account, group_account, catalog_id))
    }

    /// The owner removes DIDs from a catalog; at most the catalog limit at a time.
    pub fn remove_dids_from_catalog(&mut self, origin: Origin, catalog_id: u32, dids: Vec<Did>) -> (r: Result<
        Event,
        Error,
    >)
        requires
            old(self).wf(),
        ensures
            final(self).wf(),
            old(self).catalog_owner_error(origin, catalog_id) matches Some(e) ==> r == Err::<Event, Error>(e)
                && final(self)@ == old(self)@,
            old(self).catalog_owner_error(origin, catalog_id) is None && dids@.len()
                > old(self).limits.catalog_did_limit ==> r == Err::<Event, Error>(
                Error::CatalogDidLimitExceeded,
            ) && final(self)@ == old(self)@,
            old(self).catalog_owner_error(origin, catalog_id) is None && dids@.len()
                <= old(self).limits.catalog_did_limit ==> {
                let a = account_or_executed(origin)->0;
                &&& final(self)@ == (IdentityState {
                    dids_by_catalog: old(self)@.dids_by_catalog.remove_keys(
                        dids@.map_values(|d: Did| (catalog_id, d)).to_set(),
                    ),
                    did_catalogs: old(self)@.did_catalogs.remove_keys(dids@.map_values(|d: Did| (d, catalog_id)).to_set()),
                    ..old(self)@
                })
                &&& r == Ok::<Event, Error>(Event::CatalogDidsRemoved(a.0, a.1, catalog_id))
            },
    {
        let (account, group_account) = match ensure_account_or_executed(origin) {
            Some(a) => a,
            None => return Err(Error::BadOrigin),
        };
        if !self.catalogs.contains_key(&(group_account, catalog_id)) {
            return Err(Error::NotController);
        }
        if dids.len() as u64 > self.limits.catalog_did_limit as u64 {
            return Err(Error::CatalogDidLimitExceeded);
        }
        let (a, b) = catalog_key_lists(catalog_id, &dids);
        self.dids_by_catalog.remove_all(&a);
        self.did_catalogs.remove_all(&b);
        proof {
            let ks = a@.to_set();
            let ls = b@.to_set();
            assert forall|x: u32, d: Did| #[trigger] ks.contains((x, d)) implies ls.contains((d, x)) by {
                let j = choose|j: int| 0 <= j < a@.len() && a@[j] == (x, d);
                assert(b@[j] == (d, x));
            }
            assert forall|x: u32, d: Did| #[trigger] ls.contains((d, x)) implies ks.contains((x, d)) by {
                let j = choose|j: int| 0 <= j < b@.len() && b@[j] == (d, x);
                assert(a@[j] == (x, d));
            }
            lemma_mirrored_remove_keys(old(self)@.dids_by_catalog, old(self)@.did_catalogs, ks, ls);
        }
        Ok(Event::CatalogDidsRemoved(account, group_account, catalog_id))
    }
}

} // verus!
