//! Identity: DIDs with their documents and properties, controllers, claims and catalogs.
//!
//! A DID has a subject and controllers. Controllers add and remove properties,
//! manage the other controllers and authorize claim consumers and issuers.
//! Consumers make claims against a DID; issuers attest them. DIDs are organized
//! into catalogs. The randomness and the time that calls use are read by the
//! runtime and handed in.
use crate::groups::{
    account_or_approved_votes, account_or_executed, ensure_account_or_approved_votes,
    ensure_account_or_executed, Origin,
};
use crate::hashing::{append_array, append_bytes, encode_bytes, encode_u64, hash_bytes, hash_of_bytes, le_bytes, scale_bytes};
use crate::primitives::{
    check_limit, check_properties, check_statements, fits, properties_fit, statements_fit, AccountId, Attestation, Claim,
    ClaimConsumer, ClaimIssuer, Did, DidDocument, DidProperty, MemberCount, Moment, Statement,
};
use crate::table::{inserted_all, lemma_inserted_all_keeps, lemma_inserted_all_last, lemma_mirrored_inserted_all, lemma_mirrored_remove_keys, mirrored, swapped, Table};
use vstd::prelude::*;

verus! {

/// The limits that the runtime configures.
#[derive(Clone, Copy, Debug, PartialEq, Eq)]
pub struct IdentityLimits {
    /// The maximum length of a name.
    pub name_limit: u32,
    /// The maximum length of a fact string.
    pub fact_string_limit: u32,
    /// The maximum number of properties added or removed at one time.
    pub property_limit: u32,
    /// The maximum number of statements of a claim.
    pub statement_limit: u32,
    /// The maximum number of controllers added or removed at one time.
    pub controller_limit: u32,
    /// The maximum number of claim consumers authorized or revoked at one time.
    pub claim_consumer_limit: u32,
    /// The maximum number of claim issuers authorized or revoked at one time.
    pub claim_issuer_limit: u32,
    /// The maximum number of DIDs added to or removed from a catalog at one time.
    pub catalog_did_limit: u32,
    /// The maximum number of DIDs registered in bulk at one time.
    pub bulk_did_limit: u32,
    /// The maximum number of properties of a DID registered in bulk.
    pub bulk_did_property_limit: u32,
}

/// The errors of the identity pallet.
#[derive(Clone, Copy, Debug, PartialEq, Eq, Structural)]
pub enum Error {
    /// The origin is not the one the call requires.
    BadOrigin,
    /// Value was None
    NoneValue,
    /// A string exceeds the maximum allowed length
    StringLengthLimitExceeded,
    /// Value was not found
    NotFound,
    /// Too many properties
    PropertyLimitExceeded,
    /// Controller limit exceeded.
    ControllerLimitExceeded,
    /// Claim Consumer limit exceeded.
    ClaimConsumerLimitExceeded,
    /// Claim Issuer limit exceeded.
    ClaimIssuerLimitExceeded,
    /// Too many statements
    StatementLimitExceeded,
    /// Catalog Did limit exceeded.
    CatalogDidLimitExceeded,
    /// Bulk Did limit exceeded.
    BulkDidLimitExceeded,
    /// A non-controller account attempted to modify a DID
    NotController,
    /// A catalog must be empty to be removed
    CatalogNotEmpty,
    /// The requested DID Document does not exist
    DidDocumentNotFound,
    /// Not authorized to make a claim or attest a claim
    NotAuthorized,
    /// The required threshold of votes to attest a claim was not met
    ThresholdNotMet,
    /// Id out of bounds
    NoIdAvailable,
}

/// The events of the identity pallet.
#[derive(Clone, Debug, PartialEq, Eq)]
pub enum Event {
    /// (caller, subject, controller, did)
    Registered(AccountId, AccountId, AccountId, Did),
    /// (caller, controller, count)
    BulkRegistered(AccountId, AccountId, u32),
    /// (caller, controller, did)
    DidPropertiesAdded(AccountId, AccountId, Did),
    /// (caller, controller, did)
    DidPropertiesRemoved(AccountId, AccountId, Did),
    /// (caller, controller, target_did, added_controllers, removed_controllers)
    DidControllerUpdated(AccountId, AccountId, Did, Option<Vec<AccountId>>, Option<Vec<AccountId>>),
    /// (caller, controller, did, claim_consumers)
    ClaimConsumersAuthorized(AccountId, AccountId, Did, Vec<ClaimConsumer>),
    /// (caller, controller, did, claim_consumers)
    ClaimConsumersRevoked(AccountId, AccountId, Did, Vec<AccountId>),
    /// (caller, controller, did, claim_issuers)
    ClaimIssuersAuthorized(AccountId, AccountId, Did, Vec<ClaimIssuer>),
    /// (caller, controller, did, claim_issuers)
    ClaimIssuersRevoked(AccountId, AccountId, Did, Vec<AccountId>),
    /// (caller, issuer, target_did, claim_id)
    ClaimMade(AccountId, AccountId, Did, u32),
    /// (attester, target_did, claim_id)
    ClaimAttested(AccountId, Did, u32),
    /// (attester, target_did, claim_id)
    ClaimAttestationRevoked(AccountId, Did, u32),
    /// (caller, controller, catalog_id)
    CatalogCreated(AccountId, AccountId, u32),
    /// (caller, controller, catalog_id)
    CatalogRemoved(AccountId, AccountId, u32),
    /// (caller, controller, catalog_id)
    CatalogDidsAdded(AccountId, AccountId, u32),
    /// (caller, controller, catalog_id)
    CatalogDidsRemoved(AccountId, AccountId, u32),
}

/// The storage of the identity pallet.
pub struct Identity {
    pub limits: IdentityLimits,
    /// Incrementing nonce
    pub nonce: u64,
    /// The next available claim id.
    pub next_claim_id: u32,
    /// The next available catalog id.
    pub next_catalog_id: u32,
    /// (subject, Did) => ()
    pub did_by_subject: Table<(AccountId, Did), ()>,
    /// (controller, Did) => ()
    pub did_by_controller: Table<(AccountId, Did), ()>,
    /// (Did, controller) => ()
    pub did_controllers: Table<(Did, AccountId), ()>,
    /// Did => DidDocument
    pub did_documents: Table<Did, DidDocument>,
    /// (Did, hash of the property name) => property
    pub did_document_properties: Table<(Did, [u8; 32]), DidProperty>,
    /// (Did, consumer) => expiration
    pub claim_consumers: Table<(Did, AccountId), Moment>,
    /// (consumer, Did) => expiration
    pub dids_by_consumer: Table<(AccountId, Did), Moment>,
    /// (Did, issuer) => expiration
    pub claim_issuers: Table<(Did, AccountId), Moment>,
    /// (issuer, Did) => expiration
    pub dids_by_issuer: Table<(AccountId, Did), Moment>,
    /// (Did, claim id) => claim
    pub claims: Table<(Did, u32), Claim>,
    /// (owner, catalog id) => ()
    pub catalogs: Table<(AccountId, u32), ()>,
    /// (catalog id, Did) => ()
    pub dids_by_catalog: Table<(u32, Did), ()>,
    /// (Did, catalog id) => ()
    pub did_catalogs: Table<(Did, u32), ()>,
}

/// The abstract state of the identity pallet.
pub struct IdentityState {
    pub limits: IdentityLimits,
    pub nonce: u64,
    pub next_claim_id: u32,
    pub next_catalog_id: u32,
    pub did_by_subject: Map<(AccountId, Did), ()>,
    pub did_by_controller: Map<(AccountId, Did), ()>,
    pub did_controllers: Map<(Did, AccountId), ()>,
    pub did_documents: Map<Did, DidDocument>,
    pub did_document_properties: Map<(Did, [u8; 32]), DidProperty>,
    pub claim_consumers: Map<(Did, AccountId), Moment>,
    pub dids_by_consumer: Map<(AccountId, Did), Moment>,
    pub claim_issuers: Map<(Did, AccountId), Moment>,
    pub dids_by_issuer: Map<(AccountId, Did), Moment>,
    pub claims: Map<(Did, u32), Claim>,
    pub catalogs: Map<(AccountId, u32), ()>,
    pub dids_by_catalog: Map<(u32, Did), ()>,
    pub did_catalogs: Map<(Did, u32), ()>,
}

impl View for Identity {
    type V = IdentityState;

    open spec fn view(&self) -> IdentityState {
        IdentityState {
            limits: self.limits,
            nonce: self.nonce,
            next_claim_id: self.next_claim_id,
            next_catalog_id: self.next_catalog_id,
            did_by_subject: self.did_by_subject@,
            did_by_controller: self.did_by_controller@,
            did_controllers: self.did_controllers@,
            did_documents: self.did_documents@,
            did_document_properties: self.did_document_properties@,
            claim_consumers: self.claim_consumers@,
            dids_by_consumer: self.dids_by_consumer@,
            claim_issuers: self.claim_issuers@,
            dids_by_issuer: self.dids_by_issuer@,
            claims: self.claims@,
            catalogs: self.catalogs@,
            dids_by_catalog: self.dids_by_catalog@,
            did_catalogs: self.did_catalogs@,
        }
    }
}

impl IdentityState {
    /// Each index and its reverse hold the same entries: controllers of DIDs,
    /// claim consumers, claim issuers and the DIDs of catalogs.
    pub open spec fn mirrors(&self) -> bool {
        &&& mirrored(self.did_by_controller, self.did_controllers)
        &&& mirrored(self.claim_consumers, self.dids_by_consumer)
        &&& mirrored(self.claim_issuers, self.dids_by_issuer)
        &&& mirrored(self.dids_by_catalog, self.did_catalogs)
    }

    /// The subject of each DID document is one of its controllers.
    pub open spec fn subjects_control(&self) -> bool {
        forall|d: Did| #[trigger] self.did_documents.contains_key(d)
            ==> self.did_by_controller.contains_key((self.did_documents[d].subject, d))
    }

    /// Claim and catalog ids in use are below the next ones handed out.
    pub open spec fn ids_below(&self) -> bool {
        &&& forall|d: Did, id: u32| #[trigger] self.claims.contains_key((d, id)) ==> id < self.next_claim_id
        &&& forall|o: AccountId, c: u32| #[trigger] self.catalogs.contains_key((o, c)) ==> c < self.next_catalog_id
    }
}

/// The key that a property is stored under: the hash of the SCALE encoding of its name.
pub open spec fn property_key(name: Seq<u8>) -> [u8; 32] {
    hash_of_bytes(scale_bytes(name))
}

/// Computes the key of a property name; a name longer than `u32::MAX` cannot be encoded.
pub fn property_key_of(name: &Vec<u8>) -> (r: [u8; 32])
    requires
        name@.len() <= u32::MAX,
    ensures
        r == property_key(name@),
{
    let encoded = encode_bytes(name);
    hash_bytes(encoded.as_slice())
}

/// The stored form of properties: each under its key.
pub open spec fn property_entries(did: Did, props: Seq<DidProperty>) -> Seq<((Did, [u8; 32]), DidProperty)> {
    props.map_values(|p: DidProperty| ((did, property_key(p.name@)), p))
}

/// The names of some properties can be encoded: none is longer than `u32::MAX`.
pub open spec fn names_encodable(props: Seq<DidProperty>) -> bool {
    forall|i: int| 0 <= i < props.len() ==> (#[trigger] props[i]).name@.len() <= u32::MAX
}

/// Pairs each property with its key.
fn keyed_properties(did: Did, props: Vec<DidProperty>) -> (r: Vec<((Did, [u8; 32]), DidProperty)>)
    requires
        names_encodable(props@),
    ensures
        r@ == property_entries(did, props@),
{
    let ghost all = props@;
    let mut rest = props;
    let mut r: Vec<((Did, [u8; 32]), DidProperty)> = Vec::new();
    while rest.len() > 0
        invariant
            names_encodable(all),
            r@.len() + rest@.len() == all.len(),
            rest@ == all.skip(r@.len() as int),
            r@ == property_entries(did, all.take(r@.len() as int)),
        decreases rest@.len(),
    {
        let ghost n = r@.len() as int;
        let p = rest.remove(0);
        assert(p == all[n]);
        let key = property_key_of(&p.name);
        r.push(((did, key), p));
        assert(all.take(n + 1) =~= all.take(n).push(all[n]));
        assert(rest@ =~= all.skip(n + 1));
        assert(r@ =~= property_entries(did, all.take(n + 1)));
    }
    assert(all.take(r@.len() as int) =~= all);
    r
}

/// An added property is found under the key of its name, unless a later property
/// of the list has a name with the same key.
pub proof fn lemma_added_property_found(m: Map<(Did, [u8; 32]), DidProperty>, did: Did, props: Seq<DidProperty>, i: int)
    requires
        0 <= i < props.len(),
        forall|j: int| i < j < props.len() ==> property_key((#[trigger] props[j]).name@) != property_key(props[i].name@),
    ensures
        inserted_all(m, property_entries(did, props)).contains_key((did, property_key(props[i].name@))),
        inserted_all(m, property_entries(did, props))[(did, property_key(props[i].name@))] == props[i],
{
    let entries = property_entries(did, props);
    assert(entries[i] == ((did, property_key(props[i].name@)), props[i]));
    assert forall|j: int| i < j < entries.len() implies (#[trigger] entries[j]).0 != entries[i].0 by {
        assert(entries[j] == ((did, property_key(props[j].name@)), props[j]));
    }
    lemma_inserted_all_last(m, entries, i);
}

/// Properties removed by the names they were added with are gone: after properties
/// of a DID are added and then removed by a list of names that holds each of their
/// names, no property of the DID stands under any of these names.
pub proof fn lemma_add_then_remove_properties(
    m: Map<(Did, [u8; 32]), DidProperty>,
    did: Did,
    props: Seq<DidProperty>,
    names: Seq<Vec<u8>>,
)
    requires
        forall|i: int| 0 <= i < props.len() ==> exists|j: int| 0 <= j < names.len() && names[j]@ == (#[trigger] props[i]).name@,
    ensures
        forall|i: int|
            0 <= i < props.len() ==> !inserted_all(m, property_entries(did, props)).remove_keys(
                names.map_values(|k: Vec<u8>| (did, property_key(k@))).to_set(),
            ).contains_key((did, property_key((#[trigger] props[i]).name@))),
{
    let ks = names.map_values(|k: Vec<u8>| (did, property_key(k@)));
    assert forall|i: int| 0 <= i < props.len() implies ks.to_set().contains((did, property_key((#[trigger] props[i]).name@))) by {
        let j = choose|j: int| 0 <= j < names.len() && names[j]@ == props[i].name@;
        assert(ks[j] == (did, property_key(props[i].name@)));
    }
}

/// The DID minted for a subject with some randomness and a nonce: the hash of their SCALE encoding.
pub open spec fn minted_did(random: [u8; 32], subject: AccountId, nonce: u64) -> Did {
    Did { id: hash_of_bytes(random@ + le_bytes(subject as nat, 8) + le_bytes(nonce as nat, 8)) }
}

/// Computes the DID minted for a subject with some randomness and a nonce.
pub fn mint_id(random: &[u8; 32], subject: AccountId, nonce: u64) -> (r: Did)
    ensures
        r == minted_did(*random, subject, nonce),
{
    let mut data: Vec<u8> = Vec::new();
    append_array(&mut data, random);
    let s = encode_u64(subject);
    append_bytes(&mut data, &s);
    let n = encode_u64(nonce);
    append_bytes(&mut data, &n);
    assert(data@ =~= random@ + le_bytes(subject as nat, 8) + le_bytes(nonce as nat, 8));
    Did { id: hash_bytes(data.as_slice()) }
}

/// The state after minting a DID for a subject, with a controller and properties.
pub open spec fn minted(
    s: IdentityState,
    subject: AccountId,
    controller: AccountId,
    props: Option<Vec<DidProperty>>,
    random: [u8; 32],
) -> IdentityState {
    let did = minted_did(random, subject, s.nonce);
    let by_controller = s.did_by_controller.insert((controller, did), ());
    let controllers = s.did_controllers.insert((did, controller), ());
    IdentityState {
        nonce: s.nonce.wrapping_add(1),
        did_by_subject: s.did_by_subject.insert((subject, did), ()),
        did_by_controller: if subject != controller {
            by_controller.insert((subject, did), ())
        } else {
            by_controller
        },
        did_controllers: if subject != controller {
            controllers.insert((did, subject), ())
        } else {
            controllers
        },
        did_documents: s.did_documents.insert(did, DidDocument { subject }),
        did_document_properties: match props {
            Some(ps) => inserted_all(s.did_document_properties, property_entries(did, ps@)),
            None => s.did_document_properties,
        },
        ..s
    }
}

/// Optional properties are within the count limit and their strings fit.
pub open spec fn optional_properties_error(
    props: Option<Vec<DidProperty>>,
    count_limit: u32,
    name_limit: u32,
    fact_limit: u32,
) -> Option<Error> {
    match props {
        Some(ps) => if ps@.len() > count_limit {
            Some(Error::PropertyLimitExceeded)
        } else if !properties_fit(ps@, name_limit, fact_limit) {
            Some(Error::StringLengthLimitExceeded)
        } else {
            None
        },
        None => None,
    }
}

fn check_optional_properties(props: &Option<Vec<DidProperty>>, count_limit: u32, name_limit: u32, fact_limit: u32) -> (r:
    Option<Error>)
    ensures
        r == optional_properties_error(*props, count_limit, name_limit, fact_limit),
{
    match props {
        Some(ps) => {
            if ps.len() as u64 > count_limit as u64 {
                Some(Error::PropertyLimitExceeded)
            } else if !check_properties(ps, name_limit, fact_limit) {
                Some(Error::StringLengthLimitExceeded)
            } else {
                None
            }
        },
        None => None,
    }
}

impl Identity {
    /// Every table is well formed.
    pub open spec fn wf(&self) -> bool {
        &&& self.did_by_subject.wf()
        &&& self.did_by_controller.wf()
        &&& self.did_controllers.wf()
        &&& self.did_documents.wf()
        &&& self.did_document_properties.wf()
        &&& self.claim_consumers.wf()
        &&& self.dids_by_consumer.wf()
        &&& self.claim_issuers.wf()
        &&& self.dids_by_issuer.wf()
        &&& self.claims.wf()
        &&& self.catalogs.wf()
        &&& self.dids_by_catalog.wf()
        &&& self.did_catalogs.wf()
        &&& self@.mirrors()
        &&& self@.ids_below()
        &&& self@.subjects_control()
    }

    /// Empty storage; the nonce and the ids start at one.
    pub fn new(limits: IdentityLimits) -> (s: Self)
        ensures
            s.wf(),
            s@ == (IdentityState {
                limits,
                nonce: 1,
                next_claim_id: 1,
                next_catalog_id: 1,
                did_by_subject: Map::empty(),
                did_by_controller: Map::empty(),
                did_controllers: Map::empty(),
                did_documents: Map::empty(),
                did_document_properties: Map::empty(),
                claim_consumers: Map::empty(),
                dids_by_consumer: Map::empty(),
                claim_issuers: Map::empty(),
                dids_by_issuer: Map::empty(),
                claims: Map::empty(),
                catalogs: Map::empty(),
                dids_by_catalog: Map::empty(),
                did_catalogs: Map::empty(),
            }),
    {
        Identity {
            limits,
            nonce: 1,
            next_claim_id: 1,
            next_catalog_id: 1,
            did_by_subject: Table::new(),
            did_by_controller: Table::new(),
            did_controllers: Table::new(),
            did_documents: Table::new(),
            did_document_properties: Table::new(),
            claim_consumers: Table::new(),
            dids_by_consumer: Table::new(),
            claim_issuers: Table::new(),
            dids_by_issuer: Table::new(),
            claims: Table::new(),
            catalogs: Table::new(),
            dids_by_catalog: Table::new(),
            did_catalogs: Table::new(),
        }
    }

    /// Mints a DID: the subject has it, the controller and the subject control it,
    /// it gets a document naming the subject and the properties given.
    fn mint_did(
        &mut self,
        subject: AccountId,
        controller: AccountId,
        props: Option<Vec<DidProperty>>,
        random: &[u8; 32],
    ) -> (did: Did)
        requires
            old(self).wf(),
            props matches Some(ps) ==> names_encodable(ps@),
        ensures
            final(self).wf(),
            final(self)@ == minted(old(self)@, subject, controller, props, *random),
            did == minted_did(*random, subject, old(self).nonce),
    {
        let nonce = self.nonce;
        self.nonce = nonce.wrapping_add(1);
        let did = mint_id(random, subject, nonce);
        self.did_by_subject.insert((subject, did), ());
        self.did_by_controller.insert((controller, did), ());
        self.did_controllers.insert((did, controller), ());
        if subject != controller {
            self.did_by_controller.insert((subject, did), ());
            self.did_controllers.insert((did, subject), ());
        }
        self.did_documents.insert(did, DidDocument { subject });
        match props {
            Some(ps) => {
                let entries = keyed_properties(did, ps);
                self.did_document_properties.insert_all(entries);
            },
            None => {},
        }
        assert(self@.claims == old(self)@.claims && self@.catalogs == old(self)@.catalogs);
        assert forall|d: Did| #[trigger] self@.did_documents.contains_key(d) implies self@.did_by_controller.contains_key(
            (self@.did_documents[d].subject, d),
        ) by {
            if d != did {
                assert(old(self)@.did_documents.contains_key(d));
            }
        }
        did
    }

    /// Registers a new DID for the caller, which is its subject and controller.
    /// Called by a member on behalf of a group, the group account is both.
    /// `random` is the randomness of the block.
    pub fn register_did(&mut self, origin: Origin, properties: Option<Vec<DidProperty>>, random: [u8; 32]) -> (r:
        Result<Event, Error>)
        requires
            old(self).wf(),
        ensures
            final(self).wf(),
            account_or_executed(origin) is None ==> r == Err::<Event, Error>(Error::BadOrigin)
                && final(self)@ == old(self)@,
            account_or_executed(origin) matches Some(a) ==> {
                let e = optional_properties_error(
                    properties,
                    old(self).limits.property_limit,
                    old(self).limits.name_limit,
                    old(self).limits.fact_string_limit,
                );
                &&& e matches Some(err) ==> r == Err::<Event, Error>(err) && final(self)@ == old(self)@
                &&& e is None ==> {
                    &&& final(self)@ == minted(old(self)@, a.1, a.1, properties, random)
                    &&& r == Ok::<Event, Error>(
                        Event::Registered(a.0, a.1, a.1, minted_did(random, a.1, old(self).nonce)),
                    )
                }
            },
    {
        let (account, group_account) = match ensure_account_or_executed(origin) {
            Some(a) => a,
            None => return Err(Error::BadOrigin),
        };
        match check_optional_properties(
            &properties,
            self.limits.property_limit,
            self.limits.name_limit,
            self.limits.fact_string_limit,
        ) {
            Some(e) => return Err(e),
            None => {},
        }
        let did = self.mint_did(group_account, group_account, properties, &random);
        Ok(Event::Registered(account, group_account, group_account, did))
    }

    /// Registers a new DID for a subject; the caller (or its group) controls it.
    pub fn register_did_for(
        &mut self,
        origin: Origin,
        subject: AccountId,
        properties: Option<Vec<DidProperty>>,
        random: [u8; 32],
    ) -> (r: Result<Event, Error>)
        requires
            old(self).wf(),
        ensures
            final(self).wf(),
            account_or_executed(origin) is None ==> r == Err::<Event, Error>(Error::BadOrigin)
                && final(self)@ == old(self)@,
            account_or_executed(origin) matches Some(a) ==> {
                let e = optional_properties_error(
                    properties,
                    old(self).limits.property_limit,
                    old(self).limits.name_limit,
                    old(self).limits.fact_string_limit,
                );
                &&& e matches Some(err) ==> r == Err::<Event, Error>(err) && final(self)@ == old(self)@
                &&& e is None ==> {
                    &&& final(self)@ == minted(old(self)@, subject, a.1, properties, random)
                    &&& r == Ok::<Event, Error>(
                        Event::Registered(a.0, subject, a.1, minted_did(random, subject, old(self).nonce)),
                    )
                }
            },
    {
        let (account, group_account) = match ensure_account_or_executed(origin) {
            Some(a) => a,
            None => return Err(Error::BadOrigin),
        };
        match check_optional_properties(
            &properties,
            self.limits.property_limit,
            self.limits.name_limit,
            self.limits.fact_string_limit,
        ) {
            Some(e) => return Err(e),
            None => {},
        }
        let did = self.mint_did(subject, group_account, properties, &random);
        Ok(Event::Registered(account, subject, group_account, did))
    }
}

/// The first entry of a bulk registration whose properties are refused, and why.
pub open spec fn bulk_error(
    list: Seq<(AccountId, Option<Vec<DidProperty>>)>,
    count_limit: u32,
    name_limit: u32,
    fact_limit: u32,
) -> Option<Error>
    decreases list.len(),
{
    if list.len() == 0 {
        None
    } else {
        match optional_properties_error(list[0].1, count_limit, name_limit, fact_limit) {
            Some(e) => Some(e),
            None => bulk_error(list.drop_first(), count_limit, name_limit, fact_limit),
        }
    }
}

/// The state after minting a DID for each entry in turn.
pub open spec fn bulk_minted(
    s: IdentityState,
    controller: AccountId,
    list: Seq<(AccountId, Option<Vec<DidProperty>>)>,
    random: [u8; 32],
) -> IdentityState
    decreases list.len(),
{
    if list.len() == 0 {
        s
    } else {
        bulk_minted(minted(s, list[0].0, controller, list[0].1, random), controller, list.drop_first(), random)
    }
}

/// The `Registered` events of minting a DID for each entry in turn.
pub open spec fn bulk_registered(
    s: IdentityState,
    caller: AccountId,
    controller: AccountId,
    list: Seq<(AccountId, Option<Vec<DidProperty>>)>,
    random: [u8; 32],
) -> Seq<Event>
    decreases list.len(),
{
    if list.len() == 0 {
        Seq::empty()
    } else {
        seq![Event::Registered(caller, list[0].0, controller, minted_did(random, list[0].0, s.nonce))]
            + bulk_registered(
            minted(s, list[0].0, controller, list[0].1, random),
            caller,
            controller,
            list.drop_first(),
            random,
        )
    }
}

/// Registering in bulk is registering each entry in turn, as `register_did_for` does:
/// the state after a list and one more entry is the state after the list with that
/// entry's DID then minted for its subject, with its properties.
pub proof fn lemma_bulk_is_registration_in_turn(
    s: IdentityState,
    controller: AccountId,
    list: Seq<(AccountId, Option<Vec<DidProperty>>)>,
    e: (AccountId, Option<Vec<DidProperty>>),
    random: [u8; 32],
)
    ensures
        bulk_minted(s, controller, Seq::empty(), random) == s,
        bulk_minted(s, controller, list.push(e), random) == minted(
            bulk_minted(s, controller, list, random),
            e.0,
            controller,
            e.1,
            random,
        ),
    decreases list.len(),
{
    let empty = Seq::<(AccountId, Option<Vec<DidProperty>>)>::empty();
    if list.len() == 0 {
        let m = minted(s, e.0, controller, e.1, random);
        assert(list.push(e) =~= seq![e]);
        assert(seq![e].drop_first() =~= empty);
        assert(bulk_minted(m, controller, empty, random) == m);
        assert(bulk_minted(s, controller, list, random) == s);
        assert(bulk_minted(s, controller, seq![e], random) == bulk_minted(m, controller, empty, random));
    } else {
        let m1 = minted(s, list[0].0, controller, list[0].1, random);
        let rest = list.drop_first();
        assert(list.push(e)[0] == list[0]);
        assert(list.push(e).drop_first() =~= rest.push(e));
        lemma_bulk_is_registration_in_turn(m1, controller, rest, e, random);
        assert(bulk_minted(s, controller, list.push(e), random) == bulk_minted(m1, controller, rest.push(e), random));
        assert(bulk_minted(s, controller, list, random) == bulk_minted(m1, controller, rest, random));
    }
}

/// A DID registered with properties holds each of them under the key of its name
/// (the last one given for a key).
pub proof fn lemma_registered_did_has_properties(
    s: IdentityState,
    subject: AccountId,
    controller: AccountId,
    props: Vec<DidProperty>,
    random: [u8; 32],
    i: int,
)
    requires
        0 <= i < props@.len(),
        forall|j: int| i < j < props@.len() ==> property_key((#[trigger] props@[j]).name@) != property_key(props@[i].name@),
    ensures
        ({
            let did = minted_did(random, subject, s.nonce);
            let m = minted(s, subject, controller, Some(props), random).did_document_properties;
            &&& m.contains_key((did, property_key(props@[i].name@)))
            &&& m[(did, property_key(props@[i].name@))] == props@[i]
        }),
{
    lemma_added_property_found(s.did_document_properties, minted_did(random, subject, s.nonce), props@, i);
}

fn check_bulk(list: &Vec<(AccountId, Option<Vec<DidProperty>>)>, count_limit: u32, name_limit: u32, fact_limit: u32) -> (r:
    Option<Error>)
    ensures
        r == bulk_error(list@, count_limit, name_limit, fact_limit),
{
    let mut i: usize = 0;
    assert(list@.skip(0) =~= list@);
    while i < list.len()
        invariant
            i <= list@.len(),
            bulk_error(list@.skip(i as int), count_limit, name_limit, fact_limit) == bulk_error(
                list@,
                count_limit,
                name_limit,
                fact_limit,
            ),
        decreases list@.len() - i,
    {
        assert(list@.skip(i as int).drop_first() =~= list@.skip(i as int + 1));
        assert(list@.skip(i as int)[0] == list@[i as int]);
        match check_optional_properties(&list[i].1, count_limit, name_limit, fact_limit) {
            Some(e) => return Some(e),
            None => {},
        }
        i += 1;
    }
    None
}

/// The set of keys (account, did) of the listed accounts other than the subject.
pub open spec fn controller_keys(list: Seq<AccountId>, did: Did, subject: AccountId) -> Set<(AccountId, Did)> {
    Set::new(|k: (AccountId, Did)| k.1 == did && k.0 != subject && list.contains(k.0))
}

/// The set of keys (did, account) of the listed accounts other than the subject.
pub open spec fn controlled_keys(list: Seq<AccountId>, did: Did, subject: AccountId) -> Set<(Did, AccountId)> {
    Set::new(|k: (Did, AccountId)| k.0 == did && k.1 != subject && list.contains(k.1))
}

/// Pairs each account with a DID: (account, did).
fn account_did_keys(list: &Vec<AccountId>, did: Did) -> (r: Vec<(AccountId, Did)>)
    ensures
        r@ == list@.map_values(|a: AccountId| (a, did)),
{
    let mut r: Vec<(AccountId, Did)> = Vec::new();
    let mut i: usize = 0;
    while i < list.len()
        invariant
            i <= list@.len(),
            r@ == list@.take(i as int).map_values(|a: AccountId| (a, did)),
        decreases list@.len() - i,
    {
        r.push((list[i], did));
        assert(list@.take(i as int + 1) =~= list@.take(i as int).push(list@[i as int]));
        assert(r@ =~= list@.take(i as int + 1).map_values(|a: AccountId| (a, did)));
        i += 1;
    }
    assert(list@.take(i as int) =~= list@);
    r
}

/// Pairs a DID with each account: (did, account).
fn did_account_keys(did: Did, list: &Vec<AccountId>) -> (r: Vec<(Did, AccountId)>)
    ensures
        r@ == list@.map_values(|a: AccountId| (did, a)),
{
    let mut r: Vec<(Did, AccountId)> = Vec::new();
    let mut i: usize = 0;
    while i < list.len()
        invariant
            i <= list@.len(),
            r@ == list@.take(i as int).map_values(|a: AccountId| (did, a)),
        decreases list@.len() - i,
    {
        r.push((did, list[i]));
        assert(list@.take(i as int + 1) =~= list@.take(i as int).push(list@[i as int]));
        assert(r@ =~= list@.take(i as int + 1).map_values(|a: AccountId| (did, a)));
        i += 1;
    }
    assert(list@.take(i as int) =~= list@);
    r
}

/// Pairs each key with the unit value.
fn with_unit<K>(keys: Vec<K>) -> (r: Vec<(K, ())>)
    ensures
        r@ == keys@.map_values(|k: K| (k, ())),
{
    let ghost all = keys@;
    let mut rest = keys;
    let mut r: Vec<(K, ())> = Vec::new();
    while rest.len() > 0
        invariant
            r@.len() + rest@.len() == all.len(),
            rest@ == all.skip(r@.len() as int),
            r@ == all.take(r@.len() as int).map_values(|k: K| (k, ())),
        decreases rest@.len(),
    {
        let ghost n = r@.len() as int;
        let k = rest.remove(0);
        r.push((k, ()));
        assert(all.take(n + 1) =~= all.take(n).push(all[n]));
        assert(rest@ =~= all.skip(n + 1));
        assert(r@ =~= all.take(n + 1).map_values(|k: K| (k, ())));
    }
    assert(all.take(r@.len() as int) =~= all);
    r
}

/// Checks that every string fits a limit.
fn all_fit(keys: &Vec<Vec<u8>>, limit: u32) -> (r: bool)
    ensures
        r == forall|i: int| 0 <= i < keys@.len() ==> fits(#[trigger] keys@[i]@, limit),
{
    let mut i: usize = 0;
    while i < keys.len()
        invariant
            i <= keys@.len(),
            forall|j: int| 0 <= j < i ==> fits(#[trigger] keys@[j]@, limit),
        decreases keys@.len() - i,
    {
        if !check_limit(&keys[i], limit) {
            return false;
        }
        i += 1;
    }
    true
}

/// Removes the controller keys of the listed accounts other than the subject.
fn remove_controllers(
    by_controller: &mut Table<(AccountId, Did), ()>,
    controllers: &mut Table<(Did, AccountId), ()>,
    list: &Vec<AccountId>,
    did: Did,
    subject: AccountId,
)
    requires
        old(by_controller).wf(),
        old(controllers).wf(),
    ensures
        final(by_controller).wf(),
        final(controllers).wf(),
        final(by_controller)@ == old(by_controller)@.remove_keys(controller_keys(list@, did, subject)),
        final(controllers)@ == old(controllers)@.remove_keys(controlled_keys(list@, did, subject)),
{
    let mut i: usize = 0;
    assert(old(by_controller)@.remove_keys(controller_keys(list@.take(0), did, subject)) =~= old(by_controller)@);
    assert(old(controllers)@.remove_keys(controlled_keys(list@.take(0), did, subject)) =~= old(controllers)@);
    while i < list.len()
        invariant
            by_controller.wf(),
            controllers.wf(),
            i <= list@.len(),
            by_controller@ == old(by_controller)@.remove_keys(controller_keys(list@.take(i as int), did, subject)),
            controllers@ == old(controllers)@.remove_keys(controlled_keys(list@.take(i as int), did, subject)),
        decreases list@.len() - i,
    {
        let a = list[i];
        let ghost prev = list@.take(i as int);
        let ghost next = list@.take(i as int + 1);
        assert(next =~= prev.push(a));
        assert forall|x: AccountId| next.contains(x) <==> prev.contains(x) || x == a by {
            if next.contains(x) {
                let j = choose|j: int| 0 <= j < next.len() && next[j] == x;
                if j < prev.len() {
                    assert(prev[j] == x);
                }
            }
            if prev.contains(x) {
                let j = choose|j: int| 0 <= j < prev.len() && prev[j] == x;
                assert(next[j] == x);
            }
            if x == a {
                assert(next[i as int] == x);
            }
        }
        if a != subject {
            by_controller.remove(&(a, did));
            controllers.remove(&(did, a));
        }
        assert(by_controller@ =~= old(by_controller)@.remove_keys(controller_keys(next, did, subject)));
        assert(controllers@ =~= old(controllers)@.remove_keys(controlled_keys(next, did, subject)));
        i += 1;
    }
    assert(list@.take(i as int) =~= list@);
}

impl Identity {
    /// Registers DIDs for several subjects; the caller (or its group) controls them.
    /// At most `bulk_did_limit` DIDs may be registered at one time. Every entry is
    /// checked before any DID is minted; the DIDs are minted in order.
    pub fn register_did_for_bulk(
        &mut self,
        origin: Origin,
        dids: Vec<(AccountId, Option<Vec<DidProperty>>)>,
        random: [u8; 32],
    ) -> (r: Result<Vec<Event>, Error>)
        requires
            old(self).wf(),
        ensures
            final(self).wf(),
            account_or_executed(origin) is None ==> r == Err::<Vec<Event>, Error>(
                Error::BadOrigin,
            ) && final(self)@ == old(self)@,
            account_or_executed(origin) matches Some(a) ==> {
                let l = old(self).limits;
                &&& dids@.len() > l.bulk_did_limit ==> r == Err::<Vec<Event>, Error>(
                    Error::BulkDidLimitExceeded,
                ) && final(self)@ == old(self)@
                &&& dids@.len() <= l.bulk_did_limit ==> {
                    let e = bulk_error(dids@, l.bulk_did_property_limit, l.name_limit, l.fact_string_limit);
                    &&& e matches Some(err) ==> r == Err::<Vec<Event>, Error>(err) && final(self)@
                        == old(self)@
                    &&& e is None ==> {
                        &&& final(self)@ == bulk_minted(old(self)@, a.1, dids@, random)
                        &&& r matches Ok(events) && events@ == bulk_registered(old(self)@, a.0, a.1, dids@, random).push(
                            Event::BulkRegistered(a.0, a.1, dids@.len() as u32),
                        )
                    }
                }
            },
    {
        let (account, group_account) = match ensure_account_or_executed(origin) {
            Some(a) => a,
            None => return Err(Error::BadOrigin),
        };
        let count = dids.len();
        if count as u64 > self.limits.bulk_did_limit as u64 {
            return Err(Error::BulkDidLimitExceeded);
        }
        match check_bulk(
            &dids,
            self.limits.bulk_did_property_limit,
            self.limits.name_limit,
            self.limits.fact_string_limit,
        ) {
            Some(e) => return Err(e),
            None => {},
        }
        let ghost all = dids@;
        let ghost s0 = self@;
        let mut rest = dids;
        let mut events: Vec<Event> = Vec::new();
        while rest.len() > 0
            invariant
                self.wf(),
                bulk_error(
                    rest@,
                    self.limits.bulk_did_property_limit,
                    self.limits.name_limit,
                    self.limits.fact_string_limit,
                ) is None,
                bulk_minted(self@, group_account, rest@, random) == bulk_minted(s0, group_account, all, random),
                events@ + bulk_registered(self@, account, group_account, rest@, random) == bulk_registered(
                    s0,
                    account,
                    group_account,
                    all,
                    random,
                ),
            decreases rest@.len(),
        {
            let ghost before = rest@;
            let ghost st = self@;
            let (subject, properties) = rest.remove(0);
            assert(rest@ =~= before.drop_first());
            let did = self.mint_did(subject, group_account, properties, &random);
            let ghost old_events = events@;
            events.push(Event::Registered(account, subject, group_account, did));
            assert(events@ + bulk_registered(self@, account, group_account, rest@, random) =~= old_events
                + bulk_registered(st, account, group_account, before, random));
        }
        assert(events@ =~= events@ + bulk_registered(self@, account, group_account, rest@, random));
        events.push(Event::BulkRegistered(account, group_account, count as u32));
        Ok(events)
    }

    /// The first check that a change of a DID by its controller fails, if any.
    pub open spec fn controller_error(&self, origin: Origin, did: Did) -> Option<Error> {
        match account_or_executed(origin) {
            None => Some(Error::BadOrigin),
            Some(a) => if !self.did_by_controller@.contains_key((a.1, did)) {
                Some(Error::NotController)
            } else {
                None
            },
        }
    }

    /// A controller adds properties to a DID; a property with the name of an existing
    /// one replaces it.
    pub fn add_did_properties(&mut self, origin: Origin, did: Did, properties: Vec<DidProperty>) -> (r: Result<
        Event,
        Error,
    >)
        requires
            old(self).wf(),
        ensures
            final(self).wf(),
            account_or_executed(origin) is None ==> r == Err::<Event, Error>(Error::BadOrigin)
                && final(self)@ == old(self)@,
            account_or_executed(origin) matches Some(a) ==> {
                let l = old(self).limits;
                let e = if properties@.len() > l.property_limit {
                    Some(Error::PropertyLimitExceeded)
                } else if !properties_fit(properties@, l.name_limit, l.fact_string_limit) {
                    Some(Error::StringLengthLimitExceeded)
                } else if !old(self).did_by_controller@.contains_key((a.1, did)) {
                    Some(Error::NotController)
                } else {
                    None
                };
                &&& e matches Some(err) ==> r == Err::<Event, Error>(err) && final(self)@ == old(self)@
                &&& e is None ==> {
                    &&& final(self)@ == (IdentityState {
                        did_document_properties: inserted_all(
                            old(self)@.did_document_properties,
                            property_entries(did, properties@),
                        ),
                        ..old(self)@
                    })
                    &&& r == Ok::<Event, Error>(Event::DidPropertiesAdded(a.0, a.1, did))
                }
            },
    {
        let (account, group_account) = match ensure_account_or_executed(origin) {
            Some(a) => a,
            None => return Err(Error::BadOrigin),
        };
        if properties.len() as u64 > self.limits.property_limit as u64 {
            return Err(Error::PropertyLimitExceeded);
        }
        if !check_properties(&properties, self.limits.name_limit, self.limits.fact_string_limit) {
            return Err(Error::StringLengthLimitExceeded);
        }
        if !self.did_by_controller.contains_key(&(group_account, did)) {
            return Err(Error::NotController);
        }
        let entries = keyed_properties(did, properties);
        self.did_document_properties.insert_all(entries);
        Ok(Event::DidPropertiesAdded(account, group_account, did))
    }

    /// A controller removes properties of a DID by name.
    pub fn remove_did_properties(&mut self, origin: Origin, did: Did, keys: Vec<Vec<u8>>) -> (r: Result<
        Event,
        Error,
    >)
        requires
            old(self).wf(),
        ensures
            final(self).wf(),
            account_or_executed(origin) is None ==> r == Err::<Event, Error>(Error::BadOrigin)
                && final(self)@ == old(self)@,
            account_or_executed(origin) matches Some(a) ==> {
                let l = old(self).limits;
                let e = if keys@.len() > l.property_limit {
                    Some(Error::PropertyLimitExceeded)
                } else if exists|i: int| 0 <= i < keys@.len() && !fits(#[trigger] keys@[i]@, l.name_limit) {
                    Some(Error::StringLengthLimitExceeded)
                } else if !old(self).did_by_controller@.contains_key((a.1, did)) {
                    Some(Error::NotController)
                } else {
                    None
                };
                &&& e matches Some(err) ==> r == Err::<Event, Error>(err) && final(self)@ == old(self)@
                &&& e is None ==> {
                    &&& final(self)@ == (IdentityState {
                        did_document_properties: old(self)@.did_document_properties.remove_keys(
                            keys@.map_values(|k: Vec<u8>| (did, property_key(k@))).to_set(),
                        ),
                        ..old(self)@
                    })
                    &&& r == Ok::<Event, Error>(Event::DidPropertiesRemoved(a.0, a.1, did))
                }
            },
    {
        let (account, group_account) = match ensure_account_or_executed(origin) {
            Some(a) => a,
            None => return Err(Error::BadOrigin),
        };
        if keys.len() as u64 > self.limits.property_limit as u64 {
            return Err(Error::PropertyLimitExceeded);
        }
        if !all_fit(&keys, self.limits.name_limit) {
            return Err(Error::StringLengthLimitExceeded);
        }
        if !self.did_by_controller.contains_key(&(group_account, did)) {
            return Err(Error::NotController);
        }
        let mut hashed: Vec<(Did, [u8; 32])> = Vec::new();
        let mut j: usize = 0;
        while j < keys.len()
            invariant
                j <= keys@.len(),
                forall|i: int| 0 <= i < keys@.len() ==> fits(#[trigger] keys@[i]@, self.limits.name_limit),
                hashed@ == keys@.take(j as int).map_values(|k: Vec<u8>| (did, property_key(k@))),
            decreases keys@.len() - j,
        {
            let h = property_key_of(&keys[j]);
            hashed.push((did, h));
            assert(keys@.take(j as int + 1) =~= keys@.take(j as int).push(keys@[j as int]));
            assert(hashed@ =~= keys@.take(j as int + 1).map_values(|k: Vec<u8>| (did, property_key(k@))));
            j += 1;
        }
        assert(keys@.take(j as int) =~= keys@);
        self.did_document_properties.remove_all(&hashed);
        Ok(Event::DidPropertiesRemoved(account, group_account, did))
    }

    /// A controller adds and removes controllers of a DID. The subject is never removed.
    /// Removals come first, then additions.
    pub fn manage_controllers(
        &mut self,
        origin: Origin,
        target_did: Did,
        add: Option<Vec<AccountId>>,
        remove: Option<Vec<AccountId>>,
    ) -> (r: Result<Event, Error>)
        requires
            old(self).wf(),
        ensures
            final(self).wf(),
            account_or_executed(origin) is None ==> r == Err::<Event, Error>(Error::BadOrigin)
                && final(self)@ == old(self)@,
            account_or_executed(origin) matches Some(a) ==> {
                let l = old(self).limits;
                let add_list = match add {
                    Some(v) => v@,
                    None => Seq::<AccountId>::empty(),
                };
                let remove_list = match remove {
                    Some(v) => v@,
                    None => Seq::<AccountId>::empty(),
                };
                let e = if !old(self).did_by_controller@.contains_key((a.1, target_did)) {
                    Some(Error::NotController)
                } else if add_list.len() > l.controller_limit || remove_list.len() > l.controller_limit {
                    Some(Error::ControllerLimitExceeded)
                } else if !old(self).did_documents@.contains_key(target_did) {
                    Some(Error::DidDocumentNotFound)
                } else {
                    None
                };
                &&& e matches Some(err) ==> r == Err::<Event, Error>(err) && final(self)@ == old(self)@
                &&& e is None ==> {
                    let subject = old(self).did_documents@[target_did].subject;
                    &&& final(self)@ == (IdentityState {
                        did_by_controller: inserted_all(
                            old(self)@.did_by_controller.remove_keys(controller_keys(remove_list, target_did, subject)),
                            add_list.map_values(|x: AccountId| ((x, target_did), ())),
                        ),
                        did_controllers: inserted_all(
                            old(self)@.did_controllers.remove_keys(controlled_keys(remove_list, target_did, subject)),
                            add_list.map_values(|x: AccountId| ((target_did, x), ())),
                        ),
                        ..old(self)@
                    })
                    &&& r == Ok::<Event, Error>(
                        Event::DidControllerUpdated(a.0, a.1, target_did, add, remove),
                    )
                }
            },
    {
        let (account, group_account) = match ensure_account_or_executed(origin) {
            Some(a) => a,
            None => return Err(Error::BadOrigin),
        };
        if !self.did_by_controller.contains_key(&(group_account, target_did)) {
            return Err(Error::NotController);
        }
        let add_count: usize = match &add {
            Some(v) => v.len(),
            None => 0,
        };
        let remove_count: usize = match &remove {
            Some(v) => v.len(),
            None => 0,
        };
        if add_count as u64 > self.limits.controller_limit as u64 || remove_count as u64
            > self.limits.controller_limit as u64 {
            return Err(Error::ControllerLimitExceeded);
        }
        let subject = match self.did_documents.get(&target_did) {
            Some(d) => d.subject,
            None => return Err(Error::DidDocumentNotFound),
        };
        let empty: Vec<AccountId> = Vec::new();
        let remove_list = match &remove {
            Some(v) => v,
            None => &empty,
        };
        remove_controllers(&mut self.did_by_controller, &mut self.did_controllers, remove_list, target_did, subject);
        proof {
            lemma_mirrored_remove_keys(
                old(self)@.did_by_controller,
                old(self)@.did_controllers,
                controller_keys(remove_list@, target_did, subject),
                controlled_keys(remove_list@, target_did, subject),
            );
        }
        let ghost removed_by_controller = self@.did_by_controller;
        let ghost removed_controllers = self@.did_controllers;
        let add_list = match &add {
            Some(v) => v,
            None => &empty,
        };
        let by_controller_entries = with_unit(account_did_keys(add_list, target_did));
        let controllers_entries = with_unit(did_account_keys(target_did, add_list));
        proof {
            assert(by_controller_entries@ =~= add_list@.map_values(|x: AccountId| ((x, target_did), ())));
            assert(controllers_entries@ =~= add_list@.map_values(|x: AccountId| ((target_did, x), ())));
        }
        proof {
            assert(swapped(by_controller_entries@) =~= controllers_entries@);
            lemma_mirrored_inserted_all(removed_by_controller, removed_controllers, by_controller_entries@);
        }
        self.did_by_controller.insert_all(by_controller_entries);
        self.did_controllers.insert_all(controllers_entries);
        proof {
            assert forall|d: Did| #[trigger] self@.did_documents.contains_key(d) implies self@.did_by_controller.contains_key(
                (self@.did_documents[d].subject, d),
            ) by {
                let k = (old(self)@.did_documents[d].subject, d);
                assert(old(self)@.did_by_controller.contains_key(k));
                assert(!controller_keys(remove_list@, target_did, subject).contains(k));
                lemma_inserted_all_keeps(removed_by_controller, by_controller_entries@, k);
            }
        }
        Ok(Event::DidControllerUpdated(account, group_account, target_did, add, remove))
    }
}

/// The expiry, given in seconds, is later than now, given in milliseconds; the
/// conversion saturates.
pub open spec fn not_expired(expiry: Moment, now: Moment) -> bool {
    (if expiry * 1000 > u64::MAX {
        u64::MAX as int
    } else {
        expiry * 1000
    }) > now
}

/// An authorization that holds now: the key is present and has not expired.
pub open spec fn valid_authorization(m: Map<(Did, AccountId), Moment>, did: Did, account: AccountId, now: Moment) -> bool {
    m.contains_key((did, account)) && not_expired(m[(did, account)], now)
}

/// A statement is named among some statements.
pub open spec fn named_in(name: Seq<u8>, ss: Seq<Statement>) -> bool {
    exists|j: int| 0 <= j < ss.len() && ss[j].name@ == name
}

/// The statements that keep their place in an attestation: those whose name is not restated.
pub open spec fn kept_statements(old: Seq<Statement>, new: Seq<Statement>) -> Seq<Statement>
    decreases old.len(),
{
    if old.len() == 0 {
        Seq::empty()
    } else if named_in(old[0].name@, new) {
        kept_statements(old.drop_first(), new)
    } else {
        seq![old[0]] + kept_statements(old.drop_first(), new)
    }
}

/// Filtering a sequence keeps its first element, if that passes, before the
/// filtered rest.
proof fn lemma_filter_front<A>(s: Seq<A>, p: spec_fn(A) -> bool)
    requires
        s.len() > 0,
    ensures
        s.filter(p) == (if p(s[0]) {
            seq![s[0]]
        } else {
            Seq::<A>::empty()
        }) + s.drop_first().filter(p),
{
    assert(s =~= seq![s[0]] + s.drop_first());
    Seq::filter_distributes_over_add(seq![s[0]], s.drop_first(), p);
    reveal(Seq::filter);
    assert(seq![s[0]].drop_last() =~= Seq::<A>::empty());
    assert(Seq::<A>::empty().filter(p) =~= Seq::<A>::empty());
    assert(seq![s[0]].last() == s[0]);
}

/// An attestation replaces every statement that it restates: the claim keeps, in
/// their order, exactly those old statements whose name none of the given
/// statements has, so no kept statement shares a name with a given one.
pub proof fn lemma_attestation_replaces_restated(old: Seq<Statement>, new: Seq<Statement>)
    ensures
        kept_statements(old, new) == old.filter(
            |s: Statement| forall|j: int| 0 <= j < new.len() ==> new[j].name@ != s.name@,
        ),
        forall|i: int, j: int|
            0 <= i < kept_statements(old, new).len() && 0 <= j < new.len() ==> (#[trigger] kept_statements(old, new)[i]).name@
                != (#[trigger] new[j]).name@,
    decreases old.len(),
{
    let p = |s: Statement| forall|j: int| 0 <= j < new.len() ==> new[j].name@ != s.name@;
    if old.len() == 0 {
        reveal(Seq::filter);
        assert(old.filter(p) =~= Seq::<Statement>::empty());
    } else {
        lemma_attestation_replaces_restated(old.drop_first(), new);
        lemma_filter_front(old, p);
        if named_in(old[0].name@, new) {
            let j = choose|j: int| 0 <= j < new.len() && new[j].name@ == old[0].name@;
            assert(!p(old[0]));
            assert(kept_statements(old, new) =~= old.filter(p));
        } else {
            assert(p(old[0]));
            assert(kept_statements(old, new) =~= old.filter(p));
        }
    }
    old.filter_lemma(p);
    assert forall|i: int, j: int|
        0 <= i < kept_statements(old, new).len() && 0 <= j < new.len() implies (#[trigger] kept_statements(old, new)[i]).name@
            != (#[trigger] new[j]).name@ by {
        assert(p(old.filter(p)[i]));
    }
}

/// Whether two byte strings are equal.
pub fn bytes_eq(a: &Vec<u8>, b: &Vec<u8>) -> (r: bool)
    ensures
        r == (a@ == b@),
{
    if a.len() != b.len() {
        return false;
    }
    let mut i: usize = 0;
    while i < a.len()
        invariant
            i <= a@.len(),
            a@.len() == b@.len(),
            forall|j: int| 0 <= j < i ==> a@[j] == b@[j],
        decreases a@.len() - i,
    {
        if a[i] != b[i] {
            return false;
        }
        i += 1;
    }
    assert(a@ =~= b@);
    true
}

fn find_name(name: &Vec<u8>, ss: &Vec<Statement>) -> (r: bool)
    ensures
        r == named_in(name@, ss@),
{
    let mut i: usize = 0;
    while i < ss.len()
        invariant
            i <= ss@.len(),
            forall|j: int| 0 <= j < i ==> ss@[j].name@ != name@,
        decreases ss@.len() - i,
    {
        if bytes_eq(&ss[i].name, name) {
            return true;
        }
        i += 1;
    }
    false
}

/// Replaces the statements of a claim that are restated and appends the new ones.
fn attest_statements(old: Vec<Statement>, new: Vec<Statement>) -> (r: Vec<Statement>)
    ensures
        r@ == kept_statements(old@, new@) + new@,
{
    let ghost all = old@;
    let mut rest = old;
    let mut kept: Vec<Statement> = Vec::new();
    while rest.len() > 0
        invariant
            kept@ + kept_statements(rest@, new@) == kept_statements(all, new@),
        decreases rest@.len(),
    {
        let ghost before = rest@;
        let s = rest.remove(0);
        assert(rest@ =~= before.drop_first());
        if find_name(&s.name, &new) {
        } else {
            let ghost k = kept@;
            kept.push(s);
            assert(kept@ + kept_statements(rest@, new@) =~= k + (seq![before[0]] + kept_statements(rest@, new@)));
        }
    }
    assert(kept@ + kept_statements(rest@, new@) =~= kept@);
    let mut new_statements = new;
    kept.append(&mut new_statements);
    kept
}

/// The consumer entries of an authorization, keyed by DID first.
fn consumer_entries(did: Did, cs: &Vec<ClaimConsumer>) -> (r: (Vec<((Did, AccountId), Moment)>, Vec<((AccountId, Did), Moment)>))
    ensures
        r.0@ == cs@.map_values(|c: ClaimConsumer| ((did, c.consumer), c.expiration)),
        r.1@ == cs@.map_values(|c: ClaimConsumer| ((c.consumer, did), c.expiration)),
{
    let mut a: Vec<((Did, AccountId), Moment)> = Vec::new();
    let mut b: Vec<((AccountId, Did), Moment)> = Vec::new();
    let mut i: usize = 0;
    while i < cs.len()
        invariant
            i <= cs@.len(),
            a@ == cs@.take(i as int).map_values(|c: ClaimConsumer| ((did, c.consumer), c.expiration)),
            b@ == cs@.take(i as int).map_values(|c: ClaimConsumer| ((c.consumer, did), c.expiration)),
        decreases cs@.len() - i,
    {
        let c = cs[i];
        a.push(((did, c.consumer), c.expiration));
        b.push(((c.consumer, did), c.expiration));
        assert(cs@.take(i as int + 1) =~= cs@.take(i as int).push(cs@[i as int]));
        assert(a@ =~= cs@.take(i as int + 1).map_values(|c: ClaimConsumer| ((did, c.consumer), c.expiration)));
        assert(b@ =~= cs@.take(i as int + 1).map_values(|c: ClaimConsumer| ((c.consumer, did), c.expiration)));
        i += 1;
    }
    assert(cs@.take(i as int) =~= cs@);
    (a, b)
}

/// The issuer entries of an authorization, keyed by DID first.
fn issuer_entries(did: Did, cs: &Vec<ClaimIssuer>) -> (r: (Vec<((Did, AccountId), Moment)>, Vec<((AccountId, Did), Moment)>))
    ensures
        r.0@ == cs@.map_values(|c: ClaimIssuer| ((did, c.issuer), c.expiration)),
        r.1@ == cs@.map_values(|c: ClaimIssuer| ((c.issuer, did), c.expiration)),
{
    let mut a: Vec<((Did, AccountId), Moment)> = Vec::new();
    let mut b: Vec<((AccountId, Did), Moment)> = Vec::new();
    let mut i: usize = 0;
    while i < cs.len()
        invariant
            i <= cs@.len(),
            a@ == cs@.take(i as int).map_values(|c: ClaimIssuer| ((did, c.issuer), c.expiration)),
            b@ == cs@.take(i as int).map_values(|c: ClaimIssuer| ((c.issuer, did), c.expiration)),
        decreases cs@.len() - i,
    {
        let c = cs[i];
        a.push(((did, c.issuer), c.expiration));
        b.push(((c.issuer, did), c.expiration));
        assert(cs@.take(i as int + 1) =~= cs@.take(i as int).push(cs@[i as int]));
        assert(a@ =~= cs@.take(i as int + 1).map_values(|c: ClaimIssuer| ((did, c.issuer), c.expiration)));
        assert(b@ =~= cs@.take(i as int + 1).map_values(|c: ClaimIssuer| ((c.issuer, did), c.expiration)));
        i += 1;
    }
    assert(cs@.take(i as int) =~= cs@);
    (a, b)
}

impl Identity {
    /// Whether an account may make claims against a DID now.
    pub fn is_valid_consumer(&self, target_did: Did, account: AccountId, now: Moment) -> (r: bool)
        requires
            self.wf(),
        ensures
            r == valid_authorization(self.claim_consumers@, target_did, account, now),
    {
        match self.claim_consumers.get(&(target_did, account)) {
            Some(expiry) => match expiry.checked_mul(1000) {
                Some(m) => m > now,
                None => u64::MAX > now,
            },
            None => false,
        }
    }

    /// Whether an account may attest claims against a DID now.
    pub fn is_valid_issuer(&self, target_did: Did, account: AccountId, now: Moment) -> (r: bool)
        requires
            self.wf(),
        ensures
            r == valid_authorization(self.claim_issuers@, target_did, account, now),
    {
        match self.claim_issuers.get(&(target_did, account)) {
            Some(expiry) => match expiry.checked_mul(1000) {
                Some(m) => m > now,
                None => u64::MAX > now,
            },
            None => false,
        }
    }

    /// A controller authorizes claim consumers for a DID until their expirations.
    pub fn authorize_claim_consumers(&mut self, origin: Origin, target_did: Did, claim_consumers: Vec<ClaimConsumer>) -> (r:
        Result<Event, Error>)
        requires
            old(self).wf(),
        ensures
            final(self).wf(),
            old(self).controller_error(origin, target_did) matches Some(e) ==> r == Err::<Event, Error>(e)
                && final(self)@ == old(self)@,
            old(self).controller_error(origin, target_did) is None && claim_consumers@.len()
                > old(self).limits.claim_consumer_limit ==> r == Err::<Event, Error>(
                Error::ClaimConsumerLimitExceeded,
            ) && final(self)@ == old(self)@,
            old(self).controller_error(origin, target_did) is None && claim_consumers@.len()
                <= old(self).limits.claim_consumer_limit ==> {
                let a = account_or_executed(origin)->0;
                &&& final(self)@ == (IdentityState {
                    claim_consumers: inserted_all(
                        old(self)@.claim_consumers,
                        claim_consumers@.map_values(|c: ClaimConsumer| ((target_did, c.consumer), c.expiration)),
                    ),
                    dids_by_consumer: inserted_all(
                        old(self)@.dids_by_consumer,
                        claim_consumers@.map_values(|c: ClaimConsumer| ((c.consumer, target_did), c.expiration)),
                    ),
                    ..old(self)@
                })
                &&& r == Ok::<Event, Error>(
                    Event::ClaimConsumersAuthorized(a.0, a.1, target_did, claim_consumers),
                )
            },
    {
        let (account, group_account) = match ensure_account_or_executed(origin) {
            Some(a) => a,
            None => return Err(Error::BadOrigin),
        };
        if !self.did_by_controller.contains_key(&(group_account, target_did)) {
            return Err(Error::NotController);
        }
        if claim_consumers.len() as u64 > self.limits.claim_consumer_limit as u64 {
            return Err(Error::ClaimConsumerLimitExceeded);
        }
        let (a, b) = consumer_entries(target_did, &claim_consumers);
        self.claim_consumers.insert_all(a);
        self.dids_by_consumer.insert_all(b);
        proof {
            assert(swapped(a@) =~= b@);
            lemma_mirrored_inserted_all(old(self)@.claim_consumers, old(self)@.dids_by_consumer, a@);
        }
        Ok(Event::ClaimConsumersAuthorized(account, group_account, target_did, claim_consumers))
    }

    /// A controller revokes claim consumers of a DID.
    pub fn revoke_claim_consumers(&mut self, origin: Origin, target_did: Did, claim_consumers: Vec<AccountId>) -> (r:
        Result<Event, Error>)
        requires
            old(self).wf(),
        ensures
            final(self).wf(),
            old(self).controller_error(origin, target_did) matches Some(e) ==> r == Err::<Event, Error>(e)
                && final(self)@ == old(self)@,
            old(self).controller_error(origin, target_did) is None && claim_consumers@.len()
                > old(self).limits.claim_consumer_limit ==> r == Err::<Event, Error>(
                Error::ClaimConsumerLimitExceeded,
            ) && final(self)@ == old(self)@,
            old(self).controller_error(origin, target_did) is None && claim_consumers@.len()
                <= old(self).limits.claim_consumer_limit ==> {
                let a = account_or_executed(origin)->0;
                &&& final(self)@ == (IdentityState {
                    claim_consumers: old(self)@.claim_consumers.remove_keys(
                        claim_consumers@.map_values(|c: AccountId| (target_did, c)).to_set(),
                    ),
                    dids_by_consumer: old(self)@.dids_by_consumer.remove_keys(
                        claim_consumers@.map_values(|c: AccountId| (c, target_did)).to_set(),
                    ),
                    ..old(self)@
                })
                &&& r == Ok::<Event, Error>(
                    Event::ClaimConsumersRevoked(a.0, a.1, target_did, claim_consumers),
                )
            },
    {
        let (account, group_account) = match ensure_account_or_executed(origin) {
            Some(a) => a,
            None => return Err(Error::BadOrigin),
        };
        if !self.did_by_controller.contains_key(&(group_account, target_did)) {
            return Err(Error::NotController);
        }
        if claim_consumers.len() as u64 > self.limits.claim_consumer_limit as u64 {
            return Err(Error::ClaimConsumerLimitExceeded);
        }
        let a = did_account_keys(target_did, &claim_consumers);
        let b = account_did_keys(&claim_consumers, target_did);
        self.claim_consumers.remove_all(&a);
        self.dids_by_consumer.remove_all(&b);
        proof {
            let ks = a@.to_set();
            let ls = b@.to_set();
            assert forall|d: Did, x: AccountId| #[trigger] ks.contains((d, x)) implies ls.contains((x, d)) by {
                let j = choose|j: int| 0 <= j < a@.len() && a@[j] == (d, x);
                assert(b@[j] == (x, d));
            }
            assert forall|d: Did, x: AccountId| #[trigger] ls.contains((x, d)) implies ks.contains((d, x)) by {
                let j = choose|j: int| 0 <= j < b@.len() && b@[j] == (x, d);
                assert(a@[j] == (d, x));
            }
            lemma_mirrored_remove_keys(old(self)@.claim_consumers, old(self)@.dids_by_consumer, ks, ls);
        }
        Ok(Event::ClaimConsumersRevoked(account, group_account, target_did, claim_consumers))
    }

    /// A controller authorizes claim issuers for a DID until their expirations.
    pub fn authorize_claim_issuers(&mut self, origin: Origin, target_did: Did, claim_issuers: Vec<ClaimIssuer>) -> (r:
        Result<Event, Error>)
        requires
            old(self).wf(),
        ensures
            final(self).wf(),
            old(self).controller_error(origin, target_did) matches Some(e) ==> r == Err::<Event, Error>(e)
                && final(self)@ == old(self)@,
            old(self).controller_error(origin, target_did) is None && claim_issuers@.len()
                > old(self).limits.claim_issuer_limit ==> r == Err::<Event, Error>(
                Error::ClaimIssuerLimitExceeded,
            ) && final(self)@ == old(self)@,
            old(self).controller_error(origin, target_did) is None && claim_issuers@.len()
                <= old(self).limits.claim_issuer_limit ==> {
                let a = account_or_executed(origin)->0;
                &&& final(self)@ == (IdentityState {
                    claim_issuers: inserted_all(
                        old(self)@.claim_issuers,
                        claim_issuers@.map_values(|c: ClaimIssuer| ((target_did, c.issuer), c.expiration)),
                    ),
                    dids_by_issuer: inserted_all(
                        old(self)@.dids_by_issuer,
                        claim_issuers@.map_values(|c: ClaimIssuer| ((c.issuer, target_did), c.expiration)),
                    ),
                    ..old(self)@
                })
                &&& r == Ok::<Event, Error>(
                    Event::ClaimIssuersAuthorized(a.0, a.1, target_did, claim_issuers),
                )
            },
    {
        let (account, group_account) = match ensure_account_or_executed(origin) {
            Some(a) => a,
            None => return Err(Error::BadOrigin),
        };
        if !self.did_by_controller.contains_key(&(group_account, target_did)) {
            return Err(Error::NotController);
        }
        if claim_issuers.len() as u64 > self.limits.claim_issuer_limit as u64 {
            return Err(Error::ClaimIssuerLimitExceeded);
        }
        let (a, b) = issuer_entries(target_did, &claim_issuers);
        self.claim_issuers.insert_all(a);
        self.dids_by_issuer.insert_all(b);
        proof {
            assert(swapped(a@) =~= b@);
            lemma_mirrored_inserted_all(old(self)@.claim_issuers, old(self)@.dids_by_issuer, a@);
        }
        Ok(Event::ClaimIssuersAuthorized(account, group_account, target_did, claim_issuers))
    }

    /// A controller revokes claim issuers of a DID.
    pub fn revoke_claim_issuers(&mut self, origin: Origin, target_did: Did, claim_issuers: Vec<AccountId>) -> (r:
        Result<Event, Error>)
        requires
            old(self).wf(),
        ensures
            final(self).wf(),
            old(self).controller_error(origin, target_did) matches Some(e) ==> r == Err::<Event, Error>(e)
                && final(self)@ == old(self)@,
            old(self).controller_error(origin, target_did) is None && claim_issuers@.len()
                > old(self).limits.claim_issuer_limit ==> r == Err::<Event, Error>(
                Error::ClaimIssuerLimitExceeded,
            ) && final(self)@ == old(self)@,
            old(self).controller_error(origin, target_did) is None && claim_issuers@.len()
                <= old(self).limits.claim_issuer_limit ==> {
                let a = account_or_executed(origin)->0;
                &&& final(self)@ == (IdentityState {
                    claim_issuers: old(self)@.claim_issuers.remove_keys(
                        claim_issuers@.map_values(|c: AccountId| (target_did, c)).to_set(),
                    ),
                    dids_by_issuer: old(self)@.dids_by_issuer.remove_keys(
                        claim_issuers@.map_values(|c: AccountId| (c, target_did)).to_set(),
                    ),
                    ..old(self)@
                })
                &&& r == Ok::<Event, Error>(
                    Event::ClaimIssuersRevoked(a.0, a.1, target_did, claim_issuers),
                )
            },
    {
        let (account, group_account) = match ensure_account_or_executed(origin) {
            Some(a) => a,
            None => return Err(Error::BadOrigin),
        };
        if !self.did_by_controller.contains_key(&(group_account, target_did)) {
            return Err(Error::NotController);
        }
        if claim_issuers.len() as u64 > self.limits.claim_issuer_limit as u64 {
            return Err(Error::ClaimIssuerLimitExceeded);
        }
        let a = did_account_keys(target_did, &claim_issuers);
        let b = account_did_keys(&claim_issuers, target_did);
        self.claim_issuers.remove_all(&a);
        self.dids_by_issuer.remove_all(&b);
        proof {
            let ks = a@.to_set();
            let ls = b@.to_set();
            assert forall|d: Did, x: AccountId| #[trigger] ks.contains((d, x)) implies ls.contains((x, d)) by {
                let j = choose|j: int| 0 <= j < a@.len() && a@[j] == (d, x);
                assert(b@[j] == (x, d));
            }
            assert forall|d: Did, x: AccountId| #[trigger] ls.contains((x, d)) implies ks.contains((d, x)) by {
                let j = choose|j: int| 0 <= j < b@.len() && b@[j] == (x, d);
                assert(a@[j] == (d, x));
            }
            lemma_mirrored_remove_keys(old(self)@.claim_issuers, old(self)@.dids_by_issuer, ks, ls);
        }
        Ok(Event::ClaimIssuersRevoked(account, group_account, target_did, claim_issuers))
    }

    /// The first check that `make_claim` fails, if any.
    pub open spec fn make_claim_error(
        &self,
        origin: Origin,
        target_did: Did,
        description: Seq<u8>,
        statements: Seq<Statement>,
        now: Moment,
    ) -> Option<Error> {
        match account_or_executed(origin) {
            None => Some(Error::BadOrigin),
            Some(a) => if !valid_authorization(self.claim_consumers@, target_did, a.1, now) {
                Some(Error::NotAuthorized)
            } else if statements.len() > self.limits.statement_limit {
                Some(Error::StatementLimitExceeded)
            } else if !statements_fit(statements, self.limits.name_limit, self.limits.fact_string_limit) {
                Some(Error::StringLengthLimitExceeded)
            } else if !fits(description, self.limits.name_limit) {
                Some(Error::StringLengthLimitExceeded)
            } else if self.next_claim_id == u32::MAX {
                Some(Error::NoIdAvailable)
            } else {
                None
            },
        }
    }

    /// An authorized consumer (or its group) makes a claim against a DID; `now` is the
    /// time of the block. A group issuer will need `threshold` votes to attest it.
    pub fn make_claim(
        &mut self,
        origin: Origin,
        target_did: Did,
        description: Vec<u8>,
        statements: Vec<Statement>,
        threshold: MemberCount,
        now: Moment,
    ) -> (r: Result<Event, Error>)
        requires
            old(self).wf(),
        ensures
            final(self).wf(),
            old(self).make_claim_error(origin, target_did, description@, statements@, now) matches Some(e) ==> r == Err::<
                Event,
                Error,
            >(e) && final(self)@ == old(self)@,
            old(self).make_claim_error(origin, target_did, description@, statements@, now) is None ==> {
                let a = account_or_executed(origin)->0;
                let id = old(self).next_claim_id;
                &&& final(self)@ == (IdentityState {
                    next_claim_id: (id + 1) as u32,
                    claims: old(self)@.claims.insert(
                        (target_did, id),
                        (Claim {
                            description: description,
                            statements: statements,
                            created_by: a.1,
                            attestation: None,
                            threshold,
                        }),
                    ),
                    ..old(self)@
                })
                &&& r == Ok::<Event, Error>(Event::ClaimMade(a.0, a.1, target_did, id))
                &&& forall|d: Did| !old(self)@.claims.contains_key((d, id))
            },
    {
        let (account, group_account) = match ensure_account_or_executed(origin) {
            Some(a) => a,
            None => return Err(Error::BadOrigin),
        };
        if !self.is_valid_consumer(target_did, group_account, now) {
            return Err(Error::NotAuthorized);
        }
        if statements.len() as u64 > self.limits.statement_limit as u64 {
            return Err(Error::StatementLimitExceeded);
        }
        if !check_statements(&statements, self.limits.name_limit, self.limits.fact_string_limit) {
            return Err(Error::StringLengthLimitExceeded);
        }
        if !check_limit(&description, self.limits.name_limit) {
            return Err(Error::StringLengthLimitExceeded);
        }
        if self.next_claim_id == u32::MAX {
            return Err(Error::NoIdAvailable);
        }
        let claim_id = self.next_claim_id;
        self.next_claim_id = claim_id + 1;
        let claim = Claim { description, statements, created_by: group_account, attestation: None, threshold };
        self.claims.insert((target_did, claim_id), claim);
        Ok(Event::ClaimMade(account, group_account, target_did, claim_id))
    }

    /// The first check that an attestation, or its revocation, fails, if any.
    pub open spec fn attestation_error(&self, origin: Origin, target_did: Did, claim_id: u32, now: Moment) -> Option<
        Error,
    > {
        match account_or_approved_votes(origin) {
            None => Some(Error::BadOrigin),
            Some(a) => if !valid_authorization(self.claim_issuers@, target_did, a.0, now) {
                Some(Error::NotAuthorized)
            } else {
                None
            },
        }
    }

    /// The check on the votes of a group issuer: the claim exists and the yes votes reach its threshold.
    pub open spec fn votes_error(&self, yes_votes: Option<MemberCount>, target_did: Did, claim_id: u32) -> Option<
        Error,
    > {
        match yes_votes {
            None => None,
            Some(y) => if !self.claims@.contains_key((target_did, claim_id)) {
                Some(Error::NotFound)
            } else if y < self.claims@[(target_did, claim_id)].threshold {
                Some(Error::ThresholdNotMet)
            } else {
                None
            },
        }
    }

    fn check_votes(&self, yes_votes: Option<MemberCount>, target_did: Did, claim_id: u32) -> (r: Option<Error>)
        requires
            self.wf(),
        ensures
            r == self.votes_error(yes_votes, target_did, claim_id),
    {
        match yes_votes {
            None => None,
            Some(y) => match self.claims.get(&(target_did, claim_id)) {
                None => Some(Error::NotFound),
                Some(c) => if y < c.threshold {
                    Some(Error::ThresholdNotMet)
                } else {
                    None
                },
            },
        }
    }

    /// An authorized issuer (or a group issuer by vote) attests a claim. The given
    /// statements replace the statements of the same name and the rest are kept;
    /// `now` is the time of the block. Nothing changes when the claim is missing.
    pub fn attest_claim(
        &mut self,
        origin: Origin,
        target_did: Did,
        claim_id: u32,
        statements: Vec<Statement>,
        valid_until: Moment,
        now: Moment,
    ) -> (r: Result<Event, Error>)
        requires
            old(self).wf(),
        ensures
            final(self).wf(),
            old(self).attestation_error(origin, target_did, claim_id, now) matches Some(e) ==> r == Err::<
                Event,
                Error,
            >(e) && final(self)@ == old(self)@,
            old(self).attestation_error(origin, target_did, claim_id, now) is None ==> {
                let a = account_or_approved_votes(origin)->0;
                let l = old(self).limits;
                let e = if statements@.len() > l.statement_limit {
                    Some(Error::StatementLimitExceeded)
                } else if !statements_fit(statements@, l.name_limit, l.fact_string_limit) {
                    Some(Error::StringLengthLimitExceeded)
                } else {
                    old(self).votes_error(a.1, target_did, claim_id)
                };
                let key = (target_did, claim_id);
                &&& e matches Some(err) ==> r == Err::<Event, Error>(err) && final(self)@ == old(self)@
                &&& e is None ==> {
                    &&& r == Ok::<Event, Error>(Event::ClaimAttested(a.0, target_did, claim_id))
                    &&& !old(self).claims@.contains_key(key) ==> final(self)@ == old(self)@
                    &&& old(self).claims@.contains_key(key) ==> {
                        let c = old(self).claims@[key];
                        let n = final(self).claims@[key];
                        &&& final(self)@ == (IdentityState { claims: old(self)@.claims.insert(key, n), ..old(self)@ })
                        &&& n.statements@ == kept_statements(c.statements@, statements@) + statements@
                        &&& n.statements@ == c.statements@.filter(
                            |s: Statement| forall|j: int| 0 <= j < statements@.len() ==> statements@[j].name@ != s.name@,
                        ) + statements@
                        &&& n.attestation == Some(
                            Attestation { attested_by: a.0, issued: now, valid_until },
                        )
                        &&& n.description == c.description
                        &&& n.created_by == c.created_by
                        &&& n.threshold == c.threshold
                    }
                }
            },
    {
        let (account, yes_votes) = match ensure_account_or_approved_votes(origin) {
            Some(a) => a,
            None => return Err(Error::BadOrigin),
        };
        if !self.is_valid_issuer(target_did, account, now) {
            return Err(Error::NotAuthorized);
        }
        if statements.len() as u64 > self.limits.statement_limit as u64 {
            return Err(Error::StatementLimitExceeded);
        }
        if !check_statements(&statements, self.limits.name_limit, self.limits.fact_string_limit) {
            return Err(Error::StringLengthLimitExceeded);
        }
        match self.check_votes(yes_votes, target_did, claim_id) {
            Some(e) => return Err(e),
            None => {},
        }
        let key = (target_did, claim_id);
        if self.claims.contains_key(&key) {
            match self.claims.remove(&key) {
                Some(claim) => {
                    proof {
                        lemma_attestation_replaces_restated(claim.statements@, statements@);
                    }
                    let new_claim = Claim {
                        description: claim.description,
                        statements: attest_statements(claim.statements, statements),
                        created_by: claim.created_by,
                        attestation: Some(Attestation { attested_by: account, issued: now, valid_until }),
                        threshold: claim.threshold,
                    };
                    let ghost n = new_claim;
                    self.claims.insert(key, new_claim);
                    assert(self.claims@ =~= old(self).claims@.insert(key, n));
                },
                None => {},
            }
        }
        Ok(Event::ClaimAttested(account, target_did, claim_id))
    }

    /// An authorized issuer (or a group issuer by vote) withdraws the attestation of a
    /// claim. Nothing changes when the claim is missing.
    pub fn revoke_attestation(&mut self, origin: Origin, target_did: Did, claim_id: u32, now: Moment) -> (r: Result<
        Event,
        Error,
    >)
        requires
            old(self).wf(),
        ensures
            final(self).wf(),
            old(self).attestation_error(origin, target_did, claim_id, now) matches Some(e) ==> r == Err::<
                Event,
                Error,
            >(e) && final(self)@ == old(self)@,
            old(self).attestation_error(origin, target_did, claim_id, now) is None ==> {
                let a = account_or_approved_votes(origin)->0;
                let e = old(self).votes_error(a.1, target_did, claim_id);
                let key = (target_did, claim_id);
                &&& e matches Some(err) ==> r == Err::<Event, Error>(err) && final(self)@ == old(self)@
                &&& e is None ==> {
                    &&& r == Ok::<Event, Error>(
                        Event::ClaimAttestationRevoked(a.0, target_did, claim_id),
                    )
                    &&& !old(self).claims@.contains_key(key) ==> final(self)@ == old(self)@
                    &&& old(self).claims@.contains_key(key) ==> final(self)@ == (IdentityState {
                        claims: old(self)@.claims.insert(key, (Claim { attestation: None, ..old(self)@.claims[key] })),
                        ..old(self)@
                    })
                }
            },
    {
        let (account, yes_votes) = match ensure_account_or_approved_votes(origin) {
            Some(a) => a,
            None => return Err(Error::BadOrigin),
        };
        if !self.is_valid_issuer(target_did, account, now) {
            return Err(Error::NotAuthorized);
        }
        match self.check_votes(yes_votes, target_did, claim_id) {
            Some(e) => return Err(e),
            None => {},
        }
        let key = (target_did, claim_id);
        if self.claims.contains_key(&key) {
            match self.claims.remove(&key) {
                Some(claim) => {
                    let mut c = claim;
                    c.attestation = None;
                    let ghost n = c;
                    self.claims.insert(key, c);
                    assert(self.claims@ =~= old(self).claims@.insert(key, n));
                },
                None => {},
            }
        }
        Ok(Event::ClaimAttestationRevoked(account, target_did, claim_id))
    }
}

} // verus!
