use borlaug::groups::{Origin, RawOrigin};
use borlaug::identity::{property_key_of, Identity, Error as IdentityError, Event as IdentityEvent, IdentityLimits};
use borlaug::primitives::{Attestation, ClaimConsumer, ClaimIssuer, Did, DidProperty, Fact, Statement};
use sp_core::Hasher;
use parity_scale_codec::Encode;

fn limits() -> IdentityLimits {
    IdentityLimits {
        name_limit: 32,
        fact_string_limit: 32,
        property_limit: 4,
        statement_limit: 4,
        controller_limit: 4,
        claim_consumer_limit: 4,
        claim_issuer_limit: 4,
        catalog_did_limit: 4,
        bulk_did_limit: 4,
        bulk_did_property_limit: 4,
    }
}

fn text(name: &[u8], value: &[u8]) -> DidProperty {
    DidProperty { name: name.to_vec(), fact: Fact::Text(value.to_vec()) }
}

fn statement(name: &[u8], value: &[u8], for_issuer: bool) -> Statement {
    Statement { name: name.to_vec(), fact: Fact::Text(value.to_vec()), for_issuer }
}

fn random(seed: u8) -> [u8; 32] {
    [seed; 32]
}

/// Registers a DID for account 1 and hands it back.
fn registered(identity: &mut Identity, properties: Option<Vec<DidProperty>>) -> Did {
    let r = identity.register_did(Origin::Signed(1), properties, random(7));
    match r {
        Ok(IdentityEvent::Registered(_, _, _, did)) => did,
        other => panic!("registration failed: {:?}", other),
    }
}

fn sorted_names(identity: &Identity, did: Did) -> Vec<Vec<u8>> {
    let (_, properties, _) = identity.get_did(did).expect("the DID has a document");
    let mut names: Vec<Vec<u8>> = properties.iter().map(|p| p.name.clone()).collect();
    names.sort();
    names
}

#[test]
fn register_did_should_work() {
    let mut identity = Identity::new(limits());
    let did = registered(&mut identity, Some(vec![DidProperty { name: vec![42u8; 5], fact: Fact::Text(vec![42u8; 5]) }]));
    assert_eq!(identity.get_dids_by_controller(1), vec![did]);
    assert_eq!(identity.get_dids_by_subject(1), vec![did]);
    assert_eq!(did.id.len(), 32);
    let (document, properties, controllers) = identity.get_did(did).unwrap();
    assert_eq!(document.subject, 1);
    assert_eq!(properties.len(), 1);
    assert_eq!(controllers, vec![1]);
    assert_eq!(identity.nonce, 2);
}

#[test]
fn register_did_for_should_work() {
    let mut identity = Identity::new(limits());
    let property = DidProperty { name: vec![42u8; 5], fact: Fact::Text(vec![42u8; 5]) };
    let r = identity.register_did_for(Origin::Signed(1), 2, Some(vec![property]), random(3));
    let did = match r {
        Ok(IdentityEvent::Registered(1, 2, 1, did)) => did,
        other => panic!("unexpected {:?}", other),
    };
    assert_eq!(identity.get_dids_by_controller(1), vec![did]);
    assert_eq!(identity.get_dids_by_subject(2), vec![did]);
    assert!(identity.is_controller(1, did));
    assert!(identity.is_controller(2, did));
    let (document, properties, _) = identity.get_did(did).unwrap();
    assert_eq!(document.subject, 2);
    assert_eq!(properties.len(), 1);
}

#[test]
fn minted_dids_differ_by_nonce() {
    let mut identity = Identity::new(limits());
    let first = registered(&mut identity, None);
    let second = registered(&mut identity, None);
    assert_ne!(first, second);
    // The id is the Blake2 hash of the randomness, the subject and the nonce, SCALE encoded.
    let mut data = random(7).to_vec();
    data.extend_from_slice(&1u64.encode());
    data.extend_from_slice(&1u64.encode());
    assert_eq!(first.id, <sp_core::Blake2Hasher as Hasher>::hash(&data).0);
}

#[test]
fn register_did_refusals() {
    let mut identity = Identity::new(limits());
    assert_eq!(identity.register_did(Origin::Root, None, random(1)), Err(IdentityError::BadOrigin));
    let too_many = vec![text(b"a", b"1"), text(b"b", b"2"), text(b"c", b"3"), text(b"d", b"4"), text(b"e", b"5")];
    assert_eq!(identity.register_did(Origin::Signed(1), Some(too_many), random(1)), Err(IdentityError::PropertyLimitExceeded));
    let long_name = vec![text(&[1u8; 33], b"x")];
    assert_eq!(identity.register_did(Origin::Signed(1), Some(long_name), random(1)), Err(IdentityError::StringLengthLimitExceeded));
    assert!(identity.get_dids_by_controller(1).is_empty());
    assert_eq!(identity.nonce, 1);
}

#[test]
fn register_did_by_group_member_uses_group_account() {
    let mut identity = Identity::new(limits());
    let origin = Origin::Group(RawOrigin::ProposalExecuted(1, 5, 500));
    let r = identity.register_did(origin, None, random(2));
    let did = match r {
        Ok(IdentityEvent::Registered(5, 500, 500, did)) => did,
        other => panic!("unexpected {:?}", other),
    };
    assert!(identity.is_controller(500, did));
    assert_eq!(identity.get_dids_by_subject(500), vec![did]);
}

#[test]
fn register_did_for_bulk_should_work() {
    let mut identity = Identity::new(limits());
    let r = identity.register_did_for_bulk(
        Origin::Signed(1),
        vec![(2, None), (3, Some(vec![text(b"name", b"x")]))],
        random(4),
    );
    let events = r.expect("bulk registration succeeds");
    assert_eq!(events.len(), 3);
    assert_eq!(events[2], IdentityEvent::BulkRegistered(1, 1, 2));
    assert_eq!(identity.get_dids_by_subject(2).len(), 1);
    assert_eq!(identity.get_dids_by_subject(3).len(), 1);
    assert_eq!(identity.get_dids_by_controller(1).len(), 2);
    // Too many at one time: at most the limit is allowed.
    let five = vec![(2, None), (3, None), (4, None), (5, None), (6, None)];
    assert_eq!(identity.register_did_for_bulk(Origin::Signed(1), five, random(4)), Err(IdentityError::BulkDidLimitExceeded));
    let four = vec![(2, None), (3, None), (4, None), (5, None)];
    assert_eq!(identity.register_did_for_bulk(Origin::Signed(1), four, random(5)).unwrap().len(), 5);
}

#[test]
fn add_did_properties_should_work() {
    let mut identity = Identity::new(limits());
    let did = registered(&mut identity, None);
    let r = identity.add_did_properties(
        Origin::Signed(1),
        did,
        vec![text(b"name", b"John Doe"), DidProperty { name: b"age".to_vec(), fact: Fact::U8(255) }],
    );
    assert_eq!(r, Ok(IdentityEvent::DidPropertiesAdded(1, 1, did)));
    assert_eq!(sorted_names(&identity, did), vec![b"age".to_vec(), b"name".to_vec()]);
    let key = property_key_of(&b"name".to_vec());
    assert_eq!(identity.did_document_properties.get(&(did, key)).unwrap().fact, Fact::Text(b"John Doe".to_vec()));
}

#[test]
fn added_property_of_same_name_replaces() {
    let mut identity = Identity::new(limits());
    let did = registered(&mut identity, Some(vec![text(b"name", b"old")]));
    identity.add_did_properties(Origin::Signed(1), did, vec![text(b"name", b"new")]).unwrap();
    let (_, properties, _) = identity.get_did(did).unwrap();
    assert_eq!(properties.len(), 1);
    assert_eq!(properties[0].fact, Fact::Text(b"new".to_vec()));
}

#[test]
fn add_did_properties_refusals() {
    let mut identity = Identity::new(limits());
    let did = registered(&mut identity, None);
    assert_eq!(identity.add_did_properties(Origin::Signed(2), did, vec![text(b"a", b"b")]), Err(IdentityError::NotController));
    let long_fact = vec![text(b"a", &[0u8; 33])];
    assert_eq!(identity.add_did_properties(Origin::Signed(1), did, long_fact), Err(IdentityError::StringLengthLimitExceeded));
    assert_eq!(identity.add_did_properties(Origin::Unsigned, did, vec![]), Err(IdentityError::BadOrigin));
}

#[test]
fn remove_did_properties_should_work() {
    let mut identity = Identity::new(limits());
    let did = registered(&mut identity, None);
    identity
        .add_did_properties(
            Origin::Signed(1),
            did,
            vec![text(b"name", b"John Doe"), DidProperty { name: b"age".to_vec(), fact: Fact::U8(255) }],
        )
        .unwrap();
    let r = identity.remove_did_properties(Origin::Signed(1), did, vec![b"name".to_vec()]);
    assert_eq!(r, Ok(IdentityEvent::DidPropertiesRemoved(1, 1, did)));
    assert_eq!(sorted_names(&identity, did), vec![b"age".to_vec()]);
}

#[test]
fn properties_added_then_removed_by_name_are_gone() {
    let mut identity = Identity::new(limits());
    let did = registered(&mut identity, Some(vec![text(b"keep", b"1")]));
    identity.add_did_properties(Origin::Signed(1), did, vec![text(b"a", b"1"), text(b"b", b"2")]).unwrap();
    identity.remove_did_properties(Origin::Signed(1), did, vec![b"b".to_vec(), b"a".to_vec()]).unwrap();
    assert_eq!(sorted_names(&identity, did), vec![b"keep".to_vec()]);
}

#[test]
fn property_key_is_hash_of_scale_name() {
    let key = property_key_of(&b"name".to_vec());
    let expected = <sp_core::Blake2Hasher as Hasher>::hash(&b"name".to_vec().encode()).0;
    assert_eq!(key, expected);
    // The encoding is a compact length prefix, then the bytes.
    let unprefixed = <sp_core::Blake2Hasher as Hasher>::hash(b"name").0;
    assert_ne!(key, unprefixed);
}

#[test]
fn managing_controllers_should_work() {
    let mut identity = Identity::new(limits());
    let did = registered(&mut identity, None);
    let r = identity.manage_controllers(Origin::Signed(1), did, Some(vec![2]), None);
    assert_eq!(r, Ok(IdentityEvent::DidControllerUpdated(1, 1, did, Some(vec![2]), None)));
    assert!(identity.is_controller(2, did));
    assert_eq!(identity.get_dids_by_controller(2), vec![did]);
    identity.manage_controllers(Origin::Signed(1), did, None, Some(vec![2])).unwrap();
    assert!(!identity.is_controller(2, did));
    assert!(identity.get_dids_by_controller(2).is_empty());
}

#[test]
fn subject_stays_controller() {
    let mut identity = Identity::new(limits());
    let did = registered(&mut identity, None);
    identity.manage_controllers(Origin::Signed(1), did, None, Some(vec![1])).unwrap();
    assert!(identity.is_controller(1, did));
}

#[test]
fn manage_controllers_refusals() {
    let mut identity = Identity::new(limits());
    let did = registered(&mut identity, None);
    assert_eq!(identity.manage_controllers(Origin::Signed(9), did, None, None), Err(IdentityError::NotController));
    let five = Some(vec![2, 3, 4, 5, 6]);
    assert_eq!(identity.manage_controllers(Origin::Signed(1), did, five, None), Err(IdentityError::ControllerLimitExceeded));
    // A controller index entry without a document.
    let ghost = Did { id: [9u8; 32] };
    identity.did_by_controller.insert((1, ghost), ());
    identity.did_controllers.insert((ghost, 1), ());
    assert_eq!(identity.manage_controllers(Origin::Signed(1), ghost, None, None), Err(IdentityError::DidDocumentNotFound));
}

#[test]
fn authorize_claim_consumer_should_work() {
    let mut identity = Identity::new(limits());
    let did = registered(&mut identity, Some(vec![text(b"name", b"John Doe")]));
    let now = 1_600_000_000u64;
    let consumers = vec![ClaimConsumer { consumer: 2, expiration: now + 8640000 }];
    let r = identity.authorize_claim_consumers(Origin::Signed(1), did, consumers.clone());
    assert_eq!(r, Ok(IdentityEvent::ClaimConsumersAuthorized(1, 1, did, consumers)));
    assert_eq!(identity.get_claim_consumers(did), vec![(2, now + 8640000)]);
    assert_eq!(identity.get_dids_by_consumer(2), vec![(did, now + 8640000)]);
}

#[test]
fn authorize_claim_issuer_should_work() {
    let mut identity = Identity::new(limits());
    let did = registered(&mut identity, Some(vec![text(b"name", b"John Doe")]));
    let now = 1_600_000_000u64;
    let issuers = vec![ClaimIssuer { issuer: 2, expiration: now + 8640000 }];
    identity.authorize_claim_issuers(Origin::Signed(1), did, issuers).unwrap();
    assert_eq!(identity.get_claim_issuers(did), vec![(2, now + 8640000)]);
    assert_eq!(identity.get_dids_by_issuer(2), vec![(did, now + 8640000)]);
}

#[test]
fn revoking_consumers_and_issuers_clears_both_indexes() {
    let mut identity = Identity::new(limits());
    let did = registered(&mut identity, None);
    identity.authorize_claim_consumers(Origin::Signed(1), did, vec![ClaimConsumer { consumer: 2, expiration: 10 }]).unwrap();
    identity.authorize_claim_issuers(Origin::Signed(1), did, vec![ClaimIssuer { issuer: 3, expiration: 10 }]).unwrap();
    assert_eq!(
        identity.revoke_claim_consumers(Origin::Signed(1), did, vec![2]),
        Ok(IdentityEvent::ClaimConsumersRevoked(1, 1, did, vec![2]))
    );
    assert_eq!(
        identity.revoke_claim_issuers(Origin::Signed(1), did, vec![3]),
        Ok(IdentityEvent::ClaimIssuersRevoked(1, 1, did, vec![3]))
    );
    assert!(identity.get_claim_consumers(did).is_empty());
    assert!(identity.get_dids_by_consumer(2).is_empty());
    assert!(identity.get_claim_issuers(did).is_empty());
    assert!(identity.get_dids_by_issuer(3).is_empty());
}

#[test]
fn authorization_limits_are_enforced() {
    let mut identity = Identity::new(limits());
    let did = registered(&mut identity, None);
    let five: Vec<ClaimConsumer> = (2..7).map(|c| ClaimConsumer { consumer: c, expiration: 1 }).collect();
    assert_eq!(identity.authorize_claim_consumers(Origin::Signed(1), did, five), Err(IdentityError::ClaimConsumerLimitExceeded));
    let five: Vec<ClaimIssuer> = (2..7).map(|c| ClaimIssuer { issuer: c, expiration: 1 }).collect();
    assert_eq!(identity.authorize_claim_issuers(Origin::Signed(1), did, five), Err(IdentityError::ClaimIssuerLimitExceeded));
    assert_eq!(identity.revoke_claim_consumers(Origin::Signed(1), did, vec![1, 2, 3, 4, 5]), Err(IdentityError::ClaimConsumerLimitExceeded));
    assert_eq!(identity.revoke_claim_issuers(Origin::Signed(1), did, vec![1, 2, 3, 4, 5]), Err(IdentityError::ClaimIssuerLimitExceeded));
}

#[test]
fn authorization_expires_in_seconds_against_milliseconds() {
    let mut identity = Identity::new(limits());
    let did = registered(&mut identity, None);
    identity.authorize_claim_consumers(Origin::Signed(1), did, vec![ClaimConsumer { consumer: 2, expiration: 100 }]).unwrap();
    assert!(identity.is_valid_consumer(did, 2, 99_999));
    assert!(!identity.is_valid_consumer(did, 2, 100_000));
    assert!(!identity.is_valid_consumer(did, 3, 0));
    // The conversion saturates.
    identity.authorize_claim_issuers(Origin::Signed(1), did, vec![ClaimIssuer { issuer: 4, expiration: u64::MAX / 10 }]).unwrap();
    assert!(identity.is_valid_issuer(did, 4, u64::MAX - 1));
    assert!(!identity.is_valid_issuer(did, 4, u64::MAX));
}

#[test]
fn make_claim_without_proposal_should_work() {
    let mut identity = Identity::new(limits());
    let did = registered(&mut identity, Some(vec![text(b"name", b"John Doe")]));
    let now = 1_600_000_000u64;
    identity
        .authorize_claim_consumers(Origin::Signed(1), did, vec![ClaimConsumer { consumer: 2, expiration: now + 8640000 }])
        .unwrap();
    assert_eq!(identity.get_claim_consumers(did).len(), 1);
    let r = identity.make_claim(
        Origin::Signed(2),
        did,
        b"some desc".to_vec(),
        vec![statement(b"name", b"John Doe", false)],
        1,
        now * 1000,
    );
    assert_eq!(r, Ok(IdentityEvent::ClaimMade(2, 2, did, 1)));
    let claim = identity.get_claim(did, 1).unwrap();
    assert_eq!(claim.description, b"some desc".to_vec());
    assert_eq!(claim.statements, vec![statement(b"name", b"John Doe", false)]);
    assert_eq!(claim.threshold, 1);
    assert_eq!(claim.created_by, 2);
    assert!(claim.attestation.is_none());
    assert_eq!(identity.next_claim_id, 2);
}

#[test]
fn make_claim_refusals() {
    let mut identity = Identity::new(limits());
    let did = registered(&mut identity, None);
    let s = vec![statement(b"name", b"x", false)];
    assert_eq!(identity.make_claim(Origin::Signed(2), did, b"d".to_vec(), s.clone(), 1, 0), Err(IdentityError::NotAuthorized));
    identity.authorize_claim_consumers(Origin::Signed(1), did, vec![ClaimConsumer { consumer: 2, expiration: 10 }]).unwrap();
    let five = vec![s[0].clone(), s[0].clone(), s[0].clone(), s[0].clone(), s[0].clone()];
    assert_eq!(identity.make_claim(Origin::Signed(2), did, b"d".to_vec(), five, 1, 0), Err(IdentityError::StatementLimitExceeded));
    assert_eq!(identity.make_claim(Origin::Signed(2), did, vec![0u8; 33], s.clone(), 1, 0), Err(IdentityError::StringLengthLimitExceeded));
    // Expired at 10 seconds.
    assert_eq!(identity.make_claim(Origin::Signed(2), did, b"d".to_vec(), s.clone(), 1, 10_000), Err(IdentityError::NotAuthorized));
    identity.next_claim_id = u32::MAX;
    assert_eq!(identity.make_claim(Origin::Signed(2), did, b"d".to_vec(), s, 1, 0), Err(IdentityError::NoIdAvailable));
}

#[test]
fn attest_claim_without_proposal_should_work() {
    let mut identity = Identity::new(limits());
    let did = registered(&mut identity, Some(vec![text(b"name", b"John Doe")]));
    let now = 1_600_000_000u64;
    identity
        .authorize_claim_consumers(Origin::Signed(1), did, vec![ClaimConsumer { consumer: 2, expiration: now + 8640000 }])
        .unwrap();
    identity
        .make_claim(
            Origin::Signed(2),
            did,
            b"some desc".to_vec(),
            vec![statement(b"name", b"John Doe", false), statement(b"age", b"42", false)],
            1,
            now * 1000,
        )
        .unwrap();
    assert!(identity.get_claim(did, 1).unwrap().attestation.is_none());
    identity
        .authorize_claim_issuers(Origin::Signed(1), did, vec![ClaimIssuer { issuer: 3, expiration: now + 8640000 }])
        .unwrap();
    let r = identity.attest_claim(
        Origin::Signed(3),
        did,
        1,
        vec![statement(b"name", b"John Doe", true)],
        now + 8640000,
        now * 1000,
    );
    assert_eq!(r, Ok(IdentityEvent::ClaimAttested(3, did, 1)));
    let claim = identity.get_claim(did, 1).unwrap();
    assert_eq!(claim.attestation, Some(Attestation { attested_by: 3, issued: now * 1000, valid_until: now + 8640000 }));
    // The restated statement moves to the end; the other keeps its place.
    assert_eq!(claim.statements, vec![statement(b"age", b"42", false), statement(b"name", b"John Doe", true)]);
}

#[test]
fn attest_then_revoke_leaves_claim_unattested() {
    let mut identity = Identity::new(limits());
    let did = registered(&mut identity, None);
    identity.authorize_claim_consumers(Origin::Signed(1), did, vec![ClaimConsumer { consumer: 2, expiration: 10 }]).unwrap();
    identity.authorize_claim_issuers(Origin::Signed(1), did, vec![ClaimIssuer { issuer: 3, expiration: 10 }]).unwrap();
    identity.make_claim(Origin::Signed(2), did, b"d".to_vec(), vec![statement(b"a", b"1", false)], 1, 0).unwrap();
    identity.attest_claim(Origin::Signed(3), did, 1, vec![], 20, 5).unwrap();
    assert!(identity.get_claim(did, 1).unwrap().attestation.is_some());
    assert_eq!(identity.revoke_attestation(Origin::Signed(3), did, 1, 6), Ok(IdentityEvent::ClaimAttestationRevoked(3, did, 1)));
    let claim = identity.get_claim(did, 1).unwrap();
    assert!(claim.attestation.is_none());
    assert_eq!(claim.statements, vec![statement(b"a", b"1", false)]);
    // An issuer that is not authorized is refused.
    assert_eq!(identity.revoke_attestation(Origin::Signed(4), did, 1, 6), Err(IdentityError::NotAuthorized));
}

#[test]
fn group_issuer_needs_threshold_votes() {
    let mut identity = Identity::new(limits());
    let did = registered(&mut identity, None);
    identity.authorize_claim_consumers(Origin::Signed(1), did, vec![ClaimConsumer { consumer: 2, expiration: 10 }]).unwrap();
    identity.authorize_claim_issuers(Origin::Signed(1), did, vec![ClaimIssuer { issuer: 300, expiration: 10 }]).unwrap();
    identity.make_claim(Origin::Signed(2), did, b"d".to_vec(), vec![], 3, 0).unwrap();
    let too_few = Origin::Group(RawOrigin::ProposalApproved(7, 1, 2, 0, 300));
    assert_eq!(identity.attest_claim(too_few, did, 1, vec![], 20, 5), Err(IdentityError::ThresholdNotMet));
    let missing = Origin::Group(RawOrigin::ProposalApproved(7, 1, 3, 0, 300));
    assert_eq!(identity.attest_claim(missing, did, 9, vec![], 20, 5), Err(IdentityError::NotFound));
    let enough = Origin::Group(RawOrigin::ProposalApproved(7, 1, 3, 0, 300));
    assert_eq!(identity.attest_claim(enough, did, 1, vec![], 20, 5), Ok(IdentityEvent::ClaimAttested(300, did, 1)));
}

#[test]
fn outstanding_claims_and_attestations() {
    let mut identity = Identity::new(limits());
    let did = registered(&mut identity, None);
    identity.authorize_claim_consumers(Origin::Signed(1), did, vec![ClaimConsumer { consumer: 2, expiration: 10 }]).unwrap();
    identity.authorize_claim_issuers(Origin::Signed(1), did, vec![ClaimIssuer { issuer: 3, expiration: 10 }]).unwrap();
    assert_eq!(identity.get_outstanding_claims(2), vec![(did, 10)]);
    assert_eq!(identity.get_outstanding_attestations(3), vec![(did, 10)]);
    identity.make_claim(Origin::Signed(2), did, b"d".to_vec(), vec![], 1, 0).unwrap();
    assert!(identity.get_outstanding_claims(2).is_empty());
    assert_eq!(identity.get_outstanding_attestations(3), vec![(did, 10)]);
    identity.attest_claim(Origin::Signed(3), did, 1, vec![], 20, 5).unwrap();
    assert!(identity.get_outstanding_attestations(3).is_empty());
    let claims = identity.get_claims(did);
    assert_eq!(claims.len(), 1);
    assert_eq!(claims[0].0, 1);
}
