use borlaug::groups::Origin;
use borlaug::identity::{Identity, Error as IdentityError, Event as IdentityEvent, IdentityLimits};
use borlaug::identity_queries::{lex_at_most, min_max_check};
use borlaug::primitives::{Did, DidProperty, Fact};

fn limits() -> IdentityLimits {
    IdentityLimits {
        name_limit: 32,
        fact_string_limit: 32,
        property_limit: 8,
        statement_limit: 4,
        controller_limit: 4,
        claim_consumer_limit: 4,
        claim_issuer_limit: 4,
        catalog_did_limit: 4,
        bulk_did_limit: 4,
        bulk_did_property_limit: 4,
    }
}

fn register(identity: &mut Identity, properties: Vec<DidProperty>) -> Did {
    match identity.register_did(Origin::Signed(1), Some(properties), [5u8; 32]) {
        Ok(IdentityEvent::Registered(_, _, _, did)) => did,
        other => panic!("unexpected {:?}", other),
    }
}

fn property(name: &[u8], fact: Fact) -> DidProperty {
    DidProperty { name: name.to_vec(), fact }
}

fn catalog(identity: &mut Identity) -> u32 {
    match identity.create_catalog(Origin::Signed(1)) {
        Ok(IdentityEvent::CatalogCreated(1, 1, id)) => id,
        other => panic!("unexpected {:?}", other),
    }
}

fn sorted(mut v: Vec<Did>) -> Vec<Did> {
    v.sort_by(|a, b| a.id.cmp(&b.id));
    v
}

#[test]
fn create_catalog_should_work() {
    let mut identity = Identity::new(limits());
    let id = catalog(&mut identity);
    assert_eq!(id, 1);
    assert_eq!(identity.get_catalogs(1), vec![1]);
    assert!(identity.is_catalog_owner(1, 1));
    assert!(!identity.is_catalog_owner(2, 1));
    assert_eq!(catalog(&mut identity), 2);
}

#[test]
fn create_catalog_refusals() {
    let mut identity = Identity::new(limits());
    assert_eq!(identity.create_catalog(Origin::Root), Err(IdentityError::BadOrigin));
    identity.next_catalog_id = u32::MAX;
    assert_eq!(identity.create_catalog(Origin::Signed(1)), Err(IdentityError::NoIdAvailable));
    assert!(identity.get_catalogs(1).is_empty());
}

#[test]
fn add_dids_to_catalog_should_work() {
    let mut identity = Identity::new(limits());
    let catalog_id = catalog(&mut identity);
    let did = register(&mut identity, vec![property(b"name", Fact::Text(b"John Doe".to_vec()))]);
    let r = identity.add_dids_to_catalog(Origin::Signed(1), catalog_id, vec![did]);
    assert_eq!(r, Ok(IdentityEvent::CatalogDidsAdded(1, 1, catalog_id)));
    assert_eq!(identity.get_dids_in_catalog(catalog_id), vec![did]);
    assert_eq!(identity.get_catalogs_by_did(did), vec![catalog_id]);
    let (document, properties, controllers) = identity.get_did_in_catalog(catalog_id, did).unwrap();
    assert_eq!(document.subject, 1);
    assert_eq!(properties.len(), 1);
    assert_eq!(controllers, vec![1]);
    assert!(identity.get_did_in_catalog(catalog_id + 1, did).is_none());
}

#[test]
fn add_dids_to_catalog_refusals() {
    let mut identity = Identity::new(limits());
    let catalog_id = catalog(&mut identity);
    let did = register(&mut identity, vec![]);
    let unknown = Did { id: [3u8; 32] };
    assert_eq!(identity.add_dids_to_catalog(Origin::Signed(2), catalog_id, vec![did]), Err(IdentityError::NotController));
    assert_eq!(identity.add_dids_to_catalog(Origin::Signed(1), catalog_id, vec![did, did, did, did, did]), Err(IdentityError::CatalogDidLimitExceeded));
    // All or nothing: the known DID is not added either.
    assert_eq!(identity.add_dids_to_catalog(Origin::Signed(1), catalog_id, vec![did, unknown]), Err(IdentityError::NotFound));
    assert!(identity.get_dids_in_catalog(catalog_id).is_empty());
}

#[test]
fn removing_dids_and_catalogs() {
    let mut identity = Identity::new(limits());
    let catalog_id = catalog(&mut identity);
    let did = register(&mut identity, vec![]);
    identity.add_dids_to_catalog(Origin::Signed(1), catalog_id, vec![did]).unwrap();
    assert_eq!(identity.remove_catalog(Origin::Signed(1), catalog_id), Err(IdentityError::CatalogNotEmpty));
    assert_eq!(identity.remove_dids_from_catalog(Origin::Signed(1), catalog_id, vec![did, did, did, did, did]), Err(IdentityError::CatalogDidLimitExceeded));
    assert_eq!(
        identity.remove_dids_from_catalog(Origin::Signed(1), catalog_id, vec![did]),
        Ok(IdentityEvent::CatalogDidsRemoved(1, 1, catalog_id))
    );
    assert!(identity.get_dids_in_catalog(catalog_id).is_empty());
    assert!(identity.get_catalogs_by_did(did).is_empty());
    assert_eq!(identity.remove_catalog(Origin::Signed(2), catalog_id), Err(IdentityError::NotController));
    assert_eq!(identity.remove_catalog(Origin::Signed(1), catalog_id), Ok(IdentityEvent::CatalogRemoved(1, 1, catalog_id)));
    assert!(identity.get_catalogs(1).is_empty());
}

#[test]
fn min_max_check_bounds_are_inclusive() {
    assert!(min_max_check(5, Some(5), Some(5)));
    assert!(min_max_check(5, None, None));
    assert!(!min_max_check(4, Some(5), None));
    assert!(!min_max_check(6, None, Some(5)));
}

#[test]
fn lexicographic_order() {
    assert!(lex_at_most(&vec![2020, 1, 31], &vec![2020, 2, 1]));
    assert!(lex_at_most(&vec![2020, 2, 1], &vec![2020, 2, 1]));
    assert!(!lex_at_most(&vec![2021, 1, 1], &vec![2020, 12, 31]));
    assert!(lex_at_most(&vec![], &vec![]));
}

fn searchable_catalog() -> (Identity, u32, Did, Did, Did) {
    let mut identity = Identity::new(limits());
    let catalog_id = catalog(&mut identity);
    let a = register(
        &mut identity,
        vec![
            property(b"age", Fact::U8(30)),
            property(b"born", Fact::Date(1990, 5, 17)),
            property(b"seen", Fact::Iso8601(2021, 3, 4, 10, 30, 0, b"Z".to_vec())),
            property(b"name", Fact::Text(b"Alice".to_vec())),
            property(b"height", Fact::Float(1.7f64.to_le_bytes())),
        ],
    );
    let b = register(
        &mut identity,
        vec![
            property(b"age", Fact::U128(70)),
            property(b"born", Fact::Date(1950, 1, 1)),
            property(b"seen", Fact::Iso8601(2021, 3, 4, 10, 30, 1, b"Z".to_vec())),
        ],
    );
    let c = register(&mut identity, vec![property(b"age", Fact::Text(b"old".to_vec()))]);
    // A DID outside the catalog is never found.
    register(&mut identity, vec![property(b"age", Fact::U8(40))]);
    identity.add_dids_to_catalog(Origin::Signed(1), catalog_id, vec![a, b, c]).unwrap();
    (identity, catalog_id, a, b, c)
}

#[test]
fn find_did_by_integer_property_matches_all_widths() {
    let (identity, catalog_id, a, b, _) = searchable_catalog();
    assert_eq!(sorted(identity.find_did_by_integer_property(catalog_id, b"age".to_vec(), None, None)), sorted(vec![a, b]));
    assert_eq!(identity.find_did_by_integer_property(catalog_id, b"age".to_vec(), Some(31), None), vec![b]);
    assert_eq!(identity.find_did_by_integer_property(catalog_id, b"age".to_vec(), None, Some(30)), vec![a]);
    assert!(identity.find_did_by_integer_property(catalog_id, b"missing".to_vec(), None, None).is_empty());
}

#[test]
fn find_did_by_date_property_compares_lexicographically() {
    let (identity, catalog_id, a, b, _) = searchable_catalog();
    assert_eq!(identity.find_did_by_date_property(catalog_id, b"born".to_vec(), Some((1990, 5, 17)), None), vec![a]);
    assert_eq!(identity.find_did_by_date_property(catalog_id, b"born".to_vec(), None, Some((1990, 5, 16))), vec![b]);
    assert_eq!(
        sorted(identity.find_did_by_date_property(catalog_id, b"born".to_vec(), Some((1950, 1, 1)), Some((1990, 5, 17)))),
        sorted(vec![a, b])
    );
}

#[test]
fn find_did_by_iso8601_property_ignores_time_zone() {
    let (identity, catalog_id, a, b, _) = searchable_catalog();
    let bound = (2021u16, 3u8, 4u8, 10u8, 30u8, 1u8, b"+05:00".to_vec());
    assert_eq!(identity.find_did_by_iso8601_property(catalog_id, b"seen".to_vec(), Some(bound.clone()), None), vec![b]);
    assert_eq!(identity.find_did_by_iso8601_property(catalog_id, b"seen".to_vec(), None, Some((2021, 3, 4, 10, 30, 0, vec![]))), vec![a]);
}

#[test]
fn search_candidates_for_text_and_floats() {
    let (identity, catalog_id, a, _, c) = searchable_catalog();
    let mut texts = identity.text_or_did_candidates(catalog_id, b"age".to_vec());
    assert_eq!(texts, vec![(c, b"old".to_vec())]);
    texts = identity.text_or_did_candidates(catalog_id, b"name".to_vec());
    assert_eq!(texts, vec![(a, b"Alice".to_vec())]);
    let floats = identity.float_candidates(catalog_id, b"height".to_vec());
    assert_eq!(floats, vec![(a, 1.7f64.to_le_bytes())]);
}

#[test]
fn exactly_the_catalog_limit_is_allowed() {
    let mut identity = Identity::new(limits());
    let catalog_id = catalog(&mut identity);
    let did = register(&mut identity, vec![]);
    identity.add_dids_to_catalog(Origin::Signed(1), catalog_id, vec![did, did, did, did]).unwrap();
    assert_eq!(identity.get_dids_in_catalog(catalog_id).len(), 1);
    identity.remove_dids_from_catalog(Origin::Signed(1), catalog_id, vec![did, did, did, did]).unwrap();
    assert!(identity.get_dids_in_catalog(catalog_id).is_empty());
}
