use borlaug::asset_registry::{AssetRegistry, Error as AssetRegistryError, Event as AssetRegistryEvent};
use borlaug::groups::{Origin, RawOrigin};
use borlaug::identity::{Identity, Event as IdentityEvent, IdentityLimits};
use borlaug::primitives::{Asset, AssetAllocation, AssetProperty, AssetStatus, Did, Fact, LeaseAgreement};

fn identity_limits() -> IdentityLimits {
    IdentityLimits {
        name_limit: 32,
        fact_string_limit: 32,
        property_limit: 4,
        statement_limit: 4,
        controller_limit: 4,
        claim_consumer_limit: 4,
        claim_issuer_limit: 4,
        catalog_did_limit: 4,
        bulk_did_limit: 4,
        bulk_did_property_limit: 4,
    }
}

/// An identity in which account 1 is the subject of two DIDs.
fn setup() -> (Identity, AssetRegistry, Did, Did) {
    let mut identity = Identity::new(identity_limits());
    let mut dids = Vec::new();
    for seed in 0..2u8 {
        match identity.register_did(Origin::Signed(1), None, [seed; 32]) {
            Ok(IdentityEvent::Registered(_, _, _, did)) => dids.push(did),
            other => panic!("unexpected {:?}", other),
        }
    }
    (identity, AssetRegistry::new(32, 32), dids[0], dids[1])
}

fn asset(name: &[u8], total_shares: u64) -> Asset {
    Asset {
        properties: vec![AssetProperty { name: b"property name".to_vec(), fact: Fact::Text(b"fact text".to_vec()) }],
        name: name.to_vec(),
        asset_number: Some(b"CAR_001".to_vec()),
        status: AssetStatus::Active,
        serial_number: Some(b"1234567890".to_vec()),
        total_shares,
        residual_value: Some(1_000_000),
        purchase_value: Some(1_000_000),
        acquired_date: Some(1_600_000_000),
    }
}

fn lease(lessor: Did, lessee: Did, number: &[u8], expiry_ts: u64, allocations: Vec<AssetAllocation>) -> LeaseAgreement {
    LeaseAgreement {
        proposal_id: None,
        contract_number: number.to_vec(),
        lessor,
        lessee,
        effective_ts: 0,
        expiry_ts,
        allocations,
    }
}

fn allocation(registry_id: u32, asset_id: u32, allocated_shares: u64) -> AssetAllocation {
    AssetAllocation { registry_id, asset_id, allocated_shares }
}

#[test]
fn creating_registry_should_work() {
    let (identity, mut registry, did, _) = setup();
    let r = registry.create_registry(&identity, Origin::Signed(1), did, b"name".to_vec());
    assert_eq!(r, Ok(AssetRegistryEvent::RegistryCreated(did, 1)));
    assert_eq!(registry.get_registry(did, 1).unwrap().name, b"name".to_vec());
    assert_eq!(registry.get_registries(did).len(), 1);
}

#[test]
fn registry_refusals() {
    let (identity, mut registry, did, _) = setup();
    assert_eq!(registry.create_registry(&identity, Origin::Root, did, b"n".to_vec()), Err(AssetRegistryError::BadOrigin));
    assert_eq!(registry.create_registry(&identity, Origin::Signed(1), did, vec![0u8; 33]), Err(AssetRegistryError::BadString));
    assert_eq!(registry.create_registry(&identity, Origin::Signed(2), did, b"n".to_vec()), Err(AssetRegistryError::NotDidSubject));
    registry.next_registry_id = u32::MAX;
    assert_eq!(registry.create_registry(&identity, Origin::Signed(1), did, b"n".to_vec()), Err(AssetRegistryError::NoIdAvailable));
    assert_eq!(registry.update_registry(&identity, Origin::Signed(1), did, 7, b"n".to_vec()), Err(AssetRegistryError::NotRegistryOwner));
    assert!(registry.get_registries(did).is_empty());
}

#[test]
fn group_account_acts_through_approved_origin() {
    let (mut identity, mut registry, _, _) = setup();
    let did = match identity.register_did(Origin::Signed(500), None, [9u8; 32]) {
        Ok(IdentityEvent::Registered(_, _, _, did)) => did,
        other => panic!("unexpected {:?}", other),
    };
    let approved = Origin::Group(RawOrigin::ProposalApproved(1, 1, 1, 0, 500));
    assert_eq!(registry.create_registry(&identity, approved, did, b"g".to_vec()), Ok(AssetRegistryEvent::RegistryCreated(did, 1)));
}

#[test]
fn updating_registry_should_work() {
    let (identity, mut registry, did, _) = setup();
    registry.create_registry(&identity, Origin::Signed(1), did, b"name".to_vec()).unwrap();
    let r = registry.update_registry(&identity, Origin::Signed(1), did, 1, b"new name".to_vec());
    assert_eq!(r, Ok(AssetRegistryEvent::RegistryRenamed(did, 1)));
    assert_eq!(registry.get_registry(did, 1).unwrap().name, b"new name".to_vec());
}

#[test]
fn deleting_registry_should_work() {
    let (identity, mut registry, did, _) = setup();
    registry.create_registry(&identity, Origin::Signed(1), did, b"name".to_vec()).unwrap();
    assert_eq!(registry.delete_registry(&identity, Origin::Signed(1), did, 1), Ok(AssetRegistryEvent::RegistryDeleted(did, 1)));
    assert!(registry.get_registry(did, 1).is_none());
}

#[test]
fn registry_with_assets_cannot_be_deleted() {
    let (identity, mut registry, did, _) = setup();
    registry.create_registry(&identity, Origin::Signed(1), did, b"name".to_vec()).unwrap();
    registry.create_asset(&identity, Origin::Signed(1), did, 1, asset(b"Cat", 100)).unwrap();
    assert_eq!(registry.delete_registry(&identity, Origin::Signed(1), did, 1), Err(AssetRegistryError::RegistryNotEmpty));
    registry.delete_asset(&identity, Origin::Signed(1), did, 1, 1, 0).unwrap();
    assert_eq!(registry.delete_registry(&identity, Origin::Signed(1), did, 1), Ok(AssetRegistryEvent::RegistryDeleted(did, 1)));
}

#[test]
fn creating_asset_should_work() {
    let (identity, mut registry, did, _) = setup();
    registry.create_registry(&identity, Origin::Signed(1), did, b"name".to_vec()).unwrap();
    let r = registry.create_asset(&identity, Origin::Signed(1), did, 1, asset(b"Cat", 100));
    assert_eq!(r, Ok(AssetRegistryEvent::AssetCreated(1, 1)));
    assert_eq!(registry.get_asset(1, 1).unwrap().name, b"Cat".to_vec());
    assert_eq!(registry.get_assets(1).len(), 1);
}

#[test]
fn asset_refusals() {
    let (identity, mut registry, did, _) = setup();
    assert_eq!(registry.create_asset(&identity, Origin::Signed(1), did, 1, asset(b"Cat", 1)), Err(AssetRegistryError::NotRegistryOwner));
    registry.create_registry(&identity, Origin::Signed(1), did, b"name".to_vec()).unwrap();
    let mut long = asset(b"Cat", 1);
    long.serial_number = Some(vec![0u8; 33]);
    assert_eq!(registry.create_asset(&identity, Origin::Signed(1), did, 1, long.clone()), Err(AssetRegistryError::BadString));
    assert_eq!(registry.update_asset(&identity, Origin::Signed(1), did, 1, 1, long), Err(AssetRegistryError::BadString));
    assert_eq!(registry.delete_asset(&identity, Origin::Signed(3), did, 1, 1, 0), Err(AssetRegistryError::NotDidSubject));
}

#[test]
fn updating_asset_should_work() {
    let (identity, mut registry, did, _) = setup();
    registry.create_registry(&identity, Origin::Signed(1), did, b"name".to_vec()).unwrap();
    registry.create_asset(&identity, Origin::Signed(1), did, 1, asset(b"Cat", 100)).unwrap();
    let r = registry.update_asset(&identity, Origin::Signed(1), did, 1, 1, asset(b"Dog", 200));
    assert_eq!(r, Ok(AssetRegistryEvent::AssetUpdated(did, 1, 1)));
    assert_eq!(registry.get_asset(1, 1).unwrap().total_shares, 200);
}

#[test]
fn deleting_asset_should_work() {
    let (identity, mut registry, did, _) = setup();
    registry.create_registry(&identity, Origin::Signed(1), did, b"name".to_vec()).unwrap();
    registry.create_asset(&identity, Origin::Signed(1), did, 1, asset(b"Cat", 100)).unwrap();
    assert_eq!(registry.delete_asset(&identity, Origin::Signed(1), did, 1, 1, 0), Ok(AssetRegistryEvent::AssetDeleted(did, 1, 1)));
    assert!(registry.get_asset(1, 1).is_none());
}

#[test]
fn creating_lease_should_work() {
    let (identity, mut registry, lessor, lessee) = setup();
    registry.create_registry(&identity, Origin::Signed(1), lessor, b"name".to_vec()).unwrap();
    registry.create_asset(&identity, Origin::Signed(1), lessor, 1, asset(b"Cat", 100)).unwrap();
    let r = registry.new_lease(&identity, Origin::Signed(1), lease(lessor, lessee, b"001", 60 * 24, vec![allocation(1, 1, 50)]), 0);
    assert_eq!(r, Ok(AssetRegistryEvent::LeaseCreated(1, lessor, lessee)));
    assert!(registry.get_lease(lessor, 1).is_some());
    assert_eq!(registry.get_leases(lessor).len(), 1);
    assert_eq!(registry.get_lease_allocations(1, 1), Some(vec![(1, 50, 60 * 24)]));
}

#[test]
fn lease_asset_over_allocation_should_fail() {
    let (identity, mut registry, lessor, lessee) = setup();
    registry.create_registry(&identity, Origin::Signed(1), lessor, b"name".to_vec()).unwrap();
    registry.create_asset(&identity, Origin::Signed(1), lessor, 1, asset(b"Cat", 100)).unwrap();
    registry.new_lease(&identity, Origin::Signed(1), lease(lessor, lessee, b"001", 60 * 24, vec![allocation(1, 1, 50)]), 0).unwrap();
    let r = registry.new_lease(&identity, Origin::Signed(1), lease(lessor, lessee, b"002", 60 * 24, vec![allocation(1, 1, 51)]), 0);
    assert_eq!(r, Err(AssetRegistryError::AssetAllocationFailed));
    assert!(registry.get_lease(lessor, 2).is_none());
    // Exactly what is left fits.
    let r = registry.new_lease(&identity, Origin::Signed(1), lease(lessor, lessee, b"002", 60 * 24, vec![allocation(1, 1, 50)]), 0);
    assert_eq!(r, Ok(AssetRegistryEvent::LeaseCreated(2, lessor, lessee)));
}

#[test]
fn expired_leases_free_their_shares() {
    let (identity, mut registry, lessor, lessee) = setup();
    registry.create_registry(&identity, Origin::Signed(1), lessor, b"name".to_vec()).unwrap();
    registry.create_asset(&identity, Origin::Signed(1), lessor, 1, asset(b"Cat", 100)).unwrap();
    registry.new_lease(&identity, Origin::Signed(1), lease(lessor, lessee, b"001", 1000, vec![allocation(1, 1, 80)]), 0).unwrap();
    // At 1000 the first lease has expired: its entry is dropped.
    let r = registry.new_lease(&identity, Origin::Signed(1), lease(lessor, lessee, b"002", 5000, vec![allocation(1, 1, 90)]), 1000);
    assert_eq!(r, Ok(AssetRegistryEvent::LeaseCreated(2, lessor, lessee)));
    assert_eq!(registry.get_lease_allocations(1, 1), Some(vec![(2, 90, 5000)]));
}

#[test]
fn lease_refusals() {
    let (identity, mut registry, lessor, lessee) = setup();
    registry.create_registry(&identity, Origin::Signed(1), lessor, b"name".to_vec()).unwrap();
    registry.create_asset(&identity, Origin::Signed(1), lessor, 1, asset(b"Cat", 100)).unwrap();
    // Missing asset, too many shares, a contract number too long, someone else's DID.
    let missing = lease(lessor, lessee, b"001", 10, vec![allocation(1, 9, 1)]);
    assert_eq!(registry.new_lease(&identity, Origin::Signed(1), missing, 0), Err(AssetRegistryError::AssetAllocationFailed));
    let too_many = lease(lessor, lessee, b"001", 10, vec![allocation(1, 1, 101)]);
    assert_eq!(registry.new_lease(&identity, Origin::Signed(1), too_many, 0), Err(AssetRegistryError::AssetAllocationFailed));
    let long = lease(lessor, lessee, &[0u8; 33], 10, vec![allocation(1, 1, 1)]);
    assert_eq!(registry.new_lease(&identity, Origin::Signed(1), long, 0), Err(AssetRegistryError::BadString));
    let stranger = lease(lessor, lessee, b"001", 10, vec![]);
    assert_eq!(registry.new_lease(&identity, Origin::Signed(2), stranger, 0), Err(AssetRegistryError::NotDidSubject));
    registry.next_lease_id = u32::MAX;
    let last = lease(lessor, lessee, b"001", 10, vec![]);
    assert_eq!(registry.new_lease(&identity, Origin::Signed(1), last, 0), Err(AssetRegistryError::NoIdAvailable));
    assert!(registry.get_lease_allocations(1, 1).is_none());
}

#[test]
fn voiding_lease_should_work() {
    let (identity, mut registry, lessor, lessee) = setup();
    registry.create_registry(&identity, Origin::Signed(1), lessor, b"name".to_vec()).unwrap();
    registry.create_asset(&identity, Origin::Signed(1), lessor, 1, asset(b"Cat", 100)).unwrap();
    registry.new_lease(&identity, Origin::Signed(1), lease(lessor, lessee, b"001", 60 * 24, vec![allocation(1, 1, 50)]), 0).unwrap();
    registry.new_lease(&identity, Origin::Signed(1), lease(lessor, lessee, b"002", 60 * 24, vec![allocation(1, 1, 20)]), 0).unwrap();
    assert_eq!(registry.void_lease(&identity, Origin::Signed(1), lessor, 1), Ok(AssetRegistryEvent::LeaseVoided(1, lessor)));
    assert!(registry.get_lease(lessor, 1).is_none());
    assert_eq!(registry.get_lease_allocations(1, 1), Some(vec![(2, 20, 60 * 24)]));
    // A lease that is gone is refused.
    assert_eq!(registry.void_lease(&identity, Origin::Signed(1), lessor, 1), Err(AssetRegistryError::NotDidSubject));
}

#[test]
fn assets_of_another_registry_cannot_be_changed() {
    let (identity, mut registry, did, other) = setup();
    registry.create_registry(&identity, Origin::Signed(1), did, b"name".to_vec()).unwrap();
    registry.create_asset(&identity, Origin::Signed(1), did, 1, asset(b"Cat", 100)).unwrap();
    // `other` owns no registry 1, though its subject is the caller.
    let r = registry.update_asset(&identity, Origin::Signed(1), other, 1, 1, asset(b"Dog", 5));
    assert_eq!(r, Err(AssetRegistryError::NotRegistryOwner));
    assert_eq!(registry.delete_asset(&identity, Origin::Signed(1), other, 1, 1, 0), Err(AssetRegistryError::NotRegistryOwner));
    assert_eq!(registry.get_asset(1, 1).unwrap().name, b"Cat".to_vec());
}

#[test]
fn leased_asset_cannot_be_deleted_until_the_lease_expires() {
    let (identity, mut registry, lessor, lessee) = setup();
    registry.create_registry(&identity, Origin::Signed(1), lessor, b"name".to_vec()).unwrap();
    registry.create_asset(&identity, Origin::Signed(1), lessor, 1, asset(b"Cat", 100)).unwrap();
    registry.new_lease(&identity, Origin::Signed(1), lease(lessor, lessee, b"001", 1000, vec![allocation(1, 1, 50)]), 0).unwrap();
    assert_eq!(registry.delete_asset(&identity, Origin::Signed(1), lessor, 1, 1, 999), Err(AssetRegistryError::AssetInActiveLease));
    assert!(registry.get_asset(1, 1).is_some());
    assert_eq!(registry.delete_asset(&identity, Origin::Signed(1), lessor, 1, 1, 1000), Ok(AssetRegistryEvent::AssetDeleted(lessor, 1, 1)));
}

#[test]
fn a_lease_counts_its_shares_of_one_asset_together() {
    let (identity, mut registry, lessor, lessee) = setup();
    registry.create_registry(&identity, Origin::Signed(1), lessor, b"name".to_vec()).unwrap();
    registry.create_asset(&identity, Origin::Signed(1), lessor, 1, asset(b"Cat", 100)).unwrap();
    let twice = lease(lessor, lessee, b"001", 1000, vec![allocation(1, 1, 60), allocation(1, 1, 60)]);
    assert_eq!(registry.new_lease(&identity, Origin::Signed(1), twice, 0), Err(AssetRegistryError::AssetAllocationFailed));
    assert!(registry.get_lease_allocations(1, 1).is_none());
    let halves = lease(lessor, lessee, b"001", 1000, vec![allocation(1, 1, 50), allocation(1, 1, 50)]);
    assert_eq!(registry.new_lease(&identity, Origin::Signed(1), halves, 0), Ok(AssetRegistryEvent::LeaseCreated(1, lessor, lessee)));
    assert_eq!(registry.get_lease_allocations(1, 1), Some(vec![(1, 50, 1000), (1, 50, 1000)]));
}

#[test]
fn checking_an_allocation_drops_expired_entries() {
    let (identity, mut registry, lessor, lessee) = setup();
    registry.create_registry(&identity, Origin::Signed(1), lessor, b"name".to_vec()).unwrap();
    registry.create_asset(&identity, Origin::Signed(1), lessor, 1, asset(b"Cat", 100)).unwrap();
    registry.new_lease(&identity, Origin::Signed(1), lease(lessor, lessee, b"001", 1000, vec![allocation(1, 1, 80)]), 0).unwrap();
    registry.new_lease(&identity, Origin::Signed(1), lease(lessor, lessee, b"002", 3000, vec![allocation(1, 1, 10)]), 0).unwrap();
    assert!(registry.check_allocation(&allocation(1, 1, 91), 2000));
    assert!(!registry.check_allocation(&allocation(1, 1, 90), 2000));
    assert_eq!(registry.get_lease_allocations(1, 1), Some(vec![(2, 10, 3000)]));
}
