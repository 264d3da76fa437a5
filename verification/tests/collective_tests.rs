use borlaug::collective::CollectiveOrigin;
use borlaug::collective_proposals::{CollectiveError, CollectiveGroup, CollectiveOutcome, Collectives};

fn collectives(threshold: u32) -> Collectives {
    let mut c = Collectives::new(2);
    c.groups.insert(1, CollectiveGroup { members: vec![1, 2, 3], threshold });
    c
}

#[test]
fn a_low_threshold_dispatches_at_once() {
    let mut c = collectives(1);
    match c.propose(1, 1, b"call".to_vec()) {
        Ok(CollectiveOutcome::Dispatched(origin, _)) => assert_eq!(origin, CollectiveOrigin::Members(1, 3)),
        other => panic!("unexpected {:?}", other),
    }
    assert!(c.proposals.get(&1).is_none());
}

#[test]
fn proposals_are_counted_and_bounded() {
    let mut c = collectives(2);
    assert_eq!(c.propose(9, 1, b"a".to_vec()), Err(CollectiveError::NotMember));
    assert_eq!(c.propose(1, 7, b"a".to_vec()), Err(CollectiveError::NotMember));
    assert_eq!(c.propose(1, 1, b"a".to_vec()), Ok(CollectiveOutcome::Proposed(1, 1, 0)));
    assert_eq!(c.propose(2, 1, b"a".to_vec()), Err(CollectiveError::DuplicateProposal));
    assert_eq!(c.propose(2, 1, b"b".to_vec()), Ok(CollectiveOutcome::Proposed(2, 1, 1)));
    assert_eq!(c.propose(3, 1, b"c".to_vec()), Err(CollectiveError::TooManyProposals));
    assert_eq!(c.proposals.get(&1).unwrap().len(), 2);
    assert_eq!(*c.proposal_count.get(&1).unwrap(), 2);
}
