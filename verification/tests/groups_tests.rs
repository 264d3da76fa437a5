use borlaug::groups::{Amount, Transfer, CloseOutcome, Groups, Error as GroupsError, Event as GroupsEvent, Origin, ProposeOutcome, RawOrigin, VetoOutcome};
use borlaug::primitives::AccountId;

fn create(groups: &mut Groups, caller: AccountId, members: Vec<(AccountId, u32)>, threshold: u32) -> (u32, AccountId) {
    match groups.create_group(Origin::Signed(caller), b"Test".to_vec(), members, threshold, 1_000_000_000, 1, 0, true) {
        Ok(GroupsEvent::GroupCreated(_, gid, account, _)) => (gid, account),
        other => panic!("unexpected {:?}", other),
    }
}

fn approved(gid: u32, pid: u32, yes: u32, account: AccountId) -> Origin {
    Origin::Group(RawOrigin::ProposalApproved(gid, pid, yes, 0, account))
}

#[test]
fn tests_creating_new_group_should_work() {
    let mut groups = Groups::new(32);
    let r = groups.create_group(Origin::Signed(1), b"Test".to_vec(), vec![(1, 1)], 1, 1_000_000_000, 1, 0, true);
    let (gid, account) = match r {
        Ok(GroupsEvent::GroupCreated(1, gid, account, 1_000_000_000)) => (gid, account),
        other => panic!("unexpected result {:?}", other),
    };
    assert_eq!(gid, 1);
    let (group, members) = groups.get_group(gid).unwrap();
    assert_eq!(group.name, b"Test".to_vec());
    assert_eq!(group.total_vote_weight, 1);
    assert_eq!(group.threshold, 1);
    assert_eq!(group.anonymous_account, account);
    assert_eq!(group.parent, None);
    assert_eq!(members, vec![(1, 1)]);
    assert!(groups.is_member(gid, 1));
    assert!(groups.is_group_account(gid, account));
    assert_eq!(groups.member_of(1), vec![gid]);
}

#[test]
fn group_accounts_differ_and_are_not_the_creator() {
    let mut groups = Groups::new(32);
    let (_, a) = create(&mut groups, 1, vec![(1, 1)], 1);
    let (_, b) = create(&mut groups, 1, vec![(1, 1)], 1);
    assert_ne!(a, b);
    assert_ne!(a, 1);
}

#[test]
fn create_group_refusals() {
    let mut groups = Groups::new(4);
    let make = |g: &mut Groups, origin: Origin, name: &[u8], members: Vec<(AccountId, u32)>, threshold: u32, ok: bool| {
        g.create_group(origin, name.to_vec(), members, threshold, 0, 1, 0, ok)
    };
    assert_eq!(make(&mut groups, Origin::Root, b"T", vec![(1, 1)], 1, true), Err(GroupsError::BadOrigin));
    assert_eq!(make(&mut groups, Origin::Signed(1), b"T", vec![], 1, true), Err(GroupsError::MembersRequired));
    assert_eq!(make(&mut groups, Origin::Signed(1), b"T", vec![(1, 1)], 0, true), Err(GroupsError::InvalidThreshold));
    assert_eq!(make(&mut groups, Origin::Signed(1), b"Too long", vec![(1, 1)], 1, true), Err(GroupsError::StringLengthLimitExceeded));
    assert_eq!(make(&mut groups, Origin::Signed(1), b"T", vec![(1, 1)], 1, false), Err(GroupsError::AccountCreationFailed));
    assert!(groups.get_group(1).is_none());
}

#[test]
fn zero_weight_counts_as_one() {
    let mut groups = Groups::new(32);
    let (gid, _) = create(&mut groups, 1, vec![(1, 0), (2, 3)], 1);
    let (group, _) = groups.get_group(gid).unwrap();
    assert_eq!(group.total_vote_weight, 4);
}

#[test]
fn update_group_should_work() {
    let mut groups = Groups::new(32);
    let (gid, account) = create(&mut groups, 1, vec![(1, 1), (2, 1)], 1);
    let r = groups.update_group(approved(gid, 1, 1, account), Some(b"Test_2".to_vec()), Some(vec![(3, 1)]), Some(vec![2]), Some(2));
    assert_eq!(r, Ok(GroupsEvent::GroupUpdated(gid)));
    let (group, _) = groups.get_group(gid).unwrap();
    assert_eq!(group.name, b"Test_2".to_vec());
    assert_eq!(group.total_vote_weight, 2);
    assert_eq!(group.threshold, 2);
    assert!(groups.is_member(gid, 1));
    assert!(!groups.is_member(gid, 2));
    assert!(groups.is_member(gid, 3));
    // Below the threshold now.
    let r = groups.update_group(approved(gid, 2, 1, account), None, None, None, None);
    assert_eq!(r, Err(GroupsError::BadOrigin));
}

#[test]
fn creating_new_sub_group_should_work() {
    let mut groups = Groups::new(32);
    let (gid, account) = create(&mut groups, 1, vec![(1, 1)], 1);
    let r = groups.create_sub_group(approved(gid, 1, 1, account), b"Test".to_vec(), vec![(2, 1), (3, 1)], 2, 1_000_000_000, 1, 1, true);
    let sub = match r {
        Ok(GroupsEvent::SubGroupCreated(parent, sub, _, 1_000_000_000)) if parent == gid => sub,
        other => panic!("unexpected {:?}", other),
    };
    assert_eq!(sub, 2);
    let (group, members) = groups.get_group(sub).unwrap();
    assert_eq!(group.parent, Some(gid));
    assert_eq!(group.total_vote_weight, 2);
    assert_eq!(members.len(), 2);
    let subs = groups.get_sub_groups(gid);
    assert_eq!(subs.len(), 1);
    assert_eq!(subs[0].0, sub);
    // A group with children cannot be removed.
    assert_eq!(groups.remove_group(approved(gid, 2, 1, account), gid, 1, true), Err(GroupsError::GroupHasChildren));
}

#[test]
fn update_and_remove_sub_group() {
    let mut groups = Groups::new(32);
    let (gid, account) = create(&mut groups, 1, vec![(1, 1)], 1);
    groups.create_sub_group(approved(gid, 1, 1, account), b"Sub".to_vec(), vec![(2, 1)], 1, 0, 1, 1, true).unwrap();
    let r = groups.update_sub_group(approved(gid, 2, 1, account), 2, Some(b"New Test".to_vec()), Some(vec![(4, 2)]), None, None);
    assert_eq!(r, Ok(GroupsEvent::SubGroupUpdated(gid, 2)));
    let (group, _) = groups.get_group(2).unwrap();
    assert_eq!(group.name, b"New Test".to_vec());
    assert_eq!(group.total_vote_weight, 3);
    assert_eq!(groups.remove_sub_group(approved(gid, 3, 1, account), 2, true), Ok(GroupsEvent::SubGroupRemoved(gid, 2)));
    assert!(groups.get_group(2).is_none());
    assert!(groups.get_sub_groups(gid).is_empty());
    assert!(!groups.is_member(2, 2));
}

#[test]
fn remove_group_should_work() {
    let mut groups = Groups::new(32);
    let (gid, account) = create(&mut groups, 1, vec![(1, 1), (2, 1)], 1);
    assert_eq!(groups.remove_group(approved(gid, 1, 1, account), gid, 9, true), Err(GroupsError::NotMember));
    assert_eq!(groups.remove_group(approved(gid, 1, 1, account), gid, 2, false), Err(GroupsError::TransferFailed));
    assert_eq!(groups.remove_group(approved(gid, 1, 1, account), gid, 2, true), Ok(GroupsEvent::GroupRemoved(gid, 2)));
    assert!(groups.get_group(gid).is_none());
    assert!(!groups.is_member(gid, 1));
    assert!(groups.member_of(1).is_empty());
}

#[test]
fn execute_should_work() {
    let mut groups = Groups::new(32);
    let (gid, account) = create(&mut groups, 1, vec![(1, 1)], 1);
    let dispatch = groups.execute(Origin::Signed(1), gid, b"call".to_vec(), 100).unwrap();
    assert_eq!(dispatch.origin, RawOrigin::ProposalExecuted(gid, 1, account));
    assert_eq!(dispatch.proposal, b"call".to_vec());
    assert_eq!(groups.execute(Origin::Signed(2), gid, b"call".to_vec(), 100).unwrap_err(), GroupsError::NotMember);
    assert_eq!(groups.execute(Origin::Signed(1), gid, b"call".to_vec(), 3).unwrap_err(), GroupsError::WrongProposalLength);
}

#[test]
fn propose_with_own_weight_dispatches_at_once() {
    let mut groups = Groups::new(32);
    let (gid, account) = create(&mut groups, 1, vec![(1, 1)], 1);
    match groups.propose(Origin::Signed(1), gid, b"call".to_vec(), 1, 100) {
        Ok(ProposeOutcome::Dispatched(d)) => {
            assert_eq!(d.origin, RawOrigin::ProposalApproved(gid, 1, 1, 0, account));
            assert_eq!(d.proposal, b"call".to_vec());
        },
        other => panic!("unexpected {:?}", other),
    }
    assert!(groups.get_proposals(gid).is_empty());
    assert_eq!(groups.next_proposal_id, 2);
}

#[test]
fn vote_with_close_and_approve_should_work() {
    let mut groups = Groups::new(32);
    let (gid, account) = create(&mut groups, 1, vec![(1, 1), (2, 2)], 3);
    let r = groups.propose(Origin::Signed(1), gid, b"update".to_vec(), 2, 100);
    assert_eq!(r, Ok(ProposeOutcome::Proposed(GroupsEvent::Proposed(1, gid, 1, 2))));
    assert!(groups.get_proposal(gid, 1).is_some());
    assert_eq!(groups.vote(Origin::Signed(2), gid, 1, true), Ok((GroupsEvent::Voted(2, gid, 1, true), true)));
    let votes = groups.get_voting(gid, 1).unwrap();
    assert_eq!(votes.ayes.len(), 2);
    assert_eq!(votes.nays.len(), 0);
    assert!(votes.ayes.contains(&(1, 1)));
    assert!(votes.ayes.contains(&(2, 2)));
    match groups.close(Origin::Signed(1), gid, 1, 1_000_000_000, 100, 10) {
        Ok(CloseOutcome::Approved(d, 3, 0)) => {
            assert_eq!(d.origin, RawOrigin::ProposalApproved(gid, 1, 3, 0, account));
            assert_eq!(d.proposal, b"update".to_vec());
        },
        other => panic!("unexpected {:?}", other),
    }
    assert!(groups.get_proposal(gid, 1).is_none());
    assert!(groups.get_proposals(gid).is_empty());
    // The vote record is gone with the proposal.
    assert!(groups.get_voting(gid, 1).is_none());
    assert_eq!(groups.vote(Origin::Signed(2), gid, 1, false), Err(GroupsError::VoteMissing));
}

#[test]
fn vote_with_close_and_disapprove_should_work() {
    let mut groups = Groups::new(32);
    let (gid, _) = create(&mut groups, 1, vec![(1, 1), (2, 2)], 3);
    groups.propose(Origin::Signed(1), gid, b"update".to_vec(), 2, 100).unwrap();
    groups.vote(Origin::Signed(2), gid, 1, false).unwrap();
    let votes = groups.get_voting(gid, 1).unwrap();
    assert_eq!(votes.ayes, vec![(1, 1)]);
    assert_eq!(votes.nays, vec![(2, 2)]);
    let r = groups.close(Origin::Signed(1), gid, 1, 100_000_000, 100, 10);
    assert_eq!(r, Ok(CloseOutcome::Disapproved(GroupsEvent::Disapproved(gid, 1, 1, 2))));
    assert!(groups.get_proposal(gid, 1).is_none());
}

#[test]
fn changing_a_vote_moves_the_voter() {
    let mut groups = Groups::new(32);
    let (gid, _) = create(&mut groups, 1, vec![(1, 1), (2, 1), (3, 1)], 3);
    groups.propose(Origin::Signed(1), gid, b"call".to_vec(), 3, 100).unwrap();
    assert_eq!(groups.vote(Origin::Signed(2), gid, 1, false).unwrap().1, true);
    assert_eq!(groups.vote(Origin::Signed(2), gid, 1, false), Err(GroupsError::DuplicateVote));
    // A changed vote is not free.
    assert_eq!(groups.vote(Origin::Signed(2), gid, 1, true), Ok((GroupsEvent::Voted(2, gid, 1, true), false)));
    let votes = groups.get_voting(gid, 1).unwrap();
    assert!(votes.ayes.contains(&(2, 1)));
    assert!(!votes.nays.iter().any(|(a, _)| *a == 2));
    // Closing too early is refused.
    assert_eq!(groups.close(Origin::Signed(1), gid, 1, 100, 100, 10), Err(GroupsError::VotingIncomplete));
}

#[test]
fn propose_refusals() {
    let mut groups = Groups::new(32);
    let (gid, _) = create(&mut groups, 1, vec![(1, 1), (2, 1)], 2);
    assert_eq!(groups.propose(Origin::Signed(3), gid, b"c".to_vec(), 2, 100), Err(GroupsError::NotMember));
    assert_eq!(groups.propose(Origin::Signed(1), 9, b"c".to_vec(), 2, 100), Err(GroupsError::GroupMissing));
    assert_eq!(groups.propose(Origin::Signed(1), gid, b"long".to_vec(), 2, 3), Err(GroupsError::WrongProposalLength));
    groups.propose(Origin::Signed(1), gid, b"c".to_vec(), 2, 100).unwrap();
    assert_eq!(groups.propose(Origin::Signed(2), gid, b"c".to_vec(), 2, 100), Err(GroupsError::DuplicateProposal));
    assert_eq!(groups.vote(Origin::Signed(1), gid, 7, true), Err(GroupsError::VoteMissing));
}

#[test]
fn veto_yes_should_work() {
    let mut groups = Groups::new(32);
    let (gid, account) = create(&mut groups, 1, vec![(1, 1)], 1);
    groups.create_sub_group(approved(gid, 1, 1, account), b"SubGroup".to_vec(), vec![(2, 1), (3, 1)], 2, 0, 1, 1, true).unwrap();
    let (_, sub_account) = {
        let (g, _) = groups.get_group(2).unwrap();
        (2u32, g.anonymous_account)
    };
    groups.propose(Origin::Signed(2), 2, b"call".to_vec(), 2, 100).unwrap();
    // A member of the parent group overrides the vote of the sub-group.
    match groups.veto(Origin::Signed(1), 2, 1, true, 1_000_000, 100, 10) {
        Ok(VetoOutcome::Approved(d)) => {
            assert_eq!(d.origin, RawOrigin::ProposalApprovedByVeto(2, 1, 1, sub_account));
            // The runtime dispatches the approved call: the sub-group creates its own sub-group.
            let r = groups.create_sub_group(Origin::Group(d.origin), b"SubSubGroup".to_vec(), vec![(4, 1)], 1, 0, 1, 2, true);
            assert!(matches!(r, Ok(GroupsEvent::SubGroupCreated(2, 3, _, 0))));
        },
        other => panic!("unexpected {:?}", other),
    }
    assert!(groups.get_proposal(2, 1).is_none());
    // The vote record stays, marked with the veto.
    assert_eq!(groups.get_voting(2, 1).unwrap().veto, Some(true));
    assert_eq!(groups.get_group(3).unwrap().0.parent, Some(2));
}

#[test]
fn veto_no_should_work() {
    let mut groups = Groups::new(32);
    let (gid, account) = create(&mut groups, 1, vec![(1, 1)], 1);
    groups.create_sub_group(approved(gid, 1, 1, account), b"SubGroup".to_vec(), vec![(2, 1), (3, 1)], 2, 0, 1, 1, true).unwrap();
    groups.propose(Origin::Signed(2), 2, b"call".to_vec(), 2, 100).unwrap();
    // A member of the sub-group itself cannot veto.
    assert_eq!(groups.veto(Origin::Signed(3), 2, 1, false, 1_000_000, 100, 10).unwrap_err(), GroupsError::NotParentGroup);
    let r = groups.veto(Origin::Signed(1), 2, 1, false, 1_000_000, 100, 10);
    assert_eq!(r, Ok(VetoOutcome::Disapproved(GroupsEvent::DisapprovedByVeto(1, 2, 1))));
    assert!(groups.get_proposal(2, 1).is_none());
    assert_eq!(groups.get_voting(2, 1).unwrap().veto, Some(false));
    // Nothing was dispatched: no further group exists.
    assert!(groups.get_group(3).is_none());
}

#[test]
fn withdraw_funds_group_should_work() {
    let mut groups = Groups::new(32);
    let (gid, account) = create(&mut groups, 1, vec![(1, 1)], 1);
    let r = groups.withdraw_funds_group(approved(gid, 1, 1, account), 1, 1_000_000, true);
    assert_eq!(r, Ok(GroupsEvent::GroupFundsWithdrawn(gid, 1, 1_000_000, true)));
    assert_eq!(groups.withdraw_funds_group(Origin::Signed(1), 1, 1, true), Err(GroupsError::BadOrigin));
}

#[test]
fn funds_between_group_and_sub_group() {
    let mut groups = Groups::new(32);
    let (gid, account) = create(&mut groups, 1, vec![(1, 1)], 1);
    groups.create_sub_group(approved(gid, 1, 1, account), b"Sub".to_vec(), vec![(2, 1)], 1, 0, 1, 1, true).unwrap();
    assert_eq!(
        groups.withdraw_funds_sub_group(approved(gid, 2, 1, account), 2, 1_000_000, true),
        Ok(GroupsEvent::SubGroupFundsWithdrawn(gid, 2, 1_000_000, true))
    );
    assert_eq!(
        groups.send_funds_to_sub_group(approved(gid, 3, 1, account), 2, 2_000_000, false),
        Ok(GroupsEvent::SubGroupFundsDeposited(gid, 2, 2_000_000, false))
    );
    assert_eq!(groups.withdraw_funds_sub_group(approved(gid, 4, 1, account), gid, 1, true), Err(GroupsError::NotSubGroup));
    let sub_account = groups.get_group(2).unwrap().0.anonymous_account;
    assert_eq!(groups.withdraw_funds_group(approved(2, 5, 1, sub_account), 1, 1, true), Err(GroupsError::NotGroup));
}

fn dispatched(groups: &mut Groups, caller: AccountId, gid: u32, call: &[u8]) -> Origin {
    match groups.propose(Origin::Signed(caller), gid, call.to_vec(), 1, 100) {
        Ok(ProposeOutcome::Dispatched(d)) => Origin::Group(d.origin),
        other => panic!("unexpected {:?}", other),
    }
}

#[test]
fn update_sub_group_should_work() {
    let mut groups = Groups::new(32);
    let caller = 1;
    let (group_id, _) = create(&mut groups, caller, vec![(caller, 1)], 1);
    let origin = dispatched(&mut groups, caller, group_id, b"create_sub_group");
    let r = groups.create_sub_group(origin, b"Test".to_vec(), vec![(2, 1), (3, 1)], 2, 1_000_000_000, 1, 1, true);
    assert!(matches!(r, Ok(GroupsEvent::SubGroupCreated(1, 2, _, 1_000_000_000))));
    let sub_group_id = 2u32;
    let (sub_group, _) = groups.get_group(sub_group_id).unwrap();
    assert_eq!(sub_group.name, b"Test".to_vec());
    assert_eq!(sub_group.total_vote_weight, 2);
    assert_eq!(sub_group.threshold, 2);
    assert_eq!(sub_group.parent, Some(group_id));

    let origin = dispatched(&mut groups, caller, group_id, b"update_sub_group");
    let r = groups.update_sub_group(
        origin,
        sub_group_id,
        Some(b"New Test".to_vec()),
        Some(vec![(3, 2), (4, 1), (5, 1)]),
        Some(vec![2]),
        Some(3),
    );
    assert_eq!(r, Ok(GroupsEvent::SubGroupUpdated(group_id, sub_group_id)));
    let (sub_group, members) = groups.get_group(sub_group_id).unwrap();
    assert_eq!(sub_group.name, b"New Test".to_vec());
    assert_eq!(sub_group.total_vote_weight, 4);
    assert_eq!(sub_group.threshold, 3);
    assert_eq!(sub_group.parent, Some(group_id));
    assert!(!groups.is_member(sub_group_id, 2));
    assert!(members.contains(&(3, 2)));
    assert!(groups.is_member(sub_group_id, 4));
    assert!(groups.is_member(sub_group_id, 5));
    assert_eq!(members.len(), 3);
}

#[test]
fn remove_sub_group_should_work() {
    let mut groups = Groups::new(32);
    let caller = 1;
    let member_2 = 2;
    let (group_id, _) = create(&mut groups, caller, vec![(caller, 1)], 1);
    let origin = dispatched(&mut groups, caller, group_id, b"create_sub_group");
    groups.create_sub_group(origin, b"Test".to_vec(), vec![(member_2, 1)], 2, 1_000_000, 1, 1, true).unwrap();
    let sub_group_id = 2u32;
    assert!(groups.get_group(sub_group_id).is_some());
    assert_eq!(groups.get_sub_groups(group_id).len(), 1);
    assert!(groups.is_member(sub_group_id, member_2));

    let r = groups.propose(Origin::Signed(member_2), sub_group_id, b"update_sub_group".to_vec(), 3, 100);
    assert!(matches!(r, Ok(ProposeOutcome::Proposed(_))));
    assert_eq!(groups.get_proposals(sub_group_id).len(), 1);

    let origin = dispatched(&mut groups, caller, group_id, b"remove_sub_group");
    assert_eq!(groups.remove_sub_group(origin, sub_group_id, true), Ok(GroupsEvent::SubGroupRemoved(group_id, sub_group_id)));
    assert!(groups.get_group(sub_group_id).is_none());
    assert!(groups.get_sub_groups(group_id).is_empty());
    assert!(!groups.is_member(sub_group_id, member_2));
    assert!(groups.get_proposals(sub_group_id).is_empty());
}

#[test]
fn withdraw_funds_sub_group_should_work() {
    let mut groups = Groups::new(32);
    let caller = 1;
    let (group_id, _) = create(&mut groups, caller, vec![(caller, 1)], 1);
    let origin = dispatched(&mut groups, caller, group_id, b"create_sub_group");
    groups.create_sub_group(origin, b"Test".to_vec(), vec![(2, 1)], 2, 2_000_000, 1, 1, true).unwrap();
    let sub_group_id = 2u32;
    assert!(groups.get_group(sub_group_id).is_some());
    let origin = dispatched(&mut groups, caller, group_id, b"withdraw_funds_sub_group");
    assert_eq!(
        groups.withdraw_funds_sub_group(origin, sub_group_id, 1_000_000, true),
        Ok(GroupsEvent::SubGroupFundsWithdrawn(group_id, sub_group_id, 1_000_000, true))
    );
}

#[test]
fn send_funds_to_sub_group_should_work() {
    let mut groups = Groups::new(32);
    let caller = 1;
    let (group_id, _) = create(&mut groups, caller, vec![(caller, 1)], 1);
    let origin = dispatched(&mut groups, caller, group_id, b"create_sub_group");
    groups.create_sub_group(origin, b"Test".to_vec(), vec![(2, 1)], 2, 1_000_000, 1, 1, true).unwrap();
    let sub_group_id = 2u32;
    assert!(groups.get_group(sub_group_id).is_some());
    let origin = dispatched(&mut groups, caller, group_id, b"send_funds_to_sub_group");
    assert_eq!(
        groups.send_funds_to_sub_group(origin, sub_group_id, 1_000_000, true),
        Ok(GroupsEvent::SubGroupFundsDeposited(group_id, sub_group_id, 1_000_000, true))
    );
}

#[test]
fn propose_with_threshold_one_dispatches_at_once() {
    let mut groups = Groups::new(32);
    let (gid, account) = create(&mut groups, 1, vec![(1, 2), (2, 1)], 2);
    match groups.propose(Origin::Signed(1), gid, b"call".to_vec(), 1, 100) {
        Ok(ProposeOutcome::Dispatched(d)) => {
            assert_eq!(d.origin, RawOrigin::ProposalApproved(gid, 1, 2, 0, account));
        },
        other => panic!("unexpected {:?}", other),
    }
    assert!(groups.get_proposals(gid).is_empty());
    assert!(groups.get_voting(gid, 1).is_none());
}

#[test]
fn sub_groups_are_listed_with_their_own_records() {
    let mut groups = Groups::new(32);
    let (gid, account) = create(&mut groups, 1, vec![(1, 1)], 1);
    groups.create_sub_group(approved(gid, 1, 1, account), b"Child".to_vec(), vec![(2, 3)], 2, 0, 1, 1, true).unwrap();
    let subs = groups.get_sub_groups(gid);
    assert_eq!(subs.len(), 1);
    assert_eq!(subs[0].0, 2);
    assert_eq!(subs[0].1.name, b"Child".to_vec());
    assert_eq!(subs[0].1.parent, Some(gid));
    assert_eq!(subs[0].1.threshold, 2);
    assert_eq!(subs[0].2, vec![(2, 3)]);
}

#[test]
fn total_vote_weight_is_the_sum_of_member_weights() {
    let mut groups = Groups::new(32);
    let (gid, account) = create(&mut groups, 1, vec![(1, 2), (2, 3)], 1);
    assert_eq!(groups.get_group(gid).unwrap().0.total_vote_weight, 5);
    // Member 1 is re-added with a new weight, member 2 removed, member 3 added.
    groups.update_group(approved(gid, 1, 2, account), None, Some(vec![(1, 4), (3, 1)]), Some(vec![2]), None).unwrap();
    let (group, members) = groups.get_group(gid).unwrap();
    let sum: u32 = members.iter().map(|(_, w)| *w).sum();
    assert_eq!(group.total_vote_weight, 5);
    assert_eq!(group.total_vote_weight, sum);
}

#[test]
fn propose_with_a_threshold_other_than_one_or_the_weight_is_put_to_the_vote() {
    let mut groups = Groups::new(32);
    let (gid, _) = create(&mut groups, 1, vec![(1, 5), (2, 1)], 2);
    // A threshold below the proposer's weight, and one of zero, still go to the vote.
    assert_eq!(groups.propose(Origin::Signed(1), gid, b"a".to_vec(), 3, 100), Ok(ProposeOutcome::Proposed(GroupsEvent::Proposed(1, gid, 1, 3))));
    assert_eq!(groups.propose(Origin::Signed(1), gid, b"b".to_vec(), 0, 100), Ok(ProposeOutcome::Proposed(GroupsEvent::Proposed(1, gid, 2, 0))));
    assert_eq!(groups.get_proposals(gid).len(), 2);
    // A threshold equal to the proposer's weight is dispatched at once.
    assert!(matches!(groups.propose(Origin::Signed(1), gid, b"c".to_vec(), 5, 100), Ok(ProposeOutcome::Dispatched(_))));
}

#[test]
fn calls_hand_out_the_transfers_they_need() {
    let mut groups = Groups::new(32);
    // Creating a group: checks first, then the transfer to the account the group will get.
    assert_eq!(groups.create_group_transfer(Origin::Signed(1), &b"Test".to_vec(), &vec![], 1, 5, 1, 0), Err(GroupsError::MembersRequired));
    let t = groups.create_group_transfer(Origin::Signed(1), &b"Test".to_vec(), &vec![(1, 1)], 1, 5, 1, 0).unwrap();
    let (gid, account) = create(&mut groups, 1, vec![(1, 1)], 1);
    assert_eq!(t, Transfer { from: 1, to: account, amount: Amount::MinimumBalancePlus(5) });
    let origin = approved(gid, 1, 1, account);
    assert_eq!(
        groups.withdraw_funds_group_transfer(origin, 7, 100),
        Ok(Transfer { from: account, to: 7, amount: Amount::Exactly(100) })
    );
    assert_eq!(groups.withdraw_funds_group_transfer(Origin::Signed(1), 7, 100), Err(GroupsError::BadOrigin));
    let t = groups.create_sub_group_transfer(origin, &b"Sub".to_vec(), &vec![(2, 1)], 1, 0, 1, 1).unwrap();
    groups.create_sub_group(origin, b"Sub".to_vec(), vec![(2, 1)], 1, 0, 1, 1, true).unwrap();
    let sub_account = groups.get_group(2).unwrap().0.anonymous_account;
    assert_eq!(t, Transfer { from: account, to: sub_account, amount: Amount::MinimumBalancePlus(0) });
    assert_eq!(
        groups.send_funds_to_sub_group_transfer(origin, 2, 3),
        Ok(Transfer { from: account, to: sub_account, amount: Amount::Exactly(3) })
    );
    assert_eq!(
        groups.withdraw_funds_sub_group_transfer(origin, 2, 3),
        Ok(Transfer { from: sub_account, to: account, amount: Amount::Exactly(3) })
    );
    assert_eq!(groups.remove_group_transfer(origin, gid, 1), Err(GroupsError::GroupHasChildren));
    assert_eq!(
        groups.remove_sub_group_transfer(origin, 2),
        Ok(Transfer { from: sub_account, to: account, amount: Amount::FreeBalance })
    );
    groups.remove_sub_group(origin, 2, true).unwrap();
    assert_eq!(
        groups.remove_group_transfer(origin, gid, 1),
        Ok(Transfer { from: account, to: 1, amount: Amount::FreeBalance })
    );
}
