use borlaug::audits::{Audits, Error as AuditsError, Event as AuditsEvent};
use borlaug::groups::{Groups, Origin, RawOrigin};
use borlaug::primitives::{AccountId, AuditStatus, Compliance};

/// Groups 1 (the creator), 2 (the auditing organization) and 3 (the auditors), each
/// of one member with threshold one.
fn groups() -> (Groups, AccountId, AccountId, AccountId) {
    let mut groups = Groups::new(32);
    let mut accounts = Vec::new();
    for member in 1..4u64 {
        groups.create_group(Origin::Signed(member), b"Test".to_vec(), vec![(member, 1)], 1, 100, 1, member as u32, true).unwrap();
        let gid = member as u32;
        accounts.push(groups.get_group(gid).unwrap().0.anonymous_account);
    }
    (groups, accounts[0], accounts[1], accounts[2])
}

/// The origin of a call of group `gid`, approved by its proposal `pid`.
fn by(gid: u32, pid: u32, account: AccountId) -> Origin {
    Origin::Group(RawOrigin::ProposalApproved(gid, pid, 1, 0, account))
}

fn audits() -> Audits {
    Audits::new(32, 64, 3)
}

/// An audit created by group 1 for group 2, accepted, with group 3 as auditors.
fn assigned() -> (Groups, Audits, AccountId, AccountId, AccountId) {
    let (groups, creator, org, auditors) = groups();
    let mut a = audits();
    a.create_audit(&groups, by(1, 10, creator), org, 0).unwrap();
    a.accept_audit(&groups, by(2, 11, org), 1).unwrap();
    a.assign_auditors(&groups, by(2, 12, org), 1, auditors).unwrap();
    (groups, a, creator, org, auditors)
}

#[test]
fn create_audit_should_work() {
    let (groups, creator, org, _) = groups();
    let mut a = audits();
    assert_eq!(a.create_audit(&groups, by(1, 10, creator), org, 0), Ok(AuditsEvent::AuditCreated(creator, 10, 1)));
    let audit = a.get_audit(1).unwrap();
    assert_eq!(audit.status, AuditStatus::Requested);
    assert_eq!(audit.audit_creator, creator);
    assert_eq!(audit.auditing_org, org);
    assert_eq!(audit.auditors, None);
    assert_eq!(a.get_audits_by_creator(creator), vec![(1, audit)]);
    assert_eq!(a.get_audits_by_auditing_org(org), vec![(1, audit)]);
    assert_eq!(a.get_audit_by_proposal(10), Some((1, audit)));
}

#[test]
fn create_audit_refusals() {
    let (groups, creator, org, _) = groups();
    let mut a = audits();
    assert_eq!(a.create_audit(&groups, Origin::Signed(1), org, 0), Err(AuditsError::BadOrigin));
    // Below the threshold of the group.
    let below = Origin::Group(RawOrigin::ProposalApproved(1, 10, 0, 0, creator));
    assert_eq!(a.create_audit(&groups, below, org, 0), Err(AuditsError::BadOrigin));
    a.next_audit_id = u32::MAX;
    assert_eq!(a.create_audit(&groups, by(1, 10, creator), org, 0), Err(AuditsError::NoIdAvailable));
    assert!(a.get_audit(u32::MAX).is_none());
}

#[test]
fn delete_audit_should_work() {
    let (groups, creator, org, _) = groups();
    let mut a = audits();
    a.create_audit(&groups, by(1, 10, creator), org, 0).unwrap();
    assert_eq!(a.delete_audit(&groups, by(2, 11, org), 1), Err(AuditsError::NotCreator));
    assert_eq!(a.delete_audit(&groups, by(1, 12, creator), 1), Ok(AuditsEvent::AuditRemoved(creator, 12, 1)));
    assert!(a.get_audit(1).is_none());
    assert!(a.get_audits_by_creator(creator).is_empty());
    assert!(a.get_audits_by_auditing_org(org).is_empty());
    assert_eq!(a.delete_audit(&groups, by(1, 13, creator), 1), Err(AuditsError::AuditNotFound));
    // No index names the deleted audit, the one by its creating proposal included.
    assert!(a.get_audit_by_proposal(10).is_none());
}

#[test]
fn accept_audit_should_work() {
    let (groups, creator, org, _) = groups();
    let mut a = audits();
    a.create_audit(&groups, by(1, 10, creator), org, 0).unwrap();
    assert_eq!(a.accept_audit(&groups, by(1, 11, creator), 1), Err(AuditsError::NotAuditor));
    assert_eq!(a.accept_audit(&groups, by(2, 11, org), 1), Ok(AuditsEvent::AuditAccepted(org, 11, 1)));
    assert_eq!(a.get_audit(1).unwrap().status, AuditStatus::Accepted);
    assert_eq!(a.accept_audit(&groups, by(2, 12, org), 1), Err(AuditsError::AuditIsNotRequested));
    assert_eq!(a.delete_audit(&groups, by(1, 13, creator), 1), Err(AuditsError::AuditIsNotRequested));
}

#[test]
fn assign_auditors_should_work() {
    let (groups, a, _, org, auditors) = assigned();
    assert_eq!(a.get_audit(1).unwrap().auditors, Some(auditors));
    assert_eq!(a.get_audits_by_auditors(auditors).len(), 1);
    assert_eq!(a.get_audits_by_auditing_org(org).len(), 1);
    drop(groups);
}

#[test]
fn reassign_auditors_should_work() {
    let (groups, mut a, _, org, auditors) = assigned();
    let r = a.assign_auditors(&groups, by(2, 13, org), 1, 777);
    assert_eq!(r, Ok(AuditsEvent::AuditorsAssigned(org, 13, 1, 777)));
    assert!(a.get_audits_by_auditors(auditors).is_empty());
    assert_eq!(a.get_audits_by_auditors(777).len(), 1);
}

#[test]
fn assign_auditors_refused_while_requested() {
    let (groups, creator, org, auditors) = groups();
    let mut a = audits();
    a.create_audit(&groups, by(1, 10, creator), org, 0).unwrap();
    assert_eq!(a.assign_auditors(&groups, by(2, 11, org), 1, auditors), Err(AuditsError::AuditIsNotAcceptedOrInProgress));
}

#[test]
fn reject_audit_should_work() {
    let (groups, creator, org, _) = groups();
    let mut a = audits();
    a.create_audit(&groups, by(1, 10, creator), org, 0).unwrap();
    assert_eq!(a.reject_audit(&groups, by(2, 11, org), 1), Ok(AuditsEvent::AuditRejected(org, 11, 1)));
    assert_eq!(a.get_audit(1).unwrap().status, AuditStatus::Rejected);
    assert_eq!(a.accept_audit(&groups, by(2, 12, org), 1), Err(AuditsError::AuditIsNotRequested));
}

#[test]
fn complete_audit_should_work() {
    let (groups, mut a, _, org, auditors) = assigned();
    assert_eq!(a.complete_audit(&groups, by(2, 20, org), 1), Err(AuditsError::AuditIsNotInProgress));
    let events = a.create_observation(&groups, by(3, 21, auditors), 1, 1, Some(Compliance::Compliant), None).unwrap();
    assert_eq!(events, vec![AuditsEvent::AuditStarted(auditors, 21, 1), AuditsEvent::ObservationCreated(auditors, 21, 1, 1, 1)]);
    assert_eq!(a.complete_audit(&groups, by(2, 22, org), 1), Ok(AuditsEvent::AuditCompleted(org, 22, 1)));
    assert_eq!(a.get_audit(1).unwrap().status, AuditStatus::Completed);
}

#[test]
fn creating_observation_should_work() {
    let (groups, mut a, _, _, auditors) = assigned();
    a.create_observation(&groups, by(3, 21, auditors), 1, 5, Some(Compliance::NonCompliant), Some([1u8; 32])).unwrap();
    assert_eq!(a.get_audit(1).unwrap().status, AuditStatus::InProgress);
    // The second observation does not start the audit again.
    let events = a.create_observation(&groups, by(3, 22, auditors), 1, 5, None, None).unwrap();
    assert_eq!(events, vec![AuditsEvent::ObservationCreated(auditors, 22, 1, 5, 2)]);
    let observations = a.get_observation_by_control_point(1, 5);
    assert_eq!(observations.len(), 2);
    let (observation, evidence) = a.get_observation(1, 5, 1).unwrap();
    assert_eq!(observation.compliance, Some(Compliance::NonCompliant));
    assert_eq!(observation.procedural_note_hash, Some([1u8; 32]));
    assert_eq!(observation.proposal_id, 21);
    assert!(evidence.is_empty());
    let (id, by_proposal, _) = a.get_observation_by_proposal(22).unwrap();
    assert_eq!(id, 2);
    assert_eq!(by_proposal.compliance, None);
}

#[test]
fn observation_refusals() {
    let (groups, creator, org, auditors) = groups();
    let mut a = audits();
    a.create_audit(&groups, by(1, 10, creator), org, 0).unwrap();
    assert_eq!(a.create_observation(&groups, by(3, 11, auditors), 1, 1, None, None), Err(AuditsError::AuditIsNotAcceptedOrInProgress));
    a.accept_audit(&groups, by(2, 12, org), 1).unwrap();
    assert_eq!(a.create_observation(&groups, by(3, 13, auditors), 1, 1, None, None), Err(AuditsError::AuditorNotAssigned));
    a.assign_auditors(&groups, by(2, 14, org), 1, auditors).unwrap();
    assert_eq!(a.create_observation(&groups, by(2, 15, org), 1, 1, None, None), Err(AuditsError::NotAuditor));
    assert_eq!(a.create_observation(&groups, by(3, 16, auditors), 9, 1, None, None), Err(AuditsError::AuditNotFound));
    a.next_observation_id = u32::MAX;
    assert_eq!(a.create_observation(&groups, by(3, 17, auditors), 1, 1, None, None), Err(AuditsError::NoIdAvailable));
    // Refused, the audit did not start.
    assert_eq!(a.get_audit(1).unwrap().status, AuditStatus::Accepted);
}

#[test]
fn creating_evidence_should_work() {
    let (groups, mut a, _, _, auditors) = assigned();
    let r = a.create_evidence(&groups, by(3, 30, auditors), 1, b"name".to_vec(), b"text/plain".to_vec(), Some(b"http://x".to_vec()), b"hash".to_vec());
    assert_eq!(r, Ok(AuditsEvent::EvidenceAttached(auditors, 30, 1, 1)));
    let evidence = a.get_evidence(1, 1).unwrap();
    assert_eq!(evidence.name, b"name".to_vec());
    assert_eq!(evidence.proposal_id, 30);
    assert_eq!(a.get_evidence_by_audit(1).len(), 1);
    assert_eq!(a.get_evidence_by_proposal(30).unwrap().0, 1);
}

#[test]
fn evidence_refusals() {
    let (groups, mut a, _, _, auditors) = assigned();
    let long_name = a.create_evidence(&groups, by(3, 30, auditors), 1, vec![0u8; 33], b"t".to_vec(), None, b"h".to_vec());
    assert_eq!(long_name, Err(AuditsError::StringLengthLimitExceeded));
    let long_url = a.create_evidence(&groups, by(3, 30, auditors), 1, b"n".to_vec(), b"t".to_vec(), Some(vec![0u8; 65]), b"h".to_vec());
    assert_eq!(long_url, Err(AuditsError::UrLLimitExceeded));
    assert!(a.get_evidence_by_audit(1).is_empty());
}

/// An audit in progress with observation 1 on control point 1 and evidence 1.
fn in_progress() -> (Groups, Audits, AccountId) {
    let (groups, mut a, _, _, auditors) = assigned();
    a.create_observation(&groups, by(3, 21, auditors), 1, 1, None, None).unwrap();
    a.create_evidence(&groups, by(3, 22, auditors), 1, b"n".to_vec(), b"t".to_vec(), None, b"h".to_vec()).unwrap();
    (groups, a, auditors)
}

#[test]
fn link_evidence_should_work() {
    let (groups, mut a, auditors) = in_progress();
    let r = a.link_evidence(&groups, by(3, 23, auditors), 1, 1, 1, 1);
    assert_eq!(r, Ok(AuditsEvent::EvidenceLinked(auditors, 23, 1, 1, 1)));
    assert_eq!(a.get_evidence_links_by_evidence(1), vec![1]);
    assert_eq!(a.get_evidence_links_by_observation(1), vec![1]);
    let (_, evidence) = a.get_observation(1, 1, 1).unwrap();
    assert_eq!(evidence.len(), 1);
    assert_eq!(a.link_evidence(&groups, by(3, 24, auditors), 1, 1, 9, 1), Err(AuditsError::ObservationNotFound));
    assert_eq!(a.link_evidence(&groups, by(3, 24, auditors), 1, 1, 1, 9), Err(AuditsError::EvidenceNotFound));
}

#[test]
fn unlink_evidence_should_work() {
    let (groups, mut a, auditors) = in_progress();
    a.link_evidence(&groups, by(3, 23, auditors), 1, 1, 1, 1).unwrap();
    let r = a.unlink_evidence(&groups, by(3, 24, auditors), 1, 1, 1, 1);
    assert_eq!(r, Ok(AuditsEvent::EvidenceUnlinked(auditors, 24, 1, 1, 1)));
    assert!(a.get_evidence_links_by_evidence(1).is_empty());
    assert!(a.get_evidence_links_by_observation(1).is_empty());
}

#[test]
fn delete_evidence_should_work() {
    let (groups, mut a, auditors) = in_progress();
    let r = a.delete_evidence(&groups, by(3, 25, auditors), 1, 1, 0);
    assert_eq!(r, Ok(AuditsEvent::EvidenceDeleted(auditors, 25, 1, 1)));
    assert!(a.get_evidence(1, 1).is_none());
    assert!(a.get_evidence_by_proposal(22).is_none());
}

#[test]
fn delete_evidence_should_have_link_limit() {
    let (groups, mut a, auditors) = in_progress();
    // Links to five observations; the declared limit is three.
    for i in 0..4u32 {
        a.create_observation(&groups, by(3, 30 + i, auditors), 1, 1, None, None).unwrap();
    }
    for observation in 1..6u32 {
        a.link_evidence(&groups, by(3, 40 + observation, auditors), 1, 1, observation, 1).unwrap();
    }
    assert_eq!(a.delete_evidence(&groups, by(3, 50, auditors), 1, 1, 4), Err(AuditsError::RemoveLinkLimitExceeded));
    let r = a.delete_evidence(&groups, by(3, 51, auditors), 1, 1, 3);
    assert_eq!(r, Ok(AuditsEvent::EvidenceDeleteFailed(auditors, 51, 1, 1)));
    // The evidence stays; three links left both indexes alike.
    assert!(a.get_evidence(1, 1).is_some());
    assert_eq!(a.get_evidence_links_by_evidence(1).len(), 2);
    let by_observation: usize = (1..6u32).map(|o| a.get_evidence_links_by_observation(o).len()).sum();
    assert_eq!(by_observation, 2);
    // Declaring enough links deletes the evidence.
    let r = a.delete_evidence(&groups, by(3, 52, auditors), 1, 1, 3);
    assert_eq!(r, Ok(AuditsEvent::EvidenceDeleted(auditors, 52, 1, 1)));
    assert!(a.get_evidence(1, 1).is_none());
    // No link is left behind in either index.
    assert!(a.get_evidence_links_by_evidence(1).is_empty());
    let by_observation: usize = (1..6u32).map(|o| a.get_evidence_links_by_observation(o).len()).sum();
    assert_eq!(by_observation, 0);
}

#[test]
fn linking_audits() {
    let (groups, creator, org, _) = groups();
    let mut a = audits();
    a.create_audit(&groups, by(1, 10, creator), org, 0).unwrap();
    a.create_audit(&groups, by(1, 11, creator), org, 0).unwrap();
    assert_eq!(a.link_audit(&groups, by(2, 12, org), 1, 2), Err(AuditsError::AuditIsNotAcceptedOrInProgressOrCompleted));
    a.accept_audit(&groups, by(2, 13, org), 1).unwrap();
    a.accept_audit(&groups, by(2, 14, org), 2).unwrap();
    assert_eq!(a.link_audit(&groups, by(2, 15, org), 1, 2), Ok(AuditsEvent::AuditLinked(org, 1, 2)));
    let linked = a.get_linked_audits(1);
    assert_eq!(linked.len(), 1);
    assert_eq!(linked[0].0, 2);
    assert_eq!(a.unlink_audit(&groups, by(1, 16, creator), 1, 2), Err(AuditsError::NotAuditor));
    assert_eq!(a.unlink_audit(&groups, by(2, 17, org), 1, 2), Ok(AuditsEvent::AuditUnlinked(org, 1, 2)));
    assert!(a.get_linked_audits(1).is_empty());
}

#[test]
fn creator_and_auditing_org_never_change() {
    let (groups, mut a, creator, org, _) = assigned();
    a.assign_auditors(&groups, by(2, 13, org), 1, 777).unwrap();
    let audit = a.get_audit(1).unwrap();
    assert_eq!(audit.audit_creator, creator);
    assert_eq!(audit.auditing_org, org);
    assert_eq!(audit.status, AuditStatus::Accepted);
}
