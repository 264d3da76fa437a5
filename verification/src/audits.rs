//! Audits: an organization requests an audit of an auditing organization, which
//! accepts or rejects it, assigns auditors and completes it. The auditors record
//! observations on control points and attach evidence, linked to observations.
//!
//! Every call comes from a group by a proposal that reached the group's threshold.
//! The status of an audit moves from `Requested` to `Accepted` or `Rejected`, from
//! `Accepted` to `InProgress` when the first observation is made, and from
//! `InProgress` to `Completed`.
use crate::groups::{next_id, take_next_id, threshold_origin, Groups, Origin};
use crate::primitives::{AccountId, Audit, AuditStatus, Compliance, Evidence, Observation, check_limit, check_limit_option, fits, option_fits};
use crate::table::{mirrored, prefix_removed, Table};
use vstd::prelude::*;

verus! {

/// The errors of the audits pallet.
#[derive(Clone, Copy, Debug, PartialEq, Eq, Structural)]
pub enum Error {
    /// The origin is not a group call that reached the group's threshold.
    BadOrigin,
    /// A string exceeds the maximum allowed length
    StringLengthLimitExceeded,
    /// A sequential id exceeded its upper bound. Please report this to chain council.
    NoIdAvailable,
    /// The audit does not exist
    AuditNotFound,
    /// The caller must be the audit creator to execute this action.
    NotCreator,
    /// The audit must be in the `Requested` state.
    AuditIsNotRequested,
    /// The audit must be in the `InProgress` state.
    AuditIsNotInProgress,
    /// The audit must be in the `Accepted` or `InProgress` state.
    AuditIsNotAcceptedOrInProgress,
    /// The audit must be in the `Accepted` or `InProgress` or `Completed` state.
    AuditIsNotAcceptedOrInProgressOrCompleted,
    /// The audit does not have an auditor assigned
    AuditorNotAssigned,
    /// The caller must be the auditor to execute this action.
    NotAuditor,
    /// The Observation does not exist
    ObservationNotFound,
    /// The Evidence does not exist
    EvidenceNotFound,
    /// The max Evidence link limit was exceeded
    RemoveLinkLimitExceeded,
    /// The maximum allowed url length was exceeded
    UrLLimitExceeded,
}

/// The events of the audits pallet.
#[derive(Clone, Copy, Debug, PartialEq, Eq)]
pub enum Event {
    /// New audit created (audit_creator, proposal_id, audit_id)
    AuditCreated(AccountId, u32, u32),
    /// Audit deleted (audit_creator, proposal_id, audit_id)
    AuditRemoved(AccountId, u32, u32),
    /// Audit was accepted (auditing_org, proposal_id, audit_id)
    AuditAccepted(AccountId, u32, u32),
    /// Audit was rejected (auditing_org, proposal_id, audit_id)
    AuditRejected(AccountId, u32, u32),
    /// Auditors were assigned (auditing_org, proposal_id, audit_id, auditors)
    AuditorsAssigned(AccountId, u32, u32, AccountId),
    /// Audit was started (auditors, proposal_id, audit_id)
    AuditStarted(AccountId, u32, u32),
    /// Audit was completed (auditing_org, proposal_id, audit_id)
    AuditCompleted(AccountId, u32, u32),
    /// Audit was linked (auditing_org, parent_audit_id, child_audit_id)
    AuditLinked(AccountId, u32, u32),
    /// Audit was unlinked (auditing_org, parent_audit_id, child_audit_id)
    AuditUnlinked(AccountId, u32, u32),
    /// New observation created (auditors, proposal_id, audit_id, control_point_id, observation_id)
    ObservationCreated(AccountId, u32, u32, u32, u32),
    /// Evidence attached (auditors, proposal_id, audit_id, evidence_id)
    EvidenceAttached(AccountId, u32, u32, u32),
    /// Evidence linked to observation (auditors, proposal_id, audit_id, evidence_id, observation_id)
    EvidenceLinked(AccountId, u32, u32, u32, u32),
    /// Evidence unlinked from observation (auditors, proposal_id, audit_id, evidence_id, observation_id)
    EvidenceUnlinked(AccountId, u32, u32, u32, u32),
    /// Evidence deleted from audit (auditors, proposal_id, audit_id, evidence_id)
    EvidenceDeleted(AccountId, u32, u32, u32),
    /// Evidence could not be deleted due to too many observation links; call delete_evidence
    /// again (auditors, proposal_id, audit_id, evidence_id)
    EvidenceDeleteFailed(AccountId, u32, u32, u32),
}

/// The storage of the audits pallet.
pub struct Audits {
    /// The maximum length of a name.
    pub name_limit: u32,
    /// The maximum length of a url of evidence.
    pub url_limit: u32,
    /// The maximum number of evidence links that one deletion of evidence removes.
    pub max_link_remove: u32,
    /// The next available audit id.
    pub next_audit_id: u32,
    /// The next available observation id.
    pub next_observation_id: u32,
    /// The next available evidence id.
    pub next_evidence_id: u32,
    /// audit_id => audit
    pub audits: Table<u32, Audit>,
    /// (parent audit_id, child audit_id) => ()
    pub linked_audits: Table<(u32, u32), ()>,
    /// proposal_id => audit_id
    pub audit_by_proposal: Table<u32, u32>,
    /// (creator, audit_id) => ()
    pub audits_by_creator: Table<(AccountId, u32), ()>,
    /// (auditing organization, audit_id) => ()
    pub audits_by_auditing_org: Table<(AccountId, u32), ()>,
    /// (auditors, audit_id) => ()
    pub audits_by_auditors: Table<(AccountId, u32), ()>,
    /// proposal_id => (audit_id, control_point_id, observation_id)
    pub observation_by_proposal: Table<u32, (u32, u32, u32)>,
    /// ((audit_id, control_point_id), observation_id) => observation
    pub observations: Table<((u32, u32), u32), Observation>,
    /// (audit_id, evidence_id) => evidence
    pub evidences: Table<(u32, u32), Evidence>,
    /// proposal_id => (audit_id, evidence_id)
    pub evidence_by_proposal: Table<u32, (u32, u32)>,
    /// (evidence_id, observation_id) => ()
    pub evidence_links_by_evidence: Table<(u32, u32), ()>,
    /// (observation_id, evidence_id) => ()
    pub evidence_links_by_observation: Table<(u32, u32), ()>,
}

/// The abstract state of the audits pallet.
pub struct AuditsState {
    pub name_limit: u32,
    pub url_limit: u32,
    pub max_link_remove: u32,
    pub next_audit_id: u32,
    pub next_observation_id: u32,
    pub next_evidence_id: u32,
    pub audits: Map<u32, Audit>,
    pub linked_audits: Map<(u32, u32), ()>,
    pub audit_by_proposal: Map<u32, u32>,
    pub audits_by_creator: Map<(AccountId, u32), ()>,
    pub audits_by_auditing_org: Map<(AccountId, u32), ()>,
    pub audits_by_auditors: Map<(AccountId, u32), ()>,
    pub observation_by_proposal: Map<u32, (u32, u32, u32)>,
    pub observations: Map<((u32, u32), u32), Observation>,
    pub evidences: Map<(u32, u32), Evidence>,
    pub evidence_by_proposal: Map<u32, (u32, u32)>,
    pub evidence_links_by_evidence: Map<(u32, u32), ()>,
    pub evidence_links_by_observation: Map<(u32, u32), ()>,
}

impl View for Audits {
    type V = AuditsState;

    open spec fn view(&self) -> AuditsState {
        AuditsState {
            name_limit: self.name_limit,
            url_limit: self.url_limit,
            max_link_remove: self.max_link_remove,
            next_audit_id: self.next_audit_id,
            next_observation_id: self.next_observation_id,
            next_evidence_id: self.next_evidence_id,
            audits: self.audits@,
            linked_audits: self.linked_audits@,
            audit_by_proposal: self.audit_by_proposal@,
            audits_by_creator: self.audits_by_creator@,
            audits_by_auditing_org: self.audits_by_auditing_org@,
            audits_by_auditors: self.audits_by_auditors@,
            observation_by_proposal: self.observation_by_proposal@,
            observations: self.observations@,
            evidences: self.evidences@,
            evidence_by_proposal: self.evidence_by_proposal@,
            evidence_links_by_evidence: self.evidence_links_by_evidence@,
            evidence_links_by_observation: self.evidence_links_by_observation@,
        }
    }
}

impl AuditsState {
    /// The indexes agree with the records they point to, and ids are handed out once.
    pub open spec fn consistent(&self) -> bool {
        &&& forall|id: u32| #[trigger] self.audits.contains_key(id) ==> id < self.next_audit_id
        &&& forall|id: u32|
            #[trigger] self.audits.contains_key(id) && self.audits[id].status == AuditStatus::Requested
                ==> self.audits[id].auditors is None
        &&& forall|c: AccountId, id: u32|
            #[trigger] self.audits_by_creator.contains_key((c, id)) ==> self.audits.contains_key(id)
                && self.audits[id].audit_creator == c
        &&& forall|o: AccountId, id: u32|
            #[trigger] self.audits_by_auditing_org.contains_key((o, id)) ==> self.audits.contains_key(id)
                && self.audits[id].auditing_org == o
        &&& forall|x: AccountId, id: u32|
            #[trigger] self.audits_by_auditors.contains_key((x, id)) ==> self.audits.contains_key(id)
                && self.audits[id].auditors == Some(x)
        &&& mirrored(self.evidence_links_by_evidence, self.evidence_links_by_observation)
        &&& forall|p: u32|
            #[trigger] self.audit_by_proposal.contains_key(p) ==> self.audits.contains_key(self.audit_by_proposal[p])
                && self.audits[self.audit_by_proposal[p]].proposal_id == p
        &&& forall|p: u32|
            #[trigger] self.observation_by_proposal.contains_key(p) ==> {
                let t = self.observation_by_proposal[p];
                self.observations.contains_key(((t.0, t.1), t.2))
            }
        &&& forall|k: (u32, u32)| #[trigger] self.evidences.contains_key(k) ==> k.1 < self.next_evidence_id
        &&& forall|p: u32|
            #[trigger] self.evidence_by_proposal.contains_key(p) ==> self.evidences.contains_key(
                self.evidence_by_proposal[p],
            ) && self.evidences[self.evidence_by_proposal[p]].proposal_id == p
    }

    /// The audit with the status changed.
    pub open spec fn with_status(&self, id: u32, status: AuditStatus) -> AuditsState {
        AuditsState { audits: self.audits.insert(id, Audit { status, ..self.audits[id] }), ..*self }
    }
}

/// The index by proposal without the entry of `p`, when that entry names audit `id`.
pub open spec fn unindexed(m: Map<u32, u32>, p: u32, id: u32) -> Map<u32, u32> {
    if m.contains_key(p) && m[p] == id {
        m.remove(p)
    } else {
        m
    }
}

/// A status may stay, or move one step: from `Requested` to `Accepted` or `Rejected`,
/// from `Accepted` to `InProgress`, from `InProgress` to `Completed`.
pub open spec fn status_step(from: AuditStatus, to: AuditStatus) -> bool {
    ||| from == to
    ||| from == AuditStatus::Requested && (to == AuditStatus::Accepted || to == AuditStatus::Rejected)
    ||| from == AuditStatus::Accepted && to == AuditStatus::InProgress
    ||| from == AuditStatus::InProgress && to == AuditStatus::Completed
}

/// Every audit of the new state was either there before, with the same creator and
/// auditing organization and its status moved by a step, or is new and requested.
pub open spec fn advances(before: AuditsState, after: AuditsState) -> bool {
    forall|id: u32|
        #[trigger] after.audits.contains_key(id) ==> if before.audits.contains_key(id) {
            &&& status_step(before.audits[id].status, after.audits[id].status)
            &&& after.audits[id].audit_creator == before.audits[id].audit_creator
            &&& after.audits[id].auditing_org == before.audits[id].auditing_org
        } else {
            after.audits[id].status == AuditStatus::Requested
        }
}

impl Audits {
    /// Every table is well formed and the state is consistent.
    pub open spec fn wf(&self) -> bool {
        &&& self.audits.wf()
        &&& self.linked_audits.wf()
        &&& self.audit_by_proposal.wf()
        &&& self.audits_by_creator.wf()
        &&& self.audits_by_auditing_org.wf()
        &&& self.audits_by_auditors.wf()
        &&& self.observation_by_proposal.wf()
        &&& self.observations.wf()
        &&& self.evidences.wf()
        &&& self.evidence_by_proposal.wf()
        &&& self.evidence_links_by_evidence.wf()
        &&& self.evidence_links_by_observation.wf()
        &&& self@.consistent()
    }

    /// Empty storage with the given limits; the ids start at one.
    pub fn new(name_limit: u32, url_limit: u32, max_link_remove: u32) -> (s: Self)
        ensures
            s.wf(),
            s@ == (AuditsState {
                name_limit,
                url_limit,
                max_link_remove,
                next_audit_id: 1,
                next_observation_id: 1,
                next_evidence_id: 1,
                audits: Map::empty(),
                linked_audits: Map::empty(),
                audit_by_proposal: Map::empty(),
                audits_by_creator: Map::empty(),
                audits_by_auditing_org: Map::empty(),
                audits_by_auditors: Map::empty(),
                observation_by_proposal: Map::empty(),
                observations: Map::empty(),
                evidences: Map::empty(),
                evidence_by_proposal: Map::empty(),
                evidence_links_by_evidence: Map::empty(),
                evidence_links_by_observation: Map::empty(),
            }),
    {
        Audits {
            name_limit,
            url_limit,
            max_link_remove,
            next_audit_id: 1,
            next_observation_id: 1,
            next_evidence_id: 1,
            audits: Table::new(),
            linked_audits: Table::new(),
            audit_by_proposal: Table::new(),
            audits_by_creator: Table::new(),
            audits_by_auditing_org: Table::new(),
            audits_by_auditors: Table::new(),
            observation_by_proposal: Table::new(),
            observations: Table::new(),
            evidences: Table::new(),
            evidence_by_proposal: Table::new(),
            evidence_links_by_evidence: Table::new(),
            evidence_links_by_observation: Table::new(),
        }
    }

    /// A group creates an audit of an auditing organization, by a proposal that reached
    /// its threshold; the group's account is the audit's creator.
    pub fn create_audit(&mut self, groups: &Groups, origin: Origin, auditing_org: AccountId, unique_ref: u32) -> (r: Result<
        Event,
        Error,
    >)
        requires
            old(self).wf(),
            groups.wf(),
        ensures
            final(self).wf(),
            advances(old(self)@, final(self)@),
            threshold_origin(groups.groups@, origin) is None ==> r == Err::<Event, Error>(
                Error::BadOrigin,
            ) && final(self)@ == old(self)@,
            threshold_origin(groups.groups@, origin) is Some && next_id(old(self).next_audit_id) is None ==> r == Err::<
                Event,
                Error,
            >(Error::NoIdAvailable) && final(self)@ == old(self)@,
            threshold_origin(groups.groups@, origin) matches Some(a) ==> (next_id(old(self).next_audit_id) matches Some(n)
                ==> {
                let id = old(self).next_audit_id;
                let audit = Audit {
                    proposal_id: a.1,
                    status: AuditStatus::Requested,
                    audit_creator: a.4,
                    auditing_org,
                    auditors: None,
                };
                &&& final(self)@ == (AuditsState {
                    next_audit_id: n,
                    audits: old(self)@.audits.insert(id, audit),
                    audit_by_proposal: old(self)@.audit_by_proposal.insert(a.1, id),
                    audits_by_creator: old(self)@.audits_by_creator.insert((a.4, id), ()),
                    audits_by_auditing_org: old(self)@.audits_by_auditing_org.insert((auditing_org, id), ()),
                    ..old(self)@
                })
                &&& r == Ok::<Event, Error>(Event::AuditCreated(a.4, a.1, id))
                &&& !old(self)@.audits.contains_key(id)
            }),
    {
        let (_, proposal_id, _, _, group_account) = match groups.ensure_threshold(origin) {
            Ok(a) => a,
            Err(_) => return Err(Error::BadOrigin),
        };
        let audit_id = match take_next_id(&mut self.next_audit_id) {
            Some(id) => id,
            None => return Err(Error::NoIdAvailable),
        };
        let audit = Audit {
            proposal_id,
            status: AuditStatus::Requested,
            audit_creator: group_account,
            auditing_org,
            auditors: None,
        };
        self.audits.insert(audit_id, audit);
        self.audit_by_proposal.insert(proposal_id, audit_id);
        self.audits_by_creator.insert((group_account, audit_id), ());
        self.audits_by_auditing_org.insert((auditing_org, audit_id), ());
        Ok(Event::AuditCreated(group_account, proposal_id, audit_id))
    }

    /// The checks that a call on an audit by its auditing organization fails, if any:
    /// the audit exists, its status is one of those allowed, and the caller is the
    /// auditing organization.
    pub open spec fn org_error(
        &self,
        groups: &Groups,
        origin: Origin,
        audit_id: u32,
        allowed: spec_fn(AuditStatus) -> bool,
        status_error: Error,
    ) -> Option<Error> {
        match threshold_origin(groups.groups@, origin) {
            None => Some(Error::BadOrigin),
            Some(a) => if !self.audits@.contains_key(audit_id) {
                Some(Error::AuditNotFound)
            } else if !allowed(self.audits@[audit_id].status) {
                Some(status_error)
            } else if self.audits@[audit_id].auditing_org != a.4 {
                Some(Error::NotAuditor)
            } else {
                None
            },
        }
    }

    /// The creator deletes an audit that is still requested. The audit leaves every
    /// index, the index by proposal included: the entry of the proposal that created
    /// it goes, when it still names this audit. The event reports this call's proposal.
    pub fn delete_audit(&mut self, groups: &Groups, origin: Origin, audit_id: u32) -> (r: Result<Event, Error>)
        requires
            old(self).wf(),
            groups.wf(),
        ensures
            final(self).wf(),
            advances(old(self)@, final(self)@),
            ({
                let e = match threshold_origin(groups.groups@, origin) {
                    None => Some(Error::BadOrigin),
                    Some(a) => if !old(self).audits@.contains_key(audit_id) {
                        Some(Error::AuditNotFound)
                    } else if old(self).audits@[audit_id].status != AuditStatus::Requested {
                        Some(Error::AuditIsNotRequested)
                    } else if old(self).audits@[audit_id].audit_creator != a.4 {
                        Some(Error::NotCreator)
                    } else {
                        None
                    },
                };
                &&& e matches Some(err) ==> r == Err::<Event, Error>(err) && final(self)@ == old(self)@
                &&& e is None ==> {
                    let a = threshold_origin(groups.groups@, origin)->0;
                    let audit = old(self).audits@[audit_id];
                    &&& final(self)@ == (AuditsState {
                        audits: old(self)@.audits.remove(audit_id),
                        audit_by_proposal: unindexed(old(self)@.audit_by_proposal, audit.proposal_id, audit_id),
                        audits_by_creator: old(self)@.audits_by_creator.remove((a.4, audit_id)),
                        audits_by_auditing_org: old(self)@.audits_by_auditing_org.remove((audit.auditing_org, audit_id)),
                        ..old(self)@
                    })
                    &&& r == Ok::<Event, Error>(Event::AuditRemoved(a.4, a.1, audit_id))
                }
            }),
    {
        let (_, proposal_id, _, _, group_account) = match groups.ensure_threshold(origin) {
            Ok(a) => a,
            Err(_) => return Err(Error::BadOrigin),
        };
        let audit = match self.audits.get(&audit_id) {
            Some(a) => *a,
            None => return Err(Error::AuditNotFound),
        };
        if audit.status != AuditStatus::Requested {
            return Err(Error::AuditIsNotRequested);
        }
        if audit.audit_creator != group_account {
            return Err(Error::NotCreator);
        }
        let ghost before = self@;
        self.audits.remove(&audit_id);
        let indexed = match self.audit_by_proposal.get(&audit.proposal_id) {
            Some(id) => *id == audit_id,
            None => false,
        };
        if indexed {
            self.audit_by_proposal.remove(&audit.proposal_id);
        }
        self.audits_by_creator.remove(&(group_account, audit_id));
        self.audits_by_auditing_org.remove(&(audit.auditing_org, audit_id));
        proof {
            assert forall|x: AccountId, id: u32| #[trigger] self@.audits_by_auditors.contains_key((x, id)) implies self@.audits.contains_key(id)
                && self@.audits[id].auditors == Some(x) by {
                assert(before.audits_by_auditors.contains_key((x, id)));
            }
            assert forall|c: AccountId, id: u32| #[trigger] self@.audits_by_creator.contains_key((c, id)) implies self@.audits.contains_key(id)
                && self@.audits[id].audit_creator == c by {
                assert(before.audits_by_creator.contains_key((c, id)));
            }
            assert forall|o: AccountId, id: u32| #[trigger] self@.audits_by_auditing_org.contains_key((o, id)) implies self@.audits.contains_key(id)
                && self@.audits[id].auditing_org == o by {
                assert(before.audits_by_auditing_org.contains_key((o, id)));
            }
        }
        Ok(Event::AuditRemoved(group_account, proposal_id, audit_id))
    }

    /// Sets the status of an existing audit.
    fn set_status(&mut self, audit_id: u32, status: AuditStatus)
        requires
            old(self).wf(),
            old(self)@.audits.contains_key(audit_id),
            status != AuditStatus::Requested,
        ensures
            final(self).wf(),
            final(self)@ == old(self)@.with_status(audit_id, status),
    {
        let audit = match self.audits.get(&audit_id) {
            Some(a) => *a,
            None => return,
        };
        let ghost before = self@;
        self.audits.insert(audit_id, Audit { status, ..audit });
        proof {
            assert(self@ =~= before.with_status(audit_id, status));
            assert forall|x: AccountId, id: u32| #[trigger] self@.audits_by_auditors.contains_key((x, id)) implies self@.audits.contains_key(id)
                && self@.audits[id].auditors == Some(x) by {
                assert(before.audits_by_auditors.contains_key((x, id)));
            }
            assert forall|c: AccountId, id: u32| #[trigger] self@.audits_by_creator.contains_key((c, id)) implies self@.audits.contains_key(id)
                && self@.audits[id].audit_creator == c by {
                assert(before.audits_by_creator.contains_key((c, id)));
            }
            assert forall|o: AccountId, id: u32| #[trigger] self@.audits_by_auditing_org.contains_key((o, id)) implies self@.audits.contains_key(id)
                && self@.audits[id].auditing_org == o by {
                assert(before.audits_by_auditing_org.contains_key((o, id)));
            }
        }
    }

    /// The auditing organization accepts a requested audit.
    pub fn accept_audit(&mut self, groups: &Groups, origin: Origin, audit_id: u32) -> (r: Result<Event, Error>)
        requires
            old(self).wf(),
            groups.wf(),
        ensures
            final(self).wf(),
            advances(old(self)@, final(self)@),
            ({
                let e = old(self).org_error(
                    groups,
                    origin,
                    audit_id,
                    |s: AuditStatus| s == AuditStatus::Requested,
                    Error::AuditIsNotRequested,
                );
                &&& e matches Some(err) ==> r == Err::<Event, Error>(err) && final(self)@ == old(self)@
                &&& e is None ==> {
                    let a = threshold_origin(groups.groups@, origin)->0;
                    &&& final(self)@ == old(self)@.with_status(audit_id, AuditStatus::Accepted)
                    &&& r == Ok::<Event, Error>(Event::AuditAccepted(a.4, a.1, audit_id))
                }
            }),
    {
        let (_, proposal_id, _, _, group_account) = match groups.ensure_threshold(origin) {
            Ok(a) => a,
            Err(_) => return Err(Error::BadOrigin),
        };
        let audit = match self.audits.get(&audit_id) {
            Some(a) => *a,
            None => return Err(Error::AuditNotFound),
        };
        if audit.status != AuditStatus::Requested {
            return Err(Error::AuditIsNotRequested);
        }
        if audit.auditing_org != group_account {
            return Err(Error::NotAuditor);
        }
        self.set_status(audit_id, AuditStatus::Accepted);
        Ok(Event::AuditAccepted(group_account, proposal_id, audit_id))
    }

    /// The auditing organization rejects a requested audit.
    pub fn reject_audit(&mut self, groups: &Groups, origin: Origin, audit_id: u32) -> (r: Result<Event, Error>)
        requires
            old(self).wf(),
            groups.wf(),
        ensures
            final(self).wf(),
            advances(old(self)@, final(self)@),
            ({
                let e = old(self).org_error(
                    groups,
                    origin,
                    audit_id,
                    |s: AuditStatus| s == AuditStatus::Requested,
                    Error::AuditIsNotRequested,
                );
                &&& e matches Some(err) ==> r == Err::<Event, Error>(err) && final(self)@ == old(self)@
                &&& e is None ==> {
                    let a = threshold_origin(groups.groups@, origin)->0;
                    &&& final(self)@ == old(self)@.with_status(audit_id, AuditStatus::Rejected)
                    &&& r == Ok::<Event, Error>(Event::AuditRejected(a.4, a.1, audit_id))
                }
            }),
    {
        let (_, proposal_id, _, _, group_account) = match groups.ensure_threshold(origin) {
            Ok(a) => a,
            Err(_) => return Err(Error::BadOrigin),
        };
        let audit = match self.audits.get(&audit_id) {
            Some(a) => *a,
            None => return Err(Error::AuditNotFound),
        };
        if audit.status != AuditStatus::Requested {
            return Err(Error::AuditIsNotRequested);
        }
        if audit.auditing_org != group_account {
            return Err(Error::NotAuditor);
        }
        self.set_status(audit_id, AuditStatus::Rejected);
        Ok(Event::AuditRejected(group_account, proposal_id, audit_id))
    }

    /// The auditing organization completes an audit in progress.
    pub fn complete_audit(&mut self, groups: &Groups, origin: Origin, audit_id: u32) -> (r: Result<Event, Error>)
        requires
            old(self).wf(),
            groups.wf(),
        ensures
            final(self).wf(),
            advances(old(self)@, final(self)@),
            ({
                let e = old(self).org_error(
                    groups,
                    origin,
                    audit_id,
                    |s: AuditStatus| s == AuditStatus::InProgress,
                    Error::AuditIsNotInProgress,
                );
                &&& e matches Some(err) ==> r == Err::<Event, Error>(err) && final(self)@ == old(self)@
                &&& e is None ==> {
                    let a = threshold_origin(groups.groups@, origin)->0;
                    &&& final(self)@ == old(self)@.with_status(audit_id, AuditStatus::Completed)
                    &&& r == Ok::<Event, Error>(Event::AuditCompleted(a.4, a.1, audit_id))
                }
            }),
    {
        let (_, proposal_id, _, _, group_account) = match groups.ensure_threshold(origin) {
            Ok(a) => a,
            Err(_) => return Err(Error::BadOrigin),
        };
        let audit = match self.audits.get(&audit_id) {
            Some(a) => *a,
            None => return Err(Error::AuditNotFound),
        };
        if audit.status != AuditStatus::InProgress {
            return Err(Error::AuditIsNotInProgress);
        }
        if audit.auditing_org != group_account {
            return Err(Error::NotAuditor);
        }
        self.set_status(audit_id, AuditStatus::Completed);
        Ok(Event::AuditCompleted(group_account, proposal_id, audit_id))
    }

    /// The auditing organization assigns auditors to an accepted audit or one in
    /// progress, replacing those assigned before.
    pub fn assign_auditors(&mut self, groups: &Groups, origin: Origin, audit_id: u32, auditors: AccountId) -> (r: Result<
        Event,
        Error,
    >)
        requires
            old(self).wf(),
            groups.wf(),
        ensures
            final(self).wf(),
            advances(old(self)@, final(self)@),
            ({
                let e = old(self).org_error(
                    groups,
                    origin,
                    audit_id,
                    |s: AuditStatus| s == AuditStatus::Accepted || s == AuditStatus::InProgress,
                    Error::AuditIsNotAcceptedOrInProgress,
                );
                &&& e matches Some(err) ==> r == Err::<Event, Error>(err) && final(self)@ == old(self)@
                &&& e is None ==> {
                    let a = threshold_origin(groups.groups@, origin)->0;
                    let audit = old(self)@.audits[audit_id];
                    let by_auditors = match audit.auditors {
                        Some(prev) => old(self)@.audits_by_auditors.remove((prev, audit_id)),
                        None => old(self)@.audits_by_auditors,
                    };
                    &&& final(self)@ == (AuditsState {
                        audits: old(self)@.audits.insert(audit_id, Audit { auditors: Some(auditors), ..audit }),
                        audits_by_auditors: by_auditors.insert((auditors, audit_id), ()),
                        ..old(self)@
                    })
                    &&& r == Ok::<Event, Error>(
                        Event::AuditorsAssigned(a.4, a.1, audit_id, auditors),
                    )
                }
            }),
    {
        let (_, proposal_id, _, _, group_account) = match groups.ensure_threshold(origin) {
            Ok(a) => a,
            Err(_) => return Err(Error::BadOrigin),
        };
        let audit = match self.audits.get(&audit_id) {
            Some(a) => *a,
            None => return Err(Error::AuditNotFound),
        };
        if !(audit.status == AuditStatus::Accepted || audit.status == AuditStatus::InProgress) {
            return Err(Error::AuditIsNotAcceptedOrInProgress);
        }
        if audit.auditing_org != group_account {
            return Err(Error::NotAuditor);
        }
        let ghost before = self@;
        match audit.auditors {
            Some(prev) => {
                self.audits_by_auditors.remove(&(prev, audit_id));
            },
            None => {},
        }
        self.audits.insert(audit_id, Audit { auditors: Some(auditors), ..audit });
        self.audits_by_auditors.insert((auditors, audit_id), ());
        proof {
            assert forall|x: AccountId, id: u32| #[trigger] self@.audits_by_auditors.contains_key((x, id)) implies self@.audits.contains_key(id)
                && self@.audits[id].auditors == Some(x) by {
                if id != audit_id {
                    assert(before.audits_by_auditors.contains_key((x, id)));
                } else if x != auditors {
                    assert(before.audits_by_auditors.contains_key((x, id)));
                    assert(before.audits[id].auditors == Some(x));
                }
            }
            assert forall|c: AccountId, id: u32| #[trigger] self@.audits_by_creator.contains_key((c, id)) implies self@.audits.contains_key(id)
                && self@.audits[id].audit_creator == c by {
                assert(before.audits_by_creator.contains_key((c, id)));
            }
            assert forall|o: AccountId, id: u32| #[trigger] self@.audits_by_auditing_org.contains_key((o, id)) implies self@.audits.contains_key(id)
                && self@.audits[id].auditing_org == o by {
                assert(before.audits_by_auditing_org.contains_key((o, id)));
            }
        }
        Ok(Event::AuditorsAssigned(group_account, proposal_id, audit_id, auditors))
    }
}

/// The status of an audit that auditors may record observations and evidence in.
pub open spec fn open_for_records(s: AuditStatus) -> bool {
    s == AuditStatus::Accepted || s == AuditStatus::InProgress
}

/// The status of an audit that may be linked to another.
pub open spec fn linkable(s: AuditStatus) -> bool {
    s == AuditStatus::Accepted || s == AuditStatus::InProgress || s == AuditStatus::Completed
}

/// The audits that can be linked are those past their request and not rejected:
/// accepted, in progress, or completed.
pub proof fn lemma_linkable_statuses(s: AuditStatus)
    ensures
        linkable(s) <==> !(s == AuditStatus::Requested || s == AuditStatus::Rejected),
        linkable(AuditStatus::Accepted),
        linkable(AuditStatus::InProgress),
        linkable(AuditStatus::Completed),
{
}

/// The pairs (evidence, observation) for the first `n` observations.
fn evidence_pairs(evidence_id: u32, observations: &Vec<u32>, n: usize) -> (r: Vec<(u32, u32)>)
    requires
        n <= observations@.len(),
    ensures
        r@ == observations@.take(n as int).map_values(|o: u32| (evidence_id, o)),
{
    let mut r: Vec<(u32, u32)> = Vec::new();
    let mut i: usize = 0;
    while i < n
        invariant
            n <= observations@.len(),
            i <= n,
            r@ == observations@.take(i as int).map_values(|o: u32| (evidence_id, o)),
        decreases n - i,
    {
        r.push((evidence_id, observations[i]));
        assert(observations@.take(i as int + 1) =~= observations@.take(i as int).push(observations@[i as int]));
        assert(r@ =~= observations@.take(i as int + 1).map_values(|o: u32| (evidence_id, o)));
        i += 1;
    }
    r
}

/// The pairs (observation, evidence) for the first `n` observations.
fn observation_pairs(observations: &Vec<u32>, evidence_id: u32, n: usize) -> (r: Vec<(u32, u32)>)
    requires
        n <= observations@.len(),
    ensures
        r@ == observations@.take(n as int).map_values(|o: u32| (o, evidence_id)),
{
    let mut r: Vec<(u32, u32)> = Vec::new();
    let mut i: usize = 0;
    while i < n
        invariant
            n <= observations@.len(),
            i <= n,
            r@ == observations@.take(i as int).map_values(|o: u32| (o, evidence_id)),
        decreases n - i,
    {
        r.push((observations[i], evidence_id));
        assert(observations@.take(i as int + 1) =~= observations@.take(i as int).push(observations@[i as int]));
        assert(r@ =~= observations@.take(i as int + 1).map_values(|o: u32| (o, evidence_id)));
        i += 1;
    }
    r
}

impl Audits {
    /// The checks that a call by the auditors of an audit fails, if any: the audit
    /// exists, its status is one of those allowed, it has auditors, and the caller is
    /// they.
    pub open spec fn auditor_error(
        &self,
        groups: &Groups,
        origin: Origin,
        audit_id: u32,
        allowed: spec_fn(AuditStatus) -> bool,
        status_error: Error,
    ) -> Option<Error> {
        match threshold_origin(groups.groups@, origin) {
            None => Some(Error::BadOrigin),
            Some(a) => if !self.audits@.contains_key(audit_id) {
                Some(Error::AuditNotFound)
            } else if !allowed(self.audits@[audit_id].status) {
                Some(status_error)
            } else if self.audits@[audit_id].auditors is None {
                Some(Error::AuditorNotAssigned)
            } else if self.audits@[audit_id].auditors != Some(a.4) {
                Some(Error::NotAuditor)
            } else {
                None
            },
        }
    }

    /// The auditing organization of two audits links the second to the first; both
    /// are accepted, in progress or completed.
    pub fn link_audit(&mut self, groups: &Groups, origin: Origin, parent_audit_id: u32, child_audit_id: u32) -> (r: Result<
        Event,
        Error,
    >)
        requires
            old(self).wf(),
            groups.wf(),
        ensures
            final(self).wf(),
            advances(old(self)@, final(self)@),
            ({
                let e = match threshold_origin(groups.groups@, origin) {
                    None => Some(Error::BadOrigin),
                    Some(a) => if !old(self).audits@.contains_key(parent_audit_id) {
                        Some(Error::AuditNotFound)
                    } else if old(self).audits@[parent_audit_id].auditing_org != a.4 {
                        Some(Error::NotAuditor)
                    } else if !linkable(old(self).audits@[parent_audit_id].status) {
                        Some(Error::AuditIsNotAcceptedOrInProgressOrCompleted)
                    } else if !old(self).audits@.contains_key(child_audit_id) {
                        Some(Error::AuditNotFound)
                    } else if old(self).audits@[child_audit_id].auditing_org != a.4 {
                        Some(Error::NotAuditor)
                    } else if !linkable(old(self).audits@[child_audit_id].status) {
                        Some(Error::AuditIsNotAcceptedOrInProgressOrCompleted)
                    } else {
                        None
                    },
                };
                &&& e matches Some(err) ==> r == Err::<Event, Error>(err) && final(self)@ == old(self)@
                &&& (threshold_origin(groups.groups@, origin) matches Some(a) && old(self).audits@.contains_key(parent_audit_id)
                    && old(self).audits@.contains_key(child_audit_id) && old(self).audits@[parent_audit_id].auditing_org == a.4
                    && old(self).audits@[child_audit_id].auditing_org == a.4) ==> (r is Ok <==> (!(old(self).audits@[parent_audit_id].status
                    == AuditStatus::Requested || old(self).audits@[parent_audit_id].status == AuditStatus::Rejected) && !(
                old(self).audits@[child_audit_id].status == AuditStatus::Requested || old(self).audits@[child_audit_id].status
                    == AuditStatus::Rejected)))
                &&& e is None ==> {
                    let a = threshold_origin(groups.groups@, origin)->0;
                    &&& final(self)@ == (AuditsState {
                        linked_audits: old(self)@.linked_audits.insert((parent_audit_id, child_audit_id), ()),
                        ..old(self)@
                    })
                    &&& r == Ok::<Event, Error>(Event::AuditLinked(a.4, parent_audit_id, child_audit_id))
                }
            }),
    {
        let (_, _, _, _, group_account) = match groups.ensure_threshold(origin) {
            Ok(a) => a,
            Err(_) => return Err(Error::BadOrigin),
        };
        let parent = match self.audits.get(&parent_audit_id) {
            Some(a) => *a,
            None => return Err(Error::AuditNotFound),
        };
        if parent.auditing_org != group_account {
            return Err(Error::NotAuditor);
        }
        if !(parent.status == AuditStatus::Accepted || parent.status == AuditStatus::InProgress || parent.status
            == AuditStatus::Completed) {
            return Err(Error::AuditIsNotAcceptedOrInProgressOrCompleted);
        }
        let child = match self.audits.get(&child_audit_id) {
            Some(a) => *a,
            None => return Err(Error::AuditNotFound),
        };
        if child.auditing_org != group_account {
            return Err(Error::NotAuditor);
        }
        if !(child.status == AuditStatus::Accepted || child.status == AuditStatus::InProgress || child.status
            == AuditStatus::Completed) {
            return Err(Error::AuditIsNotAcceptedOrInProgressOrCompleted);
        }
        self.linked_audits.insert((parent_audit_id, child_audit_id), ());
        Ok(Event::AuditLinked(group_account, parent_audit_id, child_audit_id))
    }

    /// The auditing organization of two audits removes the link of the second to the first.
    pub fn unlink_audit(&mut self, groups: &Groups, origin: Origin, parent_audit_id: u32, child_audit_id: u32) -> (r: Result<
        Event,
        Error,
    >)
        requires
            old(self).wf(),
            groups.wf(),
        ensures
            final(self).wf(),
            advances(old(self)@, final(self)@),
            ({
                let e = match threshold_origin(groups.groups@, origin) {
                    None => Some(Error::BadOrigin),
                    Some(a) => if !old(self).audits@.contains_key(parent_audit_id) {
                        Some(Error::AuditNotFound)
                    } else if old(self).audits@[parent_audit_id].auditing_org != a.4 {
                        Some(Error::NotAuditor)
                    } else if !old(self).audits@.contains_key(child_audit_id) {
                        Some(Error::AuditNotFound)
                    } else if old(self).audits@[child_audit_id].auditing_org != a.4 {
                        Some(Error::NotAuditor)
                    } else {
                        None
                    },
                };
                &&& e matches Some(err) ==> r == Err::<Event, Error>(err) && final(self)@ == old(self)@
                &&& e is None ==> {
                    let a = threshold_origin(groups.groups@, origin)->0;
                    &&& final(self)@ == (AuditsState {
                        linked_audits: old(self)@.linked_audits.remove((parent_audit_id, child_audit_id)),
                        ..old(self)@
                    })
                    &&& r == Ok::<Event, Error>(Event::AuditUnlinked(a.4, parent_audit_id, child_audit_id))
                }
            }),
    {
        let (_, _, _, _, group_account) = match groups.ensure_threshold(origin) {
            Ok(a) => a,
            Err(_) => return Err(Error::BadOrigin),
        };
        let parent = match self.audits.get(&parent_audit_id) {
            Some(a) => *a,
            None => return Err(Error::AuditNotFound),
        };
        if parent.auditing_org != group_account {
            return Err(Error::NotAuditor);
        }
        let child = match self.audits.get(&child_audit_id) {
            Some(a) => *a,
            None => return Err(Error::AuditNotFound),
        };
        if child.auditing_org != group_account {
            return Err(Error::NotAuditor);
        }
        self.linked_audits.remove(&(parent_audit_id, child_audit_id));
        Ok(Event::AuditUnlinked(group_account, parent_audit_id, child_audit_id))
    }

    /// Checks the caller against the auditors of an audit whose status is allowed,
    /// handing back the audit.
    fn check_auditors(&self, audit_id: u32, group_account: AccountId, in_progress_only: bool) -> (r: Result<Audit, Error>)
        requires
            self.wf(),
        ensures
            !self.audits@.contains_key(audit_id) ==> r == Err::<Audit, Error>(Error::AuditNotFound),
            self.audits@.contains_key(audit_id) ==> {
                let audit = self.audits@[audit_id];
                let allowed = if in_progress_only {
                    audit.status == AuditStatus::InProgress
                } else {
                    open_for_records(audit.status)
                };
                let status_error = if in_progress_only {
                    Error::AuditIsNotInProgress
                } else {
                    Error::AuditIsNotAcceptedOrInProgress
                };
                &&& !allowed ==> r == Err::<Audit, Error>(status_error)
                &&& allowed && audit.auditors is None ==> r == Err::<Audit, Error>(Error::AuditorNotAssigned)
                &&& allowed && audit.auditors is Some && audit.auditors != Some(group_account) ==> r == Err::<
                    Audit,
                    Error,
                >(Error::NotAuditor)
                &&& allowed && audit.auditors == Some(group_account) ==> r == Ok::<Audit, Error>(audit)
            },
    {
        let audit = match self.audits.get(&audit_id) {
            Some(a) => *a,
            None => return Err(Error::AuditNotFound),
        };
        if in_progress_only {
            if audit.status != AuditStatus::InProgress {
                return Err(Error::AuditIsNotInProgress);
            }
        } else if !(audit.status == AuditStatus::Accepted || audit.status == AuditStatus::InProgress) {
            return Err(Error::AuditIsNotAcceptedOrInProgress);
        }
        match audit.auditors {
            None => Err(Error::AuditorNotAssigned),
            Some(x) => if x != group_account {
                Err(Error::NotAuditor)
            } else {
                Ok(audit)
            },
        }
    }

    /// The auditors record an observation on a control point of an audit; the first
    /// observation starts an accepted audit.
    pub fn create_observation(
        &mut self,
        groups: &Groups,
        origin: Origin,
        audit_id: u32,
        control_point_id: u32,
        compliance: Option<Compliance>,
        procedural_note_hash: Option<[u8; 32]>,
    ) -> (r: Result<Vec<Event>, Error>)
        requires
            old(self).wf(),
            groups.wf(),
        ensures
            final(self).wf(),
            advances(old(self)@, final(self)@),
            ({
                let e = match old(self).auditor_error(
                    groups,
                    origin,
                    audit_id,
                    |s: AuditStatus| open_for_records(s),
                    Error::AuditIsNotAcceptedOrInProgress,
                ) {
                    Some(err) => Some(err),
                    None => if next_id(old(self).next_observation_id) is None {
                        Some(Error::NoIdAvailable)
                    } else {
                        None
                    },
                };
                &&& e matches Some(err) ==> r == Err::<Vec<Event>, Error>(err) && final(self)@ == old(self)@
                &&& e is None ==> {
                    let a = threshold_origin(groups.groups@, origin)->0;
                    let id = old(self).next_observation_id;
                    let started = old(self)@.audits[audit_id].status == AuditStatus::Accepted;
                    let s = if started {
                        old(self)@.with_status(audit_id, AuditStatus::InProgress)
                    } else {
                        old(self)@
                    };
                    let created = Event::ObservationCreated(a.4, a.1, audit_id, control_point_id, id);
                    &&& final(self)@ == (AuditsState {
                        next_observation_id: (id + 1) as u32,
                        observations: s.observations.insert(
                            ((audit_id, control_point_id), id),
                            Observation { proposal_id: a.1, compliance, procedural_note_hash },
                        ),
                        observation_by_proposal: s.observation_by_proposal.insert(a.1, (audit_id, control_point_id, id)),
                        ..s
                    })
                    &&& r matches Ok(events) && events@ == if started {
                        seq![Event::AuditStarted(a.4, a.1, audit_id), created]
                    } else {
                        seq![created]
                    }
                }
            }),
    {
        let (_, proposal_id, _, _, group_account) = match groups.ensure_threshold(origin) {
            Ok(a) => a,
            Err(_) => return Err(Error::BadOrigin),
        };
        let audit = match self.check_auditors(audit_id, group_account, false) {
            Ok(a) => a,
            Err(e) => return Err(e),
        };
        let observation_id = match take_next_id(&mut self.next_observation_id) {
            Some(id) => id,
            None => return Err(Error::NoIdAvailable),
        };
        let mut events: Vec<Event> = Vec::new();
        if audit.status == AuditStatus::Accepted {
            events.push(Event::AuditStarted(group_account, proposal_id, audit_id));
            self.set_status(audit_id, AuditStatus::InProgress);
        }
        let observation = Observation { proposal_id, compliance, procedural_note_hash };
        self.observations.insert(((audit_id, control_point_id), observation_id), observation);
        self.observation_by_proposal.insert(proposal_id, (audit_id, control_point_id, observation_id));
        events.push(Event::ObservationCreated(group_account, proposal_id, audit_id, control_point_id, observation_id));
        Ok(events)
    }

    /// The auditors attach evidence to an audit.
    pub fn create_evidence(
        &mut self,
        groups: &Groups,
        origin: Origin,
        audit_id: u32,
        name: Vec<u8>,
        content_type: Vec<u8>,
        url: Option<Vec<u8>>,
        hash: Vec<u8>,
    ) -> (r: Result<Event, Error>)
        requires
            old(self).wf(),
            groups.wf(),
        ensures
            final(self).wf(),
            advances(old(self)@, final(self)@),
            ({
                let l = old(self).name_limit;
                let e = match old(self).auditor_error(
                    groups,
                    origin,
                    audit_id,
                    |s: AuditStatus| open_for_records(s),
                    Error::AuditIsNotAcceptedOrInProgress,
                ) {
                    Some(err) => Some(err),
                    None => if !fits(content_type@, l) || !fits(hash@, l) || !fits(name@, l) {
                        Some(Error::StringLengthLimitExceeded)
                    } else if !option_fits(url, old(self).url_limit) {
                        Some(Error::UrLLimitExceeded)
                    } else if next_id(old(self).next_evidence_id) is None {
                        Some(Error::NoIdAvailable)
                    } else {
                        None
                    },
                };
                &&& e matches Some(err) ==> r == Err::<Event, Error>(err) && final(self)@ == old(self)@
                &&& e is None ==> {
                    let a = threshold_origin(groups.groups@, origin)->0;
                    let id = old(self).next_evidence_id;
                    &&& final(self)@ == (AuditsState {
                        next_evidence_id: (id + 1) as u32,
                        evidences: old(self)@.evidences.insert(
                            (audit_id, id),
                            Evidence { proposal_id: a.1, name, content_type, url, hash },
                        ),
                        evidence_by_proposal: old(self)@.evidence_by_proposal.insert(a.1, (audit_id, id)),
                        ..old(self)@
                    })
                    &&& r == Ok::<Event, Error>(Event::EvidenceAttached(a.4, a.1, audit_id, id))
                    &&& forall|x: u32| !old(self)@.evidences.contains_key((x, id))
                }
            }),
    {
        let (_, proposal_id, _, _, group_account) = match groups.ensure_threshold(origin) {
            Ok(a) => a,
            Err(_) => return Err(Error::BadOrigin),
        };
        match self.check_auditors(audit_id, group_account, false) {
            Ok(_) => {},
            Err(e) => return Err(e),
        }
        if !check_limit(&content_type, self.name_limit) || !check_limit(&hash, self.name_limit) || !check_limit(
            &name,
            self.name_limit,
        ) {
            return Err(Error::StringLengthLimitExceeded);
        }
        if !check_limit_option(&url, self.url_limit) {
            return Err(Error::UrLLimitExceeded);
        }
        let evidence_id = match take_next_id(&mut self.next_evidence_id) {
            Some(id) => id,
            None => return Err(Error::NoIdAvailable),
        };
        let ghost before = self@;
        let evidence = Evidence { proposal_id, name, content_type, url, hash };
        self.evidences.insert((audit_id, evidence_id), evidence);
        self.evidence_by_proposal.insert(proposal_id, (audit_id, evidence_id));
        proof {
            assert forall|p: u32| #[trigger] self@.evidence_by_proposal.contains_key(p) implies self@.evidences.contains_key(
                self@.evidence_by_proposal[p],
            ) && self@.evidences[self@.evidence_by_proposal[p]].proposal_id == p by {
                if p != proposal_id {
                    assert(before.evidence_by_proposal.contains_key(p));
                    assert(before.evidences.contains_key(before.evidence_by_proposal[p]));
                }
            }
        }
        Ok(Event::EvidenceAttached(group_account, proposal_id, audit_id, evidence_id))
    }

    /// The checks that a change of the links between an observation and evidence fails, if any.
    pub open spec fn link_error(
        &self,
        groups: &Groups,
        origin: Origin,
        audit_id: u32,
        control_point_id: u32,
        observation_id: u32,
        evidence_id: u32,
    ) -> Option<Error> {
        match self.auditor_error(
            groups,
            origin,
            audit_id,
            |s: AuditStatus| s == AuditStatus::InProgress,
            Error::AuditIsNotInProgress,
        ) {
            Some(err) => Some(err),
            None => if !self.observations@.contains_key(((audit_id, control_point_id), observation_id)) {
                Some(Error::ObservationNotFound)
            } else if !self.evidences@.contains_key((audit_id, evidence_id)) {
                Some(Error::EvidenceNotFound)
            } else {
                None
            },
        }
    }

    /// The auditors link evidence of an audit in progress to one of its observations.
    pub fn link_evidence(
        &mut self,
        groups: &Groups,
        origin: Origin,
        audit_id: u32,
        control_point_id: u32,
        observation_id: u32,
        evidence_id: u32,
    ) -> (r: Result<Event, Error>)
        requires
            old(self).wf(),
            groups.wf(),
        ensures
            final(self).wf(),
            advances(old(self)@, final(self)@),
            old(self).link_error(groups, origin, audit_id, control_point_id, observation_id, evidence_id) matches Some(err)
                ==> r == Err::<Event, Error>(err) && final(self)@ == old(self)@,
            old(self).link_error(groups, origin, audit_id, control_point_id, observation_id, evidence_id) is None ==> {
                let a = threshold_origin(groups.groups@, origin)->0;
                &&& final(self)@ == (AuditsState {
                    evidence_links_by_evidence: old(self)@.evidence_links_by_evidence.insert((evidence_id, observation_id), ()),
                    evidence_links_by_observation: old(self)@.evidence_links_by_observation.insert(
                        (observation_id, evidence_id),
                        (),
                    ),
                    ..old(self)@
                })
                &&& r == Ok::<Event, Error>(
                    Event::EvidenceLinked(a.4, a.1, audit_id, evidence_id, observation_id),
                )
            },
    {
        let (_, proposal_id, _, _, group_account) = match groups.ensure_threshold(origin) {
            Ok(a) => a,
            Err(_) => return Err(Error::BadOrigin),
        };
        match self.check_auditors(audit_id, group_account, true) {
            Ok(_) => {},
            Err(e) => return Err(e),
        }
        if !self.observations.contains_key(&((audit_id, control_point_id), observation_id)) {
            return Err(Error::ObservationNotFound);
        }
        if !self.evidences.contains_key(&(audit_id, evidence_id)) {
            return Err(Error::EvidenceNotFound);
        }
        self.evidence_links_by_evidence.insert((evidence_id, observation_id), ());
        self.evidence_links_by_observation.insert((observation_id, evidence_id), ());
        Ok(Event::EvidenceLinked(group_account, proposal_id, audit_id, evidence_id, observation_id))
    }

    /// The auditors remove the link between evidence of an audit in progress and one
    /// of its observations.
    pub fn unlink_evidence(
        &mut self,
        groups: &Groups,
        origin: Origin,
        audit_id: u32,
        control_point_id: u32,
        observation_id: u32,
        evidence_id: u32,
    ) -> (r: Result<Event, Error>)
        requires
            old(self).wf(),
            groups.wf(),
        ensures
            final(self).wf(),
            advances(old(self)@, final(self)@),
            old(self).link_error(groups, origin, audit_id, control_point_id, observation_id, evidence_id) matches Some(err)
                ==> r == Err::<Event, Error>(err) && final(self)@ == old(self)@,
            old(self).link_error(groups, origin, audit_id, control_point_id, observation_id, evidence_id) is None ==> {
                let a = threshold_origin(groups.groups@, origin)->0;
                &&& final(self)@ == (AuditsState {
                    evidence_links_by_evidence: old(self)@.evidence_links_by_evidence.remove((evidence_id, observation_id)),
                    evidence_links_by_observation: old(self)@.evidence_links_by_observation.remove(
                        (observation_id, evidence_id),
                    ),
                    ..old(self)@
                })
                &&& r == Ok::<Event, Error>(
                    Event::EvidenceUnlinked(a.4, a.1, audit_id, evidence_id, observation_id),
                )
            },
    {
        let (_, proposal_id, _, _, group_account) = match groups.ensure_threshold(origin) {
            Ok(a) => a,
            Err(_) => return Err(Error::BadOrigin),
        };
        match self.check_auditors(audit_id, group_account, true) {
            Ok(_) => {},
            Err(e) => return Err(e),
        }
        if !self.observations.contains_key(&((audit_id, control_point_id), observation_id)) {
            return Err(Error::ObservationNotFound);
        }
        if !self.evidences.contains_key(&(audit_id, evidence_id)) {
            return Err(Error::EvidenceNotFound);
        }
        self.evidence_links_by_evidence.remove(&(evidence_id, observation_id));
        self.evidence_links_by_observation.remove(&(observation_id, evidence_id));
        Ok(Event::EvidenceUnlinked(group_account, proposal_id, audit_id, evidence_id, observation_id))
    }
}

impl Audits {
    /// The observations that evidence is linked to.
    pub open spec fn linked_observations(&self, evidence_id: u32) -> Set<u32> {
        Set::new(|o: u32| self.evidence_links_by_evidence@.contains_key((evidence_id, o)))
    }

    /// The checks that a deletion of evidence fails, if any.
    pub open spec fn delete_evidence_error(
        &self,
        groups: &Groups,
        origin: Origin,
        audit_id: u32,
        evidence_id: u32,
        link_count: u32,
    ) -> Option<Error> {
        match self.auditor_error(
            groups,
            origin,
            audit_id,
            |s: AuditStatus| s == AuditStatus::InProgress,
            Error::AuditIsNotInProgress,
        ) {
            Some(err) => Some(err),
            None => if !self.evidences@.contains_key((audit_id, evidence_id)) {
                Some(Error::EvidenceNotFound)
            } else if link_count > self.max_link_remove {
                Some(Error::RemoveLinkLimitExceeded)
            } else {
                None
            },
        }
    }

    /// The auditors delete evidence of an audit in progress, with its links; they
    /// declare how many links it has. When it has more, as many links as declared
    /// are removed from both indexes, the evidence stays, and `EvidenceDeleteFailed`
    /// is the answer: a retry with a larger count finishes the work. Which links go
    /// first is the order in which storage is walked.
    pub fn delete_evidence(&mut self, groups: &Groups, origin: Origin, audit_id: u32, evidence_id: u32, link_count: u32) -> (r:
        Result<Event, Error>)
        requires
            old(self).wf(),
            groups.wf(),
        ensures
            final(self).wf(),
            advances(old(self)@, final(self)@),
            old(self).delete_evidence_error(groups, origin, audit_id, evidence_id, link_count) matches Some(err) ==> r
                == Err::<Event, Error>(err) && final(self)@ == old(self)@,
            old(self).delete_evidence_error(groups, origin, audit_id, evidence_id, link_count) is None ==> {
                let a = threshold_origin(groups.groups@, origin)->0;
                let linked = old(self).linked_observations(evidence_id);
                let evidence = old(self)@.evidences[(audit_id, evidence_id)];
                &&& linked.finite()
                &&& linked.len() <= link_count ==> {
                    &&& final(self)@ == (AuditsState {
                        evidences: old(self)@.evidences.remove((audit_id, evidence_id)),
                        evidence_by_proposal: old(self)@.evidence_by_proposal.remove(evidence.proposal_id),
                        evidence_links_by_evidence: prefix_removed(old(self)@.evidence_links_by_evidence, evidence_id),
                        evidence_links_by_observation: old(self)@.evidence_links_by_observation.remove_keys(
                            Set::new(|k: (u32, u32)| k.1 == evidence_id && linked.contains(k.0)),
                        ),
                        ..old(self)@
                    })
                    &&& r == Ok::<Event, Error>(Event::EvidenceDeleted(a.4, a.1, audit_id, evidence_id))
                }
                &&& linked.len() > link_count ==> {
                    &&& exists|ks: Seq<u32>|
                        {
                            &&& ks.len() == link_count
                            &&& ks.no_duplicates()
                            &&& forall|i: int| 0 <= i < ks.len() ==> linked.contains(#[trigger] ks[i])
                            &&& final(self)@ == (AuditsState {
                                evidence_links_by_evidence: old(self)@.evidence_links_by_evidence.remove_keys(
                                    ks.map_values(|o: u32| (evidence_id, o)).to_set(),
                                ),
                                evidence_links_by_observation: old(self)@.evidence_links_by_observation.remove_keys(
                                    ks.map_values(|o: u32| (o, evidence_id)).to_set(),
                                ),
                                ..old(self)@
                            })
                        }
                    &&& r == Ok::<Event, Error>(
                        Event::EvidenceDeleteFailed(a.4, a.1, audit_id, evidence_id),
                    )
                }
            },
    {
        let (_, proposal_id, _, _, group_account) = match groups.ensure_threshold(origin) {
            Ok(a) => a,
            Err(_) => return Err(Error::BadOrigin),
        };
        match self.check_auditors(audit_id, group_account, true) {
            Ok(_) => {},
            Err(e) => return Err(e),
        }
        let evidence_proposal = match self.evidences.get(&(audit_id, evidence_id)) {
            Some(e) => e.proposal_id,
            None => return Err(Error::EvidenceNotFound),
        };
        if link_count > self.max_link_remove {
            return Err(Error::RemoveLinkLimitExceeded);
        }
        let ghost before = self@;
        let ghost linked = self.linked_observations(evidence_id);
        let observations = self.evidence_links_by_evidence.keys_with_prefix(&evidence_id);
        proof {
            observations@.unique_seq_to_set();
            assert(observations@.to_set() =~= linked);
        }
        if observations.len() as u64 <= link_count as u64 {
            let pairs = observation_pairs(&observations, evidence_id, observations.len());
            self.evidence_links_by_evidence.remove_prefix(&evidence_id);
            self.evidence_links_by_observation.remove_all(&pairs);
            self.evidences.remove(&(audit_id, evidence_id));
            self.evidence_by_proposal.remove(&evidence_proposal);
            proof {
                assert(observations@.take(observations@.len() as int) =~= observations@);
                assert(pairs@.to_set() =~= Set::new(|k: (u32, u32)| k.1 == evidence_id && linked.contains(k.0))) by {
                    assert forall|k: (u32, u32)| pairs@.to_set().contains(k) <==> (k.1 == evidence_id && linked.contains(k.0)) by {
                        if pairs@.contains(k) {
                            let j = choose|j: int| 0 <= j < pairs@.len() && pairs@[j] == k;
                            assert(observations@.contains(observations@[j]));
                        }
                        if k.1 == evidence_id && linked.contains(k.0) {
                            assert(observations@.contains(k.0));
                            let j = choose|j: int| 0 <= j < observations@.len() && observations@[j] == k.0;
                            assert(pairs@[j] == k);
                        }
                    }
                }
                assert forall|p: u32| #[trigger] self@.evidence_by_proposal.contains_key(p) implies self@.evidences.contains_key(
                    self@.evidence_by_proposal[p],
                ) && self@.evidences[self@.evidence_by_proposal[p]].proposal_id == p by {
                    assert(before.evidence_by_proposal.contains_key(p));
                }
                assert forall|k: (u32, u32)| #[trigger] self@.evidences.contains_key(k) implies k.1 < self@.next_evidence_id by {
                    assert(before.evidences.contains_key(k));
                }
                let removed = Set::new(|k: (u32, u32)| k.1 == evidence_id && linked.contains(k.0));
                assert forall|a: u32, b: u32| #[trigger] self@.evidence_links_by_evidence.contains_key((a, b)) implies
                    self@.evidence_links_by_observation.contains_key((b, a))
                    && self@.evidence_links_by_observation[(b, a)] == self@.evidence_links_by_evidence[(a, b)] by {
                    assert(before.evidence_links_by_evidence.contains_key((a, b)));
                    assert(!removed.contains((b, a)));
                }
                assert forall|a: u32, b: u32| #[trigger] self@.evidence_links_by_observation.contains_key((b, a)) implies
                    self@.evidence_links_by_evidence.contains_key((a, b)) by {
                    assert(before.evidence_links_by_observation.contains_key((b, a)));
                    assert(before.evidence_links_by_evidence.contains_key((a, b)));
                    if a == evidence_id {
                        assert(linked.contains(b));
                        assert(removed.contains((b, a)));
                    }
                }
            }
            Ok(Event::EvidenceDeleted(group_account, proposal_id, audit_id, evidence_id))
        } else {
            let n = link_count as usize;
            let evidence_side = evidence_pairs(evidence_id, &observations, n);
            let observation_side = observation_pairs(&observations, evidence_id, n);
            self.evidence_links_by_evidence.remove_all(&evidence_side);
            self.evidence_links_by_observation.remove_all(&observation_side);
            proof {
                let ks = observations@.take(n as int);
                assert forall|i: int| 0 <= i < ks.len() implies linked.contains(#[trigger] ks[i]) by {
                    assert(observations@.contains(observations@[i]));
                }
                assert forall|x: int, y: int| 0 <= x < ks.len() && 0 <= y < ks.len() && x != y implies ks[x] != ks[y] by {
                    assert(observations@[x] != observations@[y]);
                }
                let esq = ks.map_values(|o: u32| (evidence_id, o));
                let osq = ks.map_values(|o: u32| (o, evidence_id));
                let es = esq.to_set();
                let os = osq.to_set();
                assert forall|a: u32, b: u32| #[trigger] es.contains((a, b)) implies os.contains((b, a)) by {
                    let j = choose|j: int| 0 <= j < esq.len() && #[trigger] esq[j] == (a, b);
                    assert(osq[j] == (b, a));
                }
                assert forall|a: u32, b: u32| #[trigger] os.contains((b, a)) implies es.contains((a, b)) by {
                    let j = choose|j: int| 0 <= j < osq.len() && #[trigger] osq[j] == (b, a);
                    assert(esq[j] == (a, b));
                }
                crate::table::lemma_mirrored_remove_keys(
                    before.evidence_links_by_evidence,
                    before.evidence_links_by_observation,
                    es,
                    os,
                );
                assert(self@ == (AuditsState {
                    evidence_links_by_evidence: before.evidence_links_by_evidence.remove_keys(
                        ks.map_values(|o: u32| (evidence_id, o)).to_set(),
                    ),
                    evidence_links_by_observation: before.evidence_links_by_observation.remove_keys(
                        ks.map_values(|o: u32| (o, evidence_id)).to_set(),
                    ),
                    ..before
                }));
            }
            Ok(Event::EvidenceDeleteFailed(group_account, proposal_id, audit_id, evidence_id))
        }
    }
}

/// A list of audits under an index: each audit id once, with its audit, for every
/// key under the account.
pub open spec fn lists_audits(r: Seq<(u32, Audit)>, index: Map<(AccountId, u32), ()>, account: AccountId, audits: Map<u32, Audit>) -> bool {
    &&& forall|i: int, j: int| 0 <= i < r.len() && 0 <= j < r.len() && i != j ==> r[i].0 != r[j].0
    &&& forall|i: int|
        0 <= i < r.len() ==> index.contains_key((account, #[trigger] r[i].0)) && audits.contains_key(r[i].0) && audits[r[i].0]
            == r[i].1
    &&& forall|id: u32| #[trigger] index.contains_key((account, id)) ==> exists|i: int| 0 <= i < r.len() && r[i].0 == id
}

/// A list of the evidence of an audit linked to an observation: each evidence id
/// once, with its evidence, for every link whose evidence exists.
pub open spec fn lists_evidence(r: Seq<(u32, &Evidence)>, s: AuditsState, audit_id: u32, observation_id: u32) -> bool {
    &&& forall|i: int, j: int| 0 <= i < r.len() && 0 <= j < r.len() && i != j ==> r[i].0 != r[j].0
    &&& forall|i: int|
        0 <= i < r.len() ==> s.evidence_links_by_observation.contains_key((observation_id, #[trigger] r[i].0))
            && s.evidences.contains_key((audit_id, r[i].0)) && s.evidences[(audit_id, r[i].0)] == *r[i].1
    &&& forall|e: u32|
        #[trigger] s.evidence_links_by_observation.contains_key((observation_id, e)) && s.evidences.contains_key(
            (audit_id, e),
        ) ==> exists|i: int| 0 <= i < r.len() && r[i].0 == e
}

impl Audits {
    /// The audits with the given ids, which all exist, in order.
    fn audits_with_ids(&self, ids: &Vec<u32>) -> (r: Vec<(u32, Audit)>)
        requires
            self.wf(),
            forall|i: int| 0 <= i < ids@.len() ==> self@.audits.contains_key(#[trigger] ids@[i]),
        ensures
            r@.len() == ids@.len(),
            forall|i: int| 0 <= i < r@.len() ==> #[trigger] r@[i] == (ids@[i], self@.audits[ids@[i]]),
    {
        let mut r: Vec<(u32, Audit)> = Vec::new();
        let mut i: usize = 0;
        while i < ids.len()
            invariant
                self.wf(),
                forall|j: int| 0 <= j < ids@.len() ==> self@.audits.contains_key(#[trigger] ids@[j]),
                i <= ids@.len(),
                r@.len() == i,
                forall|j: int| 0 <= j < i ==> #[trigger] r@[j] == (ids@[j], self@.audits[ids@[j]]),
            decreases ids@.len() - i,
        {
            let id = ids[i];
            match self.audits.get(&id) {
                Some(a) => r.push((id, *a)),
                None => {
                    assert(self@.audits.contains_key(ids@[i as int]));
                    return r;
                },
            }
            i += 1;
        }
        r
    }

    /// The audits under an account in an index, each once.
    fn audits_under(&self, index: &Table<(AccountId, u32), ()>, account: AccountId) -> (r: Vec<(u32, Audit)>)
        requires
            self.wf(),
            index.wf(),
            forall|id: u32| #[trigger] index@.contains_key((account, id)) ==> self@.audits.contains_key(id),
        ensures
            lists_audits(r@, index@, account, self@.audits),
    {
        let ids = index.keys_with_prefix(&account);
        proof {
            assert forall|i: int| 0 <= i < ids@.len() implies self@.audits.contains_key(#[trigger] ids@[i]) by {
                assert(ids@.contains(ids@[i]));
            }
        }
        let r = self.audits_with_ids(&ids);
        proof {
            assert forall|i: int, j: int| 0 <= i < r@.len() && 0 <= j < r@.len() && i != j implies r@[i].0 != r@[j].0 by {
                assert(r@[i] == (ids@[i], self@.audits[ids@[i]]));
                assert(r@[j] == (ids@[j], self@.audits[ids@[j]]));
            }
            assert forall|i: int| 0 <= i < r@.len() implies index@.contains_key((account, #[trigger] r@[i].0))
                && self@.audits.contains_key(r@[i].0) && self@.audits[r@[i].0] == r@[i].1 by {
                assert(r@[i] == (ids@[i], self@.audits[ids@[i]]));
                assert(ids@.contains(ids@[i]));
            }
            assert forall|id: u32| #[trigger] index@.contains_key((account, id)) implies exists|i: int| 0 <= i < r@.len() && r@[i].0 == id by {
                assert(ids@.contains(id));
                let i = choose|i: int| 0 <= i < ids@.len() && ids@[i] == id;
                assert(r@[i] == (ids@[i], self@.audits[ids@[i]]));
            }
        }
        r
    }

    /// The audits that an account created, each once.
    pub fn get_audits_by_creator(&self, account: AccountId) -> (r: Vec<(u32, Audit)>)
        requires
            self.wf(),
        ensures
            lists_audits(r@, self@.audits_by_creator, account, self@.audits),
    {
        proof {
            assert forall|id: u32| #[trigger] self.audits_by_creator@.contains_key((account, id)) implies self@.audits.contains_key(id) by {
                assert(self@.audits_by_creator.contains_key((account, id)));
            }
        }
        self.audits_under(&self.audits_by_creator, account)
    }

    /// The audits of an auditing organization, each once.
    pub fn get_audits_by_auditing_org(&self, account: AccountId) -> (r: Vec<(u32, Audit)>)
        requires
            self.wf(),
        ensures
            lists_audits(r@, self@.audits_by_auditing_org, account, self@.audits),
    {
        proof {
            assert forall|id: u32| #[trigger] self.audits_by_auditing_org@.contains_key((account, id)) implies self@.audits.contains_key(id) by {
                assert(self@.audits_by_auditing_org.contains_key((account, id)));
            }
        }
        self.audits_under(&self.audits_by_auditing_org, account)
    }

    /// The audits assigned to some auditors, each once.
    pub fn get_audits_by_auditors(&self, account: AccountId) -> (r: Vec<(u32, Audit)>)
        requires
            self.wf(),
        ensures
            lists_audits(r@, self@.audits_by_auditors, account, self@.audits),
    {
        proof {
            assert forall|id: u32| #[trigger] self.audits_by_auditors@.contains_key((account, id)) implies self@.audits.contains_key(id) by {
                assert(self@.audits_by_auditors.contains_key((account, id)));
            }
        }
        self.audits_under(&self.audits_by_auditors, account)
    }

    /// The audits linked to an audit that still exist, each once.
    pub fn get_linked_audits(&self, audit_id: u32) -> (r: Vec<(u32, Audit)>)
        requires
            self.wf(),
        ensures
            forall|i: int, j: int| 0 <= i < r@.len() && 0 <= j < r@.len() && i != j ==> r@[i].0 != r@[j].0,
            forall|i: int|
                0 <= i < r@.len() ==> self@.linked_audits.contains_key((audit_id, #[trigger] r@[i].0))
                    && self@.audits.contains_key(r@[i].0) && self@.audits[r@[i].0] == r@[i].1,
            forall|c: u32|
                #[trigger] self@.linked_audits.contains_key((audit_id, c)) && self@.audits.contains_key(c) ==> exists|i: int|
                    0 <= i < r@.len() && r@[i].0 == c,
    {
        let children = self.linked_audits.keys_with_prefix(&audit_id);
        let mut r: Vec<(u32, Audit)> = Vec::new();
        let mut i: usize = 0;
        while i < children.len()
            invariant
                self.wf(),
                i <= children@.len(),
                children@.no_duplicates(),
                forall|c: u32| children@.contains(c) <==> self@.linked_audits.contains_key((audit_id, c)),
                forall|x: int| #![trigger r@[x]] 0 <= x < r@.len() ==> exists|j: int| 0 <= j < i && #[trigger] children@[j] == r@[x].0,
                forall|x: int, y: int| 0 <= x < r@.len() && 0 <= y < r@.len() && x != y ==> r@[x].0 != r@[y].0,
                forall|x: int|
                    0 <= x < r@.len() ==> self@.audits.contains_key(#[trigger] r@[x].0) && self@.audits[r@[x].0] == r@[x].1,
                forall|j: int|
                    0 <= j < i && self@.audits.contains_key(#[trigger] children@[j]) ==> exists|x: int| 0 <= x < r@.len() && r@[x].0 == children@[j],
            decreases children@.len() - i,
        {
            let c = children[i];
            match self.audits.get(&c) {
                Some(a) => {
                    let ghost before = r@;
                    r.push((c, *a));
                    proof {
                        assert forall|x: int| #![trigger r@[x]] 0 <= x < r@.len() implies exists|j: int| 0 <= j < i + 1 && #[trigger] children@[j] == r@[x].0 by {
                            if x == before.len() {
                                assert(children@[i as int] == r@[x].0);
                            } else {
                                assert(r@[x] == before[x]);
                            }
                        }
                        assert forall|x: int, y: int| 0 <= x < r@.len() && 0 <= y < r@.len() && x != y implies r@[x].0 != r@[y].0 by {
                            if x == before.len() {
                                let j = choose|j: int| 0 <= j < i && #[trigger] children@[j] == r@[y].0;
                                assert(children@[j] != children@[i as int]);
                            } else if y == before.len() {
                                let j = choose|j: int| 0 <= j < i && #[trigger] children@[j] == r@[x].0;
                                assert(children@[j] != children@[i as int]);
                            } else {
                                assert(before[x].0 != before[y].0);
                            }
                        }
                        assert forall|x: int| 0 <= x < r@.len() implies self@.audits.contains_key(#[trigger] r@[x].0) && self@.audits[r@[x].0] == r@[x].1 by {
                            if x < before.len() {
                                assert(r@[x] == before[x]);
                            }
                        }
                        assert forall|j: int|
                            0 <= j < i + 1 && self@.audits.contains_key(#[trigger] children@[j]) implies exists|x: int| 0 <= x < r@.len() && r@[x].0 == children@[j] by {
                            if j == i {
                                assert(r@[before.len() as int].0 == children@[j]);
                            } else {
                                let x = choose|x: int| 0 <= x < before.len() && before[x].0 == children@[j];
                                assert(r@[x].0 == children@[j]);
                            }
                        }
                    }
                },
                None => {
                    proof {
                        assert forall|x: int| #![trigger r@[x]] 0 <= x < r@.len() implies exists|j: int| 0 <= j < i + 1 && #[trigger] children@[j] == r@[x].0 by {
                            let j = choose|j: int| 0 <= j < i && #[trigger] children@[j] == r@[x].0;
                        }
                    }
                },
            }
            i += 1;
        }
        proof {
            assert forall|x: int| 0 <= x < r@.len() implies self@.linked_audits.contains_key((audit_id, #[trigger] r@[x].0)) by {
                let j = choose|j: int| 0 <= j < i && #[trigger] children@[j] == r@[x].0;
                assert(children@.contains(children@[j]));
            }
            assert forall|c: u32|
                #[trigger] self@.linked_audits.contains_key((audit_id, c)) && self@.audits.contains_key(c) implies exists|x: int|
                    0 <= x < r@.len() && r@[x].0 == c by {
                assert(children@.contains(c));
                let j = choose|j: int| 0 <= j < children@.len() && children@[j] == c;
                assert(self@.audits.contains_key(children@[j]));
            }
        }
        r
    }

    /// An audit.
    pub fn get_audit(&self, audit_id: u32) -> (r: Option<Audit>)
        requires
            self.wf(),
        ensures
            match r {
                Some(a) => self@.audits.contains_key(audit_id) && a == self@.audits[audit_id],
                None => !self@.audits.contains_key(audit_id),
            },
    {
        match self.audits.get(&audit_id) {
            Some(a) => Some(*a),
            None => None,
        }
    }

    /// The audit that a proposal created, with its id.
    pub fn get_audit_by_proposal(&self, proposal_id: u32) -> (r: Option<(u32, Audit)>)
        requires
            self.wf(),
        ensures
            match r {
                Some(x) => self@.audit_by_proposal.contains_key(proposal_id) && x.0 == self@.audit_by_proposal[proposal_id]
                    && x.1 == self@.audits[x.0],
                None => !self@.audit_by_proposal.contains_key(proposal_id),
            },
    {
        match self.audit_by_proposal.get(&proposal_id) {
            Some(id) => match self.audits.get(id) {
                Some(a) => Some((*id, *a)),
                None => None,
            },
            None => None,
        }
    }

    /// The evidence of an audit linked to an observation, each once.
    fn linked_evidence(&self, audit_id: u32, observation_id: u32) -> (r: Vec<(u32, &Evidence)>)
        requires
            self.wf(),
        ensures
            lists_evidence(r@, self@, audit_id, observation_id),
    {
        let ids = self.evidence_links_by_observation.keys_with_prefix(&observation_id);
        let mut r: Vec<(u32, &Evidence)> = Vec::new();
        let mut i: usize = 0;
        while i < ids.len()
            invariant
                self.wf(),
                i <= ids@.len(),
                ids@.no_duplicates(),
                forall|e: u32| ids@.contains(e) <==> self@.evidence_links_by_observation.contains_key((observation_id, e)),
                forall|x: int| #![trigger r@[x]] 0 <= x < r@.len() ==> exists|j: int| 0 <= j < i && #[trigger] ids@[j] == r@[x].0,
                forall|x: int, y: int| 0 <= x < r@.len() && 0 <= y < r@.len() && x != y ==> r@[x].0 != r@[y].0,
                forall|x: int|
                    0 <= x < r@.len() ==> self@.evidences.contains_key((audit_id, #[trigger] r@[x].0)) && self@.evidences[(audit_id, r@[x].0)] == *r@[x].1,
                forall|j: int|
                    0 <= j < i && self@.evidences.contains_key((audit_id, #[trigger] ids@[j])) ==> exists|x: int| 0 <= x < r@.len() && r@[x].0 == ids@[j],
            decreases ids@.len() - i,
        {
            let e = ids[i];
            match self.evidences.get(&(audit_id, e)) {
                Some(ev) => {
                    let ghost before = r@;
                    r.push((e, ev));
                    proof {
                        assert forall|x: int| #![trigger r@[x]] 0 <= x < r@.len() implies exists|j: int| 0 <= j < i + 1 && #[trigger] ids@[j] == r@[x].0 by {
                            if x == before.len() {
                                assert(ids@[i as int] == r@[x].0);
                            } else {
                                assert(r@[x] == before[x]);
                            }
                        }
                        assert forall|x: int, y: int| 0 <= x < r@.len() && 0 <= y < r@.len() && x != y implies r@[x].0 != r@[y].0 by {
                            if x == before.len() {
                                let j = choose|j: int| 0 <= j < i && #[trigger] ids@[j] == r@[y].0;
                                assert(ids@[j] != ids@[i as int]);
                            } else if y == before.len() {
                                let j = choose|j: int| 0 <= j < i && #[trigger] ids@[j] == r@[x].0;
                                assert(ids@[j] != ids@[i as int]);
                            } else {
                                assert(before[x].0 != before[y].0);
                            }
                        }
                        assert forall|x: int| 0 <= x < r@.len() implies self@.evidences.contains_key((audit_id, #[trigger] r@[x].0)) && self@.evidences[(audit_id, r@[x].0)] == *r@[x].1 by {
                            if x < before.len() {
                                assert(r@[x] == before[x]);
                            }
                        }
                        assert forall|j: int|
                            0 <= j < i + 1 && self@.evidences.contains_key((audit_id, #[trigger] ids@[j])) implies exists|x: int| 0 <= x < r@.len() && r@[x].0 == ids@[j] by {
                            if j == i {
                                assert(r@[before.len() as int].0 == ids@[j]);
                            } else {
                                let x = choose|x: int| 0 <= x < before.len() && before[x].0 == ids@[j];
                                assert(r@[x].0 == ids@[j]);
                            }
                        }
                    }
                },
                None => {
                    proof {
                        assert forall|x: int| #![trigger r@[x]] 0 <= x < r@.len() implies exists|j: int| 0 <= j < i + 1 && #[trigger] ids@[j] == r@[x].0 by {
                            let j = choose|j: int| 0 <= j < i && #[trigger] ids@[j] == r@[x].0;
                        }
                    }
                },
            }
            i += 1;
        }
        proof {
            assert forall|x: int| 0 <= x < r@.len() implies self@.evidence_links_by_observation.contains_key((observation_id, #[trigger] r@[x].0)) by {
                let j = choose|j: int| 0 <= j < i && #[trigger] ids@[j] == r@[x].0;
                assert(ids@.contains(ids@[j]));
            }
            assert forall|e: u32|
                #[trigger] self@.evidence_links_by_observation.contains_key((observation_id, e)) && self@.evidences.contains_key(
                    (audit_id, e),
                ) implies exists|x: int| 0 <= x < r@.len() && r@[x].0 == e by {
                assert(ids@.contains(e));
                let j = choose|j: int| 0 <= j < ids@.len() && ids@[j] == e;
                assert(self@.evidences.contains_key((audit_id, ids@[j])));
            }
        }
        r
    }

    /// An observation with the evidence linked to it.
    pub fn get_observation(&self, audit_id: u32, control_point_id: u32, observation_id: u32) -> (r: Option<
        (Observation, Vec<(u32, &Evidence)>),
    >)
        requires
            self.wf(),
        ensures
            match r {
                Some(x) => {
                    &&& self@.observations.contains_key(((audit_id, control_point_id), observation_id))
                    &&& x.0 == self@.observations[((audit_id, control_point_id), observation_id)]
                    &&& lists_evidence(x.1@, self@, audit_id, observation_id)
                },
                None => !self@.observations.contains_key(((audit_id, control_point_id), observation_id)),
            },
    {
        match self.observations.get(&((audit_id, control_point_id), observation_id)) {
            Some(o) => Some((*o, self.linked_evidence(audit_id, observation_id))),
            None => None,
        }
    }

    /// The observation that a proposal created, with the evidence linked to it.
    pub fn get_observation_by_proposal(&self, proposal_id: u32) -> (r: Option<(u32, Observation, Vec<(u32, &Evidence)>)>)
        requires
            self.wf(),
        ensures
            match r {
                Some(x) => {
                    let t = self@.observation_by_proposal[proposal_id];
                    &&& self@.observation_by_proposal.contains_key(proposal_id)
                    &&& x.0 == t.2
                    &&& x.1 == self@.observations[((t.0, t.1), t.2)]
                    &&& lists_evidence(x.2@, self@, t.0, t.2)
                },
                None => !self@.observation_by_proposal.contains_key(proposal_id),
            },
    {
        match self.observation_by_proposal.get(&proposal_id) {
            Some(t) => {
                let (audit_id, control_point_id, observation_id) = *t;
                match self.observations.get(&((audit_id, control_point_id), observation_id)) {
                    Some(o) => Some((observation_id, *o, self.linked_evidence(audit_id, observation_id))),
                    None => None,
                }
            },
            None => None,
        }
    }

    /// The observations on a control point of an audit, each once, with the evidence
    /// linked to them.
    pub fn get_observation_by_control_point(&self, audit_id: u32, control_point_id: u32) -> (r: Vec<
        (u32, Observation, Vec<(u32, &Evidence)>),
    >)
        requires
            self.wf(),
        ensures
            forall|i: int, j: int| 0 <= i < r@.len() && 0 <= j < r@.len() && i != j ==> r@[i].0 != r@[j].0,
            forall|i: int|
                0 <= i < r@.len() ==> {
                    &&& self@.observations.contains_key(((audit_id, control_point_id), #[trigger] r@[i].0))
                    &&& r@[i].1 == self@.observations[((audit_id, control_point_id), r@[i].0)]
                    &&& lists_evidence(r@[i].2@, self@, audit_id, r@[i].0)
                },
            forall|o: u32|
                #[trigger] self@.observations.contains_key(((audit_id, control_point_id), o)) ==> exists|i: int|
                    0 <= i < r@.len() && r@[i].0 == o,
    {
        let entries = self.observations.entries_with_prefix(&(audit_id, control_point_id));
        let mut r: Vec<(u32, Observation, Vec<(u32, &Evidence)>)> = Vec::new();
        let mut i: usize = 0;
        while i < entries.len()
            invariant
                self.wf(),
                i <= entries@.len(),
                r@.len() == i,
                forall|j: int|
                    0 <= j < i ==> (#[trigger] r@[j]).0 == entries@[j].0 && r@[j].1 == *entries@[j].1 && lists_evidence(
                        r@[j].2@,
                        self@,
                        audit_id,
                        entries@[j].0,
                    ),
            decreases entries@.len() - i,
        {
            let (o, observation) = entries[i];
            r.push((o, *observation, self.linked_evidence(audit_id, o)));
            i += 1;
        }
        proof {
            assert forall|x: int, y: int| 0 <= x < r@.len() && 0 <= y < r@.len() && x != y implies r@[x].0 != r@[y].0 by {
                assert(r@[x].0 == entries@[x].0 && r@[y].0 == entries@[y].0);
            }
            assert forall|x: int| 0 <= x < r@.len() implies {
                &&& self@.observations.contains_key(((audit_id, control_point_id), #[trigger] r@[x].0))
                &&& r@[x].1 == self@.observations[((audit_id, control_point_id), r@[x].0)]
                &&& lists_evidence(r@[x].2@, self@, audit_id, r@[x].0)
            } by {
                assert(r@[x].0 == entries@[x].0);
            }
            assert forall|o: u32|
                #[trigger] self@.observations.contains_key(((audit_id, control_point_id), o)) implies exists|x: int|
                    0 <= x < r@.len() && r@[x].0 == o by {
                let x = choose|x: int| 0 <= x < entries@.len() && entries@[x].0 == o;
                assert(r@[x].0 == o);
            }
        }
        r
    }

    /// Evidence of an audit.
    pub fn get_evidence(&self, audit_id: u32, evidence_id: u32) -> (r: Option<&Evidence>)
        requires
            self.wf(),
        ensures
            match r {
                Some(e) => self@.evidences.contains_key((audit_id, evidence_id)) && *e == self@.evidences[(audit_id, evidence_id)],
                None => !self@.evidences.contains_key((audit_id, evidence_id)),
            },
    {
        self.evidences.get(&(audit_id, evidence_id))
    }

    /// The evidence of an audit with the ids, each once.
    pub fn get_evidence_by_audit(&self, audit_id: u32) -> (r: Vec<(u32, &Evidence)>)
        requires
            self.wf(),
        ensures
            forall|i: int, j: int| 0 <= i < r@.len() && 0 <= j < r@.len() && i != j ==> r@[i].0 != r@[j].0,
            forall|i: int|
                0 <= i < r@.len() ==> self@.evidences.contains_key((audit_id, #[trigger] r@[i].0)) && *r@[i].1
                    == self@.evidences[(audit_id, r@[i].0)],
            forall|e: u32| #[trigger] self@.evidences.contains_key((audit_id, e)) ==> exists|i: int| 0 <= i < r@.len() && r@[i].0 == e,
    {
        self.evidences.entries_with_prefix(&audit_id)
    }

    /// The evidence that a proposal created.
    pub fn get_evidence_by_proposal(&self, proposal_id: u32) -> (r: Option<(u32, &Evidence)>)
        requires
            self.wf(),
        ensures
            match r {
                Some(x) => {
                    let k = self@.evidence_by_proposal[proposal_id];
                    &&& self@.evidence_by_proposal.contains_key(proposal_id)
                    &&& x.0 == k.1
                    &&& *x.1 == self@.evidences[k]
                },
                None => !self@.evidence_by_proposal.contains_key(proposal_id),
            },
    {
        match self.evidence_by_proposal.get(&proposal_id) {
            Some(k) => match self.evidences.get(k) {
                Some(e) => Some((k.1, e)),
                None => None,
            },
            None => None,
        }
    }

    /// The observations that evidence is linked to, each once.
    pub fn get_evidence_links_by_evidence(&self, evidence_id: u32) -> (r: Vec<u32>)
        requires
            self.wf(),
        ensures
            r@.no_duplicates(),
            forall|o: u32| r@.contains(o) <==> self@.evidence_links_by_evidence.contains_key((evidence_id, o)),
    {
        self.evidence_links_by_evidence.keys_with_prefix(&evidence_id)
    }

    /// The evidence linked to an observation, each once.
    pub fn get_evidence_links_by_observation(&self, observation_id: u32) -> (r: Vec<u32>)
        requires
            self.wf(),
        ensures
            r@.no_duplicates(),
            forall|e: u32| r@.contains(e) <==> self@.evidence_links_by_observation.contains_key((observation_id, e)),
    {
        self.evidence_links_by_observation.keys_with_prefix(&observation_id)
    }
}

} // verus!
