//! Proposals of a collective: a group of members with a threshold, whose members
//! propose calls that are either dispatched at once, with the origin of one member
//! out of all seats, or put to the vote.
use crate::collective::CollectiveOrigin;
use crate::groups::{hash_proposal, proposal_hash};
use crate::primitives::{AccountId, MemberCount};
use crate::table::Table;
use vstd::prelude::*;

verus! {

/// A collective: its members and the number of approvals its proposals need.
#[derive(Clone, Debug, PartialEq, Eq)]
pub struct CollectiveGroup {
    pub members: Vec<AccountId>,
    pub threshold: MemberCount,
}

/// The votes on a proposal of a collective.
#[derive(Clone, Debug, PartialEq, Eq)]
pub struct CollectiveVotes {
    /// The proposal's index within the collective.
    pub index: u32,
    /// The members that approved it.
    pub ayes: Vec<AccountId>,
    /// The members that rejected it.
    pub nays: Vec<AccountId>,
}

/// Why a proposal is refused.
#[derive(Clone, Copy, Debug, PartialEq, Eq, Structural)]
pub enum CollectiveError {
    /// Account is not a member
    NotMember,
    /// Duplicate proposals not allowed
    DuplicateProposal,
    /// There can only be a maximum of `max_proposals` active proposals.
    TooManyProposals,
}

/// What a proposal leads to.
#[derive(Clone, Copy, Debug, PartialEq, Eq)]
pub enum CollectiveOutcome {
    /// The call is dispatched at once with this origin; its hash is reported with the result.
    Dispatched(CollectiveOrigin, [u8; 32]),
    /// The proposal awaits votes: (proposer, collective, index).
    Proposed(AccountId, u32, u32),
}

/// The proposals of the collectives.
pub struct Collectives {
    /// The most proposals a collective may have open at once.
    pub max_proposals: u32,
    /// collective id => collective
    pub groups: Table<u32, CollectiveGroup>,
    /// collective id => hashes of its open proposals, in order
    pub proposals: Table<u32, Vec<[u8; 32]>>,
    /// proposal hash => encoded call
    pub proposal_of: Table<[u8; 32], Vec<u8>>,
    /// (collective id, proposal hash) => votes
    pub voting: Table<(u32, [u8; 32]), CollectiveVotes>,
    /// collective id => proposals made so far
    pub proposal_count: Table<u32, u32>,
}

/// Whether an account is among some members.
fn is_in(members: &Vec<AccountId>, account: AccountId) -> (r: bool)
    ensures
        r == members@.contains(account),
{
    let mut i: usize = 0;
    while i < members.len()
        invariant
            i <= members@.len(),
            forall|j: int| 0 <= j < i ==> members@[j] != account,
        decreases members@.len() - i,
    {
        if members[i] == account {
            return true;
        }
        i += 1;
    }
    false
}

impl Collectives {
    /// Every table is well formed.
    pub open spec fn wf(&self) -> bool {
        &&& self.groups.wf()
        &&& self.proposals.wf()
        &&& self.proposal_of.wf()
        &&& self.voting.wf()
        &&& self.proposal_count.wf()
    }

    /// No collectives and no proposals.
    pub fn new(max_proposals: u32) -> (s: Self)
        ensures
            s.wf(),
            s.max_proposals == max_proposals,
            s.groups@ == Map::<u32, CollectiveGroup>::empty(),
            s.proposals@ == Map::<u32, Vec<[u8; 32]>>::empty(),
            s.proposal_of@ == Map::<[u8; 32], Vec<u8>>::empty(),
            s.voting@ == Map::<(u32, [u8; 32]), CollectiveVotes>::empty(),
            s.proposal_count@ == Map::<u32, u32>::empty(),
    {
        Collectives {
            max_proposals,
            groups: Table::new(),
            proposals: Table::new(),
            proposal_of: Table::new(),
            voting: Table::new(),
            proposal_count: Table::new(),
        }
    }

    /// The members of a collective; none when it is missing.
    pub open spec fn members_of(&self, gid: u32) -> Seq<AccountId> {
        if self.groups@.contains_key(gid) {
            self.groups@[gid].members@
        } else {
            Seq::empty()
        }
    }

    /// The threshold of a collective; zero when it is missing.
    pub open spec fn threshold_of(&self, gid: u32) -> MemberCount {
        if self.groups@.contains_key(gid) {
            self.groups@[gid].threshold
        } else {
            0
        }
    }

    /// The open proposals of a collective.
    pub open spec fn open_of(&self, gid: u32) -> Seq<[u8; 32]> {
        if self.proposals@.contains_key(gid) {
            self.proposals@[gid]@
        } else {
            Seq::empty()
        }
    }

    /// The proposals a collective has made so far.
    pub open spec fn count_of(&self, gid: u32) -> u32 {
        if self.proposal_count@.contains_key(gid) {
            self.proposal_count@[gid]
        } else {
            0
        }
    }

    /// The first check that a proposal fails, if any.
    pub open spec fn propose_error(&self, sender: AccountId, gid: u32, proposal: Seq<u8>) -> Option<CollectiveError> {
        if !self.members_of(gid).contains(sender) {
            Some(CollectiveError::NotMember)
        } else if self.proposal_of@.contains_key(proposal_hash(proposal)) {
            Some(CollectiveError::DuplicateProposal)
        } else if self.threshold_of(gid) >= 2 && self.open_of(gid).len() + 1 > self.max_proposals {
            Some(CollectiveError::TooManyProposals)
        } else {
            None
        }
    }

    /// A member of a collective proposes a call. With a threshold below two the call
    /// is dispatched at once, approved by one member out of all seats; otherwise it
    /// is stored, as the next proposal of the collective, with the proposer's vote.
    pub fn propose(&mut self, sender: AccountId, gid: u32, proposal: Vec<u8>) -> (r: Result<CollectiveOutcome, CollectiveError>)
        requires
            old(self).wf(),
            old(self).count_of(gid) < u32::MAX,
        ensures
            final(self).wf(),
            final(self).max_proposals == old(self).max_proposals,
            final(self).groups@ == old(self).groups@,
            old(self).propose_error(sender, gid, proposal@) matches Some(e) ==> r == Err::<CollectiveOutcome, CollectiveError>(e)
                && final(self).proposals@ == old(self).proposals@ && final(self).proposal_of@ == old(self).proposal_of@
                && final(self).voting@ == old(self).voting@ && final(self).proposal_count@ == old(self).proposal_count@,
            old(self).propose_error(sender, gid, proposal@) is None && old(self).threshold_of(gid) < 2 ==> {
                &&& r == Ok::<CollectiveOutcome, CollectiveError>(
                    CollectiveOutcome::Dispatched(
                        CollectiveOrigin::Members(1, #[verifier::truncate] (old(self).members_of(gid).len() as u32)),
                        proposal_hash(proposal@),
                    ),
                )
                &&& final(self).proposals@ == old(self).proposals@
                &&& final(self).proposal_of@ == old(self).proposal_of@
                &&& final(self).voting@ == old(self).voting@
                &&& final(self).proposal_count@ == old(self).proposal_count@
            },
            old(self).propose_error(sender, gid, proposal@) is None && old(self).threshold_of(gid) >= 2 ==> {
                let hash = proposal_hash(proposal@);
                let index = old(self).count_of(gid);
                &&& r == Ok::<CollectiveOutcome, CollectiveError>(CollectiveOutcome::Proposed(sender, gid, index))
                &&& final(self).proposals@.dom() == old(self).proposals@.dom().insert(gid)
                &&& final(self).open_of(gid) == old(self).open_of(gid).push(hash)
                &&& forall|g: u32| g != gid && #[trigger] old(self).proposals@.contains_key(g) ==> final(self).proposals@[g]
                    == old(self).proposals@[g]
                &&& final(self).proposal_count@ == old(self).proposal_count@.insert(gid, (index + 1) as u32)
                &&& final(self).proposal_of@ == old(self).proposal_of@.insert(hash, proposal)
                &&& final(self).voting@.dom() == old(self).voting@.dom().insert((gid, hash))
                &&& forall|k: (u32, [u8; 32])|
                    k != (gid, hash) && #[trigger] old(self).voting@.contains_key(k) ==> final(self).voting@[k]
                        == old(self).voting@[k]
                &&& final(self).voting@[(gid, hash)].index == index
                &&& final(self).voting@[(gid, hash)].ayes@ == seq![sender]
                &&& final(self).voting@[(gid, hash)].nays@ == Seq::<AccountId>::empty()
            },
    {
        let (is_member, threshold, seats) = match self.groups.get(&gid) {
            Some(g) => (is_in(&g.members, sender), g.threshold, #[verifier::truncate] (g.members.len() as u32)),
            None => (false, 0, 0),
        };
        if !is_member {
            return Err(CollectiveError::NotMember);
        }
        let hash = hash_proposal(&proposal);
        if self.proposal_of.contains_key(&hash) {
            return Err(CollectiveError::DuplicateProposal);
        }
        if threshold < 2 {
            return Ok(CollectiveOutcome::Dispatched(CollectiveOrigin::Members(1, seats), hash));
        }
        let open_len: usize = match self.proposals.get(&gid) {
            Some(v) => v.len(),
            None => 0,
        };
        if open_len as u64 >= self.max_proposals as u64 {
            return Err(CollectiveError::TooManyProposals);
        }
        let mut open: Vec<[u8; 32]> = match self.proposals.remove(&gid) {
            Some(v) => v,
            None => Vec::new(),
        };
        open.push(hash);
        self.proposals.insert(gid, open);
        let index: u32 = match self.proposal_count.get(&gid) {
            Some(c) => *c,
            None => 0,
        };
        self.proposal_count.insert(gid, index + 1);
        self.proposal_of.insert(hash, proposal);
        let mut ayes: Vec<AccountId> = Vec::new();
        ayes.push(sender);
        self.voting.insert((gid, hash), CollectiveVotes { index, ayes, nays: Vec::new() });
        Ok(CollectiveOutcome::Proposed(sender, gid, index))
    }
}

} // verus!
