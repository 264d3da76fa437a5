//! Groups: weighted members, sub-groups, proposals and voting.
//!
//! A group has an account of its own. Its members propose calls, vote on them,
//! and a proposal that reaches its threshold is dispatched with an origin that
//! names the group. The library decides; dispatching a call, moving funds and
//! emitting events are done by the runtime around it, which hands the library
//! what came back.
use crate::hashing::{blake2_256, blake2_256_of, decode_u64, encode_u32, encode_u64, hash_bytes, hash_of_bytes, le_bytes};
use crate::primitives::{check_limit, check_limit_option, fits, option_fits, AccountId, Group, MemberCount, Votes};
use crate::table::{prefix_removed, Table};
use vstd::prelude::*;

verus! {

/// The origin of a call dispatched on behalf of a group.
#[derive(Clone, Copy, Debug, PartialEq, Eq, Structural)]
pub enum RawOrigin {
    /// Executed by a member: (group_id, member_account, group_account)
    ProposalExecuted(u32, AccountId, AccountId),
    /// Approved by votes: (group_id, proposal_id, yes_votes, no_votes, group_account)
    ProposalApproved(u32, u32, MemberCount, MemberCount, AccountId),
    /// Approved by veto: (group_id, proposal_id, veto_account, group_account)
    ProposalApprovedByVeto(u32, u32, AccountId, AccountId),
}

/// The origin of a call.
#[derive(Clone, Copy, Debug, PartialEq, Eq, Structural)]
pub enum Origin {
    /// Signed by an account.
    Signed(AccountId),
    /// Dispatched by the groups pallet.
    Group(RawOrigin),
    /// The root origin.
    Root,
    /// No origin.
    Unsigned,
}

/// How much a transfer moves.
#[derive(Clone, Copy, Debug, PartialEq, Eq, Structural)]
pub enum Amount {
    /// This amount.
    Exactly(u64),
    /// The currency's minimum balance plus this amount.
    MinimumBalancePlus(u64),
    /// The whole free balance of the source account.
    FreeBalance,
}

/// A transfer that a call needs: the runtime makes it once the call's checks have
/// passed, and completes the call with whether it succeeded.
#[derive(Clone, Copy, Debug, PartialEq, Eq, Structural)]
pub struct Transfer {
    pub from: AccountId,
    pub to: AccountId,
    pub amount: Amount,
}

/// What a group origin yields: (group_id, proposal_id, yes_votes, no_votes, group_account).
pub type Approval = (u32, u32, Option<MemberCount>, Option<MemberCount>, AccountId);

/// The errors of the groups pallet.
#[derive(Clone, Copy, Debug, PartialEq, Eq, Structural)]
pub enum Error {
    /// The origin is not the one the call requires.
    BadOrigin,
    /// Account is not a member
    NotMember,
    /// A group must have members
    MembersRequired,
    /// Invalid threshold provided when creating a group
    InvalidThreshold,
    /// A string exceeds the maximum allowed length
    StringLengthLimitExceeded,
    /// Failed to give requested balance to group account
    AccountCreationFailed,
    /// Duplicate proposals not allowed
    DuplicateProposal,
    /// Group must exist
    GroupMissing,
    /// Cannot remove a group that has children.
    GroupHasChildren,
    /// Proposal must exist
    ProposalMissing,
    /// Vote must exist
    VoteMissing,
    /// Mismatched index
    WrongIndex,
    /// Duplicate vote ignored
    DuplicateVote,
    /// Tried to close before sufficient votes
    VotingIncomplete,
    /// Members are already initialized!
    AlreadyInitialized,
    /// There can only be a maximum of `MaxProposals` active proposals.
    TooManyProposals,
    /// The given weight bound for the proposal was too low.
    WrongProposalWeight,
    /// The given length bound for the proposal was too low.
    WrongProposalLength,
    /// Group is a SubGroup but should be a Group
    NotGroup,
    /// Group is not a SubGroup
    NotSubGroup,
    /// Group is not the parent of SubGroup
    NotParentGroup,
    /// User is not the group account (was not correctly called via proposal)
    NotGroupAccount,
    /// A sequential id has no successor.
    NoIdAvailable,
    /// The currency refused a transfer.
    TransferFailed,
}

/// The events of the groups pallet.
#[derive(Clone, Copy, Debug, PartialEq, Eq)]
pub enum Event {
    /// (creator, group_id, anonymous_account, initial_balance)
    GroupCreated(AccountId, u32, AccountId, u64),
    /// (group_id)
    GroupUpdated(u32),
    /// (group_id, return_funds_too)
    GroupRemoved(u32, AccountId),
    /// (parent_group_id, sub_group_id, anonymous_account, initial_balance)
    SubGroupCreated(u32, u32, AccountId, u64),
    /// (parent_group_id, sub_group_id)
    SubGroupUpdated(u32, u32),
    /// (parent_group_id, sub_group_id)
    SubGroupRemoved(u32, u32),
    /// (group_id, proposal_hash, member, success)
    Executed(u32, [u8; 32], AccountId, bool),
    /// (proposer, group_id, proposal_id, threshold)
    Proposed(AccountId, u32, u32, MemberCount),
    /// (voter, group_id, proposal_id, approved)
    Voted(AccountId, u32, u32, bool),
    /// (group_id, proposal_id, yes_votes, no_votes, success)
    Approved(u32, u32, MemberCount, MemberCount, bool),
    /// (group_id, proposal_id, yes_votes, no_votes)
    Disapproved(u32, u32, MemberCount, MemberCount),
    /// (vetoer, group_id, proposal_id, success)
    ApprovedByVeto(AccountId, u32, u32, bool),
    /// (vetoer, group_id, proposal_id)
    DisapprovedByVeto(AccountId, u32, u32),
    /// (group_id, target_account, amount, success)
    GroupFundsWithdrawn(u32, AccountId, u64, bool),
    /// (group_id, sub_group_id, amount, success)
    SubGroupFundsWithdrawn(u32, u32, u64, bool),
    /// (group_id, sub_group_id, amount, success)
    SubGroupFundsDeposited(u32, u32, u64, bool),
}

/// A call that the runtime is to dispatch with an origin, and what it is known by.
#[derive(Clone, Debug, PartialEq, Eq)]
pub struct Dispatch {
    /// The origin to dispatch the call with.
    pub origin: RawOrigin,
    /// The encoded call.
    pub proposal: Vec<u8>,
    /// The hash of the encoded call.
    pub proposal_hash: [u8; 32],
}

/// What a proposal leads to.
#[derive(Clone, Debug, PartialEq, Eq)]
pub enum ProposeOutcome {
    /// The proposer alone meets the threshold: the call is dispatched now.
    Dispatched(Dispatch),
    /// The proposal awaits votes.
    Proposed(Event),
}

/// What closing a vote leads to.
#[derive(Clone, Debug, PartialEq, Eq)]
pub enum CloseOutcome {
    /// Approved: the call is dispatched; (yes_votes, no_votes) are reported with it.
    Approved(Dispatch, MemberCount, MemberCount),
    /// Disapproved.
    Disapproved(Event),
}

/// What a veto leads to.
#[derive(Clone, Debug, PartialEq, Eq)]
pub enum VetoOutcome {
    /// Approved by veto: the call is dispatched.
    Approved(Dispatch),
    /// Disapproved by veto.
    Disapproved(Event),
}

/// The storage of the groups pallet.
pub struct Groups {
    /// The maximum length of group names.
    pub name_limit: u32,
    /// The next available group id.
    pub next_group_id: u32,
    /// The next available proposal id.
    pub next_proposal_id: u32,
    /// GroupId => Group
    pub groups: Table<u32, Group>,
    /// (GroupId, AccountId) => weight
    pub group_members: Table<(u32, AccountId), MemberCount>,
    /// (GroupId, child GroupId) => ()
    pub group_children: Table<(u32, u32), ()>,
    /// (GroupId, ProposalId) => encoded call
    pub proposals: Table<(u32, u32), Vec<u8>>,
    /// (GroupId, hash of the encoded call) => ()
    pub proposal_hashes: Table<(u32, [u8; 32]), ()>,
    /// (GroupId, ProposalId) => votes
    pub voting: Table<(u32, u32), Votes>,
}

/// The weight a member gets: a weight of zero counts as one.
pub open spec fn effective_weight(w: MemberCount) -> MemberCount {
    if w == 0 {
        1
    } else {
        w
    }
}

/// The total weight and the member weights after adding members one after the
/// other; a member that is added again replaces its old weight.
pub open spec fn added_members(
    gid: u32,
    total: MemberCount,
    members: Map<(u32, AccountId), MemberCount>,
    list: Seq<(AccountId, MemberCount)>,
) -> (MemberCount, Map<(u32, AccountId), MemberCount>)
    decreases list.len(),
{
    if list.len() == 0 {
        (total, members)
    } else {
        let account = list[0].0;
        let w = effective_weight(list[0].1);
        let t = if members.contains_key((gid, account)) {
            total.wrapping_sub(members[(gid, account)])
        } else {
            total
        };
        added_members(gid, t.wrapping_add(w), members.insert((gid, account), w), list.drop_first())
    }
}

/// The total weight and the member weights after removing members one after the other.
pub open spec fn removed_members(
    gid: u32,
    total: MemberCount,
    members: Map<(u32, AccountId), MemberCount>,
    list: Seq<AccountId>,
) -> (MemberCount, Map<(u32, AccountId), MemberCount>)
    decreases list.len(),
{
    if list.len() == 0 {
        (total, members)
    } else {
        let account = list[0];
        let t = if members.contains_key((gid, account)) {
            total.wrapping_sub(members[(gid, account)])
        } else {
            total
        };
        removed_members(gid, t, members.remove((gid, account)), list.drop_first())
    }
}

/// The sum of the weights of the members of a group.
pub open spec fn member_weight(m: Map<(u32, AccountId), MemberCount>, gid: u32) -> int
    decreases m.dom().len(),
    when m.dom().finite()
{
    if exists|a: AccountId| m.contains_key((gid, a)) {
        let a = choose|a: AccountId| m.contains_key((gid, a));
        proof {
            assert(m.dom().remove((gid, a)) =~= m.remove((gid, a)).dom());
        }
        m[(gid, a)] + member_weight(m.remove((gid, a)), gid)
    } else {
        0
    }
}

/// Any member's weight may be taken out of the sum first.
proof fn lemma_member_weight_remove(m: Map<(u32, AccountId), MemberCount>, gid: u32, x: AccountId)
    requires
        m.dom().finite(),
        m.contains_key((gid, x)),
    ensures
        member_weight(m, gid) == m[(gid, x)] + member_weight(m.remove((gid, x)), gid),
    decreases m.dom().len(),
{
    let c = choose|a: AccountId| m.contains_key((gid, a));
    assert(m.dom().remove((gid, c)) =~= m.remove((gid, c)).dom());
    if c != x {
        let mc = m.remove((gid, c));
        let mx = m.remove((gid, x));
        assert(m.dom().remove((gid, x)) =~= mx.dom());
        lemma_member_weight_remove(mc, gid, x);
        lemma_member_weight_remove(mx, gid, c);
        assert(mc.remove((gid, x)) =~= mx.remove((gid, c)));
    }
}

/// The sum for a group depends only on the members of that group.
proof fn lemma_member_weight_agree(m1: Map<(u32, AccountId), MemberCount>, m2: Map<(u32, AccountId), MemberCount>, gid: u32)
    requires
        m1.dom().finite(),
        m2.dom().finite(),
        forall|a: AccountId| #[trigger] m1.contains_key((gid, a)) ==> m2.contains_key((gid, a)) && m1[(gid, a)] == m2[(gid, a)],
        forall|a: AccountId| #[trigger] m2.contains_key((gid, a)) ==> m1.contains_key((gid, a)),
    ensures
        member_weight(m1, gid) == member_weight(m2, gid),
    decreases m1.dom().len(),
{
    if exists|a: AccountId| m1.contains_key((gid, a)) {
        let a = choose|a: AccountId| m1.contains_key((gid, a));
        assert(m1.dom().remove((gid, a)) =~= m1.remove((gid, a)).dom());
        lemma_member_weight_remove(m2, gid, a);
        lemma_member_weight_agree(m1.remove((gid, a)), m2.remove((gid, a)), gid);
    } else {
        assert(!exists|a: AccountId| m2.contains_key((gid, a)));
    }
}

/// Setting a member's weight replaces its old weight in the sum.
proof fn lemma_member_weight_insert(m: Map<(u32, AccountId), MemberCount>, gid: u32, x: AccountId, w: MemberCount)
    requires
        m.dom().finite(),
    ensures
        member_weight(m.insert((gid, x), w), gid) == member_weight(m, gid) - (if m.contains_key((gid, x)) {
            m[(gid, x)] as int
        } else {
            0
        }) + w,
{
    let mi = m.insert((gid, x), w);
    lemma_member_weight_remove(mi, gid, x);
    if m.contains_key((gid, x)) {
        lemma_member_weight_remove(m, gid, x);
        assert(mi.remove((gid, x)) =~= m.remove((gid, x)));
    } else {
        assert(mi.remove((gid, x)) =~= m);
    }
}

/// A wrapping step keeps a total equal, modulo 2^32, to a sum that moves by the same amount.
proof fn lemma_wrapping_step(t: u32, s: int, d: int, t2: u32)
    requires
        t as int == s % 0x1_0000_0000,
        t2 as int == t + d || t2 as int == t + d + 0x1_0000_0000 || t2 as int == t + d - 0x1_0000_0000,
    ensures
        t2 as int == (s + d) % 0x1_0000_0000,
{
    let m: int = 0x1_0000_0000;
    vstd::arithmetic::div_mod::lemma_fundamental_div_mod(s, m);
    let q = s / m;
    assert(s == m * q + t);
    if t2 as int == t + d {
        assert(s + d == m * q + t2);
    } else if t2 as int == t + d + m {
        assert(s + d == m * (q - 1) + t2) by (nonlinear_arith)
            requires
                s == m * q + t,
                t2 == t + d + m,
        ;
    } else {
        assert(s + d == m * (q + 1) + t2) by (nonlinear_arith)
            requires
                s == m * q + t,
                t2 == t + d - m,
        ;
    }
    vstd::arithmetic::div_mod::lemma_mod_multiples_vanish(if t2 as int == t + d { q } else if t2 as int == t + d + m { q - 1 } else { q + 1 }, t2 as int, m);
    vstd::arithmetic::div_mod::lemma_small_mod(t2 as nat, m as nat);
}

/// Adding members keeps the total equal to the sum of weights modulo 2^32, leaves the
/// members of other groups alone, and adds members to this group only.
proof fn lemma_added_members(gid: u32, total: MemberCount, members: Map<(u32, AccountId), MemberCount>, list: Seq<(AccountId, MemberCount)>)
    requires
        members.dom().finite(),
        total as int == member_weight(members, gid) % 0x1_0000_0000,
    ensures
        added_members(gid, total, members, list).1.dom().finite(),
        added_members(gid, total, members, list).0 as int == member_weight(added_members(gid, total, members, list).1, gid)
            % 0x1_0000_0000,
        forall|k: (u32, AccountId)|
            k.0 != gid ==> (#[trigger] added_members(gid, total, members, list).1.contains_key(k) == members.contains_key(k)
                && (members.contains_key(k) ==> added_members(gid, total, members, list).1[k] == members[k])),
    decreases list.len(),
{
    if list.len() > 0 {
        let account = list[0].0;
        let w = effective_weight(list[0].1);
        let old_w: int = if members.contains_key((gid, account)) {
            members[(gid, account)] as int
        } else {
            0
        };
        let t = if members.contains_key((gid, account)) {
            total.wrapping_sub(members[(gid, account)])
        } else {
            total
        };
        let m2 = members.insert((gid, account), w);
        lemma_member_weight_insert(members, gid, account, w);
        lemma_wrapping_step(total, member_weight(members, gid), -old_w, t);
        lemma_wrapping_step(t, member_weight(members, gid) - old_w, w as int, t.wrapping_add(w));
        lemma_added_members(gid, t.wrapping_add(w), m2, list.drop_first());
    }
}

/// Removing members keeps the total equal to the sum of weights modulo 2^32, leaves
/// the members of other groups alone, and adds no member.
proof fn lemma_removed_members(gid: u32, total: MemberCount, members: Map<(u32, AccountId), MemberCount>, list: Seq<AccountId>)
    requires
        members.dom().finite(),
        total as int == member_weight(members, gid) % 0x1_0000_0000,
    ensures
        removed_members(gid, total, members, list).1.dom().finite(),
        removed_members(gid, total, members, list).0 as int == member_weight(removed_members(gid, total, members, list).1, gid)
            % 0x1_0000_0000,
        forall|k: (u32, AccountId)|
            #[trigger] removed_members(gid, total, members, list).1.contains_key(k) ==> members.contains_key(k),
        forall|k: (u32, AccountId)|
            k.0 != gid ==> (#[trigger] removed_members(gid, total, members, list).1.contains_key(k) == members.contains_key(k)
                && (members.contains_key(k) ==> removed_members(gid, total, members, list).1[k] == members[k])),
    decreases list.len(),
{
    if list.len() > 0 {
        let account = list[0];
        let m2 = members.remove((gid, account));
        if members.contains_key((gid, account)) {
            let t = total.wrapping_sub(members[(gid, account)]);
            lemma_member_weight_remove(members, gid, account);
            lemma_wrapping_step(total, member_weight(members, gid), -(members[(gid, account)] as int), t);
            lemma_removed_members(gid, t, m2, list.drop_first());
        } else {
            assert(m2 =~= members);
            lemma_removed_members(gid, total, m2, list.drop_first());
        }
    }
}

/// Members belong to existing groups, and each group's total vote weight is the sum
/// of its members' weights modulo 2^32.
pub open spec fn weights_ok(groups: Map<u32, Group>, m: Map<(u32, AccountId), MemberCount>) -> bool {
    &&& forall|g: u32, a: AccountId| #[trigger] m.contains_key((g, a)) ==> groups.contains_key(g)
    &&& forall|g: u32|
        #[trigger] groups.contains_key(g) ==> groups[g].total_vote_weight as int == member_weight(m, g) % 0x1_0000_0000
}

/// A change confined to one group keeps the weights adding up, when that group's
/// own total adds up afterwards (or it is gone with its members).
proof fn lemma_weights_after(
    old_groups: Map<u32, Group>,
    old_m: Map<(u32, AccountId), MemberCount>,
    new_groups: Map<u32, Group>,
    new_m: Map<(u32, AccountId), MemberCount>,
    gid: u32,
)
    requires
        weights_ok(old_groups, old_m),
        old_m.dom().finite(),
        new_m.dom().finite(),
        forall|g: u32|
            g != gid ==> (#[trigger] new_groups.contains_key(g) == old_groups.contains_key(g) && (old_groups.contains_key(g)
                ==> new_groups[g] == old_groups[g])),
        forall|k: (u32, AccountId)|
            k.0 != gid ==> (#[trigger] new_m.contains_key(k) == old_m.contains_key(k) && (old_m.contains_key(k) ==> new_m[k]
                == old_m[k])),
        new_groups.contains_key(gid) ==> new_groups[gid].total_vote_weight as int == member_weight(new_m, gid)
            % 0x1_0000_0000,
        !new_groups.contains_key(gid) ==> forall|a: AccountId| !new_m.contains_key((gid, a)),
    ensures
        weights_ok(new_groups, new_m),
{
    assert forall|g: u32, a: AccountId| #[trigger] new_m.contains_key((g, a)) implies new_groups.contains_key(g) by {
        if g != gid {
            assert(new_m.contains_key((g, a)) == old_m.contains_key((g, a)));
            assert(old_groups.contains_key(g));
            assert(new_groups.contains_key(g) == old_groups.contains_key(g));
        }
    }
    assert forall|g: u32| #[trigger] new_groups.contains_key(g) implies new_groups[g].total_vote_weight as int == member_weight(
        new_m,
        g,
    ) % 0x1_0000_0000 by {
        if g != gid {
            assert(new_groups.contains_key(g) == old_groups.contains_key(g));
            assert forall|a: AccountId| #[trigger] new_m.contains_key((g, a)) implies old_m.contains_key((g, a))
                && new_m[(g, a)] == old_m[(g, a)] by {
                assert(new_m.contains_key((g, a)) == old_m.contains_key((g, a)));
            }
            assert forall|a: AccountId| #[trigger] old_m.contains_key((g, a)) implies new_m.contains_key((g, a)) by {
                assert(new_m.contains_key((g, a)) == old_m.contains_key((g, a)));
            }
            lemma_member_weight_agree(new_m, old_m, g);
        }
    }
}

/// A group without members weighs nothing.
proof fn lemma_member_weight_none(m: Map<(u32, AccountId), MemberCount>, gid: u32)
    requires
        m.dom().finite(),
        forall|a: AccountId| !m.contains_key((gid, a)),
    ensures
        member_weight(m, gid) == 0,
{
}

/// An update of a group keeps its total equal to the sum of its members' weights and
/// touches no member of another group.
proof fn lemma_updated_group(
    group: Group,
    members: Map<(u32, AccountId), MemberCount>,
    gid: u32,
    name: Option<Vec<u8>>,
    add: Option<Vec<(AccountId, MemberCount)>>,
    remove: Option<Vec<AccountId>>,
    threshold: Option<MemberCount>,
)
    requires
        members.dom().finite(),
        group.total_vote_weight as int == member_weight(members, gid) % 0x1_0000_0000,
    ensures
        updated_group(group, members, gid, name, add, remove, threshold).1.dom().finite(),
        updated_group(group, members, gid, name, add, remove, threshold).0.total_vote_weight as int == member_weight(
            updated_group(group, members, gid, name, add, remove, threshold).1,
            gid,
        ) % 0x1_0000_0000,
        forall|k: (u32, AccountId)|
            k.0 != gid ==> (#[trigger] updated_group(group, members, gid, name, add, remove, threshold).1.contains_key(k)
                == members.contains_key(k) && (members.contains_key(k) ==> updated_group(
                group,
                members,
                gid,
                name,
                add,
                remove,
                threshold,
            ).1[k] == members[k])),
{
    let a = match add {
        Some(l) => added_members(gid, group.total_vote_weight, members, l@),
        None => (group.total_vote_weight, members),
    };
    match add {
        Some(l) => lemma_added_members(gid, group.total_vote_weight, members, l@),
        None => {},
    }
    match remove {
        Some(l) => lemma_removed_members(gid, a.0, a.1, l@),
        None => {},
    }
}

/// After adding members, an account added last with a weight has that weight (zero
/// counting as one); an account not in the list keeps what it had.
proof fn lemma_added_members_entry(
    gid: u32,
    total: MemberCount,
    m: Map<(u32, AccountId), MemberCount>,
    list: Seq<(AccountId, MemberCount)>,
    x: AccountId,
    i: int,
)
    ensures
        (0 <= i < list.len() && list[i].0 == x && forall|j: int| i < j < list.len() ==> (#[trigger] list[j]).0 != x) ==> {
            &&& added_members(gid, total, m, list).1.contains_key((gid, x))
            &&& added_members(gid, total, m, list).1[(gid, x)] == effective_weight(list[i].1)
        },
        (forall|j: int| 0 <= j < list.len() ==> (#[trigger] list[j]).0 != x) ==> {
            &&& added_members(gid, total, m, list).1.contains_key((gid, x)) == m.contains_key((gid, x))
            &&& m.contains_key((gid, x)) ==> added_members(gid, total, m, list).1[(gid, x)] == m[(gid, x)]
        },
    decreases list.len(),
{
    if list.len() > 0 {
        let account = list[0].0;
        let w = effective_weight(list[0].1);
        let t = if m.contains_key((gid, account)) {
            total.wrapping_sub(m[(gid, account)])
        } else {
            total
        };
        let rest = list.drop_first();
        let m1 = m.insert((gid, account), w);
        lemma_added_members_entry(gid, t.wrapping_add(w), m1, rest, x, i - 1);
        if 0 <= i < list.len() && list[i].0 == x && forall|j: int| i < j < list.len() ==> (#[trigger] list[j]).0 != x {
            if i == 0 {
                assert forall|j: int| 0 <= j < rest.len() implies (#[trigger] rest[j]).0 != x by {
                    assert(rest[j] == list[j + 1]);
                }
            } else {
                assert(rest[i - 1] == list[i]);
                assert forall|j: int| i - 1 < j < rest.len() implies (#[trigger] rest[j]).0 != x by {
                    assert(rest[j] == list[j + 1]);
                }
            }
        }
        if forall|j: int| 0 <= j < list.len() ==> (#[trigger] list[j]).0 != x {
            assert(list[0].0 != x);
            assert forall|j: int| 0 <= j < rest.len() implies (#[trigger] rest[j]).0 != x by {
                assert(rest[j] == list[j + 1]);
            }
        }
    }
}

/// After removing members, a listed account is no member; another keeps what it had.
proof fn lemma_removed_members_entry(
    gid: u32,
    total: MemberCount,
    m: Map<(u32, AccountId), MemberCount>,
    list: Seq<AccountId>,
    x: AccountId,
)
    ensures
        list.contains(x) ==> !removed_members(gid, total, m, list).1.contains_key((gid, x)),
        !list.contains(x) ==> {
            &&& removed_members(gid, total, m, list).1.contains_key((gid, x)) == m.contains_key((gid, x))
            &&& m.contains_key((gid, x)) ==> removed_members(gid, total, m, list).1[(gid, x)] == m[(gid, x)]
        },
    decreases list.len(),
{
    if list.len() > 0 {
        let account = list[0];
        let t = if m.contains_key((gid, account)) {
            total.wrapping_sub(m[(gid, account)])
        } else {
            total
        };
        let rest = list.drop_first();
        lemma_removed_members_entry(gid, t, m.remove((gid, account)), rest, x);
        if list.contains(x) && account != x {
            let j = choose|j: int| 0 <= j < list.len() && list[j] == x;
            assert(rest[j - 1] == x);
        }
        if !list.contains(x) {
            assert(list[0] != x);
            if rest.contains(x) {
                let j = choose|j: int| 0 <= j < rest.len() && rest[j] == x;
                assert(list[j + 1] == x);
            }
        }
        if list.contains(x) && account == x && !rest.contains(x) {
            assert(!m.remove((gid, account)).contains_key((gid, x)));
        }
    }
}

/// What an update does to a group: an account in the list to remove is no member; an
/// account added (its last entry in the list to add) and not removed has the weight
/// given, zero counting as one; any other account keeps its membership and weight.
/// The name and the threshold are replaced when given (a zero threshold is ignored);
/// the parent and the group account stay; and the total stays the sum of the
/// members' weights modulo 2^32.
pub proof fn lemma_update_group_members(
    group: Group,
    members: Map<(u32, AccountId), MemberCount>,
    gid: u32,
    name: Option<Vec<u8>>,
    add: Option<Vec<(AccountId, MemberCount)>>,
    remove: Option<Vec<AccountId>>,
    threshold: Option<MemberCount>,
    x: AccountId,
    i: int,
)
    requires
        members.dom().finite(),
        group.total_vote_weight as int == member_weight(members, gid) % 0x1_0000_0000,
    ensures
        ({
            let r = updated_group(group, members, gid, name, add, remove, threshold);
            let removed = remove matches Some(l) && l@.contains(x);
            let added_last = add matches Some(l) && 0 <= i < l@.len() && l@[i].0 == x && forall|j: int|
                i < j < l@.len() ==> (#[trigger] l@[j]).0 != x;
            let untouched = !removed && (add matches Some(l) ==> forall|j: int| 0 <= j < l@.len() ==> (#[trigger] l@[j]).0 != x);
            &&& removed ==> !r.1.contains_key((gid, x))
            &&& added_last && !removed ==> r.1.contains_key((gid, x)) && r.1[(gid, x)] == effective_weight(add->0@[i].1)
            &&& untouched ==> r.1.contains_key((gid, x)) == members.contains_key((gid, x)) && (members.contains_key((gid, x))
                ==> r.1[(gid, x)] == members[(gid, x)])
            &&& r.0.name == (match name {
                Some(n) => n,
                None => group.name,
            })
            &&& r.0.threshold == (match threshold {
                Some(t) => if t > 0 {
                    t
                } else {
                    group.threshold
                },
                None => group.threshold,
            })
            &&& r.0.parent == group.parent
            &&& r.0.anonymous_account == group.anonymous_account
            &&& r.0.total_vote_weight as int == member_weight(r.1, gid) % 0x1_0000_0000
        }),
{
    lemma_updated_group(group, members, gid, name, add, remove, threshold);
    let a = match add {
        Some(l) => added_members(gid, group.total_vote_weight, members, l@),
        None => (group.total_vote_weight, members),
    };
    match add {
        Some(l) => lemma_added_members_entry(gid, group.total_vote_weight, members, l@, x, i),
        None => {},
    }
    match remove {
        Some(l) => lemma_removed_members_entry(gid, a.0, a.1, l@, x),
        None => {},
    }
}

/// The id handed out by a counter, and the counter after it: none when it has no successor.
pub open spec fn next_id(counter: u32) -> Option<u32> {
    if counter < u32::MAX {
        Some((counter + 1) as u32)
    } else {
        None
    }
}

/// Hands out the current id and advances the counter; fails when it cannot advance.
pub fn take_next_id(counter: &mut u32) -> (r: Option<u32>)
    ensures
        next_id(*old(counter)) is None ==> r is None && *final(counter) == *old(counter),
        next_id(*old(counter)) matches Some(n) ==> r == Some(*old(counter)) && *final(counter) == n,
{
    let current = *counter;
    match current.checked_add(1) {
        Some(n) => {
            *counter = n;
            Some(current)
        },
        None => None,
    }
}

/// The bytes that name the derived account of a group: a fixed tag, the spawner,
/// the block height, the index of the extrinsic and the group id, as SCALE encodes them.
pub open spec fn anonymous_preimage(who: AccountId, height: u64, ext_index: u32, index: u32) -> Seq<u8> {
    proxy_tag() + le_bytes(who as nat, 8) + le_bytes(height as nat, 8) + le_bytes(ext_index as nat, 4)
        + le_bytes(index as nat, 4)
}

/// The bytes of "modlpy/proxy____".
pub open spec fn proxy_tag() -> Seq<u8> {
    seq![109u8, 111, 100, 108, 112, 121, 47, 112, 114, 111, 120, 121, 95, 95, 95, 95]
}

/// The derived account: the first eight bytes of the hash of the preimage, as a little-endian number.
pub open spec fn is_anonymous_account(r: AccountId, who: AccountId, height: u64, ext_index: u32, index: u32) -> bool {
    le_bytes(r as nat, 8) == blake2_256_of(anonymous_preimage(who, height, ext_index, index)).subrange(0, 8)
}

/// The account of a group spawned by `who` as group `index`, in the extrinsic
/// `ext_index` of block `height`.
pub fn anonymous_account(who: AccountId, height: u64, ext_index: u32, index: u32) -> (r: AccountId)
    ensures
        is_anonymous_account(r, who, height, ext_index, index),
{
    let mut data: Vec<u8> = Vec::new();
    let tag: [u8; 16] = [109u8, 111, 100, 108, 112, 121, 47, 112, 114, 111, 120, 121, 95, 95, 95, 95];
    let mut i: usize = 0;
    while i < 16
        invariant
            i <= 16,
            data@ == tag@.take(i as int),
        decreases 16 - i,
    {
        data.push(tag[i]);
        assert(tag@.take(i as int + 1) =~= tag@.take(i as int).push(tag@[i as int]));
        i += 1;
    }
    assert(tag@ =~= proxy_tag());
    assert(data@ =~= proxy_tag());
    let w = encode_u64(who);
    crate::hashing::append_bytes(&mut data, &w);
    let h = encode_u64(height);
    crate::hashing::append_bytes(&mut data, &h);
    let e = encode_u32(ext_index);
    crate::hashing::append_bytes(&mut data, &e);
    let x = encode_u32(index);
    crate::hashing::append_bytes(&mut data, &x);
    assert(data@ =~= anonymous_preimage(who, height, ext_index, index));
    let entropy = blake2_256(data.as_slice());
    let decoded = decode_u64(&entropy);
    assert(entropy@.len() == 32);
    match decoded {
        Some(v) => v,
        None => 0,
    }
}

/// The sum of vote weights, added in order with wrapping arithmetic.
pub open spec fn weight_sum(s: Seq<(AccountId, MemberCount)>) -> MemberCount
    decreases s.len(),
{
    if s.len() == 0 {
        0
    } else {
        weight_sum(s.drop_last()).wrapping_add(s.last().1)
    }
}

/// Adds up the weights of a list of votes.
pub fn sum_weights(s: &Vec<(AccountId, MemberCount)>) -> (r: MemberCount)
    ensures
        r == weight_sum(s@),
{
    let mut acc: MemberCount = 0;
    let mut i: usize = 0;
    while i < s.len()
        invariant
            i <= s@.len(),
            acc == weight_sum(s@.take(i as int)),
        decreases s@.len() - i,
    {
        assert(s@.take(i as int + 1).drop_last() =~= s@.take(i as int));
        acc = acc.wrapping_add(s[i].1);
        i += 1;
    }
    assert(s@.take(i as int) =~= s@);
    acc
}

/// The first position of an account in a list of votes.
pub open spec fn position_of(s: Seq<(AccountId, MemberCount)>, account: AccountId) -> Option<int> {
    if exists|i: int| 0 <= i < s.len() && s[i].0 == account {
        Some(choose|i: int| 0 <= i < s.len() && s[i].0 == account && forall|j: int| 0 <= j < i ==> s[j].0 != account)
    } else {
        None
    }
}

/// Finds the first position of an account in a list of votes.
pub fn find_voter(s: &Vec<(AccountId, MemberCount)>, account: AccountId) -> (r: Option<usize>)
    ensures
        match r {
            Some(i) => i < s@.len() && s@[i as int].0 == account && forall|j: int| 0 <= j < i ==> s@[j].0 != account,
            None => forall|j: int| 0 <= j < s@.len() ==> s@[j].0 != account,
        },
        r matches Some(i) ==> position_of(s@, account) == Some(i as int),
        r is None ==> position_of(s@, account) is None,
{
    let mut i: usize = 0;
    while i < s.len()
        invariant
            i <= s@.len(),
            forall|j: int| 0 <= j < i ==> s@[j].0 != account,
        decreases s@.len() - i,
    {
        if s[i].0 == account {
            proof {
                let p = choose|p: int| 0 <= p < s@.len() && s@[p].0 == account && forall|j: int| 0 <= j < p ==> s@[j].0 != account;
                assert(p == i) by {
                    if p < i {
                    } else if p > i {
                        assert(s@[i as int].0 == account);
                    }
                }
            }
            return Some(i);
        }
        i += 1;
    }
    None
}

/// Removes the element at a position by moving the last one into its place.
pub open spec fn swap_removed(s: Seq<(AccountId, MemberCount)>, i: int) -> Seq<(AccountId, MemberCount)> {
    s.update(i, s.last()).drop_last()
}

/// The vote lists after a vote: the new vote is appended to its side and an earlier
/// vote of the voter on the other side is swap-removed.
pub open spec fn voted_lists(
    ayes: Seq<(AccountId, MemberCount)>,
    nays: Seq<(AccountId, MemberCount)>,
    voter: AccountId,
    weight: MemberCount,
    approve: bool,
) -> (Seq<(AccountId, MemberCount)>, Seq<(AccountId, MemberCount)>) {
    if approve {
        (ayes.push((voter, weight)), match position_of(nays, voter) {
            Some(p) => swap_removed(nays, p),
            None => nays,
        })
    } else {
        (match position_of(ayes, voter) {
            Some(p) => swap_removed(ayes, p),
            None => ayes,
        }, nays.push((voter, weight)))
    }
}

/// A voter occurs at most once in a list of votes.
pub open spec fn at_most_once(s: Seq<(AccountId, MemberCount)>, voter: AccountId) -> bool {
    forall|i: int, j: int| 0 <= i < s.len() && 0 <= j < s.len() && s[i].0 == voter && s[j].0 == voter ==> i == j
}

/// A voter has a vote in a list of votes.
pub open spec fn votes_in(s: Seq<(AccountId, MemberCount)>, voter: AccountId) -> bool {
    exists|i: int| 0 <= i < s.len() && s[i].0 == voter
}

proof fn lemma_swap_removed_voter(s: Seq<(AccountId, MemberCount)>, voter: AccountId)
    requires
        at_most_once(s, voter),
    ensures
        !votes_in(
            match position_of(s, voter) {
                Some(p) => swap_removed(s, p),
                None => s,
            },
            voter,
        ),
{
    if votes_in(s, voter) {
        let i0 = choose|i: int| 0 <= i < s.len() && s[i].0 == voter;
        assert(forall|j: int| 0 <= j < i0 ==> s[j].0 != voter);
        let p = position_of(s, voter)->0;
        assert(p == i0);
        let t = swap_removed(s, p);
        assert forall|j: int| 0 <= j < t.len() implies t[j].0 != voter by {
            if j == p {
                assert(t[j] == s[s.len() - 1]);
            } else {
                assert(t[j] == s[j]);
            }
        }
    }
}

/// A vote moves the voter to the side it chose: afterwards the voter is among the
/// votes of that side and, having been on the other side at most once, no longer
/// there.
pub proof fn lemma_vote_moves_voter(
    ayes: Seq<(AccountId, MemberCount)>,
    nays: Seq<(AccountId, MemberCount)>,
    voter: AccountId,
    weight: MemberCount,
    approve: bool,
)
    requires
        approve ==> at_most_once(nays, voter),
        !approve ==> at_most_once(ayes, voter),
    ensures
        approve ==> votes_in(voted_lists(ayes, nays, voter, weight, approve).0, voter) && !votes_in(
            voted_lists(ayes, nays, voter, weight, approve).1,
            voter,
        ),
        !approve ==> votes_in(voted_lists(ayes, nays, voter, weight, approve).1, voter) && !votes_in(
            voted_lists(ayes, nays, voter, weight, approve).0,
            voter,
        ),
{
    let lists = voted_lists(ayes, nays, voter, weight, approve);
    if approve {
        lemma_swap_removed_voter(nays, voter);
        assert(lists.0[ayes.len() as int].0 == voter);
    } else {
        lemma_swap_removed_voter(ayes, voter);
        assert(lists.1[nays.len() as int].0 == voter);
    }
}

/// What `EnsureApproved` accepts: a call approved by votes or by veto.
pub open spec fn approved_origin(o: Origin) -> Option<Approval> {
    match o {
        Origin::Group(RawOrigin::ProposalApproved(g, p, yes, no, account)) => Some(
            (g, p, Some(yes), Some(no), account),
        ),
        Origin::Group(RawOrigin::ProposalApprovedByVeto(g, p, _, account)) => Some(
            (g, p, None, None, account),
        ),
        _ => None,
    }
}

/// `EnsureApproved`: the origin of a call approved by votes or by veto. It does not
/// check the group threshold; the called function is to enforce one.
pub fn ensure_approved(o: Origin) -> (r: Result<Approval, Origin>)
    ensures
        approved_origin(o) matches Some(a) ==> r == Ok::<Approval, Origin>(a),
        approved_origin(o) is None ==> r == Err::<Approval, Origin>(o),
{
    match o {
        Origin::Group(RawOrigin::ProposalApproved(g, p, yes, no, account)) => Ok(
            (g, p, Some(yes), Some(no), account),
        ),
        Origin::Group(RawOrigin::ProposalApprovedByVeto(g, p, _, account)) => Ok(
            (g, p, None, None, account),
        ),
        _ => Err(o),
    }
}

/// What `EnsureExecuted` accepts: a call executed by a member without a vote.
pub open spec fn executed_origin(o: Origin) -> Option<(u32, AccountId, AccountId)> {
    match o {
        Origin::Group(RawOrigin::ProposalExecuted(g, member, account)) => Some((g, member, account)),
        _ => None,
    }
}

/// `EnsureExecuted`: the origin of a call executed by a member: (group_id, member, group_account).
pub fn ensure_executed(o: Origin) -> (r: Result<(u32, AccountId, AccountId), Origin>)
    ensures
        executed_origin(o) matches Some(a) ==> r == Ok::<(u32, AccountId, AccountId), Origin>(a),
        executed_origin(o) is None ==> r == Err::<(u32, AccountId, AccountId), Origin>(o),
{
    match o {
        Origin::Group(RawOrigin::ProposalExecuted(g, member, account)) => Ok((g, member, account)),
        _ => Err(o),
    }
}

/// The account that signed a call, or the group account of a group-approved call.
pub open spec fn account_or_approved(o: Origin) -> Option<AccountId> {
    match o {
        Origin::Signed(a) => Some(a),
        _ => match approved_origin(o) {
            Some(a) => Some(a.4),
            None => None,
        },
    }
}

/// Resolves a signed origin or a group-approved one to the account that acts.
pub fn ensure_account_or_approved(o: Origin) -> (r: Option<AccountId>)
    ensures
        r == account_or_approved(o),
{
    match o {
        Origin::Signed(a) => Some(a),
        _ => match ensure_approved(o) {
            Ok(a) => Some(a.4),
            Err(_) => None,
        },
    }
}

/// The signer, or the group account, and the yes votes of a group-approved call.
pub open spec fn account_or_approved_votes(o: Origin) -> Option<(AccountId, Option<MemberCount>)> {
    match o {
        Origin::Signed(a) => Some((a, None)),
        _ => match approved_origin(o) {
            Some(a) => Some((a.4, a.2)),
            None => None,
        },
    }
}

/// Resolves a signed origin or a group-approved one to the account that acts and
/// the yes votes that approved the call, if it was voted on.
pub fn ensure_account_or_approved_votes(o: Origin) -> (r: Option<(AccountId, Option<MemberCount>)>)
    ensures
        r == account_or_approved_votes(o),
{
    match o {
        Origin::Signed(a) => Some((a, None)),
        _ => match ensure_approved(o) {
            Ok(a) => Some((a.4, a.2)),
            Err(_) => None,
        },
    }
}

/// The acting account and the account that pays: the signer for both, or the member
/// and the group account of a call executed by a member.
pub open spec fn account_or_executed(o: Origin) -> Option<(AccountId, AccountId)> {
    match o {
        Origin::Signed(a) => Some((a, a)),
        _ => match executed_origin(o) {
            Some(e) => Some((e.1, e.2)),
            None => None,
        },
    }
}

/// Resolves a signed origin or a member-executed one to (account, paying account).
pub fn ensure_account_or_executed(o: Origin) -> (r: Option<(AccountId, AccountId)>)
    ensures
        r == account_or_executed(o),
{
    match o {
        Origin::Signed(a) => Some((a, a)),
        _ => match ensure_executed(o) {
            Ok(e) => Some((e.1, e.2)),
            Err(_) => None,
        },
    }
}

/// The signer of a signed origin.
pub open spec fn signed(o: Origin) -> Option<AccountId> {
    match o {
        Origin::Signed(a) => Some(a),
        _ => None,
    }
}

/// What `EnsureThreshold` accepts: a call approved by votes that reach the threshold
/// of an existing group, or a call approved by veto.
pub open spec fn threshold_origin(groups: Map<u32, Group>, o: Origin) -> Option<Approval> {
    match o {
        Origin::Group(RawOrigin::ProposalApproved(g, p, yes, no, account)) => if groups.contains_key(g)
            && yes >= groups[g].threshold {
            Some((g, p, Some(yes), Some(no), account))
        } else {
            None
        },
        Origin::Group(RawOrigin::ProposalApprovedByVeto(g, p, _, account)) => Some(
            (g, p, None, None, account),
        ),
        _ => None,
    }
}

/// The signer, or the group account and the proposal of a call that reached the group threshold.
pub open spec fn account_or_threshold(groups: Map<u32, Group>, o: Origin) -> Option<(AccountId, Option<u32>)> {
    match o {
        Origin::Signed(a) => Some((a, None)),
        _ => match threshold_origin(groups, o) {
            Some(a) => Some((a.4, Some(a.1))),
            None => None,
        },
    }
}

/// The group of a call that reached a group threshold.
pub open spec fn caller_group(groups: Map<u32, Group>, o: Origin) -> u32 {
    let a = threshold_origin(groups, o)->0;
    a.0
}

/// The tables and counters of two states are equal.
pub open spec fn same_groups(a: &Groups, b: &Groups) -> bool {
    &&& a.name_limit == b.name_limit
    &&& a.next_group_id == b.next_group_id
    &&& a.next_proposal_id == b.next_proposal_id
    &&& a.groups@ == b.groups@
    &&& a.group_members@ == b.group_members@
    &&& a.group_children@ == b.group_children@
    &&& a.proposals@ == b.proposals@
    &&& a.proposal_hashes@ == b.proposal_hashes@
    &&& a.voting@ == b.voting@
}

/// Adds members to a group one after the other.
fn add_members(
    members_table: &mut Table<(u32, AccountId), MemberCount>,
    group: &mut Group,
    gid: u32,
    list: Vec<(AccountId, MemberCount)>,
)
    requires
        old(members_table).wf(),
    ensures
        final(members_table).wf(),
        (final(group).total_vote_weight, final(members_table)@) == added_members(
            gid,
            old(group).total_vote_weight,
            old(members_table)@,
            list@,
        ),
        final(group).name == old(group).name,
        final(group).threshold == old(group).threshold,
        final(group).anonymous_account == old(group).anonymous_account,
        final(group).parent == old(group).parent,
{
    let ghost total0 = group.total_vote_weight;
    let ghost map0 = members_table@;
    assert(list@.skip(0) =~= list@);
    let mut i: usize = 0;
    while i < list.len()
        invariant
            members_table.wf(),
            i <= list@.len(),
            added_members(gid, group.total_vote_weight, members_table@, list@.skip(i as int))
                == added_members(gid, total0, map0, list@),
            group.name == old(group).name,
            group.threshold == old(group).threshold,
            group.anonymous_account == old(group).anonymous_account,
            group.parent == old(group).parent,
        decreases list@.len() - i,
    {
        let account = list[i].0;
        let w = if list[i].1 == 0 {
            1
        } else {
            list[i].1
        };
        let ghost before = (group.total_vote_weight, members_table@);
        proof {
            assert(list@.skip(i as int).drop_first() =~= list@.skip(i as int + 1));
            assert(list@.skip(i as int)[0] == list@[i as int]);
        }
        match members_table.get(&(gid, account)) {
            Some(old_weight) => {
                group.total_vote_weight = group.total_vote_weight.wrapping_sub(*old_weight);
            },
            None => {},
        }
        group.total_vote_weight = group.total_vote_weight.wrapping_add(w);
        members_table.insert((gid, account), w);
        i += 1;
    }
    proof {
        assert(list@.skip(i as int) =~= Seq::<(AccountId, MemberCount)>::empty());
    }
}

/// Removes members from a group one after the other.
fn remove_members(
    members_table: &mut Table<(u32, AccountId), MemberCount>,
    group: &mut Group,
    gid: u32,
    list: Vec<AccountId>,
)
    requires
        old(members_table).wf(),
    ensures
        final(members_table).wf(),
        (final(group).total_vote_weight, final(members_table)@) == removed_members(
            gid,
            old(group).total_vote_weight,
            old(members_table)@,
            list@,
        ),
        final(group).name == old(group).name,
        final(group).threshold == old(group).threshold,
        final(group).anonymous_account == old(group).anonymous_account,
        final(group).parent == old(group).parent,
{
    let ghost total0 = group.total_vote_weight;
    let ghost map0 = members_table@;
    assert(list@.skip(0) =~= list@);
    let mut i: usize = 0;
    while i < list.len()
        invariant
            members_table.wf(),
            i <= list@.len(),
            removed_members(gid, group.total_vote_weight, members_table@, list@.skip(i as int))
                == removed_members(gid, total0, map0, list@),
            group.name == old(group).name,
            group.threshold == old(group).threshold,
            group.anonymous_account == old(group).anonymous_account,
            group.parent == old(group).parent,
        decreases list@.len() - i,
    {
        let account = list[i];
        proof {
            assert(list@.skip(i as int).drop_first() =~= list@.skip(i as int + 1));
            assert(list@.skip(i as int)[0] == list@[i as int]);
        }
        match members_table.get(&(gid, account)) {
            Some(old_weight) => {
                group.total_vote_weight = group.total_vote_weight.wrapping_sub(*old_weight);
            },
            None => {},
        }
        members_table.remove(&(gid, account));
        i += 1;
    }
    proof {
        assert(list@.skip(i as int) =~= Seq::<AccountId>::empty());
    }
}

/// A group and its member weights after an update: members are added, then
/// removed, then the name is replaced, then the threshold if the new one is not zero.
pub open spec fn updated_group(
    group: Group,
    members: Map<(u32, AccountId), MemberCount>,
    gid: u32,
    name: Option<Vec<u8>>,
    add: Option<Vec<(AccountId, MemberCount)>>,
    remove: Option<Vec<AccountId>>,
    threshold: Option<MemberCount>,
) -> (Group, Map<(u32, AccountId), MemberCount>) {
    let a = match add {
        Some(l) => added_members(gid, group.total_vote_weight, members, l@),
        None => (group.total_vote_weight, members),
    };
    let b = match remove {
        Some(l) => removed_members(gid, a.0, a.1, l@),
        None => a,
    };
    let new_name = match name {
        Some(n) => n,
        None => group.name,
    };
    let new_threshold = match threshold {
        Some(t) => if t > 0 {
            t
        } else {
            group.threshold
        },
        None => group.threshold,
    };
    (Group { name: new_name, total_vote_weight: b.0, threshold: new_threshold, ..group }, b.1)
}

/// Applies an update to a group and its members.
fn apply_update(
    members_table: &mut Table<(u32, AccountId), MemberCount>,
    group: &mut Group,
    gid: u32,
    name: Option<Vec<u8>>,
    add: Option<Vec<(AccountId, MemberCount)>>,
    remove: Option<Vec<AccountId>>,
    threshold: Option<MemberCount>,
)
    requires
        old(members_table).wf(),
    ensures
        final(members_table).wf(),
        (*final(group), final(members_table)@) == updated_group(
            *old(group),
            old(members_table)@,
            gid,
            name,
            add,
            remove,
            threshold,
        ),
{
    match add {
        Some(l) => add_members(members_table, group, gid, l),
        None => {},
    }
    match remove {
        Some(l) => remove_members(members_table, group, gid, l),
        None => {},
    }
    match name {
        Some(n) => {
            group.name = n;
        },
        None => {},
    }
    match threshold {
        Some(t) => {
            if t > 0 {
                group.threshold = t;
            }
        },
        None => {},
    }
}

impl Groups {
    /// Every table is well formed.
    pub open spec fn wf(&self) -> bool {
        &&& self.groups.wf()
        &&& self.group_members.wf()
        &&& self.group_children.wf()
        &&& self.proposals.wf()
        &&& self.proposal_hashes.wf()
        &&& self.voting.wf()
        &&& forall|gid: u32| #[trigger] self.groups@.contains_key(gid) ==> gid < self.next_group_id
        &&& forall|gid: u32, pid: u32| #[trigger] self.voting@.contains_key((gid, pid)) ==> pid < self.next_proposal_id
        &&& self.children_match_parents()
        &&& self.weights_add_up()
    }

    /// Members belong to existing groups, and the total vote weight of each group is
    /// the sum of its members' weights (modulo 2^32, as the total wraps).
    pub open spec fn weights_add_up(&self) -> bool {
        weights_ok(self.groups@, self.group_members@)
    }

    /// The children index lists exactly the groups that have a parent, under that parent.
    pub open spec fn children_match_parents(&self) -> bool {
        &&& forall|p: u32, c: u32|
            #[trigger] self.group_children@.contains_key((p, c)) ==> self.groups@.contains_key(c)
                && self.groups@[c].parent == Some(p)
        &&& forall|c: u32|
            #[trigger] self.groups@.contains_key(c) && self.groups@[c].parent is Some
                ==> self.group_children@.contains_key((self.groups@[c].parent->0, c))
    }

    /// Empty storage; ids start at one.
    pub fn new(name_limit: u32) -> (s: Self)
        ensures
            s.wf(),
            s.name_limit == name_limit,
            s.next_group_id == 1,
            s.next_proposal_id == 1,
            s.groups@ == Map::<u32, Group>::empty(),
            s.group_members@ == Map::<(u32, AccountId), MemberCount>::empty(),
            s.group_children@ == Map::<(u32, u32), ()>::empty(),
            s.proposals@ == Map::<(u32, u32), Vec<u8>>::empty(),
            s.proposal_hashes@ == Map::<(u32, [u8; 32]), ()>::empty(),
            s.voting@ == Map::<(u32, u32), Votes>::empty(),
    {
        Groups {
            name_limit,
            next_group_id: 1,
            next_proposal_id: 1,
            groups: Table::new(),
            group_members: Table::new(),
            group_children: Table::new(),
            proposals: Table::new(),
            proposal_hashes: Table::new(),
            voting: Table::new(),
        }
    }

    /// `EnsureThreshold`: the origin of a call approved by votes that reach the
    /// threshold of the group, or approved by veto.
    pub fn ensure_threshold(&self, o: Origin) -> (r: Result<Approval, Origin>)
        requires
            self.wf(),
        ensures
            threshold_origin(self.groups@, o) matches Some(a) ==> r == Ok::<Approval, Origin>(a),
            threshold_origin(self.groups@, o) is None ==> r == Err::<Approval, Origin>(o),
    {
        match o {
            Origin::Group(RawOrigin::ProposalApproved(g, p, yes, no, account)) => {
                match self.groups.get(&g) {
                    Some(group) => {
                        if yes >= group.threshold {
                            Ok((g, p, Some(yes), Some(no), account))
                        } else {
                            Err(o)
                        }
                    },
                    None => Err(o),
                }
            },
            Origin::Group(RawOrigin::ProposalApprovedByVeto(g, p, _, account)) => Ok(
                (g, p, None, None, account),
            ),
            _ => Err(o),
        }
    }

    /// Resolves a signed origin, or one that reached a group threshold, to the acting
    /// account and the proposal that approved the call.
    pub fn ensure_account_or_threshold(&self, o: Origin) -> (r: Option<(AccountId, Option<u32>)>)
        requires
            self.wf(),
        ensures
            r == account_or_threshold(self.groups@, o),
    {
        match o {
            Origin::Signed(a) => Some((a, None)),
            _ => match self.ensure_threshold(o) {
                Ok(a) => Some((a.4, Some(a.1))),
                Err(_) => None,
            },
        }
    }

    /// The first check that `create_group` fails, if any.
    pub open spec fn create_group_error(
        &self,
        origin: Origin,
        name: Seq<u8>,
        member_count: nat,
        threshold: MemberCount,
        transfer_ok: bool,
    ) -> Option<Error> {
        if signed(origin) is None {
            Some(Error::BadOrigin)
        } else if member_count == 0 {
            Some(Error::MembersRequired)
        } else if threshold == 0 {
            Some(Error::InvalidThreshold)
        } else if !fits(name, self.name_limit) {
            Some(Error::StringLengthLimitExceeded)
        } else if next_id(self.next_group_id) is None {
            Some(Error::NoIdAvailable)
        } else if !transfer_ok {
            Some(Error::AccountCreationFailed)
        } else {
            None
        }
    }

    /// Creates a group with the signer's derived account for it.
    ///
    /// `transfer_ok` is whether the currency moved the minimum balance plus
    /// `initial_balance` from the signer to the account of the new group, which is
    /// `anonymous_account(signer, height, ext_index, self.next_group_id)`: the transfer
    /// that `create_group_transfer` hands out once the checks pass.
    /// Members listed twice keep their last weight; a weight of zero counts as one.
    pub fn create_group(
        &mut self,
        origin: Origin,
        name: Vec<u8>,
        members: Vec<(AccountId, MemberCount)>,
        threshold: MemberCount,
        initial_balance: u64,
        height: u64,
        ext_index: u32,
        transfer_ok: bool,
    ) -> (r: Result<Event, Error>)
        requires
            old(self).wf(),
        ensures
            final(self).wf(),
            old(self).create_group_error(origin, name@, members@.len(), threshold, transfer_ok) matches Some(e)
                ==> r == Err::<Event, Error>(e) && same_groups(final(self), old(self)),
            old(self).create_group_error(origin, name@, members@.len(), threshold, transfer_ok) is None ==> {
                let gid = old(self).next_group_id;
                let sender = signed(origin)->0;
                let added = added_members(gid, 0, old(self).group_members@, members@);
                let account = final(self).groups@[gid].anonymous_account;
                &&& is_anonymous_account(account, sender, height, ext_index, gid)
                &&& final(self).groups@ == old(self).groups@.insert(
                    gid,
                    (Group { name: name, total_vote_weight: added.0, threshold, anonymous_account: account, parent: None }),
                )
                &&& final(self).group_members@ == added.1
                &&& final(self).next_group_id == gid + 1
                &&& r == Ok::<Event, Error>(Event::GroupCreated(sender, gid, account, initial_balance))
                &&& !old(self).groups@.contains_key(gid)
                &&& final(self).next_proposal_id == old(self).next_proposal_id
                &&& final(self).name_limit == old(self).name_limit
                &&& final(self).group_children@ == old(self).group_children@
                &&& final(self).proposals@ == old(self).proposals@
                &&& final(self).proposal_hashes@ == old(self).proposal_hashes@
                &&& final(self).voting@ == old(self).voting@
            },
    {
        let sender = match origin {
            Origin::Signed(a) => a,
            _ => return Err(Error::BadOrigin),
        };
        if members.len() == 0 {
            return Err(Error::MembersRequired);
        }
        if threshold == 0 {
            return Err(Error::InvalidThreshold);
        }
        if !check_limit(&name, self.name_limit) {
            return Err(Error::StringLengthLimitExceeded);
        }
        if self.next_group_id == u32::MAX {
            return Err(Error::NoIdAvailable);
        }
        if !transfer_ok {
            return Err(Error::AccountCreationFailed);
        }
        let group_id = self.next_group_id;
        self.next_group_id = group_id + 1;
        let account = anonymous_account(sender, height, ext_index, group_id);
        let mut group = Group {
            name,
            total_vote_weight: 0,
            threshold,
            anonymous_account: account,
            parent: None,
        };
        let ghost m0 = self.group_members@;
        proof {
            self.group_members.lemma_finite();
            assert forall|a: AccountId| !m0.contains_key((group_id, a)) by {
                if m0.contains_key((group_id, a)) {
                    assert(old(self).groups@.contains_key(group_id));
                }
            }
            lemma_member_weight_none(m0, group_id);
            lemma_added_members(group_id, 0, m0, members@);
        }
        add_members(&mut self.group_members, &mut group, group_id, members);
        self.groups.insert(group_id, group);
        proof {
            self.group_members.lemma_finite();
            lemma_weights_after(old(self).groups@, m0, self.groups@, self.group_members@, group_id);
        }
        Ok(Event::GroupCreated(sender, group_id, account, initial_balance))
    }
}

impl Groups {
    /// The first check that `update_group` fails, if any.
    pub open spec fn update_group_error(&self, origin: Origin, name: Option<Vec<u8>>) -> Option<Error> {
        match threshold_origin(self.groups@, origin) {
            None => Some(Error::BadOrigin),
            Some(a) => if !option_fits(name, self.name_limit) {
                Some(Error::StringLengthLimitExceeded)
            } else if !self.groups@.contains_key(a.0) {
                Some(Error::GroupMissing)
            } else {
                None
            },
        }
    }

    /// A group updates itself, by a proposal that reached its threshold.
    pub fn update_group(
        &mut self,
        origin: Origin,
        name: Option<Vec<u8>>,
        add_members: Option<Vec<(AccountId, MemberCount)>>,
        remove_members: Option<Vec<AccountId>>,
        threshold: Option<MemberCount>,
    ) -> (r: Result<Event, Error>)
        requires
            old(self).wf(),
        ensures
            final(self).wf(),
            old(self).update_group_error(origin, name) matches Some(e) ==> r == Err::<Event, Error>(e)
                && same_groups(final(self), old(self)),
            old(self).update_group_error(origin, name) is None ==> {
                let gid = caller_group(old(self).groups@, origin);
                let u = updated_group(
                    old(self).groups@[gid],
                    old(self).group_members@,
                    gid,
                    name,
                    add_members,
                    remove_members,
                    threshold,
                );
                &&& r == Ok::<Event, Error>(Event::GroupUpdated(gid))
                &&& final(self).groups@ == old(self).groups@.insert(gid, u.0)
                &&& final(self).group_members@ == u.1
                &&& final(self).next_group_id == old(self).next_group_id
                &&& final(self).next_proposal_id == old(self).next_proposal_id
                &&& final(self).name_limit == old(self).name_limit
                &&& final(self).group_children@ == old(self).group_children@
                &&& final(self).proposals@ == old(self).proposals@
                &&& final(self).proposal_hashes@ == old(self).proposal_hashes@
                &&& final(self).voting@ == old(self).voting@
            },
    {
        let gid = match self.ensure_threshold(origin) {
            Ok(a) => a.0,
            Err(_) => return Err(Error::BadOrigin),
        };
        if !check_limit_option(&name, self.name_limit) {
            return Err(Error::StringLengthLimitExceeded);
        }
        if !self.groups.contains_key(&gid) {
            return Err(Error::GroupMissing);
        }
        let mut group = match self.groups.remove(&gid) {
            Some(g) => g,
            None => return Err(Error::GroupMissing),
        };
        let ghost m0 = self.group_members@;
        let ghost g0 = group;
        proof {
            self.group_members.lemma_finite();
            assert(old(self).groups@.contains_key(gid));
            lemma_updated_group(g0, m0, gid, name, add_members, remove_members, threshold);
        }
        apply_update(&mut self.group_members, &mut group, gid, name, add_members, remove_members, threshold);
        self.groups.insert(gid, group);
        proof {
            self.group_members.lemma_finite();
            lemma_weights_after(old(self).groups@, m0, self.groups@, self.group_members@, gid);
        }
        Ok(Event::GroupUpdated(gid))
    }

    /// The first check that `create_sub_group` fails, if any.
    pub open spec fn create_sub_group_error(
        &self,
        origin: Origin,
        name: Seq<u8>,
        member_count: nat,
        threshold: MemberCount,
        transfer_ok: bool,
    ) -> Option<Error> {
        if threshold_origin(self.groups@, origin) is None {
            Some(Error::BadOrigin)
        } else if member_count == 0 {
            Some(Error::MembersRequired)
        } else if threshold == 0 {
            Some(Error::InvalidThreshold)
        } else if !fits(name, self.name_limit) {
            Some(Error::StringLengthLimitExceeded)
        } else if next_id(self.next_group_id) is None {
            Some(Error::NoIdAvailable)
        } else if !transfer_ok {
            Some(Error::AccountCreationFailed)
        } else {
            None
        }
    }

    /// A group creates a sub-group, by a proposal that reached its threshold.
    ///
    /// `transfer_ok` is whether the currency moved the minimum balance plus
    /// `initial_balance` from the group account to the account of the sub-group,
    /// `anonymous_account(group_account, height, ext_index, self.next_group_id)`: the
    /// transfer that `create_sub_group_transfer` hands out once the checks pass.
    pub fn create_sub_group(
        &mut self,
        origin: Origin,
        name: Vec<u8>,
        members: Vec<(AccountId, MemberCount)>,
        threshold: MemberCount,
        initial_balance: u64,
        height: u64,
        ext_index: u32,
        transfer_ok: bool,
    ) -> (r: Result<Event, Error>)
        requires
            old(self).wf(),
        ensures
            final(self).wf(),
            old(self).create_sub_group_error(origin, name@, members@.len(), threshold, transfer_ok) matches Some(e)
                ==> r == Err::<Event, Error>(e) && same_groups(final(self), old(self)),
            old(self).create_sub_group_error(origin, name@, members@.len(), threshold, transfer_ok) is None ==> {
                let caller = threshold_origin(old(self).groups@, origin)->0;
                let gid = old(self).next_group_id;
                let added = added_members(gid, 0, old(self).group_members@, members@);
                let account = final(self).groups@[gid].anonymous_account;
                &&& is_anonymous_account(account, caller.4, height, ext_index, gid)
                &&& final(self).groups@ == old(self).groups@.insert(
                    gid,
                    (Group { name: name, total_vote_weight: added.0, threshold, anonymous_account: account, parent: Some(caller.0) }),
                )
                &&& final(self).group_members@ == added.1
                &&& final(self).group_children@ == old(self).group_children@.insert((caller.0, gid), ())
                &&& final(self).next_group_id == gid + 1
                &&& r == Ok::<Event, Error>(Event::SubGroupCreated(caller.0, gid, account, initial_balance))
                &&& !old(self).groups@.contains_key(gid)
                &&& final(self).next_proposal_id == old(self).next_proposal_id
                &&& final(self).name_limit == old(self).name_limit
                &&& final(self).proposals@ == old(self).proposals@
                &&& final(self).proposal_hashes@ == old(self).proposal_hashes@
                &&& final(self).voting@ == old(self).voting@
            },
    {
        let caller = match self.ensure_threshold(origin) {
            Ok(a) => a,
            Err(_) => return Err(Error::BadOrigin),
        };
        if members.len() == 0 {
            return Err(Error::MembersRequired);
        }
        if threshold == 0 {
            return Err(Error::InvalidThreshold);
        }
        if !check_limit(&name, self.name_limit) {
            return Err(Error::StringLengthLimitExceeded);
        }
        if self.next_group_id == u32::MAX {
            return Err(Error::NoIdAvailable);
        }
        if !transfer_ok {
            return Err(Error::AccountCreationFailed);
        }
        let sub_group_id = self.next_group_id;
        self.next_group_id = sub_group_id + 1;
        let account = anonymous_account(caller.4, height, ext_index, sub_group_id);
        let mut sub_group = Group {
            name,
            total_vote_weight: 0,
            threshold,
            anonymous_account: account,
            parent: Some(caller.0),
        };
        let ghost m0 = self.group_members@;
        proof {
            self.group_members.lemma_finite();
            assert forall|a: AccountId| !m0.contains_key((sub_group_id, a)) by {
                if m0.contains_key((sub_group_id, a)) {
                    assert(old(self).groups@.contains_key(sub_group_id));
                }
            }
            lemma_member_weight_none(m0, sub_group_id);
            lemma_added_members(sub_group_id, 0, m0, members@);
        }
        add_members(&mut self.group_members, &mut sub_group, sub_group_id, members);
        self.groups.insert(sub_group_id, sub_group);
        proof {
            self.group_members.lemma_finite();
            lemma_weights_after(old(self).groups@, m0, self.groups@, self.group_members@, sub_group_id);
        }
        self.group_children.insert((caller.0, sub_group_id), ());
        Ok(Event::SubGroupCreated(caller.0, sub_group_id, account, initial_balance))
    }

    /// The first check that `update_sub_group` fails, if any.
    pub open spec fn update_sub_group_error(
        &self,
        origin: Origin,
        sub_group_id: u32,
        name: Option<Vec<u8>>,
    ) -> Option<Error> {
        match threshold_origin(self.groups@, origin) {
            None => Some(Error::BadOrigin),
            Some(a) => if !option_fits(name, self.name_limit) {
                Some(Error::StringLengthLimitExceeded)
            } else if !self.groups@.contains_key(sub_group_id) {
                Some(Error::GroupMissing)
            } else if self.groups@[sub_group_id].parent != Some(a.0) {
                Some(Error::NotParentGroup)
            } else {
                None
            },
        }
    }

    /// A group updates one of its sub-groups, by a proposal that reached its threshold.
    pub fn update_sub_group(
        &mut self,
        origin: Origin,
        sub_group_id: u32,
        name: Option<Vec<u8>>,
        add_members: Option<Vec<(AccountId, MemberCount)>>,
        remove_members: Option<Vec<AccountId>>,
        threshold: Option<MemberCount>,
    ) -> (r: Result<Event, Error>)
        requires
            old(self).wf(),
        ensures
            final(self).wf(),
            old(self).update_sub_group_error(origin, sub_group_id, name) matches Some(e) ==> r == Err::<
                Event,
                Error,
            >(e) && same_groups(final(self), old(self)),
            old(self).update_sub_group_error(origin, sub_group_id, name) is None ==> {
                let caller = caller_group(old(self).groups@, origin);
                let u = updated_group(
                    old(self).groups@[sub_group_id],
                    old(self).group_members@,
                    sub_group_id,
                    name,
                    add_members,
                    remove_members,
                    threshold,
                );
                &&& r == Ok::<Event, Error>(Event::SubGroupUpdated(caller, sub_group_id))
                &&& final(self).groups@ == old(self).groups@.insert(sub_group_id, u.0)
                &&& final(self).group_members@ == u.1
                &&& final(self).next_group_id == old(self).next_group_id
                &&& final(self).next_proposal_id == old(self).next_proposal_id
                &&& final(self).name_limit == old(self).name_limit
                &&& final(self).group_children@ == old(self).group_children@
                &&& final(self).proposals@ == old(self).proposals@
                &&& final(self).proposal_hashes@ == old(self).proposal_hashes@
                &&& final(self).voting@ == old(self).voting@
            },
    {
        let caller = match self.ensure_threshold(origin) {
            Ok(a) => a.0,
            Err(_) => return Err(Error::BadOrigin),
        };
        if !check_limit_option(&name, self.name_limit) {
            return Err(Error::StringLengthLimitExceeded);
        }
        match self.groups.get(&sub_group_id) {
            Some(g) => {
                if g.parent != Some(caller) {
                    return Err(Error::NotParentGroup);
                }
            },
            None => return Err(Error::GroupMissing),
        }
        let mut group = match self.groups.remove(&sub_group_id) {
            Some(g) => g,
            None => return Err(Error::GroupMissing),
        };
        let ghost m0 = self.group_members@;
        let ghost g0 = group;
        proof {
            self.group_members.lemma_finite();
            assert(old(self).groups@.contains_key(sub_group_id));
            lemma_updated_group(g0, m0, sub_group_id, name, add_members, remove_members, threshold);
        }
        apply_update(
            &mut self.group_members,
            &mut group,
            sub_group_id,
            name,
            add_members,
            remove_members,
            threshold,
        );
        self.groups.insert(sub_group_id, group);
        proof {
            self.group_members.lemma_finite();
            lemma_weights_after(old(self).groups@, m0, self.groups@, self.group_members@, sub_group_id);
        }
        Ok(Event::SubGroupUpdated(caller, sub_group_id))
    }

    /// Whether a group has sub-groups.
    pub open spec fn has_children(&self, gid: u32) -> bool {
        exists|c: u32| self.group_children@.contains_key((gid, c))
    }

    /// The first check that `remove_group` fails, if any.
    pub open spec fn remove_group_error(
        &self,
        origin: Origin,
        group_id: u32,
        return_funds_too: AccountId,
        transfer_ok: bool,
    ) -> Option<Error> {
        match threshold_origin(self.groups@, origin) {
            None => Some(Error::BadOrigin),
            Some(a) => if a.0 != group_id {
                Some(Error::NotGroupAccount)
            } else if !self.groups@.contains_key(group_id) {
                Some(Error::GroupMissing)
            } else if self.groups@[group_id].parent is Some {
                Some(Error::NotGroup)
            } else if !self.group_members@.contains_key((group_id, return_funds_too)) {
                Some(Error::NotMember)
            } else if self.has_children(group_id) {
                Some(Error::GroupHasChildren)
            } else if !transfer_ok {
                Some(Error::TransferFailed)
            } else {
                None
            },
        }
    }

    /// A group removes itself, by a proposal that reached its threshold.
    ///
    /// `transfer_ok` is whether the currency moved the whole free balance of the
    /// group account to `return_funds_too`, a member of the group: the transfer that
    /// `remove_group_transfer` hands out once the checks pass.
    pub fn remove_group(
        &mut self,
        origin: Origin,
        group_id: u32,
        return_funds_too: AccountId,
        transfer_ok: bool,
    ) -> (r: Result<Event, Error>)
        requires
            old(self).wf(),
        ensures
            final(self).wf(),
            old(self).remove_group_error(origin, group_id, return_funds_too, transfer_ok) matches Some(e)
                ==> r == Err::<Event, Error>(e) && same_groups(final(self), old(self)),
            old(self).remove_group_error(origin, group_id, return_funds_too, transfer_ok) is None ==> {
                &&& r == Ok::<Event, Error>(Event::GroupRemoved(group_id, return_funds_too))
                &&& final(self).groups@ == old(self).groups@.remove(group_id)
                &&& final(self).group_members@ == prefix_removed(old(self).group_members@, group_id)
                &&& final(self).proposals@ == prefix_removed(old(self).proposals@, group_id)
                &&& final(self).proposal_hashes@ == prefix_removed(old(self).proposal_hashes@, group_id)
                &&& final(self).group_children@ == old(self).group_children@
                &&& final(self).voting@ == old(self).voting@
                &&& final(self).next_group_id == old(self).next_group_id
                &&& final(self).next_proposal_id == old(self).next_proposal_id
                &&& final(self).name_limit == old(self).name_limit
            },
    {
        let caller = match self.ensure_threshold(origin) {
            Ok(a) => a.0,
            Err(_) => return Err(Error::BadOrigin),
        };
        if caller != group_id {
            return Err(Error::NotGroupAccount);
        }
        match self.groups.get(&group_id) {
            Some(g) => {
                if g.parent.is_some() {
                    return Err(Error::NotGroup);
                }
            },
            None => return Err(Error::GroupMissing),
        }
        if !self.group_members.contains_key(&(group_id, return_funds_too)) {
            return Err(Error::NotMember);
        }
        if self.group_children.has_prefix(&group_id) {
            return Err(Error::GroupHasChildren);
        }
        if !transfer_ok {
            return Err(Error::TransferFailed);
        }
        self.groups.remove(&group_id);
        self.group_members.remove_prefix(&group_id);
        self.proposals.remove_prefix(&group_id);
        self.proposal_hashes.remove_prefix(&group_id);
        proof {
            old(self).group_members.lemma_finite();
            self.group_members.lemma_finite();
            lemma_weights_after(old(self).groups@, old(self).group_members@, self.groups@, self.group_members@, group_id);
        }
        Ok(Event::GroupRemoved(group_id, return_funds_too))
    }

    /// The first check that `remove_sub_group` fails, if any.
    pub open spec fn remove_sub_group_error(&self, origin: Origin, sub_group_id: u32, transfer_ok: bool) -> Option<
        Error,
    > {
        match threshold_origin(self.groups@, origin) {
            None => Some(Error::BadOrigin),
            Some(a) => if !self.groups@.contains_key(sub_group_id) {
                Some(Error::GroupMissing)
            } else if self.groups@[sub_group_id].parent is None {
                Some(Error::NotSubGroup)
            } else if self.groups@[sub_group_id].parent != Some(a.0) {
                Some(Error::NotParentGroup)
            } else if self.has_children(sub_group_id) {
                Some(Error::GroupHasChildren)
            } else if !self.groups@.contains_key(a.0) {
                Some(Error::GroupMissing)
            } else if !transfer_ok {
                Some(Error::TransferFailed)
            } else {
                None
            },
        }
    }

    /// A group removes one of its sub-groups, by a proposal that reached its threshold.
    ///
    /// `transfer_ok` is whether the currency moved the whole free balance of the
    /// sub-group account to the account of the group: the transfer that
    /// `remove_sub_group_transfer` hands out once the checks pass.
    pub fn remove_sub_group(&mut self, origin: Origin, sub_group_id: u32, transfer_ok: bool) -> (r: Result<
        Event,
        Error,
    >)
        requires
            old(self).wf(),
        ensures
            final(self).wf(),
            old(self).remove_sub_group_error(origin, sub_group_id, transfer_ok) matches Some(e) ==> r == Err::<
                Event,
                Error,
            >(e) && same_groups(final(self), old(self)),
            old(self).remove_sub_group_error(origin, sub_group_id, transfer_ok) is None ==> {
                let caller = caller_group(old(self).groups@, origin);
                &&& r == Ok::<Event, Error>(Event::SubGroupRemoved(caller, sub_group_id))
                &&& final(self).groups@ == old(self).groups@.remove(sub_group_id)
                &&& final(self).group_children@ == old(self).group_children@.remove((caller, sub_group_id))
                &&& final(self).group_members@ == prefix_removed(old(self).group_members@, sub_group_id)
                &&& final(self).proposals@ == prefix_removed(old(self).proposals@, sub_group_id)
                &&& final(self).proposal_hashes@ == prefix_removed(old(self).proposal_hashes@, sub_group_id)
                &&& final(self).voting@ == old(self).voting@
                &&& final(self).next_group_id == old(self).next_group_id
                &&& final(self).next_proposal_id == old(self).next_proposal_id
                &&& final(self).name_limit == old(self).name_limit
            },
    {
        let caller = match self.ensure_threshold(origin) {
            Ok(a) => a.0,
            Err(_) => return Err(Error::BadOrigin),
        };
        match self.groups.get(&sub_group_id) {
            Some(g) => {
                match g.parent {
                    None => return Err(Error::NotSubGroup),
                    Some(p) => {
                        if p != caller {
                            return Err(Error::NotParentGroup);
                        }
                    },
                }
            },
            None => return Err(Error::GroupMissing),
        }
        if self.group_children.has_prefix(&sub_group_id) {
            return Err(Error::GroupHasChildren);
        }
        if !self.groups.contains_key(&caller) {
            return Err(Error::GroupMissing);
        }
        if !transfer_ok {
            return Err(Error::TransferFailed);
        }
        self.groups.remove(&sub_group_id);
        self.group_children.remove(&(caller, sub_group_id));
        self.group_members.remove_prefix(&sub_group_id);
        self.proposals.remove_prefix(&sub_group_id);
        self.proposal_hashes.remove_prefix(&sub_group_id);
        proof {
            old(self).group_members.lemma_finite();
            self.group_members.lemma_finite();
            lemma_weights_after(old(self).groups@, old(self).group_members@, self.groups@, self.group_members@, sub_group_id);
        }
        Ok(Event::SubGroupRemoved(caller, sub_group_id))
    }
}

/// The hash that a proposal is known by: the Blake2-256 hash of the encoded call.
pub open spec fn proposal_hash(p: Seq<u8>) -> [u8; 32] {
    hash_of_bytes(p)
}

/// Hashes an encoded call.
pub fn hash_proposal(p: &Vec<u8>) -> (h: [u8; 32])
    ensures
        h == proposal_hash(p@),
{
    hash_bytes(p.as_slice())
}

/// The weight left once the no votes are taken off, floored at zero.
pub open spec fn weight_left(total: MemberCount, no: MemberCount) -> MemberCount {
    if total >= no {
        (total - no) as MemberCount
    } else {
        0
    }
}

impl Groups {
    /// The first check that `execute` fails, if any.
    pub open spec fn execute_error(&self, origin: Origin, group_id: u32, proposal: Seq<u8>, length_bound: u32) -> Option<
        Error,
    > {
        match signed(origin) {
            None => Some(Error::BadOrigin),
            Some(sender) => if !self.groups@.contains_key(group_id) {
                Some(Error::GroupMissing)
            } else if !self.group_members@.contains_key((group_id, sender)) {
                Some(Error::NotMember)
            } else if proposal.len() > length_bound {
                Some(Error::WrongProposalLength)
            } else {
                None
            },
        }
    }

    /// A member executes a call on behalf of the group, without a vote. The runtime
    /// dispatches the call with the origin handed back and reports `Executed`.
    pub fn execute(&self, origin: Origin, group_id: u32, proposal: Vec<u8>, length_bound: u32) -> (r: Result<
        Dispatch,
        Error,
    >)
        requires
            self.wf(),
        ensures
            self.execute_error(origin, group_id, proposal@, length_bound) matches Some(e) ==> r == Err::<
                Dispatch,
                Error,
            >(e),
            self.execute_error(origin, group_id, proposal@, length_bound) is None ==> r == Ok::<
                Dispatch,
                Error,
            >(
                (Dispatch {
                    origin: RawOrigin::ProposalExecuted(
                        group_id,
                        signed(origin)->0,
                        self.groups@[group_id].anonymous_account,
                    ),
                    proposal: proposal,
                    proposal_hash: proposal_hash(proposal@),
                }),
            ),
    {
        let sender = match origin {
            Origin::Signed(a) => a,
            _ => return Err(Error::BadOrigin),
        };
        let account = match self.groups.get(&group_id) {
            Some(g) => g.anonymous_account,
            None => return Err(Error::GroupMissing),
        };
        if !self.group_members.contains_key(&(group_id, sender)) {
            return Err(Error::NotMember);
        }
        if proposal.len() as u64 > length_bound as u64 {
            return Err(Error::WrongProposalLength);
        }
        let proposal_hash = hash_proposal(&proposal);
        Ok(
            Dispatch {
                origin: RawOrigin::ProposalExecuted(group_id, sender, account),
                proposal,
                proposal_hash,
            },
        )
    }

    /// The first check that `propose` fails, if any.
    pub open spec fn propose_error(&self, origin: Origin, group_id: u32, proposal: Seq<u8>, length_bound: u32) -> Option<
        Error,
    > {
        match signed(origin) {
            None => Some(Error::BadOrigin),
            Some(sender) => if !self.groups@.contains_key(group_id) {
                Some(Error::GroupMissing)
            } else if !self.group_members@.contains_key((group_id, sender)) {
                Some(Error::NotMember)
            } else if self.proposal_hashes@.contains_key((group_id, proposal_hash(proposal))) {
                Some(Error::DuplicateProposal)
            } else if proposal.len() > length_bound {
                Some(Error::WrongProposalLength)
            } else if next_id(self.next_proposal_id) is None {
                Some(Error::NoIdAvailable)
            } else {
                None
            },
        }
    }

    /// A member proposes a call on behalf of the group. With a threshold of one, or
    /// one equal to the proposer's own weight, the call is dispatched at once,
    /// approved by the proposer alone; otherwise it is stored with the proposer's
    /// vote for it.
    pub fn propose(
        &mut self,
        origin: Origin,
        group_id: u32,
        proposal: Vec<u8>,
        threshold: MemberCount,
        length_bound: u32,
    ) -> (r: Result<ProposeOutcome, Error>)
        requires
            old(self).wf(),
        ensures
            final(self).wf(),
            old(self).propose_error(origin, group_id, proposal@, length_bound) matches Some(e) ==> r == Err::<
                ProposeOutcome,
                Error,
            >(e) && same_groups(final(self), old(self)),
            old(self).propose_error(origin, group_id, proposal@, length_bound) is None ==> {
                let sender = signed(origin)->0;
                let pid = old(self).next_proposal_id;
                let weight = old(self).group_members@[(group_id, sender)];
                let group = old(self).groups@[group_id];
                let hash = proposal_hash(proposal@);
                &&& final(self).next_proposal_id == pid + 1
                &&& final(self).next_group_id == old(self).next_group_id
                &&& final(self).name_limit == old(self).name_limit
                &&& final(self).groups@ == old(self).groups@
                &&& final(self).group_members@ == old(self).group_members@
                &&& final(self).group_children@ == old(self).group_children@
                &&& (threshold == weight || threshold == 1) ==> {
                    &&& r == Ok::<ProposeOutcome, Error>(
                        ProposeOutcome::Dispatched(
                            (Dispatch {
                                origin: RawOrigin::ProposalApproved(group_id, pid, weight, 0, group.anonymous_account),
                                proposal: proposal,
                                proposal_hash: hash,
                            }),
                        ),
                    )
                    &&& final(self).proposals@ == old(self).proposals@
                    &&& final(self).proposal_hashes@ == old(self).proposal_hashes@
                    &&& final(self).voting@ == old(self).voting@
                }
                &&& !(threshold == weight || threshold == 1) ==> {
                    &&& r == Ok::<ProposeOutcome, Error>(
                        ProposeOutcome::Proposed(Event::Proposed(sender, group_id, pid, threshold)),
                    )
                    &&& final(self).proposals@ == old(self).proposals@.insert((group_id, pid), proposal)
                    &&& final(self).proposal_hashes@ == old(self).proposal_hashes@.insert((group_id, hash), ())
                    &&& final(self).voting@.dom() == old(self).voting@.dom().insert((group_id, pid))
                    &&& forall|g: u32| !old(self).voting@.contains_key((g, pid))
                    &&& forall|k: (u32, u32)|
                        k != (group_id, pid) && #[trigger] old(self).voting@.contains_key(k) ==> final(self).voting@[k]
                            == old(self).voting@[k]
                    &&& final(self).voting@[(group_id, pid)].threshold == threshold
                    &&& final(self).voting@[(group_id, pid)].total_vote_weight == group.total_vote_weight
                    &&& final(self).voting@[(group_id, pid)].ayes@ == seq![(sender, weight)]
                    &&& final(self).voting@[(group_id, pid)].nays@ == Seq::<(AccountId, MemberCount)>::empty()
                    &&& final(self).voting@[(group_id, pid)].veto is None
                }
            },
    {
        let sender = match origin {
            Origin::Signed(a) => a,
            _ => return Err(Error::BadOrigin),
        };
        let (account, total_vote_weight) = match self.groups.get(&group_id) {
            Some(g) => (g.anonymous_account, g.total_vote_weight),
            None => return Err(Error::GroupMissing),
        };
        let weight = match self.group_members.get(&(group_id, sender)) {
            Some(w) => *w,
            None => return Err(Error::NotMember),
        };
        let hash = hash_proposal(&proposal);
        if self.proposal_hashes.contains_key(&(group_id, hash)) {
            return Err(Error::DuplicateProposal);
        }
        if proposal.len() as u64 > length_bound as u64 {
            return Err(Error::WrongProposalLength);
        }
        let proposal_id = match take_next_id(&mut self.next_proposal_id) {
            Some(id) => id,
            None => return Err(Error::NoIdAvailable),
        };
        if threshold == weight || threshold == 1 {
            Ok(
                ProposeOutcome::Dispatched(
                    Dispatch {
                        origin: RawOrigin::ProposalApproved(group_id, proposal_id, weight, 0, account),
                        proposal,
                        proposal_hash: hash,
                    },
                ),
            )
        } else {
            self.proposal_hashes.insert((group_id, hash), ());
            self.proposals.insert((group_id, proposal_id), proposal);
            let mut ayes: Vec<(AccountId, MemberCount)> = Vec::new();
            ayes.push((sender, weight));
            let votes = Votes { threshold, total_vote_weight, ayes, nays: Vec::new(), veto: None };
            self.voting.insert((group_id, proposal_id), votes);
            Ok(ProposeOutcome::Proposed(Event::Proposed(sender, group_id, proposal_id, threshold)))
        }
    }
}

/// Two vote records are the same but for their lists of voters.
pub open spec fn same_but_lists(a: Votes, b: Votes) -> bool {
    a.threshold == b.threshold && a.total_vote_weight == b.total_vote_weight && a.veto == b.veto
}

impl Groups {
    /// The first check that `vote` fails, if any.
    pub open spec fn vote_error(&self, origin: Origin, group_id: u32, proposal_id: u32, approve: bool) -> Option<
        Error,
    > {
        match signed(origin) {
            None => Some(Error::BadOrigin),
            Some(sender) => if !self.groups@.contains_key(group_id) {
                Some(Error::GroupMissing)
            } else if !self.group_members@.contains_key((group_id, sender)) {
                Some(Error::NotMember)
            } else if !self.voting@.contains_key((group_id, proposal_id)) {
                Some(Error::VoteMissing)
            } else if approve && position_of(self.voting@[(group_id, proposal_id)].ayes@, sender) is Some {
                Some(Error::DuplicateVote)
            } else if !approve && position_of(self.voting@[(group_id, proposal_id)].nays@, sender) is Some {
                Some(Error::DuplicateVote)
            } else {
                None
            },
        }
    }

    /// A member votes on a proposal of the group, with its current weight. A member
    /// may change its vote; voting the same way twice is refused. Besides the event,
    /// the result says whether the fee is waived: it is for a member's first vote on
    /// the proposal, and a changed vote pays.
    pub fn vote(&mut self, origin: Origin, group_id: u32, proposal_id: u32, approve: bool) -> (r: Result<
        (Event, bool),
        Error,
    >)
        requires
            old(self).wf(),
        ensures
            final(self).wf(),
            old(self).vote_error(origin, group_id, proposal_id, approve) matches Some(e) ==> r == Err::<
                (Event, bool),
                Error,
            >(e) && same_groups(final(self), old(self)),
            old(self).vote_error(origin, group_id, proposal_id, approve) is None ==> {
                let sender = signed(origin)->0;
                let key = (group_id, proposal_id);
                let before = old(self).voting@[key];
                let after = final(self).voting@[key];
                let lists = voted_lists(
                    before.ayes@,
                    before.nays@,
                    sender,
                    old(self).group_members@[(group_id, sender)],
                    approve,
                );
                &&& r == Ok::<(Event, bool), Error>(
                    (
                        Event::Voted(sender, group_id, proposal_id, approve),
                        !votes_in(before.ayes@, sender) && !votes_in(before.nays@, sender),
                    ),
                )
                &&& final(self).voting@.dom() == old(self).voting@.dom()
                &&& forall|k: (u32, u32)|
                    k != key && #[trigger] old(self).voting@.contains_key(k) ==> final(self).voting@[k]
                        == old(self).voting@[k]
                &&& same_but_lists(after, before)
                &&& after.ayes@ == lists.0
                &&& after.nays@ == lists.1
                &&& final(self).groups@ == old(self).groups@
                &&& final(self).group_members@ == old(self).group_members@
                &&& final(self).group_children@ == old(self).group_children@
                &&& final(self).proposals@ == old(self).proposals@
                &&& final(self).proposal_hashes@ == old(self).proposal_hashes@
                &&& final(self).next_group_id == old(self).next_group_id
                &&& final(self).next_proposal_id == old(self).next_proposal_id
                &&& final(self).name_limit == old(self).name_limit
            },
    {
        let sender = match origin {
            Origin::Signed(a) => a,
            _ => return Err(Error::BadOrigin),
        };
        if !self.groups.contains_key(&group_id) {
            return Err(Error::GroupMissing);
        }
        let weight = match self.group_members.get(&(group_id, sender)) {
            Some(w) => *w,
            None => return Err(Error::NotMember),
        };
        let key = (group_id, proposal_id);
        let (position_yes, position_no) = match self.voting.get(&key) {
            Some(v) => (find_voter(&v.ayes, sender), find_voter(&v.nays, sender)),
            None => return Err(Error::VoteMissing),
        };
        let first_vote = position_yes.is_none() && position_no.is_none();
        if approve && position_yes.is_some() {
            return Err(Error::DuplicateVote);
        }
        if !approve && position_no.is_some() {
            return Err(Error::DuplicateVote);
        }
        let mut votes = match self.voting.remove(&key) {
            Some(v) => v,
            None => return Err(Error::VoteMissing),
        };
        if approve {
            votes.ayes.push((sender, weight));
            match position_no {
                Some(p) => {
                    votes.nays.swap_remove(p);
                },
                None => {},
            }
        } else {
            votes.nays.push((sender, weight));
            match position_yes {
                Some(p) => {
                    votes.ayes.swap_remove(p);
                },
                None => {},
            }
        }
        self.voting.insert(key, votes);
        proof {
            assert(self.voting@.dom() =~= old(self).voting@.dom());
        }
        Ok((Event::Voted(sender, group_id, proposal_id, approve), first_vote))
    }

    /// The first check that `close` fails, if any.
    pub open spec fn close_error(
        &self,
        origin: Origin,
        group_id: u32,
        proposal_id: u32,
        proposal_weight_bound: u64,
        length_bound: u32,
        dispatch_weight: u64,
    ) -> Option<Error> {
        let key = (group_id, proposal_id);
        if signed(origin) is None {
            Some(Error::BadOrigin)
        } else if !self.groups@.contains_key(group_id) {
            Some(Error::GroupMissing)
        } else if !self.voting@.contains_key(key) {
            Some(Error::VoteMissing)
        } else if !self.proposals@.contains_key(key) {
            Some(Error::ProposalMissing)
        } else {
            let v = self.voting@[key];
            let yes = weight_sum(v.ayes@);
            let no = weight_sum(v.nays@);
            if yes >= v.threshold {
                if self.proposals@[key]@.len() > length_bound {
                    Some(Error::WrongProposalLength)
                } else if dispatch_weight > proposal_weight_bound {
                    Some(Error::WrongProposalWeight)
                } else {
                    None
                }
            } else if weight_left(v.total_vote_weight, no) < v.threshold {
                None
            } else {
                Some(Error::VotingIncomplete)
            }
        }
    }

    /// Anyone closes a vote that has met its threshold, or that can no longer meet it.
    /// Approval wins when both hold. `dispatch_weight` is the weight of the stored call.
    ///
    /// The proposal and its vote record leave storage either way. An approved call
    /// is handed back for the runtime to dispatch and to report `Approved` with.
    pub fn close(
        &mut self,
        origin: Origin,
        group_id: u32,
        proposal_id: u32,
        proposal_weight_bound: u64,
        length_bound: u32,
        dispatch_weight: u64,
    ) -> (r: Result<CloseOutcome, Error>)
        requires
            old(self).wf(),
        ensures
            final(self).wf(),
            old(self).close_error(origin, group_id, proposal_id, proposal_weight_bound, length_bound, dispatch_weight) matches Some(e)
                ==> r == Err::<CloseOutcome, Error>(e) && same_groups(final(self), old(self)),
            old(self).close_error(origin, group_id, proposal_id, proposal_weight_bound, length_bound, dispatch_weight) is None ==> {
                let key = (group_id, proposal_id);
                let v = old(self).voting@[key];
                let yes = weight_sum(v.ayes@);
                let no = weight_sum(v.nays@);
                let proposal = old(self).proposals@[key];
                let hash = proposal_hash(proposal@);
                &&& final(self).proposals@ == old(self).proposals@.remove(key)
                &&& final(self).proposal_hashes@ == old(self).proposal_hashes@.remove((group_id, hash))
                &&& yes >= v.threshold ==> r == Ok::<CloseOutcome, Error>(
                    CloseOutcome::Approved(
                        (Dispatch {
                            origin: RawOrigin::ProposalApproved(
                                group_id,
                                proposal_id,
                                yes,
                                no,
                                old(self).groups@[group_id].anonymous_account,
                            ),
                            proposal: proposal,
                            proposal_hash: hash,
                        }),
                        yes,
                        no,
                    ),
                )
                &&& yes < v.threshold ==> r == Ok::<CloseOutcome, Error>(
                    CloseOutcome::Disapproved(Event::Disapproved(group_id, proposal_id, yes, no)),
                )
                &&& final(self).voting@ == old(self).voting@.remove(key)
                &&& final(self).groups@ == old(self).groups@
                &&& final(self).group_members@ == old(self).group_members@
                &&& final(self).group_children@ == old(self).group_children@
                &&& final(self).next_group_id == old(self).next_group_id
                &&& final(self).next_proposal_id == old(self).next_proposal_id
                &&& final(self).name_limit == old(self).name_limit
            },
    {
        match origin {
            Origin::Signed(_) => {},
            _ => return Err(Error::BadOrigin),
        }
        let account = match self.groups.get(&group_id) {
            Some(g) => g.anonymous_account,
            None => return Err(Error::GroupMissing),
        };
        let key = (group_id, proposal_id);
        let (yes, no, threshold, total) = match self.voting.get(&key) {
            Some(v) => (sum_weights(&v.ayes), sum_weights(&v.nays), v.threshold, v.total_vote_weight),
            None => return Err(Error::VoteMissing),
        };
        let approved = yes >= threshold;
        let disapproved = total.saturating_sub(no) < threshold;
        let len = match self.proposals.get(&key) {
            Some(p) => p.len(),
            None => return Err(Error::ProposalMissing),
        };
        if approved {
            if len as u64 > length_bound as u64 {
                return Err(Error::WrongProposalLength);
            }
            if dispatch_weight > proposal_weight_bound {
                return Err(Error::WrongProposalWeight);
            }
        } else if !disapproved {
            return Err(Error::VotingIncomplete);
        }
        let proposal = match self.proposals.remove(&key) {
            Some(p) => p,
            None => return Err(Error::ProposalMissing),
        };
        let hash = hash_proposal(&proposal);
        self.proposal_hashes.remove(&(group_id, hash));
        self.voting.remove(&key);
        if approved {
            Ok(
                CloseOutcome::Approved(
                    Dispatch {
                        origin: RawOrigin::ProposalApproved(group_id, proposal_id, yes, no, account),
                        proposal,
                        proposal_hash: hash,
                    },
                    yes,
                    no,
                ),
            )
        } else {
            Ok(CloseOutcome::Disapproved(Event::Disapproved(group_id, proposal_id, yes, no)))
        }
    }
}

impl Groups {
    /// The first check that `veto` fails, if any.
    pub open spec fn veto_error(
        &self,
        origin: Origin,
        group_id: u32,
        proposal_id: u32,
        approve: bool,
        proposal_weight_bound: u64,
        length_bound: u32,
        dispatch_weight: u64,
    ) -> Option<Error> {
        match signed(origin) {
            None => Some(Error::BadOrigin),
            Some(sender) => if !self.groups@.contains_key(group_id) {
                Some(Error::GroupMissing)
            } else if self.groups@[group_id].parent is None {
                Some(Error::NotSubGroup)
            } else if !self.group_members@.contains_key((self.groups@[group_id].parent->0, sender)) {
                Some(Error::NotParentGroup)
            } else if !self.proposals@.contains_key((group_id, proposal_id)) {
                Some(Error::ProposalMissing)
            } else if approve && self.proposals@[(group_id, proposal_id)]@.len() > length_bound {
                Some(Error::WrongProposalLength)
            } else if approve && dispatch_weight > proposal_weight_bound {
                Some(Error::WrongProposalWeight)
            } else {
                None
            },
        }
    }

    /// A member of the parent group decides a proposal of a sub-group by veto,
    /// overriding its votes. The veto is recorded on the vote, if there is one, and
    /// the proposal leaves storage. An approved call is handed back for the runtime
    /// to dispatch and to report `ApprovedByVeto` with.
    pub fn veto(
        &mut self,
        origin: Origin,
        group_id: u32,
        proposal_id: u32,
        approve: bool,
        proposal_weight_bound: u64,
        length_bound: u32,
        dispatch_weight: u64,
    ) -> (r: Result<VetoOutcome, Error>)
        requires
            old(self).wf(),
        ensures
            final(self).wf(),
            old(self).veto_error(
                origin,
                group_id,
                proposal_id,
                approve,
                proposal_weight_bound,
                length_bound,
                dispatch_weight,
            ) matches Some(e) ==> r == Err::<VetoOutcome, Error>(e) && same_groups(final(self), old(self)),
            old(self).veto_error(
                origin,
                group_id,
                proposal_id,
                approve,
                proposal_weight_bound,
                length_bound,
                dispatch_weight,
            ) is None ==> {
                let sender = signed(origin)->0;
                let key = (group_id, proposal_id);
                let proposal = old(self).proposals@[key];
                let hash = proposal_hash(proposal@);
                &&& final(self).proposals@ == old(self).proposals@.remove(key)
                &&& final(self).proposal_hashes@ == old(self).proposal_hashes@.remove((group_id, hash))
                &&& final(self).voting@.dom() == old(self).voting@.dom()
                &&& forall|k: (u32, u32)|
                    k != key && #[trigger] old(self).voting@.contains_key(k) ==> final(self).voting@[k]
                        == old(self).voting@[k]
                &&& old(self).voting@.contains_key(key) ==> {
                    let before = old(self).voting@[key];
                    let after = final(self).voting@[key];
                    &&& after.veto == Some(approve)
                    &&& after.threshold == before.threshold
                    &&& after.total_vote_weight == before.total_vote_weight
                    &&& after.ayes == before.ayes
                    &&& after.nays == before.nays
                }
                &&& approve ==> r == Ok::<VetoOutcome, Error>(
                    VetoOutcome::Approved(
                        (Dispatch {
                            origin: RawOrigin::ProposalApprovedByVeto(
                                group_id,
                                proposal_id,
                                sender,
                                old(self).groups@[group_id].anonymous_account,
                            ),
                            proposal: proposal,
                            proposal_hash: hash,
                        }),
                    ),
                )
                &&& !approve ==> r == Ok::<VetoOutcome, Error>(
                    VetoOutcome::Disapproved(Event::DisapprovedByVeto(sender, group_id, proposal_id)),
                )
                &&& final(self).groups@ == old(self).groups@
                &&& final(self).group_members@ == old(self).group_members@
                &&& final(self).group_children@ == old(self).group_children@
                &&& final(self).next_group_id == old(self).next_group_id
                &&& final(self).next_proposal_id == old(self).next_proposal_id
                &&& final(self).name_limit == old(self).name_limit
            },
    {
        let sender = match origin {
            Origin::Signed(a) => a,
            _ => return Err(Error::BadOrigin),
        };
        let (account, parent) = match self.groups.get(&group_id) {
            Some(g) => (g.anonymous_account, g.parent),
            None => return Err(Error::GroupMissing),
        };
        let parent_group_id = match parent {
            Some(p) => p,
            None => return Err(Error::NotSubGroup),
        };
        if !self.group_members.contains_key(&(parent_group_id, sender)) {
            return Err(Error::NotParentGroup);
        }
        let key = (group_id, proposal_id);
        let len = match self.proposals.get(&key) {
            Some(p) => p.len(),
            None => return Err(Error::ProposalMissing),
        };
        if approve {
            if len as u64 > length_bound as u64 {
                return Err(Error::WrongProposalLength);
            }
            if dispatch_weight > proposal_weight_bound {
                return Err(Error::WrongProposalWeight);
            }
        }
        match self.voting.remove(&key) {
            Some(v) => {
                let mut votes = v;
                votes.veto = Some(approve);
                self.voting.insert(key, votes);
            },
            None => {},
        }
        proof {
            assert(self.voting@.dom() =~= old(self).voting@.dom());
        }
        let proposal = match self.proposals.remove(&key) {
            Some(p) => p,
            None => return Err(Error::ProposalMissing),
        };
        let hash = hash_proposal(&proposal);
        self.proposal_hashes.remove(&(group_id, hash));
        if approve {
            Ok(
                VetoOutcome::Approved(
                    Dispatch {
                        origin: RawOrigin::ProposalApprovedByVeto(group_id, proposal_id, sender, account),
                        proposal,
                        proposal_hash: hash,
                    },
                ),
            )
        } else {
            Ok(VetoOutcome::Disapproved(Event::DisapprovedByVeto(sender, group_id, proposal_id)))
        }
    }

    /// The first check that `withdraw_funds_group` fails, if any.
    pub open spec fn withdraw_funds_group_error(&self, origin: Origin) -> Option<Error> {
        match threshold_origin(self.groups@, origin) {
            None => Some(Error::BadOrigin),
            Some(a) => if !self.groups@.contains_key(a.0) {
                Some(Error::GroupMissing)
            } else if self.groups@[a.0].parent is Some {
                Some(Error::NotGroup)
            } else {
                None
            },
        }
    }

    /// A group pays out of its account, by a proposal that reached its threshold.
    /// `transfer_ok` is whether the currency moved `amount` from the group account of
    /// the origin to `target_account` (the transfer that `withdraw_funds_group_transfer`
    /// hands out); the outcome is reported, not refused.
    pub fn withdraw_funds_group(&self, origin: Origin, target_account: AccountId, amount: u64, transfer_ok: bool) -> (r:
        Result<Event, Error>)
        requires
            self.wf(),
        ensures
            self.withdraw_funds_group_error(origin) matches Some(e) ==> r == Err::<Event, Error>(e),
            self.withdraw_funds_group_error(origin) is None ==> r == Ok::<Event, Error>(
                Event::GroupFundsWithdrawn(
                    caller_group(self.groups@, origin),
                    target_account,
                    amount,
                    transfer_ok,
                ),
            ),
    {
        let group_id = match self.ensure_threshold(origin) {
            Ok(a) => a.0,
            Err(_) => return Err(Error::BadOrigin),
        };
        match self.groups.get(&group_id) {
            Some(g) => {
                if g.parent.is_some() {
                    return Err(Error::NotGroup);
                }
            },
            None => return Err(Error::GroupMissing),
        }
        Ok(Event::GroupFundsWithdrawn(group_id, target_account, amount, transfer_ok))
    }

    /// The first check that a transfer between a group and its sub-group fails, if any.
    pub open spec fn sub_group_funds_error(&self, origin: Origin, sub_group_id: u32) -> Option<Error> {
        match threshold_origin(self.groups@, origin) {
            None => Some(Error::BadOrigin),
            Some(a) => if !self.groups@.contains_key(sub_group_id) {
                Some(Error::GroupMissing)
            } else if self.groups@[sub_group_id].parent is None {
                Some(Error::NotSubGroup)
            } else if self.groups@[sub_group_id].parent != Some(a.0) {
                Some(Error::NotParentGroup)
            } else {
                None
            },
        }
    }

    fn check_sub_group_funds(&self, origin: Origin, sub_group_id: u32) -> (r: Result<u32, Error>)
        requires
            self.wf(),
        ensures
            self.sub_group_funds_error(origin, sub_group_id) matches Some(e) ==> r == Err::<u32, Error>(e),
            self.sub_group_funds_error(origin, sub_group_id) is None ==> r == Ok::<u32, Error>(
                caller_group(self.groups@, origin),
            ),
    {
        let caller = match self.ensure_threshold(origin) {
            Ok(a) => a.0,
            Err(_) => return Err(Error::BadOrigin),
        };
        match self.groups.get(&sub_group_id) {
            Some(g) => match g.parent {
                None => Err(Error::NotSubGroup),
                Some(p) => if p != caller {
                    Err(Error::NotParentGroup)
                } else {
                    Ok(p)
                },
            },
            None => Err(Error::GroupMissing),
        }
    }

    /// A group takes funds from the account of one of its sub-groups into the group
    /// account of the origin. `transfer_ok` is whether the currency made the transfer
    /// that `withdraw_funds_sub_group_transfer` hands out.
    pub fn withdraw_funds_sub_group(&self, origin: Origin, sub_group_id: u32, amount: u64, transfer_ok: bool) -> (r:
        Result<Event, Error>)
        requires
            self.wf(),
        ensures
            self.sub_group_funds_error(origin, sub_group_id) matches Some(e) ==> r == Err::<Event, Error>(e),
            self.sub_group_funds_error(origin, sub_group_id) is None ==> r == Ok::<Event, Error>(
                Event::SubGroupFundsWithdrawn(
                    caller_group(self.groups@, origin),
                    sub_group_id,
                    amount,
                    transfer_ok,
                ),
            ),
    {
        let parent = self.check_sub_group_funds(origin, sub_group_id)?;
        Ok(Event::SubGroupFundsWithdrawn(parent, sub_group_id, amount, transfer_ok))
    }

    /// A group sends funds from the group account of the origin to one of its
    /// sub-groups. `transfer_ok` is whether the currency made the transfer that
    /// `send_funds_to_sub_group_transfer` hands out.
    pub fn send_funds_to_sub_group(&self, origin: Origin, sub_group_id: u32, amount: u64, transfer_ok: bool) -> (r:
        Result<Event, Error>)
        requires
            self.wf(),
        ensures
            self.sub_group_funds_error(origin, sub_group_id) matches Some(e) ==> r == Err::<Event, Error>(e),
            self.sub_group_funds_error(origin, sub_group_id) is None ==> r == Ok::<Event, Error>(
                Event::SubGroupFundsDeposited(
                    caller_group(self.groups@, origin),
                    sub_group_id,
                    amount,
                    transfer_ok,
                ),
            ),
    {
        let parent = self.check_sub_group_funds(origin, sub_group_id)?;
        Ok(Event::SubGroupFundsDeposited(parent, sub_group_id, amount, transfer_ok))
    }

    /// Whether an account is a member of a group.
    pub fn is_member(&self, group_id: u32, account: AccountId) -> (r: bool)
        requires
            self.wf(),
        ensures
            r == self.group_members@.contains_key((group_id, account)),
    {
        self.group_members.contains_key(&(group_id, account))
    }

    /// Whether an account is the account of a group.
    pub fn is_group_account(&self, group_id: u32, account: AccountId) -> (r: bool)
        requires
            self.wf(),
        ensures
            r == (self.groups@.contains_key(group_id) && self.groups@[group_id].anonymous_account == account),
    {
        match self.groups.get(&group_id) {
            Some(g) => g.anonymous_account == account,
            None => false,
        }
    }

    /// The groups that an account is a member of, each once.
    pub fn member_of(&self, account: AccountId) -> (r: Vec<u32>)
        requires
            self.wf(),
        ensures
            r@.no_duplicates(),
            forall|g: u32|
                r@.contains(g) <==> self.groups@.contains_key(g) && self.group_members@.contains_key((g, account)),
    {
        let ids = self.groups.keys();
        let mut r: Vec<u32> = Vec::new();
        let mut i: usize = 0;
        while i < ids.len()
            invariant
                self.wf(),
                i <= ids@.len(),
                ids@.no_duplicates(),
                forall|g: u32| ids@.contains(g) <==> self.groups@.contains_key(g),
                r@.no_duplicates(),
                forall|g: u32|
                    r@.contains(g) <==> (exists|j: int| 0 <= j < i && ids@[j] == g) && self.group_members@.contains_key(
                        (g, account),
                    ),
            decreases ids@.len() - i,
        {
            let g = ids[i];
            if self.group_members.contains_key(&(g, account)) {
                proof {
                    assert(!r@.contains(g)) by {
                        if r@.contains(g) {
                            let j = choose|j: int| 0 <= j < i && ids@[j] == g;
                            assert(ids@[j] == ids@[i as int]);
                        }
                    }
                }
                let ghost old_r = r@;
                r.push(g);
                proof {
                    assert forall|x: int, y: int| 0 <= x < r@.len() && 0 <= y < r@.len() && x != y implies r@[x] != r@[y] by {
                        if x == old_r.len() {
                            assert(old_r[y] == r@[y]);
                            assert(old_r.contains(r@[y]));
                        } else if y == old_r.len() {
                            assert(old_r[x] == r@[x]);
                            assert(old_r.contains(r@[x]));
                        } else {
                            assert(old_r[x] == r@[x] && old_r[y] == r@[y]);
                        }
                    }
                    assert forall|h: u32|
                        r@.contains(h) <==> (exists|j: int| 0 <= j < i + 1 && ids@[j] == h) && self.group_members@.contains_key(
                            (h, account),
                        ) by {
                        if r@.contains(h) && h != g {
                            let k = choose|k: int| 0 <= k < r@.len() && r@[k] == h;
                            assert(old_r[k] == h);
                            assert(old_r.contains(h));
                        }
                        if h == g {
                            assert(ids@[i as int] == h);
                            assert(r@[old_r.len() as int] == h);
                        } else if (exists|j: int| 0 <= j < i + 1 && ids@[j] == h) && self.group_members@.contains_key((h, account)) {
                            let j = choose|j: int| 0 <= j < i + 1 && ids@[j] == h;
                            assert(j < i);
                            assert(old_r.contains(h));
                            let k = choose|k: int| 0 <= k < old_r.len() && old_r[k] == h;
                            assert(r@[k] == h);
                        }
                    }
                }
            } else {
                proof {
                    assert forall|h: u32|
                        r@.contains(h) <==> (exists|j: int| 0 <= j < i + 1 && ids@[j] == h) && self.group_members@.contains_key(
                            (h, account),
                        ) by {
                        if (exists|j: int| 0 <= j < i + 1 && ids@[j] == h) && self.group_members@.contains_key((h, account)) {
                            let j = choose|j: int| 0 <= j < i + 1 && ids@[j] == h;
                            if j == i {
                                assert(h == g);
                            }
                        }
                    }
                }
            }
            i += 1;
        }
        proof {
            assert forall|g: u32|
                r@.contains(g) <==> self.groups@.contains_key(g) && self.group_members@.contains_key((g, account)) by {
                if self.groups@.contains_key(g) {
                    assert(ids@.contains(g));
                    let j = choose|j: int| 0 <= j < ids@.len() && ids@[j] == g;
                }
                if exists|j: int| 0 <= j < ids@.len() && ids@[j] == g {
                    let j = choose|j: int| 0 <= j < ids@.len() && ids@[j] == g;
                    assert(ids@.contains(g));
                }
            }
        }
        r
    }
}

/// A list of (account, weight) pairs names each member of a group once, with its weight.
pub open spec fn lists_members(r: Seq<(AccountId, MemberCount)>, m: Map<(u32, AccountId), MemberCount>, gid: u32) -> bool {
    &&& forall|i: int, j: int| 0 <= i < r.len() && 0 <= j < r.len() && i != j ==> r[i].0 != r[j].0
    &&& forall|i: int| 0 <= i < r.len() ==> m.contains_key((gid, #[trigger] r[i].0)) && m[(gid, r[i].0)] == r[i].1
    &&& forall|a: AccountId| #[trigger] m.contains_key((gid, a)) ==> exists|i: int| 0 <= i < r.len() && r[i].0 == a
}

impl Groups {
    /// The members of a group with their weights.
    pub fn members_of(&self, group_id: u32) -> (r: Vec<(AccountId, MemberCount)>)
        requires
            self.wf(),
        ensures
            lists_members(r@, self.group_members@, group_id),
    {
        let accounts = self.group_members.keys_with_prefix(&group_id);
        let mut r: Vec<(AccountId, MemberCount)> = Vec::new();
        let mut i: usize = 0;
        while i < accounts.len()
            invariant
                self.wf(),
                i <= accounts@.len(),
                accounts@.no_duplicates(),
                forall|a: AccountId| accounts@.contains(a) <==> self.group_members@.contains_key((group_id, a)),
                r@.len() == i,
                forall|j: int| 0 <= j < i ==> (#[trigger] r@[j]).0 == accounts@[j],
                forall|j: int| 0 <= j < i ==> self.group_members@[(group_id, accounts@[j])] == (#[trigger] r@[j]).1,
            decreases accounts@.len() - i,
        {
            let a = accounts[i];
            proof {
                assert(accounts@.contains(a));
            }
            let w = match self.group_members.get(&(group_id, a)) {
                Some(w) => *w,
                None => 0,
            };
            r.push((a, w));
            i += 1;
        }
        proof {
            assert forall|x: int, y: int| 0 <= x < r@.len() && 0 <= y < r@.len() && x != y implies r@[x].0 != r@[y].0 by {
                assert(r@[x].0 == accounts@[x] && r@[y].0 == accounts@[y]);
            }
            assert forall|x: int| 0 <= x < r@.len() implies self.group_members@.contains_key(
                (group_id, #[trigger] r@[x].0),
            ) && self.group_members@[(group_id, r@[x].0)] == r@[x].1 by {
                assert(r@[x].0 == accounts@[x]);
                assert(accounts@.contains(accounts@[x]));
            }
            assert forall|a: AccountId| #[trigger]
                self.group_members@.contains_key((group_id, a)) implies exists|x: int| 0 <= x < r@.len() && r@[x].0 == a by {
                assert(accounts@.contains(a));
                let x = choose|x: int| 0 <= x < accounts@.len() && accounts@[x] == a;
                assert(r@[x].0 == a);
            }
        }
        r
    }

    /// A group and its members.
    pub fn get_group(&self, group_id: u32) -> (r: Option<(&Group, Vec<(AccountId, MemberCount)>)>)
        requires
            self.wf(),
        ensures
            match r {
                Some(x) => self.groups@.contains_key(group_id) && *x.0 == self.groups@[group_id] && lists_members(
                    x.1@,
                    self.group_members@,
                    group_id,
                ),
                None => !self.groups@.contains_key(group_id),
            },
    {
        match self.groups.get(&group_id) {
            Some(g) => Some((g, self.members_of(group_id))),
            None => None,
        }
    }

    /// The sub-groups of a group: for each child its id, its record and its members.
    /// Nothing when the group is missing.
    pub fn get_sub_groups(&self, group_id: u32) -> (r: Vec<(u32, &Group, Vec<(AccountId, MemberCount)>)>)
        requires
            self.wf(),
        ensures
            !self.groups@.contains_key(group_id) ==> r@.len() == 0,
            self.groups@.contains_key(group_id) ==> {
                &&& forall|c: u32|
                    self.group_children@.contains_key((group_id, c)) <==> exists|j: int| 0 <= j < r@.len() && r@[j].0 == c
                &&& forall|i: int, j: int| 0 <= i < r@.len() && 0 <= j < r@.len() && i != j ==> r@[i].0 != r@[j].0
                &&& forall|j: int|
                    0 <= j < r@.len() ==> self.groups@.contains_key((#[trigger] r@[j]).0) && *r@[j].1
                        == self.groups@[r@[j].0] && lists_members(r@[j].2@, self.group_members@, r@[j].0)
            },
    {
        let mut r: Vec<(u32, &Group, Vec<(AccountId, MemberCount)>)> = Vec::new();
        if !self.groups.contains_key(&group_id) {
            return r;
        }
        let children = self.group_children.keys_with_prefix(&group_id);
        proof {
            assert forall|j: int| 0 <= j < children@.len() implies self.group_children@.contains_key(
                (group_id, #[trigger] children@[j]),
            ) by {
                assert(children@.contains(children@[j]));
            }
        }
        let mut i: usize = 0;
        while i < children.len()
            invariant
                self.wf(),
                self.groups@.contains_key(group_id),
                forall|j: int| 0 <= j < children@.len() ==> self.group_children@.contains_key((group_id, #[trigger] children@[j])),
                i <= children@.len(),
                r@.len() == i,
                forall|j: int| 0 <= j < i ==> (#[trigger] r@[j]).0 == children@[j],
                forall|j: int|
                    0 <= j < i ==> self.groups@.contains_key((#[trigger] r@[j]).0) && *r@[j].1
                        == self.groups@[r@[j].0] && lists_members(r@[j].2@, self.group_members@, r@[j].0),
            decreases children@.len() - i,
        {
            let c = children[i];
            let child = match self.groups.get(&c) {
                Some(g) => g,
                None => {
                    proof {
                        assert(self.group_children@.contains_key((group_id, children@[i as int])));
                    }
                    return r;
                },
            };
            r.push((c, child, self.members_of(c)));
            i += 1;
        }
        proof {
            assert forall|c: u32|
                self.group_children@.contains_key((group_id, c)) <==> exists|j: int| 0 <= j < r@.len() && r@[j].0 == c by {
                if self.group_children@.contains_key((group_id, c)) {
                    assert(children@.contains(c));
                    let j = choose|j: int| 0 <= j < children@.len() && children@[j] == c;
                    assert(r@[j].0 == c);
                }
                if exists|j: int| 0 <= j < r@.len() && r@[j].0 == c {
                    let j = choose|j: int| 0 <= j < r@.len() && r@[j].0 == c;
                    assert(children@[j] == c);
                    assert(children@.contains(c));
                }
            }
            assert forall|x: int, y: int| 0 <= x < r@.len() && 0 <= y < r@.len() && x != y implies r@[x].0 != r@[y].0 by {
                assert(r@[x].0 == children@[x] && r@[y].0 == children@[y]);
            }
        }
        r
    }

    /// The hash and the encoded length of a stored proposal.
    pub fn get_proposal(&self, group_id: u32, proposal_id: u32) -> (r: Option<([u8; 32], u32)>)
        requires
            self.wf(),
        ensures
            match r {
                Some(x) => self.proposals@.contains_key((group_id, proposal_id)) && x.0 == proposal_hash(
                    self.proposals@[(group_id, proposal_id)]@,
                ) && x.1 == self.proposals@[(group_id, proposal_id)]@.len() as u32,
                None => !self.proposals@.contains_key((group_id, proposal_id)),
            },
    {
        match self.proposals.get(&(group_id, proposal_id)) {
            Some(p) => Some((hash_proposal(p), p.len() as u32)),
            None => None,
        }
    }

    /// The stored proposals of a group: id, hash and encoded length of each.
    pub fn get_proposals(&self, group_id: u32) -> (r: Vec<(u32, [u8; 32], u32)>)
        requires
            self.wf(),
        ensures
            forall|p: u32|
                self.proposals@.contains_key((group_id, p)) <==> exists|j: int| 0 <= j < r@.len() && r@[j].0 == p,
            forall|i: int, j: int| 0 <= i < r@.len() && 0 <= j < r@.len() && i != j ==> r@[i].0 != r@[j].0,
            forall|j: int|
                0 <= j < r@.len() ==> (#[trigger] r@[j]).1 == proposal_hash(self.proposals@[(group_id, r@[j].0)]@)
                    && r@[j].2 == self.proposals@[(group_id, r@[j].0)]@.len() as u32,
    {
        let ids = self.proposals.keys_with_prefix(&group_id);
        let mut r: Vec<(u32, [u8; 32], u32)> = Vec::new();
        let mut i: usize = 0;
        while i < ids.len()
            invariant
                self.wf(),
                i <= ids@.len(),
                ids@.no_duplicates(),
                forall|p: u32| ids@.contains(p) <==> self.proposals@.contains_key((group_id, p)),
                r@.len() == i,
                forall|j: int| 0 <= j < i ==> (#[trigger] r@[j]).0 == ids@[j],
                forall|j: int|
                    0 <= j < i ==> (#[trigger] r@[j]).1 == proposal_hash(self.proposals@[(group_id, r@[j].0)]@)
                        && r@[j].2 == self.proposals@[(group_id, r@[j].0)]@.len() as u32,
            decreases ids@.len() - i,
        {
            let p = ids[i];
            proof {
                assert(ids@.contains(p));
            }
            match self.get_proposal(group_id, p) {
                Some(x) => r.push((p, x.0, x.1)),
                None => {},
            }
            i += 1;
        }
        proof {
            assert forall|p: u32|
                self.proposals@.contains_key((group_id, p)) <==> exists|j: int| 0 <= j < r@.len() && r@[j].0 == p by {
                if self.proposals@.contains_key((group_id, p)) {
                    assert(ids@.contains(p));
                    let j = choose|j: int| 0 <= j < ids@.len() && ids@[j] == p;
                    assert(r@[j].0 == p);
                }
                if exists|j: int| 0 <= j < r@.len() && r@[j].0 == p {
                    let j = choose|j: int| 0 <= j < r@.len() && r@[j].0 == p;
                    assert(ids@[j] == p);
                    assert(ids@.contains(p));
                }
            }
            assert forall|x: int, y: int| 0 <= x < r@.len() && 0 <= y < r@.len() && x != y implies r@[x].0 != r@[y].0 by {
                assert(r@[x].0 == ids@[x] && r@[y].0 == ids@[y]);
            }
        }
        r
    }

    /// The votes on a proposal.
    pub fn get_voting(&self, group_id: u32, proposal_id: u32) -> (r: Option<&Votes>)
        requires
            self.wf(),
        ensures
            match r {
                Some(v) => self.voting@.contains_key((group_id, proposal_id)) && *v == self.voting@[(group_id, proposal_id)],
                None => !self.voting@.contains_key((group_id, proposal_id)),
            },
    {
        self.voting.get(&(group_id, proposal_id))
    }
}

impl Groups {
    /// The checks of `create_group`, before its transfer: the transfer it needs, of
    /// the minimum balance plus `initial_balance` from the signer to the account of
    /// the new group, or the error that refuses the call.
    pub fn create_group_transfer(
        &self,
        origin: Origin,
        name: &Vec<u8>,
        members: &Vec<(AccountId, MemberCount)>,
        threshold: MemberCount,
        initial_balance: u64,
        height: u64,
        ext_index: u32,
    ) -> (r: Result<Transfer, Error>)
        requires
            self.wf(),
        ensures
            self.create_group_error(origin, name@, members@.len(), threshold, true) matches Some(e) ==> r == Err::<
                Transfer,
                Error,
            >(e),
            self.create_group_error(origin, name@, members@.len(), threshold, true) is None ==> (r matches Ok(t) && t.from
                == signed(origin)->0 && is_anonymous_account(t.to, t.from, height, ext_index, self.next_group_id)
                && t.amount == Amount::MinimumBalancePlus(initial_balance)),
    {
        let sender = match origin {
            Origin::Signed(a) => a,
            _ => return Err(Error::BadOrigin),
        };
        if members.len() == 0 {
            return Err(Error::MembersRequired);
        }
        if threshold == 0 {
            return Err(Error::InvalidThreshold);
        }
        if !check_limit(name, self.name_limit) {
            return Err(Error::StringLengthLimitExceeded);
        }
        if self.next_group_id == u32::MAX {
            return Err(Error::NoIdAvailable);
        }
        let to = anonymous_account(sender, height, ext_index, self.next_group_id);
        Ok(Transfer { from: sender, to, amount: Amount::MinimumBalancePlus(initial_balance) })
    }

    /// The checks of `create_sub_group`, before its transfer: the transfer it needs,
    /// of the minimum balance plus `initial_balance` from the group account of the
    /// origin to the account of the new sub-group, or the error that refuses the call.
    pub fn create_sub_group_transfer(
        &self,
        origin: Origin,
        name: &Vec<u8>,
        members: &Vec<(AccountId, MemberCount)>,
        threshold: MemberCount,
        initial_balance: u64,
        height: u64,
        ext_index: u32,
    ) -> (r: Result<Transfer, Error>)
        requires
            self.wf(),
        ensures
            self.create_sub_group_error(origin, name@, members@.len(), threshold, true) matches Some(e) ==> r == Err::<
                Transfer,
                Error,
            >(e),
            self.create_sub_group_error(origin, name@, members@.len(), threshold, true) is None ==> (r matches Ok(t)
                && t.from == (threshold_origin(self.groups@, origin)->0).4 && is_anonymous_account(
                t.to,
                t.from,
                height,
                ext_index,
                self.next_group_id,
            ) && t.amount == Amount::MinimumBalancePlus(initial_balance)),
    {
        let caller = match self.ensure_threshold(origin) {
            Ok(a) => a,
            Err(_) => return Err(Error::BadOrigin),
        };
        if members.len() == 0 {
            return Err(Error::MembersRequired);
        }
        if threshold == 0 {
            return Err(Error::InvalidThreshold);
        }
        if !check_limit(name, self.name_limit) {
            return Err(Error::StringLengthLimitExceeded);
        }
        if self.next_group_id == u32::MAX {
            return Err(Error::NoIdAvailable);
        }
        let to = anonymous_account(caller.4, height, ext_index, self.next_group_id);
        Ok(Transfer { from: caller.4, to, amount: Amount::MinimumBalancePlus(initial_balance) })
    }

    /// The checks of `remove_group`, before its transfer: the transfer it needs, of the
    /// whole free balance of the group account to `return_funds_too`, or the error
    /// that refuses the call.
    pub fn remove_group_transfer(&self, origin: Origin, group_id: u32, return_funds_too: AccountId) -> (r: Result<
        Transfer,
        Error,
    >)
        requires
            self.wf(),
        ensures
            self.remove_group_error(origin, group_id, return_funds_too, true) matches Some(e) ==> r == Err::<Transfer, Error>(e),
            self.remove_group_error(origin, group_id, return_funds_too, true) is None ==> r == Ok::<Transfer, Error>(
                Transfer { from: self.groups@[group_id].anonymous_account, to: return_funds_too, amount: Amount::FreeBalance },
            ),
    {
        let caller = match self.ensure_threshold(origin) {
            Ok(a) => a.0,
            Err(_) => return Err(Error::BadOrigin),
        };
        if caller != group_id {
            return Err(Error::NotGroupAccount);
        }
        let from = match self.groups.get(&group_id) {
            Some(g) => {
                if g.parent.is_some() {
                    return Err(Error::NotGroup);
                }
                g.anonymous_account
            },
            None => return Err(Error::GroupMissing),
        };
        if !self.group_members.contains_key(&(group_id, return_funds_too)) {
            return Err(Error::NotMember);
        }
        if self.group_children.has_prefix(&group_id) {
            return Err(Error::GroupHasChildren);
        }
        Ok(Transfer { from, to: return_funds_too, amount: Amount::FreeBalance })
    }

    /// The checks of `remove_sub_group`, before its transfer: the transfer it needs, of
    /// the whole free balance of the sub-group account to the account of its parent,
    /// or the error that refuses the call.
    pub fn remove_sub_group_transfer(&self, origin: Origin, sub_group_id: u32) -> (r: Result<Transfer, Error>)
        requires
            self.wf(),
        ensures
            self.remove_sub_group_error(origin, sub_group_id, true) matches Some(e) ==> r == Err::<Transfer, Error>(e),
            self.remove_sub_group_error(origin, sub_group_id, true) is None ==> r == Ok::<Transfer, Error>(
                Transfer {
                    from: self.groups@[sub_group_id].anonymous_account,
                    to: self.groups@[(threshold_origin(self.groups@, origin)->0).0].anonymous_account,
                    amount: Amount::FreeBalance,
                },
            ),
    {
        let caller = match self.ensure_threshold(origin) {
            Ok(a) => a.0,
            Err(_) => return Err(Error::BadOrigin),
        };
        let from = match self.groups.get(&sub_group_id) {
            Some(g) => {
                match g.parent {
                    None => return Err(Error::NotSubGroup),
                    Some(p) => {
                        if p != caller {
                            return Err(Error::NotParentGroup);
                        }
                    },
                }
                g.anonymous_account
            },
            None => return Err(Error::GroupMissing),
        };
        if self.group_children.has_prefix(&sub_group_id) {
            return Err(Error::GroupHasChildren);
        }
        let to = match self.groups.get(&caller) {
            Some(g) => g.anonymous_account,
            None => return Err(Error::GroupMissing),
        };
        Ok(Transfer { from, to, amount: Amount::FreeBalance })
    }

    /// The checks of `withdraw_funds_group`, before its transfer: the transfer of
    /// `amount` from the group account of the origin to `target_account`, or the error
    /// that refuses the call.
    pub fn withdraw_funds_group_transfer(&self, origin: Origin, target_account: AccountId, amount: u64) -> (r: Result<
        Transfer,
        Error,
    >)
        requires
            self.wf(),
        ensures
            self.withdraw_funds_group_error(origin) matches Some(e) ==> r == Err::<Transfer, Error>(e),
            self.withdraw_funds_group_error(origin) is None ==> r == Ok::<Transfer, Error>(
                Transfer {
                    from: (threshold_origin(self.groups@, origin)->0).4,
                    to: target_account,
                    amount: Amount::Exactly(amount),
                },
            ),
    {
        let a = match self.ensure_threshold(origin) {
            Ok(a) => a,
            Err(_) => return Err(Error::BadOrigin),
        };
        match self.groups.get(&a.0) {
            Some(g) => {
                if g.parent.is_some() {
                    return Err(Error::NotGroup);
                }
            },
            None => return Err(Error::GroupMissing),
        }
        Ok(Transfer { from: a.4, to: target_account, amount: Amount::Exactly(amount) })
    }

    /// The checks of `withdraw_funds_sub_group`, before its transfer: the transfer of
    /// `amount` from the sub-group account to the group account of the origin, or the
    /// error that refuses the call.
    pub fn withdraw_funds_sub_group_transfer(&self, origin: Origin, sub_group_id: u32, amount: u64) -> (r: Result<
        Transfer,
        Error,
    >)
        requires
            self.wf(),
        ensures
            self.sub_group_funds_error(origin, sub_group_id) matches Some(e) ==> r == Err::<Transfer, Error>(e),
            self.sub_group_funds_error(origin, sub_group_id) is None ==> r == Ok::<Transfer, Error>(
                Transfer {
                    from: self.groups@[sub_group_id].anonymous_account,
                    to: (threshold_origin(self.groups@, origin)->0).4,
                    amount: Amount::Exactly(amount),
                },
            ),
    {
        let a = match self.ensure_threshold(origin) {
            Ok(a) => a,
            Err(_) => return Err(Error::BadOrigin),
        };
        self.check_sub_group_funds(origin, sub_group_id)?;
        let sub_account = match self.groups.get(&sub_group_id) {
            Some(g) => g.anonymous_account,
            None => return Err(Error::GroupMissing),
        };
        Ok(Transfer { from: sub_account, to: a.4, amount: Amount::Exactly(amount) })
    }

    /// The checks of `send_funds_to_sub_group`, before its transfer: the transfer of
    /// `amount` from the group account of the origin to the sub-group account, or the
    /// error that refuses the call.
    pub fn send_funds_to_sub_group_transfer(&self, origin: Origin, sub_group_id: u32, amount: u64) -> (r: Result<
        Transfer,
        Error,
    >)
        requires
            self.wf(),
        ensures
            self.sub_group_funds_error(origin, sub_group_id) matches Some(e) ==> r == Err::<Transfer, Error>(e),
            self.sub_group_funds_error(origin, sub_group_id) is None ==> r == Ok::<Transfer, Error>(
                Transfer {
                    from: (threshold_origin(self.groups@, origin)->0).4,
                    to: self.groups@[sub_group_id].anonymous_account,
                    amount: Amount::Exactly(amount),
                },
            ),
    {
        let a = match self.ensure_threshold(origin) {
            Ok(a) => a,
            Err(_) => return Err(Error::BadOrigin),
        };
        self.check_sub_group_funds(origin, sub_group_id)?;
        let sub_account = match self.groups.get(&sub_group_id) {
            Some(g) => g.anonymous_account,
            None => return Err(Error::GroupMissing),
        };
        Ok(Transfer { from: a.4, to: sub_account, amount: Amount::Exactly(amount) })
    }
}

} // verus!
