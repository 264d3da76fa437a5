//! Origins of a collective of members: a call approved by some members out of a
//! number of seats, or made by one member.
use crate::primitives::{AccountId, MemberCount};
use vstd::prelude::*;

verus! {

/// The origin that a collective gives a call.
#[derive(Clone, Copy, Debug, PartialEq, Eq, Structural)]
pub enum CollectiveOrigin {
    /// It has been condoned by a given number of members of the collective from a given total.
    Members(MemberCount, MemberCount),
    /// It has been condoned by a single member of the collective.
    Member(AccountId),
}

/// Ensures that an origin represents at least `n` members; `None` stands for an
/// origin that is not of the collective. Answers `n`.
pub fn ensure_members(o: Option<CollectiveOrigin>, n: MemberCount) -> (r: Result<MemberCount, ()>)
    ensures
        (o matches Some(CollectiveOrigin::Members(x, _)) && x >= n) ==> r == Ok::<MemberCount, ()>(n),
        !(o matches Some(CollectiveOrigin::Members(x, _)) && x >= n) ==> r == Err::<MemberCount, ()>(()),
{
    match o {
        Some(CollectiveOrigin::Members(x, _)) => if x >= n {
            Ok(n)
        } else {
            Err(())
        },
        _ => Err(()),
    }
}

/// The member of an origin made by one member.
pub fn ensure_member(o: CollectiveOrigin) -> (r: Result<AccountId, CollectiveOrigin>)
    ensures
        o matches CollectiveOrigin::Member(id) ==> r == Ok::<AccountId, CollectiveOrigin>(id),
        o is Members ==> r == Err::<AccountId, CollectiveOrigin>(o),
{
    match o {
        CollectiveOrigin::Member(id) => Ok(id),
        r => Err(r),
    }
}

/// The members and seats of an origin approved by at least `n` members.
pub fn ensure_members_at_least(o: CollectiveOrigin, n: MemberCount) -> (r: Result<(MemberCount, MemberCount), CollectiveOrigin>)
    ensures
        (o matches CollectiveOrigin::Members(x, m) && x >= n) ==> r == Ok::<(MemberCount, MemberCount), CollectiveOrigin>(
            (o->Members_0, o->Members_1),
        ),
        !(o matches CollectiveOrigin::Members(x, _) && x >= n) ==> r == Err::<(MemberCount, MemberCount), CollectiveOrigin>(o),
{
    match o {
        CollectiveOrigin::Members(x, m) => if x >= n {
            Ok((x, m))
        } else {
            Err(o)
        },
        r => Err(r),
    }
}

/// Accepts an origin approved by more than the proportion `n / d` of its seats.
pub fn ensure_proportion_more_than(o: CollectiveOrigin, n: u32, d: u32) -> (r: Result<(), CollectiveOrigin>)
    requires
        o matches CollectiveOrigin::Members(x, m) ==> x * d <= u32::MAX && n * m <= u32::MAX,
    ensures
        (o matches CollectiveOrigin::Members(x, m) && x * d > n * m) ==> r == Ok::<(), CollectiveOrigin>(()),
        !(o matches CollectiveOrigin::Members(x, m) && x * d > n * m) ==> r == Err::<(), CollectiveOrigin>(o),
{
    match o {
        CollectiveOrigin::Members(x, m) => if x * d > n * m {
            Ok(())
        } else {
            Err(o)
        },
        r => Err(r),
    }
}

/// Accepts an origin approved by at least the proportion `n / d` of its seats.
pub fn ensure_proportion_at_least(o: CollectiveOrigin, n: u32, d: u32) -> (r: Result<(), CollectiveOrigin>)
    requires
        o matches CollectiveOrigin::Members(x, m) ==> x * d <= u32::MAX && n * m <= u32::MAX,
    ensures
        (o matches CollectiveOrigin::Members(x, m) && x * d >= n * m) ==> r == Ok::<(), CollectiveOrigin>(()),
        !(o matches CollectiveOrigin::Members(x, m) && x * d >= n * m) ==> r == Err::<(), CollectiveOrigin>(o),
{
    match o {
        CollectiveOrigin::Members(x, m) => if x * d >= n * m {
            Ok(())
        } else {
            Err(o)
        },
        r => Err(r),
    }
}

} // verus!
