//! Read-only queries of the identity storage: DIDs with their documents, claims,
//! authorizations, catalogs, and searches of a catalog by the value of a property.
use crate::identity::{property_key, property_key_of, Identity};
use crate::hashing::append_array;
use crate::primitives::{AccountId, Claim, Did, DidDocument, DidProperty, Fact, Moment};
use crate::table::{lists_keys, lists_prefix};
use vstd::prelude::*;

verus! {

/// A value lies between optional bounds, both inclusive.
pub open spec fn within(value: int, min: Option<u128>, max: Option<u128>) -> bool {
    &&& match min {
        Some(lo) => value >= lo,
        None => true,
    }
    &&& match max {
        Some(hi) => value <= hi,
        None => true,
    }
}

/// Whether a value lies between optional bounds, both inclusive.
pub fn min_max_check(value: u128, min: Option<u128>, max: Option<u128>) -> (r: bool)
    ensures
        r == within(value as int, min, max),
{
    let min_check = match min {
        Some(lo) => value >= lo,
        None => true,
    };
    let max_check = match max {
        Some(hi) => value <= hi,
        None => true,
    };
    min_check && max_check
}

/// An unsigned integer fact between optional bounds.
pub open spec fn integer_matches(fact: Fact, min: Option<u128>, max: Option<u128>) -> bool {
    match fact {
        Fact::U8(v) => within(v as int, min, max),
        Fact::U16(v) => within(v as int, min, max),
        Fact::U32(v) => within(v as int, min, max),
        Fact::U128(v) => within(v as int, min, max),
        _ => false,
    }
}

/// The integer search: an unsigned integer fact of any width (`U8`, `U16`, `U32` or
/// `U128`) matches exactly when its value is at least the lower bound and at most the
/// upper bound, a missing bound bounding nothing; no other fact matches.
pub proof fn lemma_integer_search(min: Option<u128>, max: Option<u128>, a: u8, b: u16, c: u32, d: u128, f: Fact)
    ensures
        integer_matches(Fact::U8(a), min, max) <==> ((min is None || a as int >= min->0 as int) && (max is None || a as int
            <= max->0 as int)),
        integer_matches(Fact::U16(b), min, max) <==> ((min is None || b as int >= min->0 as int) && (max is None || b as int
            <= max->0 as int)),
        integer_matches(Fact::U32(c), min, max) <==> ((min is None || c as int >= min->0 as int) && (max is None || c as int
            <= max->0 as int)),
        integer_matches(Fact::U128(d), min, max) <==> ((min is None || d as int >= min->0 as int) && (max is None || d as int
            <= max->0 as int)),
        !(f is U8 || f is U16 || f is U32 || f is U128) ==> !integer_matches(f, min, max),
{
}

/// Lexicographic order of two sequences of numbers, compared up to the shorter length.
pub open spec fn lex_le(a: Seq<u16>, b: Seq<u16>) -> bool
    decreases a.len(),
{
    if a.len() == 0 || b.len() == 0 {
        true
    } else if a[0] != b[0] {
        a[0] < b[0]
    } else {
        lex_le(a.drop_first(), b.drop_first())
    }
}

/// Compares two sequences of numbers of one length lexicographically.
pub fn lex_at_most(a: &Vec<u16>, b: &Vec<u16>) -> (r: bool)
    requires
        a@.len() == b@.len(),
    ensures
        r == lex_le(a@, b@),
{
    let mut i: usize = 0;
    assert(a@.skip(0) =~= a@);
    assert(b@.skip(0) =~= b@);
    while i < a.len()
        invariant
            a@.len() == b@.len(),
            i <= a@.len(),
            lex_le(a@, b@) == lex_le(a@.skip(i as int), b@.skip(i as int)),
        decreases a@.len() - i,
    {
        assert(a@.skip(i as int)[0] == a@[i as int]);
        assert(b@.skip(i as int)[0] == b@[i as int]);
        if a[i] != b[i] {
            return a[i] < b[i];
        }
        assert(a@.skip(i as int).drop_first() =~= a@.skip(i as int + 1));
        assert(b@.skip(i as int).drop_first() =~= b@.skip(i as int + 1));
        i += 1;
    }
    assert(a@.skip(i as int).len() == 0);
    true
}

/// The numbers of a date, most significant first.
pub open spec fn date_seq(y: u16, m: u8, d: u8) -> Seq<u16> {
    seq![y, m as u16, d as u16]
}

/// The numbers of a date and time, most significant first; the time zone is not compared.
pub open spec fn time_seq(y: u16, mo: u8, d: u8, h: u8, mi: u8, s: u8) -> Seq<u16> {
    seq![y, mo as u16, d as u16, h as u16, mi as u16, s as u16]
}

/// A date fact between optional bounds, both inclusive.
pub open spec fn date_matches(fact: Fact, min: Option<(u16, u8, u8)>, max: Option<(u16, u8, u8)>) -> bool {
    match fact {
        Fact::Date(y, m, d) => {
            &&& match min {
                Some(lo) => lex_le(date_seq(lo.0, lo.1, lo.2), date_seq(y, m, d)),
                None => true,
            }
            &&& match max {
                Some(hi) => lex_le(date_seq(y, m, d), date_seq(hi.0, hi.1, hi.2)),
                None => true,
            }
        },
        _ => false,
    }
}

/// A bound on a date and time: year, month, day, hour, minute, second and time zone.
pub type TimeBound = (u16, u8, u8, u8, u8, u8, Vec<u8>);

/// A date and time fact between optional bounds, both inclusive, time zones aside.
pub open spec fn iso8601_matches(fact: Fact, min: Option<TimeBound>, max: Option<TimeBound>) -> bool {
    match fact {
        Fact::Iso8601(y, mo, d, h, mi, s, _) => {
            &&& match min {
                Some(lo) => lex_le(time_seq(lo.0, lo.1, lo.2, lo.3, lo.4, lo.5), time_seq(y, mo, d, h, mi, s)),
                None => true,
            }
            &&& match max {
                Some(hi) => lex_le(time_seq(y, mo, d, h, mi, s), time_seq(hi.0, hi.1, hi.2, hi.3, hi.4, hi.5)),
                None => true,
            }
        },
        _ => false,
    }
}

/// A date is on or before another: an earlier year, or the same year and an earlier
/// month, or the same month and a day not later.
pub open spec fn date_on_or_before(a: (u16, u8, u8), b: (u16, u8, u8)) -> bool {
    a.0 < b.0 || (a.0 == b.0 && (a.1 < b.1 || (a.1 == b.1 && a.2 <= b.2)))
}

/// The date search: a date fact matches exactly when it is on or after the lower
/// bound and on or before the upper bound, a missing bound bounding nothing; no other
/// fact matches.
pub proof fn lemma_date_search(min: Option<(u16, u8, u8)>, max: Option<(u16, u8, u8)>, y: u16, m: u8, d: u8, f: Fact)
    ensures
        date_matches(Fact::Date(y, m, d), min, max) <==> ((min is None || date_on_or_before(min->0, (y, m, d))) && (max is None
            || date_on_or_before((y, m, d), max->0))),
        !(f is Date) ==> !date_matches(f, min, max),
{
    reveal_with_fuel(lex_le, 4);
    assert forall|a: (u16, u8, u8), b: (u16, u8, u8)| lex_le(date_seq(a.0, a.1, a.2), date_seq(b.0, b.1, b.2))
        <==> date_on_or_before(a, b) by {
        let sa = date_seq(a.0, a.1, a.2);
        let sb = date_seq(b.0, b.1, b.2);
        assert(sa.drop_first() =~= seq![a.1 as u16, a.2 as u16]);
        assert(sb.drop_first() =~= seq![b.1 as u16, b.2 as u16]);
        assert(sa.drop_first().drop_first() =~= seq![a.2 as u16]);
        assert(sb.drop_first().drop_first() =~= seq![b.2 as u16]);
        assert(seq![a.2 as u16].drop_first() =~= Seq::<u16>::empty());
        assert(seq![b.2 as u16].drop_first() =~= Seq::<u16>::empty());
    }
}

/// A date and time is on or before another, compared from the year down to the
/// second; time zones are not compared.
pub open spec fn time_on_or_before(a: (u16, u8, u8, u8, u8, u8), b: (u16, u8, u8, u8, u8, u8)) -> bool {
    a.0 < b.0 || (a.0 == b.0 && (a.1 < b.1 || (a.1 == b.1 && (a.2 < b.2 || (a.2 == b.2 && (a.3 < b.3 || (a.3 == b.3 && (a.4
        < b.4 || (a.4 == b.4 && a.5 <= b.5)))))))))
}

/// The date-and-time search: a date-and-time fact matches exactly when it is on or
/// after the lower bound and on or before the upper bound (time zones aside), a
/// missing bound bounding nothing; no other fact matches.
pub proof fn lemma_iso8601_search(
    min: Option<TimeBound>,
    max: Option<TimeBound>,
    y: u16,
    mo: u8,
    d: u8,
    h: u8,
    mi: u8,
    s: u8,
    tz: Vec<u8>,
    f: Fact,
)
    ensures
        iso8601_matches(Fact::Iso8601(y, mo, d, h, mi, s, tz), min, max) <==> ((min is None || time_on_or_before(
            ((min->0).0, (min->0).1, (min->0).2, (min->0).3, (min->0).4, (min->0).5),
            (y, mo, d, h, mi, s),
        )) && (max is None || time_on_or_before(
            (y, mo, d, h, mi, s),
            ((max->0).0, (max->0).1, (max->0).2, (max->0).3, (max->0).4, (max->0).5),
        ))),
        !(f is Iso8601) ==> !iso8601_matches(f, min, max),
{
    reveal_with_fuel(lex_le, 7);
    assert forall|a: (u16, u8, u8, u8, u8, u8), b: (u16, u8, u8, u8, u8, u8)| lex_le(
        time_seq(a.0, a.1, a.2, a.3, a.4, a.5),
        time_seq(b.0, b.1, b.2, b.3, b.4, b.5),
    ) <==> time_on_or_before(a, b) by {
        let sa = time_seq(a.0, a.1, a.2, a.3, a.4, a.5);
        let sb = time_seq(b.0, b.1, b.2, b.3, b.4, b.5);
        assert(sa.drop_first() =~= seq![a.1 as u16, a.2 as u16, a.3 as u16, a.4 as u16, a.5 as u16]);
        assert(sb.drop_first() =~= seq![b.1 as u16, b.2 as u16, b.3 as u16, b.4 as u16, b.5 as u16]);
        assert(sa.drop_first().drop_first() =~= seq![a.2 as u16, a.3 as u16, a.4 as u16, a.5 as u16]);
        assert(sb.drop_first().drop_first() =~= seq![b.2 as u16, b.3 as u16, b.4 as u16, b.5 as u16]);
        assert(sa.drop_first().drop_first().drop_first() =~= seq![a.3 as u16, a.4 as u16, a.5 as u16]);
        assert(sb.drop_first().drop_first().drop_first() =~= seq![b.3 as u16, b.4 as u16, b.5 as u16]);
        assert(sa.drop_first().drop_first().drop_first().drop_first() =~= seq![a.4 as u16, a.5 as u16]);
        assert(sb.drop_first().drop_first().drop_first().drop_first() =~= seq![b.4 as u16, b.5 as u16]);
        assert(sa.drop_first().drop_first().drop_first().drop_first().drop_first() =~= seq![a.5 as u16]);
        assert(sb.drop_first().drop_first().drop_first().drop_first().drop_first() =~= seq![b.5 as u16]);
        assert(seq![a.5 as u16].drop_first() =~= Seq::<u16>::empty());
        assert(seq![b.5 as u16].drop_first() =~= Seq::<u16>::empty());
    }
}

fn date_vec(y: u16, m: u8, d: u8) -> (r: Vec<u16>)
    ensures
        r@ == date_seq(y, m, d),
{
    let mut r: Vec<u16> = Vec::new();
    r.push(y);
    r.push(m as u16);
    r.push(d as u16);
    assert(r@ =~= date_seq(y, m, d));
    r
}

fn time_vec(y: u16, mo: u8, d: u8, h: u8, mi: u8, s: u8) -> (r: Vec<u16>)
    ensures
        r@ == time_seq(y, mo, d, h, mi, s),
{
    let mut r: Vec<u16> = Vec::new();
    r.push(y);
    r.push(mo as u16);
    r.push(d as u16);
    r.push(h as u16);
    r.push(mi as u16);
    r.push(s as u16);
    assert(r@ =~= time_seq(y, mo, d, h, mi, s));
    r
}

/// Whether a fact is an unsigned integer between optional bounds.
pub fn integer_fact_matches(fact: &Fact, min: Option<u128>, max: Option<u128>) -> (r: bool)
    ensures
        r == integer_matches(*fact, min, max),
{
    match fact {
        Fact::U8(v) => min_max_check(*v as u128, min, max),
        Fact::U16(v) => min_max_check(*v as u128, min, max),
        Fact::U32(v) => min_max_check(*v as u128, min, max),
        Fact::U128(v) => min_max_check(*v, min, max),
        _ => false,
    }
}

/// Whether a fact is a date between optional bounds.
pub fn date_fact_matches(fact: &Fact, min: Option<(u16, u8, u8)>, max: Option<(u16, u8, u8)>) -> (r: bool)
    ensures
        r == date_matches(*fact, min, max),
{
    match fact {
        Fact::Date(y, m, d) => {
            let v = date_vec(*y, *m, *d);
            let min_check = match min {
                Some(lo) => lex_at_most(&date_vec(lo.0, lo.1, lo.2), &v),
                None => true,
            };
            let max_check = match max {
                Some(hi) => lex_at_most(&v, &date_vec(hi.0, hi.1, hi.2)),
                None => true,
            };
            min_check && max_check
        },
        _ => false,
    }
}

/// Whether a fact is a date and time between optional bounds, time zones aside.
pub fn iso8601_fact_matches(fact: &Fact, min: &Option<TimeBound>, max: &Option<TimeBound>) -> (r: bool)
    ensures
        r == iso8601_matches(*fact, *min, *max),
{
    match fact {
        Fact::Iso8601(y, mo, d, h, mi, s, _) => {
            let v = time_vec(*y, *mo, *d, *h, *mi, *s);
            let min_check = match min {
                Some(lo) => lex_at_most(&time_vec(lo.0, lo.1, lo.2, lo.3, lo.4, lo.5), &v),
                None => true,
            };
            let max_check = match max {
                Some(hi) => lex_at_most(&v, &time_vec(hi.0, hi.1, hi.2, hi.3, hi.4, hi.5)),
                None => true,
            };
            min_check && max_check
        },
        _ => false,
    }
}

/// The DIDs of candidates whose verdict is true, in order.
fn selected<T>(candidates: &Vec<(Did, T)>, verdicts: &Vec<bool>) -> (r: Vec<Did>)
    requires
        candidates@.len() == verdicts@.len(),
        forall|i: int, j: int|
            0 <= i < candidates@.len() && 0 <= j < candidates@.len() && i != j ==> candidates@[i].0
                != candidates@[j].0,
    ensures
        r@.no_duplicates(),
        forall|d: Did|
            r@.contains(d) <==> exists|j: int| 0 <= j < candidates@.len() && candidates@[j].0 == d && verdicts@[j],
{
    let mut r: Vec<Did> = Vec::new();
    let mut i: usize = 0;
    while i < candidates.len()
        invariant
            candidates@.len() == verdicts@.len(),
            forall|x: int, y: int|
                0 <= x < candidates@.len() && 0 <= y < candidates@.len() && x != y ==> candidates@[x].0
                    != candidates@[y].0,
            i <= candidates@.len(),
            r@.no_duplicates(),
            forall|d: Did|
                r@.contains(d) <==> exists|j: int| 0 <= j < i && candidates@[j].0 == d && verdicts@[j],
        decreases candidates@.len() - i,
    {
        if verdicts[i] {
            let d = candidates[i].0;
            let ghost before = r@;
            proof {
                if before.contains(d) {
                    let j = choose|j: int| 0 <= j < i && candidates@[j].0 == d && verdicts@[j];
                    assert(candidates@[j].0 != candidates@[i as int].0);
                }
            }
            r.push(d);
            proof {
                assert forall|x: int, y: int| 0 <= x < r@.len() && 0 <= y < r@.len() && x != y implies r@[x]
                    != r@[y] by {
                    if x == before.len() {
                        assert(before.contains(r@[y]));
                    } else if y == before.len() {
                        assert(before.contains(r@[x]));
                    } else {
                        assert(before[x] != before[y]);
                    }
                }
                assert forall|dd: Did|
                    r@.contains(dd) <==> exists|j: int|
                        0 <= j < i + 1 && candidates@[j].0 == dd && verdicts@[j] by {
                    if r@.contains(dd) && dd != d {
                        let k = choose|k: int| 0 <= k < r@.len() && r@[k] == dd;
                        assert(before[k] == dd);
                        assert(before.contains(dd));
                    }
                    if exists|j: int| 0 <= j < i + 1 && candidates@[j].0 == dd && verdicts@[j] {
                        let j = choose|j: int| 0 <= j < i + 1 && candidates@[j].0 == dd && verdicts@[j];
                        if j < i {
                            assert(before.contains(dd));
                            let k = choose|k: int| 0 <= k < before.len() && before[k] == dd;
                            assert(r@[k] == dd);
                        } else {
                            assert(r@[before.len() as int] == dd);
                        }
                    }
                    if dd == d {
                        assert(r@[before.len() as int] == dd);
                    }
                }
            }
        } else {
            proof {
                assert forall|dd: Did|
                    r@.contains(dd) <==> exists|j: int|
                        0 <= j < i + 1 && candidates@[j].0 == dd && verdicts@[j] by {
                    if exists|j: int| 0 <= j < i + 1 && candidates@[j].0 == dd && verdicts@[j] {
                        let j = choose|j: int| 0 <= j < i + 1 && candidates@[j].0 == dd && verdicts@[j];
                        assert(j < i);
                    }
                }
            }
        }
        i += 1;
    }
    r
}

impl Identity {
    /// The fact of a property of a name of a DID of a catalog, if the DID is in the
    /// catalog and has such a property.
    pub open spec fn catalog_fact(&self, catalog_id: u32, name: Seq<u8>, did: Did) -> Option<Fact> {
        let key = (did, property_key(name));
        if self.dids_by_catalog@.contains_key((catalog_id, did)) && self.did_document_properties@.contains_key(key) {
            Some(self.did_document_properties@[key].fact)
        } else {
            None
        }
    }

    /// The DIDs of a catalog that have a property under a key, each once with the fact.
    fn catalog_facts(&self, catalog_id: u32, key: [u8; 32]) -> (r: Vec<(Did, &Fact)>)
        requires
            self.wf(),
        ensures
            forall|i: int, j: int| 0 <= i < r@.len() && 0 <= j < r@.len() && i != j ==> r@[i].0 != r@[j].0,
            forall|i: int|
                #![trigger r@[i]]
                0 <= i < r@.len() ==> {
                    &&& self.dids_by_catalog@.contains_key((catalog_id, r@[i].0))
                    &&& self.did_document_properties@.contains_key((r@[i].0, key))
                    &&& *r@[i].1 == self.did_document_properties@[(r@[i].0, key)].fact
                },
            forall|d: Did|
                self.dids_by_catalog@.contains_key((catalog_id, d)) && self.did_document_properties@.contains_key(
                    (d, key),
                ) ==> exists|i: int| 0 <= i < r@.len() && r@[i].0 == d,
    {
        let dids = self.dids_by_catalog.keys_with_prefix(&catalog_id);
        let mut r: Vec<(Did, &Fact)> = Vec::new();
        let mut i: usize = 0;
        while i < dids.len()
            invariant
                self.wf(),
                i <= dids@.len(),
                dids@.no_duplicates(),
                forall|d: Did| dids@.contains(d) <==> self.dids_by_catalog@.contains_key((catalog_id, d)),
                forall|x: int, y: int| 0 <= x < r@.len() && 0 <= y < r@.len() && x != y ==> r@[x].0 != r@[y].0,
                forall|x: int|
                    #![trigger r@[x]]
                    0 <= x < r@.len() ==> {
                        &&& self.dids_by_catalog@.contains_key((catalog_id, r@[x].0))
                        &&& self.did_document_properties@.contains_key((r@[x].0, key))
                        &&& *r@[x].1 == self.did_document_properties@[(r@[x].0, key)].fact
                        &&& exists|j: int| 0 <= j < i && dids@[j] == r@[x].0
                    },
                forall|j: int|
                    0 <= j < i && self.did_document_properties@.contains_key((#[trigger] dids@[j], key)) ==> exists|
                        x: int,
                    | 0 <= x < r@.len() && r@[x].0 == dids@[j],
            decreases dids@.len() - i,
        {
            let d = dids[i];
            assert(dids@.contains(d));
            match self.did_document_properties.get(&(d, key)) {
                Some(p) => {
                    let ghost before = r@;
                    r.push((d, &p.fact));
                    proof {
                        assert forall|x: int, y: int|
                            0 <= x < r@.len() && 0 <= y < r@.len() && x != y implies r@[x].0 != r@[y].0 by {
                            if x == before.len() {
                                let j = choose|j: int| 0 <= j < i && dids@[j] == r@[y].0;
                                assert(dids@[j] != dids@[i as int]);
                            } else if y == before.len() {
                                let j = choose|j: int| 0 <= j < i && dids@[j] == r@[x].0;
                                assert(dids@[j] != dids@[i as int]);
                            } else {
                                assert(before[x].0 != before[y].0);
                            }
                        }
                        assert forall|x: int| #![trigger r@[x]] 0 <= x < r@.len() implies exists|j: int|
                            0 <= j < i + 1 && dids@[j] == r@[x].0 by {
                            if x == before.len() {
                                assert(dids@[i as int] == r@[x].0);
                            } else {
                                assert(before[x] == r@[x]);
                                let j = choose|j: int| 0 <= j < i && dids@[j] == before[x].0;
                                assert(dids@[j] == r@[x].0);
                            }
                        }
                        assert forall|j: int|
                            0 <= j < i + 1 && self.did_document_properties@.contains_key(
                                (#[trigger] dids@[j], key),
                            ) implies exists|x: int| 0 <= x < r@.len() && r@[x].0 == dids@[j] by {
                            if j == i {
                                assert(r@[before.len() as int].0 == dids@[j]);
                            } else {
                                let x = choose|x: int| 0 <= x < before.len() && before[x].0 == dids@[j];
                                assert(r@[x].0 == dids@[j]);
                            }
                        }
                    }
                },
                None => {
                    proof {
                        assert forall|x: int| #![trigger r@[x]] 0 <= x < r@.len() implies exists|j: int|
                            0 <= j < i + 1 && dids@[j] == r@[x].0 by {
                            let j = choose|j: int| 0 <= j < i && dids@[j] == r@[x].0;
                        }
                    }
                },
            }
            i += 1;
        }
        proof {
            assert forall|d: Did|
                self.dids_by_catalog@.contains_key((catalog_id, d)) && self.did_document_properties@.contains_key(
                    (d, key),
                ) implies exists|x: int| 0 <= x < r@.len() && r@[x].0 == d by {
                assert(dids@.contains(d));
                let j = choose|j: int| 0 <= j < dids@.len() && dids@[j] == d;
                assert(self.did_document_properties@.contains_key((dids@[j], key)));
            }
        }
        r
    }

    /// The DIDs of a catalog with an unsigned integer property of a name between
    /// optional bounds, each once.
    pub fn find_did_by_integer_property(&self, catalog_id: u32, name: Vec<u8>, min: Option<u128>, max: Option<u128>) -> (r:
        Vec<Did>)
        requires
            self.wf(),
            name@.len() <= u32::MAX,
        ensures
            r@.no_duplicates(),
            forall|d: Did|
                r@.contains(d) <==> (self.catalog_fact(catalog_id, name@, d) matches Some(f) && integer_matches(f, min, max)),
    {
        let key = property_key_of(&name);
        let candidates = self.catalog_facts(catalog_id, key);
        let mut verdicts: Vec<bool> = Vec::new();
        let mut i: usize = 0;
        while i < candidates.len()
            invariant
                i <= candidates@.len(),
                verdicts@.len() == i,
                forall|j: int| 0 <= j < i ==> verdicts@[j] == integer_matches(*candidates@[j].1, min, max),
            decreases candidates@.len() - i,
        {
            verdicts.push(integer_fact_matches(candidates[i].1, min, max));
            i += 1;
        }
        let r = selected(&candidates, &verdicts);
        proof {
            assert forall|d: Did|
                r@.contains(d) <==> (self.catalog_fact(catalog_id, name@, d) matches Some(f) && integer_matches(f, min, max)) by {
                let k = (d, key);
                if self.dids_by_catalog@.contains_key((catalog_id, d)) && self.did_document_properties@.contains_key(k) {
                    let j = choose|j: int| 0 <= j < candidates@.len() && candidates@[j].0 == d;
                    assert(*candidates@[j].1 == self.did_document_properties@[k].fact);
                    if integer_matches(self.did_document_properties@[k].fact, min, max) {
                        assert(verdicts@[j]);
                        assert(r@.contains(d));
                    }
                }
                if r@.contains(d) {
                    let j = choose|j: int| 0 <= j < candidates@.len() && candidates@[j].0 == d && verdicts@[j];
                    assert(*candidates@[j].1 == self.did_document_properties@[k].fact);
                }
            }
        }
        r
    }

    /// The DIDs of a catalog with a date property of a name between optional bounds,
    /// each once.
    pub fn find_did_by_date_property(
        &self,
        catalog_id: u32,
        name: Vec<u8>,
        min: Option<(u16, u8, u8)>,
        max: Option<(u16, u8, u8)>,
    ) -> (r: Vec<Did>)
        requires
            self.wf(),
            name@.len() <= u32::MAX,
        ensures
            r@.no_duplicates(),
            forall|d: Did|
                r@.contains(d) <==> (self.catalog_fact(catalog_id, name@, d) matches Some(f) && date_matches(f, min, max)),
    {
        let key = property_key_of(&name);
        let candidates = self.catalog_facts(catalog_id, key);
        let mut verdicts: Vec<bool> = Vec::new();
        let mut i: usize = 0;
        while i < candidates.len()
            invariant
                i <= candidates@.len(),
                verdicts@.len() == i,
                forall|j: int| 0 <= j < i ==> verdicts@[j] == date_matches(*candidates@[j].1, min, max),
            decreases candidates@.len() - i,
        {
            verdicts.push(date_fact_matches(candidates[i].1, min, max));
            i += 1;
        }
        let r = selected(&candidates, &verdicts);
        proof {
            assert forall|d: Did|
                r@.contains(d) <==> (self.catalog_fact(catalog_id, name@, d) matches Some(f) && date_matches(f, min, max)) by {
                let k = (d, key);
                if self.dids_by_catalog@.contains_key((catalog_id, d)) && self.did_document_properties@.contains_key(k) {
                    let j = choose|j: int| 0 <= j < candidates@.len() && candidates@[j].0 == d;
                    assert(*candidates@[j].1 == self.did_document_properties@[k].fact);
                    if date_matches(self.did_document_properties@[k].fact, min, max) {
                        assert(verdicts@[j]);
                        assert(r@.contains(d));
                    }
                }
                if r@.contains(d) {
                    let j = choose|j: int| 0 <= j < candidates@.len() && candidates@[j].0 == d && verdicts@[j];
                    assert(*candidates@[j].1 == self.did_document_properties@[k].fact);
                }
            }
        }
        r
    }

    /// The DIDs of a catalog with a date and time property of a name between optional
    /// bounds, each once; time zones are not compared.
    pub fn find_did_by_iso8601_property(
        &self,
        catalog_id: u32,
        name: Vec<u8>,
        min: Option<TimeBound>,
        max: Option<TimeBound>,
    ) -> (r: Vec<Did>)
        requires
            self.wf(),
            name@.len() <= u32::MAX,
        ensures
            r@.no_duplicates(),
            forall|d: Did|
                r@.contains(d) <==> (self.catalog_fact(catalog_id, name@, d) matches Some(f) && iso8601_matches(f, min, max)),
    {
        let key = property_key_of(&name);
        let candidates = self.catalog_facts(catalog_id, key);
        let mut verdicts: Vec<bool> = Vec::new();
        let mut i: usize = 0;
        while i < candidates.len()
            invariant
                i <= candidates@.len(),
                verdicts@.len() == i,
                forall|j: int| 0 <= j < i ==> verdicts@[j] == iso8601_matches(*candidates@[j].1, min, max),
            decreases candidates@.len() - i,
        {
            verdicts.push(iso8601_fact_matches(candidates[i].1, &min, &max));
            i += 1;
        }
        let r = selected(&candidates, &verdicts);
        proof {
            assert forall|d: Did|
                r@.contains(d) <==> (self.catalog_fact(catalog_id, name@, d) matches Some(f) && iso8601_matches(f, min, max)) by {
                let k = (d, key);
                if self.dids_by_catalog@.contains_key((catalog_id, d)) && self.did_document_properties@.contains_key(k) {
                    let j = choose|j: int| 0 <= j < candidates@.len() && candidates@[j].0 == d;
                    assert(*candidates@[j].1 == self.did_document_properties@[k].fact);
                    if iso8601_matches(self.did_document_properties@[k].fact, min, max) {
                        assert(verdicts@[j]);
                        assert(r@.contains(d));
                    }
                }
                if r@.contains(d) {
                    let j = choose|j: int| 0 <= j < candidates@.len() && candidates@[j].0 == d && verdicts@[j];
                    assert(*candidates@[j].1 == self.did_document_properties@[k].fact);
                }
            }
        }
        r
    }
}

/// The properties of a DID as stored: each under its own key, all of them.
pub open spec fn lists_properties(r: Seq<&DidProperty>, m: Map<(Did, [u8; 32]), DidProperty>, did: Did) -> bool {
    exists|ks: Seq<[u8; 32]>|
        {
            &&& ks.no_duplicates()
            &&& ks.len() == r.len()
            &&& forall|i: int| 0 <= i < r.len() ==> m.contains_key((did, #[trigger] ks[i])) && m[(did, ks[i])] == *r[i]
            &&& forall|k: [u8; 32]| #[trigger] m.contains_key((did, k)) ==> ks.contains(k)
        }
}

/// The bytes that a text search of a fact looks at: the text, or the id of a DID.
pub open spec fn searchable_bytes(fact: Fact) -> Option<Seq<u8>> {
    match fact {
        Fact::Text(v) => Some(v@),
        Fact::Did(d) => Some(d.id@),
        _ => None,
    }
}

/// The little-endian bytes of a float fact.
pub open spec fn float_bytes(fact: Fact) -> Option<[u8; 8]> {
    match fact {
        Fact::Float(v) => Some(v),
        _ => None,
    }
}

/// What the text and float searches compare: a text fact by its bytes, a DID fact by
/// the bytes of its id, a float fact by its little-endian bytes; a fact of another
/// kind is no candidate of the search.
pub proof fn lemma_search_candidates(text: Vec<u8>, did: Did, x: [u8; 8], f: Fact)
    ensures
        searchable_bytes(Fact::Text(text)) == Some(text@),
        searchable_bytes(Fact::Did(did)) == Some(did.id@),
        !(f is Text || f is Did) ==> searchable_bytes(f) is None,
        float_bytes(Fact::Float(x)) == Some(x),
        !(f is Float) ==> float_bytes(f) is None,
{
}

fn bytes_of_array(a: &[u8; 32]) -> (r: Vec<u8>)
    ensures
        r@ == a@,
{
    let mut r: Vec<u8> = Vec::new();
    append_array(&mut r, a);
    assert(r@ =~= a@);
    r
}

fn copy_bytes(v: &Vec<u8>) -> (r: Vec<u8>)
    ensures
        r@ == v@,
{
    let r = v.clone();
    assert(r@ =~= v@);
    r
}

impl Identity {
    /// Whether an account owns a catalog.
    pub fn is_catalog_owner(&self, account_id: AccountId, catalog_id: u32) -> (r: bool)
        requires
            self.wf(),
        ensures
            r == self.catalogs@.contains_key((account_id, catalog_id)),
    {
        self.catalogs.contains_key(&(account_id, catalog_id))
    }

    /// The catalogs that an account owns, each once.
    pub fn get_catalogs(&self, account_id: AccountId) -> (r: Vec<u32>)
        requires
            self.wf(),
        ensures
            lists_keys(r@, self.catalogs@, account_id),
    {
        self.catalogs.keys_with_prefix(&account_id)
    }

    /// The DIDs of a catalog, each once.
    pub fn get_dids_in_catalog(&self, catalog_id: u32) -> (r: Vec<Did>)
        requires
            self.wf(),
        ensures
            lists_keys(r@, self.dids_by_catalog@, catalog_id),
    {
        self.dids_by_catalog.keys_with_prefix(&catalog_id)
    }

    /// The catalogs that hold a DID, each once.
    pub fn get_catalogs_by_did(&self, did: Did) -> (r: Vec<u32>)
        requires
            self.wf(),
        ensures
            lists_keys(r@, self.did_catalogs@, did),
    {
        self.did_catalogs.keys_with_prefix(&did)
    }

    /// Whether an account controls a DID.
    pub fn is_controller(&self, account_id: AccountId, did: Did) -> (r: bool)
        requires
            self.wf(),
        ensures
            r == self.did_controllers@.contains_key((did, account_id)),
    {
        self.did_controllers.contains_key(&(did, account_id))
    }

    /// The properties of a DID, each once.
    fn properties_of(&self, did: Did) -> (r: Vec<&DidProperty>)
        requires
            self.wf(),
        ensures
            lists_properties(r@, self.did_document_properties@, did),
    {
        let entries = self.did_document_properties.entries_with_prefix(&did);
        let mut r: Vec<&DidProperty> = Vec::new();
        let mut i: usize = 0;
        while i < entries.len()
            invariant
                i <= entries@.len(),
                r@.len() == i,
                forall|j: int| 0 <= j < i ==> *(#[trigger] r@[j]) == *entries@[j].1,
            decreases entries@.len() - i,
        {
            r.push(entries[i].1);
            i += 1;
        }
        proof {
            let ks = entries@.map_values(|e: ([u8; 32], &DidProperty)| e.0);
            assert(ks.no_duplicates()) by {
                assert forall|x: int, y: int| 0 <= x < ks.len() && 0 <= y < ks.len() && x != y implies ks[x] != ks[y] by {
                    assert(entries@[x].0 != entries@[y].0);
                }
            }
            assert forall|x: int| 0 <= x < r@.len() implies self.did_document_properties@.contains_key(
                (did, #[trigger] ks[x]),
            ) && self.did_document_properties@[(did, ks[x])] == *r@[x] by {
                assert(ks[x] == entries@[x].0);
            }
            assert forall|k: [u8; 32]| #[trigger] self.did_document_properties@.contains_key((did, k)) implies ks.contains(k) by {
                let x = choose|x: int| 0 <= x < entries@.len() && entries@[x].0 == k;
                assert(ks[x] == k);
            }
        }
        r
    }

    /// A DID's document, its properties and its controllers; nothing when it has no document.
    pub fn get_did(&self, did: Did) -> (r: Option<(DidDocument, Vec<&DidProperty>, Vec<AccountId>)>)
        requires
            self.wf(),
        ensures
            match r {
                Some(x) => {
                    &&& self.did_documents@.contains_key(did)
                    &&& x.0 == self.did_documents@[did]
                    &&& lists_properties(x.1@, self.did_document_properties@, did)
                    &&& lists_keys(x.2@, self.did_controllers@, did)
                },
                None => !self.did_documents@.contains_key(did),
            },
    {
        match self.did_documents.get(&did) {
            Some(document) => Some((*document, self.properties_of(did), self.did_controllers.keys_with_prefix(&did))),
            None => None,
        }
    }

    /// A DID of a catalog, as `get_did` gives it; nothing when the DID is not in the catalog.
    pub fn get_did_in_catalog(&self, catalog_id: u32, did: Did) -> (r: Option<(DidDocument, Vec<&DidProperty>, Vec<AccountId>)>)
        requires
            self.wf(),
        ensures
            match r {
                Some(x) => {
                    &&& self.dids_by_catalog@.contains_key((catalog_id, did))
                    &&& self.did_documents@.contains_key(did)
                    &&& x.0 == self.did_documents@[did]
                    &&& lists_properties(x.1@, self.did_document_properties@, did)
                    &&& lists_keys(x.2@, self.did_controllers@, did)
                },
                None => !self.dids_by_catalog@.contains_key((catalog_id, did)) || !self.did_documents@.contains_key(did),
            },
    {
        if self.dids_by_catalog.contains_key(&(catalog_id, did)) {
            self.get_did(did)
        } else {
            None
        }
    }

    /// The DIDs whose subject is an account, each once.
    pub fn get_dids_by_subject(&self, subject: AccountId) -> (r: Vec<Did>)
        requires
            self.wf(),
        ensures
            lists_keys(r@, self.did_by_subject@, subject),
    {
        self.did_by_subject.keys_with_prefix(&subject)
    }

    /// The DIDs that an account controls, each once.
    pub fn get_dids_by_controller(&self, controller: AccountId) -> (r: Vec<Did>)
        requires
            self.wf(),
        ensures
            lists_keys(r@, self.did_by_controller@, controller),
    {
        self.did_by_controller.keys_with_prefix(&controller)
    }

    /// The claims against a DID with their ids, each once.
    pub fn get_claims(&self, did: Did) -> (r: Vec<(u32, &Claim)>)
        requires
            self.wf(),
        ensures
            forall|i: int, j: int| 0 <= i < r@.len() && 0 <= j < r@.len() && i != j ==> r@[i].0 != r@[j].0,
            forall|i: int|
                0 <= i < r@.len() ==> self.claims@.contains_key((did, #[trigger] r@[i].0)) && *r@[i].1 == self.claims@[(
                    did,
                    r@[i].0,
                )],
            forall|id: u32| #[trigger] self.claims@.contains_key((did, id)) ==> exists|i: int| 0 <= i < r@.len() && r@[i].0 == id,
    {
        self.claims.entries_with_prefix(&did)
    }

    /// A claim against a DID.
    pub fn get_claim(&self, did: Did, claim_id: u32) -> (r: Option<&Claim>)
        requires
            self.wf(),
        ensures
            match r {
                Some(c) => self.claims@.contains_key((did, claim_id)) && *c == self.claims@[(did, claim_id)],
                None => !self.claims@.contains_key((did, claim_id)),
            },
    {
        self.claims.get(&(did, claim_id))
    }

    /// The claim consumers of a DID with their expirations, each once.
    pub fn get_claim_consumers(&self, did: Did) -> (r: Vec<(AccountId, Moment)>)
        requires
            self.wf(),
        ensures
            lists_prefix(r@, self.claim_consumers@, did),
    {
        self.claim_consumers.copied_with_prefix(&did)
    }

    /// The claim issuers of a DID with their expirations, each once.
    pub fn get_claim_issuers(&self, did: Did) -> (r: Vec<(AccountId, Moment)>)
        requires
            self.wf(),
        ensures
            lists_prefix(r@, self.claim_issuers@, did),
    {
        self.claim_issuers.copied_with_prefix(&did)
    }

    /// The DIDs that an account may make claims against, with the expirations, each once.
    pub fn get_dids_by_consumer(&self, account: AccountId) -> (r: Vec<(Did, Moment)>)
        requires
            self.wf(),
        ensures
            lists_prefix(r@, self.dids_by_consumer@, account),
    {
        self.dids_by_consumer.copied_with_prefix(&account)
    }

    /// The DIDs whose claims an account may attest, with the expirations, each once.
    pub fn get_dids_by_issuer(&self, account: AccountId) -> (r: Vec<(Did, Moment)>)
        requires
            self.wf(),
        ensures
            lists_prefix(r@, self.dids_by_issuer@, account),
    {
        self.dids_by_issuer.copied_with_prefix(&account)
    }

    /// Some claim against a DID was made by an account.
    pub open spec fn has_claim_by(&self, did: Did, account: AccountId) -> bool {
        exists|id: u32| #[trigger] self.claims@.contains_key((did, id)) && self.claims@[(did, id)].created_by == account
    }

    /// Only an account's own claims make a DID no longer outstanding for it: a claim
    /// against the DID created by the account counts, and when every claim against
    /// the DID was created by someone else, none counts.
    pub proof fn lemma_only_own_claims_count(&self, did: Did, account: AccountId, id: u32)
        ensures
            self.claims@.contains_key((did, id)) && self.claims@[(did, id)].created_by == account ==> self.has_claim_by(
                did,
                account,
            ),
            (forall|k: u32| #[trigger] self.claims@.contains_key((did, k)) ==> self.claims@[(did, k)].created_by != account)
                ==> !self.has_claim_by(did, account),
    {
    }

    /// Some claim against a DID is attested.
    pub open spec fn has_attested_claim(&self, did: Did) -> bool {
        exists|id: u32| #[trigger] self.claims@.contains_key((did, id)) && self.claims@[(did, id)].attestation is Some
    }

    /// A DID stops awaiting attestation once any claim against it is attested, and
    /// awaits it as long as every claim against it is unattested.
    pub proof fn lemma_attested_claims_count(&self, did: Did, id: u32)
        ensures
            self.claims@.contains_key((did, id)) && self.claims@[(did, id)].attestation is Some ==> self.has_attested_claim(did),
            (forall|k: u32| #[trigger] self.claims@.contains_key((did, k)) ==> self.claims@[(did, k)].attestation is None)
                ==> !self.has_attested_claim(did),
    {
    }

    fn claim_by_exists(&self, did: Did, account: AccountId) -> (r: bool)
        requires
            self.wf(),
        ensures
            r == self.has_claim_by(did, account),
    {
        let claims = self.claims.entries_with_prefix(&did);
        let mut i: usize = 0;
        while i < claims.len()
            invariant
                i <= claims@.len(),
                forall|j: int| 0 <= j < claims@.len() ==> self.claims@.contains_key((did, #[trigger] claims@[j].0)) && *claims@[j].1 == self.claims@[(did, claims@[j].0)],
                forall|j: int| 0 <= j < i ==> claims@[j].1.created_by != account,
            decreases claims@.len() - i,
        {
            if claims[i].1.created_by == account {
                assert(self.claims@.contains_key((did, claims@[i as int].0)));
                return true;
            }
            i += 1;
        }
        proof {
            if self.has_claim_by(did, account) {
                let id = choose|id: u32| #[trigger] self.claims@.contains_key((did, id)) && self.claims@[(did, id)].created_by == account;
                let j = choose|j: int| 0 <= j < claims@.len() && claims@[j].0 == id;
                assert(claims@[j].1.created_by == account);
            }
        }
        false
    }

    fn attested_claim_exists(&self, did: Did) -> (r: bool)
        requires
            self.wf(),
        ensures
            r == self.has_attested_claim(did),
    {
        let claims = self.claims.entries_with_prefix(&did);
        let mut i: usize = 0;
        while i < claims.len()
            invariant
                i <= claims@.len(),
                forall|j: int| 0 <= j < claims@.len() ==> self.claims@.contains_key((did, #[trigger] claims@[j].0)) && *claims@[j].1 == self.claims@[(did, claims@[j].0)],
                forall|j: int| 0 <= j < i ==> claims@[j].1.attestation is None,
            decreases claims@.len() - i,
        {
            if claims[i].1.attestation.is_some() {
                assert(self.claims@.contains_key((did, claims@[i as int].0)));
                return true;
            }
            i += 1;
        }
        proof {
            if self.has_attested_claim(did) {
                let id = choose|id: u32| #[trigger] self.claims@.contains_key((did, id)) && self.claims@[(did, id)].attestation is Some;
                let j = choose|j: int| 0 <= j < claims@.len() && claims@[j].0 == id;
                assert(claims@[j].1.attestation is Some);
            }
        }
        false
    }

    /// The DIDs that an account may make claims against and has made none against yet,
    /// with the expirations, each once.
    pub fn get_outstanding_claims(&self, account: AccountId) -> (r: Vec<(Did, Moment)>)
        requires
            self.wf(),
        ensures
            forall|i: int, j: int| 0 <= i < r@.len() && 0 <= j < r@.len() && i != j ==> r@[i].0 != r@[j].0,
            forall|i: int|
                0 <= i < r@.len() ==> self.dids_by_consumer@.contains_key((account, #[trigger] r@[i].0))
                    && self.dids_by_consumer@[(account, r@[i].0)] == r@[i].1 && !self.has_claim_by(r@[i].0, account),
            forall|d: Did|
                #[trigger] self.dids_by_consumer@.contains_key((account, d)) && !self.has_claim_by(d, account) ==> exists|
                    i: int,
                | 0 <= i < r@.len() && r@[i].0 == d,
            forall|i: int, k: u32|
                0 <= i < r@.len() && #[trigger] self.claims@.contains_key((r@[i].0, k)) ==> self.claims@[(r@[i].0, k)].created_by
                    != account,
            forall|d: Did|
                #[trigger] self.dids_by_consumer@.contains_key((account, d)) && (forall|k: u32|
                    #[trigger] self.claims@.contains_key((d, k)) ==> self.claims@[(d, k)].created_by != account) ==> exists|
                    i: int,
                | 0 <= i < r@.len() && r@[i].0 == d,
    {
        let all = self.dids_by_consumer.copied_with_prefix(&account);
        let mut r: Vec<(Did, Moment)> = Vec::new();
        let mut i: usize = 0;
        while i < all.len()
            invariant
                self.wf(),
                i <= all@.len(),
                lists_prefix(all@, self.dids_by_consumer@, account),
                forall|x: int| #![trigger r@[x]] 0 <= x < r@.len() ==> exists|j: int| 0 <= j < i && #[trigger] all@[j] == r@[x],
                forall|x: int, y: int| 0 <= x < r@.len() && 0 <= y < r@.len() && x != y ==> r@[x].0 != r@[y].0,
                forall|x: int| 0 <= x < r@.len() ==> !self.has_claim_by(#[trigger] r@[x].0, account),
                forall|j: int| 0 <= j < i && !self.has_claim_by(#[trigger] all@[j].0, account) ==> exists|x: int| 0 <= x < r@.len() && r@[x] == all@[j],
            decreases all@.len() - i,
        {
            let e = all[i];
            if !self.claim_by_exists(e.0, account) {
                let ghost before = r@;
                r.push(e);
                proof {
                    assert forall|x: int| #![trigger r@[x]] 0 <= x < r@.len() implies exists|j: int| 0 <= j < i + 1 && #[trigger] all@[j] == r@[x] by {
                        if x == before.len() {
                            assert(all@[i as int] == r@[x]);
                        } else {
                            assert(r@[x] == before[x]);
                        }
                    }
                    assert forall|x: int, y: int| 0 <= x < r@.len() && 0 <= y < r@.len() && x != y implies r@[x].0 != r@[y].0 by {
                        if x == before.len() {
                            let j = choose|j: int| 0 <= j < i && #[trigger] all@[j] == r@[y];
                            assert(all@[j].0 != all@[i as int].0);
                        } else if y == before.len() {
                            let j = choose|j: int| 0 <= j < i && #[trigger] all@[j] == r@[x];
                            assert(all@[j].0 != all@[i as int].0);
                        } else {
                            assert(before[x].0 != before[y].0);
                        }
                    }
                    assert forall|j: int| 0 <= j < i + 1 && !self.has_claim_by(#[trigger] all@[j].0, account) implies exists|x: int| 0 <= x < r@.len() && r@[x] == all@[j] by {
                        if j == i {
                            assert(r@[before.len() as int] == all@[j]);
                        } else {
                            let x = choose|x: int| 0 <= x < before.len() && before[x] == all@[j];
                            assert(r@[x] == all@[j]);
                        }
                    }
                }
            } else {
                proof {
                    assert forall|x: int| #![trigger r@[x]] 0 <= x < r@.len() implies exists|j: int| 0 <= j < i + 1 && #[trigger] all@[j] == r@[x] by {
                        let j = choose|j: int| 0 <= j < i && #[trigger] all@[j] == r@[x];
                    }
                }
            }
            i += 1;
        }
        proof {
            assert forall|x: int| 0 <= x < r@.len() implies self.dids_by_consumer@.contains_key((account, #[trigger] r@[x].0))
                && self.dids_by_consumer@[(account, r@[x].0)] == r@[x].1 by {
                let j = choose|j: int| 0 <= j < i && #[trigger] all@[j] == r@[x];
                assert(self.dids_by_consumer@.contains_key((account, all@[j].0)));
            }
            assert forall|d: Did|
                #[trigger] self.dids_by_consumer@.contains_key((account, d)) && !self.has_claim_by(d, account) implies exists|
                    x: int,
                | 0 <= x < r@.len() && r@[x].0 == d by {
                let j = choose|j: int| 0 <= j < all@.len() && all@[j].0 == d;
                assert(!self.has_claim_by(all@[j].0, account));
                let x = choose|x: int| 0 <= x < r@.len() && r@[x] == all@[j];
                assert(r@[x].0 == d);
            }
        }
        r
    }

    /// The DIDs whose claims an account may attest and none of whose claims is attested,
    /// with the expirations, each once.
    pub fn get_outstanding_attestations(&self, account: AccountId) -> (r: Vec<(Did, Moment)>)
        requires
            self.wf(),
        ensures
            forall|i: int, j: int| 0 <= i < r@.len() && 0 <= j < r@.len() && i != j ==> r@[i].0 != r@[j].0,
            forall|i: int|
                0 <= i < r@.len() ==> self.dids_by_issuer@.contains_key((account, #[trigger] r@[i].0))
                    && self.dids_by_issuer@[(account, r@[i].0)] == r@[i].1 && !self.has_attested_claim(r@[i].0),
            forall|d: Did|
                #[trigger] self.dids_by_issuer@.contains_key((account, d)) && !self.has_attested_claim(d) ==> exists|
                    i: int,
                | 0 <= i < r@.len() && r@[i].0 == d,
            forall|i: int, k: u32|
                0 <= i < r@.len() && #[trigger] self.claims@.contains_key((r@[i].0, k)) ==> self.claims@[(r@[i].0, k)].attestation
                    is None,
            forall|d: Did|
                #[trigger] self.dids_by_issuer@.contains_key((account, d)) && (forall|k: u32|
                    #[trigger] self.claims@.contains_key((d, k)) ==> self.claims@[(d, k)].attestation is None) ==> exists|
                    i: int,
                | 0 <= i < r@.len() && r@[i].0 == d,
    {
        let all = self.dids_by_issuer.copied_with_prefix(&account);
        let mut r: Vec<(Did, Moment)> = Vec::new();
        let mut i: usize = 0;
        while i < all.len()
            invariant
                self.wf(),
                i <= all@.len(),
                lists_prefix(all@, self.dids_by_issuer@, account),
                forall|x: int| #![trigger r@[x]] 0 <= x < r@.len() ==> exists|j: int| 0 <= j < i && #[trigger] all@[j] == r@[x],
                forall|x: int, y: int| 0 <= x < r@.len() && 0 <= y < r@.len() && x != y ==> r@[x].0 != r@[y].0,
                forall|x: int| 0 <= x < r@.len() ==> !self.has_attested_claim(#[trigger] r@[x].0),
                forall|j: int| 0 <= j < i && !self.has_attested_claim(#[trigger] all@[j].0) ==> exists|x: int| 0 <= x < r@.len() && r@[x] == all@[j],
            decreases all@.len() - i,
        {
            let e = all[i];
            if !self.attested_claim_exists(e.0) {
                let ghost before = r@;
                r.push(e);
                proof {
                    assert forall|x: int| #![trigger r@[x]] 0 <= x < r@.len() implies exists|j: int| 0 <= j < i + 1 && #[trigger] all@[j] == r@[x] by {
                        if x == before.len() {
                            assert(all@[i as int] == r@[x]);
                        } else {
                            assert(r@[x] == before[x]);
                        }
                    }
                    assert forall|x: int, y: int| 0 <= x < r@.len() && 0 <= y < r@.len() && x != y implies r@[x].0 != r@[y].0 by {
                        if x == before.len() {
                            let j = choose|j: int| 0 <= j < i && #[trigger] all@[j] == r@[y];
                            assert(all@[j].0 != all@[i as int].0);
                        } else if y == before.len() {
                            let j = choose|j: int| 0 <= j < i && #[trigger] all@[j] == r@[x];
                            assert(all@[j].0 != all@[i as int].0);
                        } else {
                            assert(before[x].0 != before[y].0);
                        }
                    }
                    assert forall|j: int| 0 <= j < i + 1 && !self.has_attested_claim(#[trigger] all@[j].0) implies exists|x: int| 0 <= x < r@.len() && r@[x] == all@[j] by {
                        if j == i {
                            assert(r@[before.len() as int] == all@[j]);
                        } else {
                            let x = choose|x: int| 0 <= x < before.len() && before[x] == all@[j];
                            assert(r@[x] == all@[j]);
                        }
                    }
                }
            } else {
                proof {
                    assert forall|x: int| #![trigger r@[x]] 0 <= x < r@.len() implies exists|j: int| 0 <= j < i + 1 && #[trigger] all@[j] == r@[x] by {
                        let j = choose|j: int| 0 <= j < i && #[trigger] all@[j] == r@[x];
                    }
                }
            }
            i += 1;
        }
        proof {
            assert forall|x: int| 0 <= x < r@.len() implies self.dids_by_issuer@.contains_key((account, #[trigger] r@[x].0))
                && self.dids_by_issuer@[(account, r@[x].0)] == r@[x].1 by {
                let j = choose|j: int| 0 <= j < i && #[trigger] all@[j] == r@[x];
                assert(self.dids_by_issuer@.contains_key((account, all@[j].0)));
            }
            assert forall|d: Did|
                #[trigger] self.dids_by_issuer@.contains_key((account, d)) && !self.has_attested_claim(d) implies exists|
                    x: int,
                | 0 <= x < r@.len() && r@[x].0 == d by {
                let j = choose|j: int| 0 <= j < all@.len() && all@[j].0 == d;
                assert(!self.has_attested_claim(all@[j].0));
                let x = choose|x: int| 0 <= x < r@.len() && r@[x] == all@[j];
                assert(r@[x].0 == d);
            }
        }
        r
    }
}

impl Identity {
    /// The DIDs of a catalog with a text or DID property of a name, each once, with
    /// the bytes that a text search of the property looks at.
    pub fn text_or_did_candidates(&self, catalog_id: u32, name: Vec<u8>) -> (r: Vec<(Did, Vec<u8>)>)
        requires
            self.wf(),
            name@.len() <= u32::MAX,
        ensures
            forall|i: int, j: int| 0 <= i < r@.len() && 0 <= j < r@.len() && i != j ==> r@[i].0 != r@[j].0,
            forall|i: int|
                0 <= i < r@.len() ==> (self.catalog_fact(catalog_id, name@, #[trigger] r@[i].0) matches Some(f)
                    && searchable_bytes(f) == Some(r@[i].1@)),
            forall|d: Did|
                (#[trigger] self.catalog_fact(catalog_id, name@, d) matches Some(f) && searchable_bytes(f) is Some)
                    ==> exists|i: int| 0 <= i < r@.len() && r@[i].0 == d,
    {
        let key = property_key_of(&name);
        let candidates = self.catalog_facts(catalog_id, key);
        let mut r: Vec<(Did, Vec<u8>)> = Vec::new();
        let mut i: usize = 0;
        while i < candidates.len()
            invariant
                i <= candidates@.len(),
                key == property_key(name@),
                forall|x: int, y: int| 0 <= x < candidates@.len() && 0 <= y < candidates@.len() && x != y ==> candidates@[x].0 != candidates@[y].0,
                forall|x: int|
                    #![trigger candidates@[x]]
                    0 <= x < candidates@.len() ==> self.catalog_fact(catalog_id, name@, candidates@[x].0) == Some(*candidates@[x].1),
                forall|x: int| #![trigger r@[x]] 0 <= x < r@.len() ==> exists|j: int| 0 <= j < i && #[trigger] candidates@[j].0 == r@[x].0,
                forall|x: int, y: int| 0 <= x < r@.len() && 0 <= y < r@.len() && x != y ==> r@[x].0 != r@[y].0,
                forall|x: int|
                    0 <= x < r@.len() ==> (self.catalog_fact(catalog_id, name@, #[trigger] r@[x].0) matches Some(f)
                        && searchable_bytes(f) == Some(r@[x].1@)),
                forall|j: int|
                    0 <= j < i && searchable_bytes(*#[trigger] candidates@[j].1) is Some ==> exists|x: int| 0 <= x < r@.len() && r@[x].0 == candidates@[j].0,
            decreases candidates@.len() - i,
        {
            let d = candidates[i].0;
            let bytes = match candidates[i].1 {
                Fact::Text(v) => Some(copy_bytes(v)),
                Fact::Did(x) => Some(bytes_of_array(&x.id)),
                _ => None,
            };
            assert(candidates@[i as int] == candidates@[i as int]);
            match bytes {
                Some(b) => {
                    let ghost before = r@;
                    r.push((d, b));
                    proof {
                        assert forall|x: int| #![trigger r@[x]] 0 <= x < r@.len() implies exists|j: int| 0 <= j < i + 1 && #[trigger] candidates@[j].0 == r@[x].0 by {
                            if x == before.len() {
                                assert(candidates@[i as int].0 == r@[x].0);
                            } else {
                                assert(r@[x] == before[x]);
                            }
                        }
                        assert forall|x: int, y: int| 0 <= x < r@.len() && 0 <= y < r@.len() && x != y implies r@[x].0 != r@[y].0 by {
                            if x == before.len() {
                                let j = choose|j: int| 0 <= j < i && #[trigger] candidates@[j].0 == r@[y].0;
                                assert(candidates@[j].0 != candidates@[i as int].0);
                            } else if y == before.len() {
                                let j = choose|j: int| 0 <= j < i && #[trigger] candidates@[j].0 == r@[x].0;
                                assert(candidates@[j].0 != candidates@[i as int].0);
                            } else {
                                assert(before[x].0 != before[y].0);
                            }
                        }
                        assert forall|x: int|
                            0 <= x < r@.len() implies (self.catalog_fact(catalog_id, name@, #[trigger] r@[x].0) matches Some(f)
                                && searchable_bytes(f) == Some(r@[x].1@)) by {
                            if x < before.len() {
                                assert(r@[x] == before[x]);
                            }
                        }
                        assert forall|j: int|
                            0 <= j < i + 1 && searchable_bytes(*#[trigger] candidates@[j].1) is Some implies exists|x: int| 0 <= x < r@.len() && r@[x].0 == candidates@[j].0 by {
                            if j == i {
                                assert(r@[before.len() as int].0 == candidates@[j].0);
                            } else {
                                let x = choose|x: int| 0 <= x < before.len() && before[x].0 == candidates@[j].0;
                                assert(r@[x].0 == candidates@[j].0);
                            }
                        }
                    }
                },
                None => {
                    proof {
                        assert forall|x: int| #![trigger r@[x]] 0 <= x < r@.len() implies exists|j: int| 0 <= j < i + 1 && #[trigger] candidates@[j].0 == r@[x].0 by {
                            let j = choose|j: int| 0 <= j < i && #[trigger] candidates@[j].0 == r@[x].0;
                        }
                    }
                },
            }
            i += 1;
        }
        proof {
            assert forall|d: Did|
                (#[trigger] self.catalog_fact(catalog_id, name@, d) matches Some(f) && searchable_bytes(f) is Some)
                    implies exists|x: int| 0 <= x < r@.len() && r@[x].0 == d by {
                let j = choose|j: int| 0 <= j < candidates@.len() && candidates@[j].0 == d;
                assert(self.catalog_fact(catalog_id, name@, candidates@[j].0) == Some(*candidates@[j].1));
            }
        }
        r
    }

    /// The DIDs of a catalog with a float property of a name, each once, with the
    /// little-endian bytes of the float.
    pub fn float_candidates(&self, catalog_id: u32, name: Vec<u8>) -> (r: Vec<(Did, [u8; 8])>)
        requires
            self.wf(),
            name@.len() <= u32::MAX,
        ensures
            forall|i: int, j: int| 0 <= i < r@.len() && 0 <= j < r@.len() && i != j ==> r@[i].0 != r@[j].0,
            forall|i: int|
                0 <= i < r@.len() ==> (self.catalog_fact(catalog_id, name@, #[trigger] r@[i].0) matches Some(f)
                    && float_bytes(f) == Some(r@[i].1)),
            forall|d: Did|
                (#[trigger] self.catalog_fact(catalog_id, name@, d) matches Some(f) && float_bytes(f) is Some)
                    ==> exists|i: int| 0 <= i < r@.len() && r@[i].0 == d,
    {
        let key = property_key_of(&name);
        let candidates = self.catalog_facts(catalog_id, key);
        let mut r: Vec<(Did, [u8; 8])> = Vec::new();
        let mut i: usize = 0;
        while i < candidates.len()
            invariant
                i <= candidates@.len(),
                key == property_key(name@),
                forall|x: int, y: int| 0 <= x < candidates@.len() && 0 <= y < candidates@.len() && x != y ==> candidates@[x].0 != candidates@[y].0,
                forall|x: int|
                    #![trigger candidates@[x]]
                    0 <= x < candidates@.len() ==> self.catalog_fact(catalog_id, name@, candidates@[x].0) == Some(*candidates@[x].1),
                forall|x: int| #![trigger r@[x]] 0 <= x < r@.len() ==> exists|j: int| 0 <= j < i && #[trigger] candidates@[j].0 == r@[x].0,
                forall|x: int, y: int| 0 <= x < r@.len() && 0 <= y < r@.len() && x != y ==> r@[x].0 != r@[y].0,
                forall|x: int|
                    0 <= x < r@.len() ==> (self.catalog_fact(catalog_id, name@, #[trigger] r@[x].0) matches Some(f)
                        && float_bytes(f) == Some(r@[x].1)),
                forall|j: int|
                    0 <= j < i && float_bytes(*#[trigger] candidates@[j].1) is Some ==> exists|x: int| 0 <= x < r@.len() && r@[x].0 == candidates@[j].0,
            decreases candidates@.len() - i,
        {
            let d = candidates[i].0;
            let bytes = match candidates[i].1 {
                Fact::Float(v) => Some(*v),
                _ => None,
            };
            assert(candidates@[i as int] == candidates@[i as int]);
            match bytes {
                Some(b) => {
                    let ghost before = r@;
                    r.push((d, b));
                    proof {
                        assert forall|x: int| #![trigger r@[x]] 0 <= x < r@.len() implies exists|j: int| 0 <= j < i + 1 && #[trigger] candidates@[j].0 == r@[x].0 by {
                            if x == before.len() {
                                assert(candidates@[i as int].0 == r@[x].0);
                            } else {
                                assert(r@[x] == before[x]);
                            }
                        }
                        assert forall|x: int, y: int| 0 <= x < r@.len() && 0 <= y < r@.len() && x != y implies r@[x].0 != r@[y].0 by {
                            if x == before.len() {
                                let j = choose|j: int| 0 <= j < i && #[trigger] candidates@[j].0 == r@[y].0;
                                assert(candidates@[j].0 != candidates@[i as int].0);
                            } else if y == before.len() {
                                let j = choose|j: int| 0 <= j < i && #[trigger] candidates@[j].0 == r@[x].0;
                                assert(candidates@[j].0 != candidates@[i as int].0);
                            } else {
                                assert(before[x].0 != before[y].0);
                            }
                        }
                        assert forall|x: int|
                            0 <= x < r@.len() implies (self.catalog_fact(catalog_id, name@, #[trigger] r@[x].0) matches Some(f)
                                && float_bytes(f) == Some(r@[x].1)) by {
                            if x < before.len() {
                                assert(r@[x] == before[x]);
                            }
                        }
                        assert forall|j: int|
                            0 <= j < i + 1 && float_bytes(*#[trigger] candidates@[j].1) is Some implies exists|x: int| 0 <= x < r@.len() && r@[x].0 == candidates@[j].0 by {
                            if j == i {
                                assert(r@[before.len() as int].0 == candidates@[j].0);
                            } else {
                                let x = choose|x: int| 0 <= x < before.len() && before[x].0 == candidates@[j].0;
                                assert(r@[x].0 == candidates@[j].0);
                            }
                        }
                    }
                },
                None => {
                    proof {
                        assert forall|x: int| #![trigger r@[x]] 0 <= x < r@.len() implies exists|j: int| 0 <= j < i + 1 && #[trigger] candidates@[j].0 == r@[x].0 by {
                            let j = choose|j: int| 0 <= j < i && #[trigger] candidates@[j].0 == r@[x].0;
                        }
                    }
                },
            }
            i += 1;
        }
        proof {
            assert forall|d: Did|
                (#[trigger] self.catalog_fact(catalog_id, name@, d) matches Some(f) && float_bytes(f) is Some)
                    implies exists|x: int| 0 <= x < r@.len() && r@[x].0 == d by {
                let j = choose|j: int| 0 <= j < candidates@.len() && candidates@[j].0 == d;
                assert(self.catalog_fact(catalog_id, name@, candidates@[j].0) == Some(*candidates@[j].1));
            }
        }
        r
    }
}

} // verus!
