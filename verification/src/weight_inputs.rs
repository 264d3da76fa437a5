//! The sizes that the weights of calls are estimated from: the longest name and fact
//! string of some properties or statements, the longest key, and the average sizes
//! of a bulk registration. A fact that is not text counts as ten bytes. Lengths are
//! taken as `u32` and totals wrap, as the runtime computes them.
use crate::primitives::{AccountId, DidProperty, Fact, Statement};
use vstd::prelude::*;

verus! {

/// The length that a fact counts for: that of its text, or ten.
pub open spec fn fact_len(f: Fact) -> u32 {
    match f {
        Fact::Text(s) => s@.len() as u32,
        _ => 10,
    }
}

/// The largest number of a sequence, or zero when it is empty.
pub open spec fn max_of(s: Seq<u32>) -> u32
    decreases s.len(),
{
    if s.len() == 0 {
        0
    } else if s.last() > max_of(s.drop_last()) {
        s.last()
    } else {
        max_of(s.drop_last())
    }
}

/// The length that a fact counts for.
pub fn fact_len_of(f: &Fact) -> (r: u32)
    ensures
        r == fact_len(*f),
{
    match f {
        Fact::Text(s) => s.len() as u32,
        _ => 10,
    }
}

/// The largest number of a list, or zero when it is empty.
pub fn max_u32(v: &Vec<u32>) -> (r: u32)
    ensures
        r == max_of(v@),
{
    let mut m: u32 = 0;
    let mut i: usize = 0;
    while i < v.len()
        invariant
            i <= v@.len(),
            m == max_of(v@.take(i as int)),
        decreases v@.len() - i,
    {
        assert(v@.take(i as int + 1).drop_last() =~= v@.take(i as int));
        if v[i] > m {
            m = v[i];
        }
        i += 1;
    }
    assert(v@.take(i as int) =~= v@);
    m
}

/// The name lengths of properties.
pub open spec fn property_name_lens(ps: Seq<DidProperty>) -> Seq<u32> {
    ps.map_values(|p: DidProperty| p.name@.len() as u32)
}

/// The fact lengths of properties.
pub open spec fn property_fact_lens(ps: Seq<DidProperty>) -> Seq<u32> {
    ps.map_values(|p: DidProperty| fact_len(p.fact))
}

/// The longest name of some properties.
pub fn get_max_property_name_len(properties: &Vec<DidProperty>) -> (r: u32)
    ensures
        r == max_of(property_name_lens(properties@)),
{
    let mut lens: Vec<u32> = Vec::new();
    let mut i: usize = 0;
    while i < properties.len()
        invariant
            i <= properties@.len(),
            lens@ == property_name_lens(properties@.take(i as int)),
        decreases properties@.len() - i,
    {
        lens.push(properties[i].name.len() as u32);
        assert(properties@.take(i as int + 1) =~= properties@.take(i as int).push(properties@[i as int]));
        assert(lens@ =~= property_name_lens(properties@.take(i as int + 1)));
        i += 1;
    }
    assert(properties@.take(i as int) =~= properties@);
    max_u32(&lens)
}

/// The longest fact of some properties.
pub fn get_max_property_fact_len(properties: &Vec<DidProperty>) -> (r: u32)
    ensures
        r == max_of(property_fact_lens(properties@)),
{
    let mut lens: Vec<u32> = Vec::new();
    let mut i: usize = 0;
    while i < properties.len()
        invariant
            i <= properties@.len(),
            lens@ == property_fact_lens(properties@.take(i as int)),
        decreases properties@.len() - i,
    {
        lens.push(fact_len_of(&properties[i].fact));
        assert(properties@.take(i as int + 1) =~= properties@.take(i as int).push(properties@[i as int]));
        assert(lens@ =~= property_fact_lens(properties@.take(i as int + 1)));
        i += 1;
    }
    assert(properties@.take(i as int) =~= properties@);
    max_u32(&lens)
}

/// The longest name of optional properties; zero when there are none.
pub fn get_max_property_name_len_option(properties: &Option<Vec<DidProperty>>) -> (r: u32)
    ensures
        r == match *properties {
            Some(ps) => max_of(property_name_lens(ps@)),
            None => 0,
        },
{
    match properties {
        Some(ps) => get_max_property_name_len(ps),
        None => 0,
    }
}

/// The longest fact of optional properties; zero when there are none.
pub fn get_max_property_fact_len_option(properties: &Option<Vec<DidProperty>>) -> (r: u32)
    ensures
        r == match *properties {
            Some(ps) => max_of(property_fact_lens(ps@)),
            None => 0,
        },
{
    match properties {
        Some(ps) => get_max_property_fact_len(ps),
        None => 0,
    }
}

/// The name lengths of statements.
pub open spec fn statement_name_lens(ss: Seq<Statement>) -> Seq<u32> {
    ss.map_values(|s: Statement| s.name@.len() as u32)
}

/// The fact lengths of statements.
pub open spec fn statement_fact_lens(ss: Seq<Statement>) -> Seq<u32> {
    ss.map_values(|s: Statement| fact_len(s.fact))
}

/// The longest name of some statements.
pub fn get_max_statement_name_len(statements: &Vec<Statement>) -> (r: u32)
    ensures
        r == max_of(statement_name_lens(statements@)),
{
    let mut lens: Vec<u32> = Vec::new();
    let mut i: usize = 0;
    while i < statements.len()
        invariant
            i <= statements@.len(),
            lens@ == statement_name_lens(statements@.take(i as int)),
        decreases statements@.len() - i,
    {
        lens.push(statements[i].name.len() as u32);
        assert(statements@.take(i as int + 1) =~= statements@.take(i as int).push(statements@[i as int]));
        assert(lens@ =~= statement_name_lens(statements@.take(i as int + 1)));
        i += 1;
    }
    assert(statements@.take(i as int) =~= statements@);
    max_u32(&lens)
}

/// The longest fact of some statements.
pub fn get_max_statement_fact_len(statements: &Vec<Statement>) -> (r: u32)
    ensures
        r == max_of(statement_fact_lens(statements@)),
{
    let mut lens: Vec<u32> = Vec::new();
    let mut i: usize = 0;
    while i < statements.len()
        invariant
            i <= statements@.len(),
            lens@ == statement_fact_lens(statements@.take(i as int)),
        decreases statements@.len() - i,
    {
        lens.push(fact_len_of(&statements[i].fact));
        assert(statements@.take(i as int + 1) =~= statements@.take(i as int).push(statements@[i as int]));
        assert(lens@ =~= statement_fact_lens(statements@.take(i as int + 1)));
        i += 1;
    }
    assert(statements@.take(i as int) =~= statements@);
    max_u32(&lens)
}

/// The longest of some keys.
pub fn get_max_key_len(keys: &Vec<Vec<u8>>) -> (r: u32)
    ensures
        r == max_of(keys@.map_values(|k: Vec<u8>| k@.len() as u32)),
{
    let mut lens: Vec<u32> = Vec::new();
    let mut i: usize = 0;
    while i < keys.len()
        invariant
            i <= keys@.len(),
            lens@ == keys@.take(i as int).map_values(|k: Vec<u8>| k@.len() as u32),
        decreases keys@.len() - i,
    {
        lens.push(keys[i].len() as u32);
        assert(keys@.take(i as int + 1) =~= keys@.take(i as int).push(keys@[i as int]));
        assert(lens@ =~= keys@.take(i as int + 1).map_values(|k: Vec<u8>| k@.len() as u32));
        i += 1;
    }
    assert(keys@.take(i as int) =~= keys@);
    max_u32(&lens)
}

/// The properties of an entry of a bulk registration.
pub open spec fn entry_properties(e: (AccountId, Option<Vec<DidProperty>>)) -> Seq<DidProperty> {
    match e.1 {
        Some(ps) => ps@,
        None => Seq::empty(),
    }
}

/// A running total plus the name lengths of properties, wrapping.
pub open spec fn add_name_lens(acc: u32, ps: Seq<DidProperty>) -> u32
    decreases ps.len(),
{
    if ps.len() == 0 {
        acc
    } else {
        add_name_lens(acc, ps.drop_last()).wrapping_add(ps.last().name@.len() as u32)
    }
}

/// A running total plus the fact lengths of properties, wrapping.
pub open spec fn add_fact_lens(acc: u32, ps: Seq<DidProperty>) -> u32
    decreases ps.len(),
{
    if ps.len() == 0 {
        acc
    } else {
        add_fact_lens(acc, ps.drop_last()).wrapping_add(fact_len(ps.last().fact))
    }
}

/// The totals of a bulk registration, wrapping: (properties, name lengths, fact lengths).
pub open spec fn bulk_totals(dids: Seq<(AccountId, Option<Vec<DidProperty>>)>) -> (u32, u32, u32)
    decreases dids.len(),
{
    if dids.len() == 0 {
        (0, 0, 0)
    } else {
        let t = bulk_totals(dids.drop_last());
        let ps = entry_properties(dids.last());
        (t.0.wrapping_add(ps.len() as u32), add_name_lens(t.1, ps), add_fact_lens(t.2, ps))
    }
}

/// A quotient rounded up.
pub open spec fn div_up(a: u32, b: u32) -> u32
    recommends
        b != 0,
{
    (a / b + if a % b != 0 {
        1int
    } else {
        0int
    }) as u32
}

/// The averages of a bulk registration: (name length per property, fact length per
/// property, properties per DID), each rounded up; zero where nothing is averaged.
pub open spec fn bulk_lens(dids: Seq<(AccountId, Option<Vec<DidProperty>>)>) -> (u32, u32, u32) {
    let t = bulk_totals(dids);
    let count = dids.len() as u32;
    if count == 0 {
        (0, 0, 0)
    } else if t.0 == 0 {
        (0, 0, div_up(t.0, count))
    } else {
        (div_up(t.1, t.0), div_up(t.2, t.0), div_up(t.0, count))
    }
}

fn div_up_of(a: u32, b: u32) -> (r: u32)
    requires
        b != 0,
    ensures
        r == div_up(a, b),
{
    if a % b != 0 {
        assert(a / b + 1 <= u32::MAX) by (nonlinear_arith)
            requires
                b != 0,
                a % b != 0,
                a <= u32::MAX,
        {
            assert(b >= 2);
            assert(a / b * b <= a);
        }
        a / b + 1
    } else {
        a / b
    }
}

/// The averages that the weight of a bulk registration is estimated from.
pub fn get_did_for_bulk_lens(dids: &Vec<(AccountId, Option<Vec<DidProperty>>)>) -> (r: (u32, u32, u32))
    ensures
        r == bulk_lens(dids@),
{
    let mut count_tot: u32 = 0;
    let mut name_tot: u32 = 0;
    let mut fact_tot: u32 = 0;
    let mut i: usize = 0;
    while i < dids.len()
        invariant
            i <= dids@.len(),
            (count_tot, name_tot, fact_tot) == bulk_totals(dids@.take(i as int)),
        decreases dids@.len() - i,
    {
        assert(dids@.take(i as int + 1).drop_last() =~= dids@.take(i as int));
        match &dids[i].1 {
            Some(ps) => {
                count_tot = count_tot.wrapping_add(ps.len() as u32);
                let ghost name_start = name_tot;
                let ghost fact_start = fact_tot;
                let mut j: usize = 0;
                while j < ps.len()
                    invariant
                        j <= ps@.len(),
                        name_tot == add_name_lens(name_start, ps@.take(j as int)),
                        fact_tot == add_fact_lens(fact_start, ps@.take(j as int)),
                    decreases ps@.len() - j,
                {
                    assert(ps@.take(j as int + 1).drop_last() =~= ps@.take(j as int));
                    name_tot = name_tot.wrapping_add(ps[j].name.len() as u32);
                    fact_tot = fact_tot.wrapping_add(fact_len_of(&ps[j].fact));
                    j += 1;
                }
                assert(ps@.take(j as int) =~= ps@);
            },
            None => {
                assert(add_name_lens(name_tot, Seq::<DidProperty>::empty()) == name_tot);
                assert(add_fact_lens(fact_tot, Seq::<DidProperty>::empty()) == fact_tot);
            },
        }
        i += 1;
    }
    assert(dids@.take(i as int) =~= dids@);
    let did_count = dids.len() as u32;
    if did_count == 0 {
        return (0, 0, 0);
    }
    let count_avg = div_up_of(count_tot, did_count);
    if count_tot == 0 {
        return (0, 0, count_avg);
    }
    (div_up_of(name_tot, count_tot), div_up_of(fact_tot, count_tot), count_avg)
}

} // verus!
