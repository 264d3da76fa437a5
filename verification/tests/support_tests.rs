use borlaug::collective::{
    ensure_member, ensure_members, ensure_members_at_least, ensure_proportion_at_least, ensure_proportion_more_than,
    CollectiveOrigin,
};
use borlaug::asset_registry::{
    get_max_property_fact_len as get_max_asset_property_fact_len,
    get_max_property_name_len as get_max_asset_property_name_len,
};
use borlaug::primitives::{AssetProperty, DidProperty, Fact, Sequence, SequenceStatus, Statement, Template, TemplateStatus};
use borlaug::table::Table;
use borlaug::weight_inputs::{
    fact_len_of, get_did_for_bulk_lens, get_max_key_len,
    get_max_property_fact_len, get_max_property_fact_len_option, get_max_property_name_len,
    get_max_property_name_len_option, get_max_statement_fact_len, get_max_statement_name_len, max_u32,
};

fn prop(name: &[u8], fact: Fact) -> DidProperty {
    DidProperty { name: name.to_vec(), fact }
}

#[test]
fn longest_names_and_facts() {
    let props = vec![prop(b"ab", Fact::Text(b"12345678901234".to_vec())), prop(b"abcde", Fact::U8(1))];
    assert_eq!(get_max_property_name_len(&props), 5);
    assert_eq!(get_max_property_fact_len(&props), 14);
    assert_eq!(get_max_property_fact_len(&vec![prop(b"a", Fact::Text(b"x".to_vec()))]), 1);
    assert_eq!(get_max_property_fact_len(&vec![prop(b"a", Fact::Bool(true))]), 10);
    assert_eq!(get_max_property_name_len_option(&None), 0);
    assert_eq!(get_max_property_fact_len_option(&Some(props.clone())), 14);
    assert_eq!(get_max_property_name_len(&vec![]), 0);
    let statements = vec![Statement { name: b"abc".to_vec(), fact: Fact::U32(7), for_issuer: false }];
    assert_eq!(get_max_statement_name_len(&statements), 3);
    assert_eq!(get_max_statement_fact_len(&statements), 10);
    assert_eq!(get_max_key_len(&vec![b"a".to_vec(), b"abcd".to_vec(), b"ab".to_vec()]), 4);
    let assets = vec![AssetProperty { name: b"xyz".to_vec(), fact: Fact::Text(vec![0u8; 20]) }];
    assert_eq!(get_max_asset_property_name_len(&assets), 3);
    assert_eq!(get_max_asset_property_fact_len(&assets), 20);
    assert_eq!(fact_len_of(&Fact::Attachment([0u8; 32], b"file".to_vec())), 10);
    assert_eq!(max_u32(&vec![3, 9, 2]), 9);
}

#[test]
fn bulk_lens_are_rounded_up_averages() {
    assert_eq!(get_did_for_bulk_lens(&vec![]), (0, 0, 0));
    assert_eq!(get_did_for_bulk_lens(&vec![(1, None), (2, None)]), (0, 0, 0));
    let dids = vec![
        (1, Some(vec![prop(b"abc", Fact::Text(b"12345".to_vec())), prop(b"a", Fact::U8(1))])),
        (2, None),
        (3, Some(vec![prop(b"abcd", Fact::Text(b"1".to_vec()))])),
    ];
    // 3 properties over 3 DIDs; names 3+1+4 = 8 over 3; facts 5+10+1 = 16 over 3.
    assert_eq!(get_did_for_bulk_lens(&dids), (3, 6, 1));
}

#[test]
fn collective_origins() {
    assert_eq!(ensure_members(Some(CollectiveOrigin::Members(3, 5)), 3), Ok(3));
    assert_eq!(ensure_members(Some(CollectiveOrigin::Members(2, 5)), 3), Err(()));
    assert_eq!(ensure_members(None, 0), Err(()));
    assert_eq!(ensure_member(CollectiveOrigin::Member(7)), Ok(7));
    assert_eq!(ensure_member(CollectiveOrigin::Members(1, 1)), Err(CollectiveOrigin::Members(1, 1)));
    assert_eq!(ensure_members_at_least(CollectiveOrigin::Members(4, 6), 4), Ok((4, 6)));
    assert_eq!(ensure_members_at_least(CollectiveOrigin::Member(1), 0), Err(CollectiveOrigin::Member(1)));
    // 2 of 3 is more than a half and at least two thirds, not more than two thirds.
    assert_eq!(ensure_proportion_more_than(CollectiveOrigin::Members(2, 3), 1, 2), Ok(()));
    assert_eq!(ensure_proportion_at_least(CollectiveOrigin::Members(2, 3), 2, 3), Ok(()));
    assert!(ensure_proportion_more_than(CollectiveOrigin::Members(2, 3), 2, 3).is_err());
}

#[test]
fn table_operations() {
    let mut t: Table<(u32, u32), u64> = Table::new();
    t.insert((1, 1), 10);
    t.insert((1, 2), 20);
    t.insert((2, 1), 30);
    t.insert((1, 1), 11);
    assert_eq!(t.len(), 3);
    assert_eq!(t.get(&(1, 1)), Some(&11));
    let mut under_one = t.keys_with_prefix(&1);
    under_one.sort();
    assert_eq!(under_one, vec![1, 2]);
    assert!(t.has_prefix(&2));
    assert_eq!(t.remove(&(2, 1)), Some(30));
    assert!(!t.has_prefix(&2));
    t.remove_prefix(&1);
    assert_eq!(t.len(), 0);
    t.insert_all(vec![((5, 5), 1), ((5, 5), 2)]);
    assert_eq!(t.get(&(5, 5)), Some(&2));
    t.remove_all(&vec![(5, 5), (6, 6)]);
    assert!(!t.contains_key(&(5, 5)));
}

#[test]
fn defaults_of_sequences_and_templates() {
    assert_eq!(SequenceStatus::default(), SequenceStatus::InProgress);
    assert_eq!(TemplateStatus::default(), TemplateStatus::Creating);
    let s = Sequence::default();
    assert!(s.name.is_empty());
    assert_eq!(s.status, SequenceStatus::InProgress);
    let t = Template::default();
    assert!(t.name.is_empty());
    assert_eq!(t.status, TemplateStatus::Creating);
}
