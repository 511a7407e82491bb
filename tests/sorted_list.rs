use fee_market_simulator::sorted_list::KeyBound::{Excluded, Included, Unbounded};
use fee_market_simulator::sorted_list::{IntoTuples, SortedList, Tuples};
use std::time::Instant;

fn insert_only_new(list: &mut SortedList<u32, u8>, key: u32, value: u8) {
    assert!(
        list.insert(key, value),
        "pair existed already: ({:?}, {:?})",
        key,
        value
    );
}

fn to_vec(mut it: Tuples<u32, u8>) -> Vec<(u32, u8)> {
    let mut out = Vec::new();
    while let Some((a, b)) = it.next() {
        out.push((*a, *b));
    }
    out
}

fn to_vec_rev(mut it: Tuples<u32, u8>) -> Vec<(u32, u8)> {
    let mut out = Vec::new();
    while let Some((a, b)) = it.next_back() {
        out.push((*a, *b));
    }
    out
}

fn collect_owned(mut it: IntoTuples<u32, u8>) -> Vec<(u32, u8)> {
    let mut out = Vec::new();
    while let Some(pair) = it.next() {
        out.push(pair);
    }
    out
}

fn seven_pairs() -> SortedList<u32, u8> {
    let mut list: SortedList<u32, u8> = SortedList::new();
    insert_only_new(&mut list, 1, 3);
    insert_only_new(&mut list, 0, 0);
    insert_only_new(&mut list, 0, 1);
    insert_only_new(&mut list, 2, 4);
    insert_only_new(&mut list, 0, 2);
    insert_only_new(&mut list, 3, 6);
    insert_only_new(&mut list, 2, 5);
    list
}

#[test]
fn it_works() {
    assert_eq!(2 + 2, 4);
}

#[test]
fn insert_in_order_and_iterate() {
    let mut list = SortedList::new();
    insert_only_new(&mut list, 0u32, 0u8);
    insert_only_new(&mut list, 1u32, 4u8);

    let mut iter = list.iter();

    assert_eq!(iter.next(), Some((&0, &0)));
    assert_eq!(iter.next(), Some((&1, &4)));
    assert_eq!(iter.next(), None);
}

#[test]
fn insert_out_of_order_and_iterate() {
    let mut list = SortedList::new();
    insert_only_new(&mut list, 1u32, 4u8);
    insert_only_new(&mut list, 0u32, 0u8);

    let mut iter = list.iter();

    assert_eq!(iter.next(), Some((&0, &0)));
    assert_eq!(iter.next(), Some((&1, &4)));
    assert_eq!(iter.next(), None);
}

#[test]
fn insert_duplicate() {
    let mut list = SortedList::new();
    assert!(list.insert(1u32, 4u8));
    assert!(!list.insert(1u32, 4u8));
}

#[test]
fn insert_multiple_in_order() {
    let mut list = SortedList::new();
    insert_only_new(&mut list, 0u32, 0u8);
    insert_only_new(&mut list, 0u32, 1u8);
    insert_only_new(&mut list, 0u32, 2u8);
    insert_only_new(&mut list, 0u32, 3u8);

    let mut iter = list.iter();
    assert_eq!(iter.next(), Some((&0, &0)));
    assert_eq!(iter.next(), Some((&0, &1)));
    assert_eq!(iter.next(), Some((&0, &2)));
    assert_eq!(iter.next(), Some((&0, &3)));
    assert_eq!(iter.next(), None);
}

#[test]
fn multiple_values_are_iterated_in_insertion_order() {
    let mut list = SortedList::new();
    insert_only_new(&mut list, 0u32, 3u8);
    insert_only_new(&mut list, 0u32, 2u8);
    insert_only_new(&mut list, 0u32, 1u8);
    insert_only_new(&mut list, 0u32, 0u8);

    let mut iter = list.iter();
    assert_eq!(iter.next(), Some((&0, &3)));
    assert_eq!(iter.next(), Some((&0, &2)));
    assert_eq!(iter.next(), Some((&0, &1)));
    assert_eq!(iter.next(), Some((&0, &0)));
    assert_eq!(iter.next(), None);
}

#[test]
fn iterate_over_mixed_in_order() {
    let mut list = SortedList::new();
    insert_only_new(&mut list, 0u32, 0u8);
    insert_only_new(&mut list, 0u32, 1u8);
    insert_only_new(&mut list, 0u32, 2u8);
    insert_only_new(&mut list, 0u32, 3u8);
    insert_only_new(&mut list, 1u32, 4u8);
    insert_only_new(&mut list, 2u32, 5u8);
    insert_only_new(&mut list, 2u32, 6u8);
    insert_only_new(&mut list, 3u32, 7u8);

    let mut iter = list.iter();
    assert_eq!(iter.next(), Some((&0, &0)));
    assert_eq!(iter.next(), Some((&0, &1)));
    assert_eq!(iter.next(), Some((&0, &2)));
    assert_eq!(iter.next(), Some((&0, &3)));
    assert_eq!(iter.next(), Some((&1, &4)));
    assert_eq!(iter.next(), Some((&2, &5)));
    assert_eq!(iter.next(), Some((&2, &6)));
    assert_eq!(iter.next(), Some((&3, &7)));
    assert_eq!(iter.next(), None);
}

#[test]
fn iterate_over_mixed_out_of_order() {
    let mut list = SortedList::new();
    insert_only_new(&mut list, 3u32, 7u8);
    insert_only_new(&mut list, 0u32, 0u8);
    insert_only_new(&mut list, 1u32, 4u8);
    insert_only_new(&mut list, 0u32, 1u8);

    println!("{:?}", to_vec(list.iter()));

    let mut iter = list.iter();
    assert_eq!(iter.next(), Some((&0, &0)));
    assert_eq!(iter.next(), Some((&0, &1)));
    assert_eq!(iter.next(), Some((&1, &4)));
    assert_eq!(iter.next(), Some((&3, &7)));
    assert_eq!(iter.next(), None);
}

#[test]
fn empty_values_of() {
    let list: SortedList<u32, u8> = SortedList::new();
    assert_eq!(list.values_of(&0).iter().next(), None);
}

#[test]
fn iterate_values_of() {
    let mut list = SortedList::new();
    insert_only_new(&mut list, 1u32, 4u8);
    insert_only_new(&mut list, 0u32, 0u8);
    insert_only_new(&mut list, 0u32, 1u8);
    insert_only_new(&mut list, 2u32, 5u8);
    insert_only_new(&mut list, 0u32, 2u8);
    insert_only_new(&mut list, 3u32, 7u8);
    insert_only_new(&mut list, 0u32, 3u8);
    insert_only_new(&mut list, 2u32, 6u8);

    let mut values_of = list.values_of(&0).iter();
    assert_eq!(values_of.next(), Some(&0));
    assert_eq!(values_of.next(), Some(&1));
    assert_eq!(values_of.next(), Some(&2));
    assert_eq!(values_of.next(), Some(&3));
    assert_eq!(values_of.next(), None);

    let mut values_of = list.values_of(&1).iter();
    assert_eq!(values_of.next(), Some(&4));
    assert_eq!(values_of.next(), None);

    let mut values_of = list.values_of(&2).iter();
    assert_eq!(values_of.next(), Some(&5));
    assert_eq!(values_of.next(), Some(&6));
    assert_eq!(values_of.next(), None);

    let mut values_of = list.values_of(&3).iter();
    assert_eq!(values_of.next(), Some(&7));
    assert_eq!(values_of.next(), None);
}

#[test]
fn extend_worst_case() {

    let max_key = 1000;
    let max_val = 100;
    let mut input = Vec::with_capacity(max_key * max_val);
    for key in 0..max_key {
        for val in 0..max_val {
            input.push((max_key - key, val));
        }
    }

    let began = Instant::now();

    let mut slist = SortedList::new();
    slist.extend(input);

    let elapsed = began.elapsed();
    println!(
        "elapsed: {}.{:09}s",
        elapsed.as_secs(),
        elapsed.subsec_nanos()
    );
}

#[test]
fn range() {
    let mut list: SortedList<u32, u8> = SortedList::new();
    insert_only_new(&mut list, 1, 4);
    insert_only_new(&mut list, 0, 0);
    insert_only_new(&mut list, 0, 1);
    insert_only_new(&mut list, 2, 5);
    insert_only_new(&mut list, 0, 2);
    insert_only_new(&mut list, 3, 7);
    insert_only_new(&mut list, 0, 3);
    insert_only_new(&mut list, 2, 6);
    insert_only_new(&mut list, 4, 8);
    insert_only_new(&mut list, 6, 9);
    insert_only_new(&mut list, 6, 10);
    insert_only_new(&mut list, 9, 11);

    assert_eq!(
        to_vec(list.range((Unbounded, Included(2)))),
        vec![(0, 0), (0, 1), (0, 2), (0, 3), (1, 4), (2, 5), (2, 6)]
    );

    assert_eq!(
        to_vec(list.range((Unbounded, Excluded(2)))),
        vec![(0, 0), (0, 1), (0, 2), (0, 3), (1, 4)]
    );

    assert_eq!(
        to_vec(list.range((Included(0), Excluded(2)))),
        vec![(0, 0), (0, 1), (0, 2), (0, 3), (1, 4)]
    );

    assert_eq!(to_vec(list.range((Included(1), Excluded(2)))), vec![(1, 4)]);

    assert_eq!(to_vec(list.range((Included(2), Excluded(2)))), vec![]);

    assert_eq!(
        to_vec(list.range((Included(2), Included(2)))),
        vec![(2, 5), (2, 6)]
    );

    assert_eq!(
        to_vec(list.range((Included(2), Excluded(3)))),
        vec![(2, 5), (2, 6)]
    );

    assert_eq!(
        to_vec(list.range((Included(2), Included(3)))),
        vec![(2, 5), (2, 6), (3, 7)]
    );

    assert_eq!(
        to_vec(list.range((Included(2), Unbounded))),
        vec![(2, 5), (2, 6), (3, 7), (4, 8), (6, 9), (6, 10), (9, 11)]
    );

    assert_eq!(
        to_vec(list.range((Excluded(1), Unbounded))),
        vec![(2, 5), (2, 6), (3, 7), (4, 8), (6, 9), (6, 10), (9, 11)]
    );

    assert_eq!(
        to_vec(list.range((Excluded(0), Unbounded))),
        vec![
            (1, 4),
            (2, 5),
            (2, 6),
            (3, 7),
            (4, 8),
            (6, 9),
            (6, 10),
            (9, 11)
        ]
    );

    assert_eq!(
        to_vec(list.range((Excluded(4), Unbounded))),
        vec![(6, 9), (6, 10), (9, 11)]
    );

    assert_eq!(
        to_vec(list.range((Included(5), Unbounded))),
        vec![(6, 9), (6, 10), (9, 11)]
    );

    assert_eq!(
        to_vec(list.range((Excluded(5), Unbounded))),
        vec![(6, 9), (6, 10), (9, 11)]
    );

    assert_eq!(to_vec(list.range((Excluded(6), Unbounded))), vec![(9, 11)]);

    assert_eq!(to_vec(list.range((Excluded(6), Excluded(7)))), vec![]);

    assert_eq!(to_vec(list.range((Excluded(6), Included(8)))), vec![]);

    assert_eq!(to_vec(list.range((Excluded(6), Excluded(9)))), vec![]);

    assert_eq!(
        to_vec(list.range((Excluded(6), Included(9)))),
        vec![(9, 11)]
    );

    assert_eq!(
        to_vec(list.range((Excluded(7), Included(9)))),
        vec![(9, 11)]
    );

    assert_eq!(
        to_vec(list.range((Included(7), Included(9)))),
        vec![(9, 11)]
    );

    assert_eq!(
        to_vec(list.range((Excluded(8), Included(9)))),
        vec![(9, 11)]
    );

    assert_eq!(
        to_vec(list.range((Included(8), Included(9)))),
        vec![(9, 11)]
    );

    assert_eq!(to_vec(list.range((Unbounded, Unbounded))), to_vec(list.iter()));
}

#[test]
fn first_value_of() {
    let mut list: SortedList<u32, u8> = SortedList::new();
    insert_only_new(&mut list, 1, 3);
    insert_only_new(&mut list, 0, 0);
    insert_only_new(&mut list, 0, 1);
    insert_only_new(&mut list, 2, 4);
    insert_only_new(&mut list, 0, 2);
    insert_only_new(&mut list, 3, 6);
    insert_only_new(&mut list, 2, 5);

    assert_eq!(list.first_value_of(&0), Some(&0));
    assert_eq!(list.first_value_of(&1), Some(&3));
    assert_eq!(list.first_value_of(&2), Some(&4));
    assert_eq!(list.first_value_of(&3), Some(&6));
}

#[test]
fn last_value_of() {
    let mut list: SortedList<u32, u8> = SortedList::new();
    insert_only_new(&mut list, 1, 3);
    insert_only_new(&mut list, 0, 0);
    insert_only_new(&mut list, 0, 1);
    insert_only_new(&mut list, 2, 4);
    insert_only_new(&mut list, 0, 2);
    insert_only_new(&mut list, 3, 6);
    insert_only_new(&mut list, 2, 5);

    assert_eq!(list.last_value_of(&0), Some(&2));
    assert_eq!(list.last_value_of(&1), Some(&3));
    assert_eq!(list.last_value_of(&2), Some(&5));
    assert_eq!(list.last_value_of(&3), Some(&6));
}

#[test]
fn double_ended_iter_empty() {
    let list: SortedList<u32, u8> = SortedList::new();
    assert_eq!(list.iter().next_back(), None);
}

#[test]
fn double_ended_iter_single() {
    let mut list: SortedList<u32, u8> = SortedList::new();

    insert_only_new(&mut list, 1, 3);

    let mut iter = list.iter();
    assert_eq!(iter.next_back(), Some((&1, &3)));
    assert_eq!(iter.next_back(), None);
}

#[test]
fn double_ended_iter_multiple() {
    let list = seven_pairs();

    assert_eq!(
        to_vec_rev(list.iter()),
        vec![(3, 6), (2, 5), (2, 4), (1, 3), (0, 2), (0, 1), (0, 0)]
    );
}

#[test]
fn double_ended_iter_zig_zag() {
    let list = seven_pairs();

    let mut iter = list.iter();
    assert_eq!(iter.next(), (&0, &0).into());
    assert_eq!(iter.next_back(), (&3, &6).into());

    assert_eq!(iter.next(), (&0, &1).into());
    assert_eq!(iter.next_back(), (&2, &5).into());

    assert_eq!(iter.next(), (&0, &2).into());
    assert_eq!(iter.next_back(), (&2, &4).into());

    assert_eq!(iter.next(), (&1, &3).into());
    assert_eq!(iter.next_back(), None);
    assert_eq!(iter.next(), None);
}

#[test]
fn out_of_order_insert() {
    // The values are not ordered: among equal keys they keep arrival order.
    let mut list: SortedList<u32, u8> = SortedList::new();

    insert_only_new(&mut list, 1, 3);
    insert_only_new(&mut list, 0, 1);
    insert_only_new(&mut list, 0, 0);
    insert_only_new(&mut list, 2, 4);
    insert_only_new(&mut list, 0, 2);
    insert_only_new(&mut list, 3, 6);
    insert_only_new(&mut list, 2, 5);

    let items: Vec<(u32, u8)> = to_vec(list.iter());

    assert_eq!(
        items,
        vec![(0, 1), (0, 0), (0, 2), (1, 3), (2, 4), (2, 5), (3, 6),]
    );
}

#[test]
fn double_ended_iter_zag_zig() {
    let list = seven_pairs();

    let mut iter = list.iter();
    assert_eq!(iter.next_back(), (&3, &6).into());
    assert_eq!(iter.next(), (&0, &0).into());

    assert_eq!(iter.next_back(), (&2, &5).into());
    assert_eq!(iter.next(), (&0, &1).into());

    assert_eq!(iter.next_back(), (&2, &4).into());
    assert_eq!(iter.next(), (&0, &2).into());

    assert_eq!(iter.next_back(), (&1, &3).into());
    assert_eq!(iter.next(), None);
    assert_eq!(iter.next(), None);
}

#[test]
fn into_iter() {
    let list = seven_pairs();

    assert_eq!(collect_owned(list.clone().into_iter()), to_vec(list.iter()));
}

#[test]
fn from_iter() {
    let pairs = (0..20).into_iter().map(|x| (x, x + 5)).collect::<Vec<_>>();
    let coll = SortedList::from_pairs(pairs);
    assert_eq!(coll.len(), 20);
}

#[test]
fn equal_key_distinct_value_is_kept() {
    let mut list: SortedList<u32, u8> = SortedList::new();
    assert!(list.insert(5, 1));
    assert!(!list.insert(5, 1));
    assert!(list.insert(5, 2));
    assert_eq!(list.len(), 2);
    assert_eq!(list.values_of(&5), &[1, 2]);
}

#[test]
fn remove_and_get() {
    let mut list = seven_pairs();
    assert_eq!(*list.get(3), 3);
    list.remove(0);
    assert_eq!(to_vec(list.iter()), vec![(0, 1), (0, 2), (1, 3), (2, 4), (2, 5), (3, 6)]);
    list.remove(5);
    assert_eq!(list.len(), 5);
    assert_eq!(list.last_value_of(&3), None);
    assert!(!list.is_empty());
    list.shrink_to_fit();
    assert_eq!(list.keys(), &[0, 0, 1, 2, 2]);
    assert_eq!(list.values(), &[1, 2, 3, 4, 5]);
}

#[test]
fn with_capacity_starts_empty() {
    let list: SortedList<u64, u8> = SortedList::with_capacity(16);
    assert!(list.is_empty());
    assert_eq!(list.iter().len(), 0);
}

#[test]
fn into_iter_from_back() {
    let list = seven_pairs();
    let mut it = list.into_iter();
    assert_eq!(it.len(), 7);
    assert_eq!(it.next_back(), Some((3, 6)));
    assert_eq!(it.next(), Some((0, 0)));
    assert_eq!(it.len(), 5);
}
