use std::collections::HashMap;

use ecs_x::ecs::ecs_table::{spawn_into, EcsTable, Entity};
use ecs_x::ecs::query::{Query, QueryFilter, QueryGet, QueryIter, With, Without};

const A: u64 = 1;
const B: u64 = 2;
const C: u64 = 3;

fn table() -> EcsTable<i64> {
    let mut t: EcsTable<i64> = HashMap::new();
    spawn_into(&mut t, Entity(1), vec![(A, 10), (B, 11)]);
    spawn_into(&mut t, Entity(2), vec![(A, 20)]);
    spawn_into(&mut t, Entity(3), vec![(A, 30), (B, 31), (C, 32)]);
    t
}

#[test]
fn filters_know_their_kind() {
    assert!(With::<u8>::inclusive());
    assert!(!Without::<u8>::inclusive());
}

#[test]
fn get_returns_components_in_query_order() {
    let t = table();
    let q = Query::new(&t, vec![B, A], vec![]);
    assert_eq!(q.get(Entity(1)), Some(vec![&11, &10]));
    assert_eq!(q.get(Entity(2)), None);
    assert_eq!(q.get(Entity(99)), None);
}

#[test]
fn get_applies_with_and_without_filters() {
    let t = table();
    let with_c = Query::new(&t, vec![A], vec![(C, true)]);
    assert_eq!(with_c.get(Entity(3)), Some(vec![&30]));
    assert_eq!(with_c.get(Entity(1)), None);
    let without_c = Query::new(&t, vec![A], vec![(C, false)]);
    assert_eq!(without_c.get(Entity(1)), Some(vec![&10]));
    assert_eq!(without_c.get(Entity(3)), None);
}

#[test]
fn a_filter_on_a_type_without_table_admits_nothing() {
    let t = table();
    let q = Query::new(&t, vec![A], vec![(77, false)]);
    assert_eq!(q.get(Entity(1)), None);
    assert!(q.iter().is_empty());
}

#[test]
fn iter_lists_matching_entities_of_the_smallest_table() {
    let t = table();
    let q = Query::new(&t, vec![A, B], vec![]);
    let mut got: Vec<(u64, Vec<i64>)> =
        q.iter().into_iter().map(|(e, v)| (e.0, v.into_iter().copied().collect())).collect();
    got.sort();
    assert_eq!(got, vec![(1, vec![10, 11]), (3, vec![30, 31])]);
}

#[test]
fn iter_of_a_single_entity_table() {
    let t = table();
    let q = Query::new(&t, vec![C, A], vec![]);
    assert_eq!(q.iter(), vec![(Entity(3), vec![&32, &30])]);
}

#[test]
fn iter_is_empty_when_no_table_exists() {
    let t = table();
    let q = Query::new(&t, vec![55], vec![]);
    assert!(q.iter().is_empty());
    let empty: EcsTable<i64> = HashMap::new();
    assert!(Query::new(&empty, vec![A], vec![]).iter().is_empty());
}

#[test]
fn iter_stops_at_the_first_entity_that_does_not_match() {
    // A is the only (so smallest) table asked for; entity 2 fails the filter.
    let mut t: EcsTable<i64> = HashMap::new();
    spawn_into(&mut t, Entity(1), vec![(A, 1), (B, 0)]);
    spawn_into(&mut t, Entity(2), vec![(A, 2)]);
    spawn_into(&mut t, Entity(3), vec![(A, 3), (B, 0)]);
    let q = Query::new(&t, vec![A], vec![(B, true)]);
    let order: Vec<u64> = t[&A].keys().copied().collect();
    let got: Vec<u64> = q.iter().into_iter().map(|(e, _)| e.0).collect();
    let expected: Vec<u64> = order.iter().copied().take_while(|e| *e != 2).collect();
    assert_eq!(got, expected);
}

#[test]
fn a_despawned_entity_is_not_found() {
    let mut t = table();
    ecs_x::ecs::ecs_table::despawn_from(&mut t, Entity(3));
    let q = Query::new(&t, vec![A], vec![]);
    assert_eq!(q.get(Entity(3)), None);
    assert!(q.iter().iter().all(|(e, _)| *e != Entity(3)));
}
