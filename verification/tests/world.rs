use std::collections::HashMap;

use ecs_x::ecs::commands::{Commands, SpawnEntity, StoredCommand, SystemMessage};
use ecs_x::ecs::ecs_table::{component_mut, despawn_from, spawn_into, table_contains, EcsTable, Entity};
use ecs_x::ecs::scheduler::{apply_commands, Resources, Task};
use ecs_x::ecs::system::{Res, ResMut};
use ecs_x::graphics::WINDOW;

const POS: u64 = 100;
const VEL: u64 = 101;
const SCORE: u64 = 200;

fn world() -> (Resources<i64>, EcsTable<i64>) {
    (HashMap::new(), HashMap::new())
}

fn entities_of(table: &EcsTable<i64>, key: u64) -> Vec<u64> {
    let mut v: Vec<u64> = table.get(&key).map(|t| t.keys().copied().collect()).unwrap_or_default();
    v.sort();
    v
}

#[test]
fn insert_resource_reads_back_and_replaces() {
    let (mut res, mut tab) = world();
    assert!(StoredCommand::InsertResource(SCORE, 5).apply(&mut res, &mut tab).is_none());
    assert_eq!(res.get(&SCORE), Some(&5));
    StoredCommand::InsertResource(SCORE, 9).apply(&mut res, &mut tab);
    assert_eq!(res.get(&SCORE), Some(&9));
    assert_eq!(res.len(), 1);
    assert!(tab.is_empty());
}

#[test]
fn try_insert_resource_keeps_existing_value() {
    let (mut res, mut tab) = world();
    StoredCommand::TryInsertResource(SCORE, 1).apply(&mut res, &mut tab);
    assert_eq!(res.get(&SCORE), Some(&1));
    StoredCommand::TryInsertResource(SCORE, 2).apply(&mut res, &mut tab);
    assert_eq!(res.get(&SCORE), Some(&1));
}

#[test]
fn exit_and_change_state_produce_messages() {
    let (mut res, mut tab) = world();
    match StoredCommand::Exit(3).apply(&mut res, &mut tab) {
        Some(SystemMessage::Exit(3)) => {}
        _ => panic!("expected an exit message"),
    }
    let cmd = StoredCommand::ChangeState { new_state: 50, new_enter_state: 51, new_exit_state: 52, data: 7 };
    match cmd.apply(&mut res, &mut tab) {
        Some(SystemMessage::ChangeState { new_state: 50, new_enter_state: 51, new_exit_state: 52, data: 7 }) => {}
        _ => panic!("expected a state change message"),
    }
    assert!(res.is_empty() && tab.is_empty());
}

#[test]
fn spawn_gives_a_fresh_entity_its_components() {
    let (mut res, mut tab) = world();
    for i in 0..50 {
        assert!(StoredCommand::Spawn(vec![(POS, i), (VEL, -i)]).apply(&mut res, &mut tab).is_none());
    }
    let pos = entities_of(&tab, POS);
    let vel = entities_of(&tab, VEL);
    assert_eq!(pos.len(), 50);
    assert_eq!(pos, vel);
    for e in pos {
        let p = tab[&POS][&e];
        assert_eq!(tab[&VEL][&e], -p);
    }
}

#[test]
fn spawn_with_repeated_type_keeps_the_last_component() {
    let mut tab: EcsTable<i64> = HashMap::new();
    spawn_into(&mut tab, Entity(4), vec![(POS, 1), (POS, 2)]);
    assert_eq!(tab[&POS].len(), 1);
    assert_eq!(tab[&POS][&4], 2);
}

#[test]
fn spawning_a_window_is_announced() {
    let (mut res, mut tab) = world();
    match StoredCommand::Spawn(vec![(WINDOW, 0), (POS, 1)]).apply(&mut res, &mut tab) {
        Some(SystemMessage::WindowCreated(e)) => {
            assert!(table_contains(&tab, e));
            assert_eq!(tab[&WINDOW][&e.0], 0);
        }
        _ => panic!("expected a window message"),
    }
}

#[test]
fn despawn_removes_only_that_entity() {
    let mut tab: EcsTable<i64> = HashMap::new();
    spawn_into(&mut tab, Entity(1), vec![(POS, 10), (VEL, 11)]);
    spawn_into(&mut tab, Entity(2), vec![(POS, 20)]);
    despawn_from(&mut tab, Entity(1));
    assert!(!table_contains(&tab, Entity(1)));
    assert!(table_contains(&tab, Entity(2)));
    assert_eq!(tab[&POS][&2], 20);
    // the component table of VEL stays, empty
    assert!(tab[&VEL].is_empty());
}

#[test]
fn despawn_through_a_command() {
    let (mut res, mut tab) = world();
    spawn_into(&mut tab, Entity(8), vec![(POS, 1)]);
    StoredCommand::Despawn(Entity(8)).apply(&mut res, &mut tab);
    assert!(!table_contains(&tab, Entity(8)));
}

#[test]
fn commands_queue_in_order() {
    let mut c: Commands<i64> = Commands::new();
    c.insert_resource(SCORE, 1);
    c.try_insert_resource(SCORE, 2);
    c.spawn(vec![(POS, 3)]);
    c.despawn(Entity(9));
    c.change_state(50, 51, 52, 4);
    c.exit(0);
    let q = c.into_queue();
    assert_eq!(q.len(), 6);
    assert!(matches!(q[0], StoredCommand::InsertResource(SCORE, 1)));
    assert!(matches!(q[1], StoredCommand::TryInsertResource(SCORE, 2)));
    assert!(matches!(&q[2], StoredCommand::Spawn(v) if v == &vec![(POS, 3)]));
    assert!(matches!(q[3], StoredCommand::Despawn(Entity(9))));
    assert!(matches!(q[4], StoredCommand::ChangeState { new_state: 50, data: 4, .. }));
    assert!(matches!(q[5], StoredCommand::Exit(0)));
}

#[test]
fn commands_after_an_exit_are_not_applied() {
    let (mut res, mut tab) = world();
    let cmds = vec![
        StoredCommand::InsertResource(SCORE, 1),
        StoredCommand::Exit(7),
        StoredCommand::InsertResource(SCORE, 2),
        StoredCommand::Spawn(vec![(POS, 1)]),
    ];
    assert_eq!(apply_commands(&mut res, &mut tab, cmds).err(), Some(7));
    assert_eq!(res.get(&SCORE), Some(&1));
    assert!(tab.is_empty());
}

#[test]
fn requested_state_changes_are_returned_in_order() {
    let (mut res, mut tab) = world();
    let cmds = vec![
        StoredCommand::ChangeState { new_state: 50, new_enter_state: 51, new_exit_state: 52, data: 1 },
        StoredCommand::InsertResource(SCORE, 3),
        StoredCommand::ChangeState { new_state: 60, new_enter_state: 61, new_exit_state: 62, data: 2 },
    ];
    let q = apply_commands(&mut res, &mut tab, cmds).ok().unwrap();
    assert_eq!(q.len(), 2);
    assert!(matches!(q[0], Task::ChangeState { new_state: 50, data: 1, .. }));
    assert!(matches!(q[1], Task::ChangeState { new_state: 60, data: 2, .. }));
    assert_eq!(res.get(&SCORE), Some(&3));
}

#[test]
fn res_and_res_mut_access_a_resource() {
    let mut res: Resources<i64> = HashMap::new();
    res.insert(SCORE, 40);
    assert_eq!(*Res::retrieve(&res, SCORE).value, 40);
    {
        let r = ResMut::retrieve(&mut res, SCORE);
        *r.value += 2;
    }
    assert_eq!(res[&SCORE], 42);
}

#[test]
fn despawning_a_fresh_entity_undoes_its_spawn() {
    let (mut res, mut tab) = world();
    spawn_into(&mut tab, Entity(1), vec![(POS, 1)]);
    let before_pos = tab[&POS].clone();
    StoredCommand::Spawn(vec![(POS, 5), (VEL, 6)]).apply(&mut res, &mut tab);
    let fresh = *tab[&VEL].keys().next().unwrap();
    assert_ne!(fresh, 1);
    despawn_from(&mut tab, Entity(fresh));
    assert_eq!(tab[&POS], before_pos);
    assert!(tab[&VEL].is_empty());
    assert_eq!(tab.len(), 2);
}

#[test]
fn a_component_changed_in_place_reads_back() {
    let (_, mut tab) = world();
    spawn_into(&mut tab, Entity(7), vec![(POS, 1), (VEL, 2)]);
    *component_mut(&mut tab, Entity(7), POS).unwrap() = 10;
    assert_eq!(tab[&POS][&7], 10);
    assert_eq!(tab[&VEL][&7], 2);
    assert!(component_mut(&mut tab, Entity(8), POS).is_none());
    assert!(component_mut(&mut tab, Entity(7), 999).is_none());
    assert!(!tab.contains_key(&999));
}
