use std::collections::HashMap;

use ecs_x::ecs::commands::Commands;
use ecs_x::ecs::ecs_table::EcsTable;
use ecs_x::ecs::scheduler::{
    exit_code_result, AddSystems, AppStateInfo, Resources, Scheduler, StepOutcome, Task,
    ENTER_MAIN_LOOP, ENTER_STARTUP, ENTER_SYSTEM_STARTUP, EXIT_MAIN_LOOP, EXIT_STARTUP,
    EXIT_SYSTEM_STARTUP, MAIN_LOOP, STARTUP, SYSTEM_STARTUP, UPDATE,
};
use ecs_x::ecs::state::{State, StateMut};
use ecs_x::ecs::system::System;

#[derive(Debug, Clone, PartialEq)]
enum Val {
    Int(i64),
    Log(Vec<String>),
}

const LOG: u64 = 1000;
const COUNTER: u64 = 1001;
const MOVING: u64 = 500;
const ENTER_MOVING: u64 = 501;
const EXIT_MOVING: u64 = 502;
const STILL: u64 = 510;
const ENTER_STILL: u64 = 511;
const EXIT_STILL: u64 = 512;

type Action = fn(&mut Commands<Val>, Option<(u64, &Val)>, &Resources<Val>);

/// Appends "name" (and "name@state" when a state is current) to the log,
/// then performs its action.
struct Probe {
    name: &'static str,
    action: Action,
}

impl System<Val> for Probe {
    fn run(
        &mut self,
        resources: &mut Resources<Val>,
        _ecs_table: &mut EcsTable<Val>,
        commands: &mut Commands<Val>,
        state: Option<AppStateInfo<'_, Val>>,
    ) {
        let mut entry = match &state {
            Some(s) => format!("{}@{}", self.name, s.current_state),
            None => self.name.to_string(),
        };
        if self.name.starts_with("see") {
            entry = format!("{}:{:?}", entry, resources.get(&COUNTER));
        }
        match resources.entry(LOG).or_insert(Val::Log(vec![])) {
            Val::Log(l) => l.push(entry),
            _ => panic!("log"),
        }
        let mut state = state;
        if let Some(AppStateInfo { current_data, .. }) = &mut state {
            if let Val::Int(n) = &mut **current_data {
                *n += 100;
            }
        }
        (self.action)(commands, state.map(|s| (s.current_state, &*s.current_data)), &*resources);
    }
}

fn nothing(_: &mut Commands<Val>, _: Option<(u64, &Val)>, _: &Resources<Val>) {}

fn probe(name: &'static str) -> Vec<Probe> {
    vec![Probe { name, action: nothing }]
}

fn log(app: &Scheduler<Val, Probe>) -> Vec<String> {
    match app.resources.get(&LOG) {
        Some(Val::Log(l)) => l.clone(),
        _ => vec![],
    }
}

fn drive(app: &mut Scheduler<Val, Probe>) -> Option<u32> {
    for _ in 0..10_000 {
        match app.run_round() {
            StepOutcome::Finished => return None,
            StepOutcome::Exited(c) => return Some(c),
            _ => {}
        }
    }
    panic!("did not finish");
}

#[test]
fn startup_runs_stages_in_order() {
    let app: Scheduler<Val, Probe> = Scheduler::new()
        .add_systems(STARTUP, probe("startup"))
        .add_systems(ENTER_SYSTEM_STARTUP, probe("enter_system_startup"))
        .add_systems(SYSTEM_STARTUP, probe("system_startup"))
        .add_systems(EXIT_SYSTEM_STARTUP, probe("exit_system_startup"))
        .add_systems(ENTER_STARTUP, probe("enter_startup"))
        .add_systems(EXIT_STARTUP, probe("exit_startup"))
        .add_systems(ENTER_MAIN_LOOP, probe("enter_main_loop"))
        .add_systems(UPDATE, probe("update"));
    let mut app = app;
    app.queue_before_main_loop(Val::Int(0), Val::Int(1), Val::Int(2));
    assert_eq!(drive(&mut app), None);
    assert_eq!(
        log(&app),
        vec![
            "enter_system_startup@0",
            "system_startup@0",
            "exit_system_startup@0",
            "enter_startup@1",
            "startup@1",
            "exit_startup@1",
            "enter_main_loop@2",
        ]
    );
    assert_eq!(app.current_state, Some(MAIN_LOOP));
    assert_eq!(app.current_exit_state, Some(EXIT_MAIN_LOOP));
    assert!(app.has_update_systems());
    app.queue_main_loop_update();
    assert_eq!(drive(&mut app), None);
    assert_eq!(log(&app).last().unwrap(), "update@2");
}

#[test]
fn systems_of_a_stage_run_in_the_order_added() {
    let mut app: Scheduler<Val, Probe> = Scheduler::new()
        .add_systems(UPDATE, vec![Probe { name: "a", action: nothing }, Probe { name: "b", action: nothing }])
        .add_systems(UPDATE, probe("c"));
    app.queue_main_loop_update();
    assert_eq!(drive(&mut app), None);
    assert_eq!(log(&app), vec!["a", "b", "c"]);
}

fn go_moving(c: &mut Commands<Val>, _: Option<(u64, &Val)>, _: &Resources<Val>) {
    c.change_state(MOVING, ENTER_MOVING, EXIT_MOVING, Val::Int(5));
}

fn go_still(c: &mut Commands<Val>, _: Option<(u64, &Val)>, _: &Resources<Val>) {
    c.change_state(STILL, ENTER_STILL, EXIT_STILL, Val::Int(6));
}

#[test]
fn a_state_change_waits_for_the_stage_then_exits_before_entering() {
    let mut app: Scheduler<Val, Probe> = Scheduler::new()
        .add_systems(UPDATE, vec![Probe { name: "change", action: go_moving }, Probe { name: "after", action: nothing }])
        .add_systems(EXIT_MAIN_LOOP, probe("exit_main_loop"))
        .add_systems(ENTER_MOVING, probe("enter_moving"));
    app.queue_before_main_loop(Val::Int(0), Val::Int(1), Val::Int(2));
    assert_eq!(drive(&mut app), None);
    app.queue_main_loop_update();
    assert_eq!(drive(&mut app), None);
    assert_eq!(
        log(&app),
        vec!["change@2", "after@2", "exit_main_loop@2", "enter_moving@500"]
    );
    assert_eq!(app.current_state, Some(MOVING));
    assert_eq!(app.current_exit_state, Some(EXIT_MOVING));
    // the enter_moving probe saw the data and added 100 to it
    assert_eq!(app.current_state_data, Some(Val::Int(105)));
}

#[test]
fn a_change_requested_on_entering_runs_after_the_enter_stage() {
    let mut app: Scheduler<Val, Probe> = Scheduler::new()
        .add_systems(UPDATE, vec![Probe { name: "change", action: go_moving }])
        .add_systems(ENTER_MOVING, vec![Probe { name: "enter_moving", action: go_still }])
        .add_systems(EXIT_MOVING, probe("exit_moving"))
        .add_systems(ENTER_STILL, probe("enter_still"));
    app.queue_main_loop_update();
    assert_eq!(drive(&mut app), None);
    assert_eq!(
        log(&app),
        vec!["change", "enter_moving@500", "exit_moving@500", "enter_still@510"]
    );
    assert_eq!(app.current_state, Some(STILL));
}

fn quit(c: &mut Commands<Val>, _: Option<(u64, &Val)>, _: &Resources<Val>) {
    c.insert_resource(COUNTER, Val::Int(1));
    c.exit(3);
    c.insert_resource(COUNTER, Val::Int(2));
}

#[test]
fn an_exit_stops_the_stage_and_drops_pending_work() {
    let mut app: Scheduler<Val, Probe> = Scheduler::new()
        .add_systems(UPDATE, vec![
            Probe { name: "change", action: go_moving },
            Probe { name: "quit", action: quit },
            Probe { name: "never", action: nothing },
        ])
        .add_systems(ENTER_MOVING, probe("enter_moving"));
    app.queue_main_loop_update();
    app.queue_stage(UPDATE);
    assert_eq!(drive(&mut app), Some(3));
    assert!(app.pending.is_empty());
    assert_eq!(log(&app), vec!["change", "quit"]);
    assert_eq!(app.resources.get(&COUNTER), Some(&Val::Int(1)));
    assert_eq!(app.current_state, None);
    assert_eq!(app.systems[&UPDATE].len(), 3);
    assert_eq!(app.step(), StepOutcome::Finished);
}

#[test]
fn step_on_a_state_change_schedules_exit_stage_then_commit() {
    let mut app: Scheduler<Val, Probe> = Scheduler::new();
    app.current_state = Some(MOVING);
    app.current_exit_state = Some(EXIT_MOVING);
    app.pending.push(Task::ChangeState { new_state: STILL, new_enter_state: ENTER_STILL, new_exit_state: EXIT_STILL, data: Val::Int(7) });
    assert_eq!(app.step(), StepOutcome::Continue);
    assert_eq!(app.pending.len(), 2);
    assert!(matches!(app.pending[0], Task::Commit { new_state: STILL, .. }));
    assert!(matches!(app.pending[1], Task::RunStage { stage: EXIT_MOVING, next: 0 }));
    assert_eq!(app.current_state, Some(MOVING));
    assert_eq!(app.step(), StepOutcome::Continue);
    assert_eq!(app.current_state, Some(MOVING));
    assert_eq!(app.step(), StepOutcome::Continue);
    assert_eq!(app.current_state, Some(STILL));
    assert_eq!(app.current_exit_state, Some(EXIT_STILL));
    assert!(matches!(app.pending[0], Task::RunStage { stage: ENTER_STILL, next: 0 }));
    assert_eq!(app.step(), StepOutcome::Continue);
    assert_eq!(app.step(), StepOutcome::Finished);
}

#[test]
fn a_first_state_change_has_no_exit_stage() {
    let mut app: Scheduler<Val, Probe> = Scheduler::new();
    app.pending.push(Task::ChangeState { new_state: STILL, new_enter_state: ENTER_STILL, new_exit_state: EXIT_STILL, data: Val::Int(7) });
    assert_eq!(app.step(), StepOutcome::Continue);
    assert_eq!(app.pending.len(), 1);
    assert!(matches!(app.pending[0], Task::Commit { new_state: STILL, .. }));
}

#[test]
fn a_stage_without_systems_does_nothing() {
    let mut app: Scheduler<Val, Probe> = Scheduler::new();
    assert!(!app.has_update_systems());
    app.queue_stage(42);
    assert_eq!(app.step(), StepOutcome::Continue);
    assert!(app.pending.is_empty());
    assert!(app.systems.is_empty());
    assert_eq!(app.step(), StepOutcome::Finished);
}

#[test]
fn exit_code_zero_is_success() {
    assert_eq!(exit_code_result(0), Ok(()));
    assert_eq!(exit_code_result(3), Err(3));
}

#[test]
fn state_data_is_seen_only_in_that_state() {
    let mut data = Val::Int(9);
    let info = Some(AppStateInfo { current_state: MOVING, current_data: &mut data });
    assert_eq!(State::retrieve(&info, MOVING).map(|s| s.value.clone()), Some(Val::Int(9)));
    assert!(State::retrieve(&info, STILL).is_none());
    assert!(State::retrieve(&None::<AppStateInfo<'_, Val>>, MOVING).is_none());
}

#[test]
fn state_data_changed_through_state_mut() {
    let mut data = Val::Int(1);
    {
        let info = Some(AppStateInfo { current_state: MOVING, current_data: &mut data });
        let st = StateMut::retrieve(info, MOVING).unwrap();
        *st.value = Val::Int(2);
    }
    assert_eq!(data, Val::Int(2));
    let info = Some(AppStateInfo { current_state: MOVING, current_data: &mut data });
    assert!(StateMut::retrieve(info, STILL).is_none());
}

#[test]
fn systems_may_change_the_state_data() {
    // every probe adds 100 to integer state data before acting
    let mut app: Scheduler<Val, Probe> = Scheduler::new()
        .add_systems(UPDATE, vec![Probe { name: "a", action: nothing }, Probe { name: "b", action: nothing }]);
    app.current_state = Some(MOVING);
    app.current_exit_state = Some(EXIT_MOVING);
    app.current_state_data = Some(Val::Int(5));
    app.queue_main_loop_update();
    assert_eq!(drive(&mut app), None);
    assert_eq!(app.current_state_data, Some(Val::Int(205)));
    assert_eq!(app.current_state, Some(MOVING));
}

#[test]
fn new_scheduler_is_empty() {
    let app: Scheduler<Val, Probe> = Scheduler::new();
    assert!(app.systems.is_empty() && app.resources.is_empty() && app.ecs_table.is_empty());
    assert!(app.pending.is_empty() && app.current_state.is_none());
    let _unused: HashMap<u64, Val> = HashMap::new();
}

fn exit_2(c: &mut Commands<Val>, _: Option<(u64, &Val)>, _: &Resources<Val>) {
    c.exit(2);
}

fn exit_5(c: &mut Commands<Val>, _: Option<(u64, &Val)>, _: &Resources<Val>) {
    c.exit(5);
}

#[test]
fn startup_stops_at_the_first_exit_with_its_code() {
    let mut app: Scheduler<Val, Probe> = Scheduler::new()
        .add_systems(SYSTEM_STARTUP, vec![Probe { name: "s2", action: exit_2 }])
        .add_systems(STARTUP, vec![Probe { name: "s5", action: exit_5 }]);
    app.queue_before_main_loop(Val::Int(0), Val::Int(1), Val::Int(2));
    assert_eq!(drive(&mut app), Some(2));
    assert_eq!(log(&app), vec!["s2@0"]);
    assert_eq!(app.current_state, Some(SYSTEM_STARTUP));
    assert!(app.pending.is_empty());
    assert_eq!(exit_code_result(2), Err(2));
}

fn set_counter(c: &mut Commands<Val>, _: Option<(u64, &Val)>, _: &Resources<Val>) {
    c.insert_resource(COUNTER, Val::Int(1));
}

#[test]
fn commands_of_a_system_are_applied_before_the_next_runs() {
    let mut app: Scheduler<Val, Probe> = Scheduler::new().add_systems(
        UPDATE,
        vec![
            Probe { name: "see_before", action: nothing },
            Probe { name: "set", action: set_counter },
            Probe { name: "see_after", action: nothing },
        ],
    );
    app.queue_main_loop_update();
    assert_eq!(drive(&mut app), None);
    assert_eq!(log(&app), vec!["see_before:None", "set", "see_after:Some(Int(1))"]);
}

fn tick(c: &mut Commands<Val>, _: Option<(u64, &Val)>, res: &Resources<Val>) {
    let n = match res.get(&COUNTER) {
        Some(Val::Int(n)) => *n,
        _ => 0,
    };
    c.insert_resource(COUNTER, Val::Int(n + 1));
    if n + 1 == 5 {
        c.exit(4);
    }
}

#[test]
fn update_runs_once_per_iteration_until_an_exit() {
    let mut app: Scheduler<Val, Probe> = Scheduler::new()
        .add_systems(STARTUP, vec![Probe { name: "init", action: set_counter }])
        .add_systems(UPDATE, vec![Probe { name: "tick", action: tick }]);
    app.queue_before_main_loop(Val::Int(0), Val::Int(1), Val::Int(2));
    assert_eq!(drive(&mut app), None);
    assert!(app.has_update_systems());
    let mut iterations = 0;
    let code = loop {
        app.queue_main_loop_update();
        iterations += 1;
        if let Some(c) = drive(&mut app) {
            break c;
        }
        assert!(iterations < 100);
    };
    assert_eq!(code, 4);
    assert_eq!(iterations, 4);
    assert_eq!(app.resources.get(&COUNTER), Some(&Val::Int(5)));
    assert_eq!(exit_code_result(code), Err(4));
}

#[test]
fn startup_without_update_systems_finishes() {
    let mut app: Scheduler<Val, Probe> = Scheduler::new().add_systems(STARTUP, probe("startup"));
    app.queue_before_main_loop(Val::Int(0), Val::Int(1), Val::Int(2));
    assert_eq!(drive(&mut app), None);
    assert!(!app.has_update_systems());
    assert_eq!(app.current_state, Some(MAIN_LOOP));
    assert_eq!(app.current_state_data, Some(Val::Int(2)));
}

#[test]
fn built_in_states_carry_their_data() {
    let mut app: Scheduler<Val, Probe> = Scheduler::new();
    app.queue_before_main_loop(Val::Int(0), Val::Int(1), Val::Int(2));
    assert_eq!(app.step(), StepOutcome::Continue);
    assert_eq!(app.step(), StepOutcome::Continue);
    assert_eq!(app.current_state, Some(SYSTEM_STARTUP));
    assert_eq!(app.current_state_data, Some(Val::Int(0)));
}

#[test]
fn step_hands_out_the_systems_of_a_stage_in_order() {
    let mut app: Scheduler<Val, Probe> = Scheduler::new()
        .add_systems(UPDATE, vec![Probe { name: "a", action: nothing }, Probe { name: "b", action: nothing }]);
    app.queue_stage(UPDATE);
    assert_eq!(app.step(), StepOutcome::RunSystem { stage: UPDATE, index: 0 });
    let c = app.run_system(UPDATE, 0);
    assert_eq!(app.finish_system(c), StepOutcome::Continue);
    assert_eq!(app.step(), StepOutcome::RunSystem { stage: UPDATE, index: 1 });
    let c = app.run_system(UPDATE, 1);
    assert_eq!(app.finish_system(c), StepOutcome::Continue);
    assert_eq!(app.step(), StepOutcome::Continue);
    assert_eq!(app.step(), StepOutcome::Finished);
    assert_eq!(log(&app), vec!["a", "b"]);
}

#[test]
fn running_a_missing_system_does_nothing() {
    let mut app: Scheduler<Val, Probe> = Scheduler::new().add_systems(UPDATE, probe("a"));
    let c = app.run_system(UPDATE, 1);
    assert_eq!(app.finish_system(c), StepOutcome::Continue);
    let c = app.run_system(42, 0);
    assert_eq!(app.finish_system(c), StepOutcome::Continue);
    assert!(log(&app).is_empty());
    assert!(app.requested.is_empty());
}
