use std::collections::HashMap;

use vstd::prelude::*;

use super::commands::{command_effect, fresh_for, Commands, StoredCommand, SystemMessage};
use super::ecs_table::{table_model, EcsTable};
use super::system::System;

verus! {

broadcast use vstd::std_specs::hash::group_hash_axioms;

/// Global values, one per resource type key.
pub type Resources<V> = HashMap<u64, V>;

/// The key of the state and stage that runs first, before `Startup`.
pub const SYSTEM_STARTUP: u64 = 0;
/// The key of the startup state and stage.
pub const STARTUP: u64 = 1;
/// The key of the state the application is in while its main loop runs.
pub const MAIN_LOOP: u64 = 2;
/// The key of the stage run once per main-loop iteration.
pub const UPDATE: u64 = 3;
/// The key of the stage run when a window is redrawn.
pub const RENDER: u64 = 4;
/// The key of the stage run on entering `SystemStartup`.
pub const ENTER_SYSTEM_STARTUP: u64 = 5;
/// The key of the stage run on leaving `SystemStartup`.
pub const EXIT_SYSTEM_STARTUP: u64 = 6;
/// The key of the stage run on entering `Startup`.
pub const ENTER_STARTUP: u64 = 7;
/// The key of the stage run on leaving `Startup`.
pub const EXIT_STARTUP: u64 = 8;
/// The key of the stage run on entering `MainLoop`.
pub const ENTER_MAIN_LOOP: u64 = 9;
/// The key of the stage run on leaving `MainLoop`.
pub const EXIT_MAIN_LOOP: u64 = 10;

/// Label of the first stage and state (`SYSTEM_STARTUP`).
pub struct SystemStartup;

/// Label of the startup stage and state (`STARTUP`).
pub struct Startup;

/// Label of the main-loop state (`MAIN_LOOP`).
pub struct MainLoop;

/// Label of the per-iteration stage (`UPDATE`).
pub struct Update;

/// Label of the stage run on entering the state `T`.
pub struct Enter<T>(pub T);

/// Label of the stage run on leaving the state `T`.
pub struct Exit<T>(pub T);

/// What a system sees of the application state: its key and its data, which
/// the system may change.
pub struct AppStateInfo<'a, V> {
    pub current_state: u64,
    pub current_data: &'a mut V,
}

/// A unit of scheduled work. The scheduler keeps a stack of them and runs
/// the one on top.
pub enum Task<V> {
    /// Run the systems of `stage` from position `next` on, in the order they
    /// were added, then carry out the state changes they requested.
    RunStage { stage: u64, next: usize },
    /// Leave the current state (running its exit stage), then commit.
    ChangeState { new_state: u64, new_enter_state: u64, new_exit_state: u64, data: V },
    /// Make the state current, then run its enter stage.
    Commit { new_state: u64, new_enter_state: u64, new_exit_state: u64, data: V },
}

/// What one scheduling step ended with.
#[derive(Clone, Copy, Debug, PartialEq, Eq, Structural)]
pub enum StepOutcome {
    /// More work is pending.
    Continue,
    /// Nothing was pending.
    Finished,
    /// A command asked to stop with this code; pending work was dropped.
    Exited(u32),
    /// The system at position `index` of `stage` is due: run it with
    /// `run_system` and hand what it queued to `finish_system`.
    RunSystem { stage: u64, index: usize },
}

/// The state changes and exit requested by a list of commands, and the world
/// after them. `ids[i]` is the entity that the `i`-th command creates if it is
/// a spawn; the last component says whether every id was a possible choice (`fresh_for`).
/// Commands after an exit request have no effect.
pub open spec fn run_commands<V>(
    res: Map<u64, V>,
    tab: Map<u64, Map<u64, V>>,
    cmds: Seq<StoredCommand<V>>,
    ids: Seq<Option<u64>>,
) -> (Map<u64, V>, Map<u64, Map<u64, V>>, Result<Seq<Task<V>>, u32>, bool)
    decreases cmds.len(),
{
    if cmds.len() == 0 {
        (res, tab, Ok(Seq::empty()), true)
    } else {
        let prev = run_commands(res, tab, cmds.drop_last(), ids.drop_last());
        match prev.2 {
            Err(c) => prev,
            Ok(q) => {
                let eff = command_effect(cmds.last(), prev.0, prev.1, ids.last());
                let ok = prev.3 && fresh_for(cmds.last(), prev.1, ids.last());
                match eff.2 {
                    Some(SystemMessage::Exit(c)) => (eff.0, eff.1, Err(c), ok),
                    Some(
                        SystemMessage::ChangeState { new_state, new_enter_state, new_exit_state, data },
                    ) => (
                        eff.0,
                        eff.1,
                        Ok(
                            q.push(
                                Task::ChangeState { new_state, new_enter_state, new_exit_state, data },
                            ),
                        ),
                        ok,
                    ),
                    _ => (eff.0, eff.1, Ok(q), ok),
                }
            },
        }
    }
}

/// Commands queued after an exit request are not applied: once the first `n`
/// commands have asked to exit, the rest change nothing.
pub proof fn law_commands_after_exit_have_no_effect<V>(
    res: Map<u64, V>,
    tab: Map<u64, Map<u64, V>>,
    cmds: Seq<StoredCommand<V>>,
    ids: Seq<Option<u64>>,
    n: int,
)
    requires
        0 <= n <= cmds.len(),
        ids.len() == cmds.len(),
        run_commands(res, tab, cmds.take(n), ids.take(n)).2 is Err,
    ensures
        run_commands(res, tab, cmds, ids) == run_commands(res, tab, cmds.take(n), ids.take(n)),
    decreases cmds.len() - n,
{
    if n < cmds.len() {
        assert(cmds.drop_last().take(n) =~= cmds.take(n));
        assert(ids.drop_last().take(n) =~= ids.take(n));
        law_commands_after_exit_have_no_effect(res, tab, cmds.drop_last(), ids.drop_last(), n);
    } else {
        assert(cmds.take(n) =~= cmds);
        assert(ids.take(n) =~= ids);
    }
}

/// Commands that include no exit command never end in an exit.
proof fn lemma_no_exit_command_no_exit<V>(
    res: Map<u64, V>,
    tab: Map<u64, Map<u64, V>>,
    cmds: Seq<StoredCommand<V>>,
    ids: Seq<Option<u64>>,
)
    requires
        forall|j: int| 0 <= j < cmds.len() ==> !((#[trigger] cmds[j]) is Exit),
    ensures
        run_commands(res, tab, cmds, ids).2 is Ok,
    decreases cmds.len(),
{
    if cmds.len() > 0 {
        assert forall|j: int| 0 <= j < cmds.drop_last().len() implies !((
        #[trigger] cmds.drop_last()[j]) is Exit) by {
            assert(cmds.drop_last()[j] == cmds[j]);
        }
        lemma_no_exit_command_no_exit(res, tab, cmds.drop_last(), ids.drop_last());
        assert(cmds[cmds.len() - 1] == cmds.last());
    }
}

/// A list of commands whose first exit command is `Exit(code)` ends in an
/// exit with exactly that code, whatever comes before or after it.
pub proof fn law_first_exit_command_gives_its_code<V>(
    res: Map<u64, V>,
    tab: Map<u64, Map<u64, V>>,
    cmds: Seq<StoredCommand<V>>,
    ids: Seq<Option<u64>>,
    i: int,
    code: u32,
)
    requires
        0 <= i < cmds.len(),
        ids.len() == cmds.len(),
        cmds[i] == StoredCommand::<V>::Exit(code),
        forall|j: int| 0 <= j < i ==> !((#[trigger] cmds[j]) is Exit),
    ensures
        run_commands(res, tab, cmds, ids).2 == Err::<Seq<Task<V>>, u32>(code),
{
    let pre = cmds.take(i);
    assert forall|j: int| 0 <= j < pre.len() implies !((#[trigger] pre[j]) is Exit) by {
        assert(pre[j] == cmds[j]);
    }
    lemma_no_exit_command_no_exit(res, tab, pre, ids.take(i));
    let upto = cmds.take(i + 1);
    assert(upto.drop_last() =~= pre);
    assert(ids.take(i + 1).drop_last() =~= ids.take(i));
    assert(upto.last() == StoredCommand::<V>::Exit(code));
    assert(run_commands(res, tab, upto, ids.take(i + 1)).2 == Err::<Seq<Task<V>>, u32>(code));
    law_commands_after_exit_have_no_effect(res, tab, cmds, ids, i + 1);
}

/// Applies the commands in order, stopping at the first exit request. Returns
/// the state changes they requested, in order, or the exit code.
pub fn apply_commands<V>(
    resources: &mut Resources<V>,
    table: &mut EcsTable<V>,
    commands: Vec<StoredCommand<V>>,
) -> (r: Result<Vec<Task<V>>, u32>)
    ensures
        exists|ids: Seq<Option<u64>>|
            #![trigger run_commands(old(resources)@, table_model(*old(table)), commands@, ids)]
            {
                let out = run_commands(old(resources)@, table_model(*old(table)), commands@, ids);
                &&& ids.len() == commands@.len()
                &&& out.3
                &&& final(resources)@ == out.0
                &&& table_model(*final(table)) == out.1
                &&& match r {
                    Ok(q) => out.2 == Ok::<Seq<Task<V>>, u32>(q@),
                    Err(c) => out.2 == Err::<Seq<Task<V>>, u32>(c),
                }
            },
{
    let ghost r0 = resources@;
    let ghost t0 = table_model(*table);
    let ghost all = commands@;
    let mut cmds = commands;
    let mut queue: Vec<Task<V>> = Vec::new();
    let ghost mut ids: Seq<Option<u64>> = Seq::empty();
    while cmds.len() > 0
        invariant
            r0 == old(resources)@,
            t0 == table_model(*old(table)),
            all == commands@,
            ids.len() <= all.len(),
            cmds@ == all.skip(ids.len() as int),
            run_commands(r0, t0, all.take(ids.len() as int), ids)
                == (resources@, table_model(*table), Ok::<Seq<Task<V>>, u32>(queue@), true),
        decreases cmds.len(),
    {
        let ghost n = ids.len() as int;
        let ghost before_r = resources@;
        let ghost before_t = table_model(*table);
        let cmd = cmds.remove(0);
        let ghost c = cmd;
        let msg = cmd.apply(resources, table);
        let ghost id = choose|id: Option<u64>|
            fresh_for(c, before_t, id) && (resources@, table_model(*table), msg) == command_effect(
                c,
                before_r,
                before_t,
                id,
            );
        proof {
            let ids2 = ids.push(id);
            assert(all.take(n + 1).drop_last() =~= all.take(n));
            assert(all.take(n + 1).last() == c);
            assert(ids2.drop_last() =~= ids);
            ids = ids2;
            assert(cmds@ =~= all.skip(ids.len() as int));
        }
        match msg {
            Some(SystemMessage::Exit(code)) => {
                proof {
                    let full = ids + Seq::new((all.len() - ids.len()) as nat, |i: int| None::<u64>);
                    assert(full.take(ids.len() as int) =~= ids);
                    assert(full.len() == all.len());
                    let out = run_commands(r0, t0, all.take(ids.len() as int), ids);
                    assert(out == (resources@, table_model(*table), Err::<Seq<Task<V>>, u32>(code), true));
                    law_commands_after_exit_have_no_effect(r0, t0, all, full, ids.len() as int);
                    assert(run_commands(r0, t0, all, full) == out);
                }
                return Err(code);
            },
            Some(SystemMessage::ChangeState { new_state, new_enter_state, new_exit_state, data }) => {
                queue.push(
                    Task::ChangeState { new_state, new_enter_state, new_exit_state, data },
                );
            },
            _ => {},
        }
    }
    assert(all.take(ids.len() as int) =~= all);
    Ok(queue)
}

/// The start-up work as a stack (the last task runs first); each built-in
/// state carries the given data.
pub open spec fn before_main_loop_tasks<V>(system_startup: V, startup: V, main_loop: V) -> Seq<Task<V>> {
    seq![
        Task::ChangeState {
            new_state: MAIN_LOOP,
            new_enter_state: ENTER_MAIN_LOOP,
            new_exit_state: EXIT_MAIN_LOOP,
            data: main_loop,
        },
        Task::RunStage { stage: STARTUP, next: 0 },
        Task::ChangeState {
            new_state: STARTUP,
            new_enter_state: ENTER_STARTUP,
            new_exit_state: EXIT_STARTUP,
            data: startup,
        },
        Task::RunStage { stage: SYSTEM_STARTUP, next: 0 },
        Task::ChangeState {
            new_state: SYSTEM_STARTUP,
            new_enter_state: ENTER_SYSTEM_STARTUP,
            new_exit_state: EXIT_SYSTEM_STARTUP,
            data: system_startup,
        },
    ]
}

/// Every task is a state change.
pub open spec fn all_state_changes<V>(q: Seq<Task<V>>) -> bool {
    forall|i: int| 0 <= i < q.len() ==> (#[trigger] q[i]) is ChangeState
}

/// The only work that commands schedule is state changes.
pub proof fn law_commands_only_request_state_changes<V>(
    res: Map<u64, V>,
    tab: Map<u64, Map<u64, V>>,
    cmds: Seq<StoredCommand<V>>,
    ids: Seq<Option<u64>>,
)
    ensures
        run_commands(res, tab, cmds, ids).2 matches Ok(q) ==> all_state_changes(q),
    decreases cmds.len(),
{
    if cmds.len() > 0 {
        law_commands_only_request_state_changes(res, tab, cmds.drop_last(), ids.drop_last());
    }
}

/// The tasks that leave the current state (exit stage `exit`, if any) and
/// then commit the change described by `t`.
pub open spec fn change_state_tasks<V>(t: Task<V>, exit: Option<u64>) -> Seq<Task<V>> {
    match t {
        Task::ChangeState { new_state, new_enter_state, new_exit_state, data } => {
            let commit = Task::Commit { new_state, new_enter_state, new_exit_state, data };
            match exit {
                Some(x) => seq![commit, Task::RunStage { stage: x, next: 0 }],
                None => seq![commit],
            }
        },
        _ => Seq::empty(),
    }
}

/// A state change first runs the exit stage of the state being left (when
/// there is one), then commits the new state, whose commit then runs its
/// enter stage.
pub proof fn law_state_change_order<V>(
    new_state: u64,
    new_enter_state: u64,
    new_exit_state: u64,
    data: V,
    exit: Option<u64>,
)
    ensures
        ({
            let tasks = change_state_tasks(
                Task::ChangeState { new_state, new_enter_state, new_exit_state, data },
                exit,
            );
            &&& tasks[0] == Task::Commit { new_state, new_enter_state, new_exit_state, data }
            &&& match exit {
                Some(x) => tasks.len() == 2 && tasks.last() == Task::<V>::RunStage { stage: x, next: 0 },
                None => tasks.len() == 1,
            }
        }),
{
}

/// Start-up runs, in order: entering `SystemStartup`, the `SystemStartup`
/// stage, the change to `Startup`, the `Startup` stage, the change to
/// `MainLoop` (the stack is read from its top).
pub proof fn law_startup_order<V>(system_startup: V, startup: V, main_loop: V)
    ensures
        before_main_loop_tasks(system_startup, startup, main_loop).reverse() == seq![
            Task::ChangeState {
                new_state: SYSTEM_STARTUP,
                new_enter_state: ENTER_SYSTEM_STARTUP,
                new_exit_state: EXIT_SYSTEM_STARTUP,
                data: system_startup,
            },
            Task::<V>::RunStage { stage: SYSTEM_STARTUP, next: 0 },
            Task::ChangeState {
                new_state: STARTUP,
                new_enter_state: ENTER_STARTUP,
                new_exit_state: EXIT_STARTUP,
                data: startup,
            },
            Task::<V>::RunStage { stage: STARTUP, next: 0 },
            Task::ChangeState {
                new_state: MAIN_LOOP,
                new_enter_state: ENTER_MAIN_LOOP,
                new_exit_state: EXIT_MAIN_LOOP,
                data: main_loop,
            },
        ],
{
    assert(before_main_loop_tasks(system_startup, startup, main_loop).reverse() =~= seq![
        Task::ChangeState {
            new_state: SYSTEM_STARTUP,
            new_enter_state: ENTER_SYSTEM_STARTUP,
            new_exit_state: EXIT_SYSTEM_STARTUP,
            data: system_startup,
        },
        Task::<V>::RunStage { stage: SYSTEM_STARTUP, next: 0 },
        Task::ChangeState {
            new_state: STARTUP,
            new_enter_state: ENTER_STARTUP,
            new_exit_state: EXIT_STARTUP,
            data: startup,
        },
        Task::<V>::RunStage { stage: STARTUP, next: 0 },
        Task::ChangeState {
            new_state: MAIN_LOOP,
            new_enter_state: ENTER_MAIN_LOOP,
            new_exit_state: EXIT_MAIN_LOOP,
            data: main_loop,
        },
    ]);
}

/// The stages, resources, components and state of an application, and the
/// work still to be done.
pub struct Scheduler<V, S> {
    /// The systems of each stage, in the order they were added.
    pub systems: HashMap<u64, Vec<S>>,
    pub resources: Resources<V>,
    pub ecs_table: EcsTable<V>,
    pub current_state: Option<u64>,
    /// The stage to run when the current state is left.
    pub current_exit_state: Option<u64>,
    pub current_state_data: Option<V>,
    /// Scheduled work; the last task runs next.
    pub pending: Vec<Task<V>>,
    /// The state changes requested so far by the systems of the running
    /// stage, in order.
    pub requested: Vec<Task<V>>,
}

pub type App<V, S> = Scheduler<V, S>;

/// A scheduler as plain values: its world, its state, its work, and how many
/// systems each stage has.
pub struct SchedulerModel<V> {
    pub resources: Map<u64, V>,
    pub table: Map<u64, Map<u64, V>>,
    pub current_state: Option<u64>,
    pub current_exit_state: Option<u64>,
    pub current_state_data: Option<V>,
    pub pending: Seq<Task<V>>,
    pub requested: Seq<Task<V>>,
    pub stage_sizes: Map<u64, nat>,
}

impl<V, S> Scheduler<V, S> {
    pub open spec fn model(&self) -> SchedulerModel<V> {
        SchedulerModel {
            resources: self.resources@,
            table: table_model(self.ecs_table),
            current_state: self.current_state,
            current_exit_state: self.current_exit_state,
            current_state_data: self.current_state_data,
            pending: self.pending@,
            requested: self.requested@,
            stage_sizes: Map::new(
                |k: u64| self.systems@.contains_key(k),
                |k: u64| self.systems@[k]@.len(),
            ),
        }
    }
}

/// The state handed to a running system: the key and data of the current
/// state, when both are set.
pub open spec fn handed_state<V>(m: SchedulerModel<V>) -> Option<(u64, V)> {
    if m.current_state is Some && m.current_state_data is Some {
        Some((m.current_state.unwrap(), m.current_state_data.unwrap()))
    } else {
        None
    }
}

/// How many systems `stage` has (0 for a stage that was never given any).
pub open spec fn stage_size<V>(m: SchedulerModel<V>, stage: u64) -> nat {
    if m.stage_sizes.contains_key(stage) {
        m.stage_sizes[stage]
    } else {
        0
    }
}

/// One scheduling step on the task on top of the stack.
///
/// * Nothing pending: `Finished`, nothing changes.
/// * `RunStage { stage, next }` with a system at position `next`: that system
///   is due (`RunSystem`), and the task moves on to the next position.
/// * `RunStage` past the last system: the stage is done; the state changes
///   its systems requested are pushed so that the first requested runs
///   first, and the list of requests is emptied.
/// * `ChangeState`: the commit is pushed, and above it the exit stage of the
///   current state, if there is one, so that it runs first.
/// * `Commit`: the new state and its data become current, and its enter
///   stage is pushed.
pub open spec fn step_spec<V>(m: SchedulerModel<V>) -> (SchedulerModel<V>, StepOutcome) {
    if m.pending.len() == 0 {
        (m, StepOutcome::Finished)
    } else {
        let rest = m.pending.drop_last();
        match m.pending.last() {
            Task::RunStage { stage, next } => if next < stage_size(m, stage) {
                (
                    SchedulerModel {
                        pending: rest.push(Task::RunStage { stage, next: (next + 1) as usize }),
                        ..m
                    },
                    StepOutcome::RunSystem { stage, index: next },
                )
            } else {
                (
                    SchedulerModel { pending: rest + m.requested.reverse(), requested: Seq::empty(), ..m },
                    StepOutcome::Continue,
                )
            },
            Task::ChangeState { .. } => (
                SchedulerModel {
                    pending: rest + change_state_tasks(m.pending.last(), m.current_exit_state),
                    ..m
                },
                StepOutcome::Continue,
            ),
            Task::Commit { new_state, new_enter_state, new_exit_state, data } => (
                SchedulerModel {
                    current_state: Some(new_state),
                    current_exit_state: Some(new_exit_state),
                    current_state_data: Some(data),
                    pending: rest.push(Task::RunStage { stage: new_enter_state, next: 0 }),
                    ..m
                },
                StepOutcome::Continue,
            ),
        }
    }
}

/// What follows a system's run: its commands are applied in order (`ids`
/// being the entities their spawns create). On an exit request, all pending
/// work and requests are dropped and the outcome is `Exited` with its code;
/// otherwise the state changes requested are added to the stage's requests.
pub open spec fn finish_spec<V>(
    m: SchedulerModel<V>,
    cmds: Seq<StoredCommand<V>>,
    ids: Seq<Option<u64>>,
) -> (SchedulerModel<V>, StepOutcome) {
    let out = run_commands(m.resources, m.table, cmds, ids);
    match out.2 {
        Err(c) => (
            SchedulerModel {
                resources: out.0,
                table: out.1,
                pending: Seq::empty(),
                requested: Seq::empty(),
                ..m
            },
            StepOutcome::Exited(c),
        ),
        Ok(q) => (
            SchedulerModel { resources: out.0, table: out.1, requested: m.requested + q, ..m },
            StepOutcome::Continue,
        ),
    }
}

/// What a system left when it ran: the resources, components and state data
/// after it, and the commands it queued, with the entities that their spawns
/// create.
pub struct SystemRun<V> {
    pub resources: Map<u64, V>,
    pub table: Map<u64, Map<u64, V>>,
    pub data: Option<V>,
    pub commands: Seq<StoredCommand<V>>,
    pub ids: Seq<Option<u64>>,
}

/// The scheduler once a system has run and left `run` behind.
pub open spec fn after_run<V>(m: SchedulerModel<V>, run: SystemRun<V>) -> SchedulerModel<V> {
    SchedulerModel { resources: run.resources, table: run.table, current_state_data: run.data, ..m }
}

/// What the commands of `run` give when applied to the world it left.
pub open spec fn run_result<V>(run: SystemRun<V>) -> (
    Map<u64, V>,
    Map<u64, Map<u64, V>>,
    Result<Seq<Task<V>>, u32>,
    bool,
) {
    run_commands(run.resources, run.table, run.commands, run.ids)
}

/// Rounds of driving the scheduler, as `run_round` makes them: each round
/// is a step, the run of a system that left `runs[i]`, and the handling of
/// its commands (`finish_spec`). The model after the rounds, and the outcomes of each
/// round's step and finish, in order.
pub open spec fn drive<V>(m: SchedulerModel<V>, runs: Seq<SystemRun<V>>) -> (
    SchedulerModel<V>,
    Seq<(StepOutcome, StepOutcome)>,
)
    decreases runs.len(),
{
    if runs.len() == 0 {
        (m, Seq::empty())
    } else {
        let prev = drive(m, runs.drop_last());
        let s = step_spec(prev.0);
        let run = runs.last();
        let f = finish_spec(after_run(s.0, run), run.commands, run.ids);
        (f.0, prev.1.push((s.1, f.1)))
    }
}

/// The state changes requested by the commands of the runs, in order.
pub open spec fn requests_of<V>(runs: Seq<SystemRun<V>>) -> Seq<Task<V>>
    decreases runs.len(),
{
    if runs.len() == 0 {
        Seq::empty()
    } else {
        match run_result(runs.last()).2 {
            Ok(q) => requests_of(runs.drop_last()) + q,
            Err(_) => requests_of(runs.drop_last()),
        }
    }
}

/// A stage runs its systems once each, in the order they were added: from a
/// fresh run of `stage`, while no command asks to exit, round `j` hands out
/// the system at position `j`. The commands of each system are applied to
/// the world it left before the next system is handed out, so after the
/// rounds the world is that of the last run with its commands applied; the
/// state changes requested pile up in order, and the state, its exit stage,
/// the stages and the work below stay as they were.
pub proof fn law_stage_runs_each_system_once_in_order<V>(
    m: SchedulerModel<V>,
    stage: u64,
    runs: Seq<SystemRun<V>>,
)
    requires
        m.pending.len() > 0,
        m.pending.last() == (Task::<V>::RunStage { stage, next: 0 }),
        stage_size(m, stage) <= usize::MAX,
        runs.len() <= stage_size(m, stage),
        forall|j: int| 0 <= j < runs.len() ==> run_result(#[trigger] runs[j]).2 is Ok,
    ensures
        ({
            let d = drive(m, runs);
            &&& d.0.pending == m.pending.drop_last().push(
                Task::RunStage { stage, next: runs.len() as usize },
            )
            &&& d.1.len() == runs.len()
            &&& forall|j: int|
                0 <= j < runs.len() ==> #[trigger] d.1[j] == (
                    StepOutcome::RunSystem { stage, index: j as usize },
                    StepOutcome::Continue,
                )
            &&& d.0.requested == m.requested + requests_of(runs)
            &&& runs.len() > 0 ==> d.0.resources == run_result(runs.last()).0 && d.0.table
                == run_result(runs.last()).1
            &&& d.0.current_state == m.current_state
            &&& d.0.current_exit_state == m.current_exit_state
            &&& d.0.stage_sizes == m.stage_sizes
        }),
    decreases runs.len(),
{
    if runs.len() > 0 {
        let k = runs.len() - 1;
        let init = runs.drop_last();
        assert forall|j: int| 0 <= j < init.len() implies run_result(#[trigger] init[j]).2 is Ok by {
            assert(init[j] == runs[j]);
        }
        law_stage_runs_each_system_once_in_order(m, stage, init);
        let prev = drive(m, init);
        assert(stage_size(prev.0, stage) == stage_size(m, stage));
        let s = step_spec(prev.0);
        assert(s.1 == StepOutcome::RunSystem { stage, index: k as usize });
        assert(run_result(runs[k]).2 is Ok);
        let q = run_result(runs.last()).2->Ok_0;
        assert(requests_of(runs) == requests_of(init) + q);
        assert(m.requested + requests_of(runs) =~= m.requested + requests_of(init) + q);
        let d = drive(m, runs);
        assert forall|j: int| 0 <= j < runs.len() implies #[trigger] d.1[j] == (
            StepOutcome::RunSystem { stage, index: j as usize },
            StepOutcome::Continue,
        ) by {
            if j < k {
                assert(d.1[j] == prev.1[j]);
            }
        }
    }
}

/// The first exit request stops everything: when the systems handed out so
/// far asked for no exit and the last one does, that round ends with
/// `Exited` and the code of its first exit command, nothing is left pending,
/// and the next step finds nothing to do.
pub proof fn law_first_exit_stops_everything<V>(
    m: SchedulerModel<V>,
    stage: u64,
    runs: Seq<SystemRun<V>>,
    code: u32,
)
    requires
        m.pending.len() > 0,
        m.pending.last() == (Task::<V>::RunStage { stage, next: 0 }),
        stage_size(m, stage) <= usize::MAX,
        0 < runs.len() <= stage_size(m, stage),
        forall|j: int| 0 <= j < runs.len() - 1 ==> run_result(#[trigger] runs[j]).2 is Ok,
        run_result(runs.last()).2 == Err::<Seq<Task<V>>, u32>(code),
    ensures
        ({
            let d = drive(m, runs);
            &&& d.1.len() == runs.len()
            &&& forall|j: int|
                0 <= j < runs.len() - 1 ==> #[trigger] d.1[j] == (
                    StepOutcome::RunSystem { stage, index: j as usize },
                    StepOutcome::Continue,
                )
            &&& d.1.last() == (
                StepOutcome::RunSystem { stage, index: (runs.len() - 1) as usize },
                StepOutcome::Exited(code),
            )
            &&& d.0.pending == Seq::<Task<V>>::empty()
            &&& step_spec(d.0) == (d.0, StepOutcome::Finished)
        }),
{
    let init = runs.drop_last();
    assert forall|j: int| 0 <= j < init.len() implies run_result(#[trigger] init[j]).2 is Ok by {
        assert(init[j] == runs[j]);
    }
    law_stage_runs_each_system_once_in_order(m, stage, init);
    let prev = drive(m, init);
    let d = drive(m, runs);
    assert(stage_size(prev.0, stage) == stage_size(m, stage));
    assert forall|j: int| 0 <= j < runs.len() - 1 implies #[trigger] d.1[j] == (
        StepOutcome::RunSystem { stage, index: j as usize },
        StepOutcome::Continue,
    ) by {
        assert(d.1[j] == prev.1[j]);
    }
}

/// When a stage is done, the state changes its systems requested run in the
/// order they were requested: the `i`-th request is the `i`-th task from the
/// top of the stack, above the work that was pending before.
pub proof fn law_requested_changes_run_in_order<V>(m: SchedulerModel<V>, stage: u64, next: usize, i: int)
    requires
        m.pending.len() > 0,
        m.pending.last() == (Task::<V>::RunStage { stage, next }),
        next >= stage_size(m, stage),
        0 <= i < m.requested.len(),
    ensures
        ({
            let s = step_spec(m);
            &&& s.1 == StepOutcome::Continue
            &&& s.0.pending.len() == m.pending.len() - 1 + m.requested.len()
            &&& s.0.pending[s.0.pending.len() - 1 - i] == m.requested[i]
            &&& s.0.pending.take(m.pending.len() - 1) == m.pending.drop_last()
            &&& s.0.requested == Seq::<Task<V>>::empty()
        }),
{
    let s = step_spec(m);
    assert(s.0.pending.take(m.pending.len() - 1) =~= m.pending.drop_last());
}

/// The exit stage of a state runs while that state is still current, and
/// the enter stage of the new state runs once it is current with its data:
/// leaving puts the exit stage above the commit without touching the
/// state, and the commit makes the state current before its enter stage.
pub proof fn law_exit_stage_sees_old_state_enter_stage_sees_new<V>(m: SchedulerModel<V>)
    requires
        m.pending.len() > 0,
    ensures
        m.pending.last() is ChangeState ==> {
            let s = step_spec(m).0;
            &&& s.current_state == m.current_state
            &&& s.current_state_data == m.current_state_data
            &&& m.current_exit_state matches Some(x) ==> s.pending.last() == (Task::<V>::RunStage {
                stage: x,
                next: 0,
            })
        },
        m.pending.last() matches Task::Commit { new_state, new_enter_state, new_exit_state, data }
            ==> {
            let s = step_spec(m).0;
            &&& s.current_state == Some(new_state)
            &&& s.current_exit_state == Some(new_exit_state)
            &&& s.current_state_data == Some(data)
            &&& s.pending.last() == (Task::<V>::RunStage { stage: new_enter_state, next: 0 })
        },
{
}

/// The current state, its exit stage and its data are set together: all
/// of them or none.
pub open spec fn state_fields_agree<V>(m: SchedulerModel<V>) -> bool {
    &&& (m.current_state is Some) == (m.current_exit_state is Some)
    &&& (m.current_state is Some) == (m.current_state_data is Some)
}

/// The current state, its exit stage and its data stay set together: a
/// step, a system's run (which may change the data but not unset it) and the
/// handling of its commands all keep them agreeing; while they agree, a
/// running system is handed the state exactly when one is current.
pub proof fn law_state_fields_set_together<V>(
    m: SchedulerModel<V>,
    run: SystemRun<V>,
    cmds: Seq<StoredCommand<V>>,
    ids: Seq<Option<u64>>,
)
    requires
        state_fields_agree(m),
        (run.data is Some) == (m.current_state_data is Some),
    ensures
        state_fields_agree(step_spec(m).0),
        state_fields_agree(after_run(m, run)),
        state_fields_agree(finish_spec(m, cmds, ids).0),
        handed_state(m) is Some <==> m.current_state is Some,
{
}

/// The state fields of `b` equal those of `a`.
pub open spec fn same_state<V, S>(a: Scheduler<V, S>, b: Scheduler<V, S>) -> bool {
    &&& b.current_state == a.current_state
    &&& b.current_exit_state == a.current_exit_state
    &&& b.current_state_data == a.current_state_data
}

/// The resources and components of `b` equal those of `a`.
pub open spec fn same_world<V, S>(a: Scheduler<V, S>, b: Scheduler<V, S>) -> bool {
    &&& b.resources@ == a.resources@
    &&& table_model(b.ecs_table) == table_model(a.ecs_table)
}

/// One round of driving from `a` to `b` with outcome `r`, as `run_round`
/// makes it: a step and, when it hands out a system, one run of that system
/// (as its `run_spec` admits, on the world and state of `a` with an empty
/// command queue) and the handling of what it left.
pub open spec fn round_rel<V, S: System<V>>(a: Scheduler<V, S>, b: Scheduler<V, S>, r: StepOutcome) -> bool {
    &&& b.systems@.dom() == a.systems@.dom()
    &&& match step_spec(a.model()).1 {
        StepOutcome::RunSystem { stage, index } => exists|run: SystemRun<V>|
            #![trigger after_run(step_spec(a.model()).0, run)]
            {
                &&& a.systems@[stage]@[index as int].run_spec(
                    &b.systems@[stage]@[index as int],
                    a.resources@,
                    table_model(a.ecs_table),
                    handed_state(a.model()),
                    Seq::empty(),
                    run.resources,
                    run.table,
                    if handed_state(a.model()) is Some {
                        run.data
                    } else {
                        None
                    },
                    run.commands,
                )
                &&& run.ids.len() == run.commands.len()
                &&& run_result(run).3
                &&& (run.data is Some) == (a.current_state_data is Some)
                &&& handed_state(a.model()) is None ==> run.data == a.current_state_data
                &&& (b.model(), r) == finish_spec(
                    after_run(step_spec(a.model()).0, run),
                    run.commands,
                    run.ids,
                )
                &&& b.systems@[stage]@.len() == a.systems@[stage]@.len()
                &&& forall|j: int|
                    0 <= j < a.systems@[stage]@.len() && j != index
                        ==> #[trigger] b.systems@[stage]@[j] == a.systems@[stage]@[j]
                &&& b.systems@.remove(stage) == a.systems@.remove(stage)
            },
        _ => (b.model(), r) == step_spec(a.model()) && b.systems@ == a.systems@,
    }
}

/// The state data a system leaves behind as its run sees it: `data` when it
/// was handed a state, `None` otherwise.
pub open spec fn handed_data<V>(m: SchedulerModel<V>, data: Option<V>) -> Option<V> {
    if handed_state(m) is Some {
        data
    } else {
        None
    }
}

/// Between `a` and `b`, the system at position `index` of `stage` ran once,
/// as its `run_spec` admits, handed the resources, components and state of
/// `a` and an empty command queue.
pub open spec fn ran_system<V, S: System<V>>(
    a: Scheduler<V, S>,
    b: Scheduler<V, S>,
    stage: u64,
    index: int,
) -> bool {
    exists|run: SystemRun<V>|
        #[trigger] a.systems@[stage]@[index].run_spec(
            &b.systems@[stage]@[index],
            a.resources@,
            table_model(a.ecs_table),
            handed_state(a.model()),
            Seq::empty(),
            run.resources,
            run.table,
            handed_data(a.model(), run.data),
            run.commands,
        )
}

proof fn lemma_round_position<V, S: System<V>>(
    trace: Seq<Scheduler<V, S>>,
    outs: Seq<StepOutcome>,
    stage: u64,
    j: int,
)
    requires
        trace.len() == outs.len() + 1,
        trace[0].pending@.len() > 0,
        trace[0].pending@.last() == (Task::<V>::RunStage { stage, next: 0 }),
        stage_size(trace[0].model(), stage) <= usize::MAX,
        outs.len() <= stage_size(trace[0].model(), stage),
        forall|i: int| 0 <= i < outs.len() ==> round_rel(trace[i], trace[i + 1], #[trigger] outs[i]),
        forall|i: int| 0 <= i < outs.len() ==> #[trigger] outs[i] == StepOutcome::Continue,
        0 <= j <= outs.len(),
    ensures
        trace[j].pending@ == trace[0].pending@.drop_last().push(
            Task::RunStage { stage, next: j as usize },
        ),
        trace[j].model().stage_sizes == trace[0].model().stage_sizes,
    decreases j,
{
    if j > 0 {
        lemma_round_position(trace, outs, stage, j - 1);
        let a = trace[j - 1];
        let b = trace[j];
        assert(round_rel(a, b, outs[j - 1]));
        assert(outs[j - 1] == StepOutcome::Continue);
        let s = step_spec(a.model());
        assert(s.1 == StepOutcome::RunSystem { stage, index: (j - 1) as usize });
        let run = choose|run: SystemRun<V>|
            #![trigger after_run(step_spec(a.model()).0, run)]
            (b.model(), outs[j - 1]) == finish_spec(after_run(s.0, run), run.commands, run.ids);
        assert(after_run(s.0, run).pending == s.0.pending);
    }
}

/// A stage runs each of its systems once, in the order they were added,
/// each on what the rounds before it left: over rounds of `run_round` from
/// a fresh run of `stage` in which no exit is requested, round `j` hands out
/// and runs the system at position `j`, handed the resources, components
/// and state as the previous round left them (with the commands of the
/// systems before it applied); afterwards the stage stands at position `k`.
pub proof fn law_rounds_run_each_system_once_in_order<V, S: System<V>>(
    trace: Seq<Scheduler<V, S>>,
    outs: Seq<StepOutcome>,
    stage: u64,
)
    requires
        trace.len() == outs.len() + 1,
        trace[0].pending@.len() > 0,
        trace[0].pending@.last() == (Task::<V>::RunStage { stage, next: 0 }),
        stage_size(trace[0].model(), stage) <= usize::MAX,
        outs.len() <= stage_size(trace[0].model(), stage),
        forall|i: int| 0 <= i < outs.len() ==> round_rel(trace[i], trace[i + 1], #[trigger] outs[i]),
        forall|i: int| 0 <= i < outs.len() ==> #[trigger] outs[i] == StepOutcome::Continue,
    ensures
        forall|j: int|
            0 <= j < outs.len() ==> step_spec((#[trigger] trace[j]).model()).1
                == (StepOutcome::RunSystem { stage, index: j as usize }) && ran_system(
                trace[j],
                trace[j + 1],
                stage,
                j,
            ),
        trace.last().pending@ == trace[0].pending@.drop_last().push(
            Task::RunStage { stage, next: outs.len() as usize },
        ),
{
    assert forall|j: int| 0 <= j < outs.len() implies step_spec((#[trigger] trace[j]).model()).1
        == (StepOutcome::RunSystem { stage, index: j as usize }) && ran_system(
        trace[j],
        trace[j + 1],
        stage,
        j,
    ) by {
        lemma_round_position(trace, outs, stage, j);
        let a = trace[j];
        let b = trace[j + 1];
        assert(round_rel(a, b, outs[j]));
        let run = choose|run: SystemRun<V>|
            #![trigger after_run(step_spec(a.model()).0, run)]
            {
                &&& a.systems@[stage]@[j].run_spec(
                    &b.systems@[stage]@[j],
                    a.resources@,
                    table_model(a.ecs_table),
                    handed_state(a.model()),
                    Seq::empty(),
                    run.resources,
                    run.table,
                    if handed_state(a.model()) is Some {
                        run.data
                    } else {
                        None
                    },
                    run.commands,
                )
                &&& (b.model(), outs[j]) == finish_spec(
                    after_run(step_spec(a.model()).0, run),
                    run.commands,
                    run.ids,
                )
            };
        assert(a.systems@[stage]@[j].run_spec(
            &b.systems@[stage]@[j],
            a.resources@,
            table_model(a.ecs_table),
            handed_state(a.model()),
            Seq::empty(),
            run.resources,
            run.table,
            handed_data(a.model(), run.data),
            run.commands,
        ));
    }
    lemma_round_position(trace, outs, stage, outs.len() as int);
}

/// A round that ends with `Exited(code)` ran the system it handed out, and
/// that system's commands asked to exit, `code` being that of the first such
/// command applied; nothing is
/// left pending afterwards, so the next round finds nothing to do.
pub proof fn law_exit_round_stops_everything<V, S: System<V>>(
    a: Scheduler<V, S>,
    b: Scheduler<V, S>,
    code: u32,
)
    requires
        round_rel(a, b, StepOutcome::Exited(code)),
    ensures
        step_spec(a.model()).1 matches StepOutcome::RunSystem { stage, index } && exists|
            run: SystemRun<V>,
        |
            #![trigger run_result(run)]
            {
                &&& a.systems@[stage]@[index as int].run_spec(
                    &b.systems@[stage]@[index as int],
                    a.resources@,
                    table_model(a.ecs_table),
                    handed_state(a.model()),
                    Seq::empty(),
                    run.resources,
                    run.table,
                    handed_data(a.model(), run.data),
                    run.commands,
                )
                &&& run_result(run).2 == Err::<Seq<Task<V>>, u32>(code)
            },
        b.pending@ == Seq::<Task<V>>::empty(),
        step_spec(b.model()) == (b.model(), StepOutcome::Finished),
{
    let s = step_spec(a.model());
    if s.1 is RunSystem {
        let run = choose|run: SystemRun<V>|
            #![trigger after_run(step_spec(a.model()).0, run)]
            (b.model(), StepOutcome::Exited(code)) == finish_spec(
                after_run(s.0, run),
                run.commands,
                run.ids,
            );
        assert(run_result(run).2 == Err::<Seq<Task<V>>, u32>(code));
    }
}

impl<V, S: System<V>> Scheduler<V, S> {
    /// An application with no systems, resources, entities or state.
    pub fn new() -> (s: Self)
        ensures
            s.systems@ == Map::<u64, Vec<S>>::empty(),
            s.resources@ == Map::<u64, V>::empty(),
            s.ecs_table@ == Map::<u64, super::ecs_table::ComponentTable<V>>::empty(),
            s.current_state is None,
            s.current_exit_state is None,
            s.current_state_data is None,
            s.pending@ == Seq::<Task<V>>::empty(),
            s.requested@ == Seq::<Task<V>>::empty(),
    {
        Scheduler {
            systems: HashMap::new(),
            resources: HashMap::new(),
            ecs_table: HashMap::new(),
            current_state: None,
            current_exit_state: None,
            current_state_data: None,
            pending: Vec::new(),
            requested: Vec::new(),
        }
    }

    /// How many systems `stage` has.
    fn stage_len(&self, stage: u64) -> (n: usize)
        ensures
            n == stage_size(self.model(), stage),
    {
        match self.systems.get(&stage) {
            Some(v) => v.len(),
            None => 0,
        }
    }

    /// Runs the task on top of the pending stack, as `step_spec` says. When
    /// the outcome is `RunSystem`, the caller runs that system with
    /// `run_system` and hands its commands to `finish_system` before the next
    /// step.
    pub fn step(&mut self) -> (r: StepOutcome)
        ensures
            (final(self).model(), r) == step_spec(old(self).model()),
            final(self).systems@ == old(self).systems@,
    {
        let ghost m = self.model();
        match self.pending.pop() {
            None => StepOutcome::Finished,
            Some(Task::RunStage { stage, next }) => {
                let n = self.stage_len(stage);
                if next < n {
                    self.pending.push(Task::RunStage { stage, next: next + 1 });
                    assert(self.model() == step_spec(m).0);
                    StepOutcome::RunSystem { stage, index: next }
                } else {
                    let mut q: Vec<Task<V>> = Vec::new();
                    std::mem::swap(&mut q, &mut self.requested);
                    let ghost q0 = q@;
                    let ghost rest = self.pending@;
                    while q.len() > 0
                        invariant
                            q@ == q0.take(q@.len() as int),
                            q@.len() <= q0.len(),
                            self.pending@ == rest + q0.skip(q@.len() as int).reverse(),
                            self.model() == (SchedulerModel {
                                pending: self.pending@,
                                requested: Seq::empty(),
                                ..m
                            }),
                            self.systems@ == old(self).systems@,
                        decreases q.len(),
                    {
                        let ghost k = q@.len() as int;
                        let t = q.pop().unwrap();
                        self.pending.push(t);
                        proof {
                            assert(q0.skip(k - 1).reverse() =~= q0.skip(k).reverse().push(t));
                            assert(q@ =~= q0.take(k - 1));
                        }
                    }
                    assert(q0.skip(0) =~= q0);
                    assert(self.requested@ =~= Seq::<Task<V>>::empty());
                    assert(self.model() == step_spec(m).0);
                    StepOutcome::Continue
                }
            },
            Some(Task::ChangeState { new_state, new_enter_state, new_exit_state, data }) => {
                self.pending.push(Task::Commit { new_state, new_enter_state, new_exit_state, data });
                match self.current_exit_state {
                    Some(x) => self.pending.push(Task::RunStage { stage: x, next: 0 }),
                    None => {},
                }
                assert(self.pending@ =~= step_spec(m).0.pending);
                assert(self.model() == step_spec(m).0);
                StepOutcome::Continue
            },
            Some(Task::Commit { new_state, new_enter_state, new_exit_state, data }) => {
                self.current_state = Some(new_state);
                self.current_exit_state = Some(new_exit_state);
                self.current_state_data = Some(data);
                self.pending.push(Task::RunStage { stage: new_enter_state, next: 0 });
                assert(self.model() == step_spec(m).0);
                StepOutcome::Continue
            },
        }
    }

    /// Runs the system at position `index` of `stage` once, handing it the
    /// resources, the components, a new empty command queue and, when a state
    /// is current with its data, that state (`handed_state`). Returns the
    /// commands it queued, unapplied. The run is one that the system's
    /// `run_spec` admits from what it was handed: it may change the world,
    /// the state data and itself. The other systems, the stages, the state
    /// keys and the scheduled work stay as they were. Without such a system
    /// nothing runs and nothing changes.
    pub fn run_system(&mut self, stage: u64, index: usize) -> (r: Commands<V>)
        ensures
            final(self).systems@.remove(stage) == old(self).systems@.remove(stage),
            final(self).systems@.dom() == old(self).systems@.dom(),
            old(self).systems@.contains_key(stage) ==> {
                &&& final(self).systems@[stage]@.len() == old(self).systems@[stage]@.len()
                &&& forall|j: int|
                    0 <= j < old(self).systems@[stage]@.len() && j != index
                        ==> #[trigger] final(self).systems@[stage]@[j] == old(self).systems@[stage]@[j]
            },
            final(self).model() == (SchedulerModel {
                resources: final(self).resources@,
                table: table_model(final(self).ecs_table),
                current_state_data: final(self).current_state_data,
                ..old(self).model()
            }),
            final(self).current_state_data is Some <==> old(self).current_state_data is Some,
            handed_state(old(self).model()) is None ==> final(self).current_state_data
                == old(self).current_state_data,
            old(self).systems@.contains_key(stage) && index < old(self).systems@[stage]@.len()
                ==> old(self).systems@[stage]@[index as int].run_spec(
                &final(self).systems@[stage]@[index as int],
                old(self).resources@,
                table_model(old(self).ecs_table),
                handed_state(old(self).model()),
                Seq::empty(),
                final(self).resources@,
                table_model(final(self).ecs_table),
                if handed_state(old(self).model()) is Some {
                    final(self).current_state_data
                } else {
                    None
                },
                r@,
            ),
            final(self).current_state_data is Some <==> old(self).current_state_data is Some,
            !(old(self).systems@.contains_key(stage) && index < old(self).systems@[stage]@.len()) ==> {
                &&& r@ == Seq::<StoredCommand<V>>::empty()
                &&& final(self).model() == old(self).model()
                &&& final(self).systems@ == old(self).systems@
            },
    {
        let mut list = match self.systems.remove(&stage) {
            Some(v) => v,
            None => {
                assert(self.systems@ =~= old(self).systems@);
                return Commands::new();
            },
        };
        if index >= list.len() {
            self.systems.insert(stage, list);
            assert(self.systems@ =~= old(self).systems@);
            return Commands::new();
        }
        let mut sys = list.remove(index);
        let mut commands: Commands<V> = Commands::new();
        let info = match self.current_state {
            Some(s) => match self.current_state_data.as_mut() {
                Some(d) => Some(AppStateInfo { current_state: s, current_data: d }),
                None => None,
            },
            None => None,
        };
        sys.run(&mut self.resources, &mut self.ecs_table, &mut commands, info);
        list.insert(index, sys);
        self.systems.insert(stage, list);
        assert(self.systems@.dom() =~= old(self).systems@.dom());
        assert(self.systems@.remove(stage) =~= old(self).systems@.remove(stage));
        assert(self.model().stage_sizes =~= old(self).model().stage_sizes);
        commands
    }

    /// Applies the commands a system queued, as `finish_spec` says: on an exit
    /// request all pending work is dropped and the outcome is `Exited` with
    /// its code; otherwise the state changes requested are added, in order,
    /// to those of the running stage.
    pub fn finish_system(&mut self, commands: Commands<V>) -> (r: StepOutcome)
        ensures
            final(self).systems@ == old(self).systems@,
            exists|ids: Seq<Option<u64>>|
                #![trigger run_commands(old(self).resources@, table_model(old(self).ecs_table), commands@, ids)]
                {
                    &&& ids.len() == commands@.len()
                    &&& run_commands(old(self).resources@, table_model(old(self).ecs_table), commands@, ids).3
                    &&& (final(self).model(), r) == finish_spec(old(self).model(), commands@, ids)
                },
    {
        let ghost m = self.model();
        let ghost cmds = commands@;
        match apply_commands(&mut self.resources, &mut self.ecs_table, commands.into_queue()) {
            Ok(q) => {
                let mut q = q;
                let ghost q0 = q@;
                self.requested.append(&mut q);
                let ghost ids = choose|ids: Seq<Option<u64>>|
                    #![trigger run_commands(m.resources, m.table, cmds, ids)]
                    {
                        let out = run_commands(m.resources, m.table, cmds, ids);
                        &&& ids.len() == cmds.len()
                        &&& out.3
                        &&& self.resources@ == out.0
                        &&& table_model(self.ecs_table) == out.1
                        &&& out.2 == Ok::<Seq<Task<V>>, u32>(q0)
                    };
                assert(self.model() == finish_spec(m, cmds, ids).0);
                StepOutcome::Continue
            },
            Err(code) => {
                self.pending.clear();
                self.requested.clear();
                let ghost ids = choose|ids: Seq<Option<u64>>|
                    #![trigger run_commands(m.resources, m.table, cmds, ids)]
                    {
                        let out = run_commands(m.resources, m.table, cmds, ids);
                        &&& ids.len() == cmds.len()
                        &&& out.3
                        &&& self.resources@ == out.0
                        &&& table_model(self.ecs_table) == out.1
                        &&& out.2 == Err::<Seq<Task<V>>, u32>(code)
                    };
                assert(self.pending@ =~= Seq::<Task<V>>::empty());
                assert(self.requested@ =~= Seq::<Task<V>>::empty());
                assert(self.model() == finish_spec(m, cmds, ids).0);
                StepOutcome::Exited(code)
            },
        }
    }

    /// One round of driving: a step and, when it hands out a system, the run
    /// of that system (`run_system`) and the handling of its commands
    /// (`finish_system`). The handed-out system runs once, as its `run_spec`
    /// admits, on the world and state current at the call with an empty
    /// command queue, and the round ends as `finish_spec` says for what it
    /// left (`SystemRun`). Any other step is the whole round.
    pub fn run_round(&mut self) -> (r: StepOutcome)
        ensures
            round_rel(*old(self), *final(self), r),
    {
        let ghost m0 = self.model();
        let ghost s0 = *self;
        match self.step() {
            StepOutcome::RunSystem { stage, index } => {
                assert(s0.systems@.contains_key(stage) && index < s0.systems@[stage]@.len());
                let ghost m1 = self.model();
                let commands = self.run_system(stage, index);
                let ghost cmds = commands@;
                let ghost m2 = self.model();
                let r = self.finish_system(commands);
                let ghost ids = choose|ids: Seq<Option<u64>>|
                    #![trigger run_commands(m2.resources, m2.table, cmds, ids)]
                    {
                        &&& ids.len() == cmds.len()
                        &&& run_commands(m2.resources, m2.table, cmds, ids).3
                        &&& (self.model(), r) == finish_spec(m2, cmds, ids)
                    };
                let ghost run = SystemRun {
                    resources: m2.resources,
                    table: m2.table,
                    data: m2.current_state_data,
                    commands: cmds,
                    ids,
                };
                assert(m2 == after_run(step_spec(m0).0, run));
                assert(self.systems@.remove(stage) =~= s0.systems@.remove(stage));
                r
            },
            o => o,
        }
    }

    /// Schedules a run of every system of `stage` before the pending work.
    pub fn queue_stage(&mut self, stage: u64)
        ensures
            final(self).model() == (SchedulerModel {
                pending: old(self).pending@.push(Task::RunStage { stage, next: 0 }),
                ..old(self).model()
            }),
            final(self).systems@ == old(self).systems@,
    {
        self.pending.push(Task::RunStage { stage, next: 0 });
    }

    /// Schedules what runs before the main loop, in this order: enter the
    /// state `SystemStartup`, run the stage `SystemStartup`, change to the
    /// state `Startup`, run the stage `Startup`, change to the state
    /// `MainLoop`. Each built-in state carries the data given for it.
    pub fn queue_before_main_loop(&mut self, system_startup: V, startup: V, main_loop: V)
        ensures
            final(self).model() == (SchedulerModel {
                pending: old(self).pending@ + before_main_loop_tasks(system_startup, startup, main_loop),
                ..old(self).model()
            }),
            final(self).systems@ == old(self).systems@,
    {
        let ghost tasks = before_main_loop_tasks(system_startup, startup, main_loop);
        self.pending.push(
            Task::ChangeState {
                new_state: MAIN_LOOP,
                new_enter_state: ENTER_MAIN_LOOP,
                new_exit_state: EXIT_MAIN_LOOP,
                data: main_loop,
            },
        );
        self.pending.push(Task::RunStage { stage: STARTUP, next: 0 });
        self.pending.push(
            Task::ChangeState {
                new_state: STARTUP,
                new_enter_state: ENTER_STARTUP,
                new_exit_state: EXIT_STARTUP,
                data: startup,
            },
        );
        self.pending.push(Task::RunStage { stage: SYSTEM_STARTUP, next: 0 });
        self.pending.push(
            Task::ChangeState {
                new_state: SYSTEM_STARTUP,
                new_enter_state: ENTER_SYSTEM_STARTUP,
                new_exit_state: EXIT_SYSTEM_STARTUP,
                data: system_startup,
            },
        );
        assert(self.pending@ =~= old(self).pending@ + tasks);
    }

    /// Schedules one main-loop iteration: a run of the `Update` stage.
    pub fn queue_main_loop_update(&mut self)
        ensures
            final(self).model() == (SchedulerModel {
                pending: old(self).pending@.push(Task::RunStage { stage: UPDATE, next: 0 }),
                ..old(self).model()
            }),
            final(self).systems@ == old(self).systems@,
    {
        self.pending.push(Task::RunStage { stage: UPDATE, next: 0 });
    }

    /// Whether any system was added to the `Update` stage.
    pub fn has_update_systems(&self) -> (r: bool)
        ensures
            r == self.systems@.contains_key(UPDATE),
    {
        self.systems.contains_key(&UPDATE)
    }
}

/// Adding systems to a stage.
pub trait AddSystems<Systems> {
    fn add_systems(self, stage: u64, systems: Systems) -> Self;
}

impl<V, S: System<V>> AddSystems<Vec<S>> for Scheduler<V, S> {
    /// Appends the systems, in order, after those already in `stage`.
    fn add_systems(self, stage: u64, systems: Vec<S>) -> (r: Self)
        ensures
            r.systems@.dom() == self.systems@.dom().insert(stage),
            r.systems@[stage]@ == (if self.systems@.contains_key(stage) {
                self.systems@[stage]@
            } else {
                Seq::empty()
            }) + systems@,
            forall|k: u64| k != stage ==> #[trigger] r.systems@.get(k) == self.systems@.get(k),
            same_state(self, r),
            same_world(self, r),
            r.pending@ == self.pending@,
            r.requested@ == self.requested@,
    {
        let mut app = self;
        let mut list = match app.systems.remove(&stage) {
            Some(v) => v,
            None => Vec::new(),
        };
        let mut systems = systems;
        list.append(&mut systems);
        app.systems.insert(stage, list);
        assert(app.systems@.dom() =~= self.systems@.dom().insert(stage));
        app
    }
}

/// The result of running an application that stopped with `code`: success
/// for 0, otherwise the code.
pub fn exit_code_result(code: u32) -> (r: Result<(), u32>)
    ensures
        r == (if code == 0 {
            Ok::<(), u32>(())
        } else {
            Err::<(), u32>(code)
        }),
{
    if code == 0 {
        Ok(())
    } else {
        Err(code)
    }
}

} // verus!
