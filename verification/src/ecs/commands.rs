use vstd::prelude::*;

use super::ecs_table::{
    component_types, despawn_from, despawn_spec, generate_entity, law_despawn_removes_entity,
    law_spawn_keeps_other_entities, law_spawned_entity_has_given_types, spawn_into, spawn_spec,
    table_contains_spec, table_model, EcsTable, Entity,
};
use super::scheduler::Resources;
use crate::graphics::WINDOW;

verus! {

broadcast use vstd::std_specs::hash::group_hash_axioms;

/// What a command hands back to the scheduler once it has been applied.
pub enum SystemMessage<V> {
    /// Stop the application with this code.
    Exit(u32),
    /// Move to the state `new_state`, carrying `data`; `new_enter_state` and
    /// `new_exit_state` are the stages run on entering and leaving it.
    ChangeState { new_state: u64, new_enter_state: u64, new_exit_state: u64, data: V },
    /// An entity with a window component was spawned.
    WindowCreated(Entity),
}

/// A deferred change to the world, queued by a system and applied after it ran.
pub enum StoredCommand<V> {
    /// Set the resource of this type, replacing any earlier value.
    InsertResource(u64, V),
    /// Set the resource of this type unless one is already there.
    TryInsertResource(u64, V),
    /// Stop the application with this code.
    Exit(u32),
    /// Change the application state.
    ChangeState { new_state: u64, new_enter_state: u64, new_exit_state: u64, data: V },
    /// Create a new entity with these components (type key, value).
    Spawn(Vec<(u64, V)>),
    /// Remove every component of this entity.
    Despawn(Entity),
}

/// Whether `id` is a possible choice of entity for `cmd`: a spawn creates an
/// unused id, and creates none (`None`) only when every id is in use; the
/// other commands create none.
pub open spec fn fresh_for<V>(cmd: StoredCommand<V>, m: Map<u64, Map<u64, V>>, id: Option<u64>) -> bool {
    match cmd {
        StoredCommand::Spawn(_) => match id {
            Some(e) => !table_contains_spec(m, e),
            None => forall|x: u64| table_contains_spec(m, x),
        },
        _ => id is None,
    }
}

/// Whether one of the components is a window.
pub open spec fn has_window<V>(comps: Seq<(u64, V)>) -> bool {
    exists|i: int| 0 <= i < comps.len() && (#[trigger] comps[i]).0 == WINDOW
}

/// The resources, component tables and message after applying `cmd`; `id` is
/// the entity a spawn creates.
pub open spec fn command_effect<V>(
    cmd: StoredCommand<V>,
    res: Map<u64, V>,
    tab: Map<u64, Map<u64, V>>,
    id: Option<u64>,
) -> (Map<u64, V>, Map<u64, Map<u64, V>>, Option<SystemMessage<V>>) {
    match cmd {
        StoredCommand::InsertResource(k, v) => (res.insert(k, v), tab, None),
        StoredCommand::TryInsertResource(k, v) => (
            if res.contains_key(k) {
                res
            } else {
                res.insert(k, v)
            },
            tab,
            None,
        ),
        StoredCommand::Exit(code) => (res, tab, Some(SystemMessage::Exit(code))),
        StoredCommand::ChangeState { new_state, new_enter_state, new_exit_state, data } => (
            res,
            tab,
            Some(SystemMessage::ChangeState { new_state, new_enter_state, new_exit_state, data }),
        ),
        StoredCommand::Spawn(comps) => match id {
            Some(e) => (
                res,
                spawn_spec(tab, e, comps@),
                if has_window(comps@) {
                    Some(SystemMessage::WindowCreated(Entity(e)))
                } else {
                    None
                },
            ),
            None => (res, tab, None),
        },
        StoredCommand::Despawn(e) => (res, despawn_spec(tab, e.0), None),
    }
}

/// An exit command always asks to stop, with exactly its own code, whatever
/// the code and the world; it changes neither resources nor components.
pub proof fn law_exit_command_asks_to_stop_with_its_code<V>(
    res: Map<u64, V>,
    tab: Map<u64, Map<u64, V>>,
    id: Option<u64>,
    code: u32,
)
    ensures
        command_effect(StoredCommand::<V>::Exit(code), res, tab, id).0 == res,
        command_effect(StoredCommand::<V>::Exit(code), res, tab, id).1 == tab,
        command_effect(StoredCommand::<V>::Exit(code), res, tab, id).2 matches Some(
            SystemMessage::Exit(c),
        ) && c == code,
{
}

/// A spawn that creates entity `e` announces a window exactly when one of
/// its components, at any position, is a window, and the announcement names
/// `e`; a spawn that creates nothing announces nothing.
pub proof fn law_spawn_announces_window_at_any_position<V>(
    res: Map<u64, V>,
    tab: Map<u64, Map<u64, V>>,
    comps: Vec<(u64, V)>,
    id: Option<u64>,
)
    ensures
        ({
            let msg = command_effect(StoredCommand::Spawn(comps), res, tab, id).2;
            match id {
                Some(e) => {
                    &&& msg is Some <==> exists|i: int|
                        0 <= i < comps@.len() && (#[trigger] comps@[i]).0 == WINDOW
                    &&& msg is Some ==> msg == Some(SystemMessage::<V>::WindowCreated(Entity(e)))
                },
                None => msg is None,
            }
        }),
{
}

/// Despawning an entity removes every one of its components, whichever id
/// the command is applied with: afterwards no component table holds the
/// entity, every other entity keeps exactly its components, the component
/// tables stay, and the resources are untouched.
pub proof fn law_despawn_command_removes_every_component<V>(
    res: Map<u64, V>,
    tab: Map<u64, Map<u64, V>>,
    e: Entity,
    id: Option<u64>,
    t: u64,
    other: u64,
)
    requires
        other != e.0,
    ensures
        ({
            let out = command_effect(StoredCommand::<V>::Despawn(e), res, tab, id);
            &&& out.0 == res
            &&& out.2 is None
            &&& !table_contains_spec(out.1, e.0)
            &&& out.1.dom() == tab.dom()
            &&& tab.contains_key(t) ==> out.1[t].contains_key(other) == tab[t].contains_key(other)
            &&& tab.contains_key(t) && tab[t].contains_key(other) ==> out.1[t][other] == tab[t][other]
        }),
{
    law_despawn_removes_entity(tab, e.0, t, other);
}

/// A state-change command changes neither resources nor components and asks
/// for exactly the change it carries: same state, stages and data.
pub proof fn law_change_state_command_requests_its_change<V>(
    res: Map<u64, V>,
    tab: Map<u64, Map<u64, V>>,
    id: Option<u64>,
    new_state: u64,
    new_enter_state: u64,
    new_exit_state: u64,
    data: V,
)
    ensures
        ({
            let out = command_effect(
                StoredCommand::ChangeState { new_state, new_enter_state, new_exit_state, data },
                res,
                tab,
                id,
            );
            &&& out.0 == res
            &&& out.1 == tab
            &&& out.2 matches Some(SystemMessage::ChangeState { new_state: s, new_enter_state: en, new_exit_state: ex, data: d })
                && s == new_state && en == new_enter_state && ex == new_exit_state && d == data
        }),
{
}

/// A spawn creates an entity whenever some id is unused: the entity was
/// unused before, has afterwards exactly the listed component types, every
/// other entity keeps its components and the resources stay. A spawn creates
/// nothing only when every id is in use.
pub proof fn law_spawn_command_creates_a_fresh_entity<V>(
    res: Map<u64, V>,
    tab: Map<u64, Map<u64, V>>,
    comps: Vec<(u64, V)>,
    id: Option<u64>,
    t: u64,
    other: u64,
)
    requires
        fresh_for(StoredCommand::Spawn(comps), tab, id),
    ensures
        (exists|x: u64| !table_contains_spec(tab, x)) ==> id is Some,
        id is None ==> command_effect(StoredCommand::Spawn(comps), res, tab, id).0 == res
            && command_effect(StoredCommand::Spawn(comps), res, tab, id).1 == tab,
        id matches Some(e) ==> {
            let out = command_effect(StoredCommand::Spawn(comps), res, tab, id);
            &&& !table_contains_spec(tab, e)
            &&& out.0 == res
            &&& (out.1.contains_key(t) && out.1[t].contains_key(e)) <==> component_types(
                comps@,
            ).contains(t)
            &&& other != e ==> ((out.1.contains_key(t) && out.1[t].contains_key(other)) <==> (
            tab.contains_key(t) && tab[t].contains_key(other)))
        },
{
    match id {
        Some(e) => {
            law_spawned_entity_has_given_types(tab, e, comps@, t);
            if other != e {
                law_spawn_keeps_other_entities(tab, e, comps@, t, other);
            }
        },
        None => {
            if exists|x: u64| !table_contains_spec(tab, x) {
                let x = choose|x: u64| !table_contains_spec(tab, x);
                assert(table_contains_spec(tab, x));
            }
        },
    }
}

/// Setting a resource makes it read back as the value set; the other
/// resources and all components stay as they were.
pub proof fn law_insert_resource_reads_back<V>(
    res: Map<u64, V>,
    tab: Map<u64, Map<u64, V>>,
    id: Option<u64>,
    key: u64,
    value: V,
    other: u64,
)
    requires
        other != key,
    ensures
        command_effect(StoredCommand::InsertResource(key, value), res, tab, id).0[key] == value,
        command_effect(StoredCommand::InsertResource(key, value), res, tab, id).0.get(other)
            == res.get(other),
        command_effect(StoredCommand::InsertResource(key, value), res, tab, id).1 == tab,
        command_effect(StoredCommand::InsertResource(key, value), res, tab, id).2 is None,
{
}

/// Setting a resource only if absent never replaces an existing value, and
/// sets an absent one.
pub proof fn law_try_insert_resource_keeps_existing<V>(
    res: Map<u64, V>,
    tab: Map<u64, Map<u64, V>>,
    id: Option<u64>,
    key: u64,
    value: V,
)
    ensures
        res.contains_key(key) ==> command_effect(
            StoredCommand::TryInsertResource(key, value),
            res,
            tab,
            id,
        ).0 == res,
        !res.contains_key(key) ==> command_effect(
            StoredCommand::TryInsertResource(key, value),
            res,
            tab,
            id,
        ).0[key] == value,
{
}

impl<V> StoredCommand<V> {
    /// Applies the command to the world. A spawn draws an entity id that no
    /// component table uses, and does nothing only when every id is in use.
    pub fn apply(self, resources: &mut Resources<V>, table: &mut EcsTable<V>) -> (msg: Option<
        SystemMessage<V>,
    >)
        ensures
            exists|id: Option<u64>|
                fresh_for(self, table_model(*old(table)), id) && (final(resources)@, table_model(
                    *final(table),
                ), msg) == command_effect(self, old(resources)@, table_model(*old(table)), id),
    {
        let ghost cmd = self;
        let ghost r0 = resources@;
        let ghost t0 = table_model(*table);
        match self {
            StoredCommand::InsertResource(k, v) => {
                resources.insert(k, v);
                assert(fresh_for(cmd, t0, None::<u64>));
                assert((resources@, table_model(*table), None::<SystemMessage<V>>) == command_effect(cmd, r0, t0, None));
                None
            },
            StoredCommand::TryInsertResource(k, v) => {
                if !resources.contains_key(&k) {
                    resources.insert(k, v);
                }
                assert(fresh_for(cmd, t0, None::<u64>));
                assert((resources@, table_model(*table), None::<SystemMessage<V>>) == command_effect(cmd, r0, t0, None));
                None
            },
            StoredCommand::Exit(code) => {
                let msg = Some(SystemMessage::Exit(code));
                assert(fresh_for(cmd, t0, None::<u64>));
                assert((resources@, table_model(*table), msg) == command_effect(cmd, r0, t0, None));
                msg
            },
            StoredCommand::ChangeState { new_state, new_enter_state, new_exit_state, data } => {
                let msg = Some(SystemMessage::ChangeState { new_state, new_enter_state, new_exit_state, data });
                assert(fresh_for(cmd, t0, None::<u64>));
                assert((resources@, table_model(*table), msg) == command_effect(cmd, r0, t0, None));
                msg
            },
            StoredCommand::Spawn(comps) => {
                match generate_entity(table) {
                    Some(e) => {
                        let window = contains_window(&comps);
                        spawn_into(table, e, comps);
                        let msg = if window {
                            Some(SystemMessage::WindowCreated(e))
                        } else {
                            None
                        };
                        assert(fresh_for(cmd, t0, Some(e.0)));
                        assert((resources@, table_model(*table), msg) == command_effect(cmd, r0, t0, Some(e.0)));
                        msg
                    },
                    None => {
                        assert(fresh_for(cmd, t0, None::<u64>));
                        assert((resources@, table_model(*table), None::<SystemMessage<V>>) == command_effect(cmd, r0, t0, None));
                        None
                    },
                }
            },
            StoredCommand::Despawn(e) => {
                despawn_from(table, e);
                assert(fresh_for(cmd, t0, None::<u64>));
                assert((resources@, table_model(*table), None::<SystemMessage<V>>) == command_effect(cmd, r0, t0, None));
                None
            },
        }
    }
}

/// Whether one of the components is a window.
fn contains_window<V>(comps: &Vec<(u64, V)>) -> (r: bool)
    ensures
        r == has_window(comps@),
{
    let n = comps.len();
    for i in 0..n
        invariant
            n == comps@.len(),
            forall|j: int| 0 <= j < i ==> (#[trigger] comps@[j]).0 != WINDOW,
    {
        if comps[i].0 == WINDOW {
            assert(comps@[i as int].0 == WINDOW);
            return true;
        }
    }
    false
}


/// A change to the resources that can be run on its own.
pub trait Command<V> {
    fn run(self, resources: &mut Resources<V>);
}

/// The queue of deferred commands that a system fills while it runs.
pub struct Commands<V> {
    queue: Vec<StoredCommand<V>>,
}

impl<V> View for Commands<V> {
    type V = Seq<StoredCommand<V>>;

    closed spec fn view(&self) -> Seq<StoredCommand<V>> {
        self.queue@
    }
}

impl<V> Commands<V> {
    /// An empty queue.
    pub fn new() -> (c: Commands<V>)
        ensures
            c@ == Seq::<StoredCommand<V>>::empty(),
    {
        Commands { queue: Vec::new() }
    }

    /// The queued commands, oldest first.
    pub fn into_queue(self) -> (q: Vec<StoredCommand<V>>)
        ensures
            q@ == self@,
    {
        self.queue
    }

    /// Queues setting the resource `key`, replacing any existing value.
    pub fn insert_resource(&mut self, key: u64, res: V)
        ensures
            final(self)@ == old(self)@.push(StoredCommand::InsertResource(key, res)),
    {
        self.queue.push(StoredCommand::InsertResource(key, res));
    }

    /// Queues setting the resource `key` only if it is not already there.
    pub fn try_insert_resource(&mut self, key: u64, res: V)
        ensures
            final(self)@ == old(self)@.push(StoredCommand::TryInsertResource(key, res)),
    {
        self.queue.push(StoredCommand::TryInsertResource(key, res));
    }

    /// Queues stopping the application with `code`.
    pub fn exit(&mut self, code: u32)
        ensures
            final(self)@ == old(self)@.push(StoredCommand::Exit(code)),
    {
        self.queue.push(StoredCommand::Exit(code));
    }

    /// Queues a change to the state `new_state` with its data; entering it runs
    /// the stage `new_enter_state` and leaving it later runs `new_exit_state`.
    pub fn change_state(&mut self, new_state: u64, new_enter_state: u64, new_exit_state: u64, data: V)
        ensures
            final(self)@ == old(self)@.push(
                StoredCommand::ChangeState { new_state, new_enter_state, new_exit_state, data },
            ),
    {
        self.queue.push(StoredCommand::ChangeState { new_state, new_enter_state, new_exit_state, data });
    }

    /// Queues removing every component of `entity`.
    pub fn despawn(&mut self, entity: Entity)
        ensures
            final(self)@ == old(self)@.push(StoredCommand::Despawn(entity)),
    {
        self.queue.push(StoredCommand::Despawn(entity));
    }
}

/// Queuing the creation of an entity from a set of components.
pub trait SpawnEntity<Inputs> {
    fn spawn(&mut self, components: Inputs);
}

impl<V> SpawnEntity<Vec<(u64, V)>> for Commands<V> {
    /// Queues creating a fresh entity with these components (type key, value).
    fn spawn(&mut self, components: Vec<(u64, V)>)
        ensures
            final(self)@ == old(self)@.push(StoredCommand::Spawn(components)),
    {
        self.queue.push(StoredCommand::Spawn(components));
    }
}

} // verus!
