use vstd::prelude::*;

use super::commands::{Commands, StoredCommand};
use super::ecs_table::{table_model, EcsTable};
use super::scheduler::{AppStateInfo, Resources};

verus! {

/// A unit of game logic run by the scheduler. It may read and change the
/// resources and components in place and queue commands; the commands are
/// applied once it has returned.
pub trait System<V> {
    /// Whether a run of this system, handed the resources `res`, the
    /// components `tab`, the current state `state` (its key and data, when a
    /// state is current) and a command queue holding `queued`, may leave the
    /// system as `after`, the resources as `res_after`, the components as
    /// `tab_after`, the state data as `data_after` (`None` when no state was
    /// handed) and the queue holding `queued_after`. A system may describe
    /// its runs here; one that does not may do anything.
    open spec fn run_spec(
        &self,
        after: &Self,
        res: Map<u64, V>,
        tab: Map<u64, Map<u64, V>>,
        state: Option<(u64, V)>,
        queued: Seq<StoredCommand<V>>,
        res_after: Map<u64, V>,
        tab_after: Map<u64, Map<u64, V>>,
        data_after: Option<V>,
        queued_after: Seq<StoredCommand<V>>,
    ) -> bool {
        true
    }

    /// Runs the system once on what it is handed.
    fn run(
        &mut self,
        resources: &mut Resources<V>,
        ecs_table: &mut EcsTable<V>,
        commands: &mut Commands<V>,
        state: Option<AppStateInfo<'_, V>>,
    )
        ensures
            old(self).run_spec(
                final(self),
                old(resources)@,
                table_model(*old(ecs_table)),
                if state is Some {
                    Some((state.unwrap().current_state, *state.unwrap().current_data))
                } else {
                    None
                },
                old(commands)@,
                final(resources)@,
                table_model(*final(ecs_table)),
                if state is Some {
                    Some(*final(state.unwrap().current_data))
                } else {
                    None
                },
                final(commands)@,
            ),
    ;
}

/// Shared access to one resource.
pub struct Res<'a, V> {
    pub value: &'a V,
}

impl<'a, V> Res<'a, V> {
    /// The resource stored under `key`, which must exist.
    pub fn retrieve(resources: &'a Resources<V>, key: u64) -> (r: Res<'a, V>)
        requires
            resources@.contains_key(key),
        ensures
            *r.value == resources@[key],
    {
        Res { value: resources.get(&key).unwrap() }
    }
}

/// Exclusive access to one resource.
pub struct ResMut<'a, V> {
    pub value: &'a mut V,
}

impl<'a, V> ResMut<'a, V> {
    /// The resource stored under `key`, which must exist, for changing in place.
    pub fn retrieve(resources: &'a mut Resources<V>, key: u64) -> (r: ResMut<'a, V>)
        requires
            old(resources)@.contains_key(key),
        ensures
            *r.value == old(resources)@[key],
            final(resources)@ == old(resources)@.insert(key, *final(r.value)),
    {
        match resources.entry(key) {
            std::collections::hash_map::Entry::Occupied(e) => ResMut { value: e.into_mut() },
            std::collections::hash_map::Entry::Vacant(_) => {
                proof {
                    assert(false);
                }
                loop
                    invariant
                        false,
                    decreases 0nat,
                {
                }
            },
        }
    }
}

} // verus!
