# ecs_x

A small entity-component-system library, verified with Verus.

* Entities carry components; components and resources of every type are
  values of one type `V` chosen by the user, keyed by integer type keys.
* Systems run in stages. They queue commands (set a resource, spawn or
  despawn an entity, change the application state, exit) that are applied
  after each system. State changes run the exit stage of the old state and
  the enter stage of the new one. The scheduler is driven round by round
  (`run_round`): `step` hands out the next system due, `run_system` runs it
  and `finish_system` applies its commands. A system may describe its runs
  in `System::run_spec`; the scheduler's contracts speak of that.
* Events are written to an `EventWriter` and delivered to an `EventReader`
  once per update; events that a read handed out are then dropped.
* Queries list the entities that have given component types and pass
  `With`/`Without` filters.

Layout:

* `src/` — the verified library (`ecs::ecs_table`, `ecs::commands`,
  `ecs::scheduler`, `ecs::system`, `ecs::state`, `ecs::query`, `ecs::event`,
  `graphics` labels).
* `app/` — an example program: type keys for Rust types, systems as closures,
  plugins, the main loop and a winit window.
* `tests/` — tests of the library.
