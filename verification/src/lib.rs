//! A small entity-component-system: entities with typed components, global
//! resources, deferred commands, events and a state-aware stage scheduler.
//!
//! Component, resource, stage and state types are identified by integer type
//! keys; the stored values are of one user-chosen type `V`.

pub mod ecs;
pub mod graphics;
