pub mod commands;
pub mod ecs_table;
pub mod event;
pub mod query;
pub mod scheduler;
pub mod state;
pub mod system;
