//! Event-driven automation: configuration checking, event routing between
//! handlers, retry scheduling, rate limiting and the per-handler decisions
//! that drive shell commands.

pub mod command_executor;
pub mod config;
pub mod forward_graph;
pub mod text;
pub mod glob;
pub mod clock;
pub mod handlers;
pub mod event;
pub mod event_time;
pub mod event_bus;
pub mod string_map;
pub mod launch;
