//! Decision core of a development-mode live-reload orchestrator.
//!
//! The crate holds the rules of the orchestrator as plain state machines and
//! data types: every function takes plain values and returns plain values, so
//! that the surrounding program keeps all I/O (timers, processes, sockets, the
//! file system) and only performs the actions that these functions hand back.
pub mod path;
pub mod tree;
pub mod snapshot;
pub mod pipeline;
pub mod watcher;
pub mod history;
pub mod config;
pub mod session;
pub mod orchestrator;
