//! Core of a desktop launcher that drives local container executions:
//! a terminal-aware renderer that turns child output bytes into display
//! lines, a supervisor that owns child processes and their output
//! buffers, a persistent container catalog, a relational request
//! journal, and the broker that dispatches typed requests between the
//! front-end and those components.

pub mod api;
pub mod broker;
pub mod catalog;
pub mod configref;
pub mod helper;
pub mod ids;
pub mod journal;
pub mod listing;
pub mod paths;
pub mod singularity;
pub mod supervisor;
pub mod terminal;
pub mod textutil;
pub mod time;
pub mod wsl;
