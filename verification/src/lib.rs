//! Decision logic of the ZeroClaw runtime's post-turn hooks and of its
//! `daemon_restart` tool.
pub mod agent;
pub mod lines;
pub mod number;
pub mod text;
pub mod tools;
pub mod truncate;
