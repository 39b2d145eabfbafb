//! Tools that the agent can call.
pub mod daemon_restart;
