//! Verified coordination core of the agent-mux mesh.
pub mod approval;
pub mod cli;
pub mod config;
pub mod conflicts;
pub mod events;
pub mod ids;
pub mod inbox;
pub mod laws;
pub mod mcp;
pub mod paths;
pub mod persist;
pub mod registry;
pub mod rpc;
pub mod state;
pub mod tasks;
pub mod wake;
pub mod text;
pub mod topics;
pub mod tmux;
pub mod topology;
pub mod watch;
pub mod zones;
