//! `hm dev`: local deployments described by the worktree's registry.

pub mod logmux;
pub mod naming;
pub mod network;
pub mod registry;
pub mod service_spec;
pub mod session;
pub mod topo;
