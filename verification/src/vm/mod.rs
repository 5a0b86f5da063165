//! VM orchestration for hermetic build actions: the action and snapshot
//! types, the cache-aware execution machine, the snapshot registry's
//! eviction rule, and the Docker backend's decisions.

pub mod docker;
pub mod machine;
pub mod registry;
pub mod types;
