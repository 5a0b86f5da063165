//! The deployment registry that `python -m harmont.dev --dump-registry`
//! emits, as the library sees it.

use vstd::prelude::*;

use crate::smap::StrMap;

verus! {

/// Wire sentinel for `hm.dev.port()` — a container port to publish on a
/// free host port.
pub const PORT_SENTINEL: &'static str = "__hm_dev_port__";

/// Where a `from_=` deployment gets its image.
#[derive(Debug)]
pub enum FromSource {
    /// Build the image from a step chain (a v0 pipeline IR document).
    StepChain {
        /// The pipeline IR, as JSON text.
        pipeline_v0: String,
        /// The resolved cache key of the chain's last step, when the IR has one.
        terminal_key: Option<String>,
    },
}

/// A deployment run by the local (Docker) driver.
#[derive(Debug)]
pub struct LocalSpec {
    pub image: Option<String>,
    pub from: Option<FromSource>,
    pub cmd: Option<Vec<String>>,
    pub port_mapping: StrMap<String>,
    pub env: StrMap<String>,
    pub volumes: StrMap<String>,
    pub workdir: Option<String>,
    pub deps: Vec<String>,
}

/// One registry entry.
#[derive(Debug)]
pub enum RegEntry {
    /// A deployment the local driver runs.
    Local(LocalSpec),
    /// A deployment of any other driver (listed, never run here).
    Unhandled,
}

/// The whole registry of one worktree, keyed by slug in slug order.
#[derive(Debug)]
pub struct DevRegistry {
    pub schema_version: String,
    pub worktree: String,
    pub deployments: StrMap<RegEntry>,
}

} // verus!
