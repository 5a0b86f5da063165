//! What a VM executes, how results are cached, and what comes back.

use vstd::prelude::*;

verus! {

/// Opaque snapshot handle (for Docker, an image tag).
#[derive(Debug)]
pub struct SnapshotId(pub String);

impl Clone for SnapshotId {
    fn clone(&self) -> (r: Self)
        ensures
            r == *self,
    {
        SnapshotId(self.0.clone())
    }
}

impl SnapshotId {
    /// Wrap a backend reference.
    pub fn new(s: String) -> (r: Self)
        ensures
            r.0 == s,
    {
        SnapshotId(s)
    }

    /// The backend reference.
    pub fn as_str(&self) -> (r: &str)
        ensures
            r@ == self.0@,
    {
        self.0.as_str()
    }
}

/// Where to boot the VM from.
#[derive(Debug)]
pub enum ImageSource {
    /// OCI image reference (e.g., "alpine:latest").
    Image(String),
    /// Fork from a previous snapshot.
    Snapshot(SnapshotId),
}

/// Bind-mount specification for a host workspace directory.
#[derive(Debug)]
pub struct WorkspaceMount {
    pub host_path: String,
    pub guest_path: String,
}

/// What to execute inside a VM.
#[derive(Debug)]
pub struct Action {
    pub source: ImageSource,
    pub cmd: String,
    pub env: Vec<(String, String)>,
    pub working_dir: String,
    /// Time limit in milliseconds, if any.
    pub timeout_ms: Option<u64>,
    /// Host workspace directory to bind-mount into the VM. Bind mounts are
    /// excluded from snapshots, so workspace contents never persist into
    /// the cache.
    pub workspace: Option<WorkspaceMount>,
}

/// How to cache the result.
#[derive(Debug)]
pub enum CachingPolicy {
    /// Do not cache.
    NoCache,
    /// Cache the resulting snapshot under this key.
    Cache { key: String },
}

/// How a snapshot is named when committed.
#[derive(Debug)]
pub enum SnapshotLabel {
    /// A run-scoped snapshot that no registry entry names.
    Ephemeral,
    /// A snapshot cached under this key.
    Cached(String),
}

/// Result of executing an action.
#[derive(Debug)]
pub struct ExecutionResult {
    pub exit_code: i32,
    pub snapshot: Option<SnapshotId>,
    pub cached: bool,
    /// True when the snapshot is ephemeral (not registered in the cache)
    /// and must be cleaned up by the caller after downstream steps finish.
    pub ephemeral_snapshot: bool,
}

/// VM resource configuration.
#[derive(Debug, Clone, Copy)]
pub struct VmConfig {
    pub cpus: Option<u32>,
    pub memory_mib: Option<u64>,
    pub disk_size_gb: Option<u64>,
}

impl Default for VmConfig {
    fn default() -> (r: Self)
        ensures
            r.cpus is None && r.memory_mib is None && r.disk_size_gb is None,
    {
        VmConfig { cpus: None, memory_mib: None, disk_size_gb: None }
    }
}

/// Receives stdout/stderr lines during execution.
pub trait OutputSink {
    fn on_stdout(&self, line: &str);

    fn on_stderr(&self, line: &str);
}

/// No-op sink for when output is not needed.
#[derive(Debug)]
pub struct NullSink;

impl OutputSink for NullSink {
    fn on_stdout(&self, line: &str) {
    }

    fn on_stderr(&self, line: &str) {
    }
}

} // verus!
