//! The arguments of the `hm` subcommands, as plain values. Paths are
//! carried as their text.

use vstd::prelude::*;

use crate::render::OutputMode;
use crate::smap::StrMap;
use crate::text::seq_starts_with;

verus! {

/// `hm dev` subcommands.
#[derive(Clone, Debug)]
pub enum DevCommand {
    /// Bring deployments up in the foreground until interrupted.
    Up(DevUpArgs),
    /// Tear down deployments owned by this worktree's sessions.
    Down(DevDownArgs),
    /// List registered and running deployments.
    Ls,
    /// Tail the logs of a live deployment.
    Logs(DevLogsArgs),
    /// Print the host port of a live deployment.
    PortOf(DevPortOfArgs),
    /// Run a command in a live deployment's container.
    Exec(DevExecArgs),
}

/// Arguments of `hm dev up`.
#[derive(Clone, Debug)]
pub struct DevUpArgs {
    /// Deployment slugs to bring up; all registered ones when empty.
    pub slugs: Vec<String>,
    /// Bring up exactly the listed slugs, without their dependencies.
    pub no_deps: bool,
    /// Rebuild step-chain images even when a cached build exists.
    pub rebuild: bool,
}

/// Arguments of `hm dev down`.
#[derive(Clone, Debug)]
pub struct DevDownArgs {
    /// Slugs to sweep; every session of this worktree when empty.
    pub slugs: Vec<String>,
    /// Sweep one session entirely (overrides `slugs`).
    pub session: Option<String>,
    /// Sweep every local deployment on the machine.
    pub all: bool,
}

/// Arguments of `hm dev logs`.
#[derive(Clone, Debug)]
pub struct DevLogsArgs {
    pub slug: String,
    pub follow: bool,
    pub session: Option<String>,
}

/// Arguments of `hm dev port-of`.
#[derive(Clone, Debug)]
pub struct DevPortOfArgs {
    pub slug: String,
    /// Container-internal port whose host binding to print.
    pub container_port: u16,
    pub session: Option<String>,
}

/// Arguments of `hm dev exec`.
#[derive(Clone, Debug)]
pub struct DevExecArgs {
    pub slug: String,
    /// Command to run inside the container; `sh -l` when empty.
    pub cmd: Vec<String>,
    pub session: Option<String>,
}

/// `hm cache` subcommands.
#[derive(Clone, Debug)]
pub enum CacheCommand {
    /// Save images to a cache directory.
    Save(CacheSaveArgs),
    /// Restore images from a cache directory.
    Restore(CacheRestoreArgs),
    /// Remove cached workspaces and images.
    Clean,
}

/// Arguments of `hm cache save`.
#[derive(Clone, Debug)]
pub struct CacheSaveArgs {
    /// Directory to save image tars into.
    pub dir: String,
}

/// Arguments of `hm cache restore`.
#[derive(Clone, Debug)]
pub struct CacheRestoreArgs {
    /// Directory holding cached image tars.
    pub dir: String,
}

/// Arguments of `hm pipelines`.
#[derive(Clone, Debug)]
pub struct PipelinesArgs {
    /// Source root holding `.hm/`; the working directory when absent.
    pub dir: Option<String>,
}

/// `hm plugin` subcommands.
#[derive(Clone, Copy, Debug, PartialEq, Eq, Structural)]
pub enum PluginCommand {
    /// List registered runners.
    List,
}

/// Arguments of `hm render`.
#[derive(Clone, Debug)]
pub struct RenderArgs {
    /// Pipeline slug to render.
    pub slug: String,
    /// Source root; the working directory when absent.
    pub dir: Option<String>,
}

/// Arguments of `hm run`.
#[derive(Clone, Debug)]
pub struct RunArgs {
    /// Pipeline slug; needed when the repository declares several.
    pub pipeline: Option<String>,
    /// Branch to record on the build.
    pub branch: Option<String>,
    /// Build message.
    pub message: Option<String>,
    /// Environment variables as `KEY=VALUE`.
    pub env: Vec<String>,
    /// Source root; the working directory when absent.
    pub dir: Option<String>,
    /// Do not watch the build once it is created.
    pub no_watch: bool,
    /// Chains to run at once; the host's parallelism when absent.
    pub parallelism: Option<usize>,
    /// Output formatter name.
    pub format: String,
    /// Stream full logs instead of progress bars.
    pub logs: bool,
    /// Execution backend name.
    pub backend: Option<String>,
    /// Older spelling of `backend = cloud`.
    pub cloud: bool,
    /// Cloud organization.
    pub org: Option<String>,
    /// Keep running independent chains after a failure.
    pub keep_going: bool,
}


/// The output mode of the built-in commands: human output, coloured
/// unless `--no-color` is given or the terminal does not want colour,
/// interactive when stdout is a terminal.
pub fn output_mode_for(no_color: bool, wants_color: bool, stdout_is_tty: bool) -> (m: OutputMode)
    ensures
        m == (OutputMode::Human { color: !no_color && wants_color, interactive: stdout_is_tty }),
{
    OutputMode::Human { color: !no_color && wants_color, interactive: stdout_is_tty }
}

/// The variables handed to a plugin subcommand: those whose name starts
/// with `HARMONT_`, a later value of a name replacing an earlier one.
pub open spec fn plugin_env_of(vars: Seq<(String, String)>) -> Map<Seq<char>, Seq<char>>
    decreases vars.len(),
{
    if vars.len() == 0 {
        Map::empty()
    } else {
        let prev = plugin_env_of(vars.drop_last());
        let (k, v) = vars.last();
        if seq_starts_with(k@, "HARMONT_"@) {
            prev.insert(k@, v@)
        } else {
            prev
        }
    }
}

/// The environment of a plugin subcommand, from the process variables.
pub fn plugin_env(vars: &Vec<(String, String)>) -> (m: StrMap<String>)
    ensures
        m.as_map().map_values(|v: String| v@) == plugin_env_of(vars@),
{
    let mut m: StrMap<String> = StrMap::new();
    let prefix = crate::text::chars_of("HARMONT_");
    let mut i: usize = 0;
    proof {
        assert(m.as_map().map_values(|v: String| v@) =~= plugin_env_of(vars@.subrange(0, 0)));
    }
    while i < vars.len()
        invariant
            i <= vars@.len(),
            prefix@ == "HARMONT_"@,
            m.as_map().map_values(|v: String| v@) == plugin_env_of(vars@.subrange(0, i as int)),
        decreases vars@.len() - i,
    {
        proof {
            assert(vars@.subrange(0, i + 1).drop_last() =~= vars@.subrange(0, i as int));
        }
        let k = crate::text::chars_of(vars[i].0.as_str());
        let starts = crate::text::matches_at(&k, 0, &prefix);
        proof {
            assert(starts == seq_starts_with(vars@[i as int].0@, "HARMONT_"@));
        }
        if starts {
            let ghost before = m.as_map().map_values(|v: String| v@);
            m.insert(vars[i].0.clone(), vars[i].1.clone());
            proof {
                assert(m.as_map().map_values(|v: String| v@) =~= before.insert(vars@[i as int].0@, vars@[i as int].1@));
            }
        }
        i = i + 1;
    }
    proof {
        assert(vars@.subrange(0, vars@.len() as int) =~= vars@);
    }
    m
}

} // verus!
