//! Build-event rendering: the output-mode selection, the event type the
//! renderers consume, and the text each renderer produces.

use vstd::prelude::*;

use crate::text::{decimal, push_decimal, push_str, string_of};

pub mod human;
pub mod json;
pub mod progress;

verus! {

/// How to render output. Determined at startup from CLI flags and TTY
/// detection.
#[derive(Debug, Clone, Copy, PartialEq, Eq, Structural)]
pub enum OutputMode {
    Human {
        /// Whether ANSI colors are enabled.
        color: bool,
        /// Whether stdout is an interactive terminal (enables prompts, spinners).
        interactive: bool,
    },
    Json,
}

impl OutputMode {
    /// True when output should be JSON, suitable for scripting.
    pub fn is_json(&self) -> (b: bool)
        ensures
            b == (*self is Json),
    {
        match self {
            OutputMode::Json => true,
            OutputMode::Human { .. } => false,
        }
    }

    /// True when output is meant for a human reader.
    pub fn is_human(&self) -> (b: bool)
        ensures
            b == (*self is Human),
    {
        match self {
            OutputMode::Json => false,
            OutputMode::Human { .. } => true,
        }
    }

    /// True when ANSI color codes should be emitted.
    pub fn color_enabled(&self) -> (b: bool)
        ensures
            b == (*self matches OutputMode::Human { color: true, .. }),
    {
        match self {
            OutputMode::Json => false,
            OutputMode::Human { color, .. } => *color,
        }
    }

    /// True when stdout is interactive (allows prompts and spinners).
    pub fn interactive(&self) -> (b: bool)
        ensures
            b == (*self matches OutputMode::Human { interactive: true, .. }),
    {
        match self {
            OutputMode::Json => false,
            OutputMode::Human { interactive, .. } => *interactive,
        }
    }

    /// True when OSC 8 hyperlinks should be emitted (interactive + color).
    pub fn use_hyperlinks(&self) -> (b: bool)
        ensures
            b == (*self matches OutputMode::Human { interactive: true, color: true }),
    {
        match self {
            OutputMode::Json => false,
            OutputMode::Human { color, interactive } => *color && *interactive,
        }
    }
}

/// Which renderer a run uses.
#[derive(Debug, Clone, Copy, PartialEq, Eq, Structural)]
pub enum RendererKind {
    /// One JSON object per event.
    Json,
    /// Streaming log lines.
    Human,
    /// Live progress bars with a summary at the end.
    Progress,
}

/// Choose the renderer for a run: `json` gives JSON lines; `human` gives
/// the streaming log view when `logs` is set and the progress view
/// otherwise; any other format is refused with the message to show.
pub fn renderer_kind(format: &str, logs: bool) -> (r: Result<RendererKind, String>)
    ensures
        match r {
            Ok(k) => (format@ == "json"@ && k == RendererKind::Json) || (format@ == "human"@ && k == (if logs {
                RendererKind::Human
            } else {
                RendererKind::Progress
            })),
            Err(m) => format@ != "json"@ && format@ != "human"@ && m@ == "unknown --format '"@ + format@
                + "'\n  available: human, json"@,
        },
{
    if crate::text::same(format, "json") {
        Ok(RendererKind::Json)
    } else if crate::text::same(format, "human") {
        if logs {
            Ok(RendererKind::Human)
        } else {
            Ok(RendererKind::Progress)
        }
    } else {
        let mut out: Vec<char> = Vec::new();
        push_str(&mut out, "unknown --format '");
        push_str(&mut out, format);
        push_str(&mut out, "'\n  available: human, json");
        Err(string_of(&out))
    }
}

/// A build event, as the renderers see it. Steps are named by 128-bit
/// identifiers.
#[derive(Debug, Clone)]
pub enum BuildEvent {
    BuildStart { step_count: u64, chain_count: u64 },
    StepQueued { step_id: u128, key: String, chain_idx: u64, parent_key: Option<String>, display_name: String },
    StepStart { step_id: u128, runner: String, image: Option<String> },
    StepLog { step_id: u128, line: String },
    StepCacheHit { step_id: u128, tag: String },
    StepEnd { step_id: u128, exit_code: i32, duration_ms: u64 },
    BuildEnd { exit_code: i32, duration_ms: u64 },
    BuildAccepted { number: Option<u64>, watch_url: Option<String> },
    ChainFailed { chain_idx: u64, failed_step_key: String, exit_code: i32, message: String },
}

impl BuildEvent {
    /// Whether this event ends the build.
    pub fn is_build_end(&self) -> (b: bool)
        ensures
            b == (*self is BuildEnd),
    {
        match self {
            BuildEvent::BuildEnd { .. } => true,
            _ => false,
        }
    }
}

/// A duration as the summaries print it: `850ms`, `12.3s` (tenths
/// truncated), or `2m5s`.
pub open spec fn duration_text(ms: nat) -> Seq<char> {
    if ms < 1000 {
        decimal(ms) + "ms"@
    } else if ms < 60_000 {
        decimal(ms / 1000) + "."@ + decimal((ms % 1000) / 100) + "s"@
    } else {
        decimal(ms / 60_000) + "m"@ + decimal((ms % 60_000) / 1000) + "s"@
    }
}

/// Format a millisecond duration for the step summary.
pub fn format_duration(ms: u64) -> (s: String)
    ensures
        s@ == duration_text(ms as nat),
{
    let mut out: Vec<char> = Vec::new();
    if ms < 1000 {
        push_decimal(&mut out, ms);
        push_str(&mut out, "ms");
    } else if ms < 60_000 {
        push_decimal(&mut out, ms / 1000);
        push_str(&mut out, ".");
        push_decimal(&mut out, (ms % 1000) / 100);
        push_str(&mut out, "s");
    } else {
        push_decimal(&mut out, ms / 60_000);
        push_str(&mut out, "m");
        push_decimal(&mut out, (ms % 60_000) / 1000);
        push_str(&mut out, "s");
    }
    string_of(&out)
}

} // verus!
