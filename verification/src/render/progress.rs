//! Progress-bar renderer: the step bookkeeping behind the live progress
//! view, the span operations it asks of the terminal layer, and the
//! end-of-build summary text.
//!
//! Each pipeline step gets its own span (a progress bar); completed steps
//! keep a ✓/✗ indicator and only running steps spin. Logs are buffered
//! silently and replayed only for failed steps.

use vstd::prelude::*;

use crate::ansi::{style, styled_text, Look};
use crate::dev::logmux::spaces;
use crate::idmap::IdMap;
use crate::render::{duration_text, format_duration, BuildEvent};
use crate::text::{decimal, push_decimal, push_i64, push_str, signed_decimal, string_of};

verus! {

/// How a step ended.
#[derive(Debug, Clone, Copy, PartialEq, Eq, Structural)]
pub enum StepOutcome {
    Succeeded { duration_ms: u64 },
    Failed { duration_ms: u64, exit_code: i32 },
    Cancelled { duration_ms: u64 },
    Cached,
}

/// The look of a step's progress bar.
#[derive(Debug, Clone, Copy, PartialEq, Eq, Structural)]
pub enum SpanStyle {
    /// Spinning, with the elapsed time.
    Active,
    /// A ✓ in front of the message.
    Completed,
    /// A ✗ in front of the message.
    Failed,
}

/// Under which bar a new step's bar opens.
#[derive(Debug, Clone, Copy, PartialEq, Eq, Structural)]
pub enum Parent {
    /// Under the bar of this step.
    Step(u128),
    /// Under the pipeline bar.
    Root,
    /// At top level.
    Top,
}

/// What the terminal layer is asked to do.
#[derive(Debug, Clone)]
pub enum ProgressAction {
    /// Open the pipeline bar, `length` steps long.
    StartRoot { length: u64 },
    /// Open an active bar for a step with `message`.
    OpenStep { step_id: u128, parent: Parent, message: String },
    /// Change a step bar's look and message.
    Restyle { step_id: u128, style: SpanStyle, message: String },
    /// Change a step bar's message.
    SetMessage { step_id: u128, message: String },
    /// Advance the pipeline bar by one step.
    AdvanceRoot,
    /// Close every bar.
    CloseAll,
    /// Write text below the bars.
    Write(String),
}

/// `text`, in style `l` when `color`.
pub open spec fn maybe_styled(text: Seq<char>, l: Look, color: bool) -> Seq<char> {
    if color {
        styled_text(text, l)
    } else {
        text
    }
}

fn styled(text: &str, l: Look, color: bool) -> (s: String)
    ensures
        s@ == maybe_styled(text@, l, color),
{
    if color {
        style(text, l)
    } else {
        text.to_owned()
    }
}

/// The display name of a step, or `?`.
pub open spec fn name_of(names: Map<u128, String>, id: u128) -> Seq<char> {
    if names.contains_key(id) {
        names[id]@
    } else {
        "?"@
    }
}

/// The widest name (in bytes) among the named steps of `order`.
pub open spec fn name_width(order: Seq<u128>, names: Map<u128, String>) -> nat
    decreases order.len(),
{
    if order.len() == 0 {
        0
    } else {
        let rest = name_width(order.drop_last(), names);
        let w = if names.contains_key(order.last()) {
            vstd::utf8::encode_utf8(names[order.last()]@).len()
        } else {
            0
        };
        if w > rest {
            w
        } else {
            rest
        }
    }
}

/// The indicator and timing of a step in the summary.
pub open spec fn outcome_cells(o: Option<StepOutcome>, color: bool) -> (Seq<char>, Seq<char>) {
    match o {
        Some(StepOutcome::Succeeded { duration_ms }) => (
            maybe_styled("\u{2713}"@, Look::Green, color),
            maybe_styled(duration_text(duration_ms as nat), Look::Dimmed, color),
        ),
        Some(StepOutcome::Failed { duration_ms, exit_code }) => (
            maybe_styled("\u{2717}"@, Look::Red, color),
            maybe_styled(duration_text(duration_ms as nat) + "  exit "@ + signed_decimal(exit_code as int), Look::Red, color),
        ),
        Some(StepOutcome::Cancelled { duration_ms }) => (
            maybe_styled("-"@, Look::Dimmed, color),
            maybe_styled(duration_text(duration_ms as nat) + "  cancelled"@, Look::Dimmed, color),
        ),
        Some(StepOutcome::Cached) => (
            maybe_styled("\u{2713}"@, Look::Green, color),
            maybe_styled("cached"@, Look::Dimmed, color),
        ),
        None => (maybe_styled("-"@, Look::Dimmed, color), maybe_styled("\u{2014}"@, Look::Dimmed, color)),
    }
}

/// One summary row: `  <indicator> <name padded to width>  <timing>`.
pub open spec fn summary_row(
    id: u128,
    names: Map<u128, String>,
    outcomes: Map<u128, StepOutcome>,
    width: int,
    color: bool,
) -> Seq<char> {
    let cells = outcome_cells(if outcomes.contains_key(id) { Some(outcomes[id]) } else { None }, color);
    let name = name_of(names, id);
    "  "@ + cells.0 + " "@ + name + spaces(width - name.len()) + "  "@ + cells.1 + "\n"@
}

/// The rows for the steps of `order`, in order.
pub open spec fn summary_rows(
    order: Seq<u128>,
    names: Map<u128, String>,
    outcomes: Map<u128, StepOutcome>,
    width: int,
    color: bool,
) -> Seq<char>
    decreases order.len(),
{
    if order.len() == 0 {
        Seq::empty()
    } else {
        summary_rows(order.drop_last(), names, outcomes, width, color) + summary_row(
            order.last(),
            names,
            outcomes,
            width,
            color,
        )
    }
}

/// The step summary: a blank line, then one row per queued step.
pub open spec fn summary_text(
    order: Seq<u128>,
    names: Map<u128, String>,
    outcomes: Map<u128, StepOutcome>,
    color: bool,
) -> Seq<char> {
    "\n"@ + summary_rows(order, names, outcomes, name_width(order, names) as int, color)
}

/// Lines, each followed by a newline.
pub open spec fn lines_text(lines: Seq<String>) -> Seq<char>
    decreases lines.len(),
{
    if lines.len() == 0 {
        Seq::empty()
    } else {
        lines_text(lines.drop_last()) + lines.last()@ + "\n"@
    }
}

/// The report for one failed step: a red header, then its buffered logs.
pub open spec fn failure_entry(
    id: u128,
    code: i32,
    names: Map<u128, String>,
    logs: Map<u128, Seq<String>>,
    color: bool,
) -> Seq<char> {
    "\n"@ + maybe_styled("--- "@ + name_of(names, id) + " failed (exit "@ + signed_decimal(code as int) + ") ---"@, Look::Red, color)
        + "\n"@ + if logs.contains_key(id) { lines_text(logs[id]) } else { Seq::empty() }
}

/// The failure report: each failed step in the order it failed.
pub open spec fn failure_text(
    failed: Seq<(u128, i32)>,
    names: Map<u128, String>,
    logs: Map<u128, Seq<String>>,
    color: bool,
) -> Seq<char>
    decreases failed.len(),
{
    if failed.len() == 0 {
        Seq::empty()
    } else {
        failure_text(failed.drop_last(), names, logs, color) + failure_entry(
            failed.last().0,
            failed.last().1,
            names,
            logs,
            color,
        )
    }
}

/// The closing banner.
pub open spec fn banner_text(exit_code: i32, duration_ms: u64, color: bool) -> Seq<char> {
    if exit_code != 0 {
        "\n"@ + maybe_styled("\u{2717} Build failed in "@ + duration_text(duration_ms as nat), Look::RedBold, color) + "\n"@
    } else {
        "\n"@ + maybe_styled("\u{2713} Build succeeded in "@ + duration_text(duration_ms as nat), Look::GreenBold, color)
            + "\n"@
    }
}

/// What a span operation means.
pub enum ActionView {
    StartRoot { length: u64 },
    OpenStep { step_id: u128, parent: Parent, message: Seq<char> },
    Restyle { step_id: u128, style: SpanStyle, message: Seq<char> },
    SetMessage { step_id: u128, message: Seq<char> },
    AdvanceRoot,
    CloseAll,
    Write(Seq<char>),
}

impl View for ProgressAction {
    type V = ActionView;

    open spec fn view(&self) -> ActionView {
        match self {
            ProgressAction::StartRoot { length } => ActionView::StartRoot { length: *length },
            ProgressAction::OpenStep { step_id, parent, message } => ActionView::OpenStep {
                step_id: *step_id,
                parent: *parent,
                message: message@,
            },
            ProgressAction::Restyle { step_id, style, message } => ActionView::Restyle {
                step_id: *step_id,
                style: *style,
                message: message@,
            },
            ProgressAction::SetMessage { step_id, message } => ActionView::SetMessage {
                step_id: *step_id,
                message: message@,
            },
            ProgressAction::AdvanceRoot => ActionView::AdvanceRoot,
            ProgressAction::CloseAll => ActionView::CloseAll,
            ProgressAction::Write(t) => ActionView::Write(t@),
        }
    }
}

/// The views of a list of actions.
pub open spec fn action_views(acts: Seq<ProgressAction>) -> Seq<ActionView> {
    acts.map_values(|a: ProgressAction| a@)
}

/// The renderer's bookkeeping.
pub struct ProgressView {
    pub color: bool,
    /// The pipeline bar is open.
    pub root: bool,
    /// Steps whose bar is open.
    pub spans: Set<u128>,
    /// Each queued step's key, and the steps in the order first keyed.
    pub keys: Map<u128, String>,
    pub key_ids: Seq<u128>,
    /// Each queued step's display name.
    pub names: Map<u128, String>,
    /// Buffered log lines per step.
    pub logs: Map<u128, Seq<String>>,
    /// Failed steps with their exit codes, in the order they failed.
    pub failed: Seq<(u128, i32)>,
    /// Steps in the order they were queued.
    pub order: Seq<u128>,
    /// How each ended step ended.
    pub outcomes: Map<u128, StepOutcome>,
}

/// `ids` after keying `k`: unchanged when already there, else `k` appended.
pub open spec fn ids_after(ids: Seq<u128>, k: u128) -> Seq<u128> {
    if ids.contains(k) {
        ids
    } else {
        ids.push(k)
    }
}

/// The first step of `ids` whose key is `pk`.
pub open spec fn first_keyed(ids: Seq<u128>, keys: Map<u128, String>, pk: Seq<char>) -> Option<u128>
    decreases ids.len(),
{
    if ids.len() == 0 {
        None
    } else {
        match first_keyed(ids.drop_last(), keys, pk) {
            Some(x) => Some(x),
            None => if keys[ids.last()]@ == pk {
                Some(ids.last())
            } else {
                None
            },
        }
    }
}

/// Where a newly queued step's bar opens: under the open bar of the first
/// step keyed `parent_key`, else under the pipeline bar when open, else at
/// top level.
pub open spec fn parent_for(
    ids: Seq<u128>,
    keys: Map<u128, String>,
    parent_key: Option<Seq<char>>,
    spans: Set<u128>,
    root: bool,
) -> Parent {
    let fallback = if root { Parent::Root } else { Parent::Top };
    match parent_key {
        Some(pk) => match first_keyed(ids, keys, pk) {
            Some(x) => if spans.contains(x) {
                Parent::Step(x)
            } else {
                fallback
            },
            None => fallback,
        },
        None => fallback,
    }
}

/// The outcome of a step that ended with `exit_code`.
pub open spec fn end_outcome(exit_code: i32, duration_ms: u64) -> StepOutcome {
    if exit_code == 0 {
        StepOutcome::Succeeded { duration_ms }
    } else if exit_code == 130 {
        StepOutcome::Cancelled { duration_ms }
    } else {
        StepOutcome::Failed { duration_ms, exit_code }
    }
}

/// The bookkeeping after `ev`.
pub open spec fn next_state(s: ProgressView, ev: BuildEvent) -> ProgressView {
    match ev {
        BuildEvent::BuildStart { .. } => ProgressView { root: true, ..s },
        BuildEvent::StepQueued { step_id, key, display_name, .. } => ProgressView {
            keys: s.keys.insert(step_id, key),
            key_ids: ids_after(s.key_ids, step_id),
            names: s.names.insert(step_id, display_name),
            order: s.order.push(step_id),
            spans: s.spans.insert(step_id),
            ..s
        },
        BuildEvent::StepLog { step_id, line } => ProgressView {
            logs: s.logs.insert(
                step_id,
                (if s.logs.contains_key(step_id) { s.logs[step_id] } else { Seq::empty() }).push(line),
            ),
            ..s
        },
        BuildEvent::StepCacheHit { step_id, .. } => ProgressView {
            outcomes: s.outcomes.insert(step_id, StepOutcome::Cached),
            ..s
        },
        BuildEvent::StepEnd { step_id, exit_code, duration_ms } => ProgressView {
            failed: if exit_code != 0 && exit_code != 130 { s.failed.push((step_id, exit_code)) } else { s.failed },
            outcomes: s.outcomes.insert(step_id, end_outcome(exit_code, duration_ms)),
            ..s
        },
        BuildEvent::BuildEnd { .. } => ProgressView { spans: Set::empty(), root: false, ..s },
        _ => s,
    }
}

/// The pipeline bar advances when it is open.
pub open spec fn advance(root: bool) -> Seq<ActionView> {
    if root {
        seq![ActionView::AdvanceRoot]
    } else {
        Seq::empty()
    }
}

/// How the bar of a step that ended with `exit_code` is restyled.
pub open spec fn end_restyle(step_id: u128, name: Seq<char>, exit_code: i32, duration_ms: u64) -> ActionView {
    if exit_code != 0 && exit_code != 130 {
        ActionView::Restyle {
            step_id,
            style: SpanStyle::Failed,
            message: name + "  FAILED (exit "@ + signed_decimal(exit_code as int) + ")"@,
        }
    } else if exit_code == 130 {
        ActionView::Restyle { step_id, style: SpanStyle::Completed, message: name + "  (cancelled)"@ }
    } else {
        ActionView::Restyle {
            step_id,
            style: SpanStyle::Completed,
            message: name + "  ("@ + duration_text(duration_ms as nat) + ")"@,
        }
    }
}

/// The span operations and text for `ev`.
pub open spec fn progress_actions(s: ProgressView, ev: BuildEvent) -> Seq<ActionView> {
    match ev {
        BuildEvent::BuildStart { step_count, .. } => seq![ActionView::StartRoot { length: step_count }],
        BuildEvent::StepQueued { step_id, key, parent_key, display_name, .. } => seq![
            ActionView::OpenStep {
                step_id,
                parent: parent_for(
                    ids_after(s.key_ids, step_id),
                    s.keys.insert(step_id, key),
                    match parent_key {
                        Some(p) => Some(p@),
                        None => None,
                    },
                    s.spans,
                    s.root,
                ),
                message: display_name@,
            },
        ],
        BuildEvent::StepStart { step_id, .. } => if s.spans.contains(step_id) {
            seq![ActionView::SetMessage { step_id, message: name_of(s.names, step_id) }]
        } else {
            Seq::empty()
        },
        BuildEvent::StepCacheHit { step_id, .. } => (if s.spans.contains(step_id) {
            seq![
                ActionView::Restyle {
                    step_id,
                    style: SpanStyle::Completed,
                    message: name_of(s.names, step_id) + "  (cached)"@,
                },
            ]
        } else {
            Seq::empty()
        }) + advance(s.root),
        BuildEvent::StepEnd { step_id, exit_code, duration_ms } => (if s.spans.contains(step_id) {
            seq![end_restyle(step_id, name_of(s.names, step_id), exit_code, duration_ms)]
        } else {
            Seq::empty()
        }) + advance(s.root),
        BuildEvent::BuildAccepted { number, watch_url } => match watch_url {
            Some(url) => seq![
                ActionView::Write(
                    "build "@ + match number {
                        Some(n) => "#"@ + decimal(n as nat) + " "@,
                        None => Seq::empty(),
                    } + "\u{2192} "@ + url@ + "\n"@,
                ),
            ],
            None => Seq::empty(),
        },
        BuildEvent::BuildEnd { exit_code, duration_ms } => seq![
            ActionView::CloseAll,
            ActionView::Write(
                summary_text(s.order, s.names, s.outcomes, s.color) + (if exit_code != 0 {
                    failure_text(s.failed, s.names, s.logs, s.color)
                } else {
                    Seq::empty()
                }) + banner_text(exit_code, duration_ms, s.color),
            ),
        ],
        _ => Seq::empty(),
    }
}

/// The bookkeeping reached and all the actions called for, when the
/// events arrive in order from `s`.
pub open spec fn progress_run(s: ProgressView, evs: Seq<BuildEvent>) -> (ProgressView, Seq<ActionView>)
    decreases evs.len(),
{
    if evs.len() == 0 {
        (s, Seq::empty())
    } else {
        let prev = progress_run(s, evs.drop_last());
        (next_state(prev.0, evs.last()), prev.1 + progress_actions(prev.0, evs.last()))
    }
}

/// The log lines of `evs` that belong to `step`, in order.
pub open spec fn step_lines(evs: Seq<BuildEvent>, step: u128) -> Seq<String>
    decreases evs.len(),
{
    if evs.len() == 0 {
        Seq::empty()
    } else {
        match evs.last() {
            BuildEvent::StepLog { step_id, line } => if step_id == step {
                step_lines(evs.drop_last(), step).push(line)
            } else {
                step_lines(evs.drop_last(), step)
            },
            _ => step_lines(evs.drop_last(), step),
        }
    }
}

/// The lines buffered for a step.
pub open spec fn buffered(logs: Map<u128, Seq<String>>, step: u128) -> Seq<String> {
    if logs.contains_key(step) {
        logs[step]
    } else {
        Seq::empty()
    }
}

/// How a step's end is read from its exit code. Exit 130 is a
/// cancellation: the outcome is `Cancelled` with the step's duration, the
/// failure list is unchanged (so its logs are never replayed), and an open
/// bar is restyled as completed with `(cancelled)`. Any other non-zero
/// exit is a failure: the outcome is `Failed` with that code, the step
/// joins the end of the failure list, and an open bar is restyled as
/// failed with the code. Exit 0 succeeds: the outcome is `Succeeded` and
/// the failure list is unchanged. Nothing else in the bookkeeping changes.
pub proof fn lemma_step_end_kinds(s: ProgressView, step_id: u128, exit_code: i32, duration_ms: u64)
    ensures
        ({
            let t = next_state(s, BuildEvent::StepEnd { step_id, exit_code, duration_ms });
            let a = progress_actions(s, BuildEvent::StepEnd { step_id, exit_code, duration_ms });
            let name = name_of(s.names, step_id);
            &&& t.outcomes.contains_key(step_id)
            &&& forall|x: u128| x != step_id ==> t.outcomes.contains_key(x) == s.outcomes.contains_key(x)
                && (s.outcomes.contains_key(x) ==> #[trigger] t.outcomes[x] == s.outcomes[x])
            &&& t.order == s.order && t.names == s.names && t.logs == s.logs && t.spans == s.spans
            &&& (exit_code == 130 ==> {
                &&& t.outcomes[step_id] == StepOutcome::Cancelled { duration_ms }
                &&& t.failed == s.failed
                &&& s.spans.contains(step_id) ==> a[0] == ActionView::Restyle {
                    step_id,
                    style: SpanStyle::Completed,
                    message: name + "  (cancelled)"@,
                }
            })
            &&& (exit_code == 0 ==> {
                &&& t.outcomes[step_id] == StepOutcome::Succeeded { duration_ms }
                &&& t.failed == s.failed
                &&& s.spans.contains(step_id) ==> a[0] matches ActionView::Restyle { style: SpanStyle::Completed, .. }
            })
            &&& (exit_code != 0 && exit_code != 130 ==> {
                &&& t.outcomes[step_id] == StepOutcome::Failed { duration_ms, exit_code }
                &&& t.failed == s.failed.push((step_id, exit_code))
                &&& s.spans.contains(step_id) ==> a[0] == ActionView::Restyle {
                    step_id,
                    style: SpanStyle::Failed,
                    message: name + "  FAILED (exit "@ + signed_decimal(exit_code as int) + ")"@,
                }
            })
        }),
{
}

/// Log lines are buffered silently while the bars run: a run of log
/// events draws and writes nothing, changes nothing but the buffers, and
/// each step's buffer gains exactly that step's lines, in order (they are
/// printed only in the failure report).
pub proof fn lemma_logs_buffer_silently(s: ProgressView, evs: Seq<BuildEvent>)
    requires
        forall|i: int| 0 <= i < evs.len() ==> #[trigger] evs[i] is StepLog,
    ensures
        progress_run(s, evs).1 == Seq::<ActionView>::empty(),
        progress_run(s, evs).0 == (ProgressView { logs: progress_run(s, evs).0.logs, ..s }),
        forall|step: u128| #[trigger] buffered(progress_run(s, evs).0.logs, step) == buffered(s.logs, step) + step_lines(
            evs,
            step,
        ),
    decreases evs.len(),
{
    if evs.len() == 0 {
        assert forall|step: u128| #[trigger] buffered(s.logs, step) == buffered(s.logs, step) + step_lines(evs, step) by {
            assert(buffered(s.logs, step) + Seq::<String>::empty() =~= buffered(s.logs, step));
        }
    } else {
        let init = evs.drop_last();
        assert forall|i: int| 0 <= i < init.len() implies #[trigger] init[i] is StepLog by {
            assert(init[i] == evs[i]);
        }
        lemma_logs_buffer_silently(s, init);
        let prev = progress_run(s, init);
        assert(evs[evs.len() - 1] is StepLog);
        let last = evs.last();
        assert(prev.1 + progress_actions(prev.0, last) =~= Seq::<ActionView>::empty());
        let after = next_state(prev.0, last);
        assert forall|step: u128| #[trigger] buffered(after.logs, step) == buffered(s.logs, step) + step_lines(evs, step) by {
            match last {
                BuildEvent::StepLog { step_id, line } => {
                    if step_id == step {
                        assert(buffered(after.logs, step) == buffered(prev.0.logs, step).push(line));
                        assert(buffered(s.logs, step) + step_lines(init, step).push(line) =~= (buffered(s.logs, step)
                            + step_lines(init, step)).push(line));
                    } else {
                        assert(buffered(after.logs, step) == buffered(prev.0.logs, step));
                    }
                },
                _ => {},
            }
        }
    }
}

/// A failure found in a prefix of `ids` is the failure of all of `ids`.
proof fn lemma_first_keyed_prefix(ids: Seq<u128>, keys: Map<u128, String>, pk: Seq<char>, i: int)
    requires
        0 <= i <= ids.len(),
        first_keyed(ids.subrange(0, i), keys, pk) is Some,
    ensures
        first_keyed(ids, keys, pk) == first_keyed(ids.subrange(0, i), keys, pk),
    decreases ids.len() - i,
{
    if i < ids.len() {
        assert(ids.subrange(0, i + 1).drop_last() =~= ids.subrange(0, i));
        lemma_first_keyed_prefix(ids, keys, pk, i + 1);
    } else {
        assert(ids.subrange(0, i) =~= ids);
    }
}

/// Progress-bar renderer: step bookkeeping plus the bar operations and
/// text each event calls for.
#[derive(Debug)]
pub struct ProgressRenderer {
    color: bool,
    root: bool,
    spans: IdMap<bool>,
    step_keys: IdMap<String>,
    step_names: IdMap<String>,
    log_buffer: IdMap<Vec<String>>,
    failed_steps: Vec<(u128, i32)>,
    step_order: Vec<u128>,
    step_outcomes: IdMap<StepOutcome>,
}

impl ProgressRenderer {
    /// The bookkeeping.
    pub closed spec fn state(&self) -> ProgressView {
        ProgressView {
            color: self.color,
            root: self.root,
            spans: self.spans.as_map().dom(),
            keys: self.step_keys.as_map(),
            key_ids: self.step_keys.id_seq(),
            names: self.step_names.as_map(),
            logs: self.log_buffer.as_map().map_values(|v: Vec<String>| v@),
            failed: self.failed_steps@,
            order: self.step_order@,
            outcomes: self.step_outcomes.as_map(),
        }
    }

    /// A renderer that has seen no event; `color` paints indicators.
    pub fn new(color: bool) -> (r: Self)
        ensures
            r.state() == (ProgressView {
                color,
                root: false,
                spans: Set::empty(),
                keys: Map::empty(),
                key_ids: Seq::empty(),
                names: Map::empty(),
                logs: Map::empty(),
                failed: Seq::empty(),
                order: Seq::empty(),
                outcomes: Map::empty(),
            }),
    {
        let r = ProgressRenderer {
            color,
            root: false,
            spans: IdMap::new(),
            step_keys: IdMap::new(),
            step_names: IdMap::new(),
            log_buffer: IdMap::new(),
            failed_steps: Vec::new(),
            step_order: Vec::new(),
            step_outcomes: IdMap::new(),
        };
        proof {
            assert(r.state().logs =~= Map::<u128, Seq<String>>::empty());
            assert(r.state().spans =~= Set::<u128>::empty());
        }
        r
    }

    /// Whether indicators are painted.
    pub fn color(&self) -> (b: bool)
        ensures
            b == self.state().color,
    {
        self.color
    }

    /// The log lines buffered for a step.
    pub fn buffered_logs(&self, step_id: u128) -> (r: Option<&Vec<String>>)
        ensures
            match r {
                Some(v) => self.state().logs.contains_key(step_id) && self.state().logs[step_id] == v@,
                None => !self.state().logs.contains_key(step_id),
            },
    {
        self.log_buffer.get(step_id)
    }

    /// Whether a step's bar is open.
    pub fn has_bar(&self, step_id: u128) -> (b: bool)
        ensures
            b == self.state().spans.contains(step_id),
    {
        self.spans.get(step_id).is_some()
    }

    /// How a step ended, if it has.
    pub fn outcome(&self, step_id: u128) -> (r: Option<StepOutcome>)
        ensures
            match r {
                Some(o) => self.state().outcomes.contains_key(step_id) && self.state().outcomes[step_id] == o,
                None => !self.state().outcomes.contains_key(step_id),
            },
    {
        match self.step_outcomes.get(step_id) {
            Some(o) => Some(*o),
            None => None,
        }
    }

    /// The display name of a step, or `?`.
    fn name(&self, id: u128) -> (s: String)
        ensures
            s@ == name_of(self.state().names, id),
    {
        match self.step_names.get(id) {
            Some(n) => n.clone(),
            None => "?".to_owned(),
        }
    }

    /// The first step keyed `pk`.
    fn first_keyed_exec(&self, pk: &str) -> (r: Option<u128>)
        ensures
            r == first_keyed(self.state().key_ids, self.state().keys, pk@),
    {
        let n = self.step_keys.len();
        let ghost ids = self.step_keys.id_seq();
        let ghost keys = self.step_keys.as_map();
        let mut i: usize = 0;
        while i < n
            invariant
                i <= n,
                n == ids.len(),
                ids == self.step_keys.id_seq(),
                keys == self.step_keys.as_map(),
                first_keyed(ids.subrange(0, i as int), keys, pk@) is None,
            decreases n - i,
        {
            let (k, v) = self.step_keys.entry_at(i);
            proof {
                assert(ids.subrange(0, i + 1).drop_last() =~= ids.subrange(0, i as int));
            }
            if crate::text::same(v.as_str(), pk) {
                proof {
                    lemma_first_keyed_prefix(ids, keys, pk@, i + 1);
                }
                return Some(k);
            }
            i = i + 1;
        }
        proof {
            assert(ids.subrange(0, n as int) =~= ids);
        }
        None
    }

    /// The widest name among the queued steps, in bytes.
    fn width(&self) -> (w: usize)
        ensures
            w == name_width(self.state().order, self.state().names),
    {
        let mut w: usize = 0;
        let mut i: usize = 0;
        while i < self.step_order.len()
            invariant
                i <= self.step_order@.len(),
                w == name_width(self.step_order@.subrange(0, i as int), self.step_names.as_map()),
            decreases self.step_order@.len() - i,
        {
            proof {
                assert(self.step_order@.subrange(0, i + 1).drop_last() =~= self.step_order@.subrange(0, i as int));
            }
            let id = self.step_order[i];
            match self.step_names.get(id) {
                Some(nm) => {
                    let l = nm.as_str().as_bytes().len();
                    if l > w {
                        w = l;
                    }
                },
                None => {},
            }
            i = i + 1;
        }
        proof {
            assert(self.step_order@.subrange(0, self.step_order@.len() as int) =~= self.step_order@);
        }
        w
    }

    /// One summary row.
    fn row(&self, id: u128, width: usize) -> (s: String)
        ensures
            s@ == summary_row(id, self.state().names, self.state().outcomes, width as int, self.state().color),
    {
        let c = self.color;
        let (ind, timing) = match self.step_outcomes.get(id) {
            Some(StepOutcome::Succeeded { duration_ms }) => (
                styled("\u{2713}", Look::Green, c),
                styled(format_duration(*duration_ms).as_str(), Look::Dimmed, c),
            ),
            Some(StepOutcome::Failed { duration_ms, exit_code }) => {
                let mut t: Vec<char> = Vec::new();
                let d = format_duration(*duration_ms);
                push_str(&mut t, d.as_str());
                push_str(&mut t, "  exit ");
                push_i64(&mut t, *exit_code as i64);
                let ts = string_of(&t);
                (styled("\u{2717}", Look::Red, c), styled(ts.as_str(), Look::Red, c))
            },
            Some(StepOutcome::Cancelled { duration_ms }) => {
                let mut t: Vec<char> = Vec::new();
                let d = format_duration(*duration_ms);
                push_str(&mut t, d.as_str());
                push_str(&mut t, "  cancelled");
                let ts = string_of(&t);
                (styled("-", Look::Dimmed, c), styled(ts.as_str(), Look::Dimmed, c))
            },
            Some(StepOutcome::Cached) => (styled("\u{2713}", Look::Green, c), styled("cached", Look::Dimmed, c)),
            None => (styled("-", Look::Dimmed, c), styled("\u{2014}", Look::Dimmed, c)),
        };
        let name = self.name(id);
        let mut out: Vec<char> = Vec::new();
        push_str(&mut out, "  ");
        push_str(&mut out, ind.as_str());
        push_str(&mut out, " ");
        push_str(&mut out, name.as_str());
        let n = crate::text::chars_of(name.as_str()).len();
        let mut k: usize = n;
        let ghost before = out@;
        while k < width
            invariant
                n <= k <= width || (n > width && k == n),
                n == name@.len(),
                out@ == before + spaces(k - n),
            decreases width - k,
        {
            out.push(' ');
            proof {
                assert(spaces(k + 1 - n) =~= spaces(k - n).push(' '));
            }
            k = k + 1;
        }
        proof {
            assert(spaces(k - n) =~= spaces(width - n));
        }
        push_str(&mut out, "  ");
        push_str(&mut out, timing.as_str());
        push_str(&mut out, "\n");
        string_of(&out)
    }

    /// The step summary.
    fn summary(&self) -> (s: String)
        ensures
            s@ == summary_text(self.state().order, self.state().names, self.state().outcomes, self.state().color),
    {
        let width = self.width();
        let mut out: Vec<char> = Vec::new();
        push_str(&mut out, "\n");
        let ghost head = out@;
        let mut i: usize = 0;
        while i < self.step_order.len()
            invariant
                i <= self.step_order@.len(),
                width == name_width(self.state().order, self.state().names),
                out@ == head + summary_rows(
                    self.step_order@.subrange(0, i as int),
                    self.state().names,
                    self.state().outcomes,
                    width as int,
                    self.state().color,
                ),
            decreases self.step_order@.len() - i,
        {
            proof {
                assert(self.step_order@.subrange(0, i + 1).drop_last() =~= self.step_order@.subrange(0, i as int));
            }
            let r = self.row(self.step_order[i], width);
            push_str(&mut out, r.as_str());
            i = i + 1;
        }
        proof {
            assert(self.step_order@.subrange(0, self.step_order@.len() as int) =~= self.step_order@);
        }
        string_of(&out)
    }

    /// Handles one event: updates the bookkeeping and returns the bar
    /// operations and text it calls for, in order.
    pub fn on_event(&mut self, event: &BuildEvent) -> (acts: Vec<ProgressAction>)
        ensures
            final(self).state() == next_state(old(self).state(), *event),
            action_views(acts@) == progress_actions(old(self).state(), *event),
    {
        let ghost s0 = self.state();
        let mut acts: Vec<ProgressAction> = Vec::new();
        match event {
            BuildEvent::BuildStart { step_count, .. } => {
                self.root = true;
                acts.push(ProgressAction::StartRoot { length: *step_count });
                proof {
                    assert(action_views(acts@) =~= progress_actions(s0, *event));
                    assert(self.state() =~~= next_state(s0, *event));
                }
            },
            BuildEvent::StepQueued { step_id, key, parent_key, display_name, .. } => {
                let id = *step_id;
                self.step_keys.insert(id, key.clone());
                self.step_names.insert(id, display_name.clone());
                self.step_order.push(id);
                let fallback = if self.root {
                    Parent::Root
                } else {
                    Parent::Top
                };
                let parent = match parent_key {
                    Some(pk) => match self.first_keyed_exec(pk.as_str()) {
                        Some(x) => if self.spans.get(x).is_some() {
                            Parent::Step(x)
                        } else {
                            fallback
                        },
                        None => fallback,
                    },
                    None => fallback,
                };
                self.spans.insert(id, true);
                acts.push(ProgressAction::OpenStep { step_id: id, parent, message: display_name.clone() });
                proof {
                    assert(self.spans.as_map().dom() =~= s0.spans.insert(id));
                    assert(action_views(acts@) =~= progress_actions(s0, *event));
                    assert(self.state() =~~= next_state(s0, *event));
                }
            },
            BuildEvent::StepStart { step_id, .. } => {
                if self.spans.get(*step_id).is_some() {
                    let nm = self.name(*step_id);
                    acts.push(ProgressAction::SetMessage { step_id: *step_id, message: nm });
                }
                proof {
                    assert(action_views(acts@) =~= progress_actions(s0, *event));
                }
            },
            BuildEvent::StepLog { step_id, line } => {
                let mut lines: Vec<String> = match self.log_buffer.get(*step_id) {
                    Some(v) => copy_lines(v),
                    None => Vec::new(),
                };
                lines.push(line.clone());
                let ghost lv = lines@;
                self.log_buffer.insert(*step_id, lines);
                proof {
                    let want = (if s0.logs.contains_key(*step_id) { s0.logs[*step_id] } else { Seq::<String>::empty() }).push(*line);
                    assert(lv =~= want);
                    assert(self.state().logs =~= s0.logs.insert(*step_id, want));
                    assert(action_views(acts@) =~= progress_actions(s0, *event));
                    assert(self.state() =~~= next_state(s0, *event));
                }
            },
            BuildEvent::StepCacheHit { step_id, .. } => {
                if self.spans.get(*step_id).is_some() {
                    let nm = self.name(*step_id);
                    let mut m: Vec<char> = Vec::new();
                    push_str(&mut m, nm.as_str());
                    push_str(&mut m, "  (cached)");
                    acts.push(ProgressAction::Restyle { step_id: *step_id, style: SpanStyle::Completed, message: string_of(&m) });
                }
                self.step_outcomes.insert(*step_id, StepOutcome::Cached);
                if self.root {
                    acts.push(ProgressAction::AdvanceRoot);
                }
                proof {
                    assert(action_views(acts@) =~= progress_actions(s0, *event));
                    assert(self.state() =~~= next_state(s0, *event));
                }
            },
            BuildEvent::StepEnd { step_id, exit_code, duration_ms } => {
                let id = *step_id;
                let code = *exit_code;
                let cancelled = code == 130;
                if code != 0 && !cancelled {
                    self.failed_steps.push((id, code));
                }
                if self.spans.get(id).is_some() {
                    let nm = self.name(id);
                    let mut m: Vec<char> = Vec::new();
                    push_str(&mut m, nm.as_str());
                    let st = if code != 0 && !cancelled {
                        push_str(&mut m, "  FAILED (exit ");
                        push_i64(&mut m, code as i64);
                        push_str(&mut m, ")");
                        SpanStyle::Failed
                    } else if cancelled {
                        push_str(&mut m, "  (cancelled)");
                        SpanStyle::Completed
                    } else {
                        let d = format_duration(*duration_ms);
                        push_str(&mut m, "  (");
                        push_str(&mut m, d.as_str());
                        push_str(&mut m, ")");
                        SpanStyle::Completed
                    };
                    acts.push(ProgressAction::Restyle { step_id: id, style: st, message: string_of(&m) });
                }
                let outcome = if code == 0 {
                    StepOutcome::Succeeded { duration_ms: *duration_ms }
                } else if cancelled {
                    StepOutcome::Cancelled { duration_ms: *duration_ms }
                } else {
                    StepOutcome::Failed { duration_ms: *duration_ms, exit_code: code }
                };
                self.step_outcomes.insert(id, outcome);
                if self.root {
                    acts.push(ProgressAction::AdvanceRoot);
                }
                proof {
                    assert(action_views(acts@) =~= progress_actions(s0, *event));
                    assert(self.state() =~~= next_state(s0, *event));
                }
            },
            BuildEvent::BuildAccepted { number, watch_url } => {
                match watch_url {
                    Some(url) => {
                        let mut m: Vec<char> = Vec::new();
                        push_str(&mut m, "build ");
                        match number {
                            Some(n) => {
                                push_str(&mut m, "#");
                                push_decimal(&mut m, *n);
                                push_str(&mut m, " ");
                            },
                            None => {},
                        }
                        push_str(&mut m, "\u{2192} ");
                        push_str(&mut m, url.as_str());
                        push_str(&mut m, "\n");
                        proof {
                            assert(m@ =~= "build "@ + match number {
                                Some(n) => "#"@ + decimal(*n as nat) + " "@,
                                None => Seq::<char>::empty(),
                            } + "\u{2192} "@ + url@ + "\n"@);
                        }
                        acts.push(ProgressAction::Write(string_of(&m)));
                    },
                    None => {},
                }
                proof {
                    assert(action_views(acts@) =~= progress_actions(s0, *event));
                }
            },
            BuildEvent::ChainFailed { .. } => {
                proof {
                    assert(action_views(acts@) =~= progress_actions(s0, *event));
                }
            },
            BuildEvent::BuildEnd { exit_code, duration_ms } => {
                self.spans = IdMap::new();
                self.root = false;
                let mut text: Vec<char> = Vec::new();
                let sm = self.summary();
                push_str(&mut text, sm.as_str());
                if *exit_code != 0 {
                    let fr = self.failure_report();
                    push_str(&mut text, fr.as_str());
                }
                let b = banner(*exit_code, *duration_ms, self.color);
                push_str(&mut text, b.as_str());
                acts.push(ProgressAction::CloseAll);
                acts.push(ProgressAction::Write(string_of(&text)));
                proof {
                    assert(self.spans.as_map().dom() =~= Set::<u128>::empty());
                    assert(action_views(acts@) =~= progress_actions(s0, *event));
                    assert(self.state() =~~= next_state(s0, *event));
                }
            },
        }
        acts
    }

    /// The failure report.
    fn failure_report(&self) -> (s: String)
        ensures
            s@ == failure_text(self.state().failed, self.state().names, self.state().logs, self.state().color),
    {
        let mut out: Vec<char> = Vec::new();
        let mut i: usize = 0;
        while i < self.failed_steps.len()
            invariant
                i <= self.failed_steps@.len(),
                out@ == failure_text(
                    self.failed_steps@.subrange(0, i as int),
                    self.state().names,
                    self.state().logs,
                    self.state().color,
                ),
            decreases self.failed_steps@.len() - i,
        {
            proof {
                assert(self.failed_steps@.subrange(0, i + 1).drop_last() =~= self.failed_steps@.subrange(0, i as int));
            }
            let (id, code) = self.failed_steps[i];
            let name = self.name(id);
            let mut h: Vec<char> = Vec::new();
            push_str(&mut h, "--- ");
            push_str(&mut h, name.as_str());
            push_str(&mut h, " failed (exit ");
            push_i64(&mut h, code as i64);
            push_str(&mut h, ") ---");
            let hs = string_of(&h);
            push_str(&mut out, "\n");
            let st = styled(hs.as_str(), Look::Red, self.color);
            push_str(&mut out, st.as_str());
            push_str(&mut out, "\n");
            match self.log_buffer.get(id) {
                Some(lines) => {
                    let ghost base = out@;
                    let mut j: usize = 0;
                    while j < lines.len()
                        invariant
                            j <= lines@.len(),
                            out@ == base + lines_text(lines@.subrange(0, j as int)),
                        decreases lines@.len() - j,
                    {
                        proof {
                            assert(lines@.subrange(0, j + 1).drop_last() =~= lines@.subrange(0, j as int));
                        }
                        push_str(&mut out, lines[j].as_str());
                        push_str(&mut out, "\n");
                        j = j + 1;
                    }
                    proof {
                        assert(lines@.subrange(0, lines@.len() as int) =~= lines@);
                    }
                },
                None => {},
            }
            i = i + 1;
        }
        proof {
            assert(self.failed_steps@.subrange(0, self.failed_steps@.len() as int) =~= self.failed_steps@);
        }
        string_of(&out)
    }
}

/// The closing banner.
fn banner(exit_code: i32, duration_ms: u64, color: bool) -> (s: String)
    ensures
        s@ == banner_text(exit_code, duration_ms, color),
{
    let d = format_duration(duration_ms);
    let mut m: Vec<char> = Vec::new();
    let mut out: Vec<char> = Vec::new();
    push_str(&mut out, "\n");
    if exit_code != 0 {
        push_str(&mut m, "\u{2717} Build failed in ");
        push_str(&mut m, d.as_str());
        let ms = string_of(&m);
        let st = styled(ms.as_str(), Look::RedBold, color);
        push_str(&mut out, st.as_str());
    } else {
        push_str(&mut m, "\u{2713} Build succeeded in ");
        push_str(&mut m, d.as_str());
        let ms = string_of(&m);
        let st = styled(ms.as_str(), Look::GreenBold, color);
        push_str(&mut out, st.as_str());
    }
    push_str(&mut out, "\n");
    string_of(&out)
}

/// A copy of a list of lines.
fn copy_lines(v: &Vec<String>) -> (r: Vec<String>)
    ensures
        r@ == v@,
{
    let mut r: Vec<String> = Vec::new();
    let mut i: usize = 0;
    while i < v.len()
        invariant
            i <= v@.len(),
            r@ == v@.subrange(0, i as int),
        decreases v@.len() - i,
    {
        let c = v[i].clone();
        r.push(c);
        proof {
            assert(v@.subrange(0, i + 1) =~= v@.subrange(0, i as int).push(v@[i as int]));
        }
        i = i + 1;
    }
    proof {
        assert(v@.subrange(0, v@.len() as int) =~= v@);
    }
    r
}

} // verus!
