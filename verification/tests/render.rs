use hm::render::human::{fmt_key, HumanRenderer};
use hm::render::json::JsonRenderer;
use hm::render::progress::{Parent, ProgressAction, ProgressRenderer, SpanStyle, StepOutcome};
use hm::render::{format_duration, renderer_kind, BuildEvent, OutputMode, RendererKind};

fn queued(step_id: u128, key: &str) -> BuildEvent {
    BuildEvent::StepQueued {
        step_id,
        key: key.to_string(),
        chain_idx: 0,
        parent_key: None,
        display_name: key.to_string(),
    }
}

fn log(step_id: u128, line: &str) -> BuildEvent {
    BuildEvent::StepLog { step_id, line: line.to_string() }
}

#[test]
fn build_start_renders_counts() {
    let mut r = HumanRenderer::new(false);
    let s = r.on_event(&BuildEvent::BuildStart { step_count: 5, chain_count: 3 });
    assert!(s.contains("5 steps"), "expected step count: {s}");
    assert!(s.contains("3 chain(s)"), "expected chain count: {s}");
}

#[test]
fn step_log_with_key() {
    let mut r = HumanRenderer::new(false);
    let step_id = 7;
    let mut s = r.on_event(&queued(step_id, "build"));
    s.push_str(&r.on_event(&log(step_id, "compiling...")));
    assert_eq!(s, "[build] compiling...\n");
}

#[test]
fn step_log_unknown_key() {
    let mut r = HumanRenderer::new(false);
    let s = r.on_event(&log(99, "orphan line"));
    assert!(s.starts_with("[?]"), "expected [?] prefix: {s}");
}

#[test]
fn colored_output_wraps_key_in_ansi() {
    let mut r = HumanRenderer::new(true);
    let step_id = 3;
    let mut s = r.on_event(&queued(step_id, "build"));
    s.push_str(&r.on_event(&log(step_id, "hello")));
    assert!(s.contains("\x1b["), "expected ANSI codes: {s}");
    assert!(s.contains("hello"), "expected log line: {s}");
}

#[test]
fn human_step_lines_are_exact() {
    let mut r = HumanRenderer::new(false);
    r.on_event(&queued(1, "test"));
    assert_eq!(
        r.on_event(&BuildEvent::StepStart { step_id: 1, runner: "docker".into(), image: Some("alpine".into()) }),
        "[test] start (runner=docker image=alpine)\n"
    );
    assert_eq!(r.on_event(&BuildEvent::StepEnd { step_id: 1, exit_code: -1, duration_ms: 12 }), "[test] end exit=-1 duration=12ms\n");
    assert_eq!(r.on_event(&BuildEvent::BuildEnd { exit_code: 0, duration_ms: 40 }), "build: end exit=0 duration=40ms\n");
    assert_eq!(
        r.on_event(&BuildEvent::BuildAccepted { number: Some(12), watch_url: Some("https://x/b/12".into()) }),
        "build #12 \u{2192} https://x/b/12\n"
    );
    assert_eq!(r.on_event(&BuildEvent::BuildAccepted { number: None, watch_url: None }), "");
}

#[test]
fn fmt_key_plain_and_painted() {
    assert_eq!(fmt_key("k", false), "[k]");
    let p = fmt_key("k", true);
    assert!(p.starts_with("[\x1b[") && p.ends_with("k\x1b[39m]"));
}

fn written(acts: &[ProgressAction]) -> String {
    let mut s = String::new();
    for a in acts {
        if let ProgressAction::Write(t) = a {
            s.push_str(t);
        }
    }
    s
}

fn drive(r: &mut ProgressRenderer, events: &[BuildEvent]) -> (String, Vec<ProgressAction>) {
    let mut all = Vec::new();
    for e in events {
        all.extend(r.on_event(e));
    }
    (written(&all), all)
}

#[test]
fn buffers_logs_silently() {
    let mut r = ProgressRenderer::new(false);
    let step_id = 11;
    let (out, _) = drive(&mut r, &[queued(step_id, "compile"), log(step_id, "compiling main.rs")]);
    assert!(out.is_empty(), "expected no text output");
    let buf = r.buffered_logs(step_id).expect("log_buffer entry");
    assert_eq!(buf.len(), 1);
    assert_eq!(buf[0], "compiling main.rs");
}

#[test]
fn replays_logs_on_failure() {
    let mut r = ProgressRenderer::new(false);
    let step_id = 5;
    let (s, _) = drive(
        &mut r,
        &[
            BuildEvent::BuildStart { step_count: 1, chain_count: 1 },
            queued(step_id, "test"),
            log(step_id, "assertion failed at line 42"),
            BuildEvent::StepEnd { step_id, exit_code: 1, duration_ms: 500 },
            BuildEvent::BuildEnd { exit_code: 1, duration_ms: 600 },
        ],
    );
    assert!(s.contains("test"), "expected step key in output: {s}");
    assert!(s.contains("exit 1"), "expected exit code in output: {s}");
    assert!(s.contains("assertion failed at line 42"), "expected log line in output: {s}");
}

#[test]
fn no_output_on_success() {
    let mut r = ProgressRenderer::new(false);
    let step_id = 8;
    let (s, _) = drive(
        &mut r,
        &[
            BuildEvent::BuildStart { step_count: 1, chain_count: 1 },
            queued(step_id, "build"),
            log(step_id, "all good"),
            BuildEvent::StepEnd { step_id, exit_code: 0, duration_ms: 200 },
            BuildEvent::BuildEnd { exit_code: 0, duration_ms: 250 },
        ],
    );
    assert!(s.contains("Build succeeded"), "expected success message on success: {s:?}");
    assert!(!s.contains("all good"));
}

#[test]
fn color_flag_stored() {
    let r = ProgressRenderer::new(true);
    assert!(r.color());
    let r2 = ProgressRenderer::new(false);
    assert!(!r2.color());
}

#[test]
fn cache_hit_increments_root() {
    let mut r = ProgressRenderer::new(false);
    let step_id = 4;
    let (_, acts) = drive(
        &mut r,
        &[
            BuildEvent::BuildStart { step_count: 2, chain_count: 1 },
            queued(step_id, "cached-step"),
            BuildEvent::StepCacheHit { step_id, tag: "img:tag".into() },
        ],
    );
    assert!(r.has_bar(step_id), "cached step span should stay alive");
    assert!(matches!(acts.last(), Some(ProgressAction::AdvanceRoot)));
    assert_eq!(r.outcome(step_id), Some(StepOutcome::Cached));
}

#[test]
fn step_outcome_tracks_failure() {
    let mut r = ProgressRenderer::new(false);
    let step_id = 9;
    drive(
        &mut r,
        &[
            BuildEvent::BuildStart { step_count: 1, chain_count: 1 },
            queued(step_id, "test"),
            BuildEvent::StepEnd { step_id, exit_code: 1, duration_ms: 500 },
        ],
    );
    assert!(matches!(r.outcome(step_id), Some(StepOutcome::Failed { exit_code: 1, .. })), "expected Failed outcome");
}

#[test]
fn colored_summary_has_indicators() {
    let mut r = ProgressRenderer::new(true);
    let (s1, s2) = (1, 2);
    let (s, _) = drive(
        &mut r,
        &[
            BuildEvent::BuildStart { step_count: 2, chain_count: 1 },
            queued(s1, "build"),
            BuildEvent::StepEnd { step_id: s1, exit_code: 0, duration_ms: 200 },
            queued(s2, "test"),
            BuildEvent::StepEnd { step_id: s2, exit_code: 1, duration_ms: 300 },
            BuildEvent::BuildEnd { exit_code: 1, duration_ms: 600 },
        ],
    );
    assert!(s.contains("\x1b[32m") && s.contains("✓"), "expected green ✓: {s}");
    assert!(s.contains("\x1b[31m") && s.contains("✗"), "expected red ✗: {s}");
    assert!(s.contains("Build failed"), "expected failure banner: {s}");
}

#[test]
fn colored_success_banner() {
    let mut r = ProgressRenderer::new(true);
    let s1 = 1;
    let (s, _) = drive(
        &mut r,
        &[
            BuildEvent::BuildStart { step_count: 1, chain_count: 1 },
            queued(s1, "build"),
            BuildEvent::StepEnd { step_id: s1, exit_code: 0, duration_ms: 100 },
            BuildEvent::BuildEnd { exit_code: 0, duration_ms: 150 },
        ],
    );
    assert!(s.contains("\x1b[") && s.contains("Build succeeded"), "expected green bold success: {s}");
    assert!(s.contains("Build succeeded"), "expected success: {s}");
}

#[test]
fn plain_failure_report_is_exact() {
    let mut r = ProgressRenderer::new(false);
    let (s, _) = drive(
        &mut r,
        &[
            queued(1, "lint"),
            queued(2, "unit-tests"),
            log(2, "boom"),
            BuildEvent::StepEnd { step_id: 1, exit_code: 0, duration_ms: 1500 },
            BuildEvent::StepEnd { step_id: 2, exit_code: 2, duration_ms: 61000 },
            BuildEvent::BuildEnd { exit_code: 2, duration_ms: 62000 },
        ],
    );
    assert!(s.contains("lint"), "{s}");
    assert!(s.contains("--- unit-tests failed (exit 2) ---\nboom\n"), "{s}");
    assert!(s.ends_with("\n\u{2717} Build failed in 1m2s\n"), "{s}");
}

#[test]
fn nested_step_opens_under_its_parent() {
    let mut r = ProgressRenderer::new(false);
    let (_, acts) = drive(
        &mut r,
        &[
            BuildEvent::BuildStart { step_count: 2, chain_count: 1 },
            queued(1, "parent"),
            BuildEvent::StepQueued {
                step_id: 2,
                key: "child".into(),
                chain_idx: 0,
                parent_key: Some("parent".into()),
                display_name: "child".into(),
            },
        ],
    );
    assert!(matches!(acts[0], ProgressAction::StartRoot { length: 2 }));
    assert!(matches!(acts[1], ProgressAction::OpenStep { step_id: 1, parent: Parent::Root, .. }));
    assert!(matches!(acts[2], ProgressAction::OpenStep { step_id: 2, parent: Parent::Step(1), .. }));
}

#[test]
fn failed_step_bar_is_restyled() {
    let mut r = ProgressRenderer::new(false);
    let (_, acts) = drive(&mut r, &[queued(1, "t"), BuildEvent::StepEnd { step_id: 1, exit_code: 3, duration_ms: 5 }]);
    assert!(matches!(&acts[1], ProgressAction::Restyle { step_id: 1, style: SpanStyle::Failed, message } if message == "t  FAILED (exit 3)"));
}

#[test]
fn json_frames_each_event_as_a_line() {
    let mut r = JsonRenderer::new();
    assert_eq!(r.on_event(br#"{"a":1}"#), b"{\"a\":1}\n".to_vec());
}

#[test]
fn renderer_choice_follows_format_and_logs() {
    assert_eq!(renderer_kind("json", true).unwrap(), RendererKind::Json);
    assert_eq!(renderer_kind("human", true).unwrap(), RendererKind::Human);
    assert_eq!(renderer_kind("human", false).unwrap(), RendererKind::Progress);
    assert_eq!(renderer_kind("yaml", false).unwrap_err(), "unknown --format 'yaml'\n  available: human, json");
}

#[test]
fn output_mode_flags() {
    let h = OutputMode::Human { color: true, interactive: false };
    assert!(h.is_human() && !h.is_json() && h.color_enabled() && !h.interactive());
    let j = OutputMode::Json;
    assert!(j.is_json() && !j.color_enabled() && !j.interactive() && !j.use_hyperlinks());
}

#[test]
fn durations_read_naturally() {
    assert_eq!(format_duration(850), "850ms");
    assert_eq!(format_duration(12_345), "12.3s");
    assert_eq!(format_duration(125_000), "2m5s");
}
