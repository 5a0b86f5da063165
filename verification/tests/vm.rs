use hm::vm::docker::{
    exec_env, exit_code_of, gc_candidates, output_lines, reclaim_command, reclaim_succeeded, reference_matches,
    snapshot_tag, teardown_plan, workspace_bind, ImageInfo, TeardownStep,
};
use hm::vm::machine::{
    cancelled_result, cleanup_plan, gc_keeps, remove_unless_registered, CleanupAction, DeferredEvictions, ExecAction,
    ExecEvent, Execution, CANCELLED_EXIT_CODE,
};
use hm::vm::registry::{evict_overflow, RegistryRow};
use hm::vm::types::{CachingPolicy, SnapshotId, SnapshotLabel, WorkspaceMount};

#[test]
fn exact_repo_pattern_matches_every_tag_of_that_repo() {
    assert!(reference_matches("ephemeral", "ephemeral:latest"));
    assert!(reference_matches("ephemeral", "ephemeral:0123456789abcdef0123456789abcdef0123456789abcdef0123456789abcd"));
    assert!(reference_matches("harmont-ephemeral", "harmont-ephemeral:3c5e0fda-1111-2222-3333-444444444444"));
}

#[test]
fn exact_repo_pattern_rejects_other_repos() {
    assert!(!reference_matches("ephemeral", "ephemeral-test:latest"));
    assert!(!reference_matches("ephemeral", "my-ephemeral:latest"));
    assert!(!reference_matches("ephemeral", "ephemeral/sub:latest"));
}

#[test]
fn wildcard_pattern_matches_one_path_component() {
    assert!(reference_matches("harmont-cache/*", "harmont-cache/build:0123456789abcdef"));
    assert!(!reference_matches("harmont-cache/*", "harmont-cache:latest"));
    assert!(!reference_matches("harmont-cache/*", "harmont-cachex/build:latest"));
    assert!(!reference_matches("harmont-cache/*", "harmont-cache/a/b:latest"));
    assert!(!reference_matches("harmont-cache/*", "other/build:latest"));
}

fn snap(s: &str) -> SnapshotId {
    SnapshotId::new(s.to_string())
}

fn drive(ex: &mut Execution, events: Vec<ExecEvent>) -> Vec<ExecAction> {
    let mut all = Vec::new();
    for e in events {
        all.extend(ex.step(e));
    }
    all
}

fn finish_of(acts: &[ExecAction]) -> (i32, Option<String>, bool, bool, bool) {
    match acts.last() {
        Some(ExecAction::Finish { result, destroy }) => (
            result.exit_code,
            result.snapshot.as_ref().map(|s| s.as_str().to_string()),
            result.cached,
            result.ephemeral_snapshot,
            *destroy,
        ),
        other => panic!("expected a finish, got {other:?}"),
    }
}

#[test]
fn cache_miss_creates_executes_and_snapshots() {
    let mut ex = Execution::new(&CachingPolicy::Cache { key: "k1".into() });
    let acts = drive(
        &mut ex,
        vec![
            ExecEvent::Begin,
            ExecEvent::Entry(None),
            ExecEvent::Booted,
            ExecEvent::Exited(0),
            ExecEvent::Committed(snap("k1:tag")),
            ExecEvent::Recorded(vec![]),
        ],
    );
    assert!(matches!(acts[0], ExecAction::Lookup { ref key } if key == "k1"));
    assert!(matches!(acts[1], ExecAction::Boot));
    assert!(matches!(acts[2], ExecAction::Run));
    assert!(matches!(acts[3], ExecAction::Commit { label: SnapshotLabel::Cached(ref k) } if k == "k1"));
    assert!(matches!(acts[4], ExecAction::Record { ref key, .. } if key == "k1"));
    assert_eq!(finish_of(&acts), (0, Some("k1:tag".to_string()), false, false, true));
    assert!(ex.is_done());
}

#[test]
fn cache_hit_skips_execution() {
    let mut ex = Execution::new(&CachingPolicy::Cache { key: "k".into() });
    let acts = drive(&mut ex, vec![ExecEvent::Begin, ExecEvent::Entry(Some(snap("s1"))), ExecEvent::Exists(true)]);
    assert_eq!(acts.len(), 3);
    assert!(!acts.iter().any(|a| matches!(a, ExecAction::Boot | ExecAction::Run)));
    assert_eq!(finish_of(&acts), (0, Some("s1".to_string()), true, false, false));
    // Nothing that arrives later asks for more work.
    assert!(ex.step(ExecEvent::Booted).is_empty());
}

#[test]
fn no_cache_policy_does_not_store() {
    let mut ex = Execution::new(&CachingPolicy::NoCache);
    let acts = drive(&mut ex, vec![ExecEvent::Begin, ExecEvent::Booted, ExecEvent::Exited(0), ExecEvent::Committed(snap("e1"))]);
    assert!(matches!(acts[0], ExecAction::Boot));
    assert!(matches!(acts[2], ExecAction::Commit { label: SnapshotLabel::Ephemeral }));
    assert!(!acts.iter().any(|a| matches!(a, ExecAction::Lookup { .. } | ExecAction::Record { .. })));
    assert_eq!(finish_of(&acts), (0, Some("e1".to_string()), false, true, true));
}

#[test]
fn nonzero_exit_does_not_cache() {
    let mut ex = Execution::new(&CachingPolicy::Cache { key: "k".into() });
    let acts = drive(&mut ex, vec![ExecEvent::Begin, ExecEvent::Entry(None), ExecEvent::Booted, ExecEvent::Exited(2)]);
    assert!(!acts.iter().any(|a| matches!(a, ExecAction::Commit { .. } | ExecAction::Record { .. })));
    assert_eq!(finish_of(&acts), (2, None, false, false, true));
    assert!(ex.step(ExecEvent::Committed(snap("late"))).is_empty());
}

#[test]
fn stale_entry_is_invalidated_and_step_reexecutes() {
    let mut ex = Execution::new(&CachingPolicy::Cache { key: "k".into() });
    let acts = drive(&mut ex, vec![ExecEvent::Begin, ExecEvent::Entry(Some(snap("gone"))), ExecEvent::Exists(false)]);
    assert!(matches!(acts[2], ExecAction::Invalidate { ref key, ref snap } if key == "k" && snap.as_str() == "gone"));
    assert!(matches!(acts[3], ExecAction::Boot));
}

#[test]
fn record_failure_demotes_snapshot_to_ephemeral() {
    let mut ex = Execution::new(&CachingPolicy::Cache { key: "k".into() });
    let acts = drive(
        &mut ex,
        vec![
            ExecEvent::Begin,
            ExecEvent::Entry(None),
            ExecEvent::Booted,
            ExecEvent::Exited(0),
            ExecEvent::Committed(snap("k:t")),
            ExecEvent::RecordFailed,
        ],
    );
    assert_eq!(finish_of(&acts), (0, Some("k:t".to_string()), false, true, true));
}

#[test]
fn eviction_defers_snapshot_removal_until_cleanup() {
    let mut ex = Execution::new(&CachingPolicy::Cache { key: "k".into() });
    let acts = drive(
        &mut ex,
        vec![
            ExecEvent::Begin,
            ExecEvent::Entry(None),
            ExecEvent::Booted,
            ExecEvent::Exited(0),
            ExecEvent::Committed(snap("k:t")),
            ExecEvent::Recorded(vec![(snap("old"), Some("/ws/old".into()))]),
        ],
    );
    let n = acts.len();
    assert!(matches!(&acts[n - 2], ExecAction::Defer(v) if v.len() == 1 && v[0].0.as_str() == "old"));
    let mut q = DeferredEvictions::new();
    q.defer(vec![(snap("old"), Some("/ws/old".into()))]);
    assert!(q.is_eviction_deferred("old"));
    assert!(!q.is_eviction_deferred("new"));
    let pending = q.take_all();
    assert!(!q.is_eviction_deferred("old"));
    let plan = cleanup_plan(pending, &vec![false]);
    assert!(matches!(&plan[0], CleanupAction::RemoveImage(s) if s.as_str() == "old"));
    assert!(matches!(&plan[1], CleanupAction::RemoveDir(d) if d == "/ws/old"));
}

#[test]
fn deferred_eviction_skips_reregistered_snapshot() {
    let plan = cleanup_plan(vec![(snap("a"), None), (snap("b"), None)], &vec![true, false]);
    assert_eq!(plan.len(), 1);
    assert!(matches!(&plan[0], CleanupAction::RemoveImage(s) if s.as_str() == "b"));
}

#[test]
fn remove_unless_registered_guards_live_entries() {
    assert!(!remove_unless_registered(true));
    assert!(remove_unless_registered(false));
}

#[test]
fn cleanup_with_no_evictions_is_a_noop() {
    let mut q = DeferredEvictions::new();
    let pending = q.take_all();
    assert!(cleanup_plan(pending, &vec![]).is_empty());
}

#[test]
fn cancellation_mid_exec_destroys_vm_before_returning() {
    let mut ex = Execution::new(&CachingPolicy::NoCache);
    let acts = drive(&mut ex, vec![ExecEvent::Begin, ExecEvent::Booted, ExecEvent::Cancelled]);
    assert_eq!(finish_of(&acts), (CANCELLED_EXIT_CODE, None, false, false, true));
}

#[test]
fn cancelled_while_booting_has_no_vm_to_destroy() {
    let mut ex = Execution::new(&CachingPolicy::NoCache);
    let acts = drive(&mut ex, vec![ExecEvent::Begin, ExecEvent::Cancelled]);
    assert_eq!(finish_of(&acts), (130, None, false, false, false));
    let r = cancelled_result();
    assert_eq!(r.exit_code, 130);
    assert!(r.snapshot.is_none() && !r.cached && !r.ephemeral_snapshot);
}

#[test]
fn gc_keeps_tags_queued_for_deferred_eviction() {
    assert!(gc_keeps(false, true));
    assert!(gc_keeps(true, false));
    assert!(!gc_keeps(false, false));
}

#[test]
fn gc_candidates_are_old_matching_tags() {
    let images = vec![
        ImageInfo { created: 10, repo_tags: vec!["ephemeral:a".into(), "mine:latest".into()] },
        ImageInfo { created: 100, repo_tags: vec!["ephemeral:b".into()] },
        ImageInfo { created: 5, repo_tags: vec!["ephemeral:c".into()] },
    ];
    assert_eq!(gc_candidates(&images, 50, "ephemeral"), vec!["ephemeral:a".to_string(), "ephemeral:c".to_string()]);
}

fn row(key: &str, at: i64) -> RegistryRow {
    RegistryRow { key: key.to_string(), snapshot_id: format!("snap-{key}"), accessed_at: at, workspace_dir: None }
}

#[test]
fn eviction_returns_overflow_entries() {
    // x, y and z put one second apart into a registry of capacity 2.
    let puts = vec![row("x", 100), row("y", 101), row("z", 102)];
    let evicted = evict_overflow(&puts, 2);
    assert_eq!(evicted.len(), 1);
    assert_eq!(puts[evicted[0]].snapshot_id, "snap-x");
    assert_eq!(puts.len() - evicted.len(), 2);
    let rows = vec![row("a", 3), row("b", 1), row("c", 2)];
    assert_eq!(evict_overflow(&rows, 2), vec![1]);
    assert_eq!(evict_overflow(&rows, 1), vec![1, 2]);
    assert!(evict_overflow(&rows, 3).is_empty());
    assert!(evict_overflow(&rows, 10).is_empty());
}

#[test]
fn eviction_ties_break_by_key() {
    let rows = vec![row("b", 1), row("a", 1), row("c", 1)];
    assert_eq!(evict_overflow(&rows, 2), vec![1]);
    assert_eq!(evict_overflow(&rows, 0), vec![0, 1, 2]);
}

#[test]
fn snapshot_tags_split_keys() {
    let (r, t, full) = snapshot_tag(&SnapshotLabel::Ephemeral, "c0ffee");
    assert_eq!((r.as_str(), t.as_str(), full.as_str()), ("ephemeral", "c0ffee", "ephemeral:c0ffee"));
    let (r, t, _) = snapshot_tag(&SnapshotLabel::Cached("forever-x:abc".into()), "id");
    assert_eq!((r.as_str(), t.as_str()), ("forever-x", "abc"));
    let (r, t, _) = snapshot_tag(&SnapshotLabel::Cached("plain".into()), "id");
    assert_eq!((r.as_str(), t.as_str()), ("plain", "id"));
}

#[test]
fn exec_environment_and_binds() {
    assert_eq!(exec_env(&vec![("A".into(), "1".into()), ("B".into(), "x=y".into())]), vec!["A=1", "B=x=y"]);
    let ws = WorkspaceMount { host_path: "/tmp/ws".into(), guest_path: "/workspace".into() };
    assert_eq!(workspace_bind(&ws), "/tmp/ws:/workspace:rw");
}

#[test]
fn output_splits_like_str_lines() {
    assert_eq!(output_lines("a\r\nb\n\nc"), vec!["a", "b", "", "c"]);
    assert_eq!(output_lines("x\n"), vec!["x"]);
    assert!(output_lines("").is_empty());
    assert_eq!(output_lines("a\r"), vec!["a\r"]);
    assert_eq!(output_lines("a\r\nb\r"), vec!["a", "b\r"]);
}

#[test]
fn missing_exit_code_reads_as_success() {
    assert_eq!(exit_code_of(Some(3)), 3);
    assert_eq!(exit_code_of(None), 0);
    assert_eq!(exit_code_of(Some(0x1_0000_0002)), 2);
}

#[test]
fn teardown_order() {
    assert_eq!(teardown_plan(true, true), vec![TeardownStep::Quiesce, TeardownStep::Reclaim, TeardownStep::Remove]);
    assert_eq!(teardown_plan(true, false), vec![TeardownStep::Reclaim, TeardownStep::Remove]);
    assert_eq!(teardown_plan(false, true), vec![TeardownStep::Remove]);
}

#[test]
fn ownership_reclaim_command() {
    assert_eq!(reclaim_command(1000, 100, "/workspace"), vec!["chown", "-R", "1000:100", "/workspace"]);
    assert!(reclaim_succeeded(None));
    assert!(reclaim_succeeded(Some(0)));
    assert!(!reclaim_succeeded(Some(1)));
}

#[test]
fn cleanup_removes_unregistered_images_and_every_legacy_dir() {
    let pending = vec![(snap("a"), Some("/w/a".to_string())), (snap("b"), Some("/w/b".to_string())), (snap("c"), None)];
    let plan = cleanup_plan(pending, &vec![false, true, false]);
    assert_eq!(plan.len(), 4);
    assert!(matches!(&plan[0], CleanupAction::RemoveImage(s) if s.0 == "a"));
    assert!(matches!(&plan[1], CleanupAction::RemoveDir(d) if d == "/w/a"));
    assert!(matches!(&plan[2], CleanupAction::RemoveDir(d) if d == "/w/b"));
    assert!(matches!(&plan[3], CleanupAction::RemoveImage(s) if s.0 == "c"));
}
