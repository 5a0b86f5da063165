use hm::run::BackendError as E;
use hm::run::{
    backend_name, build_create_pipeline_request, check_no_watch, choose_backend, cloud_target, exit_category, explain,
    explain_cloud, git_metadata_from, is_missing_pipeline, logs_wanted, may_autocreate, needs_branch_query,
    parse_default_branch, parse_env, parse_repo_name, pick_pipeline, remoteless_repo_name, resolve_org, setup_steps, SetupStep,
    resolve_parallelism, BackendChoice, BackendError, CloudTarget, ErrorCategory, HarmontError, PickError,
    RunSetupError,
};
use hm::size::{human_bytes, mb};

#[test]
fn missing_pipeline_detected_from_structured_reject() {
    let err = BackendError::Rejected {
        code: "pipeline_not_found".into(),
        message: "No pipeline with that slug exists in this organization.".into(),
    };
    assert!(is_missing_pipeline(&err));
}

#[test]
fn other_reject_is_not_missing_pipeline() {
    let err = BackendError::Rejected { code: "build_rejected".into(), message: "pipeline_ir invalid".into() };
    assert!(!is_missing_pipeline(&err));
}

#[test]
fn missing_pipeline_detected_from_opaque_not_found() {
    let err = BackendError::NotFound(r#"{"error":{"code":"pipeline_not_found"}}"#.into());
    assert!(is_missing_pipeline(&err));
}

#[test]
fn transport_error_is_not_missing_pipeline() {
    let err = BackendError::Transport("connection refused".into());
    assert!(!is_missing_pipeline(&err));
}

#[test]
fn parse_repo_name_handles_https_ssh_and_scp() {
    assert_eq!(
        parse_repo_name("https://github.com/harmont-dev/harmont-cli.git").as_deref(),
        Some("harmont-dev/harmont-cli")
    );
    assert_eq!(parse_repo_name("git@github.com:harmont-dev/harmont-cli.git").as_deref(), Some("harmont-dev/harmont-cli"));
    assert_eq!(
        parse_repo_name("ssh://git@github.com/harmont-dev/harmont-cli").as_deref(),
        Some("harmont-dev/harmont-cli")
    );
    assert_eq!(parse_repo_name("https://example.com/a/b/c/repo").as_deref(), Some("c/repo"));
}

#[test]
fn parse_repo_name_rejects_unparseable() {
    assert_eq!(parse_repo_name(""), None);
    assert_eq!(parse_repo_name("not-a-url"), None);
}

#[test]
fn parse_repo_name_trims_and_strips_trailing_slashes() {
    assert_eq!(parse_repo_name("  https://host/o/r.git/  ").as_deref(), Some("o/r"));
    assert_eq!(parse_repo_name("host/owner/repo").as_deref(), Some("owner/repo"));
}

#[test]
fn parses_default_branch_from_symbolic_ref() {
    assert_eq!(parse_default_branch("refs/remotes/origin/main\n").as_deref(), Some("main"));
    assert_eq!(parse_default_branch("refs/remotes/origin/master").as_deref(), Some("master"));
}

#[test]
fn default_branch_none_when_unexpected_or_empty() {
    assert_eq!(parse_default_branch(""), None);
    assert_eq!(parse_default_branch("refs/heads/main"), None);
    assert_eq!(parse_default_branch("refs/remotes/origin/"), None);
}

fn check_parse_env() {
    let m = parse_env(&["A=1".into(), "B=x=y".into(), "bad".into()]);
    assert_eq!(m.get("A").unwrap(), "1");
    assert_eq!(m.get("B").unwrap(), "x=y");
    assert!(!m.contains_key("bad"));
}

#[test]
fn mod_parse_env_splits_pairs() {
    check_parse_env();
}

#[test]
fn cloud_parse_env_splits_pairs() {
    check_parse_env();
}

#[test]
fn parse_env_later_pair_wins() {
    let m = parse_env(&["A=1".into(), "A=2".into(), "=empty".into()]);
    assert_eq!(m.get("A").unwrap(), "2");
    assert_eq!(m.get("").unwrap(), "empty");
    assert_eq!(m.len(), 2);
}

fn check_git_metadata_outside_repo() {
    // Outside a repository both git queries fail.
    let (b, c) = git_metadata_from(None, None, None);
    assert!(!b.is_empty() && !c.is_empty());
    assert_eq!(c.len(), 40);
    assert_eq!(b, "HEAD");
    assert!(c.chars().all(|ch| ch == '0'));
}

#[test]
fn mod_git_metadata_falls_back_outside_repo() {
    check_git_metadata_outside_repo();
}

#[test]
fn cloud_git_metadata_falls_back_outside_repo() {
    check_git_metadata_outside_repo();
}

#[test]
fn git_metadata_prefers_override_and_trims() {
    let (b, c) = git_metadata_from(Some("feature".into()), Some("main\n".into()), Some(" abc123 \n".into()));
    assert_eq!(b, "feature");
    assert_eq!(c, "abc123");
    let (b, _) = git_metadata_from(None, Some("  dev\n".into()), None);
    assert_eq!(b, "dev");
    let (b, _) = git_metadata_from(Some(String::new()), Some("dev".into()), None);
    assert_eq!(b, "HEAD");
    assert!(needs_branch_query(&None));
    assert!(!needs_branch_query(&Some("x".into())));
}

#[test]
fn explain_carries_stable_codes() {
    assert!(explain(&E::Unauthorized).contains("error[auth_required]"));
    assert!(explain(&E::NotFound("x".into())).contains("error[not_found]"));
    assert!(explain(&E::LogStream("x".into())).contains("error[log_stream]"));
    assert!(explain(&E::Transport("x".into())).contains("error[network]"));
    assert!(explain(&E::Local("x".into())).contains("error[local]"));
    let r = explain(&E::Rejected { code: "invalid_ir".into(), message: "bad IR".into() });
    assert!(r.contains("error[invalid_ir]") && r.contains("bad IR"));
    let big = explain(&E::SourceTooLarge {
        observed_bytes: 7 * 1024 * 1024,
        cap_bytes: 6 * 1024 * 1024,
        largest_paths: vec![("node_modules".into(), 5 * 1024 * 1024)],
    });
    assert!(big.contains("error[source_too_large]"));
    assert!(big.contains("7.0 MB") && big.contains("6.0 MB"));
    assert!(big.contains("node_modules") && big.contains(".gitignore"));
    for s in [
        explain(&E::Unauthorized),
        explain(&E::NotFound("x".into())),
        explain(&E::Transport("x".into())),
        explain(&E::Local("x".into())),
    ] {
        assert!(!s.contains("docs   https://harmont.dev/docs/errors/"));
    }
    assert!(!explain(&E::Local("archiving worktree: boom".into())).contains("Docker"));
    assert!(explain(&E::Local("archiving worktree: boom".into())).contains("error[local]"));
}

#[test]
fn explain_source_too_large_exact_text() {
    let s = explain(&BackendError::SourceTooLarge { observed_bytes: 1572864, cap_bytes: 1048576, largest_paths: vec![] });
    assert_eq!(
        s,
        "error[source_too_large]: worktree archive is 1.5 MB (cap 1.0 MB)\n  biggest\n  (no large top-level paths identified)\n  fix    add the offending paths to .gitignore (build output, caches, vendored deps), then re-run `hm run`"
    );
    assert_eq!(explain(&BackendError::Other("boom".into())), "error[backend]: boom");
}

#[test]
fn exit_category_preserves_taxonomy() {
    assert_eq!(exit_category(&E::Rejected { code: "invalid_ir".into(), message: String::new() }), ErrorCategory::PipelineInvalid);
    assert_eq!(exit_category(&E::Unauthorized), ErrorCategory::Auth);
    assert_eq!(exit_category(&E::Transport("x".into())), ErrorCategory::Network);
    assert_eq!(exit_category(&E::Local("x".into())), ErrorCategory::Network);
    assert_eq!(exit_category(&E::NotFound("x".into())), ErrorCategory::Api);
    assert_eq!(
        exit_category(&E::SourceTooLarge { observed_bytes: 1, cap_bytes: 0, largest_paths: vec![] }),
        ErrorCategory::Usage
    );
    assert_eq!(exit_category(&E::LogStream("x".into())), ErrorCategory::BuildFailed);
}

#[test]
fn create_request_maps_fields_and_sets_repo_name() {
    let body = build_create_pipeline_request("web", "main", "git@github.com:acme/my-app.git", Some("acme/my-app"));
    assert_eq!(body.name, "web");
    assert_eq!(body.default_branch, "main");
    assert_eq!(body.repository, "git@github.com:acme/my-app.git");
    assert_eq!(body.repo_name.as_deref(), Some("acme/my-app"));
    assert!(body.description.is_none());

    let body = build_create_pipeline_request("my-app-2", "main", "my-app-2", None);
    assert!(body.repo_name.is_none());
    assert_eq!(body.repository, "my-app-2");
    assert_eq!(body.name, "my-app-2");
}

#[test]
fn explain_cloud_api_error_links_docs() {
    let s = explain_cloud(&HarmontError::Api { status: 422, code: "bad".into(), message: "nope".into() });
    assert_eq!(s, "error[bad]: nope\n  status 422\n  docs   https://harmont.dev/docs/errors/bad");
    assert_eq!(explain_cloud(&HarmontError::NotFound("org x".into())), "error[not_found]: org x");
}

#[test]
fn parallelism_defaults_and_clamps() {
    assert_eq!(resolve_parallelism(Some(0), Some(8)), 1);
    assert_eq!(resolve_parallelism(Some(3), Some(8)), 3);
    assert_eq!(resolve_parallelism(None, Some(8)), 8);
    assert_eq!(resolve_parallelism(None, None), 4);
}

#[test]
fn backend_name_prefers_flag_then_alias_then_config() {
    assert_eq!(backend_name(&Some("docker".into()), true, "cloud"), "docker");
    assert_eq!(backend_name(&None, true, "docker"), "cloud");
    assert_eq!(backend_name(&None, false, "docker"), "docker");
}

#[test]
fn unknown_backend_is_refused() {
    assert!(matches!(choose_backend("cloud"), Ok(BackendChoice::Cloud)));
    assert!(matches!(choose_backend("docker"), Ok(BackendChoice::Docker)));
    let err = choose_backend("k8s").unwrap_err();
    assert_eq!(err.message(), "unknown --backend 'k8s'\n  available: docker, cloud");
}

#[test]
fn organization_comes_from_flag_or_config() {
    assert_eq!(resolve_org(&Some("a".into()), &Some("b".into())).unwrap(), "a");
    assert_eq!(resolve_org(&None, &Some("b".into())).unwrap(), "b");
    let err = resolve_org(&None, &None).unwrap_err();
    assert!(matches!(err, RunSetupError::NoOrganization));
    assert!(err.message().starts_with("no organization"));
    assert!(RunSetupError::NotLoggedIn.message().contains("requires authentication"));
}

#[test]
fn no_watch_needs_backend_support() {
    assert!(check_no_watch(false, false, "local").is_ok());
    assert!(check_no_watch(true, true, "cloud").is_ok());
    let err = check_no_watch(true, false, "local").unwrap_err();
    assert_eq!(err.message(), "--no-watch is not supported by the local backend");
}

#[test]
fn logs_follow_flag_ci_and_terminal() {
    assert!(logs_wanted(true, None, true));
    assert!(logs_wanted(false, Some("1"), true));
    assert!(!logs_wanted(false, Some(""), true));
    assert!(logs_wanted(false, None, false));
    assert!(!logs_wanted(false, None, true));
}

#[test]
fn cloud_target_order() {
    assert!(matches!(cloud_target(&Some("p".into()), &None), CloudTarget::Saved(ref s) if s == "p"));
    assert!(matches!(cloud_target(&None, &None), CloudTarget::RegisterRemoteless));
    assert!(matches!(cloud_target(&None, &Some("o/r".into())), CloudTarget::ByRepository));
}

#[test]
fn autocreate_needs_missing_pipeline_and_identity() {
    let missing = BackendError::Rejected { code: "pipeline_not_found".into(), message: String::new() };
    let other = BackendError::Unauthorized;
    let n = Some("o/r".to_string());
    let u = Some("git@x:o/r.git".to_string());
    assert!(may_autocreate(&missing, true, &n, &u));
    assert!(!may_autocreate(&missing, false, &n, &u));
    assert!(!may_autocreate(&missing, true, &None, &u));
    assert!(!may_autocreate(&other, true, &n, &u));
    assert_eq!(remoteless_repo_name(Some("proj")), "proj");
    assert_eq!(remoteless_repo_name(None), "repo");
}

#[test]
fn pipeline_pick_needs_exactly_one() {
    assert_eq!(pick_pipeline(&vec!["ci".to_string()]).unwrap(), "ci");
    let none = pick_pipeline(&vec![]).unwrap_err();
    assert!(matches!(none, PickError::NoPipelines));
    assert!(none.message().starts_with("no pipelines declared in this repo"));
    let many = pick_pipeline(&vec!["a".to_string(), "b".to_string()]).unwrap_err();
    assert_eq!(many.message(), "this repo declares pipelines: a, b\n  \u{2192} pass one as the first argument");
}

#[test]
fn megabytes_with_one_decimal() {
    assert_eq!(mb(0), "0.0 MB");
    assert_eq!(mb(7 * 1024 * 1024), "7.0 MB");
    assert_eq!(mb(1024 * 1024 + 52428), "1.0 MB");
    assert_eq!(mb(1024 * 1024 + 52429), "1.1 MB");
    assert_eq!(mb(262144), "0.2 MB");
    assert_eq!(mb(262144), format!("{:.1} MB", 0.25f64));
    assert_eq!(mb(786432), format!("{:.1} MB", 0.75f64));
    assert_eq!(mb(u64::MAX), format!("{:.1} MB", u64::MAX as f64 / (1024.0 * 1024.0)));
}

#[test]
fn human_bytes_units() {
    assert_eq!(human_bytes(0), "0B");
    assert_eq!(human_bytes(1023), "1023B");
    assert_eq!(human_bytes(1024), "1.0KB");
    assert_eq!(human_bytes(1536), "1.5KB");
    assert_eq!(human_bytes(5 * 1024 * 1024), "5.0MB");
    assert_eq!(human_bytes(3 * 1024 * 1024 * 1024), "3.0GB");
    for b in [1u64, 999, 1025, 4096 + 51, 123_456_789, 9_876_543_210, u64::MAX] {
        let f = b as f64;
        let expected = if b < 1024 {
            format!("{b}B")
        } else if b < 1024 * 1024 {
            format!("{:.1}KB", f / 1024.0)
        } else if b < 1024 * 1024 * 1024 {
            format!("{:.1}MB", f / (1024.0 * 1024.0))
        } else {
            format!("{:.1}GB", f / (1024.0 * 1024.0 * 1024.0))
        };
        assert_eq!(human_bytes(b), expected, "bytes {b}");
    }
}

#[test]
fn setup_checks_fail_fast_before_connecting() {
    assert_eq!(
        setup_steps(BackendChoice::Cloud),
        vec![
            SetupStep::CloudToken,
            SetupStep::Organization,
            SetupStep::RenderPipeline,
            SetupStep::PickRenderer,
            SetupStep::ConnectBackend,
            SetupStep::CheckFlags,
        ]
    );
    assert_eq!(
        setup_steps(BackendChoice::Docker),
        vec![SetupStep::RenderPipeline, SetupStep::PickRenderer, SetupStep::ConnectBackend, SetupStep::CheckFlags]
    );
}
