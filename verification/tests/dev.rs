use sha1::Digest;
use hm::dev::logmux::{slug_color, write_line, LogLine, LogMux, PerSlug};
use hm::dev::naming::{container_name, fresh_session_id, network_name, worktree_hash, LABEL_DRIVER, LABEL_SESSION, LABEL_SLUG, LABEL_WORKTREE};
use hm::dev::network::session_network;
use hm::dev::registry::{DevRegistry, FromSource, LocalSpec, RegEntry, PORT_SENTINEL};
use hm::dev::service_spec::{build, SpecError};
use hm::dev::topo::{plan, PlanError};
use hm::smap::StrMap;

fn capture(slug: &str, chunks: &[&[u8]], color: bool) -> String {
    let mut buf: Vec<u8> = Vec::new();
    let mut p = PerSlug::default();
    for c in chunks {
        p.ingest(slug, 4, color, c, &mut buf);
    }
    p.flush(slug, 4, color, &mut buf);
    String::from_utf8(buf).unwrap()
}

#[test]
fn flushes_on_newline() {
    let out = capture("db", &[b"hello\n"], false);
    assert_eq!(out, "[db  ] hello\n");
}

#[test]
fn buffers_partial_chunk_across_calls() {
    let out = capture("db", &[b"hel", b"lo\nworld\n"], false);
    assert_eq!(out, "[db  ] hello\n[db  ] world\n");
}

#[test]
fn flush_emits_trailing_unterminated_line() {
    let out = capture("db", &[b"tail"], false);
    assert_eq!(out, "[db  ] tail\n");
}

#[test]
fn color_wraps_prefix_with_ansi() {
    let out = capture("db", &[b"hi\n"], true);
    assert!(out.contains("hi"));
    assert!(out.contains("\x1b["));
}

#[test]
fn slug_color_is_stable_per_slug() {
    assert_eq!(slug_color("db"), slug_color("db"));
}

#[test]
fn chunking_does_not_change_output() {
    let whole = capture("api", &[b"one\ntwo\nthree"], false);
    let split = capture("api", &[b"o", b"ne\ntw", b"", b"o\nthr", b"ee"], false);
    assert_eq!(whole, split);
    assert_eq!(whole, "[api ] one\n[api ] two\n[api ] three\n");
}

#[test]
fn write_line_pads_to_width_and_keeps_long_slugs() {
    let mut w: Vec<u8> = Vec::new();
    write_line("web", 6, false, b"up", &mut w);
    write_line("database", 6, false, b"ok", &mut w);
    assert_eq!(String::from_utf8(w).unwrap(), "[web   ] up\n[database] ok\n");
}

#[test]
fn colored_prefix_is_exactly_painted() {
    let mut w: Vec<u8> = Vec::new();
    write_line("db", 2, true, b"x", &mut w);
    let s = String::from_utf8(w).unwrap();
    assert!(s.starts_with("\x1b["));
    assert!(s.contains("[db]\x1b[39m x\n"));
}

#[test]
fn worktree_hash_is_stable() {
    let h1 = worktree_hash("/home/marko/myrepo");
    let h2 = worktree_hash("/home/marko/myrepo");
    assert_eq!(h1, h2);
    assert_eq!(h1.len(), 10);
    assert!(h1.chars().all(|c| c.is_ascii_hexdigit()));
}

#[test]
fn worktree_hash_differs_per_path() {
    let h1 = worktree_hash("/home/marko/myrepo");
    let h2 = worktree_hash("/home/marko/myrepo-wt2");
    assert_ne!(h1, h2);
}

#[test]
fn worktree_hash_is_sha1_prefix() {
    let d = sha1::Sha1::digest(b"/home/marko/myrepo");
    let expected: String = d[..5].iter().map(|b| format!("{b:02x}")).collect();
    assert_eq!(worktree_hash("/home/marko/myrepo"), expected);
}

#[test]
fn session_id_is_six_hex_chars() {
    let s = fresh_session_id();
    assert_eq!(s.len(), 6);
    assert!(s.chars().all(|c| c.is_ascii_hexdigit()));
}

#[test]
fn container_name_format() {
    assert_eq!(container_name("a1b2c3d4e5", "db", "7a2f91"), "hm-a1b2c3d4e5-db-7a2f91",);
}

#[test]
fn network_name_format() {
    assert_eq!(network_name("a1b2c3d4e5", "7a2f91"), "hm-a1b2c3d4e5-7a2f91",);
}

#[test]
fn session_network_is_named_and_labelled() {
    let (net, labels) = session_network("a1b2c3d4e5", "7a2f91");
    assert_eq!(net.name, "hm-a1b2c3d4e5-7a2f91");
    assert_eq!(labels.len(), 3);
    assert_eq!(labels.get(LABEL_WORKTREE).unwrap(), "a1b2c3d4e5");
    assert_eq!(labels.get(LABEL_SESSION).unwrap(), "7a2f91");
    assert_eq!(labels.get(LABEL_DRIVER).unwrap(), "local");
}

fn spec_with_deps(deps: &[&str]) -> LocalSpec {
    LocalSpec {
        image: Some("img".to_string()),
        from: None,
        cmd: None,
        port_mapping: StrMap::new(),
        env: StrMap::new(),
        volumes: StrMap::new(),
        workdir: None,
        deps: deps.iter().map(|d| (*d).to_string()).collect(),
    }
}

fn reg(specs: &[(&str, &[&str])]) -> DevRegistry {
    let mut deployments = StrMap::new();
    for (slug, deps) in specs {
        deployments.insert((*slug).to_string(), RegEntry::Local(spec_with_deps(deps)));
    }
    DevRegistry { schema_version: "0".to_string(), worktree: "/tmp/wt".to_string(), deployments }
}

#[test]
fn empty_request_brings_up_everything() {
    let r = reg(&[("db", &[]), ("api", &["db"]), ("web", &["api"])]);
    let plan = plan(&r, &[], false).unwrap();
    assert_eq!(plan.levels, vec![vec!["db".to_string()], vec!["api".to_string()], vec!["web".to_string()],]);
}

#[test]
fn explicit_slug_pulls_in_transitive_deps() {
    let r = reg(&[("db", &[]), ("api", &["db"]), ("web", &["api"])]);
    let plan = plan(&r, &["web".to_string()], false).unwrap();
    let slugs = plan.slugs();
    assert_eq!(slugs, vec!["db", "api", "web"]);
}

#[test]
fn no_deps_skips_transitive() {
    let r = reg(&[("db", &[]), ("api", &["db"]), ("web", &["api"])]);
    let plan = plan(&r, &["web".to_string()], true).unwrap();
    let slugs = plan.slugs();
    assert_eq!(slugs, vec!["web"]);
}

#[test]
fn unknown_slug_errors() {
    let r = reg(&[("db", &[])]);
    let err = plan(&r, &["redis".to_string()], false).unwrap_err();
    assert!(err.message().contains("not registered"));
}

#[test]
fn cycle_errors() {
    let r = reg(&[("a", &["b"]), ("b", &["a"])]);
    let err = plan(&r, &[], false).unwrap_err();
    assert!(err.message().contains("dep cycle"));
}

#[test]
fn parallel_siblings_share_a_level() {
    let r = reg(&[("db", &[]), ("cache", &[]), ("api", &["db", "cache"])]);
    let plan = plan(&r, &[], false).unwrap();
    assert_eq!(plan.levels.len(), 2);
    assert!(plan.levels[0].contains(&"db".to_string()));
    assert!(plan.levels[0].contains(&"cache".to_string()));
    assert_eq!(plan.levels[1], vec!["api".to_string()]);
}

#[test]
fn requesting_a_non_local_deployment_errors() {
    let mut r = reg(&[("db", &[])]);
    r.deployments.insert("edge".to_string(), RegEntry::Unhandled);
    let err = plan(&r, &["edge".to_string()], false).unwrap_err();
    assert!(err.message().contains("edge"));
}

#[test]
fn dependency_outside_the_local_set_is_ignored() {
    let r = reg(&[("api", &["ghost"])]);
    let plan = plan(&r, &[], false).unwrap();
    assert_eq!(plan.levels, vec![vec!["api".to_string()]]);
}

fn local_spec() -> LocalSpec {
    let mut port_mapping = StrMap::new();
    port_mapping.insert("5432".to_string(), PORT_SENTINEL.to_string());
    let mut env = StrMap::new();
    env.insert("POSTGRES_PASSWORD".to_string(), "dev".to_string());
    LocalSpec {
        image: Some("postgres:16".to_string()),
        from: None,
        cmd: None,
        port_mapping,
        env,
        volumes: StrMap::new(),
        workdir: None,
        deps: vec![],
    }
}

#[test]
fn builds_a_resolved_spec() {
    let rs = build("db", &local_spec(), "postgres:16", "/tmp/wt", "a1b2c3d4e5", "7a2f91", "hm-a1b2c3d4e5-7a2f91").unwrap();
    assert_eq!(rs.container_name, "hm-a1b2c3d4e5-db-7a2f91");
    assert_eq!(rs.publish, vec![5432]);
    assert!(rs.env.contains(&"POSTGRES_PASSWORD=dev".to_string()));
    assert_eq!(rs.labels.get(LABEL_SLUG).unwrap(), "db");
}

#[test]
fn resolves_relative_volume_against_worktree_root() {
    let mut spec = local_spec();
    spec.volumes.insert(".".to_string(), "/workspace".to_string());
    let rs = build("web", &spec, "node:20", "/tmp/wt", "a", "b", "n").unwrap();
    assert_eq!(rs.binds, vec!["/tmp/wt/.:/workspace".to_string()]);
}

#[test]
fn preserves_ro_suffix_on_container_path() {
    let mut spec = local_spec();
    spec.volumes.insert(".".to_string(), "/workspace:ro".to_string());
    let rs = build("web", &spec, "node:20", "/tmp/wt", "a", "b", "n").unwrap();
    assert_eq!(rs.binds, vec!["/tmp/wt/.:/workspace:ro".to_string()]);
}

#[test]
fn bad_port_key_is_refused() {
    let mut spec = local_spec();
    spec.port_mapping.insert("http".to_string(), PORT_SENTINEL.to_string());
    let err = build("web", &spec, "node:20", "/tmp/wt", "a", "b", "n").unwrap_err();
    assert!(matches!(err, SpecError::BadPort(ref k) if k == "http"));
    assert_eq!(err.message(), "port_mapping key `http` is not a valid u16 \u{2014} registry-dump bug?");
}

#[test]
fn absolute_volume_and_rw_suffix() {
    let mut spec = local_spec();
    spec.volumes.insert("/data".to_string(), "/var/lib/db:rw".to_string());
    let rs = build("db", &spec, "postgres:16", "/tmp/wt", "a", "b", "n").unwrap();
    assert_eq!(rs.binds, vec!["/data:/var/lib/db".to_string()]);
    let svc = rs.as_service_spec();
    assert_eq!(svc.image, "postgres:16");
}

#[test]
fn step_chain_spec_has_no_image() {
    let mut spec = local_spec();
    spec.image = None;
    spec.from = Some(FromSource::StepChain { pipeline_v0: "{}".to_string(), terminal_key: Some("k1".to_string()) });
    assert!(spec.image.is_none());
}

#[test]
fn mux_interleaves_slugs_and_flushes_in_slug_order() {
    let mut mux = LogMux::new(3, false);
    let mut out: Vec<u8> = Vec::new();
    mux.accept(&LogLine { slug: "web".into(), bytes: b"lis".to_vec() }, &mut out);
    mux.accept(&LogLine { slug: "db".into(), bytes: b"ready\npart".to_vec() }, &mut out);
    mux.accept(&LogLine { slug: "web".into(), bytes: b"tening\n".to_vec() }, &mut out);
    mux.accept(&LogLine { slug: "api".into(), bytes: b"tail".to_vec() }, &mut out);
    mux.finish(&mut out);
    assert_eq!(String::from_utf8(out).unwrap(), "[db ] ready\n[web] listening\n[api] tail\n[db ] part\n");
}

#[test]
fn acyclic_diamond_lists_each_slug_once() {
    let r = reg(&[("db", &[]), ("cache", &["db"]), ("auth", &["db"]), ("api", &["cache", "auth", "db"])]);
    let plan = plan(&r, &["api".to_string()], false).unwrap();
    assert_eq!(
        plan.levels,
        vec![vec!["db".to_string()], vec!["auth".to_string(), "cache".to_string()], vec!["api".to_string()]]
    );
    let mut slugs = plan.slugs();
    slugs.sort();
    slugs.dedup();
    assert_eq!(slugs.len(), 4);
}

#[test]
fn cycle_outside_the_selection_does_not_block_it() {
    let r = reg(&[("db", &[]), ("a", &["b"]), ("b", &["a"])]);
    let p = plan(&r, &["db".to_string()], false).unwrap();
    assert_eq!(p.levels, vec![vec!["db".to_string()]]);
    assert!(matches!(plan(&r, &["a".to_string()], false), Err(PlanError::Cycle(_))));
}
