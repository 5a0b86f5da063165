use hm::cli::{output_mode_for, plugin_env, DevCommand, DevExecArgs, PluginCommand, RunArgs};
use hm::render::OutputMode;
use hm::dev::registry::{DevRegistry, FromSource, LocalSpec, RegEntry};
use hm::dev::session::{
    attach_target, exec_command, format_ports, image_plan, ls_header, ls_rows, needs_build, port_of_lookup, published_port,
    ready_line, select_containers, session_ports_line, slug_width, sweep_networks, swept_sessions, AttachError,
    ContainerInfo, ImagePlan, PortOfError, RunningEntry, Selector, UpError, PORT_OF_SESSION_HINT,
};
use hm::init::{
    all_templates, chosen_org, cloud_project_config, gitignore_update, is_workflow_file, may_write_template, org_items,
    skill_action, skill_file, template_step, InitArgs, InitError, SkillAction, TemplateKind, TemplateStep,
};
use hm::smap::StrMap;

#[test]
fn templates_have_labels_and_dsls() {
    let all = all_templates();
    assert_eq!(all.len(), 7);
    assert_eq!(all[0].label(), "CMake");
    assert_eq!(TemplateKind::Js.label(), "JavaScript / TypeScript");
    assert_eq!(TemplateKind::Nextjs.dsl_name(), "TypeScript");
    assert_eq!(TemplateKind::Zig.dsl_name(), "TypeScript");
    assert_eq!(TemplateKind::Rust.dsl_name(), "Python");
    assert!(all.iter().all(|k| k.filename() == "pipeline.py"));
}

#[test]
fn template_step_decisions() {
    assert_eq!(template_step(None, true, false, true), Ok(TemplateStep::Keep));
    assert_eq!(template_step(Some(TemplateKind::Rust), true, false, false), Ok(TemplateStep::Use(TemplateKind::Rust)));
    assert_eq!(template_step(None, true, true, true), Ok(TemplateStep::Ask));
    assert_eq!(template_step(None, false, false, false), Err(InitError::NoTemplate));
    assert!(InitError::NoTemplate.message().starts_with("no template specified and no terminal available"));
    assert!(!may_write_template(true, true, false));
    assert!(may_write_template(true, true, true));
    assert!(may_write_template(false, true, false));
    let args = InitArgs { template: None, dir: ".".into(), force: false };
    assert!(args.template.is_none());
}

#[test]
fn gitignore_gains_entry_once() {
    assert_eq!(gitignore_update(None, "node_modules/").as_deref(), Some("node_modules/\n"));
    assert_eq!(gitignore_update(Some("target\n"), "node_modules/").as_deref(), Some("target\nnode_modules/\n"));
    assert_eq!(gitignore_update(Some("target"), "node_modules/").as_deref(), Some("target\nnode_modules/\n"));
    assert_eq!(gitignore_update(Some(""), "x/").as_deref(), Some("\nx/\n"));
    assert_eq!(gitignore_update(Some("a\n  node_modules/  \nb"), "node_modules/"), None);
    let once = gitignore_update(Some("target"), "__pycache__/").unwrap();
    assert_eq!(gitignore_update(Some(&once), "__pycache__/"), None);
}

#[test]
fn write_skills_behaves() {
    let bundled = "# bundled";
    assert_eq!(skill_action(None, bundled, false), SkillAction::Install);
    assert_eq!(skill_action(Some("# my local edits"), bundled, false), SkillAction::KeepEdited);
    assert_eq!(skill_action(Some("# my local edits"), bundled, true), SkillAction::Overwrite);
    assert_eq!(skill_action(Some(bundled), bundled, false), SkillAction::Unchanged);
    assert_eq!(skill_file("skills", "validate-ci"), "skills/validate-ci/SKILL.md");
}

#[test]
fn cloud_registration_text() {
    assert_eq!(cloud_project_config("acme"), "backend = \"cloud\"\n\n[cloud]\norg = \"acme\"\n");
    let items = org_items(&[("Acme".to_string(), "acme".to_string())]);
    assert_eq!(items, vec!["No, skip".to_string(), "Acme (acme)".to_string()]);
    assert_eq!(chosen_org(0, 1), None);
    assert_eq!(chosen_org(1, 1), Some(0));
}

#[test]
fn workflow_files_by_extension() {
    assert!(is_workflow_file("ci.yml"));
    assert!(is_workflow_file("release.yaml"));
    assert!(!is_workflow_file(".yml"));
    assert!(!is_workflow_file("notes.md"));
    assert!(!is_workflow_file("yml"));
}

fn c(id: &str, slug: Option<&str>, session: Option<&str>) -> ContainerInfo {
    ContainerInfo {
        id: Some(id.to_string()),
        slug: slug.map(str::to_string),
        session: session.map(str::to_string),
        name: Some(format!("/{id}")),
        state: Some("running".to_string()),
    }
}

#[test]
fn selectors_pick_matching_containers() {
    let cs = vec![c("1", Some("db"), Some("s1")), c("2", Some("db"), Some("s2")), c("3", None, Some("s1")), c("4", Some("web"), None)];
    let running = Selector::Running { slug: "db".into(), session: None };
    assert_eq!(select_containers(&cs, &running), vec![0, 1]);
    let one = Selector::Running { slug: "db".into(), session: Some("s2".into()) };
    assert_eq!(select_containers(&cs, &one), vec![1]);
    let unlabeled = Selector::Serving { slug: "".into(), session: None };
    assert_eq!(select_containers(&cs, &unlabeled), vec![2]);
    assert!(select_containers(&cs, &Selector::Running { slug: "".into(), session: None }).is_empty());
    let sweep = Selector::Sweep { slugs: vec![], session: Some("s1".into()) };
    assert_eq!(select_containers(&cs, &sweep), vec![0, 2]);
    let sweep_web = Selector::Sweep { slugs: vec!["web".into()], session: None };
    assert_eq!(select_containers(&cs, &sweep_web), vec![3]);
    let mut no_id = c("5", Some("db"), None);
    no_id.id = None;
    assert!(select_containers(&vec![no_id], &running).is_empty());
}

#[test]
fn attach_needs_exactly_one() {
    assert_eq!(attach_target("db", &vec![3]).unwrap(), 3);
    let e = attach_target("db", &vec![]).unwrap_err();
    assert_eq!(e.exit_code(), 4);
    assert_eq!(e.message(), "hm: slug `db` is not running in this worktree.\n  \u{2192} run `hm dev up db` first.");
    let e = attach_target("db", &vec![1, 2]).unwrap_err();
    assert!(matches!(e, AttachError::Ambiguous(_)));
    assert_eq!(e.exit_code(), 5);
    assert_eq!(exec_command(&vec![]), vec!["sh", "-l"]);
    assert_eq!(exec_command(&vec!["ls".into(), "-a".into()]), vec!["ls", "-a"]);
}

#[test]
fn ports_are_listed_sorted() {
    assert_eq!(format_ports(&vec![(8080, 49153), (5432, 49152)]), "localhost:49152 \u{2192} :5432, localhost:49153 \u{2192} :8080");
    assert_eq!(format_ports(&vec![]), "");
    assert_eq!(session_ports_line("s1", &vec![(80, 1)]), "  s1  localhost:1 \u{2192} :80");
    assert_eq!(ready_line("db", "hm-a-db-s", &vec![]), "[db] ready  ( hm-a-db-s )");
    assert_eq!(ready_line("db", "n", &vec![(5432, 40000)]), "[db] ready  ( n | localhost:40000 \u{2192} :5432 )");
}

#[test]
fn port_of_outcomes() {
    assert!(port_of_lookup("db", 1, false).is_ok());
    let e = port_of_lookup("db", 0, true).unwrap_err();
    assert_eq!(e.exit_code(), 4);
    assert!(e.message().contains("registered but not running"));
    let e = port_of_lookup("db", 0, false).unwrap_err();
    assert_eq!(e.exit_code(), 5);
    assert!(e.message().contains("not registered in this worktree's .harmont/."));
    let e = port_of_lookup("db", 2, true).unwrap_err();
    assert!(matches!(e, PortOfError::Ambiguous(_)));
    assert_eq!(PORT_OF_SESSION_HINT, "pass `--session <id>` or run `hm dev ls`.");
    assert_eq!(published_port("db", 5432, &vec![(80, 1), (5432, 49152)]).unwrap(), 49152);
    let e = published_port("db", 9999, &vec![(80, 1)]).unwrap_err();
    assert_eq!(e.message(), "hm: container port `9999` is not published by `db`.\n  \u{2192} check the deployment's port_mapping.");
    assert_eq!(e.exit_code(), 5);
}

fn spec(image: Option<&str>, from: Option<FromSource>) -> LocalSpec {
    LocalSpec {
        image: image.map(str::to_string),
        from,
        cmd: None,
        port_mapping: StrMap::new(),
        env: StrMap::new(),
        volumes: StrMap::new(),
        workdir: None,
        deps: vec![],
    }
}

#[test]
fn image_plans() {
    assert!(matches!(image_plan("db", &spec(Some("postgres:16"), None), "h").unwrap(), ImagePlan::Pull(ref t) if t == "postgres:16"));
    let chain = FromSource::StepChain { pipeline_v0: "{}".into(), terminal_key: Some("abc".into()) };
    assert!(matches!(image_plan("api", &spec(None, Some(chain)), "h1").unwrap(), ImagePlan::Build(ref t) if t == "hm-build-h1-api:abc"));
    let chain = FromSource::StepChain { pipeline_v0: "{}".into(), terminal_key: None };
    assert!(matches!(image_plan("api", &spec(None, Some(chain)), "h1").unwrap(), ImagePlan::Build(ref t) if t == "hm-build-h1-api:nocache"));
    let e = image_plan("x", &spec(None, None), "h").unwrap_err();
    assert!(matches!(e, UpError::NoImageSource(_)));
    assert_eq!(e.message(), "deployment `x` has neither image= nor from_=; registry-dump bug?");
    assert!(needs_build(true, true));
    assert!(needs_build(false, false));
    assert!(!needs_build(false, true));
}

#[test]
fn slug_column_width() {
    assert_eq!(slug_width(&vec![]), 4);
    assert_eq!(slug_width(&vec!["db".into()]), 2);
    assert_eq!(slug_width(&vec!["db".into(), "frontend".into(), "api".into()]), 8);
    assert_eq!(slug_width(&vec!["é".into()]), 2);
}

#[test]
fn down_sweeps_sessions_and_networks() {
    let cs = vec![c("1", Some("db"), Some("s2")), c("2", Some("api"), Some("s1")), c("3", Some("web"), None), c("4", Some("x"), Some("s2"))];
    let picked = vec![0, 1, 3];
    let sessions = swept_sessions(&cs, &picked);
    assert_eq!(sessions, vec!["s2", "s1", "s2"]);
    assert_eq!(sweep_networks("h", &sessions, false), vec!["hm-h-s1", "hm-h-s2"]);
    assert!(sweep_networks("h", &sessions, true).is_empty());
    assert_eq!(swept_sessions(&cs, &vec![2]), vec![""]);
}

#[test]
fn ls_table_rows() {
    let mut deployments = StrMap::new();
    deployments.insert("db".to_string(), RegEntry::Local(spec(Some("pg"), None)));
    deployments.insert("api".to_string(), RegEntry::Local(spec(Some("node"), None)));
    deployments.insert("edge".to_string(), RegEntry::Unhandled);
    let reg = DevRegistry { schema_version: "0".into(), worktree: "/w".into(), deployments };
    let running = vec![RunningEntry { slug: "db".into(), session: "s1".into(), state: "running".into(), ports: vec![(5432, 40000)] }];
    let rows = ls_rows(&reg, &running);
    assert_eq!(
        rows,
        vec![
            "api        local    \u{2014}          registered \u{2014}".to_string(),
            "db         local    s1         running    localhost:40000 \u{2192} :5432".to_string(),
            "edge       ?        \u{2014}          registered (no local driver)".to_string(),
        ]
    );
    assert_eq!(ls_header(), "SLUG       DRIVER   SESSION    STATUS     PORTS");
}

#[test]
fn cli_values_carry_arguments() {
    let cmd = DevCommand::Exec(DevExecArgs { slug: "db".into(), cmd: vec![], session: None });
    assert!(matches!(cmd, DevCommand::Exec(ref a) if a.slug == "db"));
    assert_eq!(PluginCommand::List, PluginCommand::List);
    let r = RunArgs {
        pipeline: None,
        branch: None,
        message: None,
        env: vec![],
        dir: None,
        no_watch: false,
        parallelism: None,
        format: "human".into(),
        logs: false,
        backend: None,
        cloud: false,
        org: None,
        keep_going: false,
    };
    assert_eq!(r.format, "human");
}

#[test]
fn plugin_environment_and_output_mode() {
    let vars = vec![
        ("HARMONT_TOKEN".to_string(), "a".to_string()),
        ("PATH".to_string(), "/bin".to_string()),
        ("HARMONT_TOKEN".to_string(), "b".to_string()),
        ("HARMONT".to_string(), "x".to_string()),
    ];
    let env = plugin_env(&vars);
    assert_eq!(env.len(), 1);
    assert_eq!(env.get("HARMONT_TOKEN").unwrap(), "b");
    assert_eq!(output_mode_for(true, true, true), OutputMode::Human { color: false, interactive: true });
    assert_eq!(output_mode_for(false, true, false), OutputMode::Human { color: true, interactive: false });
}
