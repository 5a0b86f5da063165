use sha2::Digest;
use hm::cache::{content_hash, tag_from_tar_name, tar_name_for_tag, Manifest};
use hm::config::{Config, ConfigError, DEFAULT_API_URL};
use hm::cow::{detect_strategy_given, lowerdir_text, mount_failure_message, overlay_options, platform_clone_commands, CowStrategy, OverlayMount, Platform};
use hm::fsplan::{file_name, needs_chmod, write_parent, write_temp_path, DirMode, WritePlanError};

#[test]
fn tar_name_tag_round_trip() {
    assert_eq!(tar_name_for_tag("harmont-local/base:a1b2c3d4"), "base--a1b2c3d4.tar");
    assert_eq!(tag_from_tar_name("base--a1b2c3d4.tar"), Some("harmont-local/base:a1b2c3d4".to_string()));
}

#[test]
fn tag_from_bad_filename_returns_none() {
    assert_eq!(tag_from_tar_name("random-file.tar"), None);
    assert_eq!(tag_from_tar_name("no-extension"), None);
}

#[test]
fn tar_name_without_local_prefix_and_many_colons() {
    assert_eq!(tar_name_for_tag("other/x:1:2"), "other/x--1--2.tar");
    assert_eq!(tag_from_tar_name("a--b--c.tar"), Some("harmont-local/a:b--c".to_string()));
}

#[test]
fn manifest_content_hash_is_deterministic() {
    let mut m = Manifest::new();
    m.images.insert("step1".to_string(), "harmont-local/step1:deadbeef".to_string());
    assert_eq!(m.version, 1);
    let json = r#"{"version":1,"images":{"step1":"harmont-local/step1:deadbeef"}}"#;
    let h1 = content_hash(json);
    let h2 = content_hash(json);
    assert_eq!(h1, h2);
    assert_eq!(h1.len(), 16);
    assert!(h1.chars().all(|c| c.is_ascii_hexdigit()));
}

#[test]
fn content_hash_is_sha256_prefix() {
    let d = sha2::Sha256::digest(b"{}");
    let expected: String = d[..8].iter().map(|b| format!("{b:02x}")).collect();
    assert_eq!(content_hash("{}"), expected);
    assert_ne!(content_hash("{}"), content_hash("{ }"));
}

#[test]
fn config_defaults_to_public_api() {
    let c = Config::default();
    assert_eq!(c.api_url(), DEFAULT_API_URL);
    let c = Config { api_url: Some("http://localhost:4000".into()), ..Config::default() };
    assert_eq!(c.api_url(), "http://localhost:4000");
    assert_eq!(ConfigError::NoHome.message(), "could not determine home directory");
    if let Ok(p) = Config::path() {
        assert!(p.ends_with(".harmont/config.toml"));
    }
}

#[test]
fn cow_strategy_by_platform() {
    assert_eq!(detect_strategy_given(Platform::MacOs, false), CowStrategy::ApfsClone);
    assert_eq!(detect_strategy_given(Platform::Linux, true), CowStrategy::Reflink);
    assert_eq!(detect_strategy_given(Platform::Linux, false), CowStrategy::FullCopy);
    assert_eq!(detect_strategy_given(Platform::Other, true), CowStrategy::FullCopy);
}

#[test]
fn overlay_mount_options() {
    let lower = vec!["/a".to_string(), "/b".to_string()];
    assert_eq!(lowerdir_text(&lower), "/a:/b");
    assert_eq!(overlay_options(&lower, "/u", "/w"), "lowerdir=/a:/b,upperdir=/u,workdir=/w");
    assert_eq!(
        mount_failure_message(Some(1), "bad", "/a", "/u", "/m"),
        "fuse-overlayfs mount failed (exit 1): bad\nlowerdir=/a, upper=/u, merged=/m"
    );
    assert_eq!(platform_clone_commands(Platform::Linux).len(), 2);
}

#[test]
fn overlay_unmounts_once() {
    let mut m = OverlayMount::mounted_at("/m".into(), "/u".into());
    assert_eq!(m.merged_path(), "/m");
    assert_eq!(m.upper_dir(), "/u");
    assert!(m.begin_unmount());
    assert!(!m.begin_unmount());
}

#[test]
fn atomic_write_plan() {
    assert_eq!(write_parent("/etc/hm/creds.toml").unwrap(), "/etc/hm");
    assert_eq!(write_temp_path("/etc/hm/creds.toml", "/etc/hm", 42).unwrap(), "/etc/hm/creds.toml.tmp.42");
    let err = write_parent("/").unwrap_err();
    assert!(matches!(err, WritePlanError::NoParent(_)));
    assert_eq!(err.message(), "/ has no parent directory");
    let err = write_temp_path("/etc/..", "/etc", 1).unwrap_err();
    assert_eq!(err.message(), "/etc/.. has no file name");
    assert_eq!(file_name("a/b.txt").as_deref(), Some("b.txt"));
    assert!(needs_chmod(0o40755, DirMode(0o700)));
    assert!(!needs_chmod(0o40700, DirMode(0o700)));
}

#[test]
fn detect_strategy_returns_something() {
    for p in [Platform::MacOs, Platform::Linux, Platform::Other] {
        for r in [false, true] {
            assert!(!matches!(detect_strategy_given(p, r), CowStrategy::FuseOverlay));
        }
    }
}
