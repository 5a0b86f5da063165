use hm::config::{config_path_from, user_config_dir_from, ConfigError};
use hm::dirs::{
    cache_dir_from, config_dir_from, find_project_root, first_marked_ancestor, hm_cache_dir, hm_cache_dir_from, hm_config_dir,
    hm_config_dir_from, hm_workspace_cache_dir, hm_workspace_cache_dir_from, home_from,
};
use hm::path::{components_of, join_text, parent_string, text_ends_with, AbsPath, AbsPathBuf, Component, RelPath, RelPathBuf};

#[test]
fn hm_config_dir_under_config() {
    let p = hm_config_dir().unwrap();
    assert!(p.ends_with("hm"), "expected path ending in 'hm', got {p:?}");
    let parent = p.parent().unwrap();
    assert!(
        parent.ends_with(".config") || parent.ends_with("AppData/Roaming"),
        "unexpected parent: {parent:?}"
    );
}

#[test]
fn hm_cache_dir_under_cache() {
    let p = hm_cache_dir().unwrap();
    assert!(p.ends_with("hm"), "expected path ending in 'hm', got {p:?}");
}

#[test]
fn hm_workspace_cache_dir_resolves() {
    let p = hm_workspace_cache_dir().unwrap();
    assert!(p.ends_with("hm/workspaces"), "got {p:?}");
}

#[test]
fn home_from_keeps_only_absolute_paths() {
    let h = home_from(Some("/home/u".to_string())).unwrap();
    assert_eq!(h.into_path_buf(), "/home/u");
    assert!(home_from(Some("relative/home".to_string())).is_none());
    assert!(home_from(None).is_none());
}

#[test]
fn abs_path_rejects_relative() {
    assert!(AbsPath::new("/a/b").is_some());
    assert!(AbsPath::new("a/b").is_none());
    assert!(AbsPathBuf::new("".to_string()).is_none());
}

#[test]
fn abs_join_appends_or_replaces() {
    let p = AbsPath::new("/a/b").unwrap();
    assert_eq!(p.join("c").into_path_buf(), "/a/b/c");
    assert_eq!(p.join("/x/y").into_path_buf(), "/x/y");
    assert_eq!(join_text("/a/", "c"), "/a/c");
}

#[test]
fn abs_parent_walks_up_to_root() {
    let p = AbsPath::new("/a/b").unwrap();
    let parent = p.parent().unwrap();
    assert_eq!(parent.as_path(), "/a");
    let root = parent.parent().unwrap();
    assert_eq!(root.as_path(), "/");
    assert!(root.parent().is_none());
    assert_eq!(parent_string("/a/b/").as_deref(), Some("/a"));
}

#[test]
fn abs_ends_with_whole_components() {
    let p = AbsPathBuf::new("/home/u/.config/hm".to_string()).unwrap();
    assert!(p.ends_with("hm"));
    assert!(p.ends_with(".config/hm"));
    assert!(!p.ends_with("m"));
    assert!(!text_ends_with("/a/bc", "c"));
}

#[test]
fn components_split_on_separators() {
    let c = components_of("/a//b/./c");
    assert_eq!(c.len(), 4);
    assert!(matches!(c[0], Component::RootDir));
    let rel = RelPath::new("x/y").unwrap();
    assert_eq!(rel.components().len(), 2);
    assert!(RelPath::new("/x").is_none());
    assert_eq!(rel.join("z"), "x/y/z");
    let owned = RelPathBuf::new("x".to_string()).unwrap();
    assert_eq!(owned.as_rel_path().as_path(), "x");
}

#[test]
fn find_project_root_stays_within_ancestors() {
    let start = AbsPath::new("/nonexistent-hm-test-dir/a/b").unwrap();
    if let Some(root) = find_project_root(start) {
        let text = root.into_path_buf();
        assert!("/nonexistent-hm-test-dir/a/b".starts_with(text.as_str()));
    }
}

fn home() -> Option<AbsPathBuf> {
    AbsPathBuf::new("/home/u".to_string())
}

fn text(p: Option<AbsPathBuf>) -> Option<String> {
    p.map(|p| p.into_path_buf())
}

#[test]
fn platform_dirs_follow_the_home() {
    assert_eq!(text(config_dir_from(home())).as_deref(), Some("/home/u/.config"));
    assert_eq!(text(cache_dir_from(home())).as_deref(), Some("/home/u/.cache"));
    assert_eq!(text(hm_config_dir_from(home())).as_deref(), Some("/home/u/.config/hm"));
    assert_eq!(text(hm_cache_dir_from(home())).as_deref(), Some("/home/u/.cache/hm"));
    assert_eq!(text(hm_workspace_cache_dir_from(home())).as_deref(), Some("/home/u/.cache/hm/workspaces"));
    assert!(config_dir_from(None).is_none());
    assert!(cache_dir_from(None).is_none());
    assert!(hm_config_dir_from(None).is_none());
    assert!(hm_cache_dir_from(None).is_none());
    assert!(hm_workspace_cache_dir_from(None).is_none());
}

#[test]
fn harmont_config_paths_follow_the_home() {
    assert_eq!(user_config_dir_from(home()).unwrap().into_path_buf(), "/home/u/.harmont");
    assert_eq!(config_path_from(home()).unwrap().into_path_buf(), "/home/u/.harmont/config.toml");
    assert!(matches!(user_config_dir_from(None), Err(ConfigError::NoHome)));
    assert!(matches!(config_path_from(None), Err(ConfigError::NoHome)));
}

#[test]
fn first_marked_ancestor_takes_the_nearest() {
    let start = AbsPath::new("/a/b/c").unwrap();
    assert_eq!(text(first_marked_ancestor(start, &vec![true])).as_deref(), Some("/a/b/c"));
    assert_eq!(text(first_marked_ancestor(start, &vec![false, true, true])).as_deref(), Some("/a/b"));
    assert_eq!(text(first_marked_ancestor(start, &vec![false, false, false, true])).as_deref(), Some("/"));
    assert!(first_marked_ancestor(start, &vec![false, false, false, false]).is_none());
    assert!(first_marked_ancestor(start, &vec![]).is_none());
}

/// Creates the directory `parent/name`, removed again when dropped.
fn subdir(parent: &std::path::Path, name: &str) -> tempfile::TempDir {
    tempfile::Builder::new().prefix(name).rand_bytes(0).tempdir_in(parent).unwrap()
}

#[test]
fn find_project_root_at_current_dir() {
    let tmp = tempfile::tempdir().unwrap();
    let _marker = subdir(tmp.path(), ".hm");
    let dir = tmp.path().to_str().unwrap();
    let found = find_project_root(AbsPath::new(dir).unwrap());
    assert_eq!(text(found).as_deref(), Some(dir));
}

#[test]
fn find_project_root_walks_up() {
    let tmp = tempfile::tempdir().unwrap();
    let _marker = subdir(tmp.path(), ".hm");
    let src = subdir(tmp.path(), "src");
    let deep = subdir(src.path(), "deep");
    let found = find_project_root(AbsPath::new(deep.path().to_str().unwrap()).unwrap());
    assert_eq!(text(found).as_deref(), tmp.path().to_str());
}

#[test]
fn find_project_root_returns_none_when_missing() {
    let tmp = tempfile::tempdir().unwrap();
    let found = find_project_root(AbsPath::new(tmp.path().to_str().unwrap()).unwrap());
    assert!(found.is_none());
}

#[test]
fn file_name_is_the_last_plain_component() {
    assert_eq!(AbsPath::new("/a/b.txt").unwrap().file_name().as_deref(), Some("b.txt"));
    assert_eq!(AbsPath::new("/a/b/").unwrap().file_name().as_deref(), Some("b"));
    assert!(AbsPath::new("/").unwrap().file_name().is_none());
    assert_eq!(RelPath::new("x/y").unwrap().file_name().as_deref(), Some("y"));
    assert!(RelPath::new("x/..").unwrap().file_name().is_none());
}
