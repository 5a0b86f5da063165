//! Where `hm` keeps its files: configuration under `~/.config/hm/`,
//! regenerable cache under `~/.cache/hm/`, and the project root found by
//! walking up to a directory that holds `.hm/`.
//!
//! The platform roots are deliberately `~/.config` and `~/.cache` rather
//! than `$XDG_CONFIG_HOME` / `$XDG_CACHE_HOME`, so both stay predictable.

use vstd::prelude::*;

use crate::path::{ancestors, is_abs, joined, lemma_ancestor_step, AbsPath, AbsPathBuf};

verus! {

/// `dirs::home_dir`: the invoking user's home directory (from `$HOME` or
/// the password database), as text when it is valid UTF-8. Nothing is
/// stated of the answer: it depends on the environment.
#[verifier::external_body]
fn platform_home() -> Option<String> {
    match dirs::home_dir() {
        Some(p) => p.to_str().map(|s| s.to_owned()),
        None => None,
    }
}

/// The home directory the platform reported, when it is absolute.
pub fn home_from(raw: Option<String>) -> (r: Option<AbsPathBuf>)
    ensures
        match raw {
            Some(h) => if is_abs(h@) {
                r matches Some(p) && p.text() == h@
            } else {
                r is None
            },
            None => r is None,
        },
{
    match raw {
        Some(h) => AbsPathBuf::new(h),
        None => None,
    }
}

/// The invoking user's home directory.
pub fn home_dir() -> (r: Option<AbsPathBuf>)
    ensures
        r matches Some(p) ==> is_abs(p.text()),
{
    home_from(platform_home())
}

/// `home/.config`.
pub open spec fn config_under(home: Seq<char>) -> Seq<char> {
    joined(home, ".config"@)
}

/// `home/.cache`.
pub open spec fn cache_under(home: Seq<char>) -> Seq<char> {
    joined(home, ".cache"@)
}

/// `home/.config` for a known home; nothing when the home is unknown.
pub fn config_dir_from(home: Option<AbsPathBuf>) -> (r: Option<AbsPathBuf>)
    ensures
        match home {
            Some(h) => r matches Some(p) && p.text() == config_under(h.text()) && is_abs(p.text()),
            None => r is None,
        },
{
    match home {
        Some(h) => Some(h.join(".config")),
        None => None,
    }
}

/// `home/.cache` for a known home; nothing when the home is unknown.
pub fn cache_dir_from(home: Option<AbsPathBuf>) -> (r: Option<AbsPathBuf>)
    ensures
        match home {
            Some(h) => r matches Some(p) && p.text() == cache_under(h.text()) && is_abs(p.text()),
            None => r is None,
        },
{
    match home {
        Some(h) => Some(h.join(".cache")),
        None => None,
    }
}

/// `home/.config/hm` for a known home; nothing when the home is unknown.
pub fn hm_config_dir_from(home: Option<AbsPathBuf>) -> (r: Option<AbsPathBuf>)
    ensures
        match home {
            Some(h) => r matches Some(p) && p.text() == joined(config_under(h.text()), "hm"@) && is_abs(p.text()),
            None => r is None,
        },
{
    match config_dir_from(home) {
        Some(c) => Some(c.join("hm")),
        None => None,
    }
}

/// `home/.cache/hm` for a known home; nothing when the home is unknown.
pub fn hm_cache_dir_from(home: Option<AbsPathBuf>) -> (r: Option<AbsPathBuf>)
    ensures
        match home {
            Some(h) => r matches Some(p) && p.text() == joined(cache_under(h.text()), "hm"@) && is_abs(p.text()),
            None => r is None,
        },
{
    match cache_dir_from(home) {
        Some(c) => Some(c.join("hm")),
        None => None,
    }
}

/// `home/.cache/hm/workspaces` for a known home; nothing when the home is
/// unknown.
pub fn hm_workspace_cache_dir_from(home: Option<AbsPathBuf>) -> (r: Option<AbsPathBuf>)
    ensures
        match home {
            Some(h) => r matches Some(p) && p.text() == joined(joined(cache_under(h.text()), "hm"@), "workspaces"@)
                && is_abs(p.text()),
            None => r is None,
        },
{
    match hm_cache_dir_from(home) {
        Some(c) => Some(c.join("workspaces")),
        None => None,
    }
}

/// The platform configuration root, `~/.config`: `config_dir_from` applied
/// to the home the platform reports.
pub fn config_dir() -> (r: Option<AbsPathBuf>)
    ensures
        r matches Some(p) ==> exists|h: Seq<char>| is_abs(h) && p.text() == #[trigger] config_under(h),
{
    config_dir_from(home_dir())
}

/// The platform cache root, `~/.cache`: `cache_dir_from` applied to the
/// home the platform reports.
pub fn cache_dir() -> (r: Option<AbsPathBuf>)
    ensures
        r matches Some(p) ==> exists|h: Seq<char>| is_abs(h) && p.text() == #[trigger] cache_under(h),
{
    cache_dir_from(home_dir())
}

/// `~/.config/hm/` — user config root (`config.toml`, `credentials.toml`):
/// `hm_config_dir_from` applied to the home the platform reports.
pub fn hm_config_dir() -> (r: Option<AbsPathBuf>)
    ensures
        r matches Some(p) ==> exists|h: Seq<char>| is_abs(h) && p.text() == joined(#[trigger] config_under(h), "hm"@),
{
    hm_config_dir_from(home_dir())
}

/// `~/.cache/hm/` — local build cache root (regenerable):
/// `hm_cache_dir_from` applied to the home the platform reports.
pub fn hm_cache_dir() -> (r: Option<AbsPathBuf>)
    ensures
        r matches Some(p) ==> exists|h: Seq<char>| is_abs(h) && p.text() == joined(#[trigger] cache_under(h), "hm"@),
{
    hm_cache_dir_from(home_dir())
}

/// `~/.cache/hm/workspaces/` — COW workspace cache root:
/// `hm_workspace_cache_dir_from` applied to the home the platform reports.
pub fn hm_workspace_cache_dir() -> (r: Option<AbsPathBuf>)
    ensures
        r matches Some(p) ==> exists|h: Seq<char>|
            is_abs(h) && p.text() == joined(joined(#[trigger] cache_under(h), "hm"@), "workspaces"@),
{
    hm_workspace_cache_dir_from(home_dir())
}

/// Position `k` of `marked` is set and none before it is.
pub open spec fn first_marked_at(marked: Seq<bool>, k: int) -> bool {
    0 <= k < marked.len() && marked[k] && forall|j: int| 0 <= j < k ==> !marked[j]
}

/// The first of `start`'s ancestors (nearest first, `start` itself at
/// position 0) whose position in `marked` is set; nothing when no position
/// is set.
pub fn first_marked_ancestor(start: AbsPath<'_>, marked: &Vec<bool>) -> (r: Option<AbsPathBuf>)
    requires
        marked@.len() <= ancestors(start.text()).len(),
    ensures
        match r {
            Some(p) => is_abs(p.text()) && exists|k: int|
                first_marked_at(marked@, k) && p.text() == #[trigger] ancestors(start.text())[k],
            None => forall|k: int| 0 <= k < marked@.len() ==> !marked@[k],
        },
{
    let ghost anc = ancestors(start.text());
    if marked.len() == 0 {
        return None;
    }
    let mut current = start;
    let mut k: usize = 0;
    proof {
        assert(anc[0] == start.text());
    }
    loop
        invariant
            anc == ancestors(start.text()),
            marked@.len() <= anc.len(),
            k < marked@.len(),
            current.text() == anc[k as int],
            forall|j: int| 0 <= j < k ==> !marked@[j],
        decreases marked@.len() - k,
    {
        if marked[k] {
            let p = current.to_abs_path_buf();
            proof {
                assert(first_marked_at(marked@, k as int));
            }
            return Some(p);
        }
        if k == marked.len() - 1 {
            return None;
        }
        proof {
            lemma_ancestor_step(start.text(), k as int);
        }
        match current.parent() {
            Some(p) => {
                current = p;
            },
            None => {
                return None;
            },
        }
        k = k + 1;
    }
}

/// Walk up from `start` looking for a directory containing `.hm/`.
/// Returns the project root (the directory containing `.hm/`), or `None`
/// if the filesystem root is reached without finding one.
///
/// For `start` and then each ancestor in turn, nearest first, the disk is
/// asked whether `<ancestor>/.hm` is a directory; the walk stops at the
/// first yes, and the answers are handed to `first_marked_ancestor`. The
/// answers themselves come from the disk, so this contract states only
/// what holds whatever they are.
pub fn find_project_root(start: AbsPath<'_>) -> (r: Option<AbsPathBuf>)
    ensures
        r matches Some(p) ==> ancestors(start.text()).contains(p.text()) && is_abs(p.text()),
{
    let ghost anc = ancestors(start.text());
    let mut current = start;
    let mut marked: Vec<bool> = Vec::new();
    proof {
        assert(anc[0] == start.text());
    }
    loop
        invariant_except_break
            marked@.len() < anc.len(),
            current.text() == anc[marked@.len() as int],
        invariant
            anc == ancestors(start.text()),
        ensures
            marked@.len() <= anc.len(),
        decreases anc.len() - marked@.len(),
    {
        let marker = current.join(".hm");
        let hit = marker.is_dir();
        proof {
            lemma_ancestor_step(start.text(), marked@.len() as int);
        }
        marked.push(hit);
        if hit {
            break;
        }
        match current.parent() {
            Some(p) => {
                current = p;
            },
            None => {
                break;
            },
        }
    }
    let r = first_marked_ancestor(start, &marked);
    proof {
        if r is Some {
            let t = r->0.text();
            let k = choose|k: int| first_marked_at(marked@, k) && t == #[trigger] anc[k];
            assert(anc.contains(t)) by {
                assert(0 <= k < anc.len() && anc[k] == t);
            }
        }
    }
    r
}

} // verus!
