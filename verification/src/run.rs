//! The parsing and decisions behind `hm run`: repository names from git
//! remotes, the default branch, `KEY=VALUE` pairs, git metadata fallbacks,
//! parallelism, and how backend errors are explained and mapped to exit
//! categories.

use vstd::prelude::*;

use crate::size::{mb, mb_text};
use crate::smap::StrMap;
use crate::text::{
    chars_of, find_from, first_index, first_index_of, first_occurrence_from, lemma_first_index, occurs_at, push_chars,
    push_str, slice, string_of, trim, trimmed,
};

verus! {

// ---------------------------------------------------------------------
// Repository names.
// ---------------------------------------------------------------------

/// `s` after the first occurrence of `p`, if `p` occurs.
pub open spec fn after_first(s: Seq<char>, p: Seq<char>) -> Option<Seq<char>> {
    if exists|i: int| #[trigger] first_occurrence_from(s, p, 0, i) {
        let i = choose|i: int| #[trigger] first_occurrence_from(s, p, 0, i);
        Some(s.subrange(i + p.len(), s.len() as int))
    } else {
        None
    }
}

/// `s` after its first `c`, if any.
pub open spec fn after_char(s: Seq<char>, c: char) -> Option<Seq<char>> {
    let i = first_index_of(s, c);
    if i >= 0 {
        Some(s.subrange(i + 1, s.len() as int))
    } else {
        None
    }
}

/// `o`'s text, or `d` when there is none.
pub open spec fn or_else(o: Option<Seq<char>>, d: Seq<char>) -> Seq<char> {
    match o {
        Some(x) => x,
        None => d,
    }
}

/// The path part of a remote URL: after `scheme://host/`, after the
/// `user@host:` of scp syntax, or after the first `/`.
pub open spec fn remote_path(url: Seq<char>) -> Seq<char> {
    match after_first(url, "://"@) {
        Some(rest) => or_else(after_char(rest, '/'), rest),
        None => if first_index_of(url, '@') >= 0 && first_index_of(url, ':') >= 0 {
            let after_at = or_else(after_char(url, '@'), url);
            or_else(after_char(after_at, ':'), after_at)
        } else {
            or_else(after_char(url, '/'), url)
        },
    }
}

/// `s` without trailing `/`s.
pub open spec fn trim_slashes(s: Seq<char>) -> Seq<char>
    decreases s.len(),
{
    if s.len() > 0 && s.last() == '/' {
        trim_slashes(s.drop_last())
    } else {
        s
    }
}

/// `s` without one trailing `.git`.
pub open spec fn strip_git(s: Seq<char>) -> Seq<char> {
    if s.len() >= 4 && s.subrange(s.len() - 4, s.len() as int) == ".git"@ {
        s.subrange(0, s.len() - 4)
    } else {
        s
    }
}

/// Reading `s` so far: the non-empty `/`-separated segments finished, and
/// the segment being read.
pub open spec fn seg_scan(s: Seq<char>) -> (Seq<Seq<char>>, Seq<char>)
    decreases s.len(),
{
    if s.len() == 0 {
        (Seq::empty(), Seq::empty())
    } else {
        let prev = seg_scan(s.drop_last());
        if s.last() == '/' {
            (if prev.1.len() > 0 { prev.0.push(prev.1) } else { prev.0 }, Seq::empty())
        } else {
            (prev.0, prev.1.push(s.last()))
        }
    }
}

/// The non-empty `/`-separated segments of `s`.
pub open spec fn segments(s: Seq<char>) -> Seq<Seq<char>> {
    let r = seg_scan(s);
    if r.1.len() > 0 {
        r.0.push(r.1)
    } else {
        r.0
    }
}

/// `owner/repo` of a git remote URL: drop scheme and host (or the scp
/// `user@host:` prefix), trailing slashes and one `.git`, then take the last
/// two non-empty path segments; none when fewer than two remain.
pub open spec fn repo_name_of(url: Seq<char>) -> Option<Seq<char>> {
    let segs = segments(strip_git(trim_slashes(remote_path(trimmed(url)))));
    if segs.len() < 2 {
        None
    } else {
        Some(segs[segs.len() - 2] + "/"@ + segs[segs.len() - 1])
    }
}

fn after_char_exec(s: &Vec<char>, c: char) -> (r: Option<Vec<char>>)
    ensures
        match r {
            Some(v) => after_char(s@, c) == Some(v@),
            None => after_char(s@, c) is None,
        },
{
    let n = s.len();
    match first_index(s, c) {
        Some(i) => Some(slice(s, i + 1, n)),
        None => None,
    }
}

fn or_else_exec(o: Option<Vec<char>>, d: &Vec<char>) -> (r: Vec<char>)
    ensures
        r@ == or_else(
            match o {
                Some(v) => Some(v@),
                None => None,
            },
            d@,
        ),
{
    match o {
        Some(v) => v,
        None => d.clone(),
    }
}

fn remote_path_exec(url: &Vec<char>) -> (r: Vec<char>)
    ensures
        r@ == remote_path(url@),
{
    proof {
        reveal_strlit("://");
    }
    let sep = chars_of("://");
    match find_from(url, 0, &sep) {
        Some(i) => {
            proof {
                assert(first_occurrence_from(url@, sep@, 0, i as int));
                assert(after_first(url@, "://"@) == Some(url@.subrange(i + 3, url@.len() as int))) by {
                    let j = choose|j: int| #[trigger] first_occurrence_from(url@, sep@, 0, j);
                    if j < i {
                        assert(!occurs_at(url@, sep@, j));
                    } else if j > i {
                        assert(!occurs_at(url@, sep@, i as int));
                    }
                }
            }
            let n = url.len();
            assert(i + 3 <= n);
            let rest = slice(url, i + 3, n);
            let a = after_char_exec(&rest, '/');
            or_else_exec(a, &rest)
        },
        None => {
            proof {
                assert(!exists|j: int| #[trigger] first_occurrence_from(url@, sep@, 0, j));
            }
            let at = first_index(url, '@');
            let colon = first_index(url, ':');
            if at.is_some() && colon.is_some() {
                let a = after_char_exec(url, '@');
                let after_at = or_else_exec(a, url);
                let b = after_char_exec(&after_at, ':');
                or_else_exec(b, &after_at)
            } else {
                let a = after_char_exec(url, '/');
                or_else_exec(a, url)
            }
        },
    }
}

fn trim_slashes_exec(s: &Vec<char>) -> (r: Vec<char>)
    ensures
        r@ == trim_slashes(s@),
{
    let mut n = s.len();
    proof {
        assert(s@.subrange(0, s@.len() as int) =~= s@);
    }
    while n > 0 && s[n - 1] == '/'
        invariant
            n <= s@.len(),
            trim_slashes(s@) == trim_slashes(s@.subrange(0, n as int)),
        decreases n,
    {
        proof {
            assert(s@.subrange(0, n as int).drop_last() =~= s@.subrange(0, n - 1));
        }
        n = n - 1;
    }
    proof {
        assert(s@.subrange(0, s@.len() as int) =~= s@);
    }
    slice(s, 0, n)
}

fn strip_git_exec(s: &Vec<char>) -> (r: Vec<char>)
    ensures
        r@ == strip_git(s@),
{
    proof {
        reveal_strlit(".git");
    }
    let n = s.len();
    if n >= 4 && s[n - 4] == '.' && s[n - 3] == 'g' && s[n - 2] == 'i' && s[n - 1] == 't' {
        proof {
            assert(s@.subrange(n - 4, n as int) =~= ".git"@);
        }
        slice(s, 0, n - 4)
    } else {
        proof {
            if n >= 4 && s@.subrange(n - 4, n as int) == ".git"@ {
                assert(s@.subrange(n - 4, n as int)[0] == s@[n - 4]);
                assert(s@.subrange(n - 4, n as int)[1] == s@[n - 3]);
                assert(s@.subrange(n - 4, n as int)[2] == s@[n - 2]);
                assert(s@.subrange(n - 4, n as int)[3] == s@[n - 1]);
            }
        }
        s.clone()
    }
}

fn segments_exec(s: &Vec<char>) -> (r: Vec<Vec<char>>)
    ensures
        r@.map_values(|v: Vec<char>| v@) == segments(s@),
{
    let mut out: Vec<Vec<char>> = Vec::new();
    let mut cur: Vec<char> = Vec::new();
    let mut i: usize = 0;
    while i < s.len()
        invariant
            i <= s@.len(),
            out@.map_values(|v: Vec<char>| v@) == seg_scan(s@.subrange(0, i as int)).0,
            cur@ == seg_scan(s@.subrange(0, i as int)).1,
        decreases s@.len() - i,
    {
        proof {
            assert(s@.subrange(0, i + 1).drop_last() =~= s@.subrange(0, i as int));
        }
        if s[i] == '/' {
            if cur.len() > 0 {
                let ghost before = out@;
                let mut fresh: Vec<char> = Vec::new();
                std::mem::swap(&mut fresh, &mut cur);
                out.push(fresh);
                proof {
                    assert(out@.map_values(|v: Vec<char>| v@) =~= before.map_values(|v: Vec<char>| v@).push(
                        seg_scan(s@.subrange(0, i as int)).1,
                    ));
                }
            }
        } else {
            cur.push(s[i]);
        }
        i = i + 1;
    }
    proof {
        assert(s@.subrange(0, s@.len() as int) =~= s@);
    }
    if cur.len() > 0 {
        let ghost before = out@;
        out.push(cur);
        proof {
            assert(out@.map_values(|v: Vec<char>| v@) =~= before.map_values(|v: Vec<char>| v@).push(
                seg_scan(s@).1,
            ));
        }
    }
    out
}

/// Parse `owner/repo` from a git remote URL; `None` when fewer than two
/// path segments remain.
pub fn parse_repo_name(url: &str) -> (r: Option<String>)
    ensures
        match r {
            Some(s) => repo_name_of(url@) == Some(s@),
            None => repo_name_of(url@) is None,
        },
{
    let u = chars_of(url);
    let t = trim(&u);
    let p = remote_path_exec(&t);
    let p = trim_slashes_exec(&p);
    let p = strip_git_exec(&p);
    let segs = segments_exec(&p);
    let ghost sv = segs@.map_values(|v: Vec<char>| v@);
    let n = segs.len();
    if n < 2 {
        return None;
    }
    let mut out: Vec<char> = Vec::new();
    push_chars(&mut out, &segs[n - 2]);
    out.push('/');
    push_chars(&mut out, &segs[n - 1]);
    proof {
        reveal_strlit("/");
        assert(sv[n - 2] == segs@[n - 2]@);
        assert(out@ =~= sv[n - 2] + "/"@ + sv[n - 1]);
    }
    Some(string_of(&out))
}

/// The branch a `git symbolic-ref refs/remotes/origin/HEAD` line names:
/// the trimmed line after `refs/remotes/origin/`, when non-empty.
pub open spec fn default_branch_of(line: Seq<char>) -> Option<Seq<char>> {
    let t = trimmed(line);
    let p = "refs/remotes/origin/"@;
    if t.len() > p.len() && t.subrange(0, p.len() as int) == p {
        Some(t.subrange(p.len() as int, t.len() as int))
    } else {
        None
    }
}

/// Extract the default branch name from a `git symbolic-ref
/// refs/remotes/origin/HEAD` result (e.g. `refs/remotes/origin/main` →
/// `main`). `None` when the line is empty or lacks the expected prefix.
pub fn parse_default_branch(symbolic_ref: &str) -> (r: Option<String>)
    ensures
        match r {
            Some(s) => default_branch_of(symbolic_ref@) == Some(s@),
            None => default_branch_of(symbolic_ref@) is None,
        },
{
    proof {
        reveal_strlit("refs/remotes/origin/");
    }
    let u = chars_of(symbolic_ref);
    let t = trim(&u);
    let p = chars_of("refs/remotes/origin/");
    if t.len() > p.len() && crate::text::matches_at(&t, 0, &p) {
        proof {
            assert(t@.subrange(0, p@.len() as int) =~= p@);
        }
        let b = slice(&t, p.len(), t.len());
        Some(string_of(&b))
    } else {
        proof {
            if t@.len() > p@.len() && t@.subrange(0, p@.len() as int) == p@ {
                assert(occurs_at(t@, p@, 0));
            }
        }
        None
    }
}

// ---------------------------------------------------------------------
// Environment pairs and git metadata.
// ---------------------------------------------------------------------

/// The key and value of a `KEY=VALUE` pair, split at the first `=`.
pub open spec fn env_pair(p: Seq<char>) -> Option<(Seq<char>, Seq<char>)> {
    let i = first_index_of(p, '=');
    if i >= 0 {
        Some((p.subrange(0, i), p.subrange(i + 1, p.len() as int)))
    } else {
        None
    }
}

/// The map of `pairs`: each well-formed pair sets its key (later pairs win);
/// malformed ones are dropped.
pub open spec fn env_map(pairs: Seq<Seq<char>>) -> Map<Seq<char>, Seq<char>>
    decreases pairs.len(),
{
    if pairs.len() == 0 {
        Map::empty()
    } else {
        let m = env_map(pairs.drop_last());
        match env_pair(pairs.last()) {
            Some((k, v)) => m.insert(k, v),
            None => m,
        }
    }
}

/// The views of a string map's values.
pub open spec fn value_views(m: Map<Seq<char>, String>) -> Map<Seq<char>, Seq<char>> {
    m.map_values(|v: String| v@)
}

/// Parse `KEY=VALUE` pairs into a map, dropping malformed entries.
pub fn parse_env(pairs: &[String]) -> (m: StrMap<String>)
    ensures
        value_views(m.as_map()) == env_map(crate::text::views(pairs@)),
{
    let mut m: StrMap<String> = StrMap::new();
    proof {
        assert(value_views(m.as_map()) =~= env_map(crate::text::views(pairs@).subrange(0, 0)));
    }
    let mut i: usize = 0;
    while i < pairs.len()
        invariant
            i <= pairs@.len(),
            value_views(m.as_map()) == env_map(crate::text::views(pairs@).subrange(0, i as int)),
        decreases pairs@.len() - i,
    {
        let ghost vs = crate::text::views(pairs@);
        proof {
            assert(vs.subrange(0, i + 1).drop_last() =~= vs.subrange(0, i as int));
            assert(vs.subrange(0, i + 1).last() == pairs@[i as int]@);
        }
        let c = chars_of(pairs[i].as_str());
        let cn = c.len();
        match first_index(&c, '=') {
            Some(j) => {
                let k = string_of(&slice(&c, 0, j));
                let v = string_of(&slice(&c, j + 1, cn));
                let ghost before = m.as_map();
                let ghost kv = k@;
                let ghost vv = v@;
                m.insert(k, v);
                proof {
                    assert(value_views(m.as_map()) =~= value_views(before).insert(kv, vv));
                }
            },
            None => {},
        }
        i = i + 1;
    }
    proof {
        assert(crate::text::views(pairs@).subrange(0, pairs@.len() as int) =~= crate::text::views(pairs@));
    }
    m
}

/// The trimmed output of a git query, when it succeeded and is not empty.
pub open spec fn usable(out: Option<Seq<char>>) -> Option<Seq<char>> {
    match out {
        Some(o) => if trimmed(o).len() > 0 {
            Some(trimmed(o))
        } else {
            None
        },
        None => None,
    }
}

/// The branch: an explicit override when given (the current branch
/// otherwise), falling back to `HEAD` when empty.
pub open spec fn branch_of(branch_override: Option<Seq<char>>, current: Option<Seq<char>>) -> Seq<char> {
    let b = match branch_override {
        Some(o) => Some(o),
        None => match current {
            Some(c) => Some(trimmed(c)),
            None => None,
        },
    };
    match b {
        Some(x) => if x.len() > 0 {
            x
        } else {
            "HEAD"@
        },
        None => "HEAD"@,
    }
}

/// The commit: the queried SHA, or forty zeros.
pub open spec fn commit_of(head: Option<Seq<char>>) -> Seq<char> {
    match usable(head) {
        Some(c) => c,
        None => Seq::new(40, |i: int| '0'),
    }
}

/// Whether git must be asked for the current branch: only when no override
/// is given.
pub fn needs_branch_query(branch_override: &Option<String>) -> (b: bool)
    ensures
        b == (branch_override is None),
{
    branch_override.is_none()
}

/// `(branch, commit)` from an explicit branch override and the raw outputs
/// of `git rev-parse --abbrev-ref HEAD` and `git rev-parse HEAD` (each
/// `None` when the query failed).
pub fn git_metadata_from(
    branch_override: Option<String>,
    branch_out: Option<String>,
    commit_out: Option<String>,
) -> (r: (String, String))
    ensures
        r.0@ == branch_of(
            match branch_override {
                Some(o) => Some(o@),
                None => None,
            },
            match branch_out {
                Some(o) => Some(o@),
                None => None,
            },
        ),
        r.1@ == commit_of(
            match commit_out {
                Some(o) => Some(o@),
                None => None,
            },
        ),
{
    let b: Option<Vec<char>> = match branch_override {
        Some(o) => Some(chars_of(o.as_str())),
        None => match branch_out {
            Some(c) => Some(trim(&chars_of(c.as_str()))),
            None => None,
        },
    };
    let branch = match b {
        Some(x) => if x.len() > 0 {
            string_of(&x)
        } else {
            "HEAD".to_owned()
        },
        None => "HEAD".to_owned(),
    };
    let commit = match commit_out {
        Some(c) => {
            let t = trim(&chars_of(c.as_str()));
            if t.len() > 0 {
                string_of(&t)
            } else {
                zeros()
            }
        },
        None => zeros(),
    };
    (branch, commit)
}

fn zeros() -> (s: String)
    ensures
        s@ == Seq::new(40, |i: int| '0'),
{
    let mut v: Vec<char> = Vec::new();
    let mut i: usize = 0;
    while i < 40
        invariant
            i <= 40,
            v@ == Seq::new(i as nat, |k: int| '0'),
        decreases 40 - i,
    {
        v.push('0');
        proof {
            assert(v@ =~= Seq::new((i + 1) as nat, |k: int| '0'));
        }
        i = i + 1;
    }
    string_of(&v)
}

/// Local-run parallelism: the explicit `--parallelism` (0 taken as 1),
/// else the number of logical CPUs, else 4.
pub fn resolve_parallelism(parallelism: Option<usize>, available: Option<usize>) -> (n: usize)
    requires
        available matches Some(a) ==> a > 0,
    ensures
        n >= 1,
        n == match parallelism {
            Some(p) => if p == 0 {
                1
            } else {
                p
            },
            None => match available {
                Some(a) => a,
                None => 4,
            },
        },
{
    match parallelism {
        Some(p) => if p == 0 {
            1
        } else {
            p
        },
        None => match available {
            Some(a) => a,
            None => 4,
        },
    }
}

// ---------------------------------------------------------------------
// Backend errors.
// ---------------------------------------------------------------------

/// What a build backend reported as going wrong.
#[derive(Debug)]
pub enum BackendError {
    /// No credentials, or the server refused them.
    Unauthorized,
    /// The server rejected the plan with a stable code.
    Rejected { code: String, message: String },
    /// An org, pipeline or build was not found (the server's body).
    NotFound(String),
    /// The server could not be reached.
    Transport(String),
    /// The live log stream broke off.
    LogStream(String),
    /// The local infrastructure failed.
    Local(String),
    /// The worktree archive exceeds the upload cap.
    SourceTooLarge { observed_bytes: u64, cap_bytes: u64, largest_paths: Vec<(String, u64)> },
    /// Any other failure, as the backend describes it.
    Other(String),
}

/// The process exit-code category of a failure.
#[derive(Debug, Clone, Copy, PartialEq, Eq, Structural)]
pub enum ErrorCategory {
    Usage,
    Auth,
    Network,
    Api,
    PipelineInvalid,
    BuildFailed,
}

/// Map a backend failure to its exit-code category: a rejected plan is a
/// pipeline problem, an oversized archive a usage mistake, refused
/// credentials an auth failure, unreachable or local infrastructure a
/// network failure, a miss an API failure, and anything else a failed build.
pub fn exit_category(err: &BackendError) -> (c: ErrorCategory)
    ensures
        c == match *err {
            BackendError::Rejected { .. } => ErrorCategory::PipelineInvalid,
            BackendError::SourceTooLarge { .. } => ErrorCategory::Usage,
            BackendError::Unauthorized => ErrorCategory::Auth,
            BackendError::Transport(_) => ErrorCategory::Network,
            BackendError::Local(_) => ErrorCategory::Network,
            BackendError::NotFound(_) => ErrorCategory::Api,
            _ => ErrorCategory::BuildFailed,
        },
{
    match err {
        BackendError::Rejected { .. } => ErrorCategory::PipelineInvalid,
        BackendError::SourceTooLarge { .. } => ErrorCategory::Usage,
        BackendError::Unauthorized => ErrorCategory::Auth,
        BackendError::Transport(_) | BackendError::Local(_) => ErrorCategory::Network,
        BackendError::NotFound(_) => ErrorCategory::Api,
        _ => ErrorCategory::BuildFailed,
    }
}

/// The server's code for "no pipeline matches this repository and slug".
pub const PIPELINE_NOT_FOUND_CODE: &'static str = "pipeline_not_found";

/// `p` occurs somewhere in `s`.
pub open spec fn contains_text(s: Seq<char>, p: Seq<char>) -> bool {
    exists|i: int| #[trigger] occurs_at(s, p, i)
}

/// A backend error that means the pipeline does not exist yet: a
/// structured rejection with that code, or a not-found body carrying it.
pub open spec fn missing_pipeline(err: BackendError) -> bool {
    match err {
        BackendError::Rejected { code, .. } => code@ == PIPELINE_NOT_FOUND_CODE@,
        BackendError::NotFound(body) => contains_text(body@, PIPELINE_NOT_FOUND_CODE@),
        _ => false,
    }
}

/// Whether a backend error means the pipeline does not exist yet.
pub fn is_missing_pipeline(err: &BackendError) -> (b: bool)
    ensures
        b == missing_pipeline(*err),
{
    match err {
        BackendError::Rejected { code, .. } => crate::text::same(code.as_str(), PIPELINE_NOT_FOUND_CODE),
        BackendError::NotFound(body) => {
            let b = chars_of(body.as_str());
            let p = chars_of(PIPELINE_NOT_FOUND_CODE);
            match find_from(&b, 0, &p) {
                Some(i) => true,
                None => false,
            }
        },
        _ => false,
    }
}

/// The listing of the largest top-level paths, one per line.
pub open spec fn largest_lines(paths: Seq<(String, u64)>) -> Seq<char>
    decreases paths.len(),
{
    if paths.len() == 0 {
        Seq::empty()
    } else {
        let last = paths.last();
        let line = "           "@ + last.0@ + " \u{2014} "@ + mb_text(last.1 as nat);
        if paths.len() == 1 {
            line
        } else {
            largest_lines(paths.drop_last()) + "\n"@ + line
        }
    }
}

/// The explanation of a backend failure: a stable code, what was
/// observed, and the fix.
pub open spec fn explain_text(err: BackendError) -> Seq<char> {
    match err {
        BackendError::Unauthorized => "error[auth_required]: not authenticated\n  fix    run `hm cloud login` (or set HM_API_TOKEN)"@,
        BackendError::Rejected { code, message } => "error["@ + code@ + "]: "@ + message@
            + "\n  fix    fix the pipeline and re-run `hm run`"@,
        BackendError::NotFound(what) => "error[not_found]: "@ + what@
            + "\n  fix    check the org, pipeline, and build number are correct"@,
        BackendError::Transport(m) => "error[network]: "@ + m@
            + "\n  fix    check your connection and the API URL (HM_API_URL)"@,
        BackendError::LogStream(m) => "error[log_stream]: live logs interrupted \u{2014} "@ + m@
            + "\n  fix    the build continues; re-attach with `hm cloud build show`"@,
        BackendError::Local(m) => "error[local]: "@ + m@,
        BackendError::SourceTooLarge { observed_bytes, cap_bytes, largest_paths } => "error[source_too_large]: worktree archive is "@
            + mb_text(observed_bytes as nat) + " (cap "@ + mb_text(cap_bytes as nat) + ")\n  biggest\n"@ + (if largest_paths@.len()
            == 0 {
            "  (no large top-level paths identified)"@
        } else {
            largest_lines(largest_paths@)
        })
            + "\n  fix    add the offending paths to .gitignore (build output, caches, vendored deps), then re-run `hm run`"@,
        BackendError::Other(m) => "error[backend]: "@ + m@,
    }
}

/// Render a backend failure in the project's error doctrine: point
/// precisely, say what was observed, say the fix, give a stable code.
pub fn explain(err: &BackendError) -> (s: String)
    ensures
        s@ == explain_text(*err),
{
    let mut out: Vec<char> = Vec::new();
    match err {
        BackendError::Unauthorized => {
            push_str(&mut out, "error[auth_required]: not authenticated\n  fix    run `hm cloud login` (or set HM_API_TOKEN)");
        },
        BackendError::Rejected { code, message } => {
            push_str(&mut out, "error[");
            push_str(&mut out, code.as_str());
            push_str(&mut out, "]: ");
            push_str(&mut out, message.as_str());
            push_str(&mut out, "\n  fix    fix the pipeline and re-run `hm run`");
        },
        BackendError::NotFound(what) => {
            push_str(&mut out, "error[not_found]: ");
            push_str(&mut out, what.as_str());
            push_str(&mut out, "\n  fix    check the org, pipeline, and build number are correct");
        },
        BackendError::Transport(m) => {
            push_str(&mut out, "error[network]: ");
            push_str(&mut out, m.as_str());
            push_str(&mut out, "\n  fix    check your connection and the API URL (HM_API_URL)");
        },
        BackendError::LogStream(m) => {
            push_str(&mut out, "error[log_stream]: live logs interrupted \u{2014} ");
            push_str(&mut out, m.as_str());
            push_str(&mut out, "\n  fix    the build continues; re-attach with `hm cloud build show`");
        },
        BackendError::Local(m) => {
            push_str(&mut out, "error[local]: ");
            push_str(&mut out, m.as_str());
        },
        BackendError::SourceTooLarge { observed_bytes, cap_bytes, largest_paths } => {
            push_str(&mut out, "error[source_too_large]: worktree archive is ");
            let o = mb(*observed_bytes);
            push_str(&mut out, o.as_str());
            push_str(&mut out, " (cap ");
            let c = mb(*cap_bytes);
            push_str(&mut out, c.as_str());
            push_str(&mut out, ")\n  biggest\n");
            if largest_paths.len() == 0 {
                push_str(&mut out, "  (no large top-level paths identified)");
            } else {
                let ghost base = out@;
                let mut i: usize = 0;
                while i < largest_paths.len()
                    invariant
                        i <= largest_paths@.len(),
                        out@ == base + largest_lines(largest_paths@.subrange(0, i as int)),
                    decreases largest_paths@.len() - i,
                {
                    proof {
                        assert(largest_paths@.subrange(0, i + 1).drop_last() =~= largest_paths@.subrange(0, i as int));
                    }
                    if i > 0 {
                        push_str(&mut out, "\n");
                    }
                    push_str(&mut out, "           ");
                    push_str(&mut out, largest_paths[i].0.as_str());
                    push_str(&mut out, " \u{2014} ");
                    let m = mb(largest_paths[i].1);
                    push_str(&mut out, m.as_str());
                    i = i + 1;
                }
                proof {
                    assert(largest_paths@.subrange(0, largest_paths@.len() as int) =~= largest_paths@);
                }
            }
            push_str(
                &mut out,
                "\n  fix    add the offending paths to .gitignore (build output, caches, vendored deps), then re-run `hm run`",
            );
        },
        BackendError::Other(m) => {
            push_str(&mut out, "error[backend]: ");
            push_str(&mut out, m.as_str());
        },
    }
    string_of(&out)
}

/// What the cloud API reported as going wrong.
#[derive(Debug)]
pub enum HarmontError {
    Unauthorized,
    Api { status: u16, code: String, message: String },
    NotFound(String),
    LogStream(String),
    Transport(String),
    Decode(String),
}

/// The explanation of a cloud API failure.
pub open spec fn explain_cloud_text(err: HarmontError) -> Seq<char> {
    match err {
        HarmontError::Unauthorized => "error[auth_required]: not authenticated\n  fix    run `hm login` (or set HARMONT_API_TOKEN)\n  docs   https://harmont.dev/docs/errors/auth_required"@,
        HarmontError::Api { status, code, message } => "error["@ + code@ + "]: "@ + message@ + "\n  status "@
            + crate::text::decimal(status as nat) + "\n  docs   https://harmont.dev/docs/errors/"@ + code@,
        HarmontError::NotFound(what) => "error[not_found]: "@ + what@,
        HarmontError::LogStream(m) => "error[log_stream]: live logs interrupted \u{2014} "@ + m@
            + "\n  the build continues; check `hm cloud build show`"@,
        HarmontError::Transport(m) => "error[network]: "@ + m@ + "\n  fix    check your connection and the API URL"@,
        HarmontError::Decode(m) => "error[decode]: unexpected response from the API \u{2014} "@ + m@,
    }
}

/// Render a cloud API failure with its stable code and doc link.
pub fn explain_cloud(err: &HarmontError) -> (s: String)
    ensures
        s@ == explain_cloud_text(*err),
{
    let mut out: Vec<char> = Vec::new();
    match err {
        HarmontError::Unauthorized => {
            push_str(
                &mut out,
                "error[auth_required]: not authenticated\n  fix    run `hm login` (or set HARMONT_API_TOKEN)\n  docs   https://harmont.dev/docs/errors/auth_required",
            );
        },
        HarmontError::Api { status, code, message } => {
            push_str(&mut out, "error[");
            push_str(&mut out, code.as_str());
            push_str(&mut out, "]: ");
            push_str(&mut out, message.as_str());
            push_str(&mut out, "\n  status ");
            crate::text::push_decimal(&mut out, *status as u64);
            push_str(&mut out, "\n  docs   https://harmont.dev/docs/errors/");
            push_str(&mut out, code.as_str());
        },
        HarmontError::NotFound(what) => {
            push_str(&mut out, "error[not_found]: ");
            push_str(&mut out, what.as_str());
        },
        HarmontError::LogStream(m) => {
            push_str(&mut out, "error[log_stream]: live logs interrupted \u{2014} ");
            push_str(&mut out, m.as_str());
            push_str(&mut out, "\n  the build continues; check `hm cloud build show`");
        },
        HarmontError::Transport(m) => {
            push_str(&mut out, "error[network]: ");
            push_str(&mut out, m.as_str());
            push_str(&mut out, "\n  fix    check your connection and the API URL");
        },
        HarmontError::Decode(m) => {
            push_str(&mut out, "error[decode]: unexpected response from the API \u{2014} ");
            push_str(&mut out, m.as_str());
        },
    }
    string_of(&out)
}

/// The body that creates a cloud pipeline.
#[derive(Debug)]
pub struct CreatePipelineRequest {
    pub default_branch: String,
    pub description: Option<String>,
    pub name: String,
    pub repo_name: Option<String>,
    pub repository: String,
}

/// The create-pipeline request: `name` is the in-repo source slug, and
/// `repo_name` (`owner/repo`) is passed explicitly; no description.
pub fn build_create_pipeline_request(
    name: &str,
    default_branch: &str,
    repository: &str,
    repo_name: Option<&str>,
) -> (r: CreatePipelineRequest)
    ensures
        r.name@ == name@,
        r.default_branch@ == default_branch@,
        r.repository@ == repository@,
        r.description is None,
        r.repo_name is Some <==> repo_name is Some,
        r.repo_name matches Some(n) ==> n@ == repo_name->0@,
{
    CreatePipelineRequest {
        default_branch: default_branch.to_owned(),
        description: None,
        name: name.to_owned(),
        repo_name: match repo_name {
            Some(n) => Some(n.to_owned()),
            None => None,
        },
        repository: repository.to_owned(),
    }
}


// ---------------------------------------------------------------------
// Setting up a run.
// ---------------------------------------------------------------------

/// The view of an optional string.
pub open spec fn opt_chars(o: Option<String>) -> Option<Seq<char>> {
    match o {
        Some(s) => Some(s@),
        None => None,
    }
}

/// The backend name: `--backend` when given, else `cloud` for the older
/// `--cloud` flag, else the configured backend.
pub open spec fn backend_name_of(flag: Option<Seq<char>>, cloud: bool, configured: Seq<char>) -> Seq<char> {
    match flag {
        Some(b) => b,
        None => if cloud {
            "cloud"@
        } else {
            configured
        },
    }
}

/// The backend name a run uses.
pub fn backend_name(flag: &Option<String>, cloud: bool, configured: &str) -> (s: String)
    ensures
        s@ == backend_name_of(opt_chars(*flag), cloud, configured@),
{
    match flag {
        Some(b) => b.clone(),
        None => if cloud {
            "cloud".to_owned()
        } else {
            configured.to_owned()
        },
    }
}

/// The backends a run can use.
#[derive(Clone, Copy, Debug, PartialEq, Eq, Structural)]
pub enum BackendChoice {
    Docker,
    Cloud,
}

/// Why a run cannot be set up.
#[derive(Clone, Debug)]
pub enum RunSetupError {
    /// The backend name is neither `docker` nor `cloud`.
    UnknownBackend(String),
    /// A cloud run without credentials.
    NotLoggedIn,
    /// A cloud run with no organization from the flag or the config.
    NoOrganization,
    /// `--no-watch` on a backend that always watches.
    NoWatchUnsupported(String),
}

/// The text of a setup error.
pub open spec fn setup_error_text(e: RunSetupError) -> Seq<char> {
    match e {
        RunSetupError::UnknownBackend(n) => "unknown --backend '"@ + n@ + "'\n  available: docker, cloud"@,
        RunSetupError::NotLoggedIn => "`hm run --backend cloud` requires authentication \u{2014} run `hm cloud login` or set HM_API_TOKEN"@,
        RunSetupError::NoOrganization => "no organization \u{2014} pass --org or set `[cloud] org = \"\u{2026}\"` in .hm/config.toml or ~/.config/hm/config.toml"@,
        RunSetupError::NoWatchUnsupported(n) => "--no-watch is not supported by the "@ + n@ + " backend"@,
    }
}

impl RunSetupError {
    /// The error's text.
    pub fn message(&self) -> (s: String)
        ensures
            s@ == setup_error_text(*self),
    {
        let mut out: Vec<char> = Vec::new();
        match self {
            RunSetupError::UnknownBackend(n) => {
                push_str(&mut out, "unknown --backend '");
                push_str(&mut out, n.as_str());
                push_str(&mut out, "'\n  available: docker, cloud");
            },
            RunSetupError::NotLoggedIn => {
                push_str(
                    &mut out,
                    "`hm run --backend cloud` requires authentication \u{2014} run `hm cloud login` or set HM_API_TOKEN",
                );
            },
            RunSetupError::NoOrganization => {
                push_str(
                    &mut out,
                    "no organization \u{2014} pass --org or set `[cloud] org = \"\u{2026}\"` in .hm/config.toml or ~/.config/hm/config.toml",
                );
            },
            RunSetupError::NoWatchUnsupported(n) => {
                push_str(&mut out, "--no-watch is not supported by the ");
                push_str(&mut out, n.as_str());
                push_str(&mut out, " backend");
            },
        }
        string_of(&out)
    }
}

/// The backend for a name: `docker` or `cloud`, anything else refused.
pub fn choose_backend(name: &str) -> (r: Result<BackendChoice, RunSetupError>)
    ensures
        name@ == "cloud"@ ==> r == Ok::<BackendChoice, RunSetupError>(BackendChoice::Cloud),
        name@ == "docker"@ ==> r == Ok::<BackendChoice, RunSetupError>(BackendChoice::Docker),
        name@ != "cloud"@ && name@ != "docker"@ ==> (r matches Err(RunSetupError::UnknownBackend(n)) && n@
            == name@),
{
    proof {
        reveal_strlit("cloud");
        reveal_strlit("docker");
        assert("cloud"@.len() == 5 && "docker"@.len() == 6);
    }
    if crate::text::same(name, "cloud") {
        Ok(BackendChoice::Cloud)
    } else if crate::text::same(name, "docker") {
        Ok(BackendChoice::Docker)
    } else {
        Err(RunSetupError::UnknownBackend(name.to_owned()))
    }
}

/// A check `hm run` makes before it submits the build.
#[derive(Clone, Copy, Debug, PartialEq, Eq, Structural)]
pub enum SetupStep {
    /// Find the API token (cloud only).
    CloudToken,
    /// Resolve the organization (cloud only).
    Organization,
    /// Render the pipeline and parse its plan; validates the pipeline
    /// argument.
    RenderPipeline,
    /// Pick the renderer; validates `--format`.
    PickRenderer,
    /// Build the backend; a local run connects to the Docker daemon here.
    ConnectBackend,
    /// Refuse flags the backend cannot honour.
    CheckFlags,
}

/// The order of the setup checks once the backend is chosen: a cloud run
/// resolves its token and organization before any render work, and the
/// pipeline argument and `--format` are validated before any daemon
/// connection. The first check that fails ends the run with its error.
pub open spec fn setup_order(choice: BackendChoice) -> Seq<SetupStep> {
    match choice {
        BackendChoice::Cloud => seq![
            SetupStep::CloudToken,
            SetupStep::Organization,
            SetupStep::RenderPipeline,
            SetupStep::PickRenderer,
            SetupStep::ConnectBackend,
            SetupStep::CheckFlags,
        ],
        BackendChoice::Docker => seq![
            SetupStep::RenderPipeline,
            SetupStep::PickRenderer,
            SetupStep::ConnectBackend,
            SetupStep::CheckFlags,
        ],
    }
}

/// The setup checks for `choice`, in the order they are made.
pub fn setup_steps(choice: BackendChoice) -> (r: Vec<SetupStep>)
    ensures
        r@ == setup_order(choice),
{
    match choice {
        BackendChoice::Cloud => vec![
            SetupStep::CloudToken,
            SetupStep::Organization,
            SetupStep::RenderPipeline,
            SetupStep::PickRenderer,
            SetupStep::ConnectBackend,
            SetupStep::CheckFlags,
        ],
        BackendChoice::Docker => vec![
            SetupStep::RenderPipeline,
            SetupStep::PickRenderer,
            SetupStep::ConnectBackend,
            SetupStep::CheckFlags,
        ],
    }
}

/// `hm run` fails fast: every check on credentials, the pipeline argument
/// and `--format` comes before the backend is built (and the daemon
/// connected), and credentials come before any render work.
pub proof fn lemma_setup_fails_fast(choice: BackendChoice, i: int, j: int)
    requires
        0 <= i < setup_order(choice).len(),
        0 <= j < setup_order(choice).len(),
    ensures
        setup_order(choice)[j] == SetupStep::ConnectBackend && (setup_order(choice)[i] == SetupStep::CloudToken
            || setup_order(choice)[i] == SetupStep::Organization || setup_order(choice)[i] == SetupStep::RenderPipeline
            || setup_order(choice)[i] == SetupStep::PickRenderer) ==> i < j,
        setup_order(choice)[j] == SetupStep::RenderPipeline && (setup_order(choice)[i] == SetupStep::CloudToken
            || setup_order(choice)[i] == SetupStep::Organization) ==> i < j,
        setup_order(choice).contains(SetupStep::CloudToken) <==> choice == BackendChoice::Cloud,
{
    if choice == BackendChoice::Cloud {
        assert(setup_order(choice)[0] == SetupStep::CloudToken);
    } else {
        assert forall|k: int| 0 <= k < setup_order(choice).len() implies setup_order(choice)[k] != SetupStep::CloudToken by {}
    }
}

/// The organization of a cloud run: `--org` when given, else the
/// configured one.
pub fn resolve_org(flag: &Option<String>, configured: &Option<String>) -> (r: Result<String, RunSetupError>)
    ensures
        flag matches Some(f) ==> (r matches Ok(o) && o@ == f@),
        flag is None ==> (configured matches Some(c) ==> (r matches Ok(o) && o@ == c@)),
        flag is None && configured is None ==> (r matches Err(RunSetupError::NoOrganization)),
{
    match flag {
        Some(f) => Ok(f.clone()),
        None => match configured {
            Some(c) => Ok(c.clone()),
            None => Err(RunSetupError::NoOrganization),
        },
    }
}

/// Refuses `--no-watch` on a backend that cannot honour it.
pub fn check_no_watch(no_watch: bool, supports_no_watch: bool, backend: &str) -> (r: Result<(), RunSetupError>)
    ensures
        (no_watch && !supports_no_watch) ==> (r matches Err(RunSetupError::NoWatchUnsupported(n)) && n@
            == backend@),
        !(no_watch && !supports_no_watch) ==> r is Ok,
{
    if no_watch && !supports_no_watch {
        Err(RunSetupError::NoWatchUnsupported(backend.to_owned()))
    } else {
        Ok(())
    }
}

/// Whether to stream full logs: asked for, or running under CI (a
/// non-empty `CI` variable), or stderr is not a terminal.
pub fn logs_wanted(logs: bool, ci: Option<&str>, stderr_interactive: bool) -> (b: bool)
    ensures
        b == (logs || (ci is Some && ci->0@.len() > 0) || !stderr_interactive),
{
    let ci_set = match ci {
        Some(v) => chars_of(v).len() > 0,
        None => false,
    };
    logs || ci_set || !stderr_interactive
}

/// Which cloud pipeline a run submits to.
#[derive(Clone, Debug)]
pub enum CloudTarget {
    /// The slug saved in the project config.
    Saved(String),
    /// No git remote: register the pipeline first.
    RegisterRemoteless,
    /// Let the server find the pipeline by repository.
    ByRepository,
}

/// The cloud target: a saved slug wins; a worktree without a remote must
/// be registered; otherwise the repository identifies the pipeline.
pub fn cloud_target(saved: &Option<String>, repo_name: &Option<String>) -> (t: CloudTarget)
    ensures
        saved matches Some(s) ==> (t matches CloudTarget::Saved(x) && x@ == s@),
        saved is None && repo_name is None ==> t matches CloudTarget::RegisterRemoteless,
        saved is None && repo_name is Some ==> t matches CloudTarget::ByRepository,
{
    match saved {
        Some(s) => CloudTarget::Saved(s.clone()),
        None => if repo_name.is_none() {
            CloudTarget::RegisterRemoteless
        } else {
            CloudTarget::ByRepository
        },
    }
}

/// Whether a failed submit may be answered by creating the pipeline: the
/// error is a missing pipeline, the run targets the cloud, and both the
/// repository name and URL are known.
pub fn may_autocreate(
    err: &BackendError,
    cloud: bool,
    repo_name: &Option<String>,
    repository: &Option<String>,
) -> (b: bool)
    ensures
        b == (missing_pipeline(*err) && cloud && repo_name is Some && repository is Some),
{
    is_missing_pipeline(err) && cloud && repo_name.is_some() && repository.is_some()
}

/// The repository name offered for a worktree without a remote: its
/// directory name, or `repo`.
pub fn remoteless_repo_name(dir_name: Option<&str>) -> (s: String)
    ensures
        dir_name matches Some(d) ==> s@ == d@,
        dir_name is None ==> s@ == "repo"@,
{
    match dir_name {
        Some(d) => d.to_owned(),
        None => "repo".to_owned(),
    }
}


/// `parts` joined with `sep` between neighbours.
pub open spec fn joined(parts: Seq<Seq<char>>, sep: Seq<char>) -> Seq<char>
    decreases parts.len(),
{
    if parts.len() == 0 {
        Seq::empty()
    } else if parts.len() == 1 {
        parts[0]
    } else {
        joined(parts.drop_last(), sep) + sep + parts.last()
    }
}

/// Why no pipeline could be picked when none was named.
#[derive(Clone, Debug)]
pub enum PickError {
    /// The repository declares no pipeline.
    NoPipelines,
    /// The repository declares several; the slugs, in declaration order.
    Several(Vec<String>),
}

impl PickError {
    /// The error's text.
    pub fn message(&self) -> (s: String)
        ensures
            match *self {
                PickError::NoPipelines => s@
                    == "no pipelines declared in this repo\n  hint: define one with `@hm.pipeline(\"slug\")` in `.hm/pipeline.py`"@,
                PickError::Several(v) => s@ == "this repo declares pipelines: "@ + joined(crate::text::views(v@), ", "@)
                    + "\n  \u{2192} pass one as the first argument"@,
            },
    {
        let mut out: Vec<char> = Vec::new();
        match self {
            PickError::NoPipelines => {
                push_str(
                    &mut out,
                    "no pipelines declared in this repo\n  hint: define one with `@hm.pipeline(\"slug\")` in `.hm/pipeline.py`",
                );
            },
            PickError::Several(v) => {
                push_str(&mut out, "this repo declares pipelines: ");
                push_joined(&mut out, v, ", ");
                push_str(&mut out, "\n  \u{2192} pass one as the first argument");
            },
        }
        string_of(&out)
    }
}

/// Appends the strings of `v` joined with `sep`.
fn push_joined(out: &mut Vec<char>, v: &Vec<String>, sep: &str)
    ensures
        final(out)@ == old(out)@ + joined(crate::text::views(v@), sep@),
{
    let ghost start = out@;
    let mut i: usize = 0;
    while i < v.len()
        invariant
            i <= v@.len(),
            out@ == start + joined(crate::text::views(v@.subrange(0, i as int)), sep@),
        decreases v@.len() - i,
    {
        proof {
            let p = crate::text::views(v@.subrange(0, i + 1));
            assert(p.drop_last() =~= crate::text::views(v@.subrange(0, i as int)));
            assert(p.last() == v@[i as int]@);
        }
        if i > 0 {
            push_str(out, sep);
        }
        push_str(out, v[i].as_str());
        proof {
            let p = crate::text::views(v@.subrange(0, i + 1));
            if i == 0 {
                assert(crate::text::views(v@.subrange(0, 0)) =~= Seq::<Seq<char>>::empty());
                assert(p.len() == 1);
            }
        }
        i = i + 1;
    }
    proof {
        assert(v@.subrange(0, v@.len() as int) =~= v@);
    }
}

/// The pipeline to run when none is named: the only one declared.
pub fn pick_pipeline(declared: &Vec<String>) -> (r: Result<String, PickError>)
    ensures
        declared@.len() == 1 ==> (r matches Ok(s) && s@ == declared@[0]@),
        declared@.len() == 0 ==> (r matches Err(PickError::NoPipelines)),
        declared@.len() > 1 ==> (r matches Err(PickError::Several(v)) && crate::text::views(v@) == crate::text::views(
            declared@,
        )),
{
    if declared.len() == 1 {
        Ok(declared[0].clone())
    } else if declared.len() == 0 {
        Err(PickError::NoPipelines)
    } else {
        let mut v: Vec<String> = Vec::new();
        let mut i: usize = 0;
        while i < declared.len()
            invariant
                i <= declared@.len(),
                crate::text::views(v@) == crate::text::views(declared@.subrange(0, i as int)),
            decreases declared@.len() - i,
        {
            v.push(declared[i].clone());
            proof {
                assert(crate::text::views(declared@.subrange(0, i + 1)) =~= crate::text::views(
                    declared@.subrange(0, i as int),
                ).push(declared@[i as int]@));
                assert(crate::text::views(v@) =~= crate::text::views(declared@.subrange(0, i + 1)));
            }
            i = i + 1;
        }
        proof {
            assert(declared@.subrange(0, declared@.len() as int) =~= declared@);
        }
        Err(PickError::Several(v))
    }
}

} // verus!
