//! The Docker backend's decisions: which image references a GC pattern
//! covers, how snapshots are tagged, how exec output splits into lines,
//! and the order of container teardown.

use vstd::prelude::*;

use crate::text::{
    chars_of, first_index, first_index_of, last_index, last_index_of, lemma_first_index, lemma_last_index, push_chars,
    push_str, slice, string_of,
};
use crate::vm::types::{SnapshotLabel, WorkspaceMount};

verus! {

/// The repository part of an image reference: everything before the last
/// `:`, or all of it when there is none.
pub open spec fn repo_of(repo_tag: Seq<char>) -> Seq<char> {
    let i = last_index_of(repo_tag, ':');
    if i >= 0 {
        repo_tag.subrange(0, i)
    } else {
        repo_tag
    }
}

/// Whether a GC pattern covers an image reference: `<repo>` matches every
/// tag of exactly that repository; `<repo>/*` matches repositories exactly
/// one path component below `<repo>`.
pub open spec fn ref_matches(pattern: Seq<char>, repo_tag: Seq<char>) -> bool {
    let repo = repo_of(repo_tag);
    if pattern.len() >= 2 && pattern.subrange(pattern.len() - 2, pattern.len() as int) == "/*"@ {
        let prefix = pattern.subrange(0, pattern.len() - 2);
        &&& repo.len() > prefix.len() + 1
        &&& repo.subrange(0, prefix.len() as int) == prefix
        &&& repo[prefix.len() as int] == '/'
        &&& forall|i: int| prefix.len() + 1 <= i < repo.len() ==> repo[i] != '/'
    } else {
        repo == pattern
    }
}

/// Whether `pattern` covers the image reference `repo_tag`.
pub fn reference_matches(pattern: &str, repo_tag: &str) -> (b: bool)
    ensures
        b == ref_matches(pattern@, repo_tag@),
{
    proof {
        reveal_strlit("/*");
    }
    let t = chars_of(repo_tag);
    let p = chars_of(pattern);
    proof {
        lemma_last_index(t@, ':');
    }
    let repo = match last_index(&t, ':') {
        Some(i) => slice(&t, 0, i),
        None => t,
    };
    let n = p.len();
    if n >= 2 && p[n - 2] == '/' && p[n - 1] == '*' {
        proof {
            assert(p@.subrange(n - 2, n as int) =~= "/*"@);
        }
        let m = n - 2;
        if repo.len() <= m + 1 {
            return false;
        }
        let mut i: usize = 0;
        while i < m
            invariant
                i <= m,
                m + 2 == n,
                n == p@.len(),
                m + 1 < repo@.len(),
                repo@ == repo_of(repo_tag@),
                p@ == pattern@,
                p@.subrange(n - 2, n as int) == "/*"@,
                forall|k: int| 0 <= k < i ==> repo@[k] == p@[k],
            decreases m - i,
        {
            if repo[i] != p[i] {
                proof {
                    assert(repo@.subrange(0, m as int)[i as int] != p@.subrange(0, m as int)[i as int]);
                }
                return false;
            }
            i = i + 1;
        }
        proof {
            assert(repo@.subrange(0, m as int) =~= p@.subrange(0, m as int));
        }
        if repo[m] != '/' {
            return false;
        }
        let mut j: usize = m + 1;
        while j < repo.len()
            invariant
                m + 1 <= j <= repo@.len(),
                m + 2 == n,
                n == p@.len(),
                repo@ == repo_of(repo_tag@),
                p@ == pattern@,
                p@.subrange(n - 2, n as int) == "/*"@,
                repo@.subrange(0, m as int) == p@.subrange(0, m as int),
                repo@[m as int] == '/',
                forall|k: int| m + 1 <= k < j ==> repo@[k] != '/',
            decreases repo@.len() - j,
        {
            if repo[j] == '/' {
                return false;
            }
            j = j + 1;
        }
        true
    } else {
        proof {
            if n >= 2 && p@.subrange(n - 2, n as int) == "/*"@ {
                assert(p@[n - 2] == p@.subrange(n - 2, n as int)[0]);
                assert(p@[n - 1] == p@.subrange(n - 2, n as int)[1]);
            }
        }
        let mut same = repo.len() == p.len();
        let mut i: usize = 0;
        while i < p.len() && same
            invariant
                i <= p@.len(),
                same ==> repo@.len() == p@.len(),
                same ==> forall|k: int| 0 <= k < i ==> repo@[k] == p@[k],
                !same ==> repo@ != p@,
            decreases p@.len() - i,
        {
            if repo[i] != p[i] {
                same = false;
            }
            i = i + 1;
        }
        proof {
            if same {
                assert(repo@ =~= p@);
            }
        }
        same
    }
}

/// The repository and tag a snapshot is committed under: an ephemeral
/// snapshot goes to `ephemeral:<container id>`; a cached one splits its key
/// at the first `:` into repository and tag, or uses the whole key as the
/// repository and the container id as the tag.
pub open spec fn snapshot_ref(label: SnapshotLabel, container_id: Seq<char>) -> (Seq<char>, Seq<char>) {
    match label {
        SnapshotLabel::Ephemeral => ("ephemeral"@, container_id),
        SnapshotLabel::Cached(key) => {
            let i = first_index_of(key@, ':');
            if i >= 0 {
                (key@.subrange(0, i), key@.subrange(i + 1, key@.len() as int))
            } else {
                (key@, container_id)
            }
        },
    }
}

/// Repository, tag, and the full `repo:tag` reference of a snapshot.
pub fn snapshot_tag(label: &SnapshotLabel, container_id: &str) -> (r: (String, String, String))
    ensures
        r.0@ == snapshot_ref(*label, container_id@).0,
        r.1@ == snapshot_ref(*label, container_id@).1,
        r.2@ == r.0@ + ":"@ + r.1@,
{
    let (repo, tag): (Vec<char>, Vec<char>) = match label {
        SnapshotLabel::Ephemeral => (chars_of("ephemeral"), chars_of(container_id)),
        SnapshotLabel::Cached(key) => {
            let k = chars_of(key.as_str());
            match first_index(&k, ':') {
                Some(i) => (slice(&k, 0, i), slice(&k, i + 1, k.len())),
                None => (k.clone(), chars_of(container_id)),
            }
        },
    };
    let mut full: Vec<char> = repo.clone();
    push_str(&mut full, ":");
    push_chars(&mut full, &tag);
    (string_of(&repo), string_of(&tag), string_of(&full))
}

/// `KEY=value` strings for an exec environment, in order.
pub fn exec_env(env: &Vec<(String, String)>) -> (r: Vec<String>)
    ensures
        r@.len() == env@.len(),
        forall|i: int| 0 <= i < env@.len() ==> #[trigger] r@[i]@ == env@[i].0@ + "="@ + env@[i].1@,
{
    let mut r: Vec<String> = Vec::new();
    let mut i: usize = 0;
    while i < env.len()
        invariant
            i <= env@.len(),
            r@.len() == i,
            forall|k: int| 0 <= k < i ==> #[trigger] r@[k]@ == env@[k].0@ + "="@ + env@[k].1@,
        decreases env@.len() - i,
    {
        let mut s: Vec<char> = Vec::new();
        push_str(&mut s, env[i].0.as_str());
        push_str(&mut s, "=");
        push_str(&mut s, env[i].1.as_str());
        r.push(string_of(&s));
        i = i + 1;
    }
    r
}

/// `host:guest:rw` for a bind-mounted workspace.
pub fn workspace_bind(ws: &WorkspaceMount) -> (r: String)
    ensures
        r@ == ws.host_path@ + ":"@ + ws.guest_path@ + ":rw"@,
{
    let mut s: Vec<char> = Vec::new();
    push_str(&mut s, ws.host_path.as_str());
    push_str(&mut s, ":");
    push_str(&mut s, ws.guest_path.as_str());
    push_str(&mut s, ":rw");
    string_of(&s)
}

/// A line without the `\r` that may end it.
pub open spec fn strip_cr(l: Seq<char>) -> Seq<char> {
    if l.len() > 0 && l.last() == '\r' {
        l.drop_last()
    } else {
        l
    }
}

/// Reading `text` so far: the finished lines and the line being read.
pub open spec fn line_scan(text: Seq<char>) -> (Seq<Seq<char>>, Seq<char>)
    decreases text.len(),
{
    if text.len() == 0 {
        (Seq::empty(), Seq::empty())
    } else {
        let prev = line_scan(text.drop_last());
        if text.last() == '\n' {
            (prev.0.push(strip_cr(prev.1)), Seq::empty())
        } else {
            (prev.0, prev.1.push(text.last()))
        }
    }
}

/// `str::lines`: the text split at each `\n` (a `\r` right before it is
/// part of the line ending), no empty line after a final newline, and a
/// last line without a newline kept as it is (a bare `\r` there stays).
pub open spec fn text_lines(text: Seq<char>) -> Seq<Seq<char>> {
    let s = line_scan(text);
    if s.1.len() == 0 {
        s.0
    } else {
        s.0.push(s.1)
    }
}

/// The lines of a chunk of exec output.
pub fn output_lines(text: &str) -> (r: Vec<String>)
    ensures
        crate::text::views(r@) == text_lines(text@),
{
    let t = chars_of(text);
    let mut out: Vec<String> = Vec::new();
    let mut cur: Vec<char> = Vec::new();
    let mut i: usize = 0;
    while i < t.len()
        invariant
            i <= t@.len(),
            crate::text::views(out@) == line_scan(t@.subrange(0, i as int)).0,
            cur@ == line_scan(t@.subrange(0, i as int)).1,
        decreases t@.len() - i,
    {
        proof {
            assert(t@.subrange(0, i + 1).drop_last() =~= t@.subrange(0, i as int));
        }
        if t[i] == '\n' {
            let line = without_cr(&cur);
            let ghost before = out@;
            out.push(string_of(&line));
            proof {
                assert(crate::text::views(out@) =~= crate::text::views(before).push(line@));
            }
            cur = Vec::new();
        } else {
            cur.push(t[i]);
        }
        i = i + 1;
    }
    proof {
        assert(t@.subrange(0, t@.len() as int) =~= t@);
    }
    if cur.len() > 0 {
        let ghost before = out@;
        out.push(string_of(&cur));
        proof {
            assert(crate::text::views(out@) =~= crate::text::views(before).push(cur@));
        }
    }
    out
}

fn without_cr(l: &Vec<char>) -> (r: Vec<char>)
    ensures
        r@ == strip_cr(l@),
{
    if l.len() > 0 && l[l.len() - 1] == '\r' {
        slice(l, 0, l.len() - 1)
    } else {
        l.clone()
    }
}

/// The exit code Docker reports, as the step's exit code: missing means 0;
/// a 64-bit code keeps its low 32 bits.
pub fn exit_code_of(code: Option<i64>) -> (r: i32)
    ensures
        r == match code {
            Some(c) => c as i32,
            None => 0i32,
        },
{
    match code {
        Some(c) => c as i32,
        None => 0,
    }
}

/// One step of container teardown.
#[derive(Debug, Clone, Copy, PartialEq, Eq, Structural)]
pub enum TeardownStep {
    /// Stop the container (killing every process) and start it again, so
    /// nothing writes into the bind mount while ownership is reclaimed.
    Quiesce,
    /// Hand the bind-mounted workspace back to the host user.
    Reclaim,
    /// Stop and remove the container.
    Remove,
}

/// The teardown order: with a workspace to reclaim, quiesce first when a
/// command may still be running, then reclaim; always remove last.
pub open spec fn teardown_steps(reclaim: bool, exec_in_flight: bool) -> Seq<TeardownStep> {
    if reclaim {
        if exec_in_flight {
            seq![TeardownStep::Quiesce, TeardownStep::Reclaim, TeardownStep::Remove]
        } else {
            seq![TeardownStep::Reclaim, TeardownStep::Remove]
        }
    } else {
        seq![TeardownStep::Remove]
    }
}

/// The teardown plan for a container.
pub fn teardown_plan(reclaim: bool, exec_in_flight: bool) -> (r: Vec<TeardownStep>)
    ensures
        r@ == teardown_steps(reclaim, exec_in_flight),
{
    let mut r: Vec<TeardownStep> = Vec::new();
    if reclaim {
        if exec_in_flight {
            r.push(TeardownStep::Quiesce);
        }
        r.push(TeardownStep::Reclaim);
    }
    r.push(TeardownStep::Remove);
    proof {
        assert(r@ =~= teardown_steps(reclaim, exec_in_flight));
    }
    r
}

/// A listed image: its creation time (seconds since the epoch) and tags.
#[derive(Debug)]
pub struct ImageInfo {
    pub created: i64,
    pub repo_tags: Vec<String>,
}

/// The tags GC may remove: those of images created before `cutoff` that
/// the pattern covers, image by image and tag by tag.
pub open spec fn gc_tags(images: Seq<ImageInfo>, cutoff: i64, reference: Seq<char>) -> Seq<Seq<char>>
    decreases images.len(),
{
    if images.len() == 0 {
        Seq::empty()
    } else {
        let last = images.last();
        gc_tags(images.drop_last(), cutoff, reference) + if last.created < cutoff {
            crate::text::views(last.repo_tags@).filter(|t: Seq<char>| ref_matches(reference, t))
        } else {
            Seq::empty()
        }
    }
}

/// The aged, covered tags GC considers, before the keep check.
pub fn gc_candidates(images: &Vec<ImageInfo>, cutoff: i64, reference: &str) -> (r: Vec<String>)
    ensures
        crate::text::views(r@) == gc_tags(images@, cutoff, reference@),
{
    let mut r: Vec<String> = Vec::new();
    let mut i: usize = 0;
    while i < images.len()
        invariant
            i <= images@.len(),
            crate::text::views(r@) == gc_tags(images@.subrange(0, i as int), cutoff, reference@),
        decreases images@.len() - i,
    {
        proof {
            assert(images@.subrange(0, i + 1).drop_last() =~= images@.subrange(0, i as int));
        }
        let img = &images[i];
        let ghost base = r@;
        if img.created < cutoff {
            let mut j: usize = 0;
            while j < img.repo_tags.len()
                invariant
                    j <= img.repo_tags@.len(),
                    crate::text::views(r@) == crate::text::views(base) + crate::text::views(
                        img.repo_tags@.subrange(0, j as int),
                    ).filter(|t: Seq<char>| ref_matches(reference@, t)),
                decreases img.repo_tags@.len() - j,
            {
                let tag = &img.repo_tags[j];
                let ghost vs = crate::text::views(img.repo_tags@.subrange(0, j as int));
                proof {
                    assert(crate::text::views(img.repo_tags@.subrange(0, j + 1)) =~= vs.push(tag@));
                    vs.lemma_filter_push(tag@, |t: Seq<char>| ref_matches(reference@, t));
                }
                if reference_matches(reference, tag.as_str()) {
                    let ghost before = r@;
                    r.push(tag.clone());
                    proof {
                        assert(crate::text::views(r@) =~= crate::text::views(before).push(tag@));
                    }
                }
                j = j + 1;
            }
            proof {
                assert(img.repo_tags@.subrange(0, img.repo_tags@.len() as int) =~= img.repo_tags@);
            }
        } else {
            proof {
                assert(crate::text::views(r@) =~= crate::text::views(base) + Seq::<Seq<char>>::empty());
            }
        }
        i = i + 1;
    }
    proof {
        assert(images@.subrange(0, images@.len() as int) =~= images@);
    }
    r
}


/// The command that hands a bind-mounted workspace back to the host user:
/// `chown -R <uid>:<gid> <guest_path>`, run as root in the container.
pub fn reclaim_command(uid: u32, gid: u32, guest_path: &str) -> (r: Vec<String>)
    ensures
        crate::text::views(r@) == seq![
            "chown"@,
            "-R"@,
            crate::text::decimal(uid as nat) + ":"@ + crate::text::decimal(gid as nat),
            guest_path@,
        ],
{
    let mut owner: Vec<char> = Vec::new();
    crate::text::push_decimal(&mut owner, uid as u64);
    crate::text::push_str(&mut owner, ":");
    crate::text::push_decimal(&mut owner, gid as u64);
    let r = vec!["chown".to_owned(), "-R".to_owned(), crate::text::string_of(&owner), guest_path.to_owned()];
    proof {
        assert(crate::text::views(r@) =~= seq![
            "chown"@,
            "-R"@,
            crate::text::decimal(uid as nat) + ":"@ + crate::text::decimal(gid as nat),
            guest_path@,
        ]);
    }
    r
}

/// Whether the ownership reclaim succeeded: an exit code of zero, or none
/// reported.
pub fn reclaim_succeeded(exit_code: Option<i64>) -> (b: bool)
    ensures
        b == (match exit_code {
            Some(c) => c == 0,
            None => true,
        }),
{
    match exit_code {
        Some(c) => c == 0,
        None => true,
    }
}

} // verus!
