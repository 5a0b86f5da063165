//! Copy-on-write directory cloning: which mechanism a platform offers,
//! the commands that clone with it, and the fuse-overlayfs mount's state.

use vstd::prelude::*;

use crate::text::{push_str, string_of};

verus! {

/// How directories are cloned.
#[derive(Debug, Clone, Copy, PartialEq, Eq, Structural)]
pub enum CowStrategy {
    ApfsClone,
    Reflink,
    FuseOverlay,
    FullCopy,
}

/// The operating system the tool runs on.
#[derive(Debug, Clone, Copy, PartialEq, Eq, Structural)]
pub enum Platform {
    MacOs,
    Linux,
    Other,
}

/// `which::which`: whether an executable named `name` is found on `PATH`.
/// Nothing is stated of the answer: it depends on the machine.
#[verifier::external_body]
fn program_found(name: &str) -> bool {
    which::which(name).is_ok()
}

/// The clone mechanism chosen on `platform`, given whether a reflink copy
/// succeeded: APFS clones on macOS; on Linux reflinks when the filesystem
/// supports them, else full copies; full copies elsewhere. The
/// fuse-overlayfs mechanism is never chosen automatically.
pub fn detect_strategy_given(platform: Platform, reflink_works: bool) -> (s: CowStrategy)
    ensures
        s == match platform {
            Platform::MacOs => CowStrategy::ApfsClone,
            Platform::Linux => if reflink_works {
                CowStrategy::Reflink
            } else {
                CowStrategy::FullCopy
            },
            Platform::Other => CowStrategy::FullCopy,
        },
        s != CowStrategy::FuseOverlay,
{
    match platform {
        Platform::MacOs => CowStrategy::ApfsClone,
        Platform::Linux => if reflink_works {
            CowStrategy::Reflink
        } else {
            CowStrategy::FullCopy
        },
        Platform::Other => CowStrategy::FullCopy,
    }
}

/// The clone commands tried in order before falling back to a recursive
/// copy: `cp -c -R -p` on macOS; `cp --reflink=always -a`, then `cp -a`, on
/// Linux; none elsewhere. Each is followed by the source and destination.
pub open spec fn clone_commands(platform: Platform) -> Seq<Seq<Seq<char>>> {
    match platform {
        Platform::MacOs => seq![seq!["cp"@, "-c"@, "-R"@, "-p"@]],
        Platform::Linux => seq![seq!["cp"@, "--reflink=always"@, "-a"@], seq!["cp"@, "-a"@]],
        Platform::Other => seq![],
    }
}

/// The platform's clone commands.
pub fn platform_clone_commands(platform: Platform) -> (r: Vec<Vec<String>>)
    ensures
        r@.map_values(|c: Vec<String>| crate::text::views(c@)) == clone_commands(platform),
{
    proof {
        reveal_strlit("cp");
        reveal_strlit("-c");
        reveal_strlit("-R");
        reveal_strlit("-p");
        reveal_strlit("--reflink=always");
        reveal_strlit("-a");
    }
    let r: Vec<Vec<String>> = match platform {
        Platform::MacOs => {
            let c = vec!["cp".to_owned(), "-c".to_owned(), "-R".to_owned(), "-p".to_owned()];
            proof {
                assert(crate::text::views(c@) =~= seq!["cp"@, "-c"@, "-R"@, "-p"@]);
            }
            vec![c]
        },
        Platform::Linux => {
            let c1 = vec!["cp".to_owned(), "--reflink=always".to_owned(), "-a".to_owned()];
            let c2 = vec!["cp".to_owned(), "-a".to_owned()];
            proof {
                assert(crate::text::views(c1@) =~= seq!["cp"@, "--reflink=always"@, "-a"@]);
                assert(crate::text::views(c2@) =~= seq!["cp"@, "-a"@]);
            }
            vec![c1, c2]
        },
        Platform::Other => Vec::new(),
    };
    proof {
        assert(r@.map_values(|c: Vec<String>| crate::text::views(c@)) =~= clone_commands(platform));
    }
    r
}

/// `-o` option text for fuse-overlayfs: the lower layers joined by `:`,
/// then the upper and work directories.
pub open spec fn overlay_opts(lower: Seq<Seq<char>>, upper: Seq<char>, work: Seq<char>) -> Seq<char> {
    "lowerdir="@ + joined_colon(lower) + ",upperdir="@ + upper + ",workdir="@ + work
}

/// Texts joined with `:`.
pub open spec fn joined_colon(parts: Seq<Seq<char>>) -> Seq<char>
    decreases parts.len(),
{
    if parts.len() == 0 {
        Seq::empty()
    } else if parts.len() == 1 {
        parts[0]
    } else {
        joined_colon(parts.drop_last()) + ":"@ + parts.last()
    }
}

/// The lower layers joined by `:`.
pub fn lowerdir_text(lower: &Vec<String>) -> (s: String)
    ensures
        s@ == joined_colon(crate::text::views(lower@)),
{
    let mut out: Vec<char> = Vec::new();
    let mut i: usize = 0;
    while i < lower.len()
        invariant
            i <= lower@.len(),
            out@ == joined_colon(crate::text::views(lower@).subrange(0, i as int)),
        decreases lower@.len() - i,
    {
        proof {
            let vs = crate::text::views(lower@);
            assert(vs.subrange(0, i + 1).drop_last() =~= vs.subrange(0, i as int));
            if i == 0 {
                assert(joined_colon(vs.subrange(0, 1)) == vs[0]);
            }
        }
        if i > 0 {
            push_str(&mut out, ":");
        }
        push_str(&mut out, lower[i].as_str());
        i = i + 1;
    }
    proof {
        assert(crate::text::views(lower@).subrange(0, lower@.len() as int) =~= crate::text::views(lower@));
    }
    string_of(&out)
}

/// The fuse-overlayfs `-o` option.
pub fn overlay_options(lower: &Vec<String>, upper: &str, work: &str) -> (s: String)
    ensures
        s@ == overlay_opts(crate::text::views(lower@), upper@, work@),
{
    let l = lowerdir_text(lower);
    let mut out: Vec<char> = Vec::new();
    push_str(&mut out, "lowerdir=");
    push_str(&mut out, l.as_str());
    push_str(&mut out, ",upperdir=");
    push_str(&mut out, upper);
    push_str(&mut out, ",workdir=");
    push_str(&mut out, work);
    string_of(&out)
}

/// The message for a failed mount.
pub fn mount_failure_message(code: Option<i32>, stderr: &str, lowerdir: &str, upper: &str, merged: &str) -> (s: String)
    ensures
        s@ == "fuse-overlayfs mount failed (exit "@ + crate::text::signed_decimal(
            match code {
                Some(c) => c as int,
                None => -1,
            },
        ) + "): "@ + stderr@ + "\nlowerdir="@ + lowerdir@ + ", upper="@ + upper@ + ", merged="@ + merged@,
{
    let mut out: Vec<char> = Vec::new();
    push_str(&mut out, "fuse-overlayfs mount failed (exit ");
    let c: i64 = match code {
        Some(c) => c as i64,
        None => -1,
    };
    crate::text::push_i64(&mut out, c);
    push_str(&mut out, "): ");
    push_str(&mut out, stderr);
    push_str(&mut out, "\nlowerdir=");
    push_str(&mut out, lowerdir);
    push_str(&mut out, ", upper=");
    push_str(&mut out, upper);
    push_str(&mut out, ", merged=");
    push_str(&mut out, merged);
    string_of(&out)
}

/// A mounted fuse-overlayfs filesystem: where it is merged, its upper
/// (writable) layer, and whether it is still mounted.
#[derive(Debug)]
pub struct OverlayMount {
    merged: String,
    upper: String,
    mounted: bool,
}

impl OverlayMount {
    /// The merged mount point.
    pub closed spec fn merged_text(&self) -> Seq<char> {
        self.merged@
    }

    /// The upper layer.
    pub closed spec fn upper_text(&self) -> Seq<char> {
        self.upper@
    }

    /// Whether the filesystem is still mounted.
    pub closed spec fn is_mounted(&self) -> bool {
        self.mounted
    }

    /// A filesystem just mounted at `merged` over upper layer `upper`.
    pub fn mounted_at(merged: String, upper: String) -> (m: Self)
        ensures
            m.merged_text() == merged@,
            m.upper_text() == upper@,
            m.is_mounted(),
    {
        OverlayMount { merged, upper, mounted: true }
    }

    /// The merged mount point.
    pub fn merged_path(&self) -> (p: &str)
        ensures
            p@ == self.merged_text(),
    {
        self.merged.as_str()
    }

    /// The upper (writable) layer.
    pub fn upper_dir(&self) -> (p: &str)
        ensures
            p@ == self.upper_text(),
    {
        self.upper.as_str()
    }

    /// Marks the filesystem unmounted and says whether it still was
    /// mounted, so that unmounting twice runs `fusermount` only once.
    pub fn begin_unmount(&mut self) -> (due: bool)
        ensures
            due == old(self).is_mounted(),
            !final(self).is_mounted(),
            final(self).merged_text() == old(self).merged_text(),
            final(self).upper_text() == old(self).upper_text(),
    {
        let due = self.mounted;
        self.mounted = false;
        due
    }

    /// The program that unmounts: `fusermount3` when installed, else
    /// `fusermount`.
    pub fn unmount_program() -> (p: &'static str)
        ensures
            p@ == "fusermount3"@ || p@ == "fusermount"@,
    {
        if program_found("fusermount3") {
            "fusermount3"
        } else {
            "fusermount"
        }
    }
}

} // verus!
