//! The image cache's archive names and its manifest: image tags map to
//! tar file names and back, and a manifest is identified by a hash of its
//! serialised form.

use vstd::prelude::*;

use crate::digest::{hex_encode, hex_lower, is_hex_char, lemma_hex_lower, sha256, sha256_digest};
use crate::smap::StrMap;
use crate::text::{chars_of, find_from, first_occurrence_from, occurs_at, push_chars, push_str, slice, string_of};

verus! {

/// The repository prefix of locally cached images.
pub const LOCAL_PREFIX: &'static str = "harmont-local/";

/// `s` with every `:` replaced by `--`.
pub open spec fn dashed(s: Seq<char>) -> Seq<char>
    decreases s.len(),
{
    if s.len() == 0 {
        Seq::empty()
    } else {
        dashed(s.drop_last()) + if s.last() == ':' {
            "--"@
        } else {
            seq![s.last()]
        }
    }
}

/// The tar file name for an image tag: the tag without its
/// `harmont-local/` prefix, `:` written as `--`, then `.tar`.
pub open spec fn tar_name(tag: Seq<char>) -> Seq<char> {
    let p = LOCAL_PREFIX@;
    let stripped = if tag.len() >= p.len() && tag.subrange(0, p.len() as int) == p {
        tag.subrange(p.len() as int, tag.len() as int)
    } else {
        tag
    };
    dashed(stripped) + ".tar"@
}

/// The image tag a tar file name stands for: the name without `.tar`,
/// split at its first `--` into image name and hash.
pub open spec fn tag_of_tar(filename: Seq<char>) -> Option<Seq<char>> {
    let n = filename.len();
    if n >= 4 && filename.subrange(n - 4, n as int) == ".tar"@ {
        let stem = filename.subrange(0, n - 4);
        if exists|i: int| #[trigger] first_occurrence_from(stem, "--"@, 0, i) {
            let i = choose|i: int| #[trigger] first_occurrence_from(stem, "--"@, 0, i);
            Some(LOCAL_PREFIX@ + stem.subrange(0, i) + ":"@ + stem.subrange(i + 2, stem.len() as int))
        } else {
            None
        }
    } else {
        None
    }
}

/// Convert a Docker image tag to the corresponding tar file name
/// (`harmont-local/base:a1b2c3d4` → `base--a1b2c3d4.tar`).
pub fn tar_name_for_tag(tag: &str) -> (r: String)
    ensures
        r@ == tar_name(tag@),
{
    proof {
        reveal_strlit("harmont-local/");
        reveal_strlit("--");
        reveal_strlit(".tar");
    }
    let t = chars_of(tag);
    let p = chars_of(LOCAL_PREFIX);
    let start: usize = if crate::text::matches_at(&t, 0, &p) {
        proof {
            assert(t@.subrange(0, p@.len() as int) =~= p@);
        }
        p.len()
    } else {
        proof {
            if t@.len() >= p@.len() && t@.subrange(0, p@.len() as int) == p@ {
                assert(occurs_at(t@, p@, 0));
            }
        }
        0
    };
    let s = slice(&t, start, t.len());
    let mut out: Vec<char> = Vec::new();
    let mut i: usize = 0;
    while i < s.len()
        invariant
            i <= s@.len(),
            out@ == dashed(s@.subrange(0, i as int)),
        decreases s@.len() - i,
    {
        proof {
            reveal_strlit("--");
            assert(s@.subrange(0, i + 1).drop_last() =~= s@.subrange(0, i as int));
        }
        if s[i] == ':' {
            out.push('-');
            out.push('-');
            proof {
                assert(out@ =~= dashed(s@.subrange(0, i as int)) + "--"@);
            }
        } else {
            out.push(s[i]);
            proof {
                assert(out@ =~= dashed(s@.subrange(0, i as int)) + seq![s@[i as int]]);
            }
        }
        i = i + 1;
    }
    proof {
        assert(s@.subrange(0, s@.len() as int) =~= s@);
    }
    push_str(&mut out, ".tar");
    proof {
        reveal_strlit("harmont-local/");
        reveal_strlit(".tar");
        let pv = LOCAL_PREFIX@;
        if t@.len() >= pv.len() && t@.subrange(0, pv.len() as int) == pv {
            assert(s@ == t@.subrange(pv.len() as int, t@.len() as int));
        } else {
            assert(s@ =~= t@);
        }
    }
    string_of(&out)
}

/// Inverse of [`tar_name_for_tag`]
/// (`base--a1b2c3d4.tar` → `harmont-local/base:a1b2c3d4`).
pub fn tag_from_tar_name(filename: &str) -> (r: Option<String>)
    ensures
        match r {
            Some(t) => tag_of_tar(filename@) == Some(t@),
            None => tag_of_tar(filename@) is None,
        },
{
    proof {
        reveal_strlit("harmont-local/");
        reveal_strlit("--");
        reveal_strlit(".tar");
        reveal_strlit(":");
    }
    let f = chars_of(filename);
    let n = f.len();
    if !(n >= 4 && f[n - 4] == '.' && f[n - 3] == 't' && f[n - 2] == 'a' && f[n - 1] == 'r') {
        proof {
            if n >= 4 && f@.subrange(n - 4, n as int) == ".tar"@ {
                assert(f@.subrange(n - 4, n as int)[0] == f@[n - 4]);
                assert(f@.subrange(n - 4, n as int)[1] == f@[n - 3]);
                assert(f@.subrange(n - 4, n as int)[2] == f@[n - 2]);
                assert(f@.subrange(n - 4, n as int)[3] == f@[n - 1]);
            }
        }
        return None;
    }
    proof {
        assert(f@.subrange(n - 4, n as int) =~= ".tar"@);
    }
    let stem = slice(&f, 0, n - 4);
    let sep = chars_of("--");
    match find_from(&stem, 0, &sep) {
        Some(i) => {
            proof {
                assert(first_occurrence_from(stem@, "--"@, 0, i as int));
                let j = choose|j: int| #[trigger] first_occurrence_from(stem@, "--"@, 0, j);
                if j < i {
                    assert(!occurs_at(stem@, sep@, j));
                } else if j > i {
                    assert(!occurs_at(stem@, sep@, i as int));
                }
            }
            let mut out: Vec<char> = chars_of(LOCAL_PREFIX);
            let name = slice(&stem, 0, i);
            push_chars(&mut out, &name);
            out.push(':');
            let sn = stem.len();
            let hash = slice(&stem, i + 2, sn);
            push_chars(&mut out, &hash);
            proof {
                assert(out@ =~= LOCAL_PREFIX@ + name@ + ":"@ + hash@);
            }
            Some(string_of(&out))
        },
        None => {
            proof {
                assert(!exists|j: int| #[trigger] first_occurrence_from(stem@, "--"@, 0, j));
            }
            None
        },
    }
}

/// A manifest: its format version and the image tag of each cached step.
#[derive(Debug)]
pub struct Manifest {
    pub version: u32,
    pub images: StrMap<String>,
}

impl Manifest {
    /// An empty manifest of the current version.
    pub fn new() -> (m: Self)
        ensures
            m.version == 1,
            m.images.as_map() == Map::<Seq<char>, String>::empty(),
    {
        let images: StrMap<String> = StrMap::new();
        proof {
            assert(images.as_map() =~= Map::<Seq<char>, String>::empty());
        }
        Manifest { version: 1, images }
    }
}

/// The content hash of a manifest's JSON serialisation: the SHA-256 of the
/// text, first eight bytes, as sixteen lowercase hex digits.
pub fn content_hash(json: &str) -> (h: String)
    ensures
        h@ == hex_lower(sha256_digest(vstd::utf8::encode_utf8(json@)).subrange(0, 8)),
        h@.len() == 16,
        forall|i: int| 0 <= i < h@.len() ==> is_hex_char(#[trigger] h@[i]),
{
    let d = sha256(json.as_bytes());
    let mut head: Vec<u8> = Vec::new();
    let mut i: usize = 0;
    while i < 8
        invariant
            i <= 8,
            d@.len() == 32,
            head@ == d@.subrange(0, i as int),
        decreases 8 - i,
    {
        head.push(d[i]);
        proof {
            assert(d@.subrange(0, i + 1) =~= d@.subrange(0, i as int).push(d@[i as int]));
        }
        i = i + 1;
    }
    let h = hex_encode(head.as_slice());
    proof {
        lemma_hex_lower(head@);
    }
    h
}

/// `s` has no `:`.
pub open spec fn no_colon(s: Seq<char>) -> bool {
    forall|i: int| 0 <= i < s.len() ==> s[i] != ':'
}

proof fn lemma_dashed_plain(s: Seq<char>)
    requires
        no_colon(s),
    ensures
        dashed(s) == s,
    decreases s.len(),
{
    if s.len() > 0 {
        lemma_dashed_plain(s.drop_last());
        assert(dashed(s.drop_last()) + seq![s.last()] =~= s);
    }
}

proof fn lemma_dashed_concat(a: Seq<char>, b: Seq<char>)
    ensures
        dashed(a + b) == dashed(a) + dashed(b),
    decreases b.len(),
{
    if b.len() == 0 {
        assert(a + b =~= a);
        assert(dashed(a) + Seq::<char>::empty() =~= dashed(a));
    } else {
        lemma_dashed_concat(a, b.drop_last());
        assert((a + b).drop_last() =~= a + b.drop_last());
    }
}

/// Archive names round-trip: a cached image tag
/// `harmont-local/<name>:<hash>` whose name holds no `:` and no `--` and
/// does not end in `-`, and whose hash holds no `:`, is recovered from its
/// tar file name.
pub proof fn lemma_tar_name_round_trip(name: Seq<char>, hash: Seq<char>)
    requires
        no_colon(name),
        no_colon(hash),
        forall|i: int| #![trigger name[i]] 0 <= i < name.len() - 1 ==> !(name[i] == '-' && name[i + 1] == '-'),
        name.len() > 0 ==> name.last() != '-',
    ensures
        tag_of_tar(tar_name(LOCAL_PREFIX@ + name + ":"@ + hash)) == Some(LOCAL_PREFIX@ + name + ":"@ + hash),
{
    reveal_strlit("harmont-local/");
    reveal_strlit("--");
    reveal_strlit(".tar");
    reveal_strlit(":");
    let p = LOCAL_PREFIX@;
    let tag = p + name + ":"@ + hash;
    assert(tag.subrange(0, p.len() as int) =~= p);
    let rest = tag.subrange(p.len() as int, tag.len() as int);
    assert(rest =~= name + (":"@ + hash));
    lemma_dashed_concat(name, ":"@ + hash);
    lemma_dashed_concat(":"@, hash);
    lemma_dashed_plain(name);
    lemma_dashed_plain(hash);
    assert(dashed(":"@) =~= "--"@) by {
        assert(":"@.len() == 1 && ":"@[0] == ':');
        assert(":"@.drop_last() =~= Seq::<char>::empty());
        assert(dashed(Seq::<char>::empty()) == Seq::<char>::empty());
        assert(":"@.last() == ':');
    }
    let stem = name + "--"@ + hash;
    assert(dashed(rest) =~= stem);
    let f = stem + ".tar"@;
    assert(tar_name(tag) =~= f);
    let n = f.len();
    assert(f.subrange(n - 4, n as int) =~= ".tar"@);
    assert(f.subrange(0, n - 4) =~= stem);
    let k = name.len() as int;
    assert(occurs_at(stem, "--"@, k)) by {
        assert(stem.subrange(k, k + 2) =~= "--"@);
    }
    assert forall|j: int| 0 <= j < k implies !occurs_at(stem, "--"@, j) by {
        if occurs_at(stem, "--"@, j) {
            assert(stem.subrange(j, j + 2)[0] == stem[j]);
            assert(stem.subrange(j, j + 2)[1] == stem[j + 1]);
            if j < k - 1 {
                assert(stem[j] == name[j] && stem[j + 1] == name[j + 1]);
            } else {
                assert(stem[j] == name[j]);
            }
        }
    }
    assert(first_occurrence_from(stem, "--"@, 0, k));
    let i = choose|i: int| #[trigger] first_occurrence_from(stem, "--"@, 0, i);
    if i < k {
        assert(!occurs_at(stem, "--"@, i));
    } else if i > k {
        assert(!occurs_at(stem, "--"@, k));
    }
    assert(stem.subrange(0, k) =~= name);
    assert(stem.subrange(k + 2, stem.len() as int) =~= hash);
}

} // verus!
