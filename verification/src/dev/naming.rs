//! Worktree-hash, session-id, container / network name formatters.

use vstd::prelude::*;

use rand::Rng;

use crate::digest::{hex_encode, hex_lower, is_hex_char, lemma_hex_lower, sha1, sha1_digest};
use crate::text::{push_str, string_of};

verus! {

pub const LABEL_WORKTREE: &'static str = "harmont.worktree";

pub const LABEL_SLUG: &'static str = "harmont.slug";

pub const LABEL_SESSION: &'static str = "harmont.session";

pub const LABEL_DRIVER: &'static str = "harmont.driver";

pub const DRIVER_LOCAL: &'static str = "local";

/// The identity of a worktree: hex of the first five bytes of the SHA-1 of
/// its path text.
pub open spec fn worktree_hash_of(path: Seq<char>) -> Seq<char> {
    hex_lower(sha1_digest(vstd::utf8::encode_utf8(path)).subrange(0, 5))
}

/// Stable 10-hex-char identity for a worktree, derived from the
/// canonical absolute path (as text). Used as a Docker container/network
/// name component and as a label value.
pub fn worktree_hash(path: &str) -> (h: String)
    ensures
        h@ == worktree_hash_of(path@),
        h@.len() == 10,
        forall|i: int| 0 <= i < h@.len() ==> is_hex_char(#[trigger] h@[i]),
{
    let d = sha1(path.as_bytes());
    let head = first_bytes(&d, 5);
    let h = hex_encode(head.as_slice());
    proof {
        lemma_hex_lower(head@);
    }
    h
}

/// The first `n` bytes of `d`.
fn first_bytes(d: &Vec<u8>, n: usize) -> (r: Vec<u8>)
    requires
        n <= d@.len(),
    ensures
        r@ == d@.subrange(0, n as int),
{
    let mut r: Vec<u8> = Vec::new();
    let mut i: usize = 0;
    while i < n
        invariant
            i <= n,
            n <= d@.len(),
            r@ == d@.subrange(0, i as int),
        decreases n - i,
    {
        r.push(d[i]);
        proof {
            assert(d@.subrange(0, i + 1) =~= d@.subrange(0, i as int).push(d@[i as int]));
        }
        i = i + 1;
    }
    r
}

/// `b` is an ASCII letter or digit.
pub open spec fn is_alphanumeric_byte(b: u8) -> bool {
    (48 <= b <= 57) || (65 <= b <= 90) || (97 <= b <= 122)
}

/// `rand::distributions::Alphanumeric` sampled `n` times from the thread
/// RNG: `n` random bytes, each an ASCII letter or digit.
#[verifier::external_body]
fn random_alphanumeric(n: usize) -> (v: Vec<u8>)
    ensures
        v@.len() == n,
        forall|i: int| 0 <= i < n ==> is_alphanumeric_byte(#[trigger] v@[i]),
{
    rand::thread_rng().sample_iter(rand::distributions::Alphanumeric).take(n).collect()
}

/// 6 hex chars from a cryptographically secure RNG: the first three bytes
/// of the SHA-1 of 64 random alphanumeric bytes. Each `hm dev up` generates
/// its own.
pub fn fresh_session_id() -> (s: String)
    ensures
        s@.len() == 6,
        forall|i: int| 0 <= i < s@.len() ==> is_hex_char(#[trigger] s@[i]),
        exists|raw: Seq<u8>|
            raw.len() == 64 && (forall|i: int| 0 <= i < 64 ==> is_alphanumeric_byte(#[trigger] raw[i])) && s@
                == hex_lower(#[trigger] sha1_digest(raw).subrange(0, 3)),
{
    let raw = random_alphanumeric(64);
    let d = sha1(raw.as_slice());
    let head = first_bytes(&d, 3);
    let s = hex_encode(head.as_slice());
    proof {
        lemma_hex_lower(head@);
    }
    s
}

/// `hm-<worktree_hash>-<slug>-<session>`.
pub fn container_name(worktree_hash: &str, slug: &str, session: &str) -> (r: String)
    ensures
        r@ == "hm-"@ + worktree_hash@ + "-"@ + slug@ + "-"@ + session@,
{
    let mut out: Vec<char> = Vec::new();
    push_str(&mut out, "hm-");
    push_str(&mut out, worktree_hash);
    push_str(&mut out, "-");
    push_str(&mut out, slug);
    push_str(&mut out, "-");
    push_str(&mut out, session);
    string_of(&out)
}

/// `hm-<worktree_hash>-<session>`.
pub fn network_name(worktree_hash: &str, session: &str) -> (r: String)
    ensures
        r@ == "hm-"@ + worktree_hash@ + "-"@ + session@,
{
    let mut out: Vec<char> = Vec::new();
    push_str(&mut out, "hm-");
    push_str(&mut out, worktree_hash);
    push_str(&mut out, "-");
    push_str(&mut out, session);
    string_of(&out)
}

} // verus!
