//! Convert a registry `LocalSpec` into a runnable service spec.

use vstd::prelude::*;

use crate::dev::naming::{container_name, DRIVER_LOCAL, LABEL_DRIVER, LABEL_SESSION, LABEL_SLUG, LABEL_WORKTREE};
use crate::dev::registry::{LocalSpec, PORT_SENTINEL};
use crate::path::{join_text, joined};
use crate::smap::StrMap;
use crate::text::{chars_of, last_index, last_index_of, push_chars, push_str, same, string_of};

verus! {

/// Resolved spec for one deployment, ready to hand to the Docker client.
#[derive(Debug)]
pub struct ResolvedSpec {
    pub slug: String,
    pub container_name: String,
    pub image: String,
    pub env: Vec<String>,
    pub cmd: Option<Vec<String>>,
    pub workdir: Option<String>,
    pub binds: Vec<String>,
    pub publish: Vec<u16>,
    pub network: String,
    pub labels: StrMap<String>,
}

/// What the Docker client is asked to start: image, container name, and
/// the container's environment, command, working directory, binds,
/// published ports, network (with the slug as its alias there) and labels.
#[derive(Debug)]
pub struct ServiceSpec<'a> {
    pub image: &'a str,
    pub name: &'a str,
    pub env: Vec<String>,
    pub cmd: Option<Vec<String>>,
    pub workdir: Option<&'a str>,
    pub binds: Vec<String>,
    pub publish: Vec<u16>,
    pub network: &'a str,
    pub alias: &'a str,
    pub labels: StrMap<String>,
}

/// Copies of a list of strings.
fn clone_strings(v: &Vec<String>) -> (r: Vec<String>)
    ensures
        r@.len() == v@.len(),
        forall|i: int| 0 <= i < v@.len() ==> #[trigger] r@[i]@ == v@[i]@,
{
    let mut r: Vec<String> = Vec::new();
    let mut i: usize = 0;
    while i < v.len()
        invariant
            i <= v@.len(),
            r@.len() == i,
            forall|k: int| 0 <= k < i ==> #[trigger] r@[k]@ == v@[k]@,
        decreases v@.len() - i,
    {
        r.push(v[i].clone());
        i = i + 1;
    }
    r
}

impl ResolvedSpec {
    /// The service spec that starts this deployment.
    pub fn as_service_spec(&self) -> (s: ServiceSpec<'_>)
        ensures
            s.image@ == self.image@,
            s.name@ == self.container_name@,
            s.env@.len() == self.env@.len(),
            forall|i: int| 0 <= i < self.env@.len() ==> #[trigger] s.env@[i]@ == self.env@[i]@,
            s.cmd is Some <==> self.cmd is Some,
            s.cmd matches Some(c) ==> c@.len() == self.cmd->0@.len() && forall|i: int|
                0 <= i < c@.len() ==> #[trigger] c@[i]@ == self.cmd->0@[i]@,
            s.workdir is Some <==> self.workdir is Some,
            s.workdir matches Some(w) ==> w@ == self.workdir->0@,
            s.binds@.len() == self.binds@.len(),
            forall|i: int| 0 <= i < self.binds@.len() ==> #[trigger] s.binds@[i]@ == self.binds@[i]@,
            s.publish@ == self.publish@,
            s.network@ == self.network@,
            s.alias@ == self.slug@,
            s.labels.kseq() == self.labels.kseq(),
            s.labels.vseq().len() == self.labels.vseq().len(),
            forall|i: int| 0 <= i < self.labels.vseq().len() ==> #[trigger] s.labels.vseq()[i]@ == self.labels.vseq()[i]@,
    {
        let cmd = match &self.cmd {
            Some(c) => Some(clone_strings(c)),
            None => None,
        };
        let workdir = match &self.workdir {
            Some(w) => Some(w.as_str()),
            None => None,
        };
        ServiceSpec {
            image: self.image.as_str(),
            name: self.container_name.as_str(),
            env: clone_strings(&self.env),
            cmd,
            workdir,
            binds: clone_strings(&self.binds),
            publish: self.publish.clone(),
            network: self.network.as_str(),
            alias: self.slug.as_str(),
            labels: self.labels.duplicate(),
        }
    }
}

// ---------------------------------------------------------------------
// Port keys.
// ---------------------------------------------------------------------

/// `c` is an ASCII digit.
pub open spec fn is_digit(c: char) -> bool {
    '0' <= c && c <= '9'
}

/// The value of a string of ASCII digits.
pub open spec fn digits_value(s: Seq<char>) -> nat
    decreases s.len(),
{
    if s.len() == 0 {
        0
    } else {
        digits_value(s.drop_last()) * 10 + (s.last() as nat - 48) as nat
    }
}

/// `u16::from_str`: an optional `+`, then one or more ASCII digits whose
/// value fits in 16 bits.
pub open spec fn u16_text(s: Seq<char>) -> Option<u16> {
    let d = unsigned_digits(s);
    if d.len() > 0 && all_digits(d) && digits_value(d) <= 65535 {
        Some(digits_value(d) as u16)
    } else {
        None
    }
}

/// The text after an optional leading `+`.
pub open spec fn unsigned_digits(s: Seq<char>) -> Seq<char> {
    if s.len() > 0 && s[0] == '+' {
        s.subrange(1, s.len() as int)
    } else {
        s
    }
}

/// Every character is an ASCII digit.
pub open spec fn all_digits(d: Seq<char>) -> bool {
    forall|i: int| 0 <= i < d.len() ==> is_digit(#[trigger] d[i])
}

/// Parses a port number as `u16::from_str` does.
pub fn parse_u16(s: &str) -> (r: Option<u16>)
    ensures
        r == u16_text(s@),
{
    let c = chars_of(s);
    let start: usize = if c.len() > 0 && c[0] == '+' { 1 } else { 0 };
    let ghost d = unsigned_digits(s@);
    proof {
        assert(d =~= c@.subrange(start as int, c@.len() as int));
    }
    if start == c.len() {
        return None;
    }
    let mut acc: u32 = 0;
    let mut all_digits = true;
    let mut i: usize = start;
    while i < c.len()
        invariant
            start <= i <= c@.len(),
            d == c@.subrange(start as int, c@.len() as int),
            all_digits == forall|k: int| 0 <= k < i - start ==> is_digit(#[trigger] d[k]),
            all_digits ==> acc == if digits_value(d.subrange(0, i - start)) > 65536 {
                65536
            } else {
                digits_value(d.subrange(0, i - start))
            },
            acc <= 65536,
        decreases c@.len() - i,
    {
        let ch = c[i];
        proof {
            assert(d[i - start] == ch);
        }
        if '0' <= ch && ch <= '9' {
            if all_digits {
                let dv = (ch as u32) - 48;
                let next: u32 = if acc >= 65536 { 65536 } else {
                    let t = acc * 10 + dv;
                    if t > 65536 { 65536 } else { t }
                };
                proof {
                    let pre = d.subrange(0, i - start);
                    let now = d.subrange(0, i + 1 - start);
                    assert(now.drop_last() =~= pre);
                    assert(now.last() == ch);
                    assert(digits_value(now) == digits_value(pre) * 10 + (ch as nat - 48));
                }
                acc = next;
            }
        } else {
            all_digits = false;
        }
        i = i + 1;
    }
    proof {
        assert(d.subrange(0, c@.len() - start) =~= d);
        assert(d.len() > 0);
        if all_digits {
            assert(forall|k: int| 0 <= k < d.len() ==> is_digit(#[trigger] d[k]));
            assert(crate::dev::service_spec::all_digits(d));
            if acc <= 65535 {
                assert(digits_value(d) == acc);
            } else {
                assert(digits_value(d) > 65535);
            }
        } else {
            assert(!(forall|k: int| 0 <= k < d.len() ==> is_digit(#[trigger] d[k])));
            assert(!crate::dev::service_spec::all_digits(d));
        }
    }
    if all_digits && acc <= 65535 {
        Some(acc as u16)
    } else {
        None
    }
}

/// The container-port keys whose value is the port sentinel, in key order.
pub open spec fn sentinel_keys(ks: Seq<Seq<char>>, vs: Seq<String>) -> Seq<Seq<char>>
    decreases ks.len(),
{
    if ks.len() == 0 {
        Seq::empty()
    } else {
        let rest = sentinel_keys(ks.drop_last(), vs);
        if vs[ks.len() - 1]@ == PORT_SENTINEL@ {
            rest.push(ks.last())
        } else {
            rest
        }
    }
}

/// The ports the keys name, or the first key that names none.
pub open spec fn parse_ports(ks: Seq<Seq<char>>) -> Result<Seq<u16>, Seq<char>>
    decreases ks.len(),
{
    if ks.len() == 0 {
        Ok(Seq::empty())
    } else {
        match parse_ports(ks.drop_last()) {
            Err(e) => Err(e),
            Ok(ps) => match u16_text(ks.last()) {
                Some(v) => Ok(ps.push(v)),
                None => Err(ks.last()),
            },
        }
    }
}

// ---------------------------------------------------------------------
// Binds and environment.
// ---------------------------------------------------------------------

/// A container path with an optional `:ro` / `:rw` suffix, split into the
/// path and the mode (`rw` when none is given).
pub open spec fn split_mode(c: Seq<char>) -> (Seq<char>, Seq<char>) {
    let i = last_index_of(c, ':');
    if i >= 0 && (c.subrange(i + 1, c.len() as int) == "ro"@ || c.subrange(i + 1, c.len() as int) == "rw"@) {
        (c.subrange(0, i), c.subrange(i + 1, c.len() as int))
    } else {
        (c, "rw"@)
    }
}

/// The Docker bind for host path `host` (relative ones taken from
/// `root`) mounted at `container`: `host:path`, plus `:ro` when read-only.
pub open spec fn bind_text(root: Seq<char>, host: Seq<char>, container: Seq<char>) -> Seq<char> {
    let (cpath, mode) = split_mode(container);
    joined(root, host) + ":"@ + cpath + if mode == "rw"@ { Seq::empty() } else { ":"@ + mode }
}

/// `KEY=value` for an environment entry.
pub open spec fn env_text(k: Seq<char>, v: Seq<char>) -> Seq<char> {
    k + "="@ + v
}

/// `s` is exactly the two characters `a`, `b`.
fn is_pair(s: &Vec<char>, from: usize, a: char, b: char) -> (r: bool)
    requires
        from <= s@.len(),
    ensures
        r == (s@.subrange(from as int, s@.len() as int) == seq![a, b]),
{
    let r = s.len() - from == 2 && s[from] == a && s[from + 1] == b;
    proof {
        let t = s@.subrange(from as int, s@.len() as int);
        if t == seq![a, b] {
            assert(t.len() == 2 && t[0] == a && t[1] == b);
        }
        if r {
            assert(t =~= seq![a, b]);
        }
    }
    r
}

/// One Docker bind.
fn bind_for(root: &str, host: &str, container: &str) -> (r: String)
    ensures
        r@ == bind_text(root@, host@, container@),
{
    proof {
        reveal_strlit("ro");
        reveal_strlit("rw");
        reveal_strlit(":");
    }
    let mut out: Vec<char> = Vec::new();
    let host_abs = join_text(root, host);
    push_str(&mut out, host_abs.as_str());
    out.push(':');
    let c = chars_of(container);
    let mut ro = false;
    match last_index(&c, ':') {
        Some(i) => {
            assert(c@.len() == c.len());
            let is_ro = is_pair(&c, i + 1, 'r', 'o');
            let is_rw = is_pair(&c, i + 1, 'r', 'w');
            if is_ro || is_rw {
                let mut k: usize = 0;
                let ghost base = out@;
                while k < i
                    invariant
                        k <= i < c@.len(),
                        out@ == base + c@.subrange(0, k as int),
                    decreases i - k,
                {
                    out.push(c[k]);
                    proof {
                        assert(c@.subrange(0, k + 1) =~= c@.subrange(0, k as int).push(c@[k as int]));
                    }
                    k = k + 1;
                }
                ro = is_ro;
            } else {
                push_chars(&mut out, &c);
            }
        },
        None => {
            push_chars(&mut out, &c);
        },
    }
    if ro {
        out.push(':');
        out.push('r');
        out.push('o');
    }
    proof {
        assert("ro"@ =~= seq!['r', 'o']);
        assert("rw"@ =~= seq!['r', 'w']);
        let (cpath, mode) = split_mode(container@);
        if ro {
            assert(mode =~= "ro"@);
            assert(out@ =~= joined(root@, host@) + ":"@ + cpath + (":"@ + mode));
        } else {
            assert(mode =~= "rw"@);
            assert(out@ =~= joined(root@, host@) + ":"@ + cpath + Seq::<char>::empty());
        }
    }
    string_of(&out)
}

/// The Docker binds for a deployment's volumes, in host-path order.
pub fn resolve_binds(worktree_root: &str, volumes: &StrMap<String>) -> (r: Vec<String>)
    ensures
        r@.len() == volumes.size(),
        forall|i: int|
            0 <= i < volumes.size() ==> #[trigger] r@[i]@ == bind_text(
                worktree_root@,
                volumes.kseq()[i],
                volumes.vseq()[i]@,
            ),
{
    let n = volumes.len();
    let mut out: Vec<String> = Vec::new();
    let mut i: usize = 0;
    while i < n
        invariant
            i <= n,
            n == volumes.size(),
            n == volumes.vseq().len(),
            out@.len() == i,
            forall|k: int|
                0 <= k < i ==> #[trigger] out@[k]@ == bind_text(worktree_root@, volumes.kseq()[k], volumes.vseq()[k]@),
        decreases n - i,
    {
        let b = bind_for(worktree_root, volumes.key_at(i).as_str(), volumes.value_at(i).as_str());
        out.push(b);
        i = i + 1;
    }
    out
}

/// Why a spec could not be built.
#[derive(Debug)]
pub enum SpecError {
    /// A published port key is not a valid `u16`.
    BadPort(String),
}

impl SpecError {
    /// The user-facing message.
    pub fn message(&self) -> (m: String)
        ensures
            match self {
                SpecError::BadPort(k) => m@ == "port_mapping key `"@ + k@ + "` is not a valid u16 \u{2014} registry-dump bug?"@,
            },
    {
        match self {
            SpecError::BadPort(k) => {
                let mut out: Vec<char> = Vec::new();
                push_str(&mut out, "port_mapping key `");
                push_str(&mut out, k.as_str());
                push_str(&mut out, "` is not a valid u16 \u{2014} registry-dump bug?");
                string_of(&out)
            },
        }
    }
}

/// The ports of the sentinel keys of `m[0..n]`.
fn published_ports(m: &StrMap<String>) -> (r: Result<Vec<u16>, String>)
    ensures
        match r {
            Ok(ps) => parse_ports(sentinel_keys(m.kseq(), m.vseq())) == Ok::<Seq<u16>, Seq<char>>(ps@),
            Err(k) => parse_ports(sentinel_keys(m.kseq(), m.vseq())) == Err::<Seq<u16>, Seq<char>>(k@),
        },
{
    let n = m.len();
    let mut ps: Vec<u16> = Vec::new();
    let mut i: usize = 0;
    while i < n
        invariant
            i <= n,
            n == m.size(),
            n == m.vseq().len(),
            parse_ports(sentinel_keys(m.kseq().subrange(0, i as int), m.vseq())) == Ok::<Seq<u16>, Seq<char>>(ps@),
        decreases n - i,
    {
        let ghost pre = m.kseq().subrange(0, i as int);
        let ghost now = m.kseq().subrange(0, i + 1);
        proof {
            assert(now.drop_last() =~= pre);
        }
        if same(m.value_at(i).as_str(), PORT_SENTINEL) {
            match parse_u16(m.key_at(i).as_str()) {
                Some(v) => {
                    ps.push(v);
                    proof {
                        assert(sentinel_keys(now, m.vseq()).drop_last() =~= sentinel_keys(pre, m.vseq()));
                    }
                },
                None => {
                    proof {
                        assert(sentinel_keys(now, m.vseq()).drop_last() =~= sentinel_keys(pre, m.vseq()));
                        lemma_ports_err_extends(m.kseq(), m.vseq(), i as int + 1);
                    }
                    return Err(m.key_at(i).clone());
                },
            }
        }
        i = i + 1;
    }
    proof {
        assert(m.kseq().subrange(0, n as int) =~= m.kseq());
    }
    Ok(ps)
}

/// A failure on a prefix of the keys is the failure of the whole list.
proof fn lemma_ports_err_extends(ks: Seq<Seq<char>>, vs: Seq<String>, i: int)
    requires
        0 <= i <= ks.len(),
        parse_ports(sentinel_keys(ks.subrange(0, i), vs)) is Err,
    ensures
        parse_ports(sentinel_keys(ks, vs)) == parse_ports(sentinel_keys(ks.subrange(0, i), vs)),
    decreases ks.len() - i,
{
    if i < ks.len() {
        let pre = ks.subrange(0, i);
        let now = ks.subrange(0, i + 1);
        assert(now.drop_last() =~= pre);
        assert(sentinel_keys(now, vs).drop_last() =~= sentinel_keys(pre, vs) || sentinel_keys(now, vs) == sentinel_keys(pre, vs));
        lemma_ports_err_extends(ks, vs, i + 1);
    } else {
        assert(ks.subrange(0, i) =~= ks);
    }
}

/// The label map of a service: worktree, slug, session and driver.
pub open spec fn labels_ok(labels: &StrMap<String>, slug: Seq<char>, worktree_hash: Seq<char>, session: Seq<char>) -> bool {
    &&& labels.as_map().dom() == set![LABEL_WORKTREE@, LABEL_SLUG@, LABEL_SESSION@, LABEL_DRIVER@]
    &&& labels.as_map()[LABEL_WORKTREE@]@ == worktree_hash
    &&& labels.as_map()[LABEL_SLUG@]@ == slug
    &&& labels.as_map()[LABEL_SESSION@]@ == session
    &&& labels.as_map()[LABEL_DRIVER@]@ == DRIVER_LOCAL@
}

/// Build a `ResolvedSpec` from a `LocalSpec` + session metadata.
///
/// `image` is the resolved image tag (raw image from the spec, or the
/// committed tag for step-chain builds). Fails with the first published
/// port key (in key order) that is not a valid `u16`.
pub fn build(
    slug: &str,
    spec: &LocalSpec,
    image: &str,
    worktree_root: &str,
    worktree_hash: &str,
    session: &str,
    network: &str,
) -> (r: Result<ResolvedSpec, SpecError>)
    ensures
        match r {
            Err(SpecError::BadPort(k)) => parse_ports(sentinel_keys(spec.port_mapping.kseq(), spec.port_mapping.vseq()))
                == Err::<Seq<u16>, Seq<char>>(k@),
            Ok(rs) => {
                &&& parse_ports(sentinel_keys(spec.port_mapping.kseq(), spec.port_mapping.vseq()))
                    == Ok::<Seq<u16>, Seq<char>>(rs.publish@)
                &&& rs.slug@ == slug@
                &&& rs.container_name@ == "hm-"@ + worktree_hash@ + "-"@ + slug@ + "-"@ + session@
                &&& rs.image@ == image@
                &&& rs.env@.len() == spec.env.size()
                &&& forall|i: int|
                    0 <= i < spec.env.size() ==> #[trigger] rs.env@[i]@ == env_text(
                        spec.env.kseq()[i],
                        spec.env.vseq()[i]@,
                    )
                &&& rs.cmd is Some <==> spec.cmd is Some
                &&& rs.cmd matches Some(c) ==> c@.len() == spec.cmd->0@.len() && forall|i: int|
                    0 <= i < c@.len() ==> #[trigger] c@[i]@ == spec.cmd->0@[i]@
                &&& rs.workdir is Some <==> spec.workdir is Some
                &&& rs.workdir matches Some(w) ==> w@ == spec.workdir->0@
                &&& rs.binds@.len() == spec.volumes.size()
                &&& forall|i: int|
                    0 <= i < spec.volumes.size() ==> #[trigger] rs.binds@[i]@ == bind_text(
                        worktree_root@,
                        spec.volumes.kseq()[i],
                        spec.volumes.vseq()[i]@,
                    )
                &&& rs.network@ == network@
                &&& labels_ok(&rs.labels, slug@, worktree_hash@, session@)
            },
        },
{
    let n = spec.env.len();
    let mut env: Vec<String> = Vec::new();
    let mut i: usize = 0;
    while i < n
        invariant
            i <= n,
            n == spec.env.size(),
            n == spec.env.vseq().len(),
            env@.len() == i,
            forall|k: int| 0 <= k < i ==> #[trigger] env@[k]@ == env_text(spec.env.kseq()[k], spec.env.vseq()[k]@),
        decreases n - i,
    {
        let mut line: Vec<char> = Vec::new();
        push_str(&mut line, spec.env.key_at(i).as_str());
        push_str(&mut line, "=");
        push_str(&mut line, spec.env.value_at(i).as_str());
        env.push(string_of(&line));
        i = i + 1;
    }
    let binds = resolve_binds(worktree_root, &spec.volumes);
    let publish = match published_ports(&spec.port_mapping) {
        Ok(ps) => ps,
        Err(k) => {
            return Err(SpecError::BadPort(k));
        },
    };
    let mut labels: StrMap<String> = StrMap::new();
    proof {
        assert(labels.as_map() =~= Map::<Seq<char>, String>::empty());
    }
    labels.insert(LABEL_WORKTREE.to_owned(), worktree_hash.to_owned());
    labels.insert(LABEL_SLUG.to_owned(), slug.to_owned());
    labels.insert(LABEL_SESSION.to_owned(), session.to_owned());
    labels.insert(LABEL_DRIVER.to_owned(), DRIVER_LOCAL.to_owned());
    proof {
        reveal_strlit("harmont.worktree");
        reveal_strlit("harmont.slug");
        reveal_strlit("harmont.session");
        reveal_strlit("harmont.driver");
        assert(LABEL_WORKTREE@.len() == 16 && LABEL_SLUG@.len() == 12);
        assert(LABEL_SESSION@.len() == 15 && LABEL_DRIVER@.len() == 14);
        assert(labels.as_map().dom() =~= set![LABEL_WORKTREE@, LABEL_SLUG@, LABEL_SESSION@, LABEL_DRIVER@]);
    }
    let cmd = match &spec.cmd {
        Some(c) => Some(clone_strings(c)),
        None => None,
    };
    let workdir = match &spec.workdir {
        Some(w) => Some(w.clone()),
        None => None,
    };
    let rs = ResolvedSpec {
        slug: slug.to_owned(),
        container_name: container_name(worktree_hash, slug, session),
        image: image.to_owned(),
        env,
        cmd,
        workdir,
        binds,
        publish,
        network: network.to_owned(),
        labels,
    };
    Ok(rs)
}

} // verus!
