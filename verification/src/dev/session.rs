//! The decisions of the `hm dev` commands that work on live sessions:
//! which containers a command targets, what it answers when none or
//! several match, how published ports are listed, which image a
//! deployment boots from, and what `down` sweeps.

use vstd::prelude::*;
use vstd::relations::{sorted_by, total_ordering};

use crate::dev::registry::{FromSource, LocalSpec};
use crate::text::{decimal, push_decimal, push_str, string_of, views};

verus! {

/// A container as listed by Docker, reduced to what the commands read.
#[derive(Clone, Debug)]
pub struct ContainerInfo {
    pub id: Option<String>,
    /// The `harmont.slug` label.
    pub slug: Option<String>,
    /// The `harmont.session` label.
    pub session: Option<String>,
    /// The first of the container's names.
    pub name: Option<String>,
    /// The container's state (`running`, `exited`, ...).
    pub state: Option<String>,
}

/// A label's text, empty when the label is missing.
pub open spec fn label_or_empty(o: Option<String>) -> Seq<char> {
    match o {
        Some(s) => s@,
        None => Seq::empty(),
    }
}

/// Which containers a command targets.
#[derive(Clone, Debug)]
pub enum Selector {
    /// `logs` and `exec`: the slug label must be present and equal.
    Running { slug: String, session: Option<String> },
    /// `port-of`: a missing slug label reads as empty.
    Serving { slug: String, session: Option<String> },
    /// `down`: any of the slugs, or every slug when none is given.
    Sweep { slugs: Vec<String>, session: Option<String> },
}

/// The container belongs to the session asked for, if any (a missing
/// session label reads as empty).
pub open spec fn in_session(c: ContainerInfo, session: Option<String>) -> bool {
    match session {
        Some(s) => label_or_empty(c.session) == s@,
        None => true,
    }
}

/// Whether a selector targets a container (which must have an id).
pub open spec fn selects(sel: Selector, c: ContainerInfo) -> bool {
    c.id is Some && match sel {
        Selector::Running { slug, session } => c.slug is Some && c.slug->0@ == slug@ && in_session(c, session),
        Selector::Serving { slug, session } => label_or_empty(c.slug) == slug@ && in_session(c, session),
        Selector::Sweep { slugs, session } => in_session(c, session) && (slugs@.len() == 0 || views(
            slugs@,
        ).contains(label_or_empty(c.slug))),
    }
}

/// The positions of the selected containers, in listing order.
pub open spec fn picked(cs: Seq<ContainerInfo>, sel: Selector) -> Seq<int>
    decreases cs.len(),
{
    if cs.len() == 0 {
        Seq::empty()
    } else if selects(sel, cs.last()) {
        picked(cs.drop_last(), sel).push(cs.len() - 1)
    } else {
        picked(cs.drop_last(), sel)
    }
}

/// The positions `picked` holds are exactly those of the selected
/// containers, in increasing order.
proof fn lemma_picked_members(cs: Seq<ContainerInfo>, sel: Selector)
    ensures
        forall|i: int| #[trigger] picked(cs, sel).contains(i) <==> 0 <= i < cs.len() && selects(sel, cs[i]),
        forall|a: int, b: int| 0 <= a < b < picked(cs, sel).len() ==> picked(cs, sel)[a] < picked(cs, sel)[b],
        forall|a: int| 0 <= a < picked(cs, sel).len() ==> 0 <= #[trigger] picked(cs, sel)[a] < cs.len(),
    decreases cs.len(),
{
    if cs.len() > 0 {
        let d = cs.drop_last();
        lemma_picked_members(d, sel);
        let p = picked(d, sel);
        let q = picked(cs, sel);
        assert forall|i: int| #[trigger] q.contains(i) <==> 0 <= i < cs.len() && selects(sel, cs[i]) by {
            if 0 <= i < d.len() {
                assert(d[i] == cs[i]);
            }
            if q.contains(i) {
                let m = choose|m: int| 0 <= m < q.len() && q[m] == i;
                if m < p.len() {
                    assert(p[m] == i);
                    assert(p.contains(i));
                }
            }
            if 0 <= i < cs.len() && selects(sel, cs[i]) {
                if i < d.len() {
                    assert(p.contains(i));
                    let m = choose|m: int| 0 <= m < p.len() && p[m] == i;
                    assert(q[m] == i);
                } else {
                    assert(q[q.len() - 1] == i);
                }
            }
        }
    }
}

/// What a selector picks, filter by filter: only containers with an id;
/// when a session is named, only containers whose session label (empty
/// when missing) is that session, whatever else is named; for `Running`,
/// only containers whose slug label is present and equal to the slug; for
/// `Serving`, only those whose slug label (empty when missing) equals it;
/// for a `Sweep` naming slugs, only those whose slug label is one of them.
/// Every container with an id that passes its filters is picked, and the
/// picks come in listing order.
pub proof fn lemma_selection_filters(cs: Seq<ContainerInfo>, sel: Selector, i: int)
    requires
        0 <= i < cs.len(),
    ensures
        ({
            let c = cs[i];
            let session = match sel {
                Selector::Running { session, .. } => session,
                Selector::Serving { session, .. } => session,
                Selector::Sweep { session, .. } => session,
            };
            let session_ok = match session {
                Some(s) => label_or_empty(c.session) == s@,
                None => true,
            };
            let slug_ok = match sel {
                Selector::Running { slug, .. } => c.slug is Some && c.slug->0@ == slug@,
                Selector::Serving { slug, .. } => label_or_empty(c.slug) == slug@,
                Selector::Sweep { slugs, .. } => slugs@.len() == 0 || exists|k: int|
                    0 <= k < slugs@.len() && #[trigger] slugs@[k]@ == label_or_empty(c.slug),
            };
            picked(cs, sel).contains(i) <==> c.id is Some && session_ok && slug_ok
        }),
        forall|a: int, b: int| 0 <= a < b < picked(cs, sel).len() ==> picked(cs, sel)[a] < picked(cs, sel)[b],
{
    lemma_picked_members(cs, sel);
    assert(picked(cs, sel).contains(i) <==> selects(sel, cs[i]));
    match sel {
        Selector::Sweep { slugs, session } => {
            let l = label_or_empty(cs[i].slug);
            if views(slugs@).contains(l) {
                let k = choose|k: int| 0 <= k < views(slugs@).len() && views(slugs@)[k] == l;
                assert(slugs@[k]@ == l);
            }
            if exists|k: int| 0 <= k < slugs@.len() && #[trigger] slugs@[k]@ == l {
                let k = choose|k: int| 0 <= k < slugs@.len() && #[trigger] slugs@[k]@ == l;
                assert(views(slugs@)[k] == l);
            }
        },
        _ => {},
    }
}

/// Whether an optional label equals `s` (a missing label never does).
fn label_is(o: &Option<String>, s: &str) -> (b: bool)
    ensures
        b == (o is Some && o->0@ == s@),
{
    match o {
        Some(x) => crate::text::same(x.as_str(), s),
        None => false,
    }
}

/// Whether an optional label, read as empty when missing, equals `s`.
fn label_reads(o: &Option<String>, s: &str) -> (b: bool)
    ensures
        b == (label_or_empty(*o) == s@),
{
    match o {
        Some(x) => {
            let b = crate::text::same(x.as_str(), s);
            proof {
                assert(label_or_empty(*o) == x@);
            }
            b
        },
        None => {
            proof {
                reveal_strlit("");
                assert(""@ =~= Seq::<char>::empty());
            }
            crate::text::same("", s)
        },
    }
}

/// Whether the container belongs to the session asked for.
fn session_matches(c: &ContainerInfo, session: &Option<String>) -> (b: bool)
    ensures
        b == in_session(*c, *session),
{
    match session {
        Some(s) => label_reads(&c.session, s.as_str()),
        None => true,
    }
}

/// Whether a selector targets a container.
fn selects_exec(sel: &Selector, c: &ContainerInfo) -> (b: bool)
    ensures
        b == selects(*sel, *c),
{
    if c.id.is_none() {
        return false;
    }
    match sel {
        Selector::Running { slug, session } => label_is(&c.slug, slug.as_str()) && session_matches(c, session),
        Selector::Serving { slug, session } => label_reads(&c.slug, slug.as_str()) && session_matches(c, session),
        Selector::Sweep { slugs, session } => {
            if !session_matches(c, session) {
                return false;
            }
            if slugs.len() == 0 {
                return true;
            }
            let s = match &c.slug {
                Some(x) => x.clone(),
                None => String::new(),
            };
            proof {
                assert(s@ == label_or_empty(c.slug));
            }
            crate::text::contains_string(slugs, s.as_str())
        },
    }
}

/// The positions of the containers a selector targets, in listing order.
pub fn select_containers(containers: &Vec<ContainerInfo>, sel: &Selector) -> (r: Vec<usize>)
    ensures
        r@.map_values(|i: usize| i as int) == picked(containers@, *sel),
        forall|k: int| 0 <= k < r@.len() ==> #[trigger] r@[k] < containers@.len(),
{
    let mut r: Vec<usize> = Vec::new();
    let mut i: usize = 0;
    while i < containers.len()
        invariant
            i <= containers@.len(),
            r@.map_values(|j: usize| j as int) == picked(containers@.subrange(0, i as int), *sel),
            forall|k: int| 0 <= k < r@.len() ==> #[trigger] r@[k] < i,
        decreases containers@.len() - i,
    {
        let ghost before = r@;
        proof {
            let s = containers@.subrange(0, i + 1);
            assert(s.drop_last() =~= containers@.subrange(0, i as int));
            assert(s.last() == containers@[i as int]);
        }
        if selects_exec(sel, &containers[i]) {
            r.push(i);
            proof {
                assert(r@.map_values(|j: usize| j as int) =~= before.map_values(|j: usize| j as int).push(
                    i as int,
                ));
            }
        }
        i = i + 1;
    }
    proof {
        assert(containers@.subrange(0, containers@.len() as int) =~= containers@);
    }
    r
}

// ---------------------------------------------------------------------
// Attaching to a live deployment (`logs`, `exec`).
// ---------------------------------------------------------------------

/// Why `logs` or `exec` found no single container.
#[derive(Clone, Debug)]
pub enum AttachError {
    /// No container of the slug runs in this worktree.
    NotRunning(String),
    /// Several sessions run the slug.
    Ambiguous(String),
}

impl AttachError {
    /// The process exit code.
    pub fn exit_code(&self) -> (c: i32)
        ensures
            c == (match *self {
                AttachError::NotRunning(_) => 4i32,
                AttachError::Ambiguous(_) => 5i32,
            }),
    {
        match self {
            AttachError::NotRunning(_) => 4,
            AttachError::Ambiguous(_) => 5,
        }
    }

    /// The error's text.
    pub fn message(&self) -> (s: String)
        ensures
            s@ == (match *self {
                AttachError::NotRunning(slug) => "hm: slug `"@ + slug@ + "` is not running in this worktree.\n  \u{2192} run `hm dev up "@
                    + slug@ + "` first."@,
                AttachError::Ambiguous(slug) => "hm: slug `"@ + slug@ + "` matches multiple live sessions; pass --session <id>"@,
            }),
    {
        let mut out: Vec<char> = Vec::new();
        match self {
            AttachError::NotRunning(slug) => {
                push_str(&mut out, "hm: slug `");
                push_str(&mut out, slug.as_str());
                push_str(&mut out, "` is not running in this worktree.\n  \u{2192} run `hm dev up ");
                push_str(&mut out, slug.as_str());
                push_str(&mut out, "` first.");
            },
            AttachError::Ambiguous(slug) => {
                push_str(&mut out, "hm: slug `");
                push_str(&mut out, slug.as_str());
                push_str(&mut out, "` matches multiple live sessions; pass --session <id>");
            },
        }
        string_of(&out)
    }
}

/// The one container to attach to, among the picked ones.
pub fn attach_target(slug: &str, picked: &Vec<usize>) -> (r: Result<usize, AttachError>)
    ensures
        picked@.len() == 1 ==> r == Ok::<usize, AttachError>(picked@[0]),
        picked@.len() == 0 ==> (r matches Err(AttachError::NotRunning(s)) && s@ == slug@),
        picked@.len() > 1 ==> (r matches Err(AttachError::Ambiguous(s)) && s@ == slug@),
{
    if picked.len() == 1 {
        Ok(picked[0])
    } else if picked.len() == 0 {
        Err(AttachError::NotRunning(slug.to_owned()))
    } else {
        Err(AttachError::Ambiguous(slug.to_owned()))
    }
}

/// The command `exec` runs: the one given, else a login shell.
pub fn exec_command(cmd: &Vec<String>) -> (r: Vec<String>)
    ensures
        cmd@.len() > 0 ==> views(r@) == views(cmd@),
        cmd@.len() == 0 ==> views(r@) == seq!["sh"@, "-l"@],
{
    if cmd.len() == 0 {
        let r = vec!["sh".to_owned(), "-l".to_owned()];
        proof {
            assert(views(r@) =~= seq!["sh"@, "-l"@]);
        }
        r
    } else {
        let mut r: Vec<String> = Vec::new();
        let mut i: usize = 0;
        while i < cmd.len()
            invariant
                i <= cmd@.len(),
                views(r@) == views(cmd@.subrange(0, i as int)),
            decreases cmd@.len() - i,
        {
            r.push(cmd[i].clone());
            proof {
                assert(views(cmd@.subrange(0, i + 1)) =~= views(cmd@.subrange(0, i as int)).push(cmd@[i as int]@));
                assert(views(r@) =~= views(cmd@.subrange(0, i + 1)));
            }
            i = i + 1;
        }
        proof {
            assert(cmd@.subrange(0, cmd@.len() as int) =~= cmd@);
        }
        r
    }
}

// ---------------------------------------------------------------------
// Published ports.
// ---------------------------------------------------------------------

/// Port pairs `(container, host)` ordered by container port, then host.
pub open spec fn port_le(a: (u16, u16), b: (u16, u16)) -> bool {
    a.0 < b.0 || (a.0 == b.0 && a.1 <= b.1)
}

/// [`port_le`] as a relation.
pub open spec fn port_order() -> spec_fn((u16, u16), (u16, u16)) -> bool {
    |a: (u16, u16), b: (u16, u16)| port_le(a, b)
}

/// One published port: `localhost:<host> → :<container>`.
pub open spec fn port_entry_text(e: (u16, u16)) -> Seq<char> {
    "localhost:"@ + decimal(e.1 as nat) + " \u{2192} :"@ + decimal(e.0 as nat)
}

/// Port entries listed in the given order, separated by `, `.
pub open spec fn ports_listing(es: Seq<(u16, u16)>) -> Seq<char>
    decreases es.len(),
{
    if es.len() == 0 {
        Seq::empty()
    } else if es.len() == 1 {
        port_entry_text(es[0])
    } else {
        ports_listing(es.drop_last()) + ", "@ + port_entry_text(es.last())
    }
}

/// The published ports, sorted, as one line.
pub open spec fn ports_text(entries: Seq<(u16, u16)>) -> Seq<char> {
    ports_listing(entries.sort_by(port_order()))
}

/// [`port_order`] is a total order.
proof fn lemma_port_order_total()
    ensures
        total_ordering(port_order()),
{
    let r = port_order();
    assert forall|x: (u16, u16), y: (u16, u16)| #[trigger] r(x, y) && #[trigger] r(y, x) implies x == y by {
        assert(x.0 == y.0 && x.1 == y.1);
    }
}

/// The entries sorted by [`port_order`].
fn sort_ports(entries: &Vec<(u16, u16)>) -> (r: Vec<(u16, u16)>)
    ensures
        r@ == entries@.sort_by(port_order()),
{
    broadcast use vstd::seq_lib::group_to_multiset_ensures;

    let mut r: Vec<(u16, u16)> = Vec::new();
    let mut i: usize = 0;
    while i < entries.len()
        invariant
            i <= entries@.len(),
            sorted_by(r@, port_order()),
            r@.to_multiset() == entries@.subrange(0, i as int).to_multiset(),
        decreases entries@.len() - i,
    {
        let x = entries[i];
        let mut k: usize = 0;
        while k < r.len() && (r[k].0 < x.0 || (r[k].0 == x.0 && r[k].1 <= x.1))
            invariant
                k <= r@.len(),
                forall|j: int| 0 <= j < k ==> port_le(#[trigger] r@[j], x),
            decreases r@.len() - k,
        {
            k = k + 1;
        }
        let ghost before = r@;
        r.insert(k, x);
        proof {
            vstd::seq_lib::to_multiset_insert(before, k as int, x);
            assert(r@ == before.insert(k as int, x));
            assert(entries@.subrange(0, i + 1) =~= entries@.subrange(0, i as int).push(x));
            entries@.subrange(0, i as int).to_multiset_ensures();
            assert(r@.to_multiset() =~= entries@.subrange(0, i + 1).to_multiset());
            let ord = port_order();
            assert forall|a: int, b: int| 0 <= a < b < r@.len() implies #[trigger] ord(r@[a], r@[b]) by {
                if a < k && b < k {
                    assert(ord(before[a], before[b]));
                } else if a < k && b == k {
                    assert(port_le(before[a], x));
                } else if a < k && b > k {
                    assert(ord(before[a], before[b - 1]));
                } else if a == k {
                    assert(!port_le(before[k as int], x));
                    if b > k + 1 {
                        assert(ord(before[k as int], before[b - 1]));
                    }
                } else {
                    assert(ord(before[a - 1], before[b - 1]));
                }
            }
        }
        i = i + 1;
    }
    proof {
        assert(entries@.subrange(0, entries@.len() as int) =~= entries@);
        lemma_port_order_total();
        entries@.lemma_sort_by_ensures(port_order());
        vstd::seq_lib::lemma_sorted_unique(r@, entries@.sort_by(port_order()), port_order());
    }
    r
}

/// Published ports `(container, host)` as `localhost:<host> → :<container>`
/// entries, sorted, separated by `, `.
pub fn format_ports(entries: &Vec<(u16, u16)>) -> (s: String)
    ensures
        s@ == ports_text(entries@),
{
    let sorted = sort_ports(entries);
    let mut out: Vec<char> = Vec::new();
    let mut i: usize = 0;
    while i < sorted.len()
        invariant
            i <= sorted@.len(),
            out@ == ports_listing(sorted@.subrange(0, i as int)),
        decreases sorted@.len() - i,
    {
        proof {
            assert(sorted@.subrange(0, i + 1).drop_last() =~= sorted@.subrange(0, i as int));
        }
        if i > 0 {
            push_str(&mut out, ", ");
        }
        push_str(&mut out, "localhost:");
        push_decimal(&mut out, sorted[i].1 as u64);
        push_str(&mut out, " \u{2192} :");
        push_decimal(&mut out, sorted[i].0 as u64);
        proof {
            if i == 0 {
                assert(sorted@.subrange(0, 1) =~= seq![sorted@[0]]);
            }
        }
        i = i + 1;
    }
    proof {
        assert(sorted@.subrange(0, sorted@.len() as int) =~= sorted@);
    }
    string_of(&out)
}


// ---------------------------------------------------------------------
// `port-of`.
// ---------------------------------------------------------------------

/// Why `port-of` printed no port.
#[derive(Clone, Debug)]
pub enum PortOfError {
    /// The slug is registered but no container of it runs.
    RegisteredNotRunning(String),
    /// No container runs the slug and the registry does not list it.
    NotRegistered(String),
    /// Several sessions run the slug.
    Ambiguous(String),
    /// The container does not publish the port.
    NotPublished { slug: String, port: u16 },
}

/// The text of a `port-of` error (for several sessions, the first line of
/// the listing).
pub open spec fn port_of_error_text(e: PortOfError) -> Seq<char> {
    match e {
        PortOfError::RegisteredNotRunning(s) => "hm: slug `"@ + s@ + "` registered but not running in this worktree.\n  \u{2192} run `hm dev up "@
            + s@ + "` first."@,
        PortOfError::NotRegistered(s) => "hm: slug `"@ + s@ + "` not registered in this worktree's .harmont/.\n  \u{2192} run `hm dev ls` to see registered slugs."@,
        PortOfError::Ambiguous(s) => "hm: slug `"@ + s@ + "` matches multiple live sessions in this worktree:"@,
        PortOfError::NotPublished { slug, port } => "hm: container port `"@ + decimal(port as nat) + "` is not published by `"@
            + slug@ + "`.\n  \u{2192} check the deployment's port_mapping."@,
    }
}

/// The last line `port-of` prints when several sessions match.
pub const PORT_OF_SESSION_HINT: &'static str = "pass `--session <id>` or run `hm dev ls`.";

impl PortOfError {
    /// The process exit code: 4 when the deployment only needs starting,
    /// 5 otherwise.
    pub fn exit_code(&self) -> (c: i32)
        ensures
            c == (if self is RegisteredNotRunning {
                4i32
            } else {
                5i32
            }),
    {
        match self {
            PortOfError::RegisteredNotRunning(_) => 4,
            _ => 5,
        }
    }

    /// The error's text.
    pub fn message(&self) -> (s: String)
        ensures
            s@ == port_of_error_text(*self),
    {
        let mut out: Vec<char> = Vec::new();
        match self {
            PortOfError::RegisteredNotRunning(s) => {
                push_str(&mut out, "hm: slug `");
                push_str(&mut out, s.as_str());
                push_str(&mut out, "` registered but not running in this worktree.\n  \u{2192} run `hm dev up ");
                push_str(&mut out, s.as_str());
                push_str(&mut out, "` first.");
            },
            PortOfError::NotRegistered(s) => {
                push_str(&mut out, "hm: slug `");
                push_str(&mut out, s.as_str());
                push_str(
                    &mut out,
                    "` not registered in this worktree's .harmont/.\n  \u{2192} run `hm dev ls` to see registered slugs.",
                );
            },
            PortOfError::Ambiguous(s) => {
                push_str(&mut out, "hm: slug `");
                push_str(&mut out, s.as_str());
                push_str(&mut out, "` matches multiple live sessions in this worktree:");
            },
            PortOfError::NotPublished { slug, port } => {
                push_str(&mut out, "hm: container port `");
                push_decimal(&mut out, *port as u64);
                push_str(&mut out, "` is not published by `");
                push_str(&mut out, slug.as_str());
                push_str(&mut out, "`.\n  \u{2192} check the deployment's port_mapping.");
            },
        }
        string_of(&out)
    }
}

/// The `port-of` verdict on the number of matching containers: one is
/// needed; with none, whether the registry lists the slug decides.
pub fn port_of_lookup(slug: &str, matches: usize, registered: bool) -> (r: Result<(), PortOfError>)
    ensures
        matches == 1 ==> r is Ok,
        matches == 0 && registered ==> (r matches Err(PortOfError::RegisteredNotRunning(s)) && s@ == slug@),
        matches == 0 && !registered ==> (r matches Err(PortOfError::NotRegistered(s)) && s@ == slug@),
        matches > 1 ==> (r matches Err(PortOfError::Ambiguous(s)) && s@ == slug@),
{
    if matches == 0 {
        if registered {
            Err(PortOfError::RegisteredNotRunning(slug.to_owned()))
        } else {
            Err(PortOfError::NotRegistered(slug.to_owned()))
        }
    } else if matches > 1 {
        Err(PortOfError::Ambiguous(slug.to_owned()))
    } else {
        Ok(())
    }
}

/// One line of the listing of matching sessions: `  <session>  <ports>`.
pub fn session_ports_line(session: &str, ports: &Vec<(u16, u16)>) -> (s: String)
    ensures
        s@ == "  "@ + session@ + "  "@ + ports_text(ports@),
{
    let mut out: Vec<char> = Vec::new();
    push_str(&mut out, "  ");
    push_str(&mut out, session);
    push_str(&mut out, "  ");
    let p = format_ports(ports);
    push_str(&mut out, p.as_str());
    string_of(&out)
}

/// The host port bound to `container_port`: that of its first entry.
pub open spec fn host_port_of(es: Seq<(u16, u16)>, container_port: u16) -> Option<u16>
    decreases es.len(),
{
    if es.len() == 0 {
        None
    } else if host_port_of(es.drop_last(), container_port) is Some {
        host_port_of(es.drop_last(), container_port)
    } else if es.last().0 == container_port {
        Some(es.last().1)
    } else {
        None
    }
}

/// The host port published for `container_port`.
pub fn published_port(slug: &str, container_port: u16, ports: &Vec<(u16, u16)>) -> (r: Result<u16, PortOfError>)
    ensures
        host_port_of(ports@, container_port) matches Some(h) ==> r == Ok::<u16, PortOfError>(h),
        host_port_of(ports@, container_port) is None ==> (r matches Err(
            PortOfError::NotPublished { slug: s, port },
        ) && s@ == slug@ && port == container_port),
{
    let mut i: usize = 0;
    while i < ports.len()
        invariant
            i <= ports@.len(),
            host_port_of(ports@.subrange(0, i as int), container_port) is None,
        decreases ports@.len() - i,
    {
        proof {
            assert(ports@.subrange(0, i + 1).drop_last() =~= ports@.subrange(0, i as int));
        }
        if ports[i].0 == container_port {
            proof {
                lemma_host_port_prefix(ports@, container_port, i + 1);
            }
            return Ok(ports[i].1);
        }
        i = i + 1;
    }
    proof {
        assert(ports@.subrange(0, ports@.len() as int) =~= ports@);
    }
    Err(PortOfError::NotPublished { slug: slug.to_owned(), port: container_port })
}

/// A port found in a prefix is the port found in the whole list.
proof fn lemma_host_port_prefix(es: Seq<(u16, u16)>, p: u16, n: int)
    requires
        0 <= n <= es.len(),
        host_port_of(es.subrange(0, n), p) is Some,
    ensures
        host_port_of(es, p) == host_port_of(es.subrange(0, n), p),
    decreases es.len() - n,
{
    if n < es.len() {
        let m = n + 1;
        assert(es.subrange(0, m).drop_last() =~= es.subrange(0, n));
        lemma_host_port_prefix(es, p, m);
    } else {
        assert(es.subrange(0, n) =~= es);
    }
}

// ---------------------------------------------------------------------
// `up`.
// ---------------------------------------------------------------------

/// Where a deployment's image comes from.
#[derive(Clone, Debug)]
pub enum ImagePlan {
    /// A registry image, pulled when not present.
    Pull(String),
    /// An image built from a step chain under this tag, unless present.
    Build(String),
}

/// Why `up` cannot boot a deployment.
#[derive(Clone, Debug)]
pub enum UpError {
    /// The registry entry names neither an image nor a source.
    NoImageSource(String),
}

impl UpError {
    /// The error's text.
    pub fn message(&self) -> (s: String)
        ensures
            s@ == (match *self {
                UpError::NoImageSource(slug) => "deployment `"@ + slug@ + "` has neither image= nor from_=; registry-dump bug?"@,
            }),
    {
        let mut out: Vec<char> = Vec::new();
        match self {
            UpError::NoImageSource(slug) => {
                push_str(&mut out, "deployment `");
                push_str(&mut out, slug.as_str());
                push_str(&mut out, "` has neither image= nor from_=; registry-dump bug?");
            },
        }
        string_of(&out)
    }
}

/// The tag of an image built from a step chain:
/// `hm-build-<worktree>-<slug>:<key>`, the key being that of the chain's
/// last step, or `nocache`.
pub open spec fn build_tag(worktree_hash: Seq<char>, slug: Seq<char>, key: Option<String>) -> Seq<char> {
    "hm-build-"@ + worktree_hash + "-"@ + slug + ":"@ + match key {
        Some(k) => k@,
        None => "nocache"@,
    }
}

/// The image plan of a deployment: its `image` when set, else a build of
/// its step chain.
pub fn image_plan(slug: &str, spec: &LocalSpec, worktree_hash: &str) -> (r: Result<ImagePlan, UpError>)
    ensures
        spec.image matches Some(tag) ==> (r matches Ok(ImagePlan::Pull(t)) && t@ == tag@),
        spec.image is None ==> match spec.from {
            Some(FromSource::StepChain { terminal_key, .. }) => r matches Ok(ImagePlan::Build(t)) && t@
                == build_tag(worktree_hash@, slug@, terminal_key),
            None => r matches Err(UpError::NoImageSource(s)) && s@ == slug@,
        },
{
    match &spec.image {
        Some(tag) => Ok(ImagePlan::Pull(tag.clone())),
        None => match &spec.from {
            Some(FromSource::StepChain { terminal_key, .. }) => {
                let mut out: Vec<char> = Vec::new();
                push_str(&mut out, "hm-build-");
                push_str(&mut out, worktree_hash);
                push_str(&mut out, "-");
                push_str(&mut out, slug);
                push_str(&mut out, ":");
                match terminal_key {
                    Some(k) => push_str(&mut out, k.as_str()),
                    None => push_str(&mut out, "nocache"),
                }
                Ok(ImagePlan::Build(string_of(&out)))
            },
            None => Err(UpError::NoImageSource(slug.to_owned())),
        },
    }
}

/// Whether a step-chain image must be built: asked to, or not present.
pub fn needs_build(rebuild: bool, exists: bool) -> (b: bool)
    ensures
        b == (rebuild || !exists),
{
    rebuild || !exists
}

/// The length in bytes of a text.
pub open spec fn byte_len(s: Seq<char>) -> nat {
    vstd::utf8::encode_utf8(s).len()
}

/// The widest slug in bytes, or 4 when there is none.
pub open spec fn column_width(slugs: Seq<Seq<char>>) -> nat
    decreases slugs.len(),
{
    if slugs.len() == 0 {
        4
    } else if slugs.len() == 1 {
        byte_len(slugs[0])
    } else {
        let w = column_width(slugs.drop_last());
        let l = byte_len(slugs.last());
        if l > w {
            l
        } else {
            w
        }
    }
}

/// The slug column width of a session's log lines.
pub fn slug_width(slugs: &Vec<String>) -> (w: usize)
    ensures
        w == column_width(views(slugs@)),
{
    let mut w: usize = 4;
    let mut i: usize = 0;
    while i < slugs.len()
        invariant
            i <= slugs@.len(),
            i > 0 ==> w == column_width(views(slugs@.subrange(0, i as int))),
            i == 0 ==> w == 4,
        decreases slugs@.len() - i,
    {
        let l = slugs[i].as_str().as_bytes().len();
        proof {
            let p = views(slugs@.subrange(0, i + 1));
            assert(p.drop_last() =~= views(slugs@.subrange(0, i as int)));
            assert(p.last() == slugs@[i as int]@);
            assert(p.len() == i + 1);
        }
        if i == 0 || l > w {
            w = l;
        }
        i = i + 1;
    }
    proof {
        assert(slugs@.subrange(0, slugs@.len() as int) =~= slugs@);
        if slugs@.len() == 0 {
            assert(views(slugs@).len() == 0);
        }
    }
    w
}

/// The line `up` prints once a deployment is ready.
pub fn ready_line(slug: &str, container_name: &str, ports: &Vec<(u16, u16)>) -> (s: String)
    ensures
        s@ == "["@ + slug@ + "] ready  ( "@ + container_name@ + (if ports@.len() == 0 {
            Seq::empty()
        } else {
            " | "@ + ports_text(ports@)
        }) + " )"@,
{
    let mut out: Vec<char> = Vec::new();
    push_str(&mut out, "[");
    push_str(&mut out, slug);
    push_str(&mut out, "] ready  ( ");
    push_str(&mut out, container_name);
    if ports.len() > 0 {
        push_str(&mut out, " | ");
        let p = format_ports(ports);
        push_str(&mut out, p.as_str());
    }
    push_str(&mut out, " )");
    string_of(&out)
}


// ---------------------------------------------------------------------
// `down`.
// ---------------------------------------------------------------------

/// The sessions of the picked containers, in listing order (a missing
/// label reads as empty).
pub fn swept_sessions(containers: &Vec<ContainerInfo>, picked: &Vec<usize>) -> (r: Vec<String>)
    requires
        forall|k: int| 0 <= k < picked@.len() ==> #[trigger] picked@[k] < containers@.len(),
    ensures
        r@.len() == picked@.len(),
        forall|k: int| 0 <= k < picked@.len() ==> #[trigger] r@[k]@ == label_or_empty(
            containers@[picked@[k] as int].session,
        ),
{
    let mut r: Vec<String> = Vec::new();
    let mut k: usize = 0;
    while k < picked.len()
        invariant
            k <= picked@.len(),
            r@.len() == k,
            forall|j: int| 0 <= j < picked@.len() ==> #[trigger] picked@[j] < containers@.len(),
            forall|j: int| 0 <= j < k ==> #[trigger] r@[j]@ == label_or_empty(
                containers@[picked@[j] as int].session,
            ),
        decreases picked@.len() - k,
    {
        let c = &containers[picked[k]];
        let s = match &c.session {
            Some(x) => x.clone(),
            None => String::new(),
        };
        r.push(s);
        k = k + 1;
    }
    r
}

/// The network of a session of this worktree.
pub open spec fn session_network_name(worktree_hash: Seq<char>, session: Seq<char>) -> Seq<char> {
    "hm-"@ + worktree_hash + "-"@ + session
}

/// The networks `down` removes: one per distinct swept session, in
/// session order; none when sweeping every worktree.
pub fn sweep_networks(worktree_hash: &str, sessions: &Vec<String>, all: bool) -> (r: Vec<String>)
    ensures
        all ==> r@.len() == 0,
        !all ==> exists|ks: Seq<Seq<char>>|
            #![trigger crate::smap::strictly_sorted(ks)]
            crate::smap::strictly_sorted(ks) && ks.to_set() == views(sessions@).to_set() && views(r@)
                == ks.map_values(|s: Seq<char>| session_network_name(worktree_hash@, s)),
{
    let mut r: Vec<String> = Vec::new();
    if all {
        return r;
    }
    let mut m: crate::smap::StrMap<bool> = crate::smap::StrMap::new();
    let mut i: usize = 0;
    proof {
        assert(m.as_map().dom() =~= views(sessions@.subrange(0, 0)).to_set());
    }
    while i < sessions.len()
        invariant
            i <= sessions@.len(),
            m.as_map().dom() == views(sessions@.subrange(0, i as int)).to_set(),
        decreases sessions@.len() - i,
    {
        m.insert(sessions[i].clone(), true);
        proof {
            assert(views(sessions@.subrange(0, i + 1)) =~= views(sessions@.subrange(0, i as int)).push(
                sessions@[i as int]@,
            ));
            views(sessions@.subrange(0, i as int)).lemma_push_to_set_commute(sessions@[i as int]@);
            assert(m.as_map().dom() =~= views(sessions@.subrange(0, i + 1)).to_set());
        }
        i = i + 1;
    }
    proof {
        assert(sessions@.subrange(0, sessions@.len() as int) =~= sessions@);
        use_type_invariant(&m);
        m.lemma_inv();
        assert(m.kseq().to_set() =~= m.as_map().dom());
    }
    let mut j: usize = 0;
    let n = m.len();
    while j < n
        invariant
            j <= n,
            n == m.kseq().len(),
            views(r@) == m.kseq().subrange(0, j as int).map_values(
                |s: Seq<char>| session_network_name(worktree_hash@, s),
            ),
        decreases n - j,
    {
        let k = m.key_at(j);
        let ghost before = r@;
        let name = crate::dev::naming::network_name(worktree_hash, k.as_str());
        r.push(name);
        proof {
            let f = |s: Seq<char>| session_network_name(worktree_hash@, s);
            assert(views(r@) =~= views(before).push(name@));
            assert(m.kseq().subrange(0, j + 1) =~= m.kseq().subrange(0, j as int).push(m.kseq()[j as int]));
            assert(name@ == f(m.kseq()[j as int]));
            assert(views(r@) =~= m.kseq().subrange(0, j + 1).map_values(
                |s: Seq<char>| session_network_name(worktree_hash@, s),
            ));
        }
        j = j + 1;
    }
    proof {
        assert(m.kseq().subrange(0, n as int) =~= m.kseq());
        assert(crate::smap::strictly_sorted(m.kseq()));
    }
    r
}


// ---------------------------------------------------------------------
// `ls`.
// ---------------------------------------------------------------------

/// A running deployment of this worktree, as `ls` lists it.
#[derive(Clone, Debug)]
pub struct RunningEntry {
    pub slug: String,
    pub session: String,
    pub state: String,
    /// Published ports, `(container, host)`.
    pub ports: Vec<(u16, u16)>,
}

/// `s` left-aligned in a column `w` characters wide.
pub open spec fn pad(s: Seq<char>, w: int) -> Seq<char> {
    s + crate::dev::logmux::spaces(w - s.len())
}

/// One line of the `ls` table.
pub open spec fn ls_line(
    slug: Seq<char>,
    driver: Seq<char>,
    session: Seq<char>,
    status: Seq<char>,
    tail: Seq<char>,
) -> Seq<char> {
    pad(slug, 10) + " "@ + pad(driver, 8) + " "@ + pad(session, 10) + " "@ + pad(status, 10) + " "@ + tail
}

/// The rows of the running sessions of `slug`, in the given order.
pub open spec fn running_rows(slug: Seq<char>, running: Seq<RunningEntry>) -> Seq<Seq<char>>
    decreases running.len(),
{
    if running.len() == 0 {
        Seq::empty()
    } else {
        let p = running_rows(slug, running.drop_last());
        let e = running.last();
        if e.slug@ == slug {
            p.push(ls_line(slug, "local"@, e.session@, e.state@, ports_text(e.ports@)))
        } else {
            p
        }
    }
}

/// The rows of one registry entry: one per running session of a local
/// deployment (or a `registered` row when none runs), and a single row
/// for a deployment of another driver.
pub open spec fn entry_rows(slug: Seq<char>, entry: crate::dev::registry::RegEntry, running: Seq<RunningEntry>) -> Seq<
    Seq<char>,
> {
    match entry {
        crate::dev::registry::RegEntry::Local(_) => {
            let rr = running_rows(slug, running);
            if rr.len() > 0 {
                rr
            } else {
                seq![ls_line(slug, "local"@, "\u{2014}"@, "registered"@, "\u{2014}"@)]
            }
        },
        crate::dev::registry::RegEntry::Unhandled => seq![
            ls_line(slug, "?"@, "\u{2014}"@, "registered"@, "(no local driver)"@),
        ],
    }
}

/// The rows of all entries, in registry order.
pub open spec fn table_rows(
    slugs: Seq<Seq<char>>,
    entries: Seq<crate::dev::registry::RegEntry>,
    running: Seq<RunningEntry>,
) -> Seq<Seq<char>>
    decreases slugs.len(),
{
    if slugs.len() == 0 || entries.len() == 0 {
        Seq::empty()
    } else {
        table_rows(slugs.drop_last(), entries.drop_last(), running) + entry_rows(
            slugs.last(),
            entries.last(),
            running,
        )
    }
}

/// How many running entries belong to `slug`.
pub open spec fn running_count(slug: Seq<char>, running: Seq<RunningEntry>) -> nat
    decreases running.len(),
{
    if running.len() == 0 {
        0
    } else {
        running_count(slug, running.drop_last()) + if running.last().slug@ == slug {
            1nat
        } else {
            0nat
        }
    }
}

/// Each running entry of `slug` has its own row, showing its session,
/// state and ports, and there are no other rows.
proof fn lemma_running_rows_each(slug: Seq<char>, running: Seq<RunningEntry>)
    ensures
        running_rows(slug, running).len() == running_count(slug, running),
        forall|k: int|
            0 <= k < running.len() && running[k].slug@ == slug ==> running_rows(slug, running).contains(
                ls_line(slug, "local"@, #[trigger] running[k].session@, running[k].state@, ports_text(running[k].ports@)),
            ),
    decreases running.len(),
{
    if running.len() > 0 {
        let d = running.drop_last();
        lemma_running_rows_each(slug, d);
        let p = running_rows(slug, d);
        let r = running_rows(slug, running);
        assert forall|k: int|
            0 <= k < running.len() && running[k].slug@ == slug implies r.contains(
                ls_line(slug, "local"@, #[trigger] running[k].session@, running[k].state@, ports_text(running[k].ports@)),
            ) by {
            let row = ls_line(slug, "local"@, running[k].session@, running[k].state@, ports_text(running[k].ports@));
            if k < d.len() {
                assert(d[k] == running[k]);
                assert(p.contains(ls_line(slug, "local"@, d[k].session@, d[k].state@, ports_text(d[k].ports@))));
                let j = choose|j: int| 0 <= j < p.len() && p[j] == row;
                assert(r[j] == row);
            } else {
                assert(r[r.len() - 1] == row);
            }
        }
    }
}

/// `ls` lists every session of a local deployment: the deployment has one
/// row per running entry with its slug (a single `registered` row when
/// none runs), and each such entry's session, state and ports appear in
/// one of them. A deployment of another driver has one row.
pub proof fn lemma_ls_lists_every_session(slug: Seq<char>, entry: crate::dev::registry::RegEntry, running: Seq<RunningEntry>)
    ensures
        entry is Local ==> entry_rows(slug, entry, running).len() == if running_count(slug, running) == 0 {
            1
        } else {
            running_count(slug, running)
        },
        entry is Local ==> forall|k: int|
            0 <= k < running.len() && running[k].slug@ == slug ==> entry_rows(slug, entry, running).contains(
                ls_line(slug, "local"@, #[trigger] running[k].session@, running[k].state@, ports_text(running[k].ports@)),
            ),
        entry is Unhandled ==> entry_rows(slug, entry, running).len() == 1,
{
    lemma_running_rows_each(slug, running);
}

/// Every row of every deployment appears in the table.
pub proof fn lemma_table_has_entry_rows(
    slugs: Seq<Seq<char>>,
    entries: Seq<crate::dev::registry::RegEntry>,
    running: Seq<RunningEntry>,
    i: int,
    j: int,
)
    requires
        slugs.len() == entries.len(),
        0 <= i < slugs.len(),
        0 <= j < entry_rows(slugs[i], entries[i], running).len(),
    ensures
        table_rows(slugs, entries, running).contains(entry_rows(slugs[i], entries[i], running)[j]),
    decreases slugs.len(),
{
    let n = slugs.len() - 1;
    let pre = table_rows(slugs.drop_last(), entries.drop_last(), running);
    let last = entry_rows(slugs.last(), entries.last(), running);
    let t = table_rows(slugs, entries, running);
    assert(t == pre + last);
    if i < n {
        lemma_table_has_entry_rows(slugs.drop_last(), entries.drop_last(), running, i, j);
        assert(slugs.drop_last()[i] == slugs[i] && entries.drop_last()[i] == entries[i]);
        let x = entry_rows(slugs[i], entries[i], running)[j];
        let m = choose|m: int| 0 <= m < pre.len() && pre[m] == x;
        assert(t[m] == x);
    } else {
        assert(t[pre.len() + j] == last[j]);
    }
}

/// Appends `s` left-aligned in a column `w` characters wide.
fn push_padded(out: &mut Vec<char>, s: &str, w: usize)
    ensures
        final(out)@ == old(out)@ + pad(s@, w as int),
{
    push_str(out, s);
    let n = crate::text::chars_of(s).len();
    let ghost mid = out@;
    let mut k: usize = n;
    while k < w
        invariant
            n == s@.len(),
            n <= k,
            k <= w || k == n,
            out@ == mid + crate::dev::logmux::spaces(k - n),
        decreases w - k,
    {
        out.push(' ');
        proof {
            assert(crate::dev::logmux::spaces(k + 1 - n) =~= crate::dev::logmux::spaces(k - n).push(' '));
        }
        k = k + 1;
    }
    proof {
        assert(crate::dev::logmux::spaces(k - n) =~= crate::dev::logmux::spaces(w - s@.len()));
    }
}

/// Builds one line of the `ls` table.
fn ls_line_exec(slug: &str, driver: &str, session: &str, status: &str, tail: &str) -> (s: String)
    ensures
        s@ == ls_line(slug@, driver@, session@, status@, tail@),
{
    let mut out: Vec<char> = Vec::new();
    push_padded(&mut out, slug, 10);
    push_str(&mut out, " ");
    push_padded(&mut out, driver, 8);
    push_str(&mut out, " ");
    push_padded(&mut out, session, 10);
    push_str(&mut out, " ");
    push_padded(&mut out, status, 10);
    push_str(&mut out, " ");
    push_str(&mut out, tail);
    string_of(&out)
}

/// The header of the `ls` table.
pub fn ls_header() -> (s: String)
    ensures
        s@ == ls_line("SLUG"@, "DRIVER"@, "SESSION"@, "STATUS"@, "PORTS"@),
{
    ls_line_exec("SLUG", "DRIVER", "SESSION", "STATUS", "PORTS")
}

/// The rows of the `ls` table: the registry's deployments in slug order,
/// each with its running sessions.
pub fn ls_rows(reg: &crate::dev::registry::DevRegistry, running: &Vec<RunningEntry>) -> (r: Vec<String>)
    ensures
        views(r@) == table_rows(reg.deployments.kseq(), reg.deployments.vseq(), running@),
{
    let n = reg.deployments.len();
    let mut r: Vec<String> = Vec::new();
    let mut i: usize = 0;
    proof {
        use_type_invariant(&reg.deployments);
        reg.deployments.lemma_inv();
    }
    while i < n
        invariant
            i <= n,
            n == reg.deployments.kseq().len(),
            n == reg.deployments.vseq().len(),
            views(r@) == table_rows(
                reg.deployments.kseq().subrange(0, i as int),
                reg.deployments.vseq().subrange(0, i as int),
                running@,
            ),
        decreases n - i,
    {
        let slug = reg.deployments.key_at(i);
        let entry = reg.deployments.value_at(i);
        let ghost before = r@;
        match entry {
            crate::dev::registry::RegEntry::Local(_) => {
                let mut found = false;
                let mut k: usize = 0;
                while k < running.len()
                    invariant
                        k <= running@.len(),
                        views(r@) == views(before) + running_rows(slug@, running@.subrange(0, k as int)),
                        found == (running_rows(slug@, running@.subrange(0, k as int)).len() > 0),
                    decreases running@.len() - k,
                {
                    proof {
                        assert(running@.subrange(0, k + 1).drop_last() =~= running@.subrange(0, k as int));
                    }
                    let e = &running[k];
                    if crate::text::same(e.slug.as_str(), slug.as_str()) {
                        let p = format_ports(&e.ports);
                        let line = ls_line_exec(slug.as_str(), "local", e.session.as_str(), e.state.as_str(), p.as_str());
                        let ghost mid = r@;
                        r.push(line);
                        proof {
                            assert(views(r@) =~= views(mid).push(line@));
                        }
                        found = true;
                    }
                    k = k + 1;
                }
                proof {
                    assert(running@.subrange(0, running@.len() as int) =~= running@);
                }
                if !found {
                    let line = ls_line_exec(slug.as_str(), "local", "\u{2014}", "registered", "\u{2014}");
                    r.push(line);
                    proof {
                        assert(views(r@) =~= views(before).push(line@));
                    }
                }
            },
            crate::dev::registry::RegEntry::Unhandled => {
                let line = ls_line_exec(slug.as_str(), "?", "\u{2014}", "registered", "(no local driver)");
                r.push(line);
                proof {
                    assert(views(r@) =~= views(before).push(line@));
                }
            },
        }
        proof {
            let ks = reg.deployments.kseq().subrange(0, i + 1);
            let vs = reg.deployments.vseq().subrange(0, i + 1);
            assert(ks.drop_last() =~= reg.deployments.kseq().subrange(0, i as int));
            assert(vs.drop_last() =~= reg.deployments.vseq().subrange(0, i as int));
            assert(ks.last() == slug@);
            assert(vs.last() == *entry);
            assert(views(r@) =~= views(before) + entry_rows(slug@, *entry, running@));
        }
        i = i + 1;
    }
    proof {
        assert(reg.deployments.kseq().subrange(0, n as int) =~= reg.deployments.kseq());
        assert(reg.deployments.vseq().subrange(0, n as int) =~= reg.deployments.vseq());
    }
    r
}

} // verus!
