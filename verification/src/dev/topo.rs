//! Boot-plan topo sort over the local-driver subset of the registry.

use vstd::prelude::*;

use crate::dev::registry::{DevRegistry, RegEntry};
use crate::smap::lemma_sorted_distinct;
use crate::text::{chars_of, contains_string, lex_lt, push_chars, push_str, string_of, views};

verus! {

// ---------------------------------------------------------------------
// The registry seen as a dependency graph over entry positions.
// ---------------------------------------------------------------------

/// Number of registry entries.
pub open spec fn node_count(reg: &DevRegistry) -> int {
    reg.deployments.size() as int
}

/// Slug of the entry at position `i` (positions follow slug order).
pub open spec fn slug_of(reg: &DevRegistry, i: int) -> Seq<char> {
    reg.deployments.kseq()[i]
}

/// The entry at position `i` is run by the local driver.
pub open spec fn is_local(reg: &DevRegistry, i: int) -> bool {
    reg.deployments.vseq()[i] is Local
}

/// Declared dependencies of the entry at position `i` (none unless local).
pub open spec fn deps_of(reg: &DevRegistry, i: int) -> Seq<Seq<char>> {
    match reg.deployments.vseq()[i] {
        RegEntry::Local(s) => views(s.deps@),
        RegEntry::Unhandled => Seq::empty(),
    }
}

/// Local entry `i` depends on local entry `j`.
pub open spec fn dep_edge(reg: &DevRegistry, i: int, j: int) -> bool {
    &&& 0 <= i < node_count(reg)
    &&& 0 <= j < node_count(reg)
    &&& is_local(reg, i)
    &&& is_local(reg, j)
    &&& deps_of(reg, i).contains(slug_of(reg, j))
}

/// Both ends of a dependency edge are entries.
pub proof fn lemma_dep_edge_range(reg: &DevRegistry, i: int, j: int)
    requires
        dep_edge(reg, i, j),
    ensures
        0 <= i < node_count(reg),
        0 <= j < node_count(reg),
{
}

/// Local entry `i` was asked for by slug.
pub open spec fn requested_node(reg: &DevRegistry, requested: Seq<Seq<char>>, i: int) -> bool {
    0 <= i < node_count(reg) && is_local(reg, i) && requested.contains(slug_of(reg, i))
}

/// `p` follows dependency edges.
pub open spec fn dep_path(reg: &DevRegistry, p: Seq<int>) -> bool {
    p.len() > 0 && forall|k: int| 0 <= k < p.len() - 1 ==> dep_edge(reg, #[trigger] p[k], p[k + 1])
}

/// Entry `i` is a transitive dependency of (or is) a requested entry.
pub open spec fn reachable(reg: &DevRegistry, requested: Seq<Seq<char>>, i: int) -> bool {
    exists|p: Seq<int>|
        #![trigger dep_path(reg, p)]
        dep_path(reg, p) && requested_node(reg, requested, p[0]) && p.last() == i
}

/// `s` names a local-driver entry.
pub open spec fn local_slug(reg: &DevRegistry, s: Seq<char>) -> bool {
    exists|i: int| 0 <= i < node_count(reg) && is_local(reg, i) && #[trigger] slug_of(reg, i) == s
}

/// Entries the plan covers: every local entry when nothing is requested;
/// exactly the requested ones with `no_deps`; otherwise the requested ones
/// and their transitive local dependencies.
pub open spec fn selected(reg: &DevRegistry, requested: Seq<Seq<char>>, no_deps: bool, i: int) -> bool {
    0 <= i < node_count(reg) && if requested.len() == 0 {
        is_local(reg, i)
    } else if no_deps {
        requested_node(reg, requested, i)
    } else {
        reachable(reg, requested, i)
    }
}

/// The selection as a set of positions.
pub open spec fn selection(reg: &DevRegistry, requested: Seq<Seq<char>>, no_deps: bool) -> Set<int> {
    Set::new(|i: int| selected(reg, requested, no_deps, i))
}

/// Some entry sits at level `l`.
pub open spec fn inhabited(reg: &DevRegistry, lv: Seq<int>, l: int) -> bool {
    exists|x: int| 0 <= x < node_count(reg) && #[trigger] lv[x] == l
}

/// `lv` assigns boot levels `0..depth` to the entries of `cov` (and `-1` to
/// the others): every selected dependency of a levelled entry boots at an
/// earlier level, and an entry at level `l > 0` has a dependency at `l - 1`
/// (it boots as early as possible). Every level is inhabited.
#[verifier::opaque]
pub open spec fn valid_levels(reg: &DevRegistry, sel: Set<int>, cov: Set<int>, lv: Seq<int>, depth: int) -> bool {
    &&& lv.len() == node_count(reg)
    &&& forall|x: int| 0 <= x < node_count(reg) ==> (cov.contains(x) <==> 0 <= #[trigger] lv[x] < depth)
    &&& forall|x: int| 0 <= x < node_count(reg) && !cov.contains(x) ==> #[trigger] lv[x] == -1
    &&& forall|l: int| 0 <= l < depth ==> #[trigger] inhabited(reg, lv, l)
    &&& forall|x: int, j: int|
        cov.contains(x) && #[trigger] dep_edge(reg, x, j) && sel.contains(j) ==> 0 <= lv[j] < lv[x]
    &&& forall|x: int|
        cov.contains(x) && #[trigger] lv[x] > 0 ==> exists|j: int|
            #![trigger dep_edge(reg, x, j)]
            dep_edge(reg, x, j) && lv[j] == lv[x] - 1
}

/// `names[l]` lists the slugs at level `l` in slug order (`idx` gives
/// their positions).
pub open spec fn listing(
    reg: &DevRegistry,
    lv: Seq<int>,
    idx: Seq<Seq<int>>,
    names: Seq<Seq<Seq<char>>>,
) -> bool {
    &&& idx.len() == names.len()
    &&& forall|l: int| 0 <= l < idx.len() ==> #[trigger] idx[l].len() == names[l].len()
    &&& forall|l: int, a: int|
        0 <= l < idx.len() && 0 <= a < idx[l].len() ==> #[trigger] names[l][a] == slug_of(reg, idx[l][a])
    &&& forall|l: int, a: int, b: int|
        0 <= l < idx.len() && 0 <= a < b < idx[l].len() ==> #[trigger] idx[l][a] < #[trigger] idx[l][b]
    &&& forall|l: int, a: int|
        0 <= l < idx.len() && 0 <= a < idx[l].len() ==> 0 <= #[trigger] idx[l][a] < node_count(reg) && lv[idx[l][a]]
            == l
    &&& forall|x: int|
        0 <= x < node_count(reg) && 0 <= #[trigger] lv[x] < idx.len() ==> exists|a: int|
            0 <= a < idx[lv[x]].len() && #[trigger] idx[lv[x]][a] == x
}

/// The entries a dependency cycle leaves unplaced: there is one, and every
/// one of them waits on another of them.
#[verifier::opaque]
pub open spec fn stuck(reg: &DevRegistry, rem: Set<int>) -> bool {
    &&& exists|x: int| rem.contains(x)
    &&& forall|x: int| rem.contains(x) ==> exists|j: int| #[trigger] dep_edge(reg, x, j) && rem.contains(j)
}

/// `names` is the level-by-level boot order of the whole selection `sel`.
pub open spec fn plan_of(reg: &DevRegistry, sel: Set<int>, names: Seq<Seq<Seq<char>>>) -> bool {
    exists|lv: Seq<int>, idx: Seq<Seq<int>>|
        #![trigger valid_levels(reg, sel, sel, lv, names.len() as int), listing(reg, lv, idx, names)]
        valid_levels(reg, sel, sel, lv, names.len() as int) && listing(reg, lv, idx, names)
}

/// Selected entries that `lv` leaves unplaced.
pub open spec fn unplaced(sel: Set<int>, lv: Seq<int>) -> Set<int> {
    Set::new(|x: int| sel.contains(x) && lv[x] < 0)
}

/// Selected entries that `lv` places.
pub open spec fn placed(sel: Set<int>, lv: Seq<int>) -> Set<int> {
    Set::new(|x: int| sel.contains(x) && lv[x] >= 0)
}

/// `names` lists, in slug order, the selected entries that remain once
/// every entry that can boot has been levelled, and they are stuck.
pub open spec fn cycle_of(reg: &DevRegistry, sel: Set<int>, names: Seq<Seq<char>>) -> bool {
    exists|lv: Seq<int>, depth: int, ridx: Seq<int>|
        #![trigger valid_levels(reg, sel, placed(sel, lv), lv, depth), set_listing(reg, unplaced(sel, lv), ridx, names)]
        valid_levels(reg, sel, placed(sel, lv), lv, depth) && stuck(reg, unplaced(sel, lv))
            && set_listing(reg, unplaced(sel, lv), ridx, names)
}

/// `s` is the slug of an entry of `sel`.
pub open spec fn selected_slug(reg: &DevRegistry, sel: Set<int>, s: Seq<char>) -> bool {
    exists|i: int| 0 <= i < node_count(reg) && sel.contains(i) && #[trigger] slug_of(reg, i) == s
}

/// A boot plan read level by level: each selected entry's slug occurs
/// exactly once and nothing else occurs; no level is empty; each level is
/// in ascending slug order.
pub open spec fn lists_selection_once(reg: &DevRegistry, sel: Set<int>, names: Seq<Seq<Seq<char>>>) -> bool {
    &&& flat(names).no_duplicates()
    &&& forall|s: Seq<char>| flat(names).contains(s) <==> selected_slug(reg, sel, s)
    &&& forall|l: int| 0 <= l < names.len() ==> #[trigger] names[l].len() > 0
    &&& forall|l: int, a: int, b: int|
        0 <= l < names.len() && 0 <= a < b < names[l].len() ==> lex_lt(#[trigger] names[l][a], #[trigger] names[l][b])
}

/// Some entry below level `l` has slug `s`.
spec fn named_below(reg: &DevRegistry, lv: Seq<int>, l: int, s: Seq<char>) -> bool {
    exists|x: int| 0 <= x < node_count(reg) && 0 <= lv[x] < l && #[trigger] slug_of(reg, x) == s
}

/// The first `l` levels of a plan list the entries below level `l`, each
/// once.
proof fn lemma_flat_prefix(
    reg: &DevRegistry,
    sel: Set<int>,
    lv: Seq<int>,
    idx: Seq<Seq<int>>,
    names: Seq<Seq<Seq<char>>>,
    l: int,
)
    requires
        reg.deployments.inv(),
        valid_levels(reg, sel, sel, lv, names.len() as int),
        listing(reg, lv, idx, names),
        0 <= l <= names.len(),
    ensures
        flat(names.subrange(0, l)).no_duplicates(),
        forall|s: Seq<char>| flat(names.subrange(0, l)).contains(s) <==> named_below(reg, lv, l, s),
    decreases l,
{
    reveal(valid_levels);
    let f = flat(names.subrange(0, l));
    if l == 0 {
        assert(names.subrange(0, 0) =~= Seq::<Seq<Seq<char>>>::empty());
        assert(f =~= Seq::<Seq<char>>::empty());
        assert forall|s: Seq<char>| f.contains(s) <==> named_below(reg, lv, l, s) by {
            if named_below(reg, lv, l, s) {
                let x = choose|x: int| 0 <= x < node_count(reg) && 0 <= lv[x] < l && #[trigger] slug_of(reg, x) == s;
            }
        }
    } else {
        lemma_flat_prefix(reg, sel, lv, idx, names, l - 1);
        reg.deployments.lemma_inv();
        let e = flat(names.subrange(0, l - 1));
        let g = names[l - 1];
        assert(names.subrange(0, l).drop_last() =~= names.subrange(0, l - 1));
        assert(f == e + g);
        assert forall|s: Seq<char>| g.contains(s) <==> exists|x: int|
            0 <= x < node_count(reg) && lv[x] == l - 1 && #[trigger] slug_of(reg, x) == s by {
            if g.contains(s) {
                let a = choose|a: int| 0 <= a < g.len() && g[a] == s;
                assert(names[l - 1][a] == slug_of(reg, idx[l - 1][a]));
                let x = idx[l - 1][a];
                assert(0 <= x < node_count(reg) && lv[x] == l - 1);
            }
            if exists|x: int| 0 <= x < node_count(reg) && lv[x] == l - 1 && #[trigger] slug_of(reg, x) == s {
                let x = choose|x: int| 0 <= x < node_count(reg) && lv[x] == l - 1 && #[trigger] slug_of(reg, x) == s;
                assert(0 <= lv[x] < idx.len());
                let a = choose|a: int| 0 <= a < idx[lv[x]].len() && #[trigger] idx[lv[x]][a] == x;
                assert(g[a] == slug_of(reg, idx[l - 1][a]));
            }
        }
        assert forall|s: Seq<char>| f.contains(s) <==> named_below(reg, lv, l, s) by {
            if f.contains(s) {
                let i = choose|i: int| 0 <= i < f.len() && f[i] == s;
                if i < e.len() {
                    assert(e[i] == s);
                    assert(e.contains(s));
                    assert(named_below(reg, lv, l - 1, s));
                    let x = choose|x: int| 0 <= x < node_count(reg) && 0 <= lv[x] < l - 1 && #[trigger] slug_of(reg, x) == s;
                } else {
                    assert(g[i - e.len()] == s);
                    assert(g.contains(s));
                    let x = choose|x: int| 0 <= x < node_count(reg) && lv[x] == l - 1 && #[trigger] slug_of(reg, x) == s;
                }
            }
            if named_below(reg, lv, l, s) {
                let x = choose|x: int| 0 <= x < node_count(reg) && 0 <= lv[x] < l && #[trigger] slug_of(reg, x) == s;
                if lv[x] < l - 1 {
                    assert(named_below(reg, lv, l - 1, s));
                    let i = choose|i: int| 0 <= i < e.len() && e[i] == s;
                    assert(f[i] == s);
                } else {
                    assert(g.contains(s));
                    let a = choose|a: int| 0 <= a < g.len() && g[a] == s;
                    assert(f[e.len() + a] == s);
                }
            }
        }
        assert forall|i: int, j: int| 0 <= i < f.len() && 0 <= j < f.len() && i != j implies f[i] != f[j] by {
            if i < e.len() && j < e.len() {
                assert(e[i] != e[j]);
            } else if i >= e.len() && j >= e.len() {
                let a = i - e.len();
                let b = j - e.len();
                let xa = idx[l - 1][a];
                let xb = idx[l - 1][b];
                assert(g[a] == slug_of(reg, xa) && g[b] == slug_of(reg, xb));
                if a < b {
                    assert(xa < xb);
                } else {
                    assert(xb < xa);
                }
                assert(0 <= xa < node_count(reg) && 0 <= xb < node_count(reg));
                lemma_sorted_distinct(reg.deployments.kseq(), xa, xb);
            } else {
                let (p, q) = if i < e.len() { (i, j) } else { (j, i) };
                assert(e[p] == f[p]);
                assert(e.contains(f[p]));
                assert(named_below(reg, lv, l - 1, f[p]));
                let x = choose|x: int| 0 <= x < node_count(reg) && 0 <= lv[x] < l - 1 && #[trigger] slug_of(reg, x) == f[p];
                let b = q - e.len();
                let y = idx[l - 1][b];
                assert(g[b] == slug_of(reg, y));
                assert(0 <= y < node_count(reg) && lv[y] == l - 1);
                if f[p] == f[q] {
                    lemma_slug_unique(reg, x, y);
                }
            }
        }
    }
}

/// A levelled selection is listed once, by non-empty levels in ascending
/// slug order.
proof fn lemma_plan_lists_once(reg: &DevRegistry, sel: Set<int>, names: Seq<Seq<Seq<char>>>)
    requires
        reg.deployments.inv(),
        plan_of(reg, sel, names),
    ensures
        lists_selection_once(reg, sel, names),
{
    let (lv, idx) = choose|lv: Seq<int>, idx: Seq<Seq<int>>|
        #![trigger valid_levels(reg, sel, sel, lv, names.len() as int), listing(reg, lv, idx, names)]
        valid_levels(reg, sel, sel, lv, names.len() as int) && listing(reg, lv, idx, names);
    let d = names.len() as int;
    lemma_flat_prefix(reg, sel, lv, idx, names, d);
    assert(names.subrange(0, d) =~= names);
    reveal(valid_levels);
    reg.deployments.lemma_inv();
    assert forall|s: Seq<char>| named_below(reg, lv, d, s) <==> selected_slug(reg, sel, s) by {
        if named_below(reg, lv, d, s) {
            let x = choose|x: int| 0 <= x < node_count(reg) && 0 <= lv[x] < d && #[trigger] slug_of(reg, x) == s;
        }
        if selected_slug(reg, sel, s) {
            let x = choose|x: int| 0 <= x < node_count(reg) && sel.contains(x) && #[trigger] slug_of(reg, x) == s;
        }
    }
    assert forall|l: int| 0 <= l < names.len() implies #[trigger] names[l].len() > 0 by {
        assert(inhabited(reg, lv, l));
        let x = choose|x: int| 0 <= x < node_count(reg) && #[trigger] lv[x] == l;
        let a = choose|a: int| 0 <= a < idx[lv[x]].len() && #[trigger] idx[lv[x]][a] == x;
    }
    assert forall|l: int, a: int, b: int|
        0 <= l < names.len() && 0 <= a < b < names[l].len() implies lex_lt(#[trigger] names[l][a], #[trigger] names[l][b]) by {
        assert(idx[l][a] < idx[l][b]);
        assert(0 <= idx[l][a] < node_count(reg) && 0 <= idx[l][b] < node_count(reg));
        assert(names[l][a] == slug_of(reg, idx[l][a]));
        assert(names[l][b] == slug_of(reg, idx[l][b]));
    }
}

/// `p` is a dependency cycle among the entries of `sel`: a dependency
/// path of at least one edge that returns to where it started.
pub open spec fn cycle_in(reg: &DevRegistry, sel: Set<int>, p: Seq<int>) -> bool {
    &&& dep_path(reg, p)
    &&& p.len() >= 2
    &&& p[0] == p.last()
    &&& forall|k: int| 0 <= k < p.len() ==> sel.contains(#[trigger] p[k])
}

/// The dependencies among the entries of `sel` form no cycle.
pub open spec fn acyclic(reg: &DevRegistry, sel: Set<int>) -> bool {
    forall|p: Seq<int>| !#[trigger] cycle_in(reg, sel, p)
}

/// `names` lists the slugs of `rem` in slug order.
#[verifier::opaque]
pub open spec fn set_listing(reg: &DevRegistry, rem: Set<int>, idx: Seq<int>, names: Seq<Seq<char>>) -> bool {
    &&& idx.len() == names.len()
    &&& forall|a: int| 0 <= a < idx.len() ==> #[trigger] names[a] == slug_of(reg, idx[a])
    &&& forall|a: int, b: int| 0 <= a < b < idx.len() ==> #[trigger] idx[a] < #[trigger] idx[b]
    &&& forall|a: int| 0 <= a < idx.len() ==> rem.contains(#[trigger] idx[a])
    &&& forall|x: int| rem.contains(x) ==> exists|a: int| 0 <= a < idx.len() && #[trigger] idx[a] == x
}

/// A topo-sorted list of boot levels. Each inner list contains slugs
/// that can boot in parallel after all earlier levels are running.
#[derive(Debug)]
pub struct BootPlan {
    pub levels: Vec<Vec<String>>,
}

/// The slugs of a boot plan, level by level.
pub open spec fn level_views(levels: Seq<Vec<String>>) -> Seq<Seq<Seq<char>>> {
    levels.map_values(|l: Vec<String>| views(l@))
}

/// All slugs of `levels`, in boot order.
pub open spec fn flat(levels: Seq<Seq<Seq<char>>>) -> Seq<Seq<char>>
    decreases levels.len(),
{
    if levels.len() == 0 {
        Seq::empty()
    } else {
        flat(levels.drop_last()) + levels.last()
    }
}

impl BootPlan {
    /// Every slug in boot order.
    pub fn slugs(&self) -> (r: Vec<String>)
        ensures
            views(r@) == flat(level_views(self.levels@)),
    {
        let mut r: Vec<String> = Vec::new();
        let mut l: usize = 0;
        while l < self.levels.len()
            invariant
                l <= self.levels.len(),
                views(r@) == flat(level_views(self.levels@).subrange(0, l as int)),
            decreases self.levels.len() - l,
        {
            let level = &self.levels[l];
            let ghost before = r@;
            let mut a: usize = 0;
            while a < level.len()
                invariant
                    a <= level.len(),
                    l < self.levels.len(),
                    *level == self.levels@[l as int],
                    views(r@) == views(before) + views(level@).subrange(0, a as int),
                decreases level.len() - a,
            {
                let ghost prev = r@;
                let item = level[a].clone();
                r.push(item);
                proof {
                    assert(r@ == prev.push(item));
                    assert(views(r@) =~= views(prev).push(item@));
                    assert(views(level@).subrange(0, a + 1) =~= views(level@).subrange(0, a as int).push(
                        level@[a as int]@,
                    ));
                    assert(views(r@) =~= views(before) + views(level@).subrange(0, a + 1));
                }
                a = a + 1;
            }
            proof {
                let lvs = level_views(self.levels@);
                assert(lvs.subrange(0, l + 1).drop_last() =~= lvs.subrange(0, l as int));
                assert(views(level@).subrange(0, level.len() as int) =~= views(level@));
                assert(views(r@) =~= flat(lvs.subrange(0, l + 1)));
            }
            l = l + 1;
        }
        proof {
            assert(level_views(self.levels@).subrange(0, self.levels.len() as int) =~= level_views(self.levels@));
        }
        r
    }
}

/// Why a plan could not be made.
#[derive(Debug)]
pub enum PlanError {
    /// The slug names a deployment of another driver.
    NotLocal(String),
    /// The slug is not in the registry.
    NotRegistered(String),
    /// These slugs (in slug order) depend on each other in a cycle.
    Cycle(Vec<String>),
}

/// The text of an error message for a rejected slug.
pub open spec fn slug_message(s: Seq<char>, registered: bool) -> Seq<char> {
    "hm: slug `"@ + s + if registered {
        "` is not a local-driver deployment (use the matching driver's `up`)"@
    } else {
        "` is not registered in this worktree's .harmont/"@
    }
}

/// `names` joined with `", "`.
pub open spec fn joined(names: Seq<Seq<char>>) -> Seq<char>
    decreases names.len(),
{
    if names.len() == 0 {
        Seq::empty()
    } else if names.len() == 1 {
        names[0]
    } else {
        joined(names.drop_last()) + ", "@ + names.last()
    }
}

impl PlanError {
    /// The user-facing message.
    pub fn message(&self) -> (m: String)
        ensures
            m@ == match self {
                PlanError::NotLocal(s) => slug_message(s@, true),
                PlanError::NotRegistered(s) => slug_message(s@, false),
                PlanError::Cycle(names) => "hm: dep cycle among deployments: "@ + joined(views(names@)),
            },
    {
        let mut out: Vec<char> = Vec::new();
        match self {
            PlanError::NotLocal(s) => {
                push_str(&mut out, "hm: slug `");
                push_str(&mut out, s.as_str());
                push_str(&mut out, "` is not a local-driver deployment (use the matching driver's `up`)");
            },
            PlanError::NotRegistered(s) => {
                push_str(&mut out, "hm: slug `");
                push_str(&mut out, s.as_str());
                push_str(&mut out, "` is not registered in this worktree's .harmont/");
            },
            PlanError::Cycle(names) => {
                push_str(&mut out, "hm: dep cycle among deployments: ");
                let ghost head = out@;
                let mut k: usize = 0;
                while k < names.len()
                    invariant
                        k <= names.len(),
                        out@ == head + joined(views(names@).subrange(0, k as int)),
                    decreases names.len() - k,
                {
                    if k > 0 {
                        push_str(&mut out, ", ");
                    }
                    push_str(&mut out, names[k].as_str());
                    proof {
                        let vs = views(names@);
                        assert(vs.subrange(0, k + 1).drop_last() =~= vs.subrange(0, k as int));
                        if k == 0 {
                            assert(joined(vs.subrange(0, 1)) == vs[0]);
                        }
                    }
                    k = k + 1;
                }
                proof {
                    assert(views(names@).subrange(0, names.len() as int) =~= views(names@));
                }
            },
        }
        string_of(&out)
    }
}

// ---------------------------------------------------------------------
// Counting helpers.
// ---------------------------------------------------------------------

/// Number of `true` entries.
pub open spec fn count_true(s: Seq<bool>) -> nat
    decreases s.len(),
{
    if s.len() == 0 {
        0
    } else {
        count_true(s.drop_last()) + if s.last() { 1nat } else { 0nat }
    }
}

proof fn lemma_count_true_le(a: Seq<bool>, b: Seq<bool>)
    requires
        a.len() == b.len(),
        forall|i: int| 0 <= i < a.len() && #[trigger] a[i] ==> b[i],
    ensures
        count_true(a) <= count_true(b),
        (exists|i: int| 0 <= i < a.len() && !a[i] && #[trigger] b[i]) ==> count_true(a) < count_true(b),
    decreases a.len(),
{
    if a.len() > 0 {
        let a2 = a.drop_last();
        let b2 = b.drop_last();
        assert forall|i: int| 0 <= i < a2.len() && #[trigger] a2[i] implies b2[i] by {
            assert(a[i]);
        }
        lemma_count_true_le(a2, b2);
        if exists|i: int| 0 <= i < a.len() && !a[i] && #[trigger] b[i] {
            let i = choose|i: int| 0 <= i < a.len() && !a[i] && #[trigger] b[i];
            if i < a.len() - 1 {
                assert(!a2[i] && b2[i]);
            }
        }
    }
}

proof fn lemma_count_true_bound(a: Seq<bool>)
    ensures
        count_true(a) <= a.len(),
    decreases a.len(),
{
    if a.len() > 0 {
        lemma_count_true_bound(a.drop_last());
    }
}

// ---------------------------------------------------------------------
// Lookup helpers.
// ---------------------------------------------------------------------

proof fn lemma_slug_unique(reg: &DevRegistry, i: int, j: int)
    requires
        reg.deployments.inv(),
        0 <= i < node_count(reg),
        0 <= j < node_count(reg),
        slug_of(reg, i) == slug_of(reg, j),
    ensures
        i == j,
{
    reg.deployments.lemma_inv();
    if i != j {
        lemma_sorted_distinct(reg.deployments.kseq(), i, j);
    }
}

fn is_local_at(reg: &DevRegistry, i: usize) -> (b: bool)
    requires
        i < node_count(reg),
    ensures
        b == is_local(reg, i as int),
{
    match reg.deployments.value_at(i) {
        RegEntry::Local(_) => true,
        RegEntry::Unhandled => false,
    }
}

/// Position of the local entry named `s`, if any.
fn local_index(reg: &DevRegistry, s: &str) -> (r: Option<usize>)
    ensures
        match r {
            Some(i) => i < node_count(reg) && is_local(reg, i as int) && slug_of(reg, i as int) == s@,
            None => !local_slug(reg, s@),
        },
{
    proof {
        use_type_invariant(&reg.deployments);
        reg.deployments.lemma_inv();
    }
    match reg.deployments.find(s) {
        Some(i) => {
            if is_local_at(reg, i) {
                Some(i)
            } else {
                proof {
                    assert forall|j: int| 0 <= j < node_count(reg) && is_local(reg, j) implies #[trigger] slug_of(reg, j)
                        != s@ by {
                        if slug_of(reg, j) == s@ {
                            lemma_slug_unique(reg, i as int, j);
                        }
                    }
                }
                None
            }
        },
        None => {
            proof {
                assert forall|j: int| 0 <= j < node_count(reg) && is_local(reg, j) implies #[trigger] slug_of(reg, j)
                    != s@ by {
                    assert(reg.deployments.kseq().contains(slug_of(reg, j)));
                }
            }
            None
        },
    }
}

/// Adjacency matrix of `dep_edge`.
fn adjacency(reg: &DevRegistry) -> (adj: Vec<Vec<bool>>)
    ensures
        adj@.len() == node_count(reg),
        forall|i: int| 0 <= i < node_count(reg) ==> (#[trigger] adj@[i])@.len() == node_count(reg),
        forall|i: int, j: int|
            0 <= i < node_count(reg) && 0 <= j < node_count(reg) ==> adj@[i]@[j] == dep_edge(reg, i, j),
{
    let n = reg.deployments.len();
    let mut adj: Vec<Vec<bool>> = Vec::new();
    let mut i: usize = 0;
    while i < n
        invariant
            i <= n,
            n == node_count(reg),
            adj@.len() == i,
            forall|a: int| 0 <= a < i ==> (#[trigger] adj@[a])@.len() == n,
            forall|a: int, b: int| 0 <= a < i && 0 <= b < n ==> adj@[a]@[b] == dep_edge(reg, a, b),
        decreases n - i,
    {
        let mut row: Vec<bool> = Vec::new();
        let mut j: usize = 0;
        while j < n
            invariant
                j <= n,
                i < n,
                n == node_count(reg),
                row@.len() == j,
                forall|b: int| 0 <= b < j ==> row@[b] == dep_edge(reg, i as int, b),
            decreases n - j,
        {
            let e = match reg.deployments.value_at(i) {
                RegEntry::Local(spec) => {
                    is_local_at(reg, j) && contains_string(spec.deps.as_slice(), reg.deployments.key_at(j).as_str())
                },
                RegEntry::Unhandled => false,
            };
            row.push(e);
            j = j + 1;
        }
        adj.push(row);
        i = i + 1;
    }
    adj
}

// ---------------------------------------------------------------------
// Selection.
// ---------------------------------------------------------------------

proof fn lemma_path_extend(reg: &DevRegistry, requested: Seq<Seq<char>>, x: int, j: int)
    requires
        reachable(reg, requested, x),
        dep_edge(reg, x, j),
    ensures
        reachable(reg, requested, j),
{
    let p = choose|p: Seq<int>| #![trigger dep_path(reg, p)] dep_path(reg, p) && requested_node(reg, requested, p[0]) && p.last() == x;
    let q = p.push(j);
    assert forall|k: int| 0 <= k < q.len() - 1 implies dep_edge(reg, #[trigger] q[k], q[k + 1]) by {
        if k < p.len() - 1 {
            assert(q[k] == p[k] && q[k + 1] == p[k + 1]);
        }
    }
    assert(dep_path(reg, q));
}

proof fn lemma_closed_contains_reachable(reg: &DevRegistry, requested: Seq<Seq<char>>, sel: Seq<bool>, p: Seq<int>)
    requires
        sel.len() == node_count(reg),
        forall|x: int| requested_node(reg, requested, x) ==> #[trigger] sel[x],
        forall|x: int, j: int| 0 <= x < node_count(reg) && sel[x] && #[trigger] dep_edge(reg, x, j) ==> sel[j],
        dep_path(reg, p),
        requested_node(reg, requested, p[0]),
    ensures
        sel[p.last()],
    decreases p.len(),
{
    if p.len() > 1 {
        let q = p.drop_last();
        assert forall|k: int| 0 <= k < q.len() - 1 implies dep_edge(reg, #[trigger] q[k], q[k + 1]) by {
            assert(q[k] == p[k] && q[k + 1] == p[k + 1]);
            assert(dep_edge(reg, p[k], p[k + 1]));
        }
        lemma_closed_contains_reachable(reg, requested, sel, q);
        assert(dep_edge(reg, p[p.len() - 2], p[p.len() - 1]));
    }
}

/// Positions of the requested slugs (all local) and the selection.
fn select(reg: &DevRegistry, adj: &Vec<Vec<bool>>, req: &Vec<usize>, requested: &[String], no_deps: bool) -> (sel: Vec<bool>)
    requires
        adj@.len() == node_count(reg),
        forall|i: int| 0 <= i < node_count(reg) ==> (#[trigger] adj@[i])@.len() == node_count(reg),
        forall|i: int, j: int|
            0 <= i < node_count(reg) && 0 <= j < node_count(reg) ==> adj@[i]@[j] == dep_edge(reg, i, j),
        forall|k: int| 0 <= k < req@.len() ==> requested_node(reg, views(requested@), #[trigger] req@[k] as int),
        forall|x: int| requested_node(reg, views(requested@), x) ==> exists|k: int| 0 <= k < req@.len() && #[trigger] req@[k] == x,
    ensures
        sel@.len() == node_count(reg),
        forall|x: int| 0 <= x < node_count(reg) ==> #[trigger] sel@[x] == selected(reg, views(requested@), no_deps, x),
{
    let ghost rq = views(requested@);
    let n = reg.deployments.len();
    if requested.len() == 0 || no_deps {
        let mut sel: Vec<bool> = Vec::new();
        let mut i: usize = 0;
        while i < n
            invariant
                i <= n,
                n == node_count(reg),
                rq == views(requested@),
                requested@.len() == 0 || no_deps,
                sel@.len() == i,
                forall|x: int| 0 <= x < i ==> #[trigger] sel@[x] == selected(reg, rq, no_deps, x),
            decreases n - i,
        {
            let b = if requested.len() == 0 {
                is_local_at(reg, i)
            } else {
                let k = reg.deployments.key_at(i);
                is_local_at(reg, i) && contains_string(requested, k.as_str())
            };
            proof {
                assert(rq.len() == requested@.len());
                if requested.len() > 0 && no_deps {
                    assert(b == requested_node(reg, rq, i as int));
                }
            }
            sel.push(b);
            i = i + 1;
        }
        return sel;
    }
    let mut sel: Vec<bool> = Vec::new();
    let mut i: usize = 0;
    while i < n
        invariant
            i <= n,
            sel@.len() == i,
            forall|x: int| 0 <= x < i ==> !#[trigger] sel@[x],
        decreases n - i,
    {
        sel.push(false);
        i = i + 1;
    }
    let mut stack: Vec<usize> = req.clone();
    proof {
        assert forall|k: int| 0 <= k < stack@.len() implies reachable(reg, rq, #[trigger] stack@[k] as int) by {
            let x = stack@[k] as int;
            let p = seq![x];
            assert(dep_path(reg, p));
        }
    }
    while stack.len() > 0
        invariant
            n == node_count(reg),
            rq == views(requested@),
            requested@.len() > 0,
            !no_deps,
            adj@.len() == n,
            forall|i: int| 0 <= i < n ==> (#[trigger] adj@[i])@.len() == n,
            forall|i: int, j: int| 0 <= i < n && 0 <= j < n ==> adj@[i]@[j] == dep_edge(reg, i, j),
            sel@.len() == n,
            forall|k: int| 0 <= k < stack@.len() ==> #[trigger] stack@[k] < n,
            forall|x: int| 0 <= x < n && #[trigger] sel@[x] ==> reachable(reg, rq, x),
            forall|k: int| 0 <= k < stack@.len() ==> reachable(reg, rq, #[trigger] stack@[k] as int),
            forall|x: int| requested_node(reg, rq, x) ==> #[trigger] sel@[x] || stack@.contains(x as usize),
            forall|x: int, j: int|
                0 <= x < n && sel@[x] && #[trigger] dep_edge(reg, x, j) ==> sel@[j] || stack@.contains(j as usize),
        decreases n - count_true(sel@), stack.len(),
    {
        let ghost before = stack@;
        let x = stack.pop().unwrap();
        proof {
            assert(stack@ == before.drop_last() && x == before.last());
            assert forall|v: usize| before.contains(v) && v != x implies #[trigger] stack@.contains(v) by {
                let k = choose|k: int| 0 <= k < before.len() && before[k] == v;
                assert(k < before.len() - 1);
                assert(stack@[k] == v);
            }
        }
        if !sel[x] {
            let ghost old_sel = sel@;
            sel.set(x, true);
            proof {
                lemma_count_true_le(old_sel, sel@);
                assert(!old_sel[x as int] && sel@[x as int]);
                lemma_count_true_bound(sel@);
            }
            let ghost mid = stack@;
            let mut j: usize = 0;
            while j < n
                invariant
                    j <= n,
                    x < n,
                    n == node_count(reg),
                    adj@.len() == n,
                    forall|i: int| 0 <= i < n ==> (#[trigger] adj@[i])@.len() == n,
                    forall|i: int, j: int| 0 <= i < n && 0 <= j < n ==> adj@[i]@[j] == dep_edge(reg, i, j),
                    reachable(reg, rq, x as int),
                    stack@.len() >= mid.len(),
                    forall|k: int| 0 <= k < mid.len() ==> #[trigger] stack@[k] == mid[k],
                    forall|k: int| 0 <= k < stack@.len() ==> #[trigger] stack@[k] < n,
                    forall|k: int| 0 <= k < stack@.len() ==> reachable(reg, rq, #[trigger] stack@[k] as int),
                    forall|b: int| 0 <= b < j && dep_edge(reg, x as int, b) ==> #[trigger] stack@.contains(b as usize),
                decreases n - j,
            {
                if adj[x][j] {
                    proof {
                        lemma_path_extend(reg, rq, x as int, j as int);
                    }
                    let ghost prev = stack@;
                    stack.push(j);
                    proof {
                        assert(stack@[stack@.len() - 1] == j);
                        assert forall|b: int| 0 <= b <= j && dep_edge(reg, x as int, b) implies #[trigger] stack@.contains(
                            b as usize,
                        ) by {
                            if b < j {
                                assert(prev.contains(b as usize));
                                let k = choose|k: int| 0 <= k < prev.len() && prev[k] == b as usize;
                                assert(stack@[k] == b as usize);
                            }
                        }
                    }
                }
                j = j + 1;
            }
            proof {
                assert forall|y: int| requested_node(reg, rq, y) implies #[trigger] sel@[y] || stack@.contains(y as usize) by {
                    if !sel@[y] {
                        assert(before.contains(y as usize));
                        assert(mid.contains(y as usize));
                        if mid.contains(y as usize) {
                            let k = choose|k: int| 0 <= k < mid.len() && mid[k] == y as usize;
                            assert(stack@[k] == y as usize);
                        }
                    }
                }
                assert forall|y: int, b: int| 0 <= y < n && sel@[y] && #[trigger] dep_edge(reg, y, b) implies sel@[b]
                    || stack@.contains(b as usize) by {
                    if y != x {
                        if !sel@[b] && b != x {
                            assert(before.contains(b as usize));
                            assert(mid.contains(b as usize));
                            let k = choose|k: int| 0 <= k < mid.len() && mid[k] == b as usize;
                            assert(stack@[k] == b as usize);
                        }
                    }
                }
            }
        } else {
            proof {
                assert forall|y: int| requested_node(reg, rq, y) implies #[trigger] sel@[y] || stack@.contains(y as usize) by {
                    if !sel@[y] {
                        assert(before.contains(y as usize));
                    }
                }
                assert forall|y: int, b: int| 0 <= y < n && sel@[y] && #[trigger] dep_edge(reg, y, b) implies sel@[b]
                    || stack@.contains(b as usize) by {
                    if !sel@[b] {
                        assert(before.contains(b as usize));
                    }
                }
            }
        }
    }
    proof {
        assert forall|x: int| 0 <= x < n implies #[trigger] sel@[x] == selected(reg, rq, no_deps, x) by {
            if reachable(reg, rq, x) {
                let p = choose|p: Seq<int>| #![trigger dep_path(reg, p)] dep_path(reg, p) && requested_node(reg, rq, p[0]) && p.last() == x;
                lemma_closed_contains_reachable(reg, rq, sel@, p);
            }
        }
    }
    sel
}

// ---------------------------------------------------------------------
// Levelling (Kahn's algorithm by rounds).
// ---------------------------------------------------------------------

/// The positions a mask marks.
pub open spec fn marked(reg: &DevRegistry, m: Seq<bool>) -> Set<int> {
    Set::new(|x: int| 0 <= x < node_count(reg) && m[x])
}

/// What holds between rounds: `rem` marks the selected entries not yet
/// levelled, `lv`/`idx`/`names` describe the levels built so far.
#[verifier::opaque]
pub open spec fn kahn_inv(
    reg: &DevRegistry,
    sel: Seq<bool>,
    rem: Seq<bool>,
    lv: Seq<int>,
    idx: Seq<Seq<int>>,
    names: Seq<Seq<Seq<char>>>,
) -> bool {
    let n = node_count(reg);
    let d = names.len() as int;
    &&& sel.len() == n && rem.len() == n && lv.len() == n
    &&& forall|x: int| 0 <= x < n && #[trigger] rem[x] ==> sel[x] && lv[x] == -1
    &&& forall|x: int| 0 <= x < n && sel[x] && !rem[x] ==> 0 <= #[trigger] lv[x] < d
    &&& forall|x: int| 0 <= x < n && !sel[x] ==> #[trigger] lv[x] == -1
    &&& forall|l: int| 0 <= l < d ==> #[trigger] inhabited(reg, lv, l)
    &&& forall|x: int, j: int| 0 <= x < n && lv[x] >= 0 && #[trigger] dep_edge(reg, x, j) && sel[j] ==> 0 <= lv[j] < lv[x]
    &&& forall|x: int|
        0 <= x < n && #[trigger] lv[x] > 0 ==> exists|j: int| #![trigger dep_edge(reg, x, j)] dep_edge(reg, x, j) && lv[j] == lv[x] - 1
    &&& d > 0 ==> forall|x: int|
        0 <= x < n && #[trigger] rem[x] ==> exists|j: int|
            #![trigger dep_edge(reg, x, j)]
            dep_edge(reg, x, j) && (rem[j] || lv[j] == d - 1)
    &&& listing(reg, lv, idx, names)
}

/// A list of positions as integers.
pub open spec fn ints(s: Seq<usize>) -> Seq<int> {
    s.map_values(|v: usize| v as int)
}

/// `ready` lists, in position order, the remaining entries with no
/// remaining dependency; `rn` holds their slugs.
#[verifier::opaque]
pub open spec fn ready_facts(reg: &DevRegistry, rem: Seq<bool>, ready: Seq<usize>, rn: Seq<Seq<char>>) -> bool {
    let n = node_count(reg);
    &&& ready.len() == rn.len()
    &&& forall|a: int| 0 <= a < ready.len() ==> #[trigger] rn[a] == slug_of(reg, ready[a] as int)
    &&& forall|a: int, b: int| 0 <= a < b < ready.len() ==> #[trigger] ready[a] < #[trigger] ready[b]
    &&& forall|a: int|
        0 <= a < ready.len() ==> #[trigger] ready[a] < n && rem[ready[a] as int] && forall|j: int|
            0 <= j < n ==> !(dep_edge(reg, ready[a] as int, j) && rem[j])
    &&& forall|y: int|
        0 <= y < n && #[trigger] rem[y] && !ints(ready).contains(y) ==> exists|j: int|
            #![trigger dep_edge(reg, y, j)]
            dep_edge(reg, y, j) && rem[j]
}

proof fn lemma_ready_members(reg: &DevRegistry, rem: Seq<bool>, ready: Seq<usize>, rn: Seq<Seq<char>>, v: int)
    requires
        ready_facts(reg, rem, ready, rn),
        0 <= v < node_count(reg),
        ints(ready).contains(v),
    ensures
        rem[v],
        forall|j: int| 0 <= j < node_count(reg) ==> !(dep_edge(reg, v, j) && rem[j]),
{
    reveal(ready_facts);
    let a = choose|a: int| 0 <= a < ints(ready).len() && ints(ready)[a] == v;
    assert(ready[a] < node_count(reg));
    assert(ready[a] as int == v);
}

proof fn lemma_round(
    reg: &DevRegistry,
    sel: Seq<bool>,
    rem: Seq<bool>,
    lv: Seq<int>,
    idx: Seq<Seq<int>>,
    names: Seq<Seq<Seq<char>>>,
    ready: Seq<usize>,
    rn: Seq<Seq<char>>,
)
    requires
        kahn_inv(reg, sel, rem, lv, idx, names),
        ready_facts(reg, rem, ready, rn),
        ready.len() > 0,
    ensures
        kahn_inv(
            reg,
            sel,
            Seq::new(rem.len(), |z: int| rem[z] && !ints(ready).contains(z)),
            Seq::new(lv.len(), |z: int| if ints(ready).contains(z) { names.len() as int } else { lv[z] }),
            idx.push(ints(ready)),
            names.push(rn),
        ),
{
    reveal(kahn_inv);
    reveal(ready_facts);
    let n = node_count(reg);
    let d = names.len() as int;
    let rem2 = Seq::new(rem.len(), |z: int| rem[z] && !ints(ready).contains(z));
    let lv2 = Seq::new(lv.len(), |z: int| if ints(ready).contains(z) { d } else { lv[z] });
    let rr = ints(ready);
    let idx2 = idx.push(rr);
    let names2 = names.push(rn);
    // Entries already levelled are never ready.
    assert forall|v: int| 0 <= v < n && lv[v] >= 0 implies !ints(ready).contains(v) by {
        if ints(ready).contains(v) {
            lemma_ready_members(reg, rem, ready, rn, v);
        }
    }
    assert forall|v: int| 0 <= v < n && ints(ready).contains(v) implies rem[v] by {
        lemma_ready_members(reg, rem, ready, rn, v);
    }
    assert forall|x: int| 0 <= x < n && #[trigger] rem2[x] implies sel[x] && lv2[x] == -1 by {}
    assert forall|x: int| 0 <= x < n && sel[x] && !rem2[x] implies 0 <= #[trigger] lv2[x] < d + 1 by {}
    assert forall|x: int| 0 <= x < n && !sel[x] implies #[trigger] lv2[x] == -1 by {
        if ints(ready).contains(x) {
            lemma_ready_members(reg, rem, ready, rn, x);
        }
    }
    assert forall|l: int| 0 <= l < d + 1 implies #[trigger] inhabited(reg, lv2, l) by {
        if l < d {
            assert(inhabited(reg, lv, l));
            let w = choose|w: int| 0 <= w < n && #[trigger] lv[w] == l;
            assert(lv2[w] == l);
        } else {
            assert(ints(ready).contains(ints(ready)[0]));
            assert(lv2[ints(ready)[0]] == d);
        }
    }
    assert forall|x: int, j: int| 0 <= x < n && lv2[x] >= 0 && #[trigger] dep_edge(reg, x, j) && sel[j] implies 0 <= lv2[j]
        < lv2[x] by {
        if ints(ready).contains(x) {
            lemma_ready_members(reg, rem, ready, rn, x);
            assert(!rem[j]);
            assert(!ints(ready).contains(j));
        } else {
            assert(0 <= lv[j] < lv[x]);
        }
    }
    assert forall|x: int| 0 <= x < n && #[trigger] lv2[x] > 0 implies exists|j: int|
        #![trigger dep_edge(reg, x, j)]
        dep_edge(reg, x, j) && lv2[j] == lv2[x] - 1 by {
        if ints(ready).contains(x) {
            lemma_ready_members(reg, rem, ready, rn, x);
            let j = choose|j: int| #![trigger dep_edge(reg, x, j)] dep_edge(reg, x, j) && (rem[j] || lv[j] == d - 1);
            assert(!rem[j]);
            assert(lv[j] >= 0);
            assert(dep_edge(reg, x, j) && lv2[j] == lv2[x] - 1);
        } else {
            let j = choose|j: int| #![trigger dep_edge(reg, x, j)] dep_edge(reg, x, j) && lv[j] == lv[x] - 1;
            assert(lv[j] >= 0);
            assert(dep_edge(reg, x, j) && lv2[j] == lv2[x] - 1);
        }
    }
    assert forall|x: int| 0 <= x < n && #[trigger] rem2[x] implies exists|j: int|
        #![trigger dep_edge(reg, x, j)]
        dep_edge(reg, x, j) && (rem2[j] || lv2[j] == d) by {
        let j = choose|j: int| #![trigger dep_edge(reg, x, j)] dep_edge(reg, x, j) && rem[j];
        assert(dep_edge(reg, x, j) && (rem2[j] || lv2[j] == d));
    }
    // The listing grows by the new level.
    assert forall|l: int| 0 <= l < idx2.len() implies #[trigger] idx2[l].len() == names2[l].len() by {
        if l < d {
            assert(idx2[l] == idx[l] && names2[l] == names[l]);
        }
    }
    assert forall|l: int, a: int| 0 <= l < idx2.len() && 0 <= a < idx2[l].len() implies #[trigger] names2[l][a]
        == slug_of(reg, idx2[l][a]) by {
        if l < d {
            assert(idx2[l] == idx[l] && names2[l] == names[l]);
        }
    }
    assert forall|l: int, a: int, b: int| 0 <= l < idx2.len() && 0 <= a < b < idx2[l].len() implies #[trigger] idx2[l][a]
        < #[trigger] idx2[l][b] by {
        if l < d {
            assert(idx2[l] == idx[l]);
            assert(idx[l][a] < idx[l][b]);
        } else {
            assert(ready[a] < ready[b]);
        }
    }
    assert forall|l: int, a: int| 0 <= l < idx2.len() && 0 <= a < idx2[l].len() implies 0 <= #[trigger] idx2[l][a]
        < node_count(reg) && lv2[idx2[l][a]] == l by {
        if l < d {
            assert(idx2[l] == idx[l]);
            let v = idx[l][a];
            assert(0 <= v < n && lv[v] == l);
        } else {
            assert(ints(ready).contains(ints(ready)[a]));
        }
    }
    assert forall|x: int| 0 <= x < node_count(reg) && 0 <= #[trigger] lv2[x] < idx2.len() implies exists|a: int|
        0 <= a < idx2[lv2[x]].len() && #[trigger] idx2[lv2[x]][a] == x by {
        if ints(ready).contains(x) {
            let a = choose|a: int| 0 <= a < ints(ready).len() && ints(ready)[a] == x;
            assert(idx2[d][a] == x);
        } else {
            let l = lv[x];
            assert(idx2[l] == idx[l]);
            let a = choose|a: int| 0 <= a < idx[l].len() && #[trigger] idx[l][a] == x;
            assert(idx2[l][a] == x);
        }
    }
    assert(listing(reg, lv2, idx2, names2));
}

proof fn lemma_finish_ok(
    reg: &DevRegistry,
    sel: Seq<bool>,
    rem: Seq<bool>,
    lv: Seq<int>,
    idx: Seq<Seq<int>>,
    names: Seq<Seq<Seq<char>>>,
)
    requires
        kahn_inv(reg, sel, rem, lv, idx, names),
        forall|y: int| 0 <= y < node_count(reg) ==> !#[trigger] rem[y],
    ensures
        plan_of(reg, marked(reg, sel), names),
{
    reveal(kahn_inv);
    reveal(valid_levels);
    let sset = marked(reg, sel);
    assert(valid_levels(reg, sset, sset, lv, names.len() as int));
}

proof fn lemma_unplaced_is_rem(reg: &DevRegistry, sel: Seq<bool>, rem: Seq<bool>, lv: Seq<int>, z: int)
    requires
        sel.len() == node_count(reg) && rem.len() == node_count(reg) && lv.len() == node_count(reg),
        forall|x: int| 0 <= x < node_count(reg) && #[trigger] rem[x] ==> sel[x] && lv[x] == -1,
        forall|x: int| 0 <= x < node_count(reg) && sel[x] && !rem[x] ==> 0 <= #[trigger] lv[x],
    ensures
        unplaced(marked(reg, sel), lv).contains(z) <==> (0 <= z
            < node_count(reg) && rem[z]),
{
}

proof fn lemma_cycle_levels(
    reg: &DevRegistry,
    sel: Seq<bool>,
    rem: Seq<bool>,
    lv: Seq<int>,
    idx: Seq<Seq<int>>,
    names: Seq<Seq<Seq<char>>>,
)
    requires
        kahn_inv(reg, sel, rem, lv, idx, names),
    ensures
        ({
            let sset = marked(reg, sel);
            valid_levels(reg, sset, placed(sset, lv), lv, names.len() as int)
        }),
{
    reveal(kahn_inv);
    reveal(valid_levels);
}

proof fn lemma_cycle_stuck(reg: &DevRegistry, sel: Seq<bool>, rem: Seq<bool>, lv: Seq<int>)
    requires
        sel.len() == node_count(reg) && rem.len() == node_count(reg) && lv.len() == node_count(reg),
        forall|x: int| 0 <= x < node_count(reg) && #[trigger] rem[x] ==> sel[x] && lv[x] == -1,
        forall|x: int| 0 <= x < node_count(reg) && sel[x] && !rem[x] ==> 0 <= #[trigger] lv[x],
        exists|y: int| 0 <= y < node_count(reg) && #[trigger] rem[y],
        forall|y: int|
            0 <= y < node_count(reg) && #[trigger] rem[y] ==> exists|j: int| #![trigger dep_edge(reg, y, j)] dep_edge(reg, y, j) && rem[j],
    ensures
        stuck(reg, unplaced(marked(reg, sel), lv)),
{
    reveal(stuck);
    let un = unplaced(marked(reg, sel), lv);
    let w = choose|y: int| 0 <= y < node_count(reg) && #[trigger] rem[y];
    lemma_unplaced_is_rem(reg, sel, rem, lv, w);
    assert(un.contains(w));
    assert forall|z: int| un.contains(z) implies exists|j: int| #[trigger] dep_edge(reg, z, j) && un.contains(j) by {
        lemma_unplaced_is_rem(reg, sel, rem, lv, z);
        let j = choose|j: int| #![trigger dep_edge(reg, z, j)] dep_edge(reg, z, j) && rem[j];
        lemma_unplaced_is_rem(reg, sel, rem, lv, j);
        assert(dep_edge(reg, z, j) && un.contains(j));
    }
}

proof fn lemma_cycle_listing(
    reg: &DevRegistry,
    sel: Seq<bool>,
    rem: Seq<bool>,
    lv: Seq<int>,
    ridx: Seq<usize>,
    rnames: Seq<Seq<char>>,
)
    requires
        sel.len() == node_count(reg) && rem.len() == node_count(reg) && lv.len() == node_count(reg),
        forall|x: int| 0 <= x < node_count(reg) && #[trigger] rem[x] ==> sel[x] && lv[x] == -1,
        forall|x: int| 0 <= x < node_count(reg) && sel[x] && !rem[x] ==> 0 <= #[trigger] lv[x],
        ridx.len() == rnames.len(),
        forall|a: int| 0 <= a < ridx.len() ==> #[trigger] rnames[a] == slug_of(reg, ridx[a] as int),
        forall|a: int, b: int| 0 <= a < b < ridx.len() ==> #[trigger] ridx[a] < #[trigger] ridx[b],
        forall|a: int| 0 <= a < ridx.len() ==> #[trigger] ridx[a] < node_count(reg) && rem[ridx[a] as int],
        forall|z: int| 0 <= z < node_count(reg) && #[trigger] rem[z] ==> ints(ridx).contains(z),
    ensures
        set_listing(reg, unplaced(marked(reg, sel), lv), ints(ridx), rnames),
{
    reveal(set_listing);
    let un = unplaced(marked(reg, sel), lv);
    let ri = ints(ridx);
    assert forall|a: int| 0 <= a < ri.len() implies #[trigger] rnames[a] == slug_of(reg, ri[a]) by {
        assert(rnames[a] == slug_of(reg, ridx[a] as int));
    }
    assert forall|a: int, b: int| 0 <= a < b < ri.len() implies #[trigger] ri[a] < #[trigger] ri[b] by {
        assert(ridx[a] < ridx[b]);
    }
    assert forall|a: int| 0 <= a < ri.len() implies un.contains(#[trigger] ri[a]) by {
        assert(ridx[a] < node_count(reg) && rem[ridx[a] as int]);
        lemma_unplaced_is_rem(reg, sel, rem, lv, ri[a]);
    }
    assert forall|z: int| un.contains(z) implies exists|a: int| 0 <= a < ri.len() && #[trigger] ri[a] == z by {
        lemma_unplaced_is_rem(reg, sel, rem, lv, z);
        assert(ri.contains(z));
    }
}

proof fn lemma_finish_cycle(reg: &DevRegistry, sset: Set<int>, lv: Seq<int>, depth: int, ridx: Seq<int>, rnames: Seq<Seq<char>>)
    requires
        valid_levels(reg, sset, placed(sset, lv), lv, depth),
        stuck(reg, unplaced(sset, lv)),
        set_listing(reg, unplaced(sset, lv), ridx, rnames),
    ensures
        cycle_of(reg, sset, rnames),
{
}

/// Facts of `kahn_inv` the loop body reads directly.
proof fn lemma_kahn_basics(
    reg: &DevRegistry,
    sel: Seq<bool>,
    rem: Seq<bool>,
    lv: Seq<int>,
    idx: Seq<Seq<int>>,
    names: Seq<Seq<Seq<char>>>,
)
    requires
        kahn_inv(reg, sel, rem, lv, idx, names),
    ensures
        sel.len() == node_count(reg) && rem.len() == node_count(reg) && lv.len() == node_count(reg),
        forall|x: int| 0 <= x < node_count(reg) && #[trigger] rem[x] ==> sel[x] && lv[x] == -1,
        forall|x: int| 0 <= x < node_count(reg) && sel[x] && !rem[x] ==> 0 <= #[trigger] lv[x],
{
    reveal(kahn_inv);
}

/// What a round's `ready_facts` give about each position.
proof fn lemma_ready_facts(reg: &DevRegistry, rem: Seq<bool>, ready: Seq<usize>, rn: Seq<Seq<char>>)
    requires
        ready_facts(reg, rem, ready, rn),
    ensures
        forall|a: int| 0 <= a < ready.len() ==> #[trigger] ready[a] < node_count(reg) && rem[ready[a] as int],
        forall|y: int|
            0 <= y < node_count(reg) && #[trigger] rem[y] && !ints(ready).contains(y) ==> exists|j: int|
                #![trigger dep_edge(reg, y, j)]
                dep_edge(reg, y, j) && rem[j],
{
    reveal(ready_facts);
}

/// When a round finds nothing ready but something remains, the remaining
/// entries are stuck on one another.
proof fn lemma_cycle_case(
    reg: &DevRegistry,
    sel: Seq<bool>,
    rem: Seq<bool>,
    lv: Seq<int>,
    idx: Seq<Seq<int>>,
    names: Seq<Seq<Seq<char>>>,
    ready: Seq<usize>,
    rn: Seq<Seq<char>>,
    ridx: Seq<usize>,
    rnames: Seq<Seq<char>>,
)
    requires
        kahn_inv(reg, sel, rem, lv, idx, names),
        ready_facts(reg, rem, ready, rn),
        ready.len() == 0,
        exists|y: int| 0 <= y < node_count(reg) && #[trigger] rem[y],
        ridx.len() == rnames.len(),
        forall|a: int| 0 <= a < ridx.len() ==> #[trigger] rnames[a] == slug_of(reg, ridx[a] as int),
        forall|a: int, b: int| 0 <= a < b < ridx.len() ==> #[trigger] ridx[a] < #[trigger] ridx[b],
        forall|a: int| 0 <= a < ridx.len() ==> #[trigger] ridx[a] < node_count(reg) && rem[ridx[a] as int],
        forall|z: int| 0 <= z < node_count(reg) && #[trigger] rem[z] ==> ints(ridx).contains(z),
    ensures
        cycle_of(reg, marked(reg, sel), rnames),
{
    let sset = marked(reg, sel);
    assert(valid_levels(reg, sset, placed(sset, lv), lv, names.len() as int)) by {
        lemma_cycle_levels(reg, sel, rem, lv, idx, names);
    }
    assert(stuck(reg, unplaced(sset, lv))) by {
        lemma_kahn_basics(reg, sel, rem, lv, idx, names);
        lemma_ready_facts(reg, rem, ready, rn);
        lemma_cycle_stuck(reg, sel, rem, lv);
    }
    assert(set_listing(reg, unplaced(sset, lv), ints(ridx), rnames)) by {
        lemma_kahn_basics(reg, sel, rem, lv, idx, names);
        lemma_cycle_listing(reg, sel, rem, lv, ridx, rnames);
    }
    lemma_finish_cycle(reg, marked(reg, sel), lv, names.len() as int, ints(ridx), rnames);
}

/// One scan of Kahn's algorithm: the remaining entries none of whose
/// dependencies remain, in position order, with their slugs; and whether
/// anything remains at all.
fn ready_round(reg: &DevRegistry, adj: &Vec<Vec<bool>>, rem: &Vec<bool>) -> (r: (Vec<usize>, Vec<String>, bool))
    requires
        adj@.len() == node_count(reg),
        forall|i: int| 0 <= i < node_count(reg) ==> (#[trigger] adj@[i])@.len() == node_count(reg),
        forall|i: int, j: int|
            0 <= i < node_count(reg) && 0 <= j < node_count(reg) ==> adj@[i]@[j] == dep_edge(reg, i, j),
        rem@.len() == node_count(reg),
    ensures
        ready_facts(reg, rem@, r.0@, views(r.1@)),
        r.2 == exists|y: int| 0 <= y < node_count(reg) && #[trigger] rem@[y],
{
    let n = reg.deployments.len();
    let mut ready: Vec<usize> = Vec::new();
    let mut ready_names: Vec<String> = Vec::new();
    let mut any = false;
    let mut x: usize = 0;
    while x < n
        invariant
            x <= n,
            n == node_count(reg),
            adj@.len() == n,
            forall|i: int| 0 <= i < n ==> (#[trigger] adj@[i])@.len() == n,
            forall|i: int, j: int| 0 <= i < n && 0 <= j < n ==> adj@[i]@[j] == dep_edge(reg, i, j),
            rem@.len() == n,
            ready@.len() == ready_names@.len(),
            forall|a: int| 0 <= a < ready@.len() ==> #[trigger] views(ready_names@)[a] == slug_of(reg, ready@[a] as int),
            forall|a: int, b: int| 0 <= a < b < ready@.len() ==> #[trigger] ready@[a] < #[trigger] ready@[b],
            forall|a: int|
                0 <= a < ready@.len() ==> #[trigger] ready@[a] < x && rem@[ready@[a] as int] && forall|j: int|
                    0 <= j < n ==> !(dep_edge(reg, ready@[a] as int, j) && rem@[j]),
            forall|y: int|
                0 <= y < x && #[trigger] rem@[y] && !ints(ready@).contains(y) ==> exists|j: int|
                    #![trigger dep_edge(reg, y, j)]
                    dep_edge(reg, y, j) && rem@[j],
            any == exists|y: int| 0 <= y < x && #[trigger] rem@[y],
        decreases n - x,
    {
        if rem[x] {
            any = true;
            let mut ok = true;
            let mut j: usize = 0;
            while j < n
                invariant
                    j <= n,
                    x < n,
                    n == node_count(reg),
                    adj@.len() == n,
                    forall|i: int| 0 <= i < n ==> (#[trigger] adj@[i])@.len() == n,
                    forall|i: int, j: int| 0 <= i < n && 0 <= j < n ==> adj@[i]@[j] == dep_edge(reg, i, j),
                    rem@.len() == n,
                    ok == forall|b: int| 0 <= b < j ==> !(dep_edge(reg, x as int, b) && #[trigger] rem@[b]),
                decreases n - j,
            {
                if adj[x][j] && rem[j] {
                    ok = false;
                }
                j = j + 1;
            }
            if ok {
                let ghost prev = ready@;
                let ghost prev_names = ready_names@;
                ready.push(x);
                let nm = reg.deployments.key_at(x).clone();
                ready_names.push(nm);
                proof {
                    assert(views(ready_names@) =~= views(prev_names).push(nm@));
                    assert(ints(ready@) =~= ints(prev).push(x as int));
                    assert forall|y: int|
                        0 <= y < x + 1 && #[trigger] rem@[y] && !ints(ready@).contains(y) implies exists|j: int|
                        #![trigger dep_edge(reg, y, j)]
                        dep_edge(reg, y, j) && rem@[j] by {
                        if y < x {
                            assert(!ints(prev).contains(y)) by {
                                if ints(prev).contains(y) {
                                    let k = choose|k: int| 0 <= k < ints(prev).len() && ints(prev)[k] == y;
                                    assert(ints(ready@)[k] == y);
                                }
                            }
                        } else {
                            assert(ints(ready@)[ints(ready@).len() - 1] == x);
                        }
                    }
                }
            } else {
                proof {
                    let b = choose|b: int| 0 <= b < n && !(!dep_edge(reg, x as int, b) || !#[trigger] rem@[b]);
                    assert(dep_edge(reg, x as int, b) && rem@[b]);
                }
            }
        }
        x = x + 1;
    }
    proof {
        reveal(ready_facts);
    }
    (ready, ready_names, any)
}

/// The remaining entries, in position order, with their slugs.
fn remaining(reg: &DevRegistry, rem: &Vec<bool>) -> (r: (Vec<usize>, Vec<String>))
    requires
        rem@.len() == node_count(reg),
    ensures
        r.0@.len() == r.1@.len(),
        forall|a: int| 0 <= a < r.0@.len() ==> #[trigger] views(r.1@)[a] == slug_of(reg, r.0@[a] as int),
        forall|a: int, b: int| 0 <= a < b < r.0@.len() ==> #[trigger] r.0@[a] < #[trigger] r.0@[b],
        forall|a: int| 0 <= a < r.0@.len() ==> #[trigger] r.0@[a] < node_count(reg) && rem@[r.0@[a] as int],
        forall|z: int| 0 <= z < node_count(reg) && #[trigger] rem@[z] ==> ints(r.0@).contains(z),
{
    let n = reg.deployments.len();
    let mut idx: Vec<usize> = Vec::new();
    let mut names: Vec<String> = Vec::new();
    let mut y: usize = 0;
    while y < n
        invariant
            y <= n,
            n == node_count(reg),
            rem@.len() == n,
            idx@.len() == names@.len(),
            forall|a: int| 0 <= a < idx@.len() ==> #[trigger] views(names@)[a] == slug_of(reg, idx@[a] as int),
            forall|a: int, b: int| 0 <= a < b < idx@.len() ==> #[trigger] idx@[a] < #[trigger] idx@[b],
            forall|a: int| 0 <= a < idx@.len() ==> #[trigger] idx@[a] < y && rem@[idx@[a] as int],
            forall|z: int| 0 <= z < y && #[trigger] rem@[z] ==> ints(idx@).contains(z),
        decreases n - y,
    {
        if rem[y] {
            let ghost prev_names = names@;
            let ghost prev = idx@;
            let nm = reg.deployments.key_at(y).clone();
            names.push(nm);
            idx.push(y);
            proof {
                assert(views(names@) =~= views(prev_names).push(nm@));
                assert(ints(idx@) =~= ints(prev).push(y as int));
                assert(ints(idx@)[ints(idx@).len() - 1] == y);
                assert forall|z: int| 0 <= z < y + 1 && #[trigger] rem@[z] implies ints(idx@).contains(z) by {
                    if z < y {
                        let k = choose|k: int| 0 <= k < ints(prev).len() && ints(prev)[k] == z;
                        assert(ints(idx@)[k] == z);
                    }
                }
            }
        }
        y = y + 1;
    }
    (idx, names)
}

/// Clears the marks of `ready` in `rem`.
fn clear_marks(rem: &mut Vec<bool>, ready: &Vec<usize>)
    requires
        forall|a: int| 0 <= a < ready@.len() ==> #[trigger] ready@[a] < old(rem)@.len(),
    ensures
        final(rem)@ =~= Seq::new(old(rem)@.len(), |z: int| old(rem)@[z] && !ints(ready@).contains(z)),
{
    let ghost old_rem = rem@;
    let mut k: usize = 0;
    while k < ready.len()
        invariant
            k <= ready@.len(),
            rem@.len() == old_rem.len(),
            forall|a: int| 0 <= a < ready@.len() ==> #[trigger] ready@[a] < old_rem.len(),
            forall|z: int|
                0 <= z < old_rem.len() ==> #[trigger] rem@[z] == (old_rem[z] && !ints(ready@).subrange(0, k as int).contains(z)),
        decreases ready@.len() - k,
    {
        let z = ready[k];
        rem.set(z, false);
        proof {
            let s0 = ints(ready@).subrange(0, k as int);
            let s1 = ints(ready@).subrange(0, k + 1);
            assert(s1 =~= s0.push(z as int));
            assert forall|w: int| #[trigger] s1.contains(w) <==> s0.contains(w) || w == z by {
                if s1.contains(w) && w != z {
                    let i = choose|i: int| 0 <= i < s1.len() && s1[i] == w;
                    assert(s0[i] == w);
                }
                if s0.contains(w) {
                    let i = choose|i: int| 0 <= i < s0.len() && s0[i] == w;
                    assert(s1[i] == w);
                }
                if w == z {
                    assert(s1[k as int] == w);
                }
            }
        }
        k = k + 1;
    }
    proof {
        assert(ints(ready@).subrange(0, ready@.len() as int) =~= ints(ready@));
    }
}

fn levelize(reg: &DevRegistry, adj: &Vec<Vec<bool>>, sel: &Vec<bool>) -> (r: Result<Vec<Vec<String>>, Vec<String>>)
    requires
        adj@.len() == node_count(reg),
        forall|i: int| 0 <= i < node_count(reg) ==> (#[trigger] adj@[i])@.len() == node_count(reg),
        forall|i: int, j: int|
            0 <= i < node_count(reg) && 0 <= j < node_count(reg) ==> adj@[i]@[j] == dep_edge(reg, i, j),
        sel@.len() == node_count(reg),
    ensures
        ({
            let sset = marked(reg, sel@);
            match r {
                Ok(levels) => plan_of(reg, sset, level_views(levels@)),
                Err(names) => cycle_of(reg, sset, views(names@)),
            }
        }),
{
    let n = reg.deployments.len();
    let mut rem: Vec<bool> = sel.clone();
    let mut levels: Vec<Vec<String>> = Vec::new();
    let ghost mut lv: Seq<int> = Seq::new(n as nat, |x: int| -1int);
    let ghost mut idx: Seq<Seq<int>> = Seq::empty();
    proof {
        assert(rem@ == sel@);
        assert(level_views(levels@) =~= Seq::<Seq<Seq<char>>>::empty());
        reveal(kahn_inv);
        assert(kahn_inv(reg, sel@, rem@, lv, idx, level_views(levels@)));
    }
    loop
        invariant
            n == node_count(reg),
            adj@.len() == n,
            forall|i: int| 0 <= i < n ==> (#[trigger] adj@[i])@.len() == n,
            forall|i: int, j: int| 0 <= i < n && 0 <= j < n ==> adj@[i]@[j] == dep_edge(reg, i, j),
            kahn_inv(reg, sel@, rem@, lv, idx, level_views(levels@)),
            sel@.len() == n,
            rem@.len() == n,
        decreases count_true(rem@),
    {
        let (ready, ready_names, any) = ready_round(reg, adj, &rem);
        if !any {
            proof {
                assert forall|y: int| 0 <= y < n implies !#[trigger] rem@[y] by {
                    if rem@[y] {
                        assert(exists|z: int| 0 <= z < n && #[trigger] rem@[z]);
                    }
                }
                lemma_finish_ok(reg, sel@, rem@, lv, idx, level_views(levels@));
            }
            return Ok(levels);
        }
        if ready.len() == 0 {
            let (ridx, names) = remaining(reg, &rem);
            proof {
                lemma_cycle_case(reg, sel@, rem@, lv, idx, level_views(levels@), ready@, views(ready_names@), ridx@, views(names@));
            }
            return Err(names);
        }
        let ghost old_rem = rem@;
        let ghost old_lv = lv;
        let ghost old_levels = levels@;
        proof {
            lemma_round(reg, sel@, rem@, lv, idx, level_views(levels@), ready@, views(ready_names@));
            lemma_ready_facts(reg, rem@, ready@, views(ready_names@));
            assert(ready@[0] < n && rem@[ready@[0] as int]);
        }
        clear_marks(&mut rem, &ready);
        proof {
            lv = Seq::new(lv.len(), |z: int| if ints(ready@).contains(z) { old_levels.len() as int } else { old_lv[z] });
            idx = idx.push(ints(ready@));
            lemma_count_true_le(rem@, old_rem);
            assert(ints(ready@).contains(ints(ready@)[0]));
            assert(!rem@[ints(ready@)[0]] && old_rem[ints(ready@)[0]]);
        }
        levels.push(ready_names);
        proof {
            assert(level_views(levels@) =~= level_views(old_levels).push(views(ready_names@)));
        }
    }
}

// ---------------------------------------------------------------------
// The plan.
// ---------------------------------------------------------------------

/// `k` is the first requested slug that names no local-driver entry.
pub open spec fn first_bad(reg: &DevRegistry, requested: Seq<Seq<char>>, k: int) -> bool {
    &&& 0 <= k < requested.len()
    &&& !local_slug(reg, requested[k])
    &&& forall|j: int| 0 <= j < k ==> local_slug(reg, #[trigger] requested[j])
}

/// Compute the boot plan over local-driver deployments.
///
/// - `requested`: explicit slug subset; empty means "all local".
/// - `no_deps`: when true, only the requested slugs are included.
/// - Otherwise, transitive deps of the requested slugs are pulled in.
///
/// The first requested slug that is not a local-driver entry is refused
/// (`NotLocal` when it is registered under another driver, `NotRegistered`
/// otherwise). Otherwise the selection is levelled: each level holds, in
/// slug order, the entries whose selected dependencies all boot at earlier
/// levels, as early as possible; when a dependency cycle leaves entries
/// that can never boot, `Cycle` lists them in slug order.
pub fn plan(reg: &DevRegistry, requested: &[String], no_deps: bool) -> (r: Result<BootPlan, PlanError>)
    ensures
        ({
            let rq = views(requested@);
            match r {
                Err(PlanError::NotLocal(s)) => exists|k: int|
                    #![trigger first_bad(reg, rq, k)]
                    first_bad(reg, rq, k) && s@ == rq[k] && reg.deployments.as_map().contains_key(rq[k]),
                Err(PlanError::NotRegistered(s)) => exists|k: int|
                    #![trigger first_bad(reg, rq, k)]
                    first_bad(reg, rq, k) && s@ == rq[k] && !reg.deployments.as_map().contains_key(rq[k]),
                Err(PlanError::Cycle(names)) => (forall|k: int| 0 <= k < rq.len() ==> local_slug(reg, #[trigger] rq[k]))
                    && cycle_of(reg, selection(reg, rq, no_deps), views(names@)),
                Ok(p) => (forall|k: int| 0 <= k < rq.len() ==> local_slug(reg, #[trigger] rq[k]))
                    && plan_of(reg, selection(reg, rq, no_deps), level_views(p.levels@)),
            }
        }),
        ({
            let rq = views(requested@);
            let all_local = forall|k: int| 0 <= k < rq.len() ==> local_slug(reg, #[trigger] rq[k]);
            &&& (r is Ok <==> all_local && acyclic(reg, selection(reg, rq, no_deps)))
            &&& (r matches Err(PlanError::Cycle(_)) <==> all_local && !acyclic(reg, selection(reg, rq, no_deps)))
            &&& (r matches Ok(p) ==> lists_selection_once(reg, selection(reg, rq, no_deps), level_views(p.levels@)))
        }),
{
    let ghost rq = views(requested@);
    let mut req: Vec<usize> = Vec::new();
    let mut k: usize = 0;
    while k < requested.len()
        invariant
            k <= requested@.len(),
            rq == views(requested@),
            req@.len() == k,
            forall|j: int| 0 <= j < k ==> local_slug(reg, #[trigger] rq[j]),
            forall|j: int|
                0 <= j < k ==> #[trigger] req@[j] < node_count(reg) && is_local(reg, req@[j] as int) && slug_of(
                    reg,
                    req@[j] as int,
                ) == rq[j],
        decreases requested@.len() - k,
    {
        match local_index(reg, requested[k].as_str()) {
            Some(i) => {
                req.push(i);
                proof {
                    assert(slug_of(reg, i as int) == rq[k as int]);
                }
            },
            None => {
                let s = requested[k].clone();
                proof {
                    assert(first_bad(reg, rq, k as int));
                }
                if reg.deployments.contains_key(requested[k].as_str()) {
                    return Err(PlanError::NotLocal(s));
                } else {
                    return Err(PlanError::NotRegistered(s));
                }
            },
        }
        k = k + 1;
    }
    let adj = adjacency(reg);
    proof {
        use_type_invariant(&reg.deployments);
        assert forall|j: int| 0 <= j < req@.len() implies requested_node(reg, rq, #[trigger] req@[j] as int) by {
            assert(rq[j] == slug_of(reg, req@[j] as int));
        }
        assert forall|x: int| requested_node(reg, rq, x) implies exists|j: int| 0 <= j < req@.len() && #[trigger] req@[j] == x by {
            let j = choose|j: int| 0 <= j < rq.len() && rq[j] == slug_of(reg, x);
            assert(slug_of(reg, req@[j] as int) == slug_of(reg, x));
            lemma_slug_unique(reg, req@[j] as int, x);
        }
    }
    let sel = select(reg, &adj, &req, requested, no_deps);
    proof {
        assert(marked(reg, sel@) =~= selection(reg, rq, no_deps));
    }
    match levelize(reg, &adj, &sel) {
        Ok(levels) => {
            proof {
                let sset = selection(reg, rq, no_deps);
                let names = level_views(levels@);
                let (lv, idx) = choose|lv: Seq<int>, idx: Seq<Seq<int>>|
                    #![trigger valid_levels(reg, sset, sset, lv, names.len() as int), listing(reg, lv, idx, names)]
                    valid_levels(reg, sset, sset, lv, names.len() as int) && listing(reg, lv, idx, names);
                lemma_levels_acyclic(reg, sset, lv, names.len() as int);
                lemma_plan_lists_once(reg, sset, names);
            }
            Ok(BootPlan { levels })
        },
        Err(names) => {
            proof {
                let sset = selection(reg, rq, no_deps);
                let u = lemma_cycle_gives_stuck(reg, sset, views(names@));
                lemma_stuck_has_cycle(reg, sset, u);
            }
            Err(PlanError::Cycle(names))
        },
    }
}

/// Levels fall along a dependency path inside the selection.
proof fn lemma_levels_fall(reg: &DevRegistry, sel: Set<int>, lv: Seq<int>, p: Seq<int>, m: int)
    requires
        forall|x: int, j: int| sel.contains(x) && #[trigger] dep_edge(reg, x, j) && sel.contains(j) ==> 0 <= lv[j] < lv[x],
        dep_path(reg, p),
        forall|k: int| 0 <= k < p.len() ==> sel.contains(#[trigger] p[k]),
        0 <= m < p.len(),
    ensures
        lv[p[m]] <= lv[p[0]] - m,
    decreases m,
{
    if m > 0 {
        lemma_levels_fall(reg, sel, lv, p, m - 1);
        assert(dep_edge(reg, p[m - 1], p[m]));
        assert(sel.contains(p[m - 1]) && sel.contains(p[m]));
    }
}

/// A selection that can be levelled has no dependency cycle.
proof fn lemma_levels_acyclic(reg: &DevRegistry, sel: Set<int>, lv: Seq<int>, depth: int)
    requires
        valid_levels(reg, sel, sel, lv, depth),
    ensures
        acyclic(reg, sel),
{
    reveal(valid_levels);
    assert forall|p: Seq<int>| !#[trigger] cycle_in(reg, sel, p) by {
        if cycle_in(reg, sel, p) {
            lemma_levels_fall(reg, sel, lv, p, p.len() - 1);
            assert(sel.contains(p[0]));
        }
    }
}

/// A walk of `m` steps from `x0` that always moves to a dependency in `u`.
spec fn walk(reg: &DevRegistry, u: Set<int>, x0: int, m: nat) -> Seq<int>
    decreases m,
{
    if m == 0 {
        seq![x0]
    } else {
        let w = walk(reg, u, x0, (m - 1) as nat);
        w.push(choose|j: int| dep_edge(reg, w.last(), j) && u.contains(j))
    }
}

/// Inside a set where every entry waits on another, such a walk stays in
/// the set and follows dependency edges.
proof fn lemma_walk(reg: &DevRegistry, u: Set<int>, x0: int, m: nat)
    requires
        u.contains(x0),
        forall|x: int| u.contains(x) ==> #[trigger] waits(reg, u, x),
    ensures
        walk(reg, u, x0, m).len() == m + 1,
        dep_path(reg, walk(reg, u, x0, m)),
        forall|k: int| 0 <= k < m + 1 ==> u.contains(#[trigger] walk(reg, u, x0, m)[k]),
        forall|k: int| 0 <= k < m + 1 ==> 0 <= #[trigger] walk(reg, u, x0, m)[k] < node_count(reg),
    decreases m,
{
    if m == 0 {
        assert(waits(reg, u, x0));
        let j = choose|j: int| #[trigger] dep_edge(reg, x0, j) && u.contains(j);
        assert(walk(reg, u, x0, m)[0] == x0);
    } else {
        lemma_walk(reg, u, x0, (m - 1) as nat);
        let w = walk(reg, u, x0, (m - 1) as nat);
        let s = walk(reg, u, x0, m);
        assert(u.contains(w[w.len() - 1]));
        assert(waits(reg, u, w.last()));
        let j0 = choose|j: int| #[trigger] dep_edge(reg, w.last(), j) && u.contains(j);
        assert(dep_edge(reg, w.last(), j0) && u.contains(j0));
        let nx = s.last();
        assert(dep_edge(reg, w.last(), nx) && u.contains(nx));
        assert forall|k: int| 0 <= k < s.len() - 1 implies dep_edge(reg, #[trigger] s[k], s[k + 1]) by {
            if k < w.len() - 1 {
                assert(s[k] == w[k] && s[k + 1] == w[k + 1]);
            } else {
                assert(s[k] == w.last());
            }
        }
        assert forall|k: int| 0 <= k < m + 1 implies u.contains(#[trigger] s[k]) && 0 <= s[k] < node_count(reg) by {
            if k < m {
                assert(s[k] == w[k]);
            }
        }
    }
}

/// A sequence longer than `n` with entries in `0..n` repeats an entry.
proof fn lemma_pigeonhole(s: Seq<int>, n: int)
    requires
        0 <= n < s.len(),
        forall|k: int| 0 <= k < s.len() ==> 0 <= #[trigger] s[k] < n,
    ensures
        exists|i: int, j: int| 0 <= i < j < s.len() && s[i] == s[j],
{
    if s.no_duplicates() {
        s.unique_seq_to_set();
        vstd::set_lib::lemma_int_range(0, n);
        assert(s.to_set().subset_of(vstd::set_lib::set_int_range(0, n)));
        vstd::set_lib::lemma_len_subset(s.to_set(), vstd::set_lib::set_int_range(0, n));
        assert(false);
    } else {
        let (i, j) = choose|i: int, j: int| 0 <= i < s.len() && 0 <= j < s.len() && i != j && s[i] == s[j];
        if i < j {
            assert(0 <= i < j < s.len() && s[i] == s[j]);
        } else {
            assert(0 <= j < i < s.len() && s[j] == s[i]);
        }
    }
}

/// A nonempty set of selected entries in which every entry waits on
/// another holds a dependency cycle.
proof fn lemma_stuck_has_cycle(reg: &DevRegistry, sel: Set<int>, u: Set<int>)
    requires
        exists|x: int| u.contains(x),
        forall|x: int| u.contains(x) ==> #[trigger] waits(reg, u, x),
        forall|x: int| u.contains(x) ==> sel.contains(x),
    ensures
        !acyclic(reg, sel),
{
    let x0 = choose|x: int| u.contains(x);
    let n = node_count(reg);
    assert(waits(reg, u, x0));
    let j0 = choose|j: int| #[trigger] dep_edge(reg, x0, j) && u.contains(j);
    assert(n > 0);
    lemma_walk(reg, u, x0, n as nat);
    let w = walk(reg, u, x0, n as nat);
    lemma_pigeonhole(w, n);
    let (i, j) = choose|i: int, j: int| 0 <= i < j < w.len() && w[i] == w[j];
    lemma_repeat_gives_cycle(reg, sel, u, w, i, j);
}

/// The stretch of a dependency walk between two visits of one entry is a
/// cycle.
proof fn lemma_repeat_gives_cycle(reg: &DevRegistry, sel: Set<int>, u: Set<int>, w: Seq<int>, i: int, j: int)
    requires
        dep_path(reg, w),
        forall|k: int| 0 <= k < w.len() ==> u.contains(#[trigger] w[k]),
        forall|x: int| u.contains(x) ==> sel.contains(x),
        0 <= i < j < w.len(),
        w[i] == w[j],
    ensures
        !acyclic(reg, sel),
{
    let p = w.subrange(i, j + 1);
    assert forall|k: int| 0 <= k < p.len() - 1 implies dep_edge(reg, #[trigger] p[k], p[k + 1]) by {
        assert(p[k] == w[i + k] && p[k + 1] == w[i + k + 1]);
        assert(dep_edge(reg, w[i + k], w[i + k + 1]));
    }
    assert forall|k: int| 0 <= k < p.len() implies sel.contains(#[trigger] p[k]) by {
        assert(p[k] == w[i + k]);
        assert(u.contains(w[i + k]));
    }
    assert(cycle_in(reg, sel, p));
}

/// Entry `x` waits on some entry of `u`.
pub open spec fn waits(reg: &DevRegistry, u: Set<int>, x: int) -> bool {
    exists|j: int| #[trigger] dep_edge(reg, x, j) && u.contains(j)
}

/// Every entry of a stuck set sits at level `k` or later.
proof fn lemma_stuck_floor(reg: &DevRegistry, sel: Set<int>, u: Set<int>, lv: Seq<int>, k: int)
    requires
        forall|x: int, j: int| sel.contains(x) && #[trigger] dep_edge(reg, x, j) && sel.contains(j) ==> 0 <= lv[j] < lv[x],
        forall|x: int| u.contains(x) ==> sel.contains(x),
        forall|x: int| u.contains(x) ==> #[trigger] waits(reg, u, x),
        0 <= k,
    ensures
        forall|x: int| u.contains(x) ==> lv[x] >= k,
    decreases k,
{
    if k > 0 {
        lemma_stuck_floor(reg, sel, u, lv, k - 1);
    }
    assert forall|x: int| u.contains(x) implies lv[x] >= k by {
        assert(waits(reg, u, x));
        let j = choose|j: int| #[trigger] dep_edge(reg, x, j) && u.contains(j);
        assert(0 <= lv[j] < lv[x]);
    }
}

/// A dependency cycle rules out every boot order: when `plan` reports a
/// cycle for a selection, no assignment of levels can boot every selected
/// entry after its selected dependencies.
pub proof fn lemma_cycle_excludes_levels(
    reg: &DevRegistry,
    sel: Set<int>,
    names: Seq<Seq<char>>,
    lv: Seq<int>,
    depth: int,
)
    requires
        cycle_of(reg, sel, names),
    ensures
        !valid_levels(reg, sel, sel, lv, depth),
{
    let u = lemma_cycle_gives_stuck(reg, sel, names);
    if valid_levels(reg, sel, sel, lv, depth) {
        let w = choose|x: int| u.contains(x);
        assert(waits(reg, u, w));
        let j = choose|j: int| #[trigger] dep_edge(reg, w, j) && u.contains(j);
        lemma_dep_edge_range(reg, w, j);
        assert(forall|x: int, j: int| sel.contains(x) && #[trigger] dep_edge(reg, x, j) && sel.contains(j) ==> 0 <= lv[j] < lv[x]) by {
            reveal(valid_levels);
        }
        assert(sel.contains(w) ==> 0 <= lv[w] < depth) by {
            reveal(valid_levels);
        }
        if depth >= 0 {
            lemma_stuck_floor(reg, sel, u, lv, depth);
        }
        assert(sel.contains(w));
        assert(0 <= lv[w] < depth);
    }
}

/// The stuck set a reported cycle carries.
proof fn lemma_cycle_gives_stuck(reg: &DevRegistry, sel: Set<int>, names: Seq<Seq<char>>) -> (u: Set<int>)
    requires
        cycle_of(reg, sel, names),
    ensures
        exists|x: int| u.contains(x),
        forall|x: int| u.contains(x) ==> #[trigger] waits(reg, u, x),
        forall|x: int| u.contains(x) ==> sel.contains(x),
{
    reveal(stuck);
    let (lv0, d0, ridx) = choose|lv0: Seq<int>, d0: int, ridx: Seq<int>|
        #![trigger valid_levels(reg, sel, placed(sel, lv0), lv0, d0), set_listing(reg, unplaced(sel, lv0), ridx, names)]
        valid_levels(reg, sel, placed(sel, lv0), lv0, d0) && stuck(reg, unplaced(sel, lv0))
            && set_listing(reg, unplaced(sel, lv0), ridx, names);
    let u = unplaced(sel, lv0);
    assert forall|x: int| u.contains(x) implies #[trigger] waits(reg, u, x) by {
        let j = choose|j: int| #[trigger] dep_edge(reg, x, j) && u.contains(j);
    }
    u
}

} // verus!
