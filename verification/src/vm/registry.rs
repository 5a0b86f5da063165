//! The snapshot registry's eviction rule: when the registry holds more
//! entries than its capacity, the least recently accessed go first, ties
//! broken by key.

use vstd::prelude::*;

use crate::text::{lemma_lex_irrefl, lemma_lex_total, lemma_lex_trans, lex_less, lex_lt};
use vstd::set_lib::{lemma_int_range, lemma_map_size, lemma_subset_equality, set_int_range};

verus! {

/// One registry entry.
#[derive(Debug)]
pub struct RegistryRow {
    pub key: String,
    pub snapshot_id: String,
    /// Last access, in seconds since the epoch.
    pub accessed_at: i64,
    /// A legacy workspace directory the entry still names, if any.
    pub workspace_dir: Option<String>,
}

/// `a` is evicted before `b`: accessed earlier, or at the same time with a
/// smaller key.
pub open spec fn older(a: RegistryRow, b: RegistryRow) -> bool {
    a.accessed_at < b.accessed_at || (a.accessed_at == b.accessed_at && lex_lt(a.key@, b.key@))
}

/// How many of `rows` are evicted before `r`.
pub open spec fn rank(rows: Seq<RegistryRow>, r: RegistryRow) -> nat
    decreases rows.len(),
{
    if rows.len() == 0 {
        0
    } else {
        rank(rows.drop_last(), r) + if older(rows.last(), r) { 1nat } else { 0nat }
    }
}

/// How many entries must go to bring `n` entries within `capacity`.
pub open spec fn overflow(n: nat, capacity: nat) -> nat {
    if n > capacity {
        (n - capacity) as nat
    } else {
        0
    }
}

/// No two rows share a key (the registry's keys are unique).
pub open spec fn distinct_keys(rows: Seq<RegistryRow>) -> bool {
    forall|i: int, j: int| 0 <= i < j < rows.len() ==> rows[i].key@ != rows[j].key@
}

/// `older` is transitive.
proof fn lemma_older_trans(a: RegistryRow, b: RegistryRow, c: RegistryRow)
    requires
        older(a, b),
        older(b, c),
    ensures
        older(a, c),
{
    if a.accessed_at == b.accessed_at && b.accessed_at == c.accessed_at {
        lemma_lex_trans(a.key@, b.key@, c.key@);
    }
}

/// A row is never older than itself.
proof fn lemma_older_irrefl(a: RegistryRow)
    ensures
        !older(a, a),
{
    lemma_lex_irrefl(a.key@);
}

/// Rows with different keys are ordered one way or the other.
proof fn lemma_older_total(a: RegistryRow, b: RegistryRow)
    requires
        a.key@ != b.key@,
    ensures
        older(a, b) || older(b, a),
{
    lemma_lex_total(a.key@, b.key@);
}

/// Every row older than `x` being older than `y` makes `y` rank no lower.
proof fn lemma_rank_mono(rows: Seq<RegistryRow>, x: RegistryRow, y: RegistryRow)
    requires
        forall|j: int| 0 <= j < rows.len() && older(#[trigger] rows[j], x) ==> older(rows[j], y),
    ensures
        rank(rows, x) <= rank(rows, y),
    decreases rows.len(),
{
    if rows.len() > 0 {
        let init = rows.drop_last();
        assert forall|j: int| 0 <= j < init.len() && older(#[trigger] init[j], x) implies older(init[j], y) by {
            assert(init[j] == rows[j]);
        }
        lemma_rank_mono(init, x, y);
        assert(rows.last() == rows[rows.len() - 1]);
    }
}

/// With, in addition, a row older than `y` but not than `x`, `y` ranks
/// strictly higher.
proof fn lemma_rank_lt(rows: Seq<RegistryRow>, x: RegistryRow, y: RegistryRow, a: int)
    requires
        forall|j: int| 0 <= j < rows.len() && older(#[trigger] rows[j], x) ==> older(rows[j], y),
        0 <= a < rows.len(),
        older(rows[a], y),
        !older(rows[a], x),
    ensures
        rank(rows, x) < rank(rows, y),
    decreases rows.len(),
{
    let init = rows.drop_last();
    assert forall|j: int| 0 <= j < init.len() && older(#[trigger] init[j], x) implies older(init[j], y) by {
        assert(init[j] == rows[j]);
    }
    assert(rows.last() == rows[rows.len() - 1]);
    if a == rows.len() - 1 {
        lemma_rank_mono(init, x, y);
    } else {
        assert(init[a] == rows[a]);
        lemma_rank_lt(init, x, y, a);
    }
}

/// A row that is not older than `x` keeps `x`'s rank below the row count.
proof fn lemma_rank_below(rows: Seq<RegistryRow>, x: RegistryRow, a: int)
    requires
        0 <= a < rows.len(),
        !older(rows[a], x),
    ensures
        rank(rows, x) < rows.len(),
    decreases rows.len(),
{
    let init = rows.drop_last();
    assert(rows.last() == rows[rows.len() - 1]);
    if a == rows.len() - 1 {
        lemma_rank_le(init, x);
    } else {
        assert(init[a] == rows[a]);
        lemma_rank_below(init, x, a);
    }
}

/// A rank never exceeds the row count.
proof fn lemma_rank_le(rows: Seq<RegistryRow>, x: RegistryRow)
    ensures
        rank(rows, x) <= rows.len(),
    decreases rows.len(),
{
    if rows.len() > 0 {
        lemma_rank_le(rows.drop_last(), x);
    }
}

/// With unique keys the ranks of the rows are `0..n` in some order, so
/// exactly `k` rows rank below `k`.
proof fn lemma_ranks_below(rows: Seq<RegistryRow>, k: nat)
    requires
        distinct_keys(rows),
        k <= rows.len(),
    ensures
        Set::new(|i: int| 0 <= i < rows.len() && rank(rows, rows[i]) < k).finite(),
        Set::new(|i: int| 0 <= i < rows.len() && rank(rows, rows[i]) < k).len() == k,
{
    let n = rows.len() as int;
    let f = |i: int| rank(rows, rows[i]) as int;
    let all = set_int_range(0, n);
    assert forall|i: int, j: int| all.contains(i) && all.contains(j) && #[trigger] f(i) == #[trigger] f(j) implies i == j by {
        if i != j {
            if i < j {
                assert(rows[i].key@ != rows[j].key@);
            } else {
                assert(rows[j].key@ != rows[i].key@);
            }
            lemma_older_total(rows[i], rows[j]);
            if older(rows[i], rows[j]) {
                assert forall|m: int| 0 <= m < rows.len() && older(#[trigger] rows[m], rows[i]) implies older(
                    rows[m],
                    rows[j],
                ) by {
                    lemma_older_trans(rows[m], rows[i], rows[j]);
                }
                lemma_older_irrefl(rows[i]);
                lemma_rank_lt(rows, rows[i], rows[j], i);
            } else {
                assert forall|m: int| 0 <= m < rows.len() && older(#[trigger] rows[m], rows[j]) implies older(
                    rows[m],
                    rows[i],
                ) by {
                    lemma_older_trans(rows[m], rows[j], rows[i]);
                }
                lemma_older_irrefl(rows[j]);
                lemma_rank_lt(rows, rows[j], rows[i], j);
            }
        }
    }
    lemma_int_range(0, n);
    lemma_map_size(all, all.map(f), f);
    assert(all.map(f).subset_of(set_int_range(0, n))) by {
        assert forall|v: int| all.map(f).contains(v) implies set_int_range(0, n).contains(v) by {
            let i = choose|i: int| all.contains(i) && f(i) == v;
            lemma_older_irrefl(rows[i]);
            lemma_rank_below(rows, rows[i], i);
        }
    }
    lemma_subset_equality(all.map(f), set_int_range(0, n));
    let e = Set::new(|i: int| 0 <= i < rows.len() && rank(rows, rows[i]) < k);
    assert(e.subset_of(all));
    vstd::set_lib::lemma_len_subset(e, all);
    assert(e.map(f) =~= set_int_range(0, k as int)) by {
        assert forall|v: int| set_int_range(0, k as int).contains(v) implies e.map(f).contains(v) by {
            assert(set_int_range(0, n).contains(v));
            assert(all.map(f).contains(v));
            let i = choose|i: int| all.contains(i) && f(i) == v;
            assert(e.contains(i));
        }
    }
    lemma_map_size(e, e.map(f), f);
    lemma_int_range(0, k as int);
}

/// Whether row `a` is evicted before row `b`.
fn is_older(a: &RegistryRow, b: &RegistryRow) -> (r: bool)
    ensures
        r == older(*a, *b),
{
    a.accessed_at < b.accessed_at || (a.accessed_at == b.accessed_at && lex_less(a.key.as_str(), b.key.as_str()))
}

/// The positions of the entries to evict so that at most `capacity`
/// remain: every entry with fewer than `overflow` entries evicted before
/// it, in position order.
pub fn evict_overflow(rows: &Vec<RegistryRow>, capacity: u64) -> (r: Vec<usize>)
    ensures
        forall|a: int, b: int| 0 <= a < b < r@.len() ==> r@[a] < r@[b],
        forall|a: int| 0 <= a < r@.len() ==> #[trigger] r@[a] < rows@.len(),
        forall|i: int|
            0 <= i < rows@.len() ==> (#[trigger] r@.contains(i as usize) <==> rank(rows@, rows@[i]) < overflow(
                rows@.len(),
                capacity as nat,
            )),
        distinct_keys(rows@) ==> r@.len() == overflow(rows@.len(), capacity as nat),
{
    let n = rows.len();
    let mut r: Vec<usize> = Vec::new();
    if n as u64 <= capacity {
        proof {
            assert forall|i: int| 0 <= i < rows@.len() implies !#[trigger] r@.contains(i as usize) by {}
        }
        return r;
    }
    let k: usize = n - capacity as usize;
    let mut i: usize = 0;
    while i < n
        invariant
            i <= n,
            n == rows@.len(),
            k == overflow(n as nat, capacity as nat),
            forall|a: int, b: int| 0 <= a < b < r@.len() ==> r@[a] < r@[b],
            forall|a: int| 0 <= a < r@.len() ==> #[trigger] r@[a] < i,
            forall|x: int| 0 <= x < i ==> (#[trigger] r@.contains(x as usize) <==> rank(rows@, rows@[x]) < k),
        decreases n - i,
    {
        let mut c: usize = 0;
        let mut j: usize = 0;
        while j < n
            invariant
                j <= n,
                i < n,
                n == rows@.len(),
                c == rank(rows@.subrange(0, j as int), rows@[i as int]),
                c <= j,
            decreases n - j,
        {
            proof {
                assert(rows@.subrange(0, j + 1).drop_last() =~= rows@.subrange(0, j as int));
            }
            if is_older(&rows[j], &rows[i]) {
                c = c + 1;
            }
            j = j + 1;
        }
        proof {
            assert(rows@.subrange(0, n as int) =~= rows@);
        }
        if c < k {
            let ghost before = r@;
            r.push(i);
            proof {
                assert forall|x: int| 0 <= x < i + 1 implies (#[trigger] r@.contains(x as usize) <==> rank(rows@, rows@[x])
                    < k) by {
                    if x < i {
                        if before.contains(x as usize) {
                            let a = choose|a: int| 0 <= a < before.len() && before[a] == x as usize;
                            assert(r@[a] == x as usize);
                        }
                        if r@.contains(x as usize) {
                            let a = choose|a: int| 0 <= a < r@.len() && r@[a] == x as usize;
                            assert(a < before.len());
                        }
                    } else {
                        assert(r@[r@.len() - 1] == i);
                    }
                }
            }
        } else {
            proof {
                assert forall|x: int| 0 <= x < i + 1 implies (#[trigger] r@.contains(x as usize) <==> rank(rows@, rows@[x])
                    < k) by {
                    if x == i && r@.contains(x as usize) {
                        let a = choose|a: int| 0 <= a < r@.len() && r@[a] == x as usize;
                    }
                }
            }
        }
        i = i + 1;
    }
    proof {
        if distinct_keys(rows@) {
            lemma_evicted_len(rows@, k as nat, r@);
        }
    }
    r
}

/// The eviction list holds exactly `k` positions when keys are unique.
proof fn lemma_evicted_len(rows: Seq<RegistryRow>, k: nat, r: Seq<usize>)
    requires
        distinct_keys(rows),
        k <= rows.len(),
        rows.len() <= usize::MAX,
        forall|a: int, b: int| 0 <= a < b < r.len() ==> r[a] < r[b],
        forall|a: int| 0 <= a < r.len() ==> #[trigger] r[a] < rows.len(),
        forall|x: int| 0 <= x < rows.len() ==> (#[trigger] r.contains(x as usize) <==> rank(rows, rows[x]) < k),
    ensures
        r.len() == k,
{
    lemma_ranks_below(rows, k);
    let rs = r.map_values(|x: usize| x as int);
    assert(rs.no_duplicates()) by {
        assert forall|a: int, b: int| 0 <= a < rs.len() && 0 <= b < rs.len() && a != b implies rs[a] != rs[b] by {
            if a < b {
                assert(r[a] < r[b]);
            } else {
                assert(r[b] < r[a]);
            }
        }
    }
    let e = Set::new(|i: int| 0 <= i < rows.len() && rank(rows, rows[i]) < k);
    assert(rs.to_set() =~= e) by {
        assert forall|i: int| rs.to_set().contains(i) implies e.contains(i) by {
            let a = choose|a: int| 0 <= a < rs.len() && rs[a] == i;
            assert(r[a] < rows.len());
            assert(r.contains(i as usize));
        }
        assert forall|i: int| e.contains(i) implies rs.to_set().contains(i) by {
            assert(r.contains(i as usize));
            let a = choose|a: int| 0 <= a < r.len() && r[a] == i as usize;
            assert(rs[a] == i);
        }
    }
    rs.unique_seq_to_set();
}

} // verus!
