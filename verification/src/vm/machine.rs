//! Cache-aware execution of one action, as a machine from events to the
//! next outside work; plus the queue of snapshots whose removal waits for
//! the end of the run.
//!
//! The backend calls, cancellation and timeouts stay with the caller: it
//! performs each [`ExecAction`] and reports what happened as an
//! [`ExecEvent`]. The machine decides: a cache hit whose snapshot still
//! exists skips execution; a stale entry is invalidated; a cancelled run
//! yields exit code 130 with no snapshot; only a successful command is
//! committed; a cached commit is recorded in the registry, and when that
//! fails the snapshot is demoted to ephemeral.

use vstd::prelude::*;

use crate::vm::types::{CachingPolicy, ExecutionResult, SnapshotId, SnapshotLabel};

verus! {

/// Exit code reported when execution is cut short by cooperative
/// cancellation (the conventional 128+SIGINT encoding).
pub const CANCELLED_EXIT_CODE: i32 = 130;

/// The result of a step cancelled before or during execution: nothing was
/// committed, nothing was cached.
pub fn cancelled_result() -> (r: ExecutionResult)
    ensures
        r.exit_code == 130,
        r.snapshot is None,
        !r.cached,
        !r.ephemeral_snapshot,
{
    ExecutionResult { exit_code: CANCELLED_EXIT_CODE, snapshot: None, cached: false, ephemeral_snapshot: false }
}

/// Where an execution stands.
#[derive(Debug)]
pub enum ExecState {
    /// Not started.
    Start,
    /// Waiting for the registry's entry for the cache key.
    LookingUp,
    /// Waiting to hear whether the cached snapshot still exists.
    Probing { snap: SnapshotId },
    /// Waiting for the VM to boot.
    Booting,
    /// Waiting for the command to finish.
    Running,
    /// Waiting for the snapshot of a successful run.
    Committing,
    /// Waiting for the registry to record the snapshot.
    Recording { snap: SnapshotId },
    /// Finished.
    Done,
}

/// What the caller observed.
#[derive(Debug)]
pub enum ExecEvent {
    /// The execution starts.
    Begin,
    /// The registry's entry for the key (looking it up refreshes its
    /// access time).
    Entry(Option<SnapshotId>),
    /// Whether the cached snapshot still exists in the backend.
    Exists(bool),
    /// The VM is up.
    Booted,
    /// The run was cancelled.
    Cancelled,
    /// The command finished with this exit code.
    Exited(i32),
    /// The snapshot was committed under this id.
    Committed(SnapshotId),
    /// The registry recorded the snapshot, evicting these entries.
    Recorded(Vec<(SnapshotId, Option<String>)>),
    /// The registry could not record the snapshot.
    RecordFailed,
}

/// The next outside work.
#[derive(Debug)]
pub enum ExecAction {
    /// Look up the cache key in the registry.
    Lookup { key: String },
    /// Ask the backend whether the snapshot exists.
    Probe { snap: SnapshotId },
    /// Remove the registry entry for `key` if it still names `snap` (and
    /// reap the legacy workspace directory it names, if any).
    Invalidate { key: String, snap: SnapshotId },
    /// Create the VM from the action's image, or restore its snapshot.
    Boot,
    /// Run the action's command (with its timeout, if any).
    Run,
    /// Commit the VM's state under this label.
    Commit { label: SnapshotLabel },
    /// Record the snapshot in the registry under `key`.
    Record { key: String, snap: SnapshotId },
    /// Queue evicted entries for removal once the run has drained.
    Defer(Vec<(SnapshotId, Option<String>)>),
    /// Return this result, destroying the VM first when one was booted.
    Finish { result: ExecutionResult, destroy: bool },
}

/// One execution of an action under a caching policy.
#[derive(Debug)]
pub struct Execution {
    key: Option<String>,
    state: ExecState,
}

/// The action that returns a result built from these fields, destroying
/// the VM first or not.
pub open spec fn finish(code: i32, snap: Option<SnapshotId>, cached: bool, ephemeral: bool, destroy: bool) -> ExecAction {
    ExecAction::Finish {
        result: ExecutionResult { exit_code: code, snapshot: snap, cached, ephemeral_snapshot: ephemeral },
        destroy,
    }
}

/// The next state and the outside work that an event leads to. An event
/// the state does not wait for changes nothing and asks for nothing.
pub open spec fn next(key: Option<String>, st: ExecState, ev: ExecEvent) -> (ExecState, Seq<ExecAction>) {
    match (st, ev) {
        (ExecState::Start, ExecEvent::Begin) => match key {
            Some(k) => (ExecState::LookingUp, seq![ExecAction::Lookup { key: k }]),
            None => (ExecState::Booting, seq![ExecAction::Boot]),
        },
        (ExecState::LookingUp, ExecEvent::Entry(Some(s))) => (
            ExecState::Probing { snap: s },
            seq![ExecAction::Probe { snap: s }],
        ),
        (ExecState::LookingUp, ExecEvent::Entry(None)) => (ExecState::Booting, seq![ExecAction::Boot]),
        (ExecState::Probing { snap }, ExecEvent::Exists(true)) => (
            ExecState::Done,
            seq![finish(0, Some(snap), true, false, false)],
        ),
        (ExecState::Probing { snap }, ExecEvent::Exists(false)) => (
            ExecState::Booting,
            seq![ExecAction::Invalidate { key: key->0, snap }, ExecAction::Boot],
        ),
        (ExecState::Booting, ExecEvent::Booted) => (ExecState::Running, seq![ExecAction::Run]),
        (ExecState::Booting, ExecEvent::Cancelled) => (ExecState::Done, seq![finish(130, None, false, false, false)]),
        (ExecState::Running, ExecEvent::Cancelled) => (ExecState::Done, seq![finish(130, None, false, false, true)]),
        (ExecState::Running, ExecEvent::Exited(c)) => if c == 0 {
            (
                ExecState::Committing,
                seq![
                    ExecAction::Commit {
                        label: match key {
                            Some(k) => SnapshotLabel::Cached(k),
                            None => SnapshotLabel::Ephemeral,
                        },
                    },
                ],
            )
        } else {
            (ExecState::Done, seq![finish(c, None, false, false, true)])
        },
        (ExecState::Committing, ExecEvent::Committed(s)) => match key {
            Some(k) => (ExecState::Recording { snap: s }, seq![ExecAction::Record { key: k, snap: s }]),
            None => (ExecState::Done, seq![finish(0, Some(s), false, true, true)]),
        },
        (ExecState::Recording { snap }, ExecEvent::Recorded(evicted)) => (
            ExecState::Done,
            if evicted@.len() == 0 {
                seq![finish(0, Some(snap), false, false, true)]
            } else {
                seq![ExecAction::Defer(evicted), finish(0, Some(snap), false, false, true)]
            },
        ),
        (ExecState::Recording { snap }, ExecEvent::RecordFailed) => (
            ExecState::Done,
            seq![finish(0, Some(snap), false, true, true)],
        ),
        (other, _) => (other, Seq::empty()),
    }
}

impl Execution {
    #[verifier::type_invariant]
    spec fn inv(self) -> bool {
        (self.state is LookingUp || self.state is Probing || self.state is Recording) ==> self.key is Some
    }

    /// The cache key, when the policy caches.
    pub closed spec fn key(&self) -> Option<String> {
        self.key
    }

    /// Where the execution stands.
    pub closed spec fn state(&self) -> ExecState {
        self.state
    }

    /// An execution that has not started.
    pub fn new(policy: &CachingPolicy) -> (r: Self)
        ensures
            r.state() is Start,
            r.key() == match policy {
                CachingPolicy::NoCache => None,
                CachingPolicy::Cache { key } => Some(*key),
            },
    {
        let key = match policy {
            CachingPolicy::NoCache => None,
            CachingPolicy::Cache { key } => Some(key.clone()),
        };
        Execution { key, state: ExecState::Start }
    }

    /// Whether the execution has finished.
    pub fn is_done(&self) -> (b: bool)
        ensures
            b == (self.state() is Done),
    {
        match self.state {
            ExecState::Done => true,
            _ => false,
        }
    }

    /// Advances on an event and returns the next outside work. An event
    /// the current state does not wait for changes nothing and asks for
    /// nothing.
    pub fn step(&mut self, ev: ExecEvent) -> (acts: Vec<ExecAction>)
        ensures
            final(self).key() == old(self).key(),
            (final(self).state(), acts@) == next(old(self).key(), old(self).state(), ev),
    {
        proof {
            use_type_invariant(&*self);
        }
        let mut acts: Vec<ExecAction> = Vec::new();
        let mut st = ExecState::Done;
        std::mem::swap(&mut st, &mut self.state);
        match (st, ev) {
            (ExecState::Start, ExecEvent::Begin) => match &self.key {
                Some(k) => {
                    acts.push(ExecAction::Lookup { key: k.clone() });
                    self.state = ExecState::LookingUp;
                },
                None => {
                    acts.push(ExecAction::Boot);
                    self.state = ExecState::Booting;
                },
            },
            (ExecState::LookingUp, ExecEvent::Entry(Some(s))) => {
                self.state = ExecState::Probing { snap: s.clone() };
                acts.push(ExecAction::Probe { snap: s });
            },
            (ExecState::LookingUp, ExecEvent::Entry(None)) => {
                self.state = ExecState::Booting;
                acts.push(ExecAction::Boot);
            },
            (ExecState::Probing { snap }, ExecEvent::Exists(exists)) => {
                if exists {
                    acts.push(
                        ExecAction::Finish {
                            result: ExecutionResult { exit_code: 0, snapshot: Some(snap), cached: true, ephemeral_snapshot: false },
                            destroy: false,
                        },
                    );
                    self.state = ExecState::Done;
                } else {
                    let key = match &self.key {
                        Some(k) => k.clone(),
                        None => String::new(),
                    };
                    acts.push(ExecAction::Invalidate { key, snap });
                    acts.push(ExecAction::Boot);
                    self.state = ExecState::Booting;
                }
            },
            (ExecState::Booting, ExecEvent::Booted) => {
                self.state = ExecState::Running;
                acts.push(ExecAction::Run);
            },
            (ExecState::Booting, ExecEvent::Cancelled) => {
                self.state = ExecState::Done;
                acts.push(ExecAction::Finish { result: cancelled_result(), destroy: false });
            },
            (ExecState::Running, ExecEvent::Cancelled) => {
                self.state = ExecState::Done;
                acts.push(ExecAction::Finish { result: cancelled_result(), destroy: true });
            },
            (ExecState::Running, ExecEvent::Exited(c)) => {
                if c == 0 {
                    let label = match &self.key {
                        Some(k) => SnapshotLabel::Cached(k.clone()),
                        None => SnapshotLabel::Ephemeral,
                    };
                    acts.push(ExecAction::Commit { label });
                    self.state = ExecState::Committing;
                } else {
                    acts.push(
                        ExecAction::Finish {
                            result: ExecutionResult { exit_code: c, snapshot: None, cached: false, ephemeral_snapshot: false },
                            destroy: true,
                        },
                    );
                    self.state = ExecState::Done;
                }
            },
            (ExecState::Committing, ExecEvent::Committed(s)) => match &self.key {
                Some(k) => {
                    acts.push(ExecAction::Record { key: k.clone(), snap: s.clone() });
                    self.state = ExecState::Recording { snap: s };
                },
                None => {
                    acts.push(
                        ExecAction::Finish {
                            result: ExecutionResult { exit_code: 0, snapshot: Some(s), cached: false, ephemeral_snapshot: true },
                            destroy: true,
                        },
                    );
                    self.state = ExecState::Done;
                },
            },
            (ExecState::Recording { snap }, ExecEvent::Recorded(evicted)) => {
                if evicted.len() > 0 {
                    acts.push(ExecAction::Defer(evicted));
                }
                acts.push(
                    ExecAction::Finish {
                        result: ExecutionResult { exit_code: 0, snapshot: Some(snap), cached: false, ephemeral_snapshot: false },
                        destroy: true,
                    },
                );
                self.state = ExecState::Done;
            },
            (ExecState::Recording { snap }, ExecEvent::RecordFailed) => {
                acts.push(
                    ExecAction::Finish {
                        result: ExecutionResult { exit_code: 0, snapshot: Some(snap), cached: false, ephemeral_snapshot: true },
                        destroy: true,
                    },
                );
                self.state = ExecState::Done;
            },
            (other, _) => {
                self.state = other;
            },
        }
        acts
    }
}

/// The state reached and all the outside work asked for, when the events
/// arrive in order from `st`.
pub open spec fn run(key: Option<String>, st: ExecState, evs: Seq<ExecEvent>) -> (ExecState, Seq<ExecAction>)
    decreases evs.len(),
{
    if evs.len() == 0 {
        (st, Seq::empty())
    } else {
        let prev = run(key, st, evs.drop_last());
        let last = next(key, prev.0, evs.last());
        (last.0, prev.1 + last.1)
    }
}

/// Events taken in two parts give the work of the first part followed by
/// that of the second.
pub proof fn lemma_run_concat(key: Option<String>, st: ExecState, a: Seq<ExecEvent>, b: Seq<ExecEvent>)
    ensures
        run(key, st, a + b) == (run(key, run(key, st, a).0, b).0, run(key, st, a).1 + run(
            key,
            run(key, st, a).0,
            b,
        ).1),
    decreases b.len(),
{
    let mid = run(key, st, a).0;
    if b.len() == 0 {
        assert(a + b =~= a);
        assert(run(key, st, a).1 + run(key, mid, b).1 =~= run(key, st, a).1);
    } else {
        lemma_run_concat(key, st, a, b.drop_last());
        assert((a + b).drop_last() =~= a + b.drop_last());
        assert((a + b).last() == b.last());
        let p = run(key, mid, b.drop_last());
        let l = next(key, p.0, b.last());
        assert(run(key, st, a).1 + p.1 + l.1 =~= run(key, st, a).1 + (p.1 + l.1));
    }
}

/// A finished execution stays finished and asks for nothing more.
pub proof fn lemma_done_is_final(key: Option<String>, evs: Seq<ExecEvent>)
    ensures
        run(key, ExecState::Done, evs) == (ExecState::Done, Seq::<ExecAction>::empty()),
    decreases evs.len(),
{
    if evs.len() > 0 {
        lemma_done_is_final(key, evs.drop_last());
        assert(Seq::<ExecAction>::empty() + Seq::<ExecAction>::empty() =~= Seq::<ExecAction>::empty());
    }
}

/// A cache hit skips execution: when the registry names a snapshot that
/// still exists, the execution returns it as cached without booting a
/// VM, and nothing that arrives afterwards asks for more work.
pub proof fn lemma_cache_hit_skips_execution(k: String, snap: SnapshotId, later: Seq<ExecEvent>)
    ensures
        run(
            Some(k),
            ExecState::Start,
            seq![ExecEvent::Begin, ExecEvent::Entry(Some(snap)), ExecEvent::Exists(true)] + later,
        ) == (
            ExecState::Done,
            seq![ExecAction::Lookup { key: k }, ExecAction::Probe { snap }, finish(0, Some(snap), true, false, false)],
        ),
{
    let hit = seq![ExecEvent::Begin, ExecEvent::Entry(Some(snap)), ExecEvent::Exists(true)];
    lemma_run_concat(Some(k), ExecState::Start, hit, later);
    let key = Some(k);
    let e1 = seq![ExecEvent::Begin];
    let e2 = seq![ExecEvent::Begin, ExecEvent::Entry(Some(snap))];
    assert(e1.drop_last() =~= Seq::<ExecEvent>::empty());
    assert(e2.drop_last() =~= e1);
    assert(hit.drop_last() =~= e2);
    let r0 = run(key, ExecState::Start, Seq::<ExecEvent>::empty());
    assert(r0 == (ExecState::Start, Seq::<ExecAction>::empty()));
    let r1 = run(key, ExecState::Start, e1);
    assert(r1.0 == ExecState::LookingUp);
    assert(r1.1 =~= seq![ExecAction::Lookup { key: k }]);
    let r2 = run(key, ExecState::Start, e2);
    assert(r2.0 == (ExecState::Probing { snap }));
    assert(r2.1 =~= seq![ExecAction::Lookup { key: k }, ExecAction::Probe { snap }]);
    let r3 = run(key, ExecState::Start, hit);
    assert(r3.0 == ExecState::Done);
    assert(run(Some(k), ExecState::Start, hit).1 =~= seq![
        ExecAction::Lookup { key: k },
        ExecAction::Probe { snap },
        finish(0, Some(snap), true, false, false),
    ]);
    lemma_done_is_final(Some(k), later);
    assert(run(Some(k), ExecState::Start, hit).1 + Seq::<ExecAction>::empty() =~= run(
        Some(k),
        ExecState::Start,
        hit,
    ).1);
}

/// A run cancelled before its VM is up never runs the command: the
/// execution returns the cancelled result at once, with nothing to tear
/// down, and asks for nothing more.
pub proof fn lemma_cancel_before_boot(key: Option<String>, before: Seq<ExecEvent>, later: Seq<ExecEvent>)
    requires
        run(key, ExecState::Start, before).0 is Booting,
    ensures
        run(key, ExecState::Start, before.push(ExecEvent::Cancelled) + later) == (
            ExecState::Done,
            run(key, ExecState::Start, before).1.push(finish(130, None, false, false, false)),
        ),
{
    let upto = before.push(ExecEvent::Cancelled);
    lemma_run_concat(key, ExecState::Start, upto, later);
    assert(upto.drop_last() =~= before);
    lemma_done_is_final(key, later);
    assert(run(key, ExecState::Start, upto).1 =~= run(key, ExecState::Start, before).1.push(
        finish(130, None, false, false, false),
    ));
    assert(run(key, ExecState::Start, upto).1 + Seq::<ExecAction>::empty() =~= run(key, ExecState::Start, upto).1);
}

/// A command that exits non-zero is never committed or cached: the
/// execution returns its exit code with no snapshot, destroys the VM, and
/// asks for nothing more.
pub proof fn lemma_failure_is_not_cached(
    key: Option<String>,
    before: Seq<ExecEvent>,
    code: i32,
    later: Seq<ExecEvent>,
)
    requires
        run(key, ExecState::Start, before).0 is Running,
        code != 0,
    ensures
        run(key, ExecState::Start, before.push(ExecEvent::Exited(code)) + later) == (
            ExecState::Done,
            run(key, ExecState::Start, before).1.push(finish(code, None, false, false, true)),
        ),
{
    let upto = before.push(ExecEvent::Exited(code));
    lemma_run_concat(key, ExecState::Start, upto, later);
    assert(upto.drop_last() =~= before);
    lemma_done_is_final(key, later);
    assert(run(key, ExecState::Start, upto).1 =~= run(key, ExecState::Start, before).1.push(
        finish(code, None, false, false, true),
    ));
    assert(run(key, ExecState::Start, upto).1 + Seq::<ExecAction>::empty() =~= run(key, ExecState::Start, upto).1);
}

/// Work that leaves the snapshot registry alone: no lookup, probe,
/// invalidation, record or deferred eviction, and only ephemeral commits.
pub open spec fn registry_free(a: ExecAction) -> bool {
    match a {
        ExecAction::Lookup { .. } => false,
        ExecAction::Probe { .. } => false,
        ExecAction::Invalidate { .. } => false,
        ExecAction::Record { .. } => false,
        ExecAction::Defer(_) => false,
        ExecAction::Commit { label } => label is Ephemeral,
        _ => true,
    }
}

/// Without a cache key the execution never touches the snapshot
/// registry, whatever events arrive: every snapshot it commits is
/// ephemeral.
pub proof fn lemma_uncached_never_stores(evs: Seq<ExecEvent>)
    ensures
        forall|i: int| 0 <= i < run(None, ExecState::Start, evs).1.len() ==> registry_free(
            #[trigger] run(None, ExecState::Start, evs).1[i],
        ),
        !(run(None, ExecState::Start, evs).0 is LookingUp),
        !(run(None, ExecState::Start, evs).0 is Probing),
        !(run(None, ExecState::Start, evs).0 is Recording),
    decreases evs.len(),
{
    if evs.len() > 0 {
        lemma_uncached_never_stores(evs.drop_last());
        let prev = run(None, ExecState::Start, evs.drop_last());
        let last = next(None, prev.0, evs.last());
        assert forall|i: int| 0 <= i < last.1.len() implies registry_free(#[trigger] last.1[i]) by {}
        let all = prev.1 + last.1;
        assert forall|i: int| 0 <= i < all.len() implies registry_free(#[trigger] all[i]) by {
            if i < prev.1.len() {
                assert(all[i] == prev.1[i]);
            } else {
                assert(all[i] == last.1[i - prev.1.len()]);
            }
        }
    }
}

/// Snapshots (with any legacy workspace directory their registry entry
/// named) evicted from the registry during this run. Their images are not
/// removed at eviction time: an in-flight step may still restore from an
/// evicted tag. Removal waits for [`DeferredEvictions::take_all`] once
/// every step of the run has finished.
#[derive(Debug)]
pub struct DeferredEvictions {
    pending: Vec<(SnapshotId, Option<String>)>,
}

/// The tags of queued evictions.
pub open spec fn pending_tags(p: Seq<(SnapshotId, Option<String>)>) -> Seq<Seq<char>> {
    p.map_values(|e: (SnapshotId, Option<String>)| e.0.0@)
}

impl DeferredEvictions {
    /// The queued evictions, oldest first.
    pub closed spec fn queue(&self) -> Seq<(SnapshotId, Option<String>)> {
        self.pending@
    }

    /// An empty queue.
    pub fn new() -> (r: Self)
        ensures
            r.queue() == Seq::<(SnapshotId, Option<String>)>::empty(),
    {
        DeferredEvictions { pending: Vec::new() }
    }

    /// Queues evicted entries, keeping their order.
    pub fn defer(&mut self, evicted: Vec<(SnapshotId, Option<String>)>)
        ensures
            final(self).queue() == old(self).queue() + evicted@,
    {
        let mut e = evicted;
        self.pending.append(&mut e);
    }

    /// Whether `tag` is queued: an in-flight step of this run may still
    /// restore from it even though its registry entry is gone.
    pub fn is_eviction_deferred(&self, tag: &str) -> (b: bool)
        ensures
            b == pending_tags(self.queue()).contains(tag@),
    {
        let mut i: usize = 0;
        while i < self.pending.len()
            invariant
                i <= self.pending@.len(),
                forall|k: int| 0 <= k < i ==> self.pending@[k].0.0@ != tag@,
            decreases self.pending@.len() - i,
        {
            if crate::text::same(self.pending[i].0.0.as_str(), tag) {
                proof {
                    assert(pending_tags(self.pending@)[i as int] == tag@);
                }
                return true;
            }
            i = i + 1;
        }
        proof {
            if pending_tags(self.pending@).contains(tag@) {
                let k = choose|k: int| 0 <= k < pending_tags(self.pending@).len() && pending_tags(self.pending@)[k] == tag@;
                assert(self.pending@[k].0.0@ == tag@);
            }
        }
        false
    }

    /// Empties the queue, returning what it held.
    pub fn take_all(&mut self) -> (r: Vec<(SnapshotId, Option<String>)>)
        ensures
            r@ == old(self).queue(),
            final(self).queue() == Seq::<(SnapshotId, Option<String>)>::empty(),
    {
        let mut r: Vec<(SnapshotId, Option<String>)> = Vec::new();
        std::mem::swap(&mut r, &mut self.pending);
        r
    }
}

/// Whether GC keeps an aged snapshot tag: it does while a registry entry
/// names it or its removal is deferred to the end of the run.
pub fn gc_keeps(registered: bool, deferred: bool) -> (b: bool)
    ensures
        b == (registered || deferred),
{
    registered || deferred
}

/// Whether a run-scoped snapshot is removed: only when no registry entry
/// names it (a concurrent run may have registered the same tag since).
pub fn remove_unless_registered(registered: bool) -> (remove: bool)
    ensures
        remove == !registered,
{
    !registered
}

/// Cleanup work for one deferred eviction.
#[derive(Debug)]
pub enum CleanupAction {
    /// Remove this snapshot's image from the backend.
    RemoveImage(SnapshotId),
    /// Remove this legacy workspace directory.
    RemoveDir(String),
}

/// The cleanup for the deferred evictions, in order: the image of each
/// entry whose tag no registry entry names any more, then the entry's
/// legacy workspace directory, if any. `registered[i]` says whether a
/// registry entry names the tag of `pending[i]` now.
pub open spec fn cleanup_actions(pending: Seq<(SnapshotId, Option<String>)>, registered: Seq<bool>) -> Seq<CleanupAction>
    decreases pending.len(),
{
    if pending.len() == 0 {
        Seq::empty()
    } else {
        let n = pending.len() - 1;
        let e = pending[n];
        cleanup_actions(pending.drop_last(), registered) + (if registered[n] {
            Seq::empty()
        } else {
            seq![CleanupAction::RemoveImage(e.0)]
        }) + match e.1 {
            Some(d) => seq![CleanupAction::RemoveDir(d)],
            None => Seq::empty(),
        }
    }
}

/// The end-of-run cleanup, entry by entry: the image of a queued
/// eviction's snapshot is removed exactly when its registry check found no
/// entry naming it, no other image is removed, and exactly the legacy
/// workspace directories the queue names are removed.
pub proof fn lemma_cleanup_per_snapshot(pending: Seq<(SnapshotId, Option<String>)>, registered: Seq<bool>)
    requires
        registered.len() == pending.len(),
    ensures
        forall|s: SnapshotId|
            #[trigger] cleanup_actions(pending, registered).contains(CleanupAction::RemoveImage(s)) <==> exists|i: int|
                0 <= i < pending.len() && #[trigger] pending[i].0 == s && !registered[i],
        forall|d: String|
            #[trigger] cleanup_actions(pending, registered).contains(CleanupAction::RemoveDir(d)) <==> exists|i: int|
                0 <= i < pending.len() && #[trigger] pending[i].1 == Some(d),
    decreases pending.len(),
{
    if pending.len() == 0 {
        assert(cleanup_actions(pending, registered) =~= Seq::<CleanupAction>::empty());
    } else {
        let n = pending.len() - 1;
        let pre = pending.drop_last();
        let rp = registered.drop_last();
        assert(cleanup_actions(pre, registered) == cleanup_actions(pre, rp)) by {
            lemma_cleanup_prefix_regs(pre, registered, rp);
        }
        lemma_cleanup_per_snapshot(pre, rp);
        let e = pending[n];
        let head = cleanup_actions(pre, registered);
        let mid: Seq<CleanupAction> = if registered[n] { Seq::empty() } else { seq![CleanupAction::RemoveImage(e.0)] };
        let tail: Seq<CleanupAction> = match e.1 {
            Some(d) => seq![CleanupAction::RemoveDir(d)],
            None => Seq::empty(),
        };
        let all = cleanup_actions(pending, registered);
        assert(all == head + mid + tail);
        assert forall|s: SnapshotId|
            #[trigger] all.contains(CleanupAction::RemoveImage(s)) <==> exists|i: int|
                0 <= i < pending.len() && #[trigger] pending[i].0 == s && !registered[i] by {
            let a = CleanupAction::RemoveImage(s);
            if all.contains(a) {
                let k = choose|k: int| 0 <= k < all.len() && all[k] == a;
                if k < head.len() {
                    assert(head[k] == a);
                    assert(head.contains(a));
                    let i = choose|i: int| 0 <= i < pre.len() && #[trigger] pre[i].0 == s && !rp[i];
                    assert(pending[i] == pre[i]);
                } else if k < head.len() + mid.len() {
                    assert(mid[k - head.len()] == a);
                    assert(pending[n].0 == s);
                } else {
                    assert(tail[k - head.len() - mid.len()] == a);
                }
            }
            if exists|i: int| 0 <= i < pending.len() && #[trigger] pending[i].0 == s && !registered[i] {
                let i = choose|i: int| 0 <= i < pending.len() && #[trigger] pending[i].0 == s && !registered[i];
                if i < n {
                    assert(pre[i].0 == s && !rp[i]);
                    assert(head.contains(a));
                    let k = choose|k: int| 0 <= k < head.len() && head[k] == a;
                    assert(all[k] == a);
                } else {
                    assert(all[head.len() as int] == a);
                }
            }
        }
        assert forall|d: String|
            #[trigger] all.contains(CleanupAction::RemoveDir(d)) <==> exists|i: int|
                0 <= i < pending.len() && #[trigger] pending[i].1 == Some(d) by {
            let a = CleanupAction::RemoveDir(d);
            if all.contains(a) {
                let k = choose|k: int| 0 <= k < all.len() && all[k] == a;
                if k < head.len() {
                    assert(head[k] == a);
                    assert(head.contains(a));
                    let i = choose|i: int| 0 <= i < pre.len() && #[trigger] pre[i].1 == Some(d);
                    assert(pending[i] == pre[i]);
                } else if k < head.len() + mid.len() {
                    assert(mid[k - head.len()] == a);
                } else {
                    assert(tail[k - head.len() - mid.len()] == a);
                    assert(pending[n].1 == Some(d));
                }
            }
            if exists|i: int| 0 <= i < pending.len() && #[trigger] pending[i].1 == Some(d) {
                let i = choose|i: int| 0 <= i < pending.len() && #[trigger] pending[i].1 == Some(d);
                if i < n {
                    assert(pre[i].1 == Some(d));
                    assert(head.contains(a));
                    let k = choose|k: int| 0 <= k < head.len() && head[k] == a;
                    assert(all[k] == a);
                } else {
                    assert(all[(head.len() + mid.len()) as int] == a);
                }
            }
        }
    }
}

/// The cleanup of a queue reads only the registry checks of its own
/// entries.
proof fn lemma_cleanup_prefix_regs(pending: Seq<(SnapshotId, Option<String>)>, r1: Seq<bool>, r2: Seq<bool>)
    requires
        pending.len() <= r1.len(),
        pending.len() <= r2.len(),
        forall|i: int| 0 <= i < pending.len() ==> r1[i] == r2[i],
    ensures
        cleanup_actions(pending, r1) == cleanup_actions(pending, r2),
    decreases pending.len(),
{
    if pending.len() > 0 {
        lemma_cleanup_prefix_regs(pending.drop_last(), r1, r2);
    }
}

/// Plans the end-of-run cleanup of deferred evictions.
pub fn cleanup_plan(pending: Vec<(SnapshotId, Option<String>)>, registered: &Vec<bool>) -> (r: Vec<CleanupAction>)
    requires
        registered@.len() == pending@.len(),
    ensures
        r@ == cleanup_actions(pending@, registered@),
{
    let ghost all = pending@;
    let n = pending.len();
    let mut r: Vec<CleanupAction> = Vec::new();
    let mut i: usize = 0;
    let mut rest = pending;
    while i < n
        invariant
            n == all.len(),
            i <= all.len(),
            registered@.len() == all.len(),
            rest@ == all.subrange(i as int, all.len() as int),
            r@ == cleanup_actions(all.subrange(0, i as int), registered@),
        decreases all.len() - i,
    {
        let ghost before = rest@;
        let e = rest.remove(0);
        proof {
            assert(e == all[i as int]);
            assert(rest@ =~= all.subrange(i + 1, all.len() as int));
            assert(all.subrange(0, i + 1).drop_last() =~= all.subrange(0, i as int));
        }
        let (snap, dir) = e;
        if !registered[i] {
            r.push(CleanupAction::RemoveImage(snap));
        }
        match dir {
            Some(d) => r.push(CleanupAction::RemoveDir(d)),
            None => {},
        }
        proof {
            assert(r@ =~= cleanup_actions(all.subrange(0, i + 1), registered@));
        }
        i = i + 1;
    }
    proof {
        assert(all.subrange(0, all.len() as int) =~= all);
    }
    r
}

} // verus!
