//! The thread-exit reaper.
//!
//! A dedicated background loop tracks live threads and retires exited
//! ones from the global thread registry.  `track` and `untrack` enqueue
//! work and raise a notify flag; they never block.  Each loop iteration
//! drains the queue, removes exited threads from the tracked set and the
//! registry (exactly once), builds the combined wait-condition set, and
//! re-checks the notify flag before deciding to block — closing the race
//! where new work arrives while the set is being built.  The blocking
//! wait itself, and the wake syscall behind the notify flag, live with
//! the caller's environment; spurious wakeups are handled by looping.

use vstd::prelude::*;

verus! {

/// A thread under management: its id and the handle needed to observe it.
#[derive(Clone, Copy, Debug, PartialEq, Eq, Structural)]
pub struct ManagedThread {
    /// The thread's object id.
    pub id: u128,
    /// The object id of the thread's repr object, whose exit word the
    /// kernel raises when the thread exits.
    pub repr: u128,
}

/// A change to the collection of threads being tracked.
pub enum WaitOp {
    /// Track this thread; replaces a tracked thread of the same id.
    Add(ManagedThread),
    /// Stop tracking the thread with this id.
    Remove(u128),
}

/// One condition of a combined wait set.
#[derive(Clone, Copy, Debug, PartialEq, Eq, Structural)]
pub enum WaitCondition {
    /// Sleep while the notify flag is zero.
    NotifyIsZero,
    /// Sleep until the thread with this repr id exits.
    ThreadExit(u128),
}

/// Whether `op` concerns the thread with this id.
pub open spec fn op_mentions(op: WaitOp, id: u128) -> bool {
    match op {
        WaitOp::Add(th) => th.id == id,
        WaitOp::Remove(rid) => rid == id,
    }
}

/// The last queued operation concerning `id`, if any.
pub open spec fn last_op_for(ops: Seq<WaitOp>, id: u128) -> Option<WaitOp>
    decreases ops.len(),
{
    if ops.len() == 0 {
        None
    } else if op_mentions(ops.last(), id) {
        Some(ops.last())
    } else {
        last_op_for(ops.drop_last(), id)
    }
}

/// Whether `id` is tracked after applying `ops` to a set where it was
/// tracked iff `was`.
pub open spec fn tracked_after(was: bool, ops: Seq<WaitOp>, id: u128) -> bool {
    match last_op_for(ops, id) {
        Some(op) => op is Add,
        None => was,
    }
}

/// The thread tracked under `id` after applying `ops`, oldest first, to
/// a set where `was` was tracked under it: the payload of the last
/// addition, unless a later removal struck it.
pub open spec fn tracked_elem(
    was: Option<ManagedThread>,
    ops: Seq<WaitOp>,
    id: u128,
) -> Option<ManagedThread>
    decreases ops.len(),
{
    if ops.len() == 0 {
        was
    } else if op_mentions(ops.last(), id) {
        match ops.last() {
            WaitOp::Add(th) => Some(th),
            WaitOp::Remove(_) => None,
        }
    } else {
        tracked_elem(was, ops.drop_last(), id)
    }
}

/// The element held under `id` in a unique-id list, if any.
pub open spec fn elem_of(threads: Seq<ManagedThread>, id: u128) -> Option<ManagedThread> {
    if holds(threads, id) {
        Some(
            threads[choose|k: int|
                0 <= k < threads.len() && (#[trigger] threads[k]).id == id],
        )
    } else {
        None
    }
}

/// In a unique-id list, any index holding `id` holds the tracked
/// element.
proof fn lemma_elem_at(threads: Seq<ManagedThread>, k: int)
    requires
        ids_unique(threads),
        0 <= k < threads.len(),
    ensures
        elem_of(threads, threads[k].id) == Some(threads[k]),
{
    assert(holds(threads, threads[k].id));
    let kk = choose|kk: int|
        0 <= kk < threads.len() && (#[trigger] threads[kk]).id == threads[k].id;
    if kk < k {
        assert(threads[kk].id != threads[k].id);
    } else if k < kk {
        assert(threads[k].id != threads[kk].id);
    }
}

/// The threads the reaper currently tracks.
pub struct Waits {
    /// The tracked threads; ids are unique.
    pub threads: Vec<ManagedThread>,
}

/// The global thread registry.
///
/// Insertions come from whoever spawns threads; removals come only from
/// the reaper — the single-writer-for-removal rule that avoids
/// double-removal races.
pub struct ThreadRegistry {
    /// The registered threads; ids are unique.
    pub threads: Vec<ManagedThread>,
}

/// The reaper's shared data: the notify flag raised by `track` and
/// `untrack` and cleared by the loop.
pub struct ThreadCleanerData {
    /// Nonzero exactly when new work may be pending.
    pub notify: u64,
}

/// The reaper's caller-facing state: the work queue and the notify flag.
///
/// The background loop itself lives with the caller's environment; it
/// owns a [`Waits`] and repeatedly runs [`cleaner_step`].
pub struct ThreadCleaner {
    /// Queued tracking changes, oldest first.
    pub queue: Vec<WaitOp>,
    /// The shared notify flag.
    pub data: ThreadCleanerData,
}

/// Whether `threads` holds a thread with this id.
pub open spec fn holds(threads: Seq<ManagedThread>, id: u128) -> bool {
    exists|k: int| 0 <= k < threads.len() && (#[trigger] threads[k]).id == id
}

/// Whether one of the first `upto` entries of `list` has this id.
pub open spec fn hit_before(list: Seq<ManagedThread>, upto: int, id: u128) -> bool {
    exists|j: int| 0 <= j < upto && (#[trigger] list[j]).id == id
}

/// Unique ids.
pub open spec fn ids_unique(threads: Seq<ManagedThread>) -> bool {
    forall|k1: int, k2: int|
        0 <= k1 < k2 < threads.len() ==> (#[trigger] threads[k1]).id != (
        #[trigger] threads[k2]).id
}

/// Remove the thread with this id from a unique-id list, if present.
fn remove_thread_by_id(list: &mut Vec<ManagedThread>, id: u128)
    requires
        ids_unique(old(list)@),
    ensures
        ids_unique(final(list)@),
        !holds(final(list)@, id),
        forall|id2: u128|
            id2 != id ==> elem_of(final(list)@, id2) == elem_of(old(list)@, id2),
        forall|id2: u128|
            id2 != id ==> holds(final(list)@, id2) == holds(old(list)@, id2),
{
    let mut w = Waits { threads: Vec::new() };
    core::mem::swap(&mut w.threads, list);
    w.remove_id(id);
    core::mem::swap(&mut w.threads, list);
}

impl Waits {
    /// An empty tracked set.
    pub fn new() -> (r: Waits)
        ensures
            r.threads@.len() == 0,
            ids_unique(r.threads@),
    {
        Waits { threads: Vec::new() }
    }

    /// Remove the thread with this id, if present.
    fn remove_id(&mut self, id: u128)
        requires
            ids_unique(old(self).threads@),
        ensures
            ids_unique(final(self).threads@),
            !holds(final(self).threads@, id),
            forall|id2: u128|
                id2 != id ==> elem_of(final(self).threads@, id2) == elem_of(
                    old(self).threads@,
                    id2,
                ),
            forall|id2: u128|
                id2 != id ==> holds(final(self).threads@, id2) == holds(
                    old(self).threads@,
                    id2,
                ),
    {
        let ghost t0 = self.threads@;
        let n = self.threads.len();
        let mut k: usize = 0;
        while k < n
            invariant
                k <= n,
                n == self.threads@.len(),
                self.threads@ == t0,
                t0 == old(self).threads@,
                ids_unique(t0),
                forall|i: int| 0 <= i < k ==> (#[trigger] t0[i]).id != id,
            decreases n - k,
        {
            if self.threads[k].id == id {
                self.threads.remove(k);
                proof {
                    assert forall|id2: u128|
                        id2 != id implies holds(self.threads@, id2) == holds(t0, id2) by {
                        if holds(t0, id2) {
                            let j = choose|j: int| 0 <= j < t0.len() && (#[trigger] t0[j]).id == id2;
                            if j < k {
                                assert(self.threads@[j].id == id2);
                            } else {
                                assert(t0[j].id != id);
                                assert(j != k);
                                assert(self.threads@[j - 1].id == id2);
                            }
                        }
                        if holds(self.threads@, id2) {
                            let j = choose|j: int|
                                0 <= j < self.threads@.len() && (#[trigger] self.threads@[j]).id
                                    == id2;
                            if j < k {
                                assert(t0[j].id == id2);
                            } else {
                                assert(t0[j + 1].id == id2);
                            }
                        }
                    }
                    assert forall|k1: int, k2: int|
                        0 <= k1 < k2 < self.threads@.len() implies (
                    #[trigger] self.threads@[k1]).id != (#[trigger] self.threads@[k2]).id by {
                        let a1: int = if k1 < k { k1 } else { k1 + 1 };
                        let a2: int = if k2 < k { k2 } else { k2 + 1 };
                        assert(self.threads@[k1] == t0[a1]);
                        assert(self.threads@[k2] == t0[a2]);
                    }
                    assert forall|j: int|
                        0 <= j < self.threads@.len() implies (#[trigger] self.threads@[j]).id
                        != id by {
                        let a: int = if j < k { j } else { j + 1 };
                        assert(self.threads@[j] == t0[a]);
                        if a > k {
                            assert(t0[k as int].id == id);
                        }
                    }
                    assert forall|id2: u128|
                        id2 != id implies elem_of(self.threads@, id2) == elem_of(t0, id2) by {
                        if holds(t0, id2) {
                            let j = choose|j: int| 0 <= j < t0.len() && (#[trigger] t0[j]).id == id2;
                            lemma_elem_at(t0, j);
                            if j < k {
                                assert(self.threads@[j] == t0[j]);
                                lemma_elem_at(self.threads@, j);
                            } else {
                                assert(t0[j].id != id);
                                assert(j != k);
                                assert(self.threads@[j - 1] == t0[j]);
                                lemma_elem_at(self.threads@, j - 1);
                            }
                        }
                    }
                }
                return ;
            }
            k = k + 1;
        }
        proof {
            assert(!holds(self.threads@, id));
        }
    }

    /// Apply all queued operations to the tracked set, oldest first: an
    /// addition inserts or replaces, a removal deletes.  The queue is
    /// drained.
    pub fn process_queue(&mut self, queue: &mut Vec<WaitOp>)
        requires
            ids_unique(old(self).threads@),
        ensures
            ids_unique(final(self).threads@),
            final(queue)@.len() == 0,
            forall|id: u128|
                holds(final(self).threads@, id) == tracked_after(
                    holds(old(self).threads@, id),
                    old(queue)@,
                    id,
                ),
            forall|id: u128|
                elem_of(final(self).threads@, id) == tracked_elem(
                    elem_of(old(self).threads@, id),
                    old(queue)@,
                    id,
                ),
    {
        let ghost q0 = queue@;
        let ghost t0 = old(self).threads@;
        let n = queue.len();
        let mut k: usize = 0;
        proof {
            assert forall|id: u128|
                holds(self.threads@, id) == tracked_after(holds(t0, id), q0.take(0), id) by {
                assert(q0.take(0).len() == 0);
            }
            assert forall|id: u128|
                elem_of(self.threads@, id) == tracked_elem(elem_of(t0, id), q0.take(0), id) by {
                assert(q0.take(0).len() == 0);
            }
        }
        while k < n
            invariant
                k <= n,
                n == q0.len(),
                queue@ == q0,
                ids_unique(self.threads@),
                forall|id: u128|
                    holds(self.threads@, id) == tracked_after(
                        holds(t0, id),
                        q0.take(k as int),
                        id,
                    ),
                forall|id: u128|
                    elem_of(self.threads@, id) == tracked_elem(
                        elem_of(t0, id),
                        q0.take(k as int),
                        id,
                    ),
            decreases n - k,
        {
            let op_is_add: bool;
            let th: ManagedThread;
            let rid: u128;
            match &queue[k] {
                WaitOp::Add(t) => {
                    op_is_add = true;
                    th = *t;
                    rid = t.id;
                },
                WaitOp::Remove(r) => {
                    op_is_add = false;
                    th = ManagedThread { id: *r, repr: 0 };
                    rid = *r;
                },
            }
            let ghost pre = self.threads@;
            self.remove_id(rid);
            let ghost mid = self.threads@;
            if op_is_add {
                self.threads.push(th);
                proof {
                    assert forall|k1: int, k2: int|
                        0 <= k1 < k2 < self.threads@.len() implies (
                    #[trigger] self.threads@[k1]).id != (#[trigger] self.threads@[k2]).id by {
                        if k2 == self.threads@.len() - 1 {
                            assert(!holds(mid, rid));
                            assert(self.threads@[k1] == mid[k1]);
                        }
                    }
                }
            }
            proof {
                assert(q0.take(k + 1).drop_last() =~= q0.take(k as int));
                assert(q0.take(k + 1).last() == q0[k as int]);
                assert forall|id: u128|
                    elem_of(self.threads@, id) == tracked_elem(
                        elem_of(t0, id),
                        q0.take(k + 1),
                        id,
                    ) by {
                    if id == rid {
                        if op_is_add {
                            assert(self.threads@[self.threads@.len() - 1] == th);
                            lemma_elem_at(self.threads@, self.threads@.len() - 1);
                        } else {
                            assert(!holds(self.threads@, id));
                        }
                    } else {
                        if op_is_add {
                            if holds(self.threads@, id) {
                                let j = choose|j: int|
                                    0 <= j < self.threads@.len() && (
                                    #[trigger] self.threads@[j]).id == id;
                                assert(j < self.threads@.len() - 1);
                                assert(mid[j] == self.threads@[j]);
                                lemma_elem_at(self.threads@, j);
                                lemma_elem_at(mid, j);
                            }
                            if holds(mid, id) {
                                let j = choose|j: int|
                                    0 <= j < mid.len() && (#[trigger] mid[j]).id == id;
                                assert(self.threads@[j] == mid[j]);
                                lemma_elem_at(mid, j);
                                lemma_elem_at(self.threads@, j);
                            }
                            assert(elem_of(self.threads@, id) == elem_of(mid, id));
                            assert(elem_of(mid, id) == elem_of(pre, id));
                        } else {
                            assert(elem_of(self.threads@, id) == elem_of(pre, id));
                        }
                    }
                }
                assert forall|id: u128|
                    holds(self.threads@, id) == tracked_after(
                        holds(t0, id),
                        q0.take(k + 1),
                        id,
                    ) by {
                    if id == rid {
                        if op_is_add {
                            assert(self.threads@[self.threads@.len() - 1].id == id);
                            assert(holds(self.threads@, id));
                        } else {
                            assert(!holds(self.threads@, id));
                        }
                    } else {
                        if op_is_add {
                            if holds(self.threads@, id) {
                                let j = choose|j: int|
                                    0 <= j < self.threads@.len() && (
                                    #[trigger] self.threads@[j]).id == id;
                                assert(j < self.threads@.len() - 1);
                                assert(mid[j].id == id);
                            }
                            if holds(mid, id) {
                                let j = choose|j: int|
                                    0 <= j < mid.len() && (#[trigger] mid[j]).id == id;
                                assert(self.threads@[j].id == id);
                            }
                            assert(holds(mid, id) == holds(pre, id));
                        } else {
                            assert(holds(self.threads@, id) == holds(pre, id));
                        }
                    }
                }
            }
            k = k + 1;
        }
        proof {
            assert(q0.take(n as int) =~= q0);
        }
        queue.clear();
    }
}

impl ThreadRegistry {
    /// An empty registry.
    pub fn new() -> (r: ThreadRegistry)
        ensures
            r.threads@.len() == 0,
            ids_unique(r.threads@),
    {
        ThreadRegistry { threads: Vec::new() }
    }

    /// Register a thread.  Callers register each thread once.
    pub fn insert(&mut self, th: ManagedThread)
        requires
            ids_unique(old(self).threads@),
            !holds(old(self).threads@, th.id),
        ensures
            ids_unique(final(self).threads@),
            holds(final(self).threads@, th.id),
            forall|id2: u128|
                id2 != th.id ==> holds(final(self).threads@, id2) == holds(
                    old(self).threads@,
                    id2,
                ),
    {
        let ghost pre = self.threads@;
        self.threads.push(th);
        proof {
            assert(self.threads@[self.threads@.len() - 1].id == th.id);
            assert forall|k1: int, k2: int|
                0 <= k1 < k2 < self.threads@.len() implies (#[trigger] self.threads@[k1]).id != (
            #[trigger] self.threads@[k2]).id by {
                if k2 == self.threads@.len() - 1 {
                    assert(self.threads@[k1] == pre[k1]);
                }
            }
            assert forall|id2: u128|
                id2 != th.id implies holds(self.threads@, id2) == holds(pre, id2) by {
                if holds(self.threads@, id2) {
                    let j = choose|j: int|
                        0 <= j < self.threads@.len() && (#[trigger] self.threads@[j]).id == id2;
                    assert(pre[j].id == id2);
                }
                if holds(pre, id2) {
                    let j = choose|j: int| 0 <= j < pre.len() && (#[trigger] pre[j]).id == id2;
                    assert(self.threads@[j].id == id2);
                }
            }
        }
    }

    /// Remove a thread from the registry, exactly once: afterwards no
    /// entry of that id remains, and no other entry is touched.
    pub fn do_remove(&mut self, id: u128)
        requires
            ids_unique(old(self).threads@),
        ensures
            ids_unique(final(self).threads@),
            !holds(final(self).threads@, id),
            forall|id2: u128|
                id2 != id ==> holds(final(self).threads@, id2) == holds(
                    old(self).threads@,
                    id2,
                ),
    {
        remove_thread_by_id(&mut self.threads, id);
    }
}

impl ThreadCleanerData {
    /// Raise the notify flag, telling the loop that new items are on the
    /// queue.  The wake call on the flag's address lives with the
    /// caller's environment.
    pub fn notify(&mut self)
        ensures
            final(self).notify == 1,
    {
        self.notify = 1;
    }
}

impl ThreadCleaner {
    /// A reaper with nothing queued and nothing to notify.
    pub fn new() -> (r: ThreadCleaner)
        ensures
            r.queue@.len() == 0,
            r.data.notify == 0,
    {
        ThreadCleaner { queue: Vec::new(), data: ThreadCleanerData { notify: 0 } }
    }

    /// Track a thread: once it exits, the loop removes it from tracking
    /// and from the global registry.  Never blocks.
    pub fn track(&mut self, th: ManagedThread)
        ensures
            final(self).queue@ == old(self).queue@.push(WaitOp::Add(th)),
            final(self).data.notify == 1,
    {
        self.queue.push(WaitOp::Add(th));
        self.data.notify();
    }

    /// Stop tracking a thread.  Threads removed this way are not removed
    /// from the global registry.  Never blocks.
    pub fn untrack(&mut self, id: u128)
        ensures
            final(self).queue@ == old(self).queue@.push(WaitOp::Remove(id)),
            final(self).data.notify == 1,
    {
        self.queue.push(WaitOp::Remove(id));
        self.data.notify();
    }
}

/// Whether `ids` contains `id`.
fn ids_contain(ids: &Vec<u128>, id: u128) -> (r: bool)
    ensures
        r == ids@.contains(id),
{
    let mut k: usize = 0;
    let n = ids.len();
    while k < n
        invariant
            k <= n,
            n == ids@.len(),
            forall|i: int| 0 <= i < k ==> ids@[i] != id,
        decreases n - k,
    {
        if ids[k] == id {
            proof {
                assert(ids@[k as int] == id);
            }
            return true;
        }
        k = k + 1;
    }
    proof {
        assert(forall|i: int| 0 <= i < ids@.len() ==> ids@[i] != id);
    }
    false
}

/// One iteration of the reaper loop.
///
/// Drains the queue into the tracked set, removes every tracked thread
/// whose id is in `exited` from both the tracked set and the registry
/// (exactly once), builds the combined wait-condition set — the notify
/// condition first, then one exit condition per remaining tracked thread
/// — and atomically tests and clears the notify flag: the caller blocks
/// on the returned set only when the flag was already clear, else it
/// loops immediately because more work may be pending.
pub fn cleaner_step(
    cleaner: &mut ThreadCleaner,
    waits: &mut Waits,
    registry: &mut ThreadRegistry,
    exited: &Vec<u128>,
) -> (r: (Vec<WaitCondition>, bool))
    requires
        ids_unique(old(waits).threads@),
        ids_unique(old(registry).threads@),
    ensures
        ids_unique(final(waits).threads@),
        ids_unique(final(registry).threads@),
        final(cleaner).queue@.len() == 0,
        final(cleaner).data.notify == 0,
        r.1 == (old(cleaner).data.notify == 0),
        forall|id: u128|
            holds(final(waits).threads@, id) == (tracked_after(
                holds(old(waits).threads@, id),
                old(cleaner).queue@,
                id,
            ) && !exited@.contains(id)),
        forall|id: u128|
            elem_of(final(waits).threads@, id) == (if exited@.contains(id) {
                None
            } else {
                tracked_elem(elem_of(old(waits).threads@, id), old(cleaner).queue@, id)
            }),
        forall|id: u128|
            holds(final(registry).threads@, id) == (holds(old(registry).threads@, id) && !(
            tracked_after(holds(old(waits).threads@, id), old(cleaner).queue@, id)
                && exited@.contains(id))),
        r.0@.len() == final(waits).threads@.len() + 1,
        r.0@[0] == WaitCondition::NotifyIsZero,
        forall|k: int|
            0 <= k < final(waits).threads@.len() ==> r.0@[k + 1] == WaitCondition::ThreadExit(
                final(waits).threads@[k].repr,
            ),
{
    waits.process_queue(&mut cleaner.queue);
    let ghost after_queue = waits.threads@;
    let mut kept: Vec<ManagedThread> = Vec::new();
    let mut gone: Vec<ManagedThread> = Vec::new();
    let n = waits.threads.len();
    let mut k: usize = 0;
    while k < n
        invariant
            k <= n,
            n == waits.threads@.len(),
            waits.threads@ == after_queue,
            ids_unique(after_queue),
            forall|j1: int, j2: int|
                0 <= j1 < j2 < kept@.len() ==> (#[trigger] kept@[j1]).id != (
                #[trigger] kept@[j2]).id,
            forall|j: int| 0 <= j < kept@.len() ==> after_queue.contains(#[trigger] kept@[j]),
            forall|j: int|
                0 <= j < kept@.len() ==> !exited@.contains((#[trigger] kept@[j]).id) && holds(
                    after_queue,
                    kept@[j].id,
                ),
            forall|j: int|
                0 <= j < gone@.len() ==> exited@.contains((#[trigger] gone@[j]).id) && holds(
                    after_queue,
                    gone@[j].id,
                ),
            forall|id: u128|
                (holds(after_queue.take(k as int), id) && !exited@.contains(id)) == holds(
                    kept@,
                    id,
                ),
            forall|id: u128|
                (holds(after_queue.take(k as int), id) && exited@.contains(id)) == holds(
                    gone@,
                    id,
                ),
        decreases n - k,
    {
        let th = waits.threads[k];
        let ghost kept0 = kept@;
        let ghost gone0 = gone@;
        if ids_contain(exited, th.id) {
            gone.push(th);
        } else {
            kept.push(th);
        }
        proof {
            assert(after_queue.take(k + 1).drop_last() =~= after_queue.take(k as int));
            assert(after_queue.take(k + 1).last() == after_queue[k as int]);
            assert forall|id: u128|
                (holds(after_queue.take(k + 1), id) && !exited@.contains(id)) == holds(
                kept@,
                id,
            ) by {
                lemma_holds_take_step(after_queue, k as int, id);
                if id != th.id {
                    lemma_holds_push_other(kept0, kept@, th, id);
                    lemma_holds_push_other(gone0, gone@, th, id);
                } else {
                    if !exited@.contains(id) {
                        assert(kept@[kept@.len() - 1].id == id);
                    }
                }
            }
            assert forall|id: u128|
                (holds(after_queue.take(k + 1), id) && exited@.contains(id)) == holds(
                gone@,
                id,
            ) by {
                lemma_holds_take_step(after_queue, k as int, id);
                if id != th.id {
                    lemma_holds_push_other(kept0, kept@, th, id);
                    lemma_holds_push_other(gone0, gone@, th, id);
                } else {
                    if exited@.contains(id) {
                        assert(gone@[gone@.len() - 1].id == id);
                    }
                }
            }
        }
        k = k + 1;
    }
    proof {
        assert(after_queue.take(n as int) =~= after_queue);
    }
    waits.threads = kept;
    proof {
        assert forall|id: u128|
            elem_of(waits.threads@, id) == (if exited@.contains(id) {
                None
            } else {
                elem_of(after_queue, id)
            }) by {
            if exited@.contains(id) {
                assert(!holds(waits.threads@, id));
            } else {
                if holds(waits.threads@, id) {
                    let j = choose|j: int|
                        0 <= j < waits.threads@.len() && (#[trigger] waits.threads@[j]).id == id;
                    lemma_elem_at(waits.threads@, j);
                    assert(after_queue.contains(waits.threads@[j]));
                    let m = choose|m: int|
                        0 <= m < after_queue.len() && after_queue[m] == waits.threads@[j];
                    lemma_elem_at(after_queue, m);
                } else {
                    assert(!holds(after_queue, id));
                }
            }
        }
    }
    let m = gone.len();
    let ghost gone_all = gone@;
    let ghost reg0 = registry.threads@;
    let mut k: usize = 0;
    while k < m
        invariant
            k <= m,
            m == gone_all.len(),
            gone@ == gone_all,
            ids_unique(registry.threads@),
            forall|id: u128|
                #[trigger] holds(registry.threads@, id) == (holds(reg0, id) && !hit_before(
                    gone_all,
                    k as int,
                    id,
                )),
        decreases m - k,
    {
        let id = gone[k].id;
        let ghost regpre = registry.threads@;
        registry.do_remove(id);
        proof {
            assert forall|id2: u128|
                #[trigger] holds(registry.threads@, id2) == (holds(reg0, id2) && !hit_before(
                gone_all,
                k + 1,
                id2,
            )) by {
                if id2 == id {
                    assert(gone_all[k as int].id == id2);
                    assert(hit_before(gone_all, k + 1, id2));
                    assert(!holds(registry.threads@, id2));
                } else {
                    assert(gone_all[k as int].id == id);
                    if hit_before(gone_all, k as int, id2) {
                        let j = choose|j: int| 0 <= j < k && (#[trigger] gone_all[j]).id == id2;
                        assert(0 <= j < k + 1);
                        assert(hit_before(gone_all, k + 1, id2));
                    }
                    if hit_before(gone_all, k + 1, id2) {
                        let j = choose|j: int|
                            0 <= j < k + 1 && (#[trigger] gone_all[j]).id == id2;
                        assert(j != k);
                        assert(0 <= j < k);
                        assert(hit_before(gone_all, k as int, id2));
                    }
                    assert(holds(registry.threads@, id2) == holds(regpre, id2));
                    assert(holds(regpre, id2) == (holds(reg0, id2) && !hit_before(
                        gone_all,
                        k as int,
                        id2,
                    )));
                }
            }
        }
        k = k + 1;
    }
    proof {
        assert forall|id: u128|
            #[trigger] holds(registry.threads@, id) == (holds(reg0, id) && !(holds(
            gone_all,
            id,
        ))) by {
            assert(hit_before(gone_all, gone_all.len() as int, id) == holds(gone_all, id));
        }
    }
    let should_block = cleaner.data.notify == 0;
    cleaner.data.notify = 0;
    let mut conditions: Vec<WaitCondition> = Vec::new();
    conditions.push(WaitCondition::NotifyIsZero);
    let wn = waits.threads.len();
    let mut k: usize = 0;
    while k < wn
        invariant
            k <= wn,
            wn == waits.threads@.len(),
            conditions@.len() == k + 1,
            conditions@[0] == WaitCondition::NotifyIsZero,
            forall|j: int|
                0 <= j < k ==> conditions@[j + 1] == WaitCondition::ThreadExit(
                    waits.threads@[j].repr,
                ),
        decreases wn - k,
    {
        conditions.push(WaitCondition::ThreadExit(waits.threads[k].repr));
        k = k + 1;
    }
    (conditions, should_block)
}

/// Membership in a one-longer prefix differs only at the new element.
proof fn lemma_holds_take_step(threads: Seq<ManagedThread>, k: int, id: u128)
    requires
        0 <= k < threads.len(),
    ensures
        holds(threads.take(k + 1), id) == (holds(threads.take(k), id) || threads[k].id == id),
{
    let a = threads.take(k);
    let b = threads.take(k + 1);
    if holds(b, id) {
        let j = choose|j: int| 0 <= j < b.len() && (#[trigger] b[j]).id == id;
        if j < k {
            assert(a[j].id == id);
        } else {
            assert(threads[k].id == id);
        }
    }
    if holds(a, id) {
        let j = choose|j: int| 0 <= j < a.len() && (#[trigger] a[j]).id == id;
        assert(b[j].id == id);
    }
    if threads[k].id == id {
        assert(b[k].id == id);
    }
}

/// Pushing a thread of a different id does not change membership.
proof fn lemma_holds_push_other(
    before: Seq<ManagedThread>,
    after: Seq<ManagedThread>,
    th: ManagedThread,
    id: u128,
)
    requires
        after == before.push(th) || after == before,
        id != th.id,
    ensures
        holds(after, id) == holds(before, id),
{
    if after == before.push(th) {
        if holds(after, id) {
            let j = choose|j: int| 0 <= j < after.len() && (#[trigger] after[j]).id == id;
            assert(j < before.len());
            assert(before[j].id == id);
        }
        if holds(before, id) {
            let j = choose|j: int| 0 <= j < before.len() && (#[trigger] before[j]).id == id;
            assert(after[j].id == id);
        }
    }
}

} // verus!
