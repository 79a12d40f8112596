//! What the thread manager keeps, as mathematical values, and what each
//! operation on threads makes of it.

use vstd::prelude::*;

use crate::thread::imp::{
    for_other_lock, lemma_donated, rescheduled, with_donation, ContextState, Donation, Status,
    ThreadState,
};
use crate::thread::scheduler::priority::{
    joined, lemma_top_level, lemma_without, level_count, levels_without, next_ready, next_taken,
    queued, top_level, without,
};
use crate::userproc::files::ProcState;

verus! {

/// A change of the running thread, for the machine to carry out.
#[derive(Clone, Copy, Debug, PartialEq, Eq, Structural)]
pub struct Switch {
    /// The thread that stops running.
    pub previous: isize,
    /// The thread that runs from now on.
    pub next: isize,
}

/// How an operation that may have to wait has ended.
#[derive(Clone, Copy, Debug, PartialEq, Eq, Structural)]
pub enum Progress {
    /// It is complete.
    Done,
    /// The running thread has been blocked, and the processor goes to another
    /// one where one is ready.
    Blocked(Option<Switch>),
}

/// All threads and who runs, is ready, or holds a lock.
#[verifier::ext_equal]
pub struct ManagerState {
    pub threads: Map<isize, ThreadState>,
    /// The thread that runs.
    pub current: isize,
    /// The ready threads, level by level.
    pub ready: Seq<Seq<isize>>,
    /// The holder of each sleep lock that is held.
    pub holders: Map<usize, isize>,
    /// The id of the next sleep lock that is made.
    pub next_lock: usize,
}

impl ManagerState {
    /// Whether a thread stands in the right level of the scheduler.
    pub open spec fn ready_at(self, tid: isize, level: int) -> bool {
        &&& self.threads.contains_key(tid)
        &&& self.threads[tid].status == Status::Ready
        &&& self.threads[tid].priority == level
    }

    /// What every operation keeps: the scheduler holds exactly the ready
    /// threads, each once and in the level of its priority, no thread but the
    /// current one runs, and every lock that is held has been made.
    pub open spec fn wf(self) -> bool {
        &&& self.ready.len() == level_count()
        &&& self.threads.dom().finite()
        &&& self.threads.contains_key(self.current)
        &&& forall|t: isize| #[trigger]
            self.threads.contains_key(t) ==> self.threads[t].tid == t && self.threads[t].wf()
        &&& forall|t: isize|
            #![trigger self.threads[t]]
            self.threads.contains_key(t) && self.threads[t].status == Status::Ready
                ==> self.ready[self.threads[t].priority as int].contains(t)
        &&& forall|t: isize|
            #![trigger self.threads[t]]
            self.threads.contains_key(t) && self.threads[t].status == Status::Running ==> t
                == self.current
        &&& forall|p: int, t: isize|
            0 <= p < self.ready.len() && #[trigger] self.ready[p].contains(t) ==> self.ready_at(
                t,
                p,
            )
        &&& forall|p: int|
            0 <= p < self.ready.len() ==> (#[trigger] self.ready[p]).no_duplicates()
        &&& forall|l: usize| #[trigger]
            self.holders.contains_key(l) ==> l < self.next_lock && self.threads.contains_key(
                self.holders[l],
            )
    }

    /// The running thread.
    pub open spec fn running(self) -> ThreadState {
        self.threads[self.current]
    }

    /// The state with one thread replaced.
    pub open spec fn with_thread(self, tid: isize, thread: ThreadState) -> ManagerState {
        ManagerState { threads: self.threads.insert(tid, thread), ..self }
    }

    /// The state with another status of one thread.
    pub open spec fn with_status(self, tid: isize, status: Status) -> ManagerState {
        self.with_thread(tid, ThreadState { status, ..self.threads[tid] })
    }

    /// The state with another lock that one thread waits for.
    pub open spec fn with_waiting_lock(
        self,
        tid: isize,
        waiting_lock: Option<usize>,
    ) -> ManagerState {
        self.with_thread(tid, ThreadState { waiting_lock, ..self.threads[tid] })
    }

    /// The state with other registers of one thread on record.
    pub open spec fn with_context(self, tid: isize, context: ContextState) -> ManagerState {
        self.with_thread(tid, ThreadState { context, ..self.threads[tid] })
    }

    /// The state with another user process of one thread.
    pub open spec fn with_proc(self, tid: isize, proc: ProcState) -> ManagerState {
        self.with_thread(tid, ThreadState { userproc: Some(proc), ..self.threads[tid] })
    }

    /// The state after a thread has joined the level of its priority.
    pub open spec fn enqueued(self, tid: isize) -> ManagerState {
        ManagerState {
            ready: joined(self.ready, tid, self.threads[tid].priority as int),
            ..self
        }
    }

    /// The state after a new thread has come in.
    pub open spec fn registered(self, thread: ThreadState) -> ManagerState {
        self.with_thread(thread.tid, thread).enqueued(thread.tid)
    }

    /// The state after a thread has become ready.
    pub open spec fn woken(self, tid: isize) -> ManagerState {
        self.with_status(tid, Status::Ready).enqueued(tid)
    }

    /// The thread that the scheduler hands the processor to.
    pub open spec fn next(self) -> Option<isize> {
        next_ready(self.ready)
    }

    /// The state after the scheduler has handed the processor to the next ready
    /// thread. The previous one joins the end of its level if it could go on.
    pub open spec fn scheduled(self) -> ManagerState {
        match self.next() {
            None => self,
            Some(next) => {
                let taken = ManagerState { ready: next_taken(self.ready), ..self };
                let put_back = if self.running().status == Status::Running {
                    taken.woken(self.current)
                } else {
                    taken
                };
                ManagerState { current: next, ..put_back.with_status(next, Status::Running) }
            },
        }
    }

    /// The change of threads that goes with `scheduled`.
    pub open spec fn switch(self) -> Option<Switch> {
        match self.next() {
            None => None,
            Some(next) => Some(Switch { previous: self.current, next }),
        }
    }

    /// The state in which the running thread has given up the processor.
    pub open spec fn stopped(self, status: Status) -> ManagerState {
        self.with_status(self.current, status)
    }

    /// Whether a ready thread is more urgent than the running one.
    pub open spec fn preempted(self) -> bool {
        top_level(self.ready) > self.running().priority
    }

    /// The state after a more urgent ready thread, if any, has got the
    /// processor.
    pub open spec fn after_preemption(self) -> ManagerState {
        if self.preempted() {
            self.scheduled()
        } else {
            self
        }
    }

    /// The change of threads that goes with `after_preemption`.
    pub open spec fn preemption(self) -> Option<Switch> {
        if self.preempted() {
            self.switch()
        } else {
            None
        }
    }

    /// The state after some threads have become ready, one after the other.
    pub open spec fn all_woken(self, tids: Seq<isize>) -> ManagerState
        decreases tids.len(),
    {
        if tids.len() == 0 {
            self
        } else {
            self.all_woken(tids.drop_last()).woken(tids.last())
        }
    }

    /// The state after `donor` has lent its priority for a lock.
    pub open spec fn lent(self, tid: isize, donation: Donation) -> ManagerState {
        let before = self.threads[tid];
        let after = before.lent(donation);
        ManagerState {
            ready: rescheduled(self.ready, before, after),
            ..self.with_thread(tid, after)
        }
    }

    /// The state after the donations to a thread for a lock have lapsed.
    pub open spec fn unlent(self, tid: isize, lock_id: usize) -> ManagerState {
        let before = self.threads[tid];
        let after = before.unlent(lock_id);
        ManagerState {
            ready: rescheduled(self.ready, before, after),
            ..self.with_thread(tid, after)
        }
    }

    /// The state after a thread has got another priority of its own.
    pub open spec fn with_base_priority(self, tid: isize, priority: u32) -> ManagerState {
        let before = ThreadState { base_priority: priority, ..self.threads[tid] };
        let after = before.refreshed();
        ManagerState {
            ready: rescheduled(self.ready, before, after),
            ..self.with_thread(tid, after)
        }
    }

    /// The holder of the lock that a thread waits for.
    pub open spec fn blocker(self, tid: isize) -> Option<isize> {
        match self.threads[tid].waiting_lock {
            Some(lock_id) if self.holders.contains_key(lock_id) => Some(self.holders[lock_id]),
            _ => None,
        }
    }

    /// What a thread lends to the holder of the lock that it waits for.
    pub open spec fn offer(self, tid: isize) -> Donation {
        Donation {
            donor_tid: tid,
            lock_id: self.threads[tid].waiting_lock->0,
            priority: self.threads[tid].priority,
        }
    }

    /// The state after `tid` has lent its priority to the thread it waits for,
    /// that one to the thread it waits for, and so on for at most `steps` steps.
    pub open spec fn propagated(self, tid: isize, steps: nat) -> ManagerState
        decreases steps,
    {
        match self.blocker(tid) {
            Some(holder) if steps > 0 => self.lent(holder, self.offer(tid)).propagated(
                holder,
                (steps - 1) as nat,
            ),
            _ => self,
        }
    }

    /// The state after `tid` has lent its priority along the whole chain of the
    /// threads that it waits for. No chain without a cycle has more steps than
    /// there are threads.
    pub open spec fn fully_propagated(self, tid: isize) -> ManagerState {
        self.propagated(tid, self.threads.dom().len())
    }

    /// The state after a lock has got another holder.
    pub open spec fn held_by(self, lock_id: usize, tid: isize) -> ManagerState {
        ManagerState { holders: self.holders.insert(lock_id, tid), ..self }
    }

    /// The state after a lock has been let go.
    pub open spec fn let_go(self, lock_id: usize) -> ManagerState {
        ManagerState { holders: self.holders.remove(lock_id), ..self }
    }

    /// The state after a lock has been made.
    pub open spec fn lock_made(self) -> ManagerState {
        ManagerState { next_lock: (self.next_lock + 1) as usize, ..self }
    }

    /// The state after a copy of a lock has been made, which has the same holder.
    pub open spec fn lock_copied(self, lock_id: usize) -> ManagerState {
        ManagerState {
            holders: if self.holders.contains_key(lock_id) {
                self.holders.insert(self.next_lock, self.holders[lock_id])
            } else {
                self.holders
            },
            ..self.lock_made()
        }
    }

    /// Whether every thread that is known has an id below `next`.
    pub open spec fn below(self, next: isize) -> bool {
        forall|t: isize| #[trigger] self.threads.contains_key(t) ==> t < next
    }

    /// Whether a thread holds some lock.
    pub open spec fn holds_lock(self, tid: isize) -> bool {
        exists|l: usize| #[trigger] self.holders.contains_key(l) && self.holders[l] == tid
    }

    /// Whether a thread can be forgotten: it has exited, the processor has left it, and
    /// it holds no lock.
    pub open spec fn can_reap(self, tid: isize) -> bool {
        &&& self.threads.contains_key(tid)
        &&& self.threads[tid].status == Status::Dying
        &&& tid != self.current
        &&& !self.holds_lock(tid)
    }

    /// The state after a thread has been forgotten.
    pub open spec fn reaped(self, tid: isize) -> ManagerState {
        ManagerState { threads: self.threads.remove(tid), ..self }
    }
}

/* ------------------------- What the operations keep ------------------------ */

/// Whether the same threads are ready with the same priorities, and none but the current
/// one runs.
spec fn same_ready(s: ManagerState, after: ManagerState) -> bool {
    forall|t: isize|
        #![trigger after.threads[t]]
        #![trigger s.threads[t]]
        {
            &&& s.threads.contains_key(t) && s.threads[t].status == Status::Ready
                ==> after.ready_at(t, s.threads[t].priority as int)
            &&& after.threads.contains_key(t) && after.threads[t].status == Status::Ready
                ==> s.ready_at(t, after.threads[t].priority as int)
            &&& after.threads.contains_key(t) && after.threads[t].status == Status::Running ==> t
                == after.current
        }
}

/// A change that leaves alone who is ready, and with which priority, keeps the state in
/// order.
proof fn lemma_same_ready_wf(s: ManagerState, after: ManagerState)
    requires
        s.wf(),
        after.ready == s.ready,
        after.threads.dom().finite(),
        after.threads.contains_key(after.current),
        forall|t: isize| #[trigger]
            after.threads.contains_key(t) ==> after.threads[t].tid == t && after.threads[t].wf(),
        same_ready(s, after),
        forall|l: usize| #[trigger]
            after.holders.contains_key(l) ==> l < after.next_lock && after.threads.contains_key(
                after.holders[l],
            ),
    ensures
        after.wf(),
{
    assert forall|p: int, t: isize|
        0 <= p < after.ready.len() && #[trigger] after.ready[p].contains(
            t,
        ) implies after.ready_at(t, p) by {
        assert(s.ready_at(t, p));
        assert(s.threads[t].status == Status::Ready);
    }
    assert forall|t: isize|
        #![trigger after.threads[t]]
        after.threads.contains_key(t) && after.threads[t].status
            == Status::Ready implies after.ready[after.threads[t].priority as int].contains(t) by {
        assert(s.threads[t].status == Status::Ready);
    }
}

/// A change to a thread that leaves its status and priority alone keeps the
/// state in order.
pub proof fn lemma_with_thread_wf(s: ManagerState, tid: isize, thread: ThreadState)
    requires
        s.wf(),
        s.threads.contains_key(tid),
        thread.tid == tid,
        thread.wf(),
        thread.status == s.threads[tid].status,
        thread.priority == s.threads[tid].priority,
    ensures
        s.with_thread(tid, thread).wf(),
{
    lemma_same_ready_wf(s, s.with_thread(tid, thread));
}

/// Who holds which lock is free, as long as the holders are known and the locks have
/// been made.
pub proof fn lemma_with_holders_wf(s: ManagerState, holders: Map<usize, isize>, next_lock: usize)
    requires
        s.wf(),
        forall|l: usize| #[trigger]
            holders.contains_key(l) ==> l < next_lock && s.threads.contains_key(holders[l]),
    ensures
        (ManagerState { holders, next_lock, ..s }).wf(),
{
    lemma_same_ready_wf(s, ManagerState { holders, next_lock, ..s });
}

/// Stopping a thread that is not ready, or starting the current one, keeps the
/// state in order.
pub proof fn lemma_with_status_wf(s: ManagerState, tid: isize, status: Status)
    requires
        s.wf(),
        s.threads.contains_key(tid),
        s.threads[tid].status != Status::Ready,
        status != Status::Ready,
        status == Status::Running ==> tid == s.current,
    ensures
        s.with_status(tid, status).wf(),
{
    lemma_same_ready_wf(s, s.with_status(tid, status));
}

/// What stands in a queue after another thread has joined it.
proof fn lemma_push(queue: Seq<isize>, tid: isize)
    ensures
        forall|t: isize| #[trigger]
            queue.push(tid).contains(t) <==> queue.contains(t) || t == tid,
        queue.no_duplicates() && !queue.contains(tid) ==> queue.push(tid).no_duplicates(),
{
    let after = queue.push(tid);
    assert forall|t: isize| after.contains(t) <==> queue.contains(t) || t == tid by {
        if after.contains(t) {
            let i = choose|i: int| 0 <= i < after.len() && after[i] == t;
            if i < queue.len() {
                assert(queue[i] == t);
            }
        }
        if queue.contains(t) {
            let i = choose|i: int| 0 <= i < queue.len() && queue[i] == t;
            assert(after[i] == t);
        }
        if t == tid {
            assert(after[queue.len() as int] == t);
        }
    }
}

/// Enqueueing a thread that has just become ready keeps the state in order.
proof fn lemma_enqueued_wf(s: ManagerState, tid: isize, thread: ThreadState)
    requires
        s.wf(),
        thread.tid == tid,
        thread.wf(),
        thread.status == Status::Ready,
        s.threads.contains_key(tid) ==> s.threads[tid].status != Status::Ready,
    ensures
        s.with_thread(tid, thread).enqueued(tid).wf(),
{
    let level = thread.priority as int;
    let after = s.with_thread(tid, thread).enqueued(tid);
    lemma_push(s.ready[level], tid);
    assert(after.ready[level] == s.ready[level].push(tid));
    assert forall|p: int| 0 <= p < s.ready.len() implies !(#[trigger] s.ready[p]).contains(tid) by {
        if s.ready[p].contains(tid) {
            assert(s.ready_at(tid, p));
        }
    }
    assert forall|p: int, t: isize|
        0 <= p < after.ready.len() && #[trigger] after.ready[p].contains(
            t,
        ) implies after.ready_at(t, p) by {
        if t != tid {
            assert(s.ready[p].contains(t));
            assert(s.ready_at(t, p));
        } else if p != level {
            assert(s.ready[p].contains(tid));
        }
    }
    assert forall|t: isize|
        #![trigger after.threads[t]]
        after.threads.contains_key(t) && after.threads[t].status
            == Status::Ready implies after.ready[after.threads[t].priority as int].contains(t) by {
        if t != tid {
            assert(s.threads[t].status == Status::Ready);
            assert(s.ready[s.threads[t].priority as int].contains(t));
        }
    }
    assert forall|t: isize|
        #![trigger after.threads[t]]
        after.threads.contains_key(t) && after.threads[t].status == Status::Running implies t
        == after.current by {
        assert(s.threads[t].status == Status::Running);
    }
    assert forall|p: int| 0 <= p < after.ready.len() implies (
    #[trigger] after.ready[p]).no_duplicates() by {
        assert(s.ready[p].no_duplicates());
    }
}

/// Waking a thread that is not ready keeps the state in order.
pub proof fn lemma_woken_wf(s: ManagerState, tid: isize)
    requires
        s.wf(),
        s.threads.contains_key(tid),
        s.threads[tid].status != Status::Ready,
    ensures
        s.woken(tid).wf(),
{
    lemma_enqueued_wf(s, tid, ThreadState { status: Status::Ready, ..s.threads[tid] });
}

/// Letting a new thread in keeps the state in order.
pub proof fn lemma_registered_wf(s: ManagerState, thread: ThreadState)
    requires
        s.wf(),
        thread.wf(),
        thread.status == Status::Ready,
        !s.threads.contains_key(thread.tid),
    ensures
        s.registered(thread).wf(),
{
    lemma_enqueued_wf(s, thread.tid, thread);
}

/// Handing the processor on keeps the state in order.
pub proof fn lemma_scheduled_wf(s: ManagerState)
    requires
        s.wf(),
    ensures
        s.scheduled().wf(),
        s.scheduled().threads.dom() == s.threads.dom(),
{
    lemma_top_level(s.ready);
    let top = top_level(s.ready);
    if top >= 0 {
        let next = s.ready[top][0];
        assert(s.ready[top].contains(next));
        assert(s.ready_at(next, top));
        // The next thread leaves its level and runs; nobody else runs in
        // between, as the current one has been put back first.
        let rest = s.ready[top].drop_first();
        assert forall|t: isize| rest.contains(t) <==> s.ready[top].contains(t) && t != next by {
            if rest.contains(t) {
                let i = choose|i: int| 0 <= i < rest.len() && rest[i] == t;
                assert(s.ready[top][i + 1] == t);
            }
            if s.ready[top].contains(t) && t != next {
                let i = choose|i: int| 0 <= i < s.ready[top].len() && s.ready[top][i] == t;
                assert(rest[i - 1] == t);
            }
        }
        assert(rest.no_duplicates());
        let stopped = if s.running().status == Status::Running {
            s.with_status(s.current, Status::Blocked)
        } else {
            s
        };
        if s.running().status == Status::Running {
            lemma_with_status_wf(s, s.current, Status::Blocked);
        }
        let handed = ManagerState {
            current: next,
            ready: next_taken(s.ready),
            ..stopped.with_status(next, Status::Running)
        };
        assert(handed.ready[top] == rest);
        assert forall|p: int, t: isize|
            0 <= p < handed.ready.len() && #[trigger] handed.ready[p].contains(
                t,
            ) implies handed.ready_at(t, p) by {
            assert(s.ready[p].contains(t));
            assert(stopped.ready[p].contains(t));
            assert(stopped.ready_at(t, p));
            if t == next {
                assert(p == top);
            }
        }
        assert forall|t: isize|
            #![trigger handed.threads[t]]
            handed.threads.contains_key(t) && handed.threads[t].status
                == Status::Ready implies handed.ready[handed.threads[t].priority as int].contains(
            t,
        ) by {
            assert(stopped.threads[t].status == Status::Ready);
            assert(stopped.ready[stopped.threads[t].priority as int].contains(t));
        }
        assert forall|t: isize|
            #![trigger handed.threads[t]]
            handed.threads.contains_key(t) && handed.threads[t].status
                == Status::Running implies t == handed.current by {
            if t != next {
                assert(stopped.threads[t].status == Status::Running);
            }
        }
        assert forall|p: int| 0 <= p < handed.ready.len() implies (
        #[trigger] handed.ready[p]).no_duplicates() by {
            assert(s.ready[p].no_duplicates());
        }
        assert(handed.wf());
        if s.running().status == Status::Running {
            assert(s.current != next);
            lemma_woken_wf(handed, s.current);
            assert(handed.woken(s.current) =~= s.scheduled());
        } else {
            assert(handed =~= s.scheduled());
        }
        assert(s.scheduled().threads.dom() =~= s.threads.dom());
    }
}

/// A new priority of a thread keeps the state in order.
proof fn lemma_reprioritized_wf(s: ManagerState, tid: isize, after: ThreadState)
    requires
        s.wf(),
        s.threads.contains_key(tid),
        after.tid == tid,
        after.wf(),
        after.status == s.threads[tid].status,
    ensures
        (ManagerState {
            ready: rescheduled(s.ready, s.threads[tid], after),
            ..s.with_thread(tid, after)
        }).wf(),
{
    let before = s.threads[tid];
    let ready = rescheduled(s.ready, before, after);
    let result = ManagerState { ready, ..s.with_thread(tid, after) };
    if before.priority != after.priority && before.status == Status::Ready {
        let level = after.priority as int;
        assert(s.ready[before.priority as int].contains(tid));
        assert(queued(s.ready, tid));
        let cleared = levels_without(s.ready, tid);
        assert forall|p: int| 0 <= p < s.ready.len() implies {
            &&& (#[trigger] cleared[p]).no_duplicates()
            &&& forall|t: isize| cleared[p].contains(t) <==> s.ready[p].contains(t) && t != tid
        } by {
            lemma_without(s.ready[p], tid);
            assert(s.ready[p].no_duplicates());
        }
        lemma_push(cleared[level], tid);
        assert(ready[level] == cleared[level].push(tid));
        assert forall|p: int, t: isize|
            0 <= p < result.ready.len() && #[trigger] result.ready[p].contains(
                t,
            ) implies result.ready_at(t, p) by {
            if t != tid {
                assert(cleared[p].contains(t));
                assert(s.ready[p].contains(t));
                assert(s.ready_at(t, p));
            } else if p != level {
                assert(cleared[p].contains(t));
            }
        }
        assert forall|t: isize|
            #![trigger result.threads[t]]
            result.threads.contains_key(t) && result.threads[t].status
                == Status::Ready implies result.ready[result.threads[t].priority as int].contains(
            t,
        ) by {
            if t != tid {
                assert(s.threads[t].status == Status::Ready);
                let p = s.threads[t].priority as int;
                assert(s.ready[p].contains(t));
                assert(cleared[p].contains(t));
                assert(p != level ==> ready[p] == cleared[p]);
                assert(result.threads[t] == s.threads[t]);
                assert(ready[p].contains(t));
            } else {
                assert(cleared[level].push(tid).contains(t));
            }
        }
        assert forall|t: isize|
            #![trigger result.threads[t]]
            result.threads.contains_key(t) && result.threads[t].status
                == Status::Running implies t == result.current by {
            assert(s.threads[t].status == Status::Running);
        }
        assert forall|p: int| 0 <= p < result.ready.len() implies (
        #[trigger] result.ready[p]).no_duplicates() by {
            assert(cleared[p].no_duplicates());
        }
    } else {
        lemma_same_ready_wf(s, result);
    }
}

/// Forgetting a thread that has exited keeps the state in order.
pub proof fn lemma_reaped_wf(s: ManagerState, tid: isize)
    requires
        s.wf(),
        s.can_reap(tid),
    ensures
        s.reaped(tid).wf(),
{
    lemma_same_ready_wf(s, s.reaped(tid));
}

/// The priority that a thread in order gets is one that the scheduler has a
/// level for.
pub proof fn lemma_refreshed_wf(thread: ThreadState)
    requires
        thread.in_range(),
        thread.userproc is Some ==> thread.userproc->0.wf(),
    ensures
        thread.refreshed().wf(),
{
    lemma_donated(thread.donations);
}

/// A donation keeps a thread in order.
pub proof fn lemma_thread_lent_wf(thread: ThreadState, donation: Donation)
    requires
        thread.wf(),
        donation.priority <= crate::thread::imp::PRI_MAX,
    ensures
        thread.lent(donation).wf(),
{
    let after = ThreadState { donations: with_donation(thread.donations, donation), ..thread };
    assert forall|i: int| 0 <= i < after.donations.len() implies (
    #[trigger] after.donations[i]).priority <= crate::thread::imp::PRI_MAX by {
        if after.donations[i] != donation {
            assert(thread.donations[i].priority <= crate::thread::imp::PRI_MAX);
        }
    }
    lemma_refreshed_wf(after);
}

/// What is left of some donations is what others lent for other locks.
pub proof fn lemma_unlent_kept(donations: Seq<Donation>, lock_id: usize)
    ensures
        forall|d: Donation|
            donations.filter(for_other_lock(lock_id)).contains(d) <==> donations.contains(d)
                && d.lock_id != lock_id,
    decreases donations.len(),
{
    reveal(Seq::filter);
    let kept = donations.filter(for_other_lock(lock_id));
    if donations.len() > 0 {
        let rest = donations.drop_last();
        let last = donations.last();
        let kept_rest = rest.filter(for_other_lock(lock_id));
        lemma_unlent_kept(rest, lock_id);
        assert forall|d: Donation| kept.contains(d) <==> donations.contains(d) && d.lock_id
            != lock_id by {
            if donations.contains(d) && d.lock_id != lock_id {
                let i = choose|i: int| 0 <= i < donations.len() && donations[i] == d;
                if i < rest.len() {
                    assert(rest[i] == d);
                    assert(kept_rest.contains(d));
                    let k = choose|k: int| 0 <= k < kept_rest.len() && kept_rest[k] == d;
                    assert(kept[k] == d);
                } else {
                    assert(kept[kept_rest.len() as int] == d);
                }
            }
            if kept.contains(d) {
                let k = choose|k: int| 0 <= k < kept.len() && kept[k] == d;
                if k < kept_rest.len() {
                    assert(kept_rest[k] == d);
                    assert(rest.contains(d));
                    let i = choose|i: int| 0 <= i < rest.len() && rest[i] == d;
                    assert(donations[i] == d);
                } else {
                    assert(donations[donations.len() - 1] == d);
                }
            }
        }
    }
}

/// The end of donations keeps a thread in order.
pub proof fn lemma_thread_unlent_wf(thread: ThreadState, lock_id: usize)
    requires
        thread.wf(),
    ensures
        thread.unlent(lock_id).wf(),
{
    let after = ThreadState {
        donations: thread.donations.filter(for_other_lock(lock_id)),
        ..thread
    };
    lemma_unlent_kept(thread.donations, lock_id);
    assert forall|i: int| 0 <= i < after.donations.len() implies (
    #[trigger] after.donations[i]).priority <= crate::thread::imp::PRI_MAX by {
        let d = after.donations[i];
        assert(after.donations.contains(d));
        assert(thread.donations.contains(d));
        let k = choose|k: int| 0 <= k < thread.donations.len() && thread.donations[k] == d;
        assert(thread.donations[k].priority <= crate::thread::imp::PRI_MAX);
    }
    lemma_refreshed_wf(after);
}

/// A donation keeps the state in order.
pub proof fn lemma_lent_wf(s: ManagerState, tid: isize, donation: Donation)
    requires
        s.wf(),
        s.threads.contains_key(tid),
        donation.priority <= crate::thread::imp::PRI_MAX,
    ensures
        s.lent(tid, donation).wf(),
        s.lent(tid, donation).threads.dom() == s.threads.dom(),
{
    lemma_thread_lent_wf(s.threads[tid], donation);
    lemma_reprioritized_wf(s, tid, s.threads[tid].lent(donation));
    assert(s.lent(tid, donation).threads.dom() =~= s.threads.dom());
}

/// The end of donations keeps the state in order.
pub proof fn lemma_unlent_wf(s: ManagerState, tid: isize, lock_id: usize)
    requires
        s.wf(),
        s.threads.contains_key(tid),
    ensures
        s.unlent(tid, lock_id).wf(),
{
    lemma_thread_unlent_wf(s.threads[tid], lock_id);
    lemma_reprioritized_wf(s, tid, s.threads[tid].unlent(lock_id));
}

/// A new priority of its own for a thread keeps the state in order.
pub proof fn lemma_with_base_priority_wf(s: ManagerState, tid: isize, priority: u32)
    requires
        s.wf(),
        s.threads.contains_key(tid),
        priority <= crate::thread::imp::PRI_MAX,
    ensures
        s.with_base_priority(tid, priority).wf(),
{
    let before = ThreadState { base_priority: priority, ..s.threads[tid] };
    lemma_refreshed_wf(before);
    lemma_reprioritized_wf(s, tid, before.refreshed());
}

/// Whether a thread differs from what it was in what others lend it, and in the
/// priority that comes of it, at most.
pub open spec fn same_but_lent(before: ThreadState, after: ThreadState) -> bool {
    after == (ThreadState { priority: after.priority, donations: after.donations, ..before })
}

/// Lending along a chain keeps the state in order, and of each thread all but
/// its donations and its priority.
pub proof fn lemma_propagated_wf(s: ManagerState, tid: isize, steps: nat)
    requires
        s.wf(),
        s.threads.contains_key(tid),
    ensures
        s.propagated(tid, steps).wf(),
        s.propagated(tid, steps).threads.dom() == s.threads.dom(),
        s.propagated(tid, steps).current == s.current,
        s.propagated(tid, steps).holders == s.holders,
        s.propagated(tid, steps).next_lock == s.next_lock,
        forall|t: isize| #[trigger]
            s.threads.contains_key(t) ==> same_but_lent(
                s.threads[t],
                s.propagated(tid, steps).threads[t],
            ),
    decreases steps,
{
    match s.blocker(tid) {
        Some(holder) if steps > 0 => {
            lemma_lent_wf(s, holder, s.offer(tid));
            lemma_propagated_wf(s.lent(holder, s.offer(tid)), holder, (steps - 1) as nat);
        },
        _ => {},
    }
}

} // verus!
