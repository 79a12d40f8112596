//! # Condition variables
//!
//! A [`Condvar`] is able to block a thread so that it consumes no CPU time while
//! waiting for an event to occur. It is typically associated with a boolean
//! predicate (a condition) and a lock. The predicate is always verified inside
//! of the lock before determining that a thread must block, and the lock is held
//! while another thread is notified.

use std::collections::BTreeMap;
use std::collections::VecDeque;
use std::mem::swap;

use vstd::prelude::*;

use crate::sync::laws::law_notify_all_is_one_by_one;
use crate::sync::sema::{
    best_index, better, foremost, is_best, lemma_foremost, SemaState, Semaphore,
};
use crate::thread::imp::Status;
use crate::thread::manager::Manager;
use crate::thread::state::{ManagerState, Progress, Switch};

verus! {

/// A thread that waits to be notified, and the priority that it came with.
#[derive(Clone, Copy, Debug, PartialEq, Eq, Structural)]
pub struct Waiter {
    pub priority: u32,
    pub thread: isize,
}

/// Condition variable.
///
/// Every thread inside `wait` has a semaphore of its own here, which is raised to
/// notify it.
pub struct Condvar {
    waiters: VecDeque<Waiter>,
    semas: BTreeMap<isize, Semaphore>,
}

/// The threads that wait to be notified, in the order in which they came, and the
/// semaphores of all threads inside `wait`.
#[verifier::ext_equal]
pub struct CondvarState {
    pub waiters: Seq<Waiter>,
    pub semas: Map<isize, SemaState>,
}

/// What the parts of a condition variable say together.
spec fn state_of(waiters: VecDeque<Waiter>, semas: BTreeMap<isize, Semaphore>) -> CondvarState {
    CondvarState { waiters: waiters@, semas: semas@.map_values(|s: Semaphore| s@) }
}

impl View for Condvar {
    type V = CondvarState;

    closed spec fn view(&self) -> CondvarState {
        state_of(self.waiters, self.semas)
    }
}

/// How far a thread has got with waiting.
#[derive(Clone, Copy, Debug, PartialEq, Eq, Structural)]
pub enum Waiting {
    /// It comes to wait, and holds the lock.
    Enter,
    /// It has released the lock, or has been blocked and runs again.
    Released,
}

/// What a thread has to do next in order to wait.
#[derive(Clone, Copy, Debug, PartialEq, Eq, Structural)]
pub enum WaitAction {
    /// Release the lock, then call `wait` with `Waiting::Released`.
    ReleaseLock,
    /// It has been blocked: once it runs, call `wait` with `Waiting::Released`.
    Block(Option<Switch>),
    /// Acquire the lock again, and the wait is over.
    AcquireLock,
}

/// The priorities of some waiters.
pub open spec fn priorities(waiters: Seq<Waiter>) -> Seq<u32> {
    waiters.map_values(|w: Waiter| w.priority)
}

/// The threads of some waiters in the order in which they are notified: the most
/// urgent first, and those that are as urgent in the order in which they came.
pub open spec fn notify_order(waiters: Seq<Waiter>) -> Seq<isize>
    decreases waiters.len(),
{
    match foremost(priorities(waiters)) {
        Some(i) if 0 <= i < waiters.len() => seq![waiters[i].thread] + notify_order(
            waiters.remove(i),
        ),
        _ => Seq::empty(),
    }
}

/// Whether a thread has gone to sleep over its semaphore.
pub open spec fn asleep(semas: Map<isize, SemaState>) -> spec_fn(isize) -> bool {
    |t: isize| semas[t].waiters.len() > 0
}

impl CondvarState {
    /// Whether a thread waits to be notified.
    pub open spec fn queues(self, tid: isize) -> bool {
        exists|i: int| 0 <= i < self.waiters.len() && #[trigger] self.waiters[i].thread == tid
    }

    /// What every operation keeps: a thread waits to be notified at most once, its
    /// semaphore is zero until it is notified and one from then on, and nobody
    /// else waits for that semaphore.
    pub open spec fn wf(self) -> bool {
        &&& forall|i: int|
            0 <= i < self.waiters.len() ==> self.semas.contains_key(
                (#[trigger] self.waiters[i]).thread,
            )
        &&& forall|i: int, j: int|
            0 <= i < j < self.waiters.len() ==> (#[trigger] self.waiters[i]).thread != (
            #[trigger] self.waiters[j]).thread
        &&& forall|t: isize| #[trigger]
            self.semas.contains_key(t) ==> {
                &&& self.semas[t].waiters.len() == 0 || self.semas[t].waiters == seq![t]
                &&& self.queues(t) ==> self.semas[t].value == 0
                &&& !self.queues(t) ==> self.semas[t] == SemaState::fresh(1)
            }
    }

    /// Whether a thread can be notified: if it has gone to sleep it is blocked.
    pub open spec fn can_notify(self, manager: ManagerState, tid: isize) -> bool {
        self.semas[tid].waiters.len() > 0 ==> {
            &&& manager.threads.contains_key(tid)
            &&& manager.threads[tid].status == Status::Blocked
        }
    }

    /// Whether every thread that waits to be notified can be.
    pub open spec fn can_notify_all(self, manager: ManagerState) -> bool {
        forall|i: int|
            0 <= i < self.waiters.len() ==> self.can_notify(
                manager,
                (#[trigger] self.waiters[i]).thread,
            )
    }

    /// The thread that is notified next.
    pub open spec fn next_thread(self) -> Option<isize> {
        match foremost(priorities(self.waiters)) {
            Some(i) => Some(self.waiters[i].thread),
            None => None,
        }
    }

    /// Whether the thread that is notified next, if any, can be.
    pub open spec fn can_notify_next(self, manager: ManagerState) -> bool {
        match self.next_thread() {
            Some(tid) => self.can_notify(manager, tid),
            None => true,
        }
    }

    /// The condition variable after a thread has come to wait.
    pub open spec fn entered(self, waiter: Waiter) -> CondvarState {
        CondvarState {
            waiters: self.waiters.push(waiter),
            semas: self.semas.insert(waiter.thread, SemaState::fresh(0)),
        }
    }

    /// The condition variable after a thread inside `wait` has gone for its
    /// semaphore.
    pub open spec fn continued(self, tid: isize) -> CondvarState {
        CondvarState {
            semas: if self.semas[tid].value > 0 {
                self.semas.remove(tid)
            } else {
                self.semas.insert(tid, self.semas[tid].downed(tid))
            },
            ..self
        }
    }

    /// The condition variable after one thread has been notified.
    pub open spec fn notified(self) -> CondvarState {
        match foremost(priorities(self.waiters)) {
            Some(i) => CondvarState {
                waiters: self.waiters.remove(i),
                semas: self.semas.insert(self.waiters[i].thread, SemaState::fresh(1)),
            },
            None => self,
        }
    }

    /// The threads after one has been notified.
    pub open spec fn after_notify(self, manager: ManagerState) -> ManagerState {
        match self.next_thread() {
            Some(tid) if self.semas[tid].waiters.len() > 0 => manager.woken(tid),
            _ => manager,
        }
    }

    /// The condition variable after all threads have been notified.
    pub open spec fn all_notified(self) -> CondvarState {
        CondvarState {
            waiters: Seq::empty(),
            semas: self.semas.map_values(|s: SemaState| SemaState::fresh(1)),
        }
    }

    /// The threads after all have been notified.
    pub open spec fn after_notify_all(self, manager: ManagerState) -> ManagerState {
        manager.all_woken(notify_order(self.waiters).filter(asleep(self.semas)))
    }
}

/// A thread that comes to wait leaves the condition variable in order.
proof fn lemma_entered_wf(s: CondvarState, waiter: Waiter)
    requires
        s.wf(),
        !s.semas.contains_key(waiter.thread),
    ensures
        s.entered(waiter).wf(),
{
    let after = s.entered(waiter);
    assert forall|t: isize| #[trigger] after.queues(t) <==> s.queues(t) || t == waiter.thread by {
        if s.queues(t) {
            let i = choose|i: int| 0 <= i < s.waiters.len() && #[trigger] s.waiters[i].thread == t;
            assert(after.waiters[i].thread == t);
        }
        if t == waiter.thread {
            assert(after.waiters[s.waiters.len() as int].thread == t);
        }
        if after.queues(t) {
            let i = choose|i: int|
                0 <= i < after.waiters.len() && #[trigger] after.waiters[i].thread == t;
            if i < s.waiters.len() {
                assert(s.waiters[i].thread == t);
            }
        }
    }
    assert forall|i: int, j: int| 0 <= i < j < after.waiters.len() implies (
    #[trigger] after.waiters[i]).thread != (#[trigger] after.waiters[j]).thread by {
        assert(s.semas.contains_key(s.waiters[i].thread));
    }
}

/// A thread that goes for its semaphore leaves the condition variable in order.
proof fn lemma_continued_wf(s: CondvarState, tid: isize)
    requires
        s.wf(),
        s.semas.contains_key(tid),
    ensures
        s.continued(tid).wf(),
{
    let after = s.continued(tid);
    assert forall|t: isize| #[trigger] after.queues(t) <==> s.queues(t) by {
        if s.queues(t) {
            let i = choose|i: int| 0 <= i < s.waiters.len() && #[trigger] s.waiters[i].thread == t;
            assert(after.waiters[i].thread == t);
        }
        if after.queues(t) {
            let i = choose|i: int|
                0 <= i < after.waiters.len() && #[trigger] after.waiters[i].thread == t;
            assert(s.waiters[i].thread == t);
        }
    }
    if s.semas[tid].value > 0 {
        assert(!s.queues(tid));
        assert forall|i: int| 0 <= i < after.waiters.len() implies after.semas.contains_key(
            (#[trigger] after.waiters[i]).thread,
        ) by {
            assert(s.waiters[i].thread == tid ==> s.queues(tid));
        }
    } else {
        assert(s.queues(tid));
        let sema = s.semas[tid];
        if sema.waiters.len() == 0 {
            assert(sema.downed(tid).waiters =~= seq![tid]);
        } else {
            assert(sema.waiters[0] == tid);
        }
    }
}

/// Notifying a thread leaves the condition variable in order.
proof fn lemma_notified_wf(s: CondvarState)
    requires
        s.wf(),
        s.waiters.len() > 0,
    ensures
        s.notified().wf(),
        ({
            let i = foremost(priorities(s.waiters))->0;
            forall|t: isize| #[trigger]
                s.notified().queues(t) <==> s.queues(t) && t != s.waiters[i].thread
        }),
{
    lemma_foremost(priorities(s.waiters));
    let i = foremost(priorities(s.waiters))->0;
    let tid = s.waiters[i].thread;
    let after = s.notified();
    assert forall|t: isize| #[trigger] after.queues(t) <==> s.queues(t) && t != tid by {
        if s.queues(t) && t != tid {
            let k = choose|k: int| 0 <= k < s.waiters.len() && #[trigger] s.waiters[k].thread == t;
            if k < i {
                assert(after.waiters[k].thread == t);
            } else {
                assert(after.waiters[k - 1].thread == t);
            }
        }
        if after.queues(t) {
            let k = choose|k: int|
                0 <= k < after.waiters.len() && #[trigger] after.waiters[k].thread == t;
            if k < i {
                assert(s.waiters[k].thread == t);
            } else {
                assert(s.waiters[k + 1].thread == t);
            }
        }
    }
    assert forall|k: int, l: int| 0 <= k < l < after.waiters.len() implies (
    #[trigger] after.waiters[k]).thread != (#[trigger] after.waiters[l]).thread by {
        let a = if k < i { k } else { k + 1 };
        let b = if l < i { l } else { l + 1 };
        assert(s.waiters[a].thread != s.waiters[b].thread);
    }
    assert forall|k: int| 0 <= k < after.waiters.len() implies after.semas.contains_key(
        (#[trigger] after.waiters[k]).thread,
    ) by {
        let a = if k < i { k } else { k + 1 };
        assert(s.semas.contains_key(s.waiters[a].thread));
    }
}

impl Condvar {
    /// What every operation keeps.
    #[verifier::type_invariant]
    spec fn in_order(self) -> bool {
        self@.wf()
    }

    /// Nobody waits.
    pub fn new() -> (condvar: Self)
        ensures
            condvar@ == (CondvarState { waiters: Seq::empty(), semas: Map::empty() }),
            condvar@.wf(),
    {
        let waiters: VecDeque<Waiter> = VecDeque::new();
        let semas: BTreeMap<isize, Semaphore> = BTreeMap::new();
        assert(state_of(waiters, semas).semas =~= Map::empty());
        Condvar { waiters, semas }
    }

    /// Whether a thread is inside `wait`.
    pub fn inside(&self, tid: isize) -> (inside: bool)
        ensures
            inside == self@.semas.contains_key(tid),
    {
        self.semas.contains_key(&tid)
    }

    /// Makes the running thread wait until it is notified, one step at a time:
    /// each call says what the thread has to do next.
    pub fn wait(&mut self, manager: &mut Manager, stage: Waiting) -> (action: WaitAction)
        requires
            old(manager)@.wf(),
            stage == Waiting::Enter <==> !old(self)@.semas.contains_key(old(manager)@.current),
            stage == Waiting::Released ==> old(manager)@.running().status != Status::Ready,
        ensures
            final(self)@.wf(),
            final(manager)@.wf(),
            stage == Waiting::Enter ==> {
                &&& action == WaitAction::ReleaseLock
                &&& final(self)@ == old(self)@.entered(
                    (Waiter {
                        priority: old(manager)@.running().priority,
                        thread: old(manager)@.current,
                    }),
                )
                &&& final(manager)@ == old(manager)@
            },
            stage == Waiting::Released ==> {
                let sema = old(self)@.semas[old(manager)@.current];
                &&& action == (match sema.down_progress(old(manager)@) {
                    Progress::Done => WaitAction::AcquireLock,
                    Progress::Blocked(switch) => WaitAction::Block(switch),
                })
                &&& final(self)@ == old(self)@.continued(old(manager)@.current)
                &&& final(manager)@ == sema.after_down(old(manager)@)
            },
    {
        proof {
            use_type_invariant(&*self);
        }
        let current = manager.current_id();
        let mut condvar = Condvar::new();
        swap(&mut condvar, self);
        let Condvar { mut waiters, mut semas } = condvar;
        match stage {
            Waiting::Enter => {
                let priority = manager.thread(current).priority();
                let waiter = Waiter { priority, thread: current };
                let sema = Semaphore::new(0);
                let ghost fresh = sema@;
                waiters.push_back(waiter);
                semas.insert(current, sema);
                proof {
                    lemma_entered_wf(old(self)@, waiter);
                    assert(state_of(waiters, semas).semas =~= old(self)@.semas.insert(
                        current,
                        fresh,
                    ));
                }
                *self = Condvar { waiters, semas };
                WaitAction::ReleaseLock
            },
            Waiting::Released => {
                let mut sema = semas.remove(&current).unwrap();
                proof {
                    assert(sema@ == old(self)@.semas[current]);
                    lemma_continued_wf(old(self)@, current);
                }
                let progress = sema.down(manager);
                let ghost after = sema@;
                let action = match progress {
                    Progress::Done => WaitAction::AcquireLock,
                    Progress::Blocked(switch) => {
                        semas.insert(current, sema);
                        WaitAction::Block(switch)
                    },
                };
                assert(state_of(waiters, semas) =~= old(self)@.continued(current));
                *self = Condvar { waiters, semas };
                action
            },
        }
    }

    /// The position of the most urgent waiter, and of those the one that came
    /// first.
    pub fn highest_waiter_index(&self) -> (index: Option<usize>)
        ensures
            match index {
                Some(i) => foremost(priorities(self@.waiters)) == Some(i as int) && i
                    < self@.waiters.len(),
                None => foremost(priorities(self@.waiters)) is None,
            },
    {
        let ghost all = priorities(self@.waiters);
        let mut best: Option<(usize, u32)> = None;
        let mut i: usize = 0;
        while i < self.waiters.len()
            invariant
                i <= self.waiters@.len(),
                all == priorities(self@.waiters),
                is_best(best, all, i as int),
            decreases self.waiters@.len() - i,
        {
            best = better(best, i, self.waiters[i].priority, Ghost(all));
            i = i + 1;
        }
        best_index(best, Ghost(all))
    }

    /// Whether a thread that waits to be notified can be.
    fn can_notify(&self, manager: &Manager, tid: isize) -> (can: bool)
        requires
            self@.semas.contains_key(tid),
        ensures
            can == self@.can_notify(manager@, tid),
    {
        proof {
            use_type_invariant(self);
        }
        assert(self@.semas[tid] == self.semas@[tid]@);
        let sema = self.semas.get(&tid).unwrap();
        assert(sema@.waiters.len() > 0 ==> sema@.waiters[0] == tid);
        sema.all_blocked(manager)
    }

    /// Whether the thread that is notified next, if any, can be.
    pub fn can_notify_one(&self, manager: &Manager) -> (can: bool)
        ensures
            can == self@.can_notify_next(manager@),
    {
        proof {
            use_type_invariant(self);
        }
        match self.highest_waiter_index() {
            Some(i) => {
                assert(self.waiters@[i as int] == self@.waiters[i as int]);
                assert(self@.semas.contains_key(self@.waiters[i as int].thread));
                self.can_notify(manager, self.waiters[i].thread)
            },
            None => true,
        }
    }

    /// Whether every thread that waits to be notified can be.
    pub fn can_notify_all(&self, manager: &Manager) -> (can: bool)
        ensures
            can == self@.can_notify_all(manager@),
    {
        proof {
            use_type_invariant(self);
        }
        let mut i: usize = 0;
        while i < self.waiters.len()
            invariant
                self@.wf(),
                i <= self@.waiters.len(),
                forall|j: int|
                    0 <= j < i ==> self@.can_notify(
                        manager@,
                        (#[trigger] self@.waiters[j]).thread,
                    ),
            decreases self@.waiters.len() - i,
        {
            let tid = self.waiters[i].thread;
            assert(tid == self@.waiters[i as int].thread);
            assert(self@.semas.contains_key(tid));
            if !self.can_notify(manager, tid) {
                return false;
            }
            i = i + 1;
        }
        true
    }

    /// Wakes up one thread from the waiting list.
    pub fn notify_one(&mut self, manager: &mut Manager)
        requires
            old(manager)@.wf(),
            old(self)@.can_notify_next(old(manager)@),
        ensures
            final(self)@ == old(self)@.notified(),
            final(manager)@ == old(self)@.after_notify(old(manager)@),
            final(self)@.wf(),
            final(manager)@.wf(),
    {
        proof {
            use_type_invariant(&*self);
        }
        match self.highest_waiter_index() {
            Some(i) => {
                proof {
                    lemma_notified_wf(self@);
                }
                let mut condvar = Condvar::new();
                swap(&mut condvar, self);
                let Condvar { mut waiters, mut semas } = condvar;
                let waiter = waiters.remove(i).unwrap();
                let tid = waiter.thread;
                assert(waiter == old(self)@.waiters[i as int]);
                assert(old(self)@.queues(tid));
                let mut sema = semas.remove(&tid).unwrap();
                let ghost before = sema@;
                proof {
                    assert(before == old(self)@.semas[tid]);
                    if before.waiters.len() > 0 {
                        lemma_foremost(before.priorities(manager@));
                    }
                }
                sema.up(manager);
                assert(sema@ =~= SemaState::fresh(1));
                semas.insert(tid, sema);
                assert(state_of(waiters, semas) =~= old(self)@.notified());
                *self = Condvar { waiters, semas };
            },
            None => {},
        }
    }

    /// Wakes up all waiting threads.
    pub fn notify_all(&mut self, manager: &mut Manager)
        requires
            old(manager)@.wf(),
            old(self)@.can_notify_all(old(manager)@),
        ensures
            final(self)@ == old(self)@.all_notified(),
            final(manager)@ == old(self)@.after_notify_all(old(manager)@),
            final(self)@.wf(),
            final(manager)@.wf(),
    {
        proof {
            use_type_invariant(&*self);
        }
        while self.highest_waiter_index().is_some()
            invariant
                self@.wf(),
                manager@.wf(),
                self@.all_notified() == old(self)@.all_notified(),
                self@.after_notify_all(manager@) == old(self)@.after_notify_all(old(manager)@),
                self@.can_notify_all(manager@),
            decreases self@.waiters.len(),
        {
            let ghost before = self@;
            let ghost threads = manager@;
            proof {
                lemma_foremost(priorities(before.waiters));
                law_notify_all_is_one_by_one(before, threads);
            }
            self.notify_one(manager);
        }
    }
}

} // verus!
