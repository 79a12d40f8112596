//! Counting semaphores.

use std::collections::VecDeque;

use vstd::prelude::*;

use crate::thread;
use crate::thread::imp::Status;
use crate::thread::manager::Manager;
use crate::thread::scheduler::priority::{copy_queue, remove_thread, without};
use crate::thread::state::{ManagerState, Progress};

verus! {

/// Atomic counting semaphore.
///
/// Each method runs with interrupts disabled.
pub struct Semaphore {
    value: usize,
    waiters: VecDeque<isize>,
}

/// The value of a semaphore and the threads that wait for it to rise, in the
/// order in which they came.
#[verifier::ext_equal]
pub struct SemaState {
    pub value: usize,
    pub waiters: Seq<isize>,
}

impl View for Semaphore {
    type V = SemaState;

    closed spec fn view(&self) -> SemaState {
        SemaState { value: self.value, waiters: self.waiters@ }
    }
}

/// Whether `priorities[i]` is the highest one, and the first of those that are
/// as high.
pub open spec fn is_foremost(priorities: Seq<u32>, i: int) -> bool {
    &&& 0 <= i < priorities.len()
    &&& forall|j: int| 0 <= j < i ==> #[trigger] priorities[j] < priorities[i]
    &&& forall|j: int| i <= j < priorities.len() ==> #[trigger] priorities[j] <= priorities[i]
}

/// The first of the highest priorities.
pub open spec fn foremost(priorities: Seq<u32>) -> Option<int> {
    if priorities.len() == 0 {
        None
    } else {
        Some(choose|i: int| is_foremost(priorities, i))
    }
}

/// There is no more than one foremost priority.
pub proof fn lemma_foremost_is(priorities: Seq<u32>, i: int)
    requires
        is_foremost(priorities, i),
    ensures
        foremost(priorities) == Some(i),
{
    let k = choose|k: int| is_foremost(priorities, k);
    assert(is_foremost(priorities, k));
    if k < i {
        assert(priorities[k] < priorities[i]);
    } else if i < k {
        assert(priorities[i] < priorities[k]);
    }
}

/// With one more priority the foremost one stays, unless the new one is higher.
pub proof fn lemma_foremost_extends(priorities: Seq<u32>, i: int, best: int)
    requires
        0 <= i < priorities.len(),
        i == 0 || is_foremost(priorities.take(i), best),
    ensures
        i == 0 || priorities[i] > priorities[best] ==> is_foremost(priorities.take(i + 1), i),
        i > 0 && priorities[i] <= priorities[best] ==> is_foremost(priorities.take(i + 1), best),
{
    let before = priorities.take(i);
    let after = priorities.take(i + 1);
    assert forall|j: int| 0 <= j < i implies #[trigger] after[j] == before[j] by {}
    if i == 0 || priorities[i] > priorities[best] {
        assert forall|j: int| 0 <= j < i implies #[trigger] after[j] < after[i] by {
            assert(before[j] <= before[best]);
        }
    } else {
        assert forall|j: int| 0 <= j < best implies #[trigger] after[j] < after[best] by {
            assert(before[j] < before[best]);
        }
        assert forall|j: int| best <= j < after.len() implies #[trigger] after[j]
            <= after[best] by {
            if j < i {
                assert(before[j] <= before[best]);
            }
        }
    }
}

/// Whether `best` holds the place and the value of the foremost of the first `n`
/// priorities.
pub(crate) open spec fn is_best(best: Option<(usize, u32)>, priorities: Seq<u32>, n: int) -> bool {
    match best {
        Some((k, p)) => k < n && p == priorities[k as int] && is_foremost(
            priorities.take(n),
            k as int,
        ),
        None => n == 0,
    }
}

/// The foremost priority after one more has been looked at.
pub(crate) fn better(
    best: Option<(usize, u32)>,
    i: usize,
    priority: u32,
    Ghost(priorities): Ghost<Seq<u32>>,
) -> (after: Option<(usize, u32)>)
    requires
        is_best(best, priorities, i as int),
        i < priorities.len(),
        priority == priorities[i as int],
    ensures
        is_best(after, priorities, i + 1),
{
    let better = match best {
        Some((_, p)) => priority > p,
        None => true,
    };
    proof {
        let k = match best {
            Some((k, _)) => k as int,
            None => 0,
        };
        lemma_foremost_extends(priorities, i as int, k);
    }
    if better {
        Some((i, priority))
    } else {
        best
    }
}

/// The place of the foremost priority after all have been looked at.
pub(crate) fn best_index(
    best: Option<(usize, u32)>,
    Ghost(priorities): Ghost<Seq<u32>>,
) -> (index: Option<usize>)
    requires
        is_best(best, priorities, priorities.len() as int),
    ensures
        match index {
            Some(i) => foremost(priorities) == Some(i as int) && i < priorities.len(),
            None => foremost(priorities) is None,
        },
{
    assert(priorities.take(priorities.len() as int) =~= priorities);
    match best {
        Some((k, _)) => {
            proof {
                lemma_foremost_is(priorities, k as int);
            }
            Some(k)
        },
        None => None,
    }
}

/// Where there are priorities, one is foremost.
pub proof fn lemma_foremost(priorities: Seq<u32>)
    requires
        priorities.len() > 0,
    ensures
        foremost(priorities) is Some,
        is_foremost(priorities, foremost(priorities)->0),
    decreases priorities.len(),
{
    let last = priorities.len() - 1;
    let rest = priorities.drop_last();
    if rest.len() == 0 {
        assert(is_foremost(priorities, 0));
    } else {
        lemma_foremost(rest);
        let i = foremost(rest)->0;
        if priorities[last] > rest[i] {
            assert forall|j: int| 0 <= j < last implies #[trigger] priorities[j]
                < priorities[last] by {
                assert(rest[j] == priorities[j]);
                if j < i {
                    assert(rest[j] < rest[i]);
                } else {
                    assert(rest[j] <= rest[i]);
                }
            }
            assert(is_foremost(priorities, last));
        } else {
            assert forall|j: int| 0 <= j < i implies #[trigger] priorities[j] < priorities[i] by {
                assert(rest[j] == priorities[j]);
            }
            assert forall|j: int| i <= j < priorities.len() implies #[trigger] priorities[j]
                <= priorities[i] by {
                if j < last {
                    assert(rest[j] == priorities[j]);
                }
            }
            assert(is_foremost(priorities, i));
        }
    }
}

impl SemaState {
    /// A semaphore that nobody waits for.
    pub open spec fn fresh(value: usize) -> SemaState {
        SemaState { value, waiters: Seq::empty() }
    }

    /// Whether the manager knows every waiter.
    pub open spec fn known(self, manager: ManagerState) -> bool {
        forall|i: int|
            0 <= i < self.waiters.len() ==> manager.threads.contains_key(#[trigger] self.waiters[i])
    }

    /// Whether every waiter is blocked.
    pub open spec fn all_blocked(self, manager: ManagerState) -> bool {
        &&& self.known(manager)
        &&& forall|i: int|
            0 <= i < self.waiters.len() ==> manager.threads[
            #[trigger] self.waiters[i]].status == Status::Blocked
    }

    /// Whether every waiter is there once and is blocked.
    pub open spec fn in_order(self, manager: ManagerState) -> bool {
        self.waiters.no_duplicates() && self.all_blocked(manager)
    }

    /// The priorities of the waiters as they are now.
    pub open spec fn priorities(self, manager: ManagerState) -> Seq<u32> {
        self.waiters.map_values(|t: isize| manager.threads[t].priority)
    }

    /// The position of the waiter that is woken up next: the most urgent one, and
    /// of those the one that came first.
    pub open spec fn highest(self, manager: ManagerState) -> Option<int> {
        foremost(self.priorities(manager))
    }

    /// The waiter that is woken up next.
    pub open spec fn next_waiter(self, manager: ManagerState) -> Option<isize> {
        match self.highest(manager) {
            Some(i) => Some(self.waiters[i]),
            None => None,
        }
    }

    /// The semaphore after the waiter that is woken up next has left.
    pub open spec fn popped(self, manager: ManagerState) -> SemaState {
        match self.highest(manager) {
            Some(i) => SemaState { waiters: self.waiters.remove(i), ..self },
            None => self,
        }
    }

    /// Whether `up` may be called: the value can rise, nobody waits for a value
    /// that is above zero already, and the thread to be woken up is blocked.
    pub open spec fn can_up(self, manager: ManagerState) -> bool {
        &&& self.value < usize::MAX
        &&& self.known(manager)
        &&& self.waiters.len() > 0 ==> {
            &&& self.value == 0
            &&& manager.threads[self.next_waiter(manager)->0].status == Status::Blocked
        }
    }

    /// The semaphore after `up`.
    pub open spec fn upped(self, manager: ManagerState) -> SemaState {
        SemaState { value: (self.value + 1) as usize, ..self.popped(manager) }
    }

    /// The threads after `up`.
    pub open spec fn after_up(self, manager: ManagerState) -> ManagerState {
        match self.next_waiter(manager) {
            Some(tid) => manager.woken(tid),
            None => manager,
        }
    }

    /// The semaphore after `tid` has called `down`, which succeeds if and only if
    /// the value is above zero.
    pub open spec fn downed(self, tid: isize) -> SemaState {
        if self.value > 0 {
            SemaState { value: (self.value - 1) as usize, waiters: without(self.waiters, tid) }
        } else if self.waiters.contains(tid) {
            self
        } else {
            SemaState { waiters: self.waiters.push(tid), ..self }
        }
    }

    /// The threads after the running one has called `down`.
    pub open spec fn after_down(self, manager: ManagerState) -> ManagerState {
        if self.value > 0 {
            manager
        } else {
            manager.stopped(Status::Blocked).scheduled()
        }
    }

    /// What `down` answers.
    pub open spec fn down_progress(self, manager: ManagerState) -> Progress {
        if self.value > 0 {
            Progress::Done
        } else {
            Progress::Blocked(manager.stopped(Status::Blocked).switch())
        }
    }
}

impl Clone for Semaphore {
    /// A semaphore of the same value, with the same waiters.
    fn clone(&self) -> (copy: Self)
        ensures
            copy@ == self@,
    {
        Semaphore { value: self.value, waiters: copy_queue(&self.waiters) }
    }
}

impl Semaphore {
    /// Creates a new semaphore of initial value n.
    pub fn new(n: usize) -> (sema: Self)
        ensures
            sema@ == SemaState::fresh(n),
    {
        Semaphore { value: n, waiters: VecDeque::new() }
    }

    /// Whether a thread is among the waiters.
    fn waits(&self, tid: isize) -> (waits: bool)
        ensures
            waits == self@.waiters.contains(tid),
    {
        let mut i: usize = 0;
        while i < self.waiters.len()
            invariant
                i <= self.waiters@.len(),
                forall|j: int| 0 <= j < i ==> #[trigger] self.waiters@[j] != tid,
            decreases self.waiters@.len() - i,
        {
            if self.waiters[i] == tid {
                return true;
            }
            i = i + 1;
        }
        false
    }

    /// P operation.
    ///
    /// Takes one from the value, or blocks the running thread where the value is
    /// zero. A thread that has been blocked here calls again when it runs.
    pub fn down(&mut self, manager: &mut Manager) -> (progress: Progress)
        requires
            old(manager)@.wf(),
            old(self)@.value == 0 ==> old(manager)@.running().status != Status::Ready,
        ensures
            final(self)@ == old(self)@.downed(old(manager)@.current),
            final(manager)@ == old(self)@.after_down(old(manager)@),
            progress == old(self)@.down_progress(old(manager)@),
            final(manager)@.wf(),
    {
        let current = manager.current_id();
        if self.value == 0 {
            // A thread may be woken by something else before this semaphore is
            // signaled; it does not join the waiters twice.
            if !self.waits(current) {
                self.waiters.push_back(current);
            }
            return Progress::Blocked(thread::block(manager));
        }
        self.waiters = remove_thread(&self.waiters, current);
        self.value = self.value - 1;
        Progress::Done
    }

    /// The position of the most urgent waiter, and of those the one that came
    /// first.
    pub fn highest_waiter_index(&self, manager: &Manager) -> (index: Option<usize>)
        requires
            self@.known(manager@),
        ensures
            match index {
                Some(i) => self@.highest(manager@) == Some(i as int) && i < self@.waiters.len(),
                None => self@.highest(manager@) is None,
            },
    {
        let ghost priorities = self@.priorities(manager@);
        let mut best: Option<(usize, u32)> = None;
        let mut i: usize = 0;
        while i < self.waiters.len()
            invariant
                i <= self.waiters@.len(),
                self@.known(manager@),
                priorities == self@.priorities(manager@),
                is_best(best, priorities, i as int),
            decreases self.waiters@.len() - i,
        {
            assert(self@.waiters[i as int] == self.waiters@[i as int]);
            let priority = manager.thread(self.waiters[i]).priority();
            best = better(best, i, priority, Ghost(priorities));
            i = i + 1;
        }
        best_index(best, Ghost(priorities))
    }

    /// Takes the most urgent waiter out.
    fn pop_highest_waiter(&mut self, manager: &Manager) -> (waiter: Option<isize>)
        requires
            old(self)@.known(manager@),
        ensures
            waiter == old(self)@.next_waiter(manager@),
            final(self)@ == old(self)@.popped(manager@),
    {
        match self.highest_waiter_index(manager) {
            Some(i) => self.waiters.remove(i),
            None => None,
        }
    }

    /// Highest priority among current waiters.
    pub fn max_priority(&self, manager: &Manager) -> (highest: Option<u32>)
        requires
            self@.known(manager@),
        ensures
            match highest {
                Some(p) => {
                    &&& self@.priorities(manager@).contains(p)
                    &&& forall|i: int|
                        0 <= i < self@.waiters.len() ==> #[trigger] self@.priorities(manager@)[i]
                            <= p
                },
                None => self@.waiters.len() == 0,
            },
    {
        match self.highest_waiter_index(manager) {
            Some(i) => {
                proof {
                    let priorities = self@.priorities(manager@);
                    lemma_foremost(priorities);
                    assert forall|j: int| 0 <= j < priorities.len() implies #[trigger] priorities[j]
                        <= priorities[i as int] by {}
                    assert(self@.waiters[i as int] == self.waiters@[i as int]);
                }
                Some(manager.thread(self.waiters[i]).priority())
            },
            None => None,
        }
    }

    /// V operation.
    pub fn up(&mut self, manager: &mut Manager)
        requires
            old(manager)@.wf(),
            old(self)@.can_up(old(manager)@),
        ensures
            final(self)@ == old(self)@.upped(old(manager)@),
            final(manager)@ == old(self)@.after_up(old(manager)@),
            final(manager)@.wf(),
    {
        proof {
            if self@.waiters.len() > 0 {
                lemma_foremost(self@.priorities(manager@));
            }
        }
        let waiter = self.pop_highest_waiter(manager);
        self.value = self.value + 1;
        match waiter {
            Some(tid) => thread::wake_up(manager, tid),
            None => {},
        }
    }

    /// Whether every waiter is blocked.
    pub fn all_blocked(&self, manager: &Manager) -> (blocked: bool)
        ensures
            blocked == self@.all_blocked(manager@),
    {
        let mut i: usize = 0;
        while i < self.waiters.len()
            invariant
                i <= self.waiters@.len(),
                forall|j: int|
                    0 <= j < i ==> manager@.threads.contains_key(#[trigger] self.waiters@[j])
                        && manager@.threads[self.waiters@[j]].status == Status::Blocked,
            decreases self.waiters@.len() - i,
        {
            assert(self@.waiters[i as int] == self.waiters@[i as int]);
            let blocked = match manager.get(self.waiters[i]) {
                Some(thread) => thread.status() == Status::Blocked,
                None => false,
            };
            if !blocked {
                return false;
            }
            i = i + 1;
        }
        true
    }

    /// Whether the manager knows every waiter.
    fn known(&self, manager: &Manager) -> (known: bool)
        ensures
            known == self@.known(manager@),
    {
        let mut i: usize = 0;
        while i < self.waiters.len()
            invariant
                i <= self.waiters@.len(),
                forall|j: int|
                    0 <= j < i ==> manager@.threads.contains_key(#[trigger] self.waiters@[j]),
            decreases self.waiters@.len() - i,
        {
            assert(self@.waiters[i as int] == self.waiters@[i as int]);
            if manager.get(self.waiters[i]).is_none() {
                return false;
            }
            i = i + 1;
        }
        true
    }

    /// Whether `up` may be called.
    pub fn can_up(&self, manager: &Manager) -> (can: bool)
        ensures
            can == self@.can_up(manager@),
    {
        if !self.known(manager) || self.value == usize::MAX {
            return false;
        }
        match self.highest_waiter_index(manager) {
            Some(i) => {
                assert(self@.waiters[i as int] == self.waiters@[i as int]);
                self.value == 0 && manager.thread(self.waiters[i]).status() == Status::Blocked
            },
            None => true,
        }
    }

    /// The current value of a semaphore.
    pub fn value(&self) -> (value: usize)
        ensures
            value == self@.value,
    {
        self.value
    }
}

} // verus!
