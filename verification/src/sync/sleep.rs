//! Sleep locks.

use vstd::prelude::*;

use crate::sync::sema::{SemaState, Semaphore};
use crate::thread::imp::Status;
use crate::thread::manager::Manager;
use crate::thread::state::{lemma_propagated_wf, lemma_unlent_wf, ManagerState, Progress};

verus! {

/// Sleep lock. Uses [`Semaphore`] under the hood.
///
/// The manager knows who holds it, under the lock's id.
pub struct Sleep {
    id: usize,
    inner: Semaphore,
}

/// The id of a sleep lock, and the semaphore that is one while the lock is free.
#[verifier::ext_equal]
pub struct SleepState {
    pub id: usize,
    pub inner: SemaState,
}

/// How far a thread has got with acquiring a lock.
#[derive(Clone, Copy, Debug, PartialEq, Eq, Structural)]
pub enum Acquiring {
    /// It comes for the lock.
    Enter,
    /// It has been blocked over the lock and runs again.
    Waiting,
}

impl View for Sleep {
    type V = SleepState;

    closed spec fn view(&self) -> SleepState {
        SleepState { id: self.id, inner: self.inner@ }
    }
}

impl SleepState {
    /// Whether somebody holds the lock.
    pub open spec fn held(self, manager: ManagerState) -> bool {
        manager.holders.contains_key(self.id)
    }

    /// What relates the lock to its holder: the semaphore is zero while the lock is
    /// held and one while it is free.
    pub open spec fn agrees(self, manager: ManagerState) -> bool {
        self.inner.value == (if self.held(manager) {
            0usize
        } else {
            1usize
        })
    }

    /// What relates the lock to its holder and its waiters: whoever waits does so once
    /// and is blocked.
    pub open spec fn inv(self, manager: ManagerState) -> bool {
        self.agrees(manager) && self.inner.in_order(manager)
    }

    /// The threads after the running one has come for the lock: where it is held,
    /// the holder gets the priority of the one who has to wait.
    pub open spec fn announced(self, manager: ManagerState, stage: Acquiring) -> ManagerState {
        if stage == Acquiring::Enter && self.held(manager) {
            manager.with_waiting_lock(manager.current, Some(self.id)).fully_propagated(
                manager.current,
            )
        } else {
            manager
        }
    }

    /// The lock after the running thread has tried to acquire it.
    pub open spec fn acquired(self, manager: ManagerState) -> SleepState {
        SleepState { inner: self.inner.downed(manager.current), ..self }
    }

    /// The threads after the running one has tried to acquire the lock.
    pub open spec fn after_acquire(self, manager: ManagerState, stage: Acquiring) -> ManagerState {
        let announced = self.announced(manager, stage);
        if self.inner.value > 0 {
            announced.with_waiting_lock(manager.current, None).held_by(self.id, manager.current)
        } else {
            announced.stopped(Status::Blocked).scheduled()
        }
    }

    /// Whether the running thread holds the lock and the thread that it would pass it on
    /// to, if any, is blocked.
    pub open spec fn releasable(self, manager: ManagerState) -> bool {
        &&& self.held(manager)
        &&& manager.holders[self.id] == manager.current
        &&& self.inner.can_up(self.leaving(manager))
    }

    /// The threads just before the semaphore of a lock that the running one lets
    /// go is raised: what others lent it for the lock has lapsed, and the lock has
    /// no holder.
    pub open spec fn leaving(self, manager: ManagerState) -> ManagerState {
        let unlent = manager.unlent(manager.current, self.id);
        let passed_on = if unlent.running().waiting_lock is Some {
            unlent.fully_propagated(manager.current)
        } else {
            unlent
        };
        passed_on.let_go(self.id)
    }

    /// The lock after the running thread has let it go.
    pub open spec fn released(self, manager: ManagerState) -> SleepState {
        SleepState { inner: self.inner.upped(self.leaving(manager)), ..self }
    }

    /// The threads after the running one has let the lock go.
    pub open spec fn after_release(self, manager: ManagerState) -> ManagerState {
        self.inner.after_up(self.leaving(manager))
    }
}

/// Coming for a lock keeps the manager in order.
pub proof fn lemma_announced_wf(lock: SleepState, manager: ManagerState, stage: Acquiring)
    requires
        manager.wf(),
    ensures
        lock.announced(manager, stage).wf(),
        lock.announced(manager, stage).current == manager.current,
        lock.announced(manager, stage).holders == manager.holders,
        lock.announced(manager, stage).next_lock == manager.next_lock,
        lock.announced(manager, stage).threads.dom() == manager.threads.dom(),
        forall|t: isize| #[trigger]
            manager.threads.contains_key(t) ==> lock.announced(manager, stage).threads[t].status
                == manager.threads[t].status,
{
    if stage == Acquiring::Enter && lock.held(manager) {
        let current = manager.current;
        let waiting = manager.with_waiting_lock(current, Some(lock.id));
        crate::thread::state::lemma_with_thread_wf(manager, current, waiting.threads[current]);
        lemma_propagated_wf(waiting, current, waiting.threads.dom().len());
        assert(waiting.threads.dom() =~= manager.threads.dom());
        assert forall|t: isize| #[trigger]
            manager.threads.contains_key(t) implies lock.announced(
            manager,
            stage,
        ).threads[t].status == manager.threads[t].status by {
            assert(waiting.threads.contains_key(t));
        }
    }
}

impl Sleep {
    /// A free lock, with an id that no other lock has.
    pub fn new(manager: &mut Manager) -> (lock: Self)
        requires
            old(manager)@.wf(),
            old(manager)@.next_lock < usize::MAX,
        ensures
            lock@ == (SleepState { id: old(manager)@.next_lock, inner: SemaState::fresh(1) }),
            final(manager)@ == old(manager)@.lock_made(),
            lock@.inv(final(manager)@),
            final(manager)@.wf(),
    {
        Sleep { id: manager.make_lock(), inner: Semaphore::new(1) }
    }

    /// A lock of its own, with an id that no other lock has, which starts out with the
    /// holder and the waiters of this one.
    pub fn clone_in(&self, manager: &mut Manager) -> (copy: Self)
        requires
            old(manager)@.wf(),
            old(manager)@.next_lock < usize::MAX,
        ensures
            copy@ == (SleepState { id: old(manager)@.next_lock, inner: self@.inner }),
            final(manager)@ == old(manager)@.lock_copied(self@.id),
            final(manager)@.wf(),
    {
        Sleep { id: manager.copy_lock(self.id), inner: self.inner.clone() }
    }

    /// The id of the lock.
    pub fn id(&self) -> (id: usize)
        ensures
            id == self@.id,
    {
        self.id
    }

    /// Acquires the lock for the running thread, or blocks it where somebody else
    /// holds the lock. A thread that has been blocked here calls again when it
    /// runs, with `Acquiring::Waiting`.
    pub fn acquire(&mut self, manager: &mut Manager, stage: Acquiring) -> (progress: Progress)
        requires
            old(manager)@.wf(),
            old(self)@.id < old(manager)@.next_lock,
            old(self)@.inner.value == 0 ==> old(manager)@.running().status != Status::Ready,
        ensures
            final(self)@ == old(self)@.acquired(old(manager)@),
            final(manager)@ == old(self)@.after_acquire(old(manager)@, stage),
            progress == old(self)@.inner.down_progress(
                old(self)@.announced(old(manager)@, stage),
            ),
            final(manager)@.wf(),
    {
        proof {
            lemma_announced_wf(self@, manager@, stage);
            assert(manager@.threads.contains_key(manager@.current));
        }
        let current = manager.current_id();
        if stage == Acquiring::Enter && manager.holder_of(self.id).is_some() {
            manager.set_waiting_lock(current, Some(self.id));
            manager.propagate_priority(current);
        }
        match self.inner.down(manager) {
            Progress::Done => {
                manager.set_waiting_lock(current, None);
                manager.set_holder(self.id, current);
                Progress::Done
            },
            Progress::Blocked(switch) => Progress::Blocked(switch),
        }
    }

    /// What comes before the semaphore of a lock that is let go is raised.
    fn leave(&self, manager: &mut Manager)
        requires
            old(manager)@.wf(),
        ensures
            final(manager)@ == self@.leaving(old(manager)@),
            final(manager)@.wf(),
    {
        let current = manager.current_id();
        proof {
            lemma_unlent_wf(manager@, current, self@.id);
        }
        manager.remove_donations_for_lock(current, self.id);
        if manager.thread(current).waiting_lock().is_some() {
            manager.propagate_priority(current);
        }
        manager.clear_holder(self.id);
    }

    /// Whether the running thread can let the lock go. Who would be woken up depends on
    /// the donations that lapse, so this is tried on a copy of the threads.
    pub fn can_release(&self, manager: &Manager) -> (can: bool)
        requires
            manager@.wf(),
        ensures
            can == self@.releasable(manager@),
    {
        if manager.holder_of(self.id) != Some(manager.current_id()) {
            return false;
        }
        let mut trial = manager.clone();
        self.leave(&mut trial);
        self.inner.can_up(&trial)
    }

    /// Lets the lock go.
    pub fn release(&mut self, manager: &mut Manager)
        requires
            old(manager)@.wf(),
            old(self)@.releasable(old(manager)@),
        ensures
            final(self)@ == old(self)@.released(old(manager)@),
            final(manager)@ == old(self)@.after_release(old(manager)@),
            final(manager)@.wf(),
    {
        self.leave(manager);
        self.inner.up(manager);
    }
}

} // verus!
