//! What holds of blocking synchronisation as a whole.

use vstd::prelude::*;

use crate::sync::condvar::{asleep, notify_order, priorities, CondvarState, Waiter};
use crate::sync::sema::{foremost, is_foremost, lemma_foremost, lemma_foremost_is, SemaState};
use crate::sync::sleep::{lemma_announced_wf, Acquiring, SleepState};
use crate::thread::imp::{ContextState, Donation, Status, ThreadState};
use crate::thread::laws::{
    is_highest, law_donation_is_the_waiters_priority, law_donation_reaches_all_holders,
    law_effective_priority, law_lent_thread, law_most_urgent_is_next, law_release_ends_donations,
    law_unlent_thread, law_woken_are_ready, lemma_without_is_remove, waits_along, waits_for_next,
};
use crate::thread::scheduler::priority::lemma_without;
use crate::thread::state::{
    lemma_propagated_wf, lemma_scheduled_wf, lemma_unlent_wf, lemma_with_status_wf,
    lemma_with_thread_wf, ManagerState, Progress,
};

verus! {

/* -------------------------------- Semaphores ------------------------------- */

/// `up` wakes up the most urgent waiter, of several that are as urgent the one that
/// came first, and leaves the others waiting in their order.
pub proof fn law_up_wakes_foremost(sema: SemaState, manager: ManagerState)
    requires
        sema.can_up(manager),
        sema.waiters.len() > 0,
    ensures
        sema.next_waiter(manager) is Some,
        ({
            let i = sema.highest(manager)->0;
            let woken = sema.next_waiter(manager)->0;
            &&& 0 <= i < sema.waiters.len()
            &&& sema.waiters[i] == woken
            &&& forall|j: int|
                0 <= j < sema.waiters.len() ==> manager.threads[
                #[trigger] sema.waiters[j]].priority <= manager.threads[woken].priority
            &&& forall|j: int|
                0 <= j < i ==> manager.threads[#[trigger] sema.waiters[j]].priority
                    < manager.threads[woken].priority
            &&& sema.upped(manager).waiters == sema.waiters.remove(i)
            &&& sema.after_up(manager).threads[woken].status == Status::Ready
        }),
{
    let levels = sema.priorities(manager);
    lemma_foremost(levels);
    let i = sema.highest(manager)->0;
    assert forall|j: int| 0 <= j < sema.waiters.len() implies manager.threads[
    #[trigger] sema.waiters[j]].priority <= manager.threads[sema.waiters[i]].priority by {
        assert(levels[j] == manager.threads[sema.waiters[j]].priority);
        assert(levels[i] == manager.threads[sema.waiters[i]].priority);
    }
    assert forall|j: int| 0 <= j < i implies manager.threads[#[trigger] sema.waiters[j]].priority
        < manager.threads[sema.waiters[i]].priority by {
        assert(levels[j] == manager.threads[sema.waiters[j]].priority);
        assert(levels[i] == manager.threads[sema.waiters[i]].priority);
    }
}

/// `up` lets one more `down` through, and that takes back what `up` has given.
pub proof fn law_down_takes_what_up_gives(sema: SemaState, manager: ManagerState, tid: isize)
    requires
        sema.can_up(manager),
    ensures
        sema.upped(manager).value == sema.value + 1,
        sema.upped(manager).down_progress(manager) == Progress::Done,
        sema.upped(manager).downed(tid).value == sema.value,
{
}

/// A `down` that cannot be let through leaves the value alone and the thread blocked,
/// among the waiters.
pub proof fn law_down_on_zero_blocks(sema: SemaState, manager: ManagerState)
    requires
        manager.wf(),
        manager.running().status != Status::Ready,
        sema.value == 0,
    ensures
        sema.downed(manager.current).value == 0,
        sema.downed(manager.current).waiters.contains(manager.current),
        sema.after_down(manager).threads[manager.current].status == Status::Blocked,
        sema.down_progress(manager) is Blocked,
{
    let after = sema.downed(manager.current);
    if !sema.waiters.contains(manager.current) {
        assert(after.waiters[sema.waiters.len() as int] == manager.current);
    }
    lemma_stopped(manager, Status::Blocked);
}

/// A running thread that stops stays so while the processor is handed on, and so does
/// every other thread that is blocked.
pub proof fn lemma_stopped(manager: ManagerState, status: Status)
    requires
        manager.wf(),
        manager.running().status != Status::Ready,
        status == Status::Blocked || status == Status::Dying,
    ensures
        ({
            let after = manager.stopped(status).scheduled();
            &&& after.wf()
            &&& after.threads.dom() == manager.threads.dom()
            &&& after.threads[manager.current].status == status
            &&& after.holders == manager.holders
            &&& forall|t: isize|
                #![trigger after.threads[t]]
                manager.threads.contains_key(t) && manager.threads[t].status == Status::Blocked
                    && t != manager.current ==> after.threads[t].status == Status::Blocked
        }),
{
    let stopped = manager.stopped(status);
    lemma_with_status_wf(manager, manager.current, status);
    lemma_scheduled_wf(stopped);
    if stopped.next() is Some {
        law_most_urgent_is_next(stopped, stopped.next()->0);
    }
    assert(stopped.scheduled().threads.dom() =~= manager.threads.dom());
}

/// No thread waits twice for a semaphore, and whoever waits is blocked: `down` and `up`
/// keep that.
pub proof fn law_waiters_stay_in_order(sema: SemaState, manager: ManagerState)
    requires
        manager.wf(),
        sema.in_order(manager),
    ensures
        manager.running().status == Status::Running ==> sema.downed(manager.current).in_order(
            sema.after_down(manager),
        ),
        sema.can_up(manager) ==> sema.upped(manager).in_order(sema.after_up(manager)),
{
    let current = manager.current;
    if manager.running().status == Status::Running {
        assert(!sema.waiters.contains(current)) by {
            if sema.waiters.contains(current) {
                let i = choose|i: int| 0 <= i < sema.waiters.len() && sema.waiters[i] == current;
                assert(manager.threads[sema.waiters[i]].status == Status::Blocked);
            }
        }
        let after = sema.downed(current);
        let threads = sema.after_down(manager);
        if sema.value > 0 {
            lemma_without(sema.waiters, current);
            assert(after.waiters == sema.waiters);
        } else {
            lemma_stopped(manager, Status::Blocked);
            assert forall|i: int| 0 <= i < after.waiters.len() implies threads.threads[
            #[trigger] after.waiters[i]].status == Status::Blocked by {
                if i < sema.waiters.len() {
                    assert(after.waiters[i] == sema.waiters[i]);
                    assert(manager.threads[sema.waiters[i]].status == Status::Blocked);
                }
            }
            assert forall|i: int| 0 <= i < after.waiters.len() implies threads.threads.contains_key(
                #[trigger] after.waiters[i],
            ) by {
                if i < sema.waiters.len() {
                    assert(after.waiters[i] == sema.waiters[i]);
                }
            }
        }
    }
    if sema.can_up(manager) {
        lemma_upped_in_order(sema, manager);
    }
}

/// Waiters stay in order as long as each of them stays blocked.
pub proof fn lemma_still_in_order(sema: SemaState, before: ManagerState, after: ManagerState)
    requires
        sema.in_order(before),
        forall|t: isize|
            #![trigger after.threads[t]]
            #![trigger before.threads[t]]
            sema.waiters.contains(t) && before.threads.contains_key(t) && before.threads[t].status
                == Status::Blocked ==> after.threads.contains_key(t) && after.threads[t].status
                == Status::Blocked,
    ensures
        sema.in_order(after),
{
    assert forall|i: int| 0 <= i < sema.waiters.len() implies after.threads.contains_key(
        #[trigger] sema.waiters[i],
    ) && after.threads[sema.waiters[i]].status == Status::Blocked by {
        assert(sema.waiters.contains(sema.waiters[i]));
        assert(before.threads[sema.waiters[i]].status == Status::Blocked);
    }
}

/// The waiters of a semaphore stay in order whatever happens to other threads: when the
/// processor is handed on, when a thread that runs stops, when a new thread comes in, and
/// when a thread that does not wait here is woken up or forgotten.
pub proof fn law_others_leave_waiters_in_order(
    sema: SemaState,
    manager: ManagerState,
    status: Status,
    tid: isize,
    thread: ThreadState,
)
    requires
        manager.wf(),
        sema.in_order(manager),
    ensures
        sema.in_order(manager.scheduled()),
        sema.in_order(manager.after_preemption()),
        manager.running().status == Status::Running && (status == Status::Blocked || status
            == Status::Dying) ==> sema.in_order(manager.stopped(status).scheduled()),
        !sema.waiters.contains(tid) ==> sema.in_order(manager.woken(tid)),
        !manager.threads.contains_key(thread.tid) ==> sema.in_order(manager.registered(thread)),
        manager.can_reap(tid) ==> sema.in_order(manager.reaped(tid)),
{
    if manager.next() is Some {
        law_most_urgent_is_next(manager, manager.next()->0);
    }
    lemma_still_in_order(sema, manager, manager.scheduled());
    if manager.running().status == Status::Running && (status == Status::Blocked || status
        == Status::Dying) {
        lemma_stopped(manager, status);
        lemma_still_in_order(sema, manager, manager.stopped(status).scheduled());
    }
    if !sema.waiters.contains(tid) {
        lemma_still_in_order(sema, manager, manager.woken(tid));
    }
    if !manager.threads.contains_key(thread.tid) {
        lemma_still_in_order(sema, manager, manager.registered(thread));
    }
    if manager.can_reap(tid) {
        lemma_still_in_order(sema, manager, manager.reaped(tid));
    }
}

/// The waiters of a semaphore stay in order when priorities change: when one is lent or
/// given back, directly or along a chain, or when a thread gets another one of its own.
pub proof fn law_priorities_leave_waiters_in_order(
    sema: SemaState,
    manager: ManagerState,
    tid: isize,
    donation: Donation,
    lock_id: usize,
    steps: nat,
    priority: u32,
)
    requires
        manager.wf(),
        sema.in_order(manager),
        manager.threads.contains_key(tid),
    ensures
        sema.in_order(manager.lent(tid, donation)),
        sema.in_order(manager.unlent(tid, lock_id)),
        sema.in_order(manager.propagated(tid, steps)),
        sema.in_order(manager.with_base_priority(tid, priority)),
{
    lemma_still_in_order(sema, manager, manager.lent(tid, donation));
    lemma_still_in_order(sema, manager, manager.unlent(tid, lock_id));
    lemma_propagated_wf(manager, tid, steps);
    assert forall|t: isize| manager.threads.contains_key(t) implies (#[trigger] manager.propagated(
        tid,
        steps,
    ).threads[t]).status == manager.threads[t].status by {}
    lemma_still_in_order(sema, manager, manager.propagated(tid, steps));
    lemma_still_in_order(sema, manager, manager.with_base_priority(tid, priority));
}

/* ---------------------------------- Locks ---------------------------------- */

/// A new lock is free, and is another one than every lock that somebody holds.
pub proof fn law_new_lock_is_free(manager: ManagerState)
    requires
        manager.wf(),
        manager.next_lock < usize::MAX,
    ensures
        !manager.holders.contains_key(manager.next_lock),
        (SleepState { id: manager.next_lock, inner: SemaState::fresh(1) }).inv(manager.lock_made()),
{
}

/// A copy of a lock is a lock of its own, with the same holder: both are in order, under
/// different ids.
pub proof fn law_copy_is_another_lock(lock: SleepState, manager: ManagerState)
    requires
        manager.wf(),
        manager.next_lock < usize::MAX,
        lock.id < manager.next_lock,
        lock.inv(manager),
    ensures
        ({
            let copy = SleepState { id: manager.next_lock, inner: lock.inner };
            let after = manager.lock_copied(lock.id);
            &&& copy.id != lock.id
            &&& copy.inv(after)
            &&& lock.inv(after)
            &&& copy.held(after) == lock.held(manager)
        }),
{
}

/// A lock that is made, anew or as a copy, leaves all other locks as they are.
pub proof fn law_making_locks_leaves_others_alone(
    lock: SleepState,
    manager: ManagerState,
    lock_id: usize,
)
    requires
        manager.wf(),
        manager.next_lock < usize::MAX,
        lock.id < manager.next_lock,
        lock.inv(manager),
    ensures
        lock.inv(manager.lock_made()),
        lock.inv(manager.lock_copied(lock_id)),
        lock.held(manager.lock_made()) == lock.held(manager),
        lock.held(manager.lock_copied(lock_id)) == lock.held(manager),
        lock.id < manager.lock_made().next_lock,
        lock.id < manager.lock_copied(lock_id).next_lock,
{
}

/// A lock that can be acquired once can be acquired for ever: nothing that happens to the
/// threads takes an id back that has been handed out.
pub proof fn law_lock_ids_stay(
    lock: SleepState,
    manager: ManagerState,
    stage: Acquiring,
    status: Status,
    tid: isize,
    thread: ThreadState,
    donation: Donation,
    lock_id: usize,
    steps: nat,
    priority: u32,
    context: ContextState,
)
    requires
        manager.wf(),
        manager.threads.contains_key(tid),
    ensures
        lock.after_acquire(manager, stage).next_lock == manager.next_lock,
        lock.after_release(manager).next_lock == manager.next_lock,
        manager.registered(thread).next_lock == manager.next_lock,
        manager.scheduled().next_lock == manager.next_lock,
        manager.after_preemption().next_lock == manager.next_lock,
        manager.stopped(status).scheduled().next_lock == manager.next_lock,
        manager.woken(tid).next_lock == manager.next_lock,
        manager.lent(tid, donation).next_lock == manager.next_lock,
        manager.unlent(tid, lock_id).next_lock == manager.next_lock,
        manager.propagated(tid, steps).next_lock == manager.next_lock,
        manager.with_base_priority(tid, priority).next_lock == manager.next_lock,
        manager.with_context(tid, context).next_lock == manager.next_lock,
        manager.reaped(tid).next_lock == manager.next_lock,
{
    lemma_announced_wf(lock, manager, stage);
    lemma_propagated_wf(manager, tid, steps);
    lemma_unlent_wf(manager, manager.current, lock.id);
    let unlent = manager.unlent(manager.current, lock.id);
    lemma_propagated_wf(unlent, manager.current, unlent.threads.dom().len());
}

/// Acquiring or letting go one lock does not concern who holds another one.
pub proof fn law_locks_are_independent(
    lock: SleepState,
    other: SleepState,
    manager: ManagerState,
    stage: Acquiring,
)
    requires
        manager.wf(),
        lock.id != other.id,
        other.agrees(manager),
    ensures
        other.agrees(lock.after_acquire(manager, stage)),
        other.agrees(lock.after_release(manager)),
{
    lemma_announced_wf(lock, manager, stage);
    lemma_leaving(lock, manager);
}

/// Mutual exclusion: a thread gets the lock if and only if nobody holds it, and is its
/// holder from then on; otherwise it blocks, and the holder stays. Who waits for the lock,
/// and in which status, does not matter.
pub proof fn law_lock_excludes(lock: SleepState, manager: ManagerState, stage: Acquiring)
    requires
        manager.wf(),
        lock.agrees(manager),
        manager.running().status != Status::Ready,
    ensures
        ({
            let progress = lock.inner.down_progress(lock.announced(manager, stage));
            let after = lock.after_acquire(manager, stage);
            &&& progress == Progress::Done <==> !lock.held(manager)
            &&& progress == Progress::Done ==> after.holders == manager.holders.insert(
                lock.id,
                manager.current,
            )
            &&& progress != Progress::Done ==> {
                &&& after.holders == manager.holders
                &&& after.threads[manager.current].status == Status::Blocked
                &&& lock.acquired(manager).inner.waiters.contains(manager.current)
            }
            &&& lock.acquired(manager).agrees(after)
        }),
{
    let announced = lock.announced(manager, stage);
    lemma_announced_wf(lock, manager, stage);
    assert(manager.threads.contains_key(manager.current));
    if lock.held(manager) {
        lemma_stopped(announced, Status::Blocked);
        law_down_on_zero_blocks(lock.inner, announced);
    }
}

/// A running thread that comes for a lock leaves its waiters in order.
pub proof fn law_acquire_keeps_order(lock: SleepState, manager: ManagerState, stage: Acquiring)
    requires
        manager.wf(),
        lock.inv(manager),
        manager.running().status == Status::Running,
    ensures
        lock.acquired(manager).inv(lock.after_acquire(manager, stage)),
{
    let announced = lock.announced(manager, stage);
    lemma_announced_wf(lock, manager, stage);
    law_lock_excludes(lock, manager, stage);
    assert(manager.threads.contains_key(manager.current));
    lemma_still_in_order(lock.inner, manager, announced);
    law_waiters_stay_in_order(lock.inner, announced);
    if !lock.held(manager) {
        lemma_still_in_order(
            lock.acquired(manager).inner,
            manager,
            lock.after_acquire(manager, stage),
        );
    }
}

/// Letting a lock go leaves every thread in the status that it has, and the lock without
/// a holder.
proof fn lemma_leaving(lock: SleepState, manager: ManagerState)
    requires
        manager.wf(),
    ensures
        lock.leaving(manager).threads.dom() == manager.threads.dom(),
        lock.leaving(manager).holders == manager.holders.remove(lock.id),
        lock.leaving(manager).current == manager.current,
        forall|t: isize| #[trigger]
            manager.threads.contains_key(t) ==> lock.leaving(manager).threads[t].status
                == manager.threads[t].status,
{
    let current = manager.current;
    let unlent = manager.unlent(current, lock.id);
    lemma_unlent_wf(manager, current, lock.id);
    lemma_propagated_wf(unlent, current, unlent.threads.dom().len());
    assert(unlent.threads.dom() =~= manager.threads.dom());
    assert forall|t: isize| #[trigger] manager.threads.contains_key(t) implies lock.leaving(
        manager,
    ).threads[t].status == manager.threads[t].status by {
        assert(unlent.threads.contains_key(t));
    }
}

/// A lock stays in order whatever happens to threads that do not wait for it: these
/// change neither who holds it nor who waits for it.
pub proof fn law_others_leave_lock_in_order(
    lock: SleepState,
    manager: ManagerState,
    status: Status,
    tid: isize,
    thread: ThreadState,
    donation: Donation,
    lock_id: usize,
    steps: nat,
    priority: u32,
)
    requires
        manager.wf(),
        lock.inv(manager),
        manager.threads.contains_key(tid),
    ensures
        lock.inv(manager.scheduled()),
        lock.inv(manager.after_preemption()),
        manager.running().status == Status::Running && (status == Status::Blocked || status
            == Status::Dying) ==> lock.inv(manager.stopped(status).scheduled()),
        !lock.inner.waiters.contains(tid) ==> lock.inv(manager.woken(tid)),
        !manager.threads.contains_key(thread.tid) ==> lock.inv(manager.registered(thread)),
        manager.can_reap(tid) ==> lock.inv(manager.reaped(tid)),
        lock.inv(manager.lent(tid, donation)),
        lock.inv(manager.unlent(tid, lock_id)),
        lock.inv(manager.propagated(tid, steps)),
        lock.inv(manager.with_base_priority(tid, priority)),
{
    law_others_leave_waiters_in_order(lock.inner, manager, status, tid, thread);
    law_priorities_leave_waiters_in_order(
        lock.inner,
        manager,
        tid,
        donation,
        lock_id,
        steps,
        priority,
    );
    lemma_propagated_wf(manager, tid, steps);
}

/// A lock that has been let go is free.
pub proof fn law_release_frees(lock: SleepState, manager: ManagerState)
    requires
        manager.wf(),
        lock.agrees(manager),
        lock.held(manager),
    ensures
        !lock.released(manager).held(lock.after_release(manager)),
        lock.released(manager).agrees(lock.after_release(manager)),
{
    lemma_leaving(lock, manager);
}

/// The holder of a lock whose waiters are in order can always let it go. The most urgent
/// waiter becomes ready, and the others stay in order.
pub proof fn law_release_passes_on(lock: SleepState, manager: ManagerState)
    requires
        manager.wf(),
        lock.inv(manager),
        lock.held(manager),
    ensures
        lock.inner.can_up(lock.leaving(manager)),
        lock.released(manager).inv(lock.after_release(manager)),
        lock.inner.waiters.len() > 0 ==> lock.after_release(
            manager,
        ).threads[lock.inner.next_waiter(lock.leaving(manager))->0].status == Status::Ready,
{
    let leaving = lock.leaving(manager);
    let inner = lock.inner;
    lemma_leaving(lock, manager);
    lemma_still_in_order(inner, manager, leaving);
    if inner.waiters.len() > 0 {
        lemma_foremost(inner.priorities(leaving));
    }
    lemma_upped_in_order(inner, leaving);
    law_release_frees(lock, manager);
}

/// `up` keeps the waiters in order, whatever else the manager holds.
pub proof fn lemma_upped_in_order(sema: SemaState, manager: ManagerState)
    requires
        sema.in_order(manager),
        sema.can_up(manager),
    ensures
        sema.upped(manager).in_order(sema.after_up(manager)),
{
    if sema.waiters.len() > 0 {
        lemma_foremost(sema.priorities(manager));
        let i = sema.highest(manager)->0;
        let woken = sema.waiters[i];
        let after = sema.upped(manager);
        let threads = sema.after_up(manager);
        assert forall|k: int| 0 <= k < after.waiters.len() implies threads.threads.contains_key(
            #[trigger] after.waiters[k],
        ) && threads.threads[after.waiters[k]].status == Status::Blocked by {
            let a = if k < i { k } else { k + 1 };
            assert(after.waiters[k] == sema.waiters[a]);
            assert(sema.waiters[a] != woken);
        }
        assert forall|k: int, l: int| 0 <= k < l < after.waiters.len() implies after.waiters[k]
            != after.waiters[l] by {
            let a = if k < i { k } else { k + 1 };
            let b = if l < i { l } else { l + 1 };
            assert(sema.waiters[a] != sema.waiters[b]);
        }
    }
}

/// A thread that lets a lock go gives back what it has been lent for it: if it has been
/// lent nothing else, it is as urgent as it is by itself.
pub proof fn law_release_returns_priority(lock: SleepState, manager: ManagerState)
    requires
        manager.wf(),
        manager.running().waiting_lock is None,
        forall|d: Donation| #[trigger]
            manager.running().donations.contains(d) ==> d.lock_id == lock.id,
    ensures
        lock.after_release(manager).threads[manager.current].priority
            == manager.running().base_priority,
{
    law_release_ends_donations(manager.running(), lock.id);
    let leaving = lock.leaving(manager);
    assert(leaving.threads[manager.current] == manager.running().unlent(lock.id));
}

/// Once a lock has been let go, a thread that comes for it or has waited for it gets it.
pub proof fn law_free_lock_is_acquired(lock: SleepState, manager: ManagerState, later: ManagerState)
    requires
        manager.wf(),
        lock.agrees(manager),
        lock.held(manager),
    ensures
        lock.released(manager).inner.down_progress(later) == Progress::Done,
{
    law_release_frees(lock, manager);
}

/// No priority inversion over a lock: when a thread has to wait for a lock, its holder
/// is at least as urgent as that thread, and so is everybody whom the holder waits for.
pub proof fn law_lock_lends_priority(lock: SleepState, manager: ManagerState, chain: Seq<isize>)
    requires
        manager.wf(),
        lock.held(manager),
        chain.len() > 1,
        chain[0] == manager.current,
        chain[1] == manager.holders[lock.id],
        waits_along(manager.with_waiting_lock(manager.current, Some(lock.id)), chain),
    ensures
        forall|k: int|
            0 <= k < chain.len() ==> lock.announced(manager, Acquiring::Enter).threads[
            #[trigger] chain[k]].priority >= manager.running().priority,
{
    let current = manager.current;
    let waiting = manager.with_waiting_lock(current, Some(lock.id));
    crate::thread::state::lemma_with_thread_wf(manager, current, waiting.threads[current]);
    law_donation_reaches_all_holders(waiting, chain);
    let after = lock.announced(manager, Acquiring::Enter);
    assert forall|k: int| 0 <= k < chain.len() implies after.threads[
    #[trigger] chain[k]].priority >= manager.running().priority by {
        assert(after.threads[chain[0]].priority <= after.threads[chain[k]].priority);
    }
}

/* --------------------------- Condition variables --------------------------- */

/// `notify_one` picks the waiter that was the most urgent when it came, and of those the
/// one that came first.
pub proof fn law_notify_picks_foremost(condvar: CondvarState)
    requires
        condvar.wf(),
        condvar.waiters.len() > 0,
    ensures
        ({
            let i = foremost(priorities(condvar.waiters))->0;
            &&& 0 <= i < condvar.waiters.len()
            &&& condvar.next_thread() == Some(condvar.waiters[i].thread)
            &&& forall|j: int|
                0 <= j < condvar.waiters.len() ==> (#[trigger] condvar.waiters[j]).priority
                    <= condvar.waiters[i].priority
            &&& forall|j: int|
                0 <= j < i ==> (#[trigger] condvar.waiters[j]).priority
                    < condvar.waiters[i].priority
            &&& condvar.notified().waiters == condvar.waiters.remove(i)
        }),
{
    let levels = priorities(condvar.waiters);
    lemma_foremost(levels);
    let i = foremost(levels)->0;
    assert forall|j: int| 0 <= j < condvar.waiters.len() implies (
    #[trigger] condvar.waiters[j]).priority <= condvar.waiters[i].priority by {
        assert(levels[j] == condvar.waiters[j].priority);
    }
    assert forall|j: int| 0 <= j < i implies (#[trigger] condvar.waiters[j]).priority
        < condvar.waiters[i].priority by {
        assert(levels[j] == condvar.waiters[j].priority);
    }
}

/// No notification is lost: a thread that has been notified goes on, even if it had not
/// gone to sleep yet, and one that is asleep becomes ready.
pub proof fn law_notified_thread_goes_on(condvar: CondvarState, manager: ManagerState, tid: isize)
    requires
        condvar.wf(),
        condvar.next_thread() == Some(tid),
        condvar.can_notify(manager, tid),
    ensures
        condvar.notified().semas[tid].down_progress(manager) == Progress::Done,
        condvar.semas[tid].waiters.len() > 0 ==> condvar.after_notify(manager).threads[tid].status
            == Status::Ready,
        !condvar.notified().queues(tid),
{
    lemma_foremost(priorities(condvar.waiters));
    let i = foremost(priorities(condvar.waiters))->0;
    let after = condvar.notified();
    if after.queues(tid) {
        let k = choose|k: int|
            0 <= k < after.waiters.len() && #[trigger] after.waiters[k].thread == tid;
        let a = if k < i { k } else { k + 1 };
        assert(condvar.waiters[a] == after.waiters[k]);
        assert(condvar.waiters[i].thread == tid);
    }
}

/// A thread that comes to wait and has not been notified blocks.
pub proof fn law_wait_blocks_until_notified(condvar: CondvarState, waiter: Waiter)
    requires
        condvar.wf(),
        !condvar.semas.contains_key(waiter.thread),
    ensures
        condvar.entered(waiter).queues(waiter.thread),
        condvar.entered(waiter).semas[waiter.thread].value == 0,
{
    let after = condvar.entered(waiter);
    assert(after.waiters[condvar.waiters.len() as int].thread == waiter.thread);
}

/// Everybody who waits has a place in the order of notification, and nobody else has.
pub proof fn law_everybody_is_notified(waiters: Seq<Waiter>, tid: isize)
    ensures
        notify_order(waiters).contains(tid) <==> exists|i: int|
            0 <= i < waiters.len() && (#[trigger] waiters[i]).thread == tid,
        notify_order(waiters).len() == waiters.len(),
    decreases waiters.len(),
{
    if waiters.len() > 0 {
        lemma_foremost(priorities(waiters));
        let first = foremost(priorities(waiters))->0;
        let rest = waiters.remove(first);
        law_everybody_is_notified(rest, tid);
        let order = notify_order(waiters);
        let later = notify_order(rest);
        assert(order == seq![waiters[first].thread] + later);
        if exists|i: int| 0 <= i < waiters.len() && (#[trigger] waiters[i]).thread == tid {
            let i = choose|i: int| 0 <= i < waiters.len() && (#[trigger] waiters[i]).thread == tid;
            if i == first {
                assert(order[0] == tid);
            } else {
                let a = if i < first { i } else { i - 1 };
                assert(rest[a] == waiters[i]);
                let k = choose|k: int| 0 <= k < later.len() && later[k] == tid;
                assert(order[k + 1] == tid);
            }
        }
        if order.contains(tid) {
            let k = choose|k: int| 0 <= k < order.len() && order[k] == tid;
            if k == 0 {
                assert(waiters[first].thread == tid);
            } else {
                assert(later[k - 1] == tid);
                let a = choose|a: int| 0 <= a < rest.len() && (#[trigger] rest[a]).thread == tid;
                let i = if a < first { a } else { a + 1 };
                assert(waiters[i] == rest[a]);
            }
        }
    } else {
        assert(priorities(waiters).len() == 0);
    }
}

/// `notify_all` leaves nobody waiting: a thread that is asleep becomes ready, and one
/// that has not gone to sleep yet will not.
pub proof fn law_notify_all_wakes_everybody(
    condvar: CondvarState,
    manager: ManagerState,
    tid: isize,
)
    requires
        condvar.wf(),
        condvar.queues(tid),
        manager.threads.contains_key(tid),
        condvar.can_notify_all(manager),
    ensures
        !condvar.all_notified().queues(tid),
        condvar.all_notified().semas[tid].value == 1,
        condvar.semas[tid].waiters.len() > 0 ==> condvar.after_notify_all(
            manager,
        ).threads[tid].status == Status::Ready,
{
    let order = notify_order(condvar.waiters);
    let woken = order.filter(asleep(condvar.semas));
    law_everybody_is_notified(condvar.waiters, tid);
    assert(condvar.semas.contains_key(tid));
    if condvar.semas[tid].waiters.len() > 0 {
        let k = choose|k: int| 0 <= k < order.len() && order[k] == tid;
        order.lemma_filter_contains(asleep(condvar.semas), k);
        assert forall|j: int| 0 <= j < woken.len() implies manager.threads.contains_key(
            #[trigger] woken[j],
        ) by {
            let t = woken[j];
            order.lemma_filter_pred(asleep(condvar.semas), j);
            assert(woken.contains(t));
            order.lemma_filter_contains_rev(asleep(condvar.semas), t);
            law_everybody_is_notified(condvar.waiters, t);
            let i = choose|i: int|
                0 <= i < condvar.waiters.len() && (#[trigger] condvar.waiters[i]).thread == t;
            assert(condvar.can_notify(manager, condvar.waiters[i].thread));
        }
        law_woken_are_ready(manager, woken, tid);
    }
}

/// Waking up a list of threads is waking up the first, then the rest.
proof fn lemma_all_woken_first(manager: ManagerState, first: isize, rest: Seq<isize>)
    ensures
        manager.all_woken(seq![first] + rest) == manager.woken(first).all_woken(rest),
    decreases rest.len(),
{
    let list = seq![first] + rest;
    if rest.len() == 0 {
        assert(list =~= seq![first]);
        assert(list.drop_last() =~= Seq::<isize>::empty());
        assert(manager.all_woken(list.drop_last()) == manager);
    } else {
        assert(list.drop_last() =~= seq![first] + rest.drop_last());
        assert(list.last() == rest.last());
        lemma_all_woken_first(manager, first, rest.drop_last());
    }
}

/// A filter looks at the elements of a list and at nothing else.
proof fn lemma_filter_same(list: Seq<isize>, p: spec_fn(isize) -> bool, q: spec_fn(isize) -> bool)
    requires
        forall|k: int| 0 <= k < list.len() ==> p(#[trigger] list[k]) == q(list[k]),
    ensures
        list.filter(p) == list.filter(q),
    decreases list.len(),
{
    reveal(Seq::filter);
    if list.len() > 0 {
        assert(forall|k: int|
            0 <= k < list.len() - 1 ==> #[trigger] list.drop_last()[k] == list[k]);
        lemma_filter_same(list.drop_last(), p, q);
    }
}

/// Notifying all is notifying one thread after the other: to notify one, then all others,
/// is to notify all.
pub proof fn law_notify_all_is_one_by_one(s: CondvarState, manager: ManagerState)
    requires
        s.wf(),
        s.waiters.len() > 0,
        s.can_notify_all(manager),
    ensures
        s.notified().all_notified() == s.all_notified(),
        s.notified().after_notify_all(s.after_notify(manager)) == s.after_notify_all(manager),
        s.notified().waiters.len() < s.waiters.len(),
        s.notified().can_notify_all(s.after_notify(manager)),
{
    lemma_foremost(priorities(s.waiters));
    let i = foremost(priorities(s.waiters))->0;
    let tid = s.waiters[i].thread;
    let after = s.notified();
    let rest = s.waiters.remove(i);
    let later = notify_order(rest);
    assert(s.semas.contains_key(tid));
    assert(after.all_notified().semas =~= s.all_notified().semas);
    assert forall|k: int| 0 <= k < rest.len() implies (#[trigger] rest[k]).thread != tid by {
        let a = if k < i { k } else { k + 1 };
        assert(s.waiters[a] == rest[k]);
    }
    assert forall|k: int| 0 <= k < after.waiters.len() implies after.can_notify(
        s.after_notify(manager),
        (#[trigger] after.waiters[k]).thread,
    ) by {
        let a = if k < i { k } else { k + 1 };
        assert(s.waiters[a] == rest[k]);
        assert(s.can_notify(manager, s.waiters[a].thread));
        assert(rest[k].thread != tid);
    }
    assert forall|k: int| 0 <= k < later.len() implies asleep(after.semas)(#[trigger] later[k])
        == asleep(s.semas)(later[k]) by {
        law_everybody_is_notified(rest, later[k]);
        assert(later.contains(later[k]));
        let a = choose|a: int| 0 <= a < rest.len() && (#[trigger] rest[a]).thread == later[k];
        assert(rest[a].thread != tid);
    }
    lemma_filter_same(later, asleep(after.semas), asleep(s.semas));
    let first = seq![tid];
    assert(notify_order(s.waiters) == first + later);
    Seq::filter_distributes_over_add(first, later, asleep(s.semas));
    reveal_with_fuel(Seq::filter, 2);
    assert(first.drop_last() =~= Seq::<isize>::empty());
    if s.semas[tid].waiters.len() > 0 {
        assert(first.filter(asleep(s.semas)) =~= first);
        lemma_all_woken_first(manager, tid, later.filter(asleep(s.semas)));
    } else {
        assert(first.filter(asleep(s.semas)) =~= Seq::<isize>::empty());
        assert(Seq::<isize>::empty() + later.filter(asleep(s.semas)) =~= later.filter(
            asleep(s.semas),
        ));
    }
}

/* ------------------------------ Field by field ----------------------------- */

/// Whether a waiter of a semaphore is the one that is woken up next: no other one is more
/// urgent, and none that came earlier is as urgent.
pub open spec fn comes_first(waiters: Seq<isize>, manager: ManagerState, i: int) -> bool {
    &&& 0 <= i < waiters.len()
    &&& forall|j: int|
        0 <= j < waiters.len() ==> manager.threads[#[trigger] waiters[j]].priority
            <= manager.threads[waiters[i]].priority
    &&& forall|j: int|
        0 <= j < i ==> manager.threads[#[trigger] waiters[j]].priority
            < manager.threads[waiters[i]].priority
}

/// The waiter that comes first is the one that is picked.
proof fn lemma_first_is_picked(sema: SemaState, manager: ManagerState, i: int)
    requires
        comes_first(sema.waiters, manager, i),
    ensures
        sema.highest(manager) == Some(i),
        sema.next_waiter(manager) == Some(sema.waiters[i]),
{
    let all = sema.priorities(manager);
    assert forall|j: int| 0 <= j < i implies #[trigger] all[j] < all[i] by {
        assert(manager.threads[sema.waiters[j]].priority
            < manager.threads[sema.waiters[i]].priority);
    }
    assert forall|j: int| i <= j < all.len() implies #[trigger] all[j] <= all[i] by {
        assert(manager.threads[sema.waiters[j]].priority
            <= manager.threads[sema.waiters[i]].priority);
    }
    assert(is_foremost(all, i));
    lemma_foremost_is(all, i);
}

/// What `up` does: the value rises by one, and the waiter that comes first, if any, leaves
/// the others in their order and is ready. No other thread changes.
pub proof fn law_up_gives_one(sema: SemaState, manager: ManagerState, i: int)
    requires
        sema.value < usize::MAX,
    ensures
        sema.waiters.len() == 0 ==> {
            &&& sema.upped(manager) == (SemaState {
                value: (sema.value + 1) as usize,
                waiters: sema.waiters,
            })
            &&& sema.after_up(manager) == manager
        },
        comes_first(sema.waiters, manager, i) ==> {
            let woken = sema.waiters[i];
            let thread = manager.threads[woken];
            let p = thread.priority as int;
            &&& sema.upped(manager) == (SemaState {
                value: (sema.value + 1) as usize,
                waiters: sema.waiters.remove(i),
            })
            &&& sema.after_up(manager) == (ManagerState {
                threads: manager.threads.insert(
                    woken,
                    ThreadState { status: Status::Ready, ..thread },
                ),
                ready: manager.ready.update(p, manager.ready[p].push(woken)),
                ..manager
            })
        },
{
    if comes_first(sema.waiters, manager, i) {
        lemma_first_is_picked(sema, manager, i);
    }
}

/// `up` may be called if and only if the value can rise, all waiters are known, and where
/// somebody waits the value is zero and the waiter that comes first is blocked.
pub proof fn law_up_needs_a_blocked_waiter(sema: SemaState, manager: ManagerState, i: int)
    requires
        sema.waiters.len() > 0 ==> comes_first(sema.waiters, manager, i),
    ensures
        sema.can_up(manager) <==> {
            &&& sema.value < usize::MAX
            &&& forall|j: int|
                0 <= j < sema.waiters.len() ==> manager.threads.contains_key(
                    #[trigger] sema.waiters[j],
                )
            &&& sema.waiters.len() > 0 ==> sema.value == 0
                && manager.threads[sema.waiters[i]].status == Status::Blocked
        },
{
    if sema.waiters.len() > 0 {
        lemma_first_is_picked(sema, manager, i);
    }
}

/// What `down` does: where the value is above zero it falls by one, the thread waits no
/// more, and no thread changes. Where it is zero the thread stands behind all who wait
/// already, once, and is blocked, and the processor is handed on.
pub proof fn law_down_takes_one(sema: SemaState, manager: ManagerState, i: int)
    ensures
        ({
            let me = manager.current;
            let after = sema.downed(me);
            let blocked = ManagerState {
                threads: manager.threads.insert(
                    me,
                    ThreadState { status: Status::Blocked, ..manager.threads[me] },
                ),
                ..manager
            };
            &&& sema.value > 0 ==> {
                &&& after.value == sema.value - 1
                &&& !after.waiters.contains(me)
                &&& forall|t: isize|
                    t != me ==> (#[trigger] after.waiters.contains(t) <==> sema.waiters.contains(t))
                &&& !sema.waiters.contains(me) ==> after.waiters == sema.waiters
                &&& sema.waiters.no_duplicates() && 0 <= i < sema.waiters.len() && sema.waiters[i]
                    == me ==> after.waiters == sema.waiters.remove(i)
                &&& sema.after_down(manager) == manager
                &&& sema.down_progress(manager) == Progress::Done
            }
            &&& sema.value == 0 ==> {
                &&& after.value == 0
                &&& after.waiters == (if sema.waiters.contains(me) {
                    sema.waiters
                } else {
                    sema.waiters.push(me)
                })
                &&& sema.after_down(manager) == blocked.scheduled()
                &&& sema.down_progress(manager) == Progress::Blocked(blocked.switch())
            }
        }),
{
    lemma_without(sema.waiters, manager.current);
    if sema.waiters.no_duplicates() && 0 <= i < sema.waiters.len() && sema.waiters[i]
        == manager.current {
        lemma_without_is_remove(sema.waiters, manager.current, i);
    }
}

/// What it takes to get a free lock: the running thread is its holder, and waits for
/// nothing. Nothing else changes.
pub proof fn law_free_lock_is_taken(lock: SleepState, manager: ManagerState, stage: Acquiring)
    requires
        lock.inner.value > 0,
        !manager.holders.contains_key(lock.id),
    ensures
        ({
            let me = manager.current;
            &&& lock.after_acquire(manager, stage) == (ManagerState {
                threads: manager.threads.insert(
                    me,
                    ThreadState { waiting_lock: None, ..manager.threads[me] },
                ),
                holders: manager.holders.insert(lock.id, me),
                ..manager
            })
            &&& lock.acquired(manager).id == lock.id
            &&& lock.acquired(manager).inner.value == lock.inner.value - 1
            &&& lock.inner.down_progress(lock.announced(manager, stage)) == Progress::Done
        }),
{
}

/// What a thread does that finds a lock held: when it comes it notes that it waits for the
/// lock and lends its priority along the chain of holders; then, and each time that it runs
/// again and finds the lock held, it waits behind the others, is blocked, and the processor
/// is handed on.
pub proof fn law_held_lock_is_waited_for(lock: SleepState, manager: ManagerState)
    requires
        lock.inner.value == 0,
        manager.holders.contains_key(lock.id),
    ensures
        ({
            let me = manager.current;
            let waiting = ManagerState {
                threads: manager.threads.insert(
                    me,
                    ThreadState { waiting_lock: Some(lock.id), ..manager.threads[me] },
                ),
                ..manager
            };
            let lent = waiting.fully_propagated(me);
            &&& lock.announced(manager, Acquiring::Enter) == lent
            &&& lock.announced(manager, Acquiring::Waiting) == manager
            &&& lock.after_acquire(manager, Acquiring::Enter) == lent.stopped(
                Status::Blocked,
            ).scheduled()
            &&& lock.after_acquire(manager, Acquiring::Waiting) == manager.stopped(
                Status::Blocked,
            ).scheduled()
            &&& lock.acquired(manager) == (SleepState {
                id: lock.id,
                inner: SemaState {
                    value: 0,
                    waiters: if lock.inner.waiters.contains(me) {
                        lock.inner.waiters
                    } else {
                        lock.inner.waiters.push(me)
                    },
                },
            })
        }),
{
}

/// What a thread lends for a lock that it has to wait for: exactly its own priority, to the
/// holder, in its own name and for this lock. A holder that waits for nobody is as urgent
/// as before or as the one who waits, whichever is more; no third thread changes.
pub proof fn law_holder_is_lent_the_waiters_priority(lock: SleepState, manager: ManagerState)
    requires
        manager.wf(),
        manager.holders.contains_key(lock.id),
        manager.holders[lock.id] != manager.current,
        manager.threads[manager.holders[lock.id]].waiting_lock is None,
        forall|d: Donation| #[trigger]
            manager.threads[manager.holders[lock.id]].donations.contains(d) ==> !(d.donor_tid
                == manager.current && d.lock_id == lock.id),
    ensures
        ({
            let me = manager.current;
            let holder = manager.holders[lock.id];
            let mine = manager.threads[me].priority;
            let before = manager.threads[holder];
            let after = lock.announced(manager, Acquiring::Enter).threads;
            &&& after[holder].donations == before.donations.push(
                Donation { donor_tid: me, lock_id: lock.id, priority: mine },
            )
            &&& after[holder].priority == (if before.priority >= mine {
                before.priority
            } else {
                mine
            })
            &&& after[holder].base_priority == before.base_priority
            &&& after[me] == (ThreadState {
                waiting_lock: Some(lock.id),
                ..manager.threads[me]
            })
            &&& forall|t: isize|
                t != me && t != holder && #[trigger] manager.threads.contains_key(t) ==> after[t]
                    == manager.threads[t]
        }),
{
    let me = manager.current;
    let holder = manager.holders[lock.id];
    let waiting = manager.with_waiting_lock(me, Some(lock.id));
    let mine = manager.threads[me].priority;
    let chain = seq![me, holder];
    assert(manager.threads.contains_key(me));
    assert(manager.threads.contains_key(holder));
    lemma_with_thread_wf(manager, me, waiting.threads[me]);
    assert(waits_for_next(waiting, chain, 0));
    assert(waits_along(waiting, chain));
    law_donation_is_the_waiters_priority(waiting, chain, 0);
    law_donation_reaches_all_holders(waiting, chain);
    let donation = Donation { donor_tid: me, lock_id: lock.id, priority: mine };
    let before = manager.threads[holder];
    assert(waiting.threads[holder] == before);
    assert forall|j: int| 0 <= j < before.donations.len() implies !((
    #[trigger] before.donations[j]).donor_tid == me && before.donations[j].lock_id == lock.id) by {
        assert(before.donations.contains(before.donations[j]));
    }
    law_lent_thread(before, donation, 0);
    law_effective_priority(before);
    let after = before.lent(donation);
    assert(after.donations == before.donations.push(donation));
    assert(after.donations.last() == donation);
    assert forall|j: int| 0 <= j < before.donations.len() implies (
    #[trigger] before.donations[j]).priority <= after.priority by {
        assert(after.donations[j] == before.donations[j]);
    }
    if before.priority != before.base_priority {
        let j = choose|j: int|
            0 <= j < before.donations.len() && before.priority == (
            #[trigger] before.donations[j]).priority;
        assert(after.donations[j].priority == before.priority);
    }
    assert forall|t: isize| t != me && t != holder && #[trigger] manager.threads.contains_key(
        t,
    ) implies lock.announced(manager, Acquiring::Enter).threads[t] == manager.threads[t] by {
        assert(waiting.threads.contains_key(t));
        assert(!chain.contains(t));
    }
}

/// What a thread gives back with a lock, where it waits for no other one: what it has been
/// lent for this lock, all of it, and nothing that it has been lent for others. It is as
/// urgent as the highest of what is left and its own priority. The lock has no holder, the
/// waiter that comes first is ready, and no other thread changes.
pub proof fn law_release_gives_back(lock: SleepState, manager: ManagerState)
    requires
        manager.wf(),
        manager.threads[manager.current].waiting_lock is None,
    ensures
        ({
            let me = manager.current;
            let before = manager.threads[me];
            let after = lock.after_release(manager);
            let thread = after.threads[me];
            &&& forall|d: Donation| #[trigger]
                thread.donations.contains(d) <==> before.donations.contains(d) && d.lock_id
                    != lock.id
            &&& is_highest(thread.priority, before.base_priority, thread.donations)
            &&& thread == (ThreadState {
                donations: thread.donations,
                priority: thread.priority,
                status: thread.status,
                ..before
            })
            &&& !lock.inner.waiters.contains(me) ==> thread.status == before.status
            &&& before.status != Status::Ready ==> lock.leaving(manager).ready == manager.ready
            &&& forall|t: isize|
                t != me && #[trigger] manager.threads.contains_key(t) ==> after.threads[t] == (
                ThreadState { status: after.threads[t].status, ..manager.threads[t] })
            &&& forall|t: isize|
                t != me && !lock.inner.waiters.contains(t)
                    && #[trigger] manager.threads.contains_key(t) ==> after.threads[t]
                    == manager.threads[t]
            &&& after.holders == manager.holders.remove(lock.id)
            &&& after.current == me
            &&& after.next_lock == manager.next_lock
        }),
{
    let me = manager.current;
    law_unlent_thread(manager.threads[me], lock.id);
    let leaving = lock.leaving(manager);
    assert(leaving.threads[me] == manager.threads[me].unlent(lock.id));
    if lock.inner.waiters.len() > 0 {
        let all = lock.inner.priorities(leaving);
        lemma_foremost(all);
        let i = foremost(all)->0;
        assert(lock.inner.waiters.contains(lock.inner.waiters[i]));
        assert(lock.inner.next_waiter(leaving) == Some(lock.inner.waiters[i]));
    }
}

/// Who gets to know that a lock has been let go: the waiter that comes first, judged by the
/// priorities as they are after the holder has given back what it was lent. It is ready, at
/// the end of its level, and the others wait on in their order. The semaphore rises by one.
pub proof fn law_release_wakes_the_first(
    lock: SleepState,
    manager: ManagerState,
    left: ManagerState,
    i: int,
)
    requires
        left == lock.leaving(manager),
        lock.inner.value < usize::MAX,
    ensures
        lock.released(manager).id == lock.id,
        lock.released(manager).inner.value == lock.inner.value + 1,
        lock.inner.waiters.len() == 0 ==> lock.after_release(manager) == left,
        comes_first(lock.inner.waiters, left, i) ==> {
            let woken = lock.inner.waiters[i];
            let p = left.threads[woken].priority as int;
            &&& lock.released(manager).inner.waiters == lock.inner.waiters.remove(i)
            &&& lock.after_release(manager) == (ManagerState {
                threads: left.threads.insert(
                    woken,
                    ThreadState { status: Status::Ready, ..left.threads[woken] },
                ),
                ready: left.ready.update(p, left.ready[p].push(woken)),
                ..left
            })
        },
{
    law_up_gives_one(lock.inner, left, i);
}

/// A thread that lets a lock go while it waits for another one passes on, along the chain
/// of holders that it waits for, what is left of its priority; what it has been lent for
/// the lock is gone, and nothing else that it has been lent.
pub proof fn law_release_passes_the_rest_on(
    lock: SleepState,
    manager: ManagerState,
    chain: Seq<isize>,
)
    requires
        manager.wf(),
        manager.threads[manager.current].waiting_lock is Some,
        chain.len() > 0,
        chain[0] == manager.current,
        waits_along(manager, chain),
    ensures
        ({
            let me = manager.current;
            let before = manager.threads[me];
            let left = lock.leaving(manager);
            let thread = left.threads[me];
            &&& forall|d: Donation| #[trigger]
                thread.donations.contains(d) <==> before.donations.contains(d) && d.lock_id
                    != lock.id
            &&& is_highest(thread.priority, before.base_priority, thread.donations)
            &&& forall|k: int|
                0 <= k < chain.len() ==> left.threads[#[trigger] chain[k]].priority
                    >= thread.priority
            &&& forall|t: isize|
                !chain.contains(t) && #[trigger] manager.threads.contains_key(t)
                    ==> left.threads[t] == manager.threads[t]
            &&& left.holders == manager.holders.remove(lock.id)
        }),
{
    let me = manager.current;
    let unlent = manager.unlent(me, lock.id);
    lemma_unlent_wf(manager, me, lock.id);
    law_unlent_thread(manager.threads[me], lock.id);
    assert forall|k: int| 0 <= k < chain.len() - 1 implies #[trigger] waits_for_next(
        unlent,
        chain,
        k,
    ) by {
        assert(waits_for_next(manager, chain, k));
    }
    assert(waits_along(unlent, chain));
    law_donation_reaches_all_holders(unlent, chain);
    lemma_leaving(lock, manager);
    let left = lock.leaving(manager);
    assert(left.threads == unlent.fully_propagated(me).threads);
    assert forall|k: int| 0 <= k < chain.len() implies left.threads[#[trigger] chain[k]].priority
        >= left.threads[me].priority by {
        assert(left.threads[chain[0]].priority <= left.threads[chain[k]].priority);
    }
    assert forall|t: isize| !chain.contains(t) && #[trigger] manager.threads.contains_key(
        t,
    ) implies left.threads[t] == manager.threads[t] by {
        assert(chain.contains(chain[0]));
        assert(unlent.threads.contains_key(t));
    }
}

/// A new lock has the next id, and a copy as well, with the holder of the lock that it
/// copies, if any. No thread changes.
pub proof fn law_new_locks_are_numbered(manager: ManagerState, lock_id: usize)
    requires
        manager.next_lock < usize::MAX,
    ensures
        manager.lock_made() == (ManagerState {
            threads: manager.threads,
            current: manager.current,
            ready: manager.ready,
            holders: manager.holders,
            next_lock: (manager.next_lock + 1) as usize,
        }),
        ({
            let copied = manager.lock_copied(lock_id);
            &&& copied == (ManagerState { holders: copied.holders, ..manager.lock_made() })
            &&& manager.holders.contains_key(lock_id) ==> copied.holders == manager.holders.insert(
                manager.next_lock,
                manager.holders[lock_id],
            )
            &&& !manager.holders.contains_key(lock_id) ==> copied.holders == manager.holders
        }),
{
}

/// A lock can be let go if and only if the running thread holds it and, where somebody
/// waits, nobody has passed and the waiter that comes first is blocked.
pub proof fn law_holders_let_go(
    lock: SleepState,
    manager: ManagerState,
    left: ManagerState,
    i: int,
)
    requires
        left == lock.leaving(manager),
        lock.inner.waiters.len() > 0 ==> comes_first(lock.inner.waiters, left, i),
    ensures
        lock.releasable(manager) <==> {
            &&& manager.holders.contains_key(lock.id)
            &&& manager.holders[lock.id] == manager.current
            &&& lock.inner.value < usize::MAX
            &&& forall|j: int|
                0 <= j < lock.inner.waiters.len() ==> left.threads.contains_key(
                    #[trigger] lock.inner.waiters[j],
                )
            &&& lock.inner.waiters.len() > 0 ==> lock.inner.value == 0
                && left.threads[lock.inner.waiters[i]].status == Status::Blocked
        },
{
    law_up_needs_a_blocked_waiter(lock.inner, left, i);
}

/// Whether a waiter of a condition variable is the one that is notified next: no other one
/// came with a higher priority, and none that came earlier with the same.
pub open spec fn is_notified_first(waiters: Seq<Waiter>, i: int) -> bool {
    &&& 0 <= i < waiters.len()
    &&& forall|j: int|
        0 <= j < waiters.len() ==> (#[trigger] waiters[j]).priority <= waiters[i].priority
    &&& forall|j: int| 0 <= j < i ==> (#[trigger] waiters[j]).priority < waiters[i].priority
}

/// The waiter that is notified first is the one that is picked.
proof fn lemma_notified_first_is_picked(waiters: Seq<Waiter>, i: int)
    requires
        is_notified_first(waiters, i),
    ensures
        foremost(priorities(waiters)) == Some(i),
{
    let all = priorities(waiters);
    assert forall|j: int| 0 <= j < i implies #[trigger] all[j] < all[i] by {
        assert(waiters[j].priority < waiters[i].priority);
    }
    assert forall|j: int| i <= j < all.len() implies #[trigger] all[j] <= all[i] by {
        assert(waiters[j].priority <= waiters[i].priority);
    }
    assert(is_foremost(all, i));
    lemma_foremost_is(all, i);
}

/// What `notify_one` does: the waiter that is notified first waits no more, and the others
/// wait on in their order. It may pass, and is ready if it is asleep. No other thread and
/// no other semaphore changes; without waiters nothing does.
pub proof fn law_notify_lets_one_go(condvar: CondvarState, manager: ManagerState, i: int)
    ensures
        condvar.waiters.len() == 0 ==> condvar.notified() == condvar && condvar.after_notify(
            manager,
        ) == manager,
        is_notified_first(condvar.waiters, i) ==> {
            let tid = condvar.waiters[i].thread;
            let p = manager.threads[tid].priority as int;
            &&& condvar.notified() == (CondvarState {
                waiters: condvar.waiters.remove(i),
                semas: condvar.semas.insert(tid, SemaState { value: 1, waiters: Seq::empty() }),
            })
            &&& condvar.after_notify(manager) == (if condvar.semas[tid].waiters.len() > 0 {
                ManagerState {
                    threads: manager.threads.insert(
                        tid,
                        ThreadState { status: Status::Ready, ..manager.threads[tid] },
                    ),
                    ready: manager.ready.update(p, manager.ready[p].push(tid)),
                    ..manager
                }
            } else {
                manager
            })
        },
{
    if is_notified_first(condvar.waiters, i) {
        lemma_notified_first_is_picked(condvar.waiters, i);
    }
}

/// What it means to wait: a thread that comes stands behind all who wait already, with the
/// priority that it has, and may not pass. No other thread's semaphore changes.
pub proof fn law_wait_lines_up(condvar: CondvarState, waiter: Waiter)
    ensures
        condvar.entered(waiter) == (CondvarState {
            waiters: condvar.waiters.push(waiter),
            semas: condvar.semas.insert(
                waiter.thread,
                SemaState { value: 0, waiters: Seq::empty() },
            ),
        }),
{
}

/// A thread that goes on with a wait has left for good if it may pass, and else is asleep
/// over its own semaphore. The order of those who wait, and all other semaphores, stay.
pub proof fn law_wait_is_over_when_notified(condvar: CondvarState, tid: isize)
    requires
        condvar.wf(),
        condvar.semas.contains_key(tid),
    ensures
        ({
            let after = condvar.continued(tid);
            &&& after.waiters == condvar.waiters
            &&& condvar.semas[tid].value > 0 ==> after.semas == condvar.semas.remove(tid)
            &&& condvar.semas[tid].value == 0 ==> after.semas == condvar.semas.insert(
                tid,
                SemaState { value: 0, waiters: seq![tid] },
            )
        }),
{
    let sema = condvar.semas[tid];
    if sema.value == 0 {
        if sema.waiters.len() == 0 {
            assert(sema.downed(tid).waiters =~= seq![tid]);
        } else {
            assert(sema.waiters[0] == tid);
        }
    }
}

/// What `notify_all` leaves: nobody waits, and every thread that is inside may pass.
pub proof fn law_notify_all_lets_all_go(condvar: CondvarState, tid: isize)
    ensures
        condvar.all_notified().waiters.len() == 0,
        condvar.all_notified().semas.contains_key(tid) <==> condvar.semas.contains_key(tid),
        condvar.semas.contains_key(tid) ==> condvar.all_notified().semas[tid] == (SemaState {
            value: 1,
            waiters: Seq::empty(),
        }),
        condvar.waiters.len() == 0 ==> forall|manager: ManagerState| #[trigger]
            condvar.after_notify_all(manager) == manager,
{
    if condvar.waiters.len() == 0 {
        assert forall|manager: ManagerState| #[trigger]
            condvar.after_notify_all(manager) == manager by {
            reveal(Seq::filter);
            assert(notify_order(condvar.waiters) =~= Seq::<isize>::empty());
        }
    }
}

/// A thread can be notified if and only if it is blocked in case it is asleep.
pub proof fn law_notified_threads_are_blocked(
    condvar: CondvarState,
    manager: ManagerState,
    tid: isize,
    i: int,
)
    ensures
        condvar.can_notify(manager, tid) <==> condvar.semas[tid].waiters.len() == 0 || (
        manager.threads.contains_key(tid) && manager.threads[tid].status == Status::Blocked),
        is_notified_first(condvar.waiters, i) ==> condvar.can_notify_next(manager)
            == condvar.can_notify(manager, condvar.waiters[i].thread),
        condvar.waiters.len() == 0 ==> condvar.can_notify_next(manager),
        condvar.can_notify_all(manager) && 0 <= i < condvar.waiters.len() ==> condvar.can_notify(
            manager,
            condvar.waiters[i].thread,
        ),
{
    if is_notified_first(condvar.waiters, i) {
        lemma_notified_first_is_picked(condvar.waiters, i);
    }
}

/// All waiters of a semaphore are blocked if and only if each of them is known and blocked.
pub proof fn law_all_waiters_are_blocked(sema: SemaState, manager: ManagerState)
    ensures
        sema.all_blocked(manager) <==> forall|i: int|
            0 <= i < sema.waiters.len() ==> manager.threads.contains_key(
                #[trigger] sema.waiters[i],
            ) && manager.threads[sema.waiters[i]].status == Status::Blocked,
{
}

} // verus!
