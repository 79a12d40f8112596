//! What holds of threads and their scheduling as a whole.

use vstd::prelude::*;
use vstd::set_lib::lemma_len_subset;

use crate::text::decimal;
use crate::thread::imp::{
    donated, donation_at, for_other_lock, lemma_donated, next_tid, rescheduled, with_donation,
    BuilderState, ContextState, Donation, Status, ThreadState,
};
use crate::thread::scheduler::priority::{
    lemma_top_level, lemma_top_level_is, lemma_without, queued, top_level, without,
};
use crate::thread::sleeping::{
    by_urgency, due, due_are_blocked, due_count, lemma_due, wakes_before, SleepEntry,
};
use crate::thread::state::{
    lemma_lent_wf, lemma_propagated_wf, lemma_registered_wf, lemma_scheduled_wf, lemma_unlent_kept,
    lemma_unlent_wf, lemma_with_base_priority_wf, lemma_with_status_wf, ManagerState, Switch,
};

verus! {

/* -------------------------------- Scheduling ------------------------------- */

/// The thread that gets the processor next is a ready one, and no ready thread is
/// more urgent.
pub proof fn law_most_urgent_is_next(s: ManagerState, next: isize)
    requires
        s.wf(),
        s.next() == Some(next),
    ensures
        s.threads.contains_key(next),
        s.threads[next].status == Status::Ready,
        forall|t: isize|
            #![trigger s.threads[t]]
            s.threads.contains_key(t) && s.threads[t].status == Status::Ready
                ==> s.threads[t].priority <= s.threads[next].priority,
{
    lemma_top_level(s.ready);
    let top = top_level(s.ready);
    assert(s.ready[top].contains(next));
    assert(s.ready_at(next, top));
    assert forall|t: isize|
        #![trigger s.threads[t]]
        s.threads.contains_key(t) && s.threads[t].status
            == Status::Ready implies s.threads[t].priority <= s.threads[next].priority by {
        let level = s.threads[t].priority as int;
        assert(s.ready[level].contains(t));
        if level > top {
            assert(s.ready[level].len() == 0);
        }
    }
}

/// The processor stays where it is only if no thread is ready.
pub proof fn law_some_ready_thread_is_next(s: ManagerState)
    requires
        s.wf(),
    ensures
        s.next() is None <==> forall|t: isize| #[trigger]
            s.threads.contains_key(t) ==> s.threads[t].status != Status::Ready,
{
    lemma_top_level(s.ready);
    if s.next() is Some {
        law_most_urgent_is_next(s, s.next()->0);
    } else {
        assert forall|t: isize| #[trigger] s.threads.contains_key(t) implies s.threads[t].status
            != Status::Ready by {
            if s.threads[t].status == Status::Ready {
                let level = s.threads[t].priority as int;
                assert(s.ready[level].contains(t));
                assert(s.ready[level].len() == 0);
            }
        }
    }
}

/// The thread that has been handed the processor runs, and the one that could have
/// gone on is ready.
pub proof fn law_one_thread_runs(s: ManagerState, next: isize)
    requires
        s.wf(),
        s.next() == Some(next),
    ensures
        s.scheduled().current == next,
        s.scheduled().running().status == Status::Running,
        forall|t: isize|
            #![trigger s.scheduled().threads[t]]
            s.threads.contains_key(t) && s.scheduled().threads[t].status == Status::Running ==> t
                == next,
        s.running().status == Status::Running ==> s.scheduled().threads[s.current].status
            == Status::Ready,
{
    lemma_scheduled_wf(s);
    law_most_urgent_is_next(s, next);
}

/// A thread that is not ready, such as one that has exited, is not handed the
/// processor, and stays as it is.
pub proof fn law_stopped_thread_stays(s: ManagerState, tid: isize)
    requires
        s.wf(),
        s.threads.contains_key(tid),
        s.threads[tid].status == Status::Blocked || s.threads[tid].status == Status::Dying,
    ensures
        s.next() != Some(tid),
        s.scheduled().threads[tid] == s.threads[tid],
        s.after_preemption().threads[tid] == s.threads[tid],
{
    if s.next() is Some {
        law_most_urgent_is_next(s, s.next()->0);
    }
}

/// A thread that has exited is not the one that runs afterwards, if any other one
/// can.
pub proof fn law_exited_thread_leaves(s: ManagerState)
    requires
        s.wf(),
        s.running().status == Status::Running,
        s.next() is Some,
    ensures
        s.stopped(Status::Dying).scheduled().current != s.current,
        s.stopped(Status::Dying).scheduled().threads[s.current].status == Status::Dying,
{
    let dying = s.stopped(Status::Dying);
    lemma_with_status_wf(s, s.current, Status::Dying);
    law_stopped_thread_stays(dying, s.current);
}

/// After a chance for preemption no ready thread is more urgent than the one that
/// runs.
pub proof fn law_preemption_leaves_no_more_urgent(s: ManagerState)
    requires
        s.wf(),
        s.running().status == Status::Running,
    ensures
        s.after_preemption().running().status == Status::Running,
        forall|t: isize|
            #![trigger s.after_preemption().threads[t]]
            s.threads.contains_key(t) && s.after_preemption().threads[t].status == Status::Ready
                ==> s.after_preemption().threads[t].priority
                <= s.after_preemption().running().priority,
{
    lemma_top_level(s.ready);
    let after = s.after_preemption();
    if s.preempted() {
        let next = s.next()->0;
        law_most_urgent_is_next(s, next);
        law_one_thread_runs(s, next);
        let top = top_level(s.ready);
        assert(s.ready[top].contains(next));
        assert(s.ready_at(next, top));
        assert forall|t: isize|
            #![trigger after.threads[t]]
            s.threads.contains_key(t) && after.threads[t].status
                == Status::Ready implies after.threads[t].priority <= after.running().priority by {
            assert(after.threads[t].priority == s.threads[t].priority);
            if t != s.current {
                assert(s.threads[t].status == Status::Ready);
            }
        }
    } else {
        assert forall|t: isize|
            #![trigger after.threads[t]]
            s.threads.contains_key(t) && after.threads[t].status
                == Status::Ready implies after.threads[t].priority <= after.running().priority by {
            let level = s.threads[t].priority as int;
            assert(s.ready[level].contains(t));
            if level > top_level(s.ready) {
                assert(s.ready[level].len() == 0);
            }
        }
    }
}

/// A new thread takes the processor at once if it is more urgent than all others, and
/// leaves it where it is if neither it nor any other ready thread is more urgent than
/// the one that runs.
pub proof fn law_new_thread_preempts(s: ManagerState, thread: ThreadState)
    requires
        s.wf(),
        thread.wf(),
        thread.status == Status::Ready,
        !s.threads.contains_key(thread.tid),
        s.running().status == Status::Running,
    ensures
        (forall|t: isize|
            #![trigger s.threads[t]]
            s.threads.contains_key(t) && (s.threads[t].status == Status::Ready || t == s.current)
                ==> s.threads[t].priority < thread.priority)
            ==> s.registered(thread).after_preemption().current == thread.tid,
        thread.priority <= s.running().priority && !s.preempted()
            ==> s.registered(thread).after_preemption() == s.registered(thread),
{
    let with_new = s.registered(thread);
    lemma_registered_wf(s, thread);
    lemma_top_level(with_new.ready);
    lemma_top_level(s.ready);
    let level = thread.priority as int;
    assert(with_new.ready[level] == s.ready[level].push(thread.tid));
    if forall|t: isize|
        #![trigger s.threads[t]]
        s.threads.contains_key(t) && (s.threads[t].status == Status::Ready || t == s.current)
            ==> s.threads[t].priority < thread.priority {
        assert forall|p: int| level <= p < s.ready.len() implies (
        #[trigger] s.ready[p]).len() == 0 by {
            if s.ready[p].len() > 0 {
                let t = s.ready[p][0];
                assert(s.ready[p].contains(t));
                assert(s.ready_at(t, p));
                assert(s.threads[t].priority < thread.priority);
            }
        }
        assert forall|p: int| level < p < with_new.ready.len() implies (
        #[trigger] with_new.ready[p]).len() == 0 by {
            assert(with_new.ready[p] == s.ready[p]);
        }
        lemma_top_level_is(with_new.ready, level);
        assert(with_new.ready[level][0] == thread.tid);
        assert(with_new.running() == s.running());
    }
    if thread.priority <= s.running().priority && !s.preempted() {
        let top = top_level(with_new.ready);
        if top > s.running().priority {
            assert(with_new.ready[top] == s.ready[top]);
            assert(s.ready[top].len() == 0);
        }
        assert(with_new.running() == s.running());
    }
}

/// The state after the running thread has yielded, the next one as well, and so on.
pub open spec fn yielded(s: ManagerState, times: nat) -> ManagerState
    decreases times,
{
    if times == 0 {
        s
    } else {
        yielded(s.scheduled(), (times - 1) as nat)
    }
}

/// Round robin: of the threads in the highest level each one gets its turn, in the
/// order in which they became ready.
pub proof fn law_round_robin(s: ManagerState, i: nat)
    requires
        s.wf(),
        s.running().status == Status::Running,
        0 <= top_level(s.ready),
        s.running().priority <= top_level(s.ready),
        i < s.ready[top_level(s.ready)].len(),
    ensures
        yielded(s, i + 1).current == s.ready[top_level(s.ready)][i as int],
    decreases i,
{
    lemma_top_level(s.ready);
    let top = top_level(s.ready);
    let level = s.ready[top];
    let next = level[0];
    law_one_thread_runs(s, next);
    law_most_urgent_is_next(s, next);
    lemma_scheduled_wf(s);
    let after = s.scheduled();
    assert(yielded(s, i + 1) == yielded(after, i));
    if i > 0 {
        assert(level.contains(next));
        assert(s.ready_at(next, top));
        assert(after.running().priority == top);
        let own = s.running().priority as int;
        if own == top {
            assert(after.ready[top] == level.drop_first().push(s.current));
        } else {
            assert(after.ready[top] == level.drop_first());
        }
        assert forall|p: int| top < p < after.ready.len() implies (
        #[trigger] after.ready[p]).len() == 0 by {
            assert(after.ready[p] == s.ready[p]);
        }
        assert(after.ready[top].len() > 0);
        lemma_top_level_is(after.ready, top);
        assert(after.ready[top][i - 1] == level[i as int]);
        law_round_robin(after, (i - 1) as nat);
    } else {
        assert(yielded(after, 0) == after);
    }
}

/* -------------------------------- Thread ids ------------------------------- */

/// The next id is new as long as every known thread is below it, and stays so: a thread
/// that is let in under it leaves all below the id after it. After the highest id comes
/// the lowest, so that thread is left out.
pub proof fn law_thread_ids_are_new(s: ManagerState, next: isize, thread: ThreadState)
    requires
        s.below(next),
        thread.tid == next,
    ensures
        !s.threads.contains_key(next),
        next < isize::MAX ==> s.registered(thread).below(next_tid(next)),
        next < isize::MAX ==> next_tid(next) > next,
{
}

/// Nothing that happens to the threads gives one an id that is not below the next one.
pub proof fn law_threads_stay_below(
    s: ManagerState,
    next: isize,
    tid: isize,
    status: Status,
    donation: Donation,
    lock_id: usize,
    steps: nat,
    priority: u32,
    context: ContextState,
)
    requires
        s.wf(),
        s.below(next),
        s.threads.contains_key(tid),
    ensures
        s.scheduled().below(next),
        s.after_preemption().below(next),
        s.stopped(status).below(next),
        s.running().status != Status::Ready && status != Status::Ready ==> s.stopped(
            status,
        ).scheduled().below(next),
        s.woken(tid).below(next),
        s.lent(tid, donation).below(next),
        s.unlent(tid, lock_id).below(next),
        s.propagated(tid, steps).below(next),
        s.with_base_priority(tid, priority).below(next),
        s.with_context(tid, context).below(next),
        s.lock_made().below(next),
        s.lock_copied(lock_id).below(next),
        s.reaped(tid).below(next),
{
    lemma_scheduled_wf(s);
    lemma_propagated_wf(s, tid, steps);
    let stopped = s.stopped(status);
    if s.running().status != Status::Ready && status != Status::Ready {
        lemma_with_status_wf(s, s.current, status);
        lemma_scheduled_wf(stopped);
        assert(stopped.scheduled().threads.dom() == stopped.threads.dom());
    }
    assert forall|t: isize| #[trigger] s.scheduled().threads.contains_key(t) implies t < next by {
        assert(s.scheduled().threads.dom().contains(t));
        assert(s.threads.contains_key(t));
    }
    assert forall|t: isize| #[trigger]
        s.propagated(tid, steps).threads.contains_key(t) implies t < next by {
        assert(s.propagated(tid, steps).threads.dom().contains(t));
        assert(s.threads.contains_key(t));
    }
    if s.running().status != Status::Ready && status != Status::Ready {
        assert forall|t: isize| #[trigger]
            stopped.scheduled().threads.contains_key(t) implies t < next by {
            assert(stopped.scheduled().threads.dom().contains(t));
            assert(stopped.threads.contains_key(t));
        }
    }
}

/* ----------------------------- Priority donation ---------------------------- */

/// The priority that a thread is scheduled by is its own one or one that it has been
/// lent, and none of these is higher.
pub proof fn law_effective_priority(thread: ThreadState)
    requires
        thread.wf(),
    ensures
        thread.priority >= thread.base_priority,
        forall|i: int|
            0 <= i < thread.donations.len() ==> thread.priority >= (
            #[trigger] thread.donations[i]).priority,
        thread.priority == thread.base_priority || exists|i: int|
            0 <= i < thread.donations.len() && thread.priority == (
            #[trigger] thread.donations[i]).priority,
{
    lemma_donated(thread.donations);
}

/// A donation is among those of the thread that it is made to.
proof fn lemma_lent_contains(donations: Seq<Donation>, donation: Donation)
    ensures
        with_donation(donations, donation).contains(donation),
{
    let after = with_donation(donations, donation);
    if exists|i: int| donation_at(donations, donation.donor_tid, donation.lock_id, i) {
        let i = choose|i: int| donation_at(donations, donation.donor_tid, donation.lock_id, i);
        assert(after[i] == donation);
    } else {
        assert(after[donations.len() as int] == donation);
    }
}

/// A thread that has been lent a priority is at least as urgent as that.
pub proof fn law_donation_counts(thread: ThreadState, donation: Donation)
    ensures
        thread.lent(donation).priority >= donation.priority,
        thread.lent(donation).priority >= thread.base_priority,
{
    let donations = with_donation(thread.donations, donation);
    lemma_lent_contains(thread.donations, donation);
    lemma_donated(donations);
    let i = choose|i: int| 0 <= i < donations.len() && donations[i] == donation;
    assert(donations[i].priority <= donated(donations));
}

/// What has been lent for a lock is gone when the lock is let go, and nothing else is.
pub proof fn law_release_ends_donations(thread: ThreadState, lock_id: usize)
    ensures
        forall|d: Donation| #[trigger]
            thread.unlent(lock_id).donations.contains(d) <==> thread.donations.contains(d)
                && d.lock_id != lock_id,
        thread.unlent(lock_id).priority == thread.unlent(lock_id).effective(),
        (forall|d: Donation| #[trigger] thread.donations.contains(d) ==> d.lock_id == lock_id)
            ==> thread.unlent(lock_id).priority == thread.base_priority,
{
    lemma_unlent_kept(thread.donations, lock_id);
    let kept = thread.donations.filter(for_other_lock(lock_id));
    if forall|d: Donation| #[trigger] thread.donations.contains(d) ==> d.lock_id == lock_id {
        if kept.len() > 0 {
            assert(kept.contains(kept[0]));
            assert(thread.donations.contains(kept[0]));
        }
        assert(kept.len() == 0);
    }
}

/// Whether a thread of a list waits for a lock that the next one holds.
pub open spec fn waits_for_next(s: ManagerState, chain: Seq<isize>, k: int) -> bool {
    s.blocker(chain[k]) == Some(chain[k + 1])
}

/// Whether a thread of a list is at most as urgent as the next one.
spec fn yields_to_next(s: ManagerState, chain: Seq<isize>, k: int) -> bool {
    s.threads[chain[k]].priority <= s.threads[chain[k + 1]].priority
}

/// Whether each thread of a list waits for a lock that the next one holds, and the
/// last one waits for nobody.
pub open spec fn waits_along(s: ManagerState, chain: Seq<isize>) -> bool {
    &&& chain.len() > 0
    &&& chain.no_duplicates()
    &&& s.threads.contains_key(chain[0])
    &&& forall|k: int| 0 <= k < chain.len() - 1 ==> #[trigger] waits_for_next(s, chain, k)
    &&& s.blocker(chain.last()) is None
}

/// Lending one's priority to the holder of a lock changes that thread only, and
/// nothing about who waits for whom.
proof fn lemma_lent_changes_one(s: ManagerState, tid: isize, donation: Donation)
    requires
        s.wf(),
        s.threads.contains_key(tid),
        donation.priority <= crate::thread::imp::PRI_MAX,
    ensures
        forall|t: isize| #[trigger]
            s.threads.contains_key(t) ==> s.lent(tid, donation).blocker(t) == s.blocker(t),
        forall|t: isize|
            t != tid && #[trigger] s.threads.contains_key(t) ==> s.lent(tid, donation).threads[t]
                == s.threads[t],
{
}

/// All threads of a chain are known.
proof fn lemma_chain_known(s: ManagerState, chain: Seq<isize>)
    requires
        s.wf(),
        waits_along(s, chain),
    ensures
        forall|k: int| 0 <= k < chain.len() ==> s.threads.contains_key(#[trigger] chain[k]),
        chain.len() <= s.threads.dom().len(),
{
    assert forall|k: int| 0 <= k < chain.len() implies s.threads.contains_key(
        #[trigger] chain[k],
    ) by {
        if k > 0 {
            assert(waits_for_next(s, chain, k - 1));
        }
    }
    chain.unique_seq_to_set();
    assert(chain.to_set().subset_of(s.threads.dom()));
    lemma_len_subset(chain.to_set(), s.threads.dom());
}

/// Following a chain for long enough leaves each thread of it at least as urgent as
/// the one before, and the first one as it was.
proof fn lemma_propagated_along(s: ManagerState, chain: Seq<isize>, steps: nat)
    requires
        s.wf(),
        waits_along(s, chain),
        chain.len() <= steps + 1,
    ensures
        ({
            let after = s.propagated(chain[0], steps);
            &&& forall|k: int|
                0 <= k < chain.len() - 1 ==> #[trigger] yields_to_next(after, chain, k)
            &&& forall|t: isize| #[trigger]
                s.threads.contains_key(t) && !chain.drop_first().contains(t) ==> after.threads[t]
                    == s.threads[t]
        }),
    decreases chain.len(),
{
    lemma_chain_known(s, chain);
    let first = chain[0];
    let rest = chain.drop_first();
    let after = s.propagated(first, steps);
    if rest.len() > 0 {
        let holder = chain[1];
        assert(waits_for_next(s, chain, 0));
        let donation = s.offer(first);
        let lent = s.lent(holder, donation);
        lemma_lent_wf(s, holder, donation);
        lemma_lent_changes_one(s, holder, donation);
        law_donation_counts(s.threads[holder], donation);
        assert forall|k: int| 0 <= k < rest.len() - 1 implies #[trigger] waits_for_next(
            lent,
            rest,
            k,
        ) by {
            assert(waits_for_next(s, chain, k + 1));
            assert(s.threads.contains_key(chain[k + 1]));
        }
        assert(rest.last() == chain.last());
        assert(s.threads.contains_key(chain[chain.len() - 1]));
        assert(waits_along(lent, rest));
        lemma_propagated_along(lent, rest, (steps - 1) as nat);
        assert(after == lent.propagated(holder, (steps - 1) as nat));
        let later = rest.drop_first();
        assert(!later.contains(first)) by {
            if later.contains(first) {
                let k = choose|k: int| 0 <= k < later.len() && later[k] == first;
                assert(chain[k + 2] == chain[0]);
            }
        }
        assert(!later.contains(holder)) by {
            if later.contains(holder) {
                let k = choose|k: int| 0 <= k < later.len() && later[k] == holder;
                assert(chain[k + 2] == chain[1]);
            }
        }
        assert(after.threads[first] == s.threads[first]);
        assert(after.threads[holder] == lent.threads[holder]);
        assert forall|k: int| 0 <= k < chain.len() - 1 implies #[trigger] yields_to_next(
            after,
            chain,
            k,
        ) by {
            if k > 0 {
                assert(yields_to_next(after, rest, k - 1));
            }
        }
        assert forall|t: isize| #[trigger]
            s.threads.contains_key(t) && !rest.contains(t) implies after.threads[t]
            == s.threads[t] by {
            assert(rest[0] == holder);
            assert(t != holder);
            assert(!later.contains(t)) by {
                if later.contains(t) {
                    let k = choose|k: int| 0 <= k < later.len() && later[k] == t;
                    assert(rest[k + 1] == t);
                }
            }
            assert(lent.threads.contains_key(t));
        }
    }
}

/// No priority inversion: once a thread has lent its priority along the chain of the
/// threads that it waits for, each of them is at least as urgent as those that wait for
/// it, directly or through others. Threads outside the chain are as they were.
pub proof fn law_donation_reaches_all_holders(s: ManagerState, chain: Seq<isize>)
    requires
        s.wf(),
        waits_along(s, chain),
    ensures
        ({
            let after = s.fully_propagated(chain[0]);
            &&& forall|j: int, k: int|
                0 <= j <= k < chain.len() ==> after.threads[#[trigger] chain[j]].priority
                    <= after.threads[#[trigger] chain[k]].priority
            &&& after.threads[chain[0]] == s.threads[chain[0]]
            &&& forall|t: isize| #[trigger]
                s.threads.contains_key(t) && !chain.contains(t) ==> after.threads[t]
                    == s.threads[t]
        }),
{
    lemma_chain_known(s, chain);
    lemma_propagated_along(s, chain, s.threads.dom().len());
    let after = s.fully_propagated(chain[0]);
    let rest = chain.drop_first();
    assert forall|j: int, k: int| 0 <= j <= k < chain.len() implies after.threads[
    #[trigger] chain[j]].priority <= after.threads[#[trigger] chain[k]].priority by {
        lemma_rising(after, chain, j, k);
    }
    assert(!rest.contains(chain[0])) by {
        if rest.contains(chain[0]) {
            let k = choose|k: int| 0 <= k < rest.len() && rest[k] == chain[0];
            assert(chain[k + 1] == chain[0]);
        }
    }
    assert forall|t: isize| #[trigger]
        s.threads.contains_key(t) && !chain.contains(t) implies after.threads[t]
        == s.threads[t] by {
        assert(!rest.contains(t)) by {
            if rest.contains(t) {
                let k = choose|k: int| 0 <= k < rest.len() && rest[k] == t;
                assert(chain[k + 1] == t);
            }
        }
    }
}

/// Priorities that do not fall from one thread to the next do not fall at all.
proof fn lemma_rising(s: ManagerState, chain: Seq<isize>, j: int, k: int)
    requires
        0 <= j <= k < chain.len(),
        forall|i: int| 0 <= i < chain.len() - 1 ==> #[trigger] yields_to_next(s, chain, i),
    ensures
        s.threads[chain[j]].priority <= s.threads[chain[k]].priority,
    decreases k - j,
{
    if j < k {
        lemma_rising(s, chain, j + 1, k);
        assert(yields_to_next(s, chain, j));
    }
}

/* --------------------------------- Sleeping -------------------------------- */

/// Nobody wakes up too early, and nobody whose tick has come is left behind.
pub proof fn law_wakes_on_time(entries: Seq<SleepEntry>, now: i64, entry: SleepEntry)
    requires
        by_urgency(entries),
        entries.contains(entry),
    ensures
        ({
            let awake = entries.take(due_count(entries, now) as int);
            let asleep = entries.skip(due_count(entries, now) as int);
            &&& entry.wake_tick <= now <==> awake.contains(entry)
            &&& entry.wake_tick > now <==> asleep.contains(entry)
            &&& entry.wake_tick <= now ==> due(entries, now).contains(entry.thread)
        }),
{
    lemma_due(entries, now);
    let n = due_count(entries, now) as int;
    let awake = entries.take(n);
    let asleep = entries.skip(n);
    let i = choose|i: int| 0 <= i < entries.len() && entries[i] == entry;
    if i < n {
        assert(awake[i] == entry);
        assert(due(entries, now)[i] == entry.thread);
    } else {
        assert(asleep[i - n] == entry);
    }
    if awake.contains(entry) {
        let k = choose|k: int| 0 <= k < awake.len() && awake[k] == entry;
        assert(entries[k] == entry);
    }
    if asleep.contains(entry) {
        let k = choose|k: int| 0 <= k < asleep.len() && asleep[k] == entry;
        assert(entries[n + k] == entry);
    }
}

/// A thread that has gone to sleep wakes up when its tick has come and not before, and
/// so does everybody who slept already.
pub proof fn law_sleep_lasts(
    before: Seq<SleepEntry>,
    after: Seq<SleepEntry>,
    entry: SleepEntry,
    now: i64,
    other: SleepEntry,
)
    requires
        by_urgency(after),
        after.to_multiset() == before.to_multiset().insert(entry),
        other == entry || before.contains(other),
    ensures
        other.wake_tick <= now <==> after.take(due_count(after, now) as int).contains(other),
        other.wake_tick > now <==> after.skip(due_count(after, now) as int).contains(other),
{
    before.to_multiset_ensures();
    after.to_multiset_ensures();
    assert(after.to_multiset().count(other) > 0);
    assert(after.contains(other));
    law_wakes_on_time(after, now, other);
}

/// Whoever wakes up first is ready first: the threads that are due become ready in the
/// order of their ticks, and those with the same tick in the order of their ids.
pub proof fn law_wakes_in_order(entries: Seq<SleepEntry>, now: i64, i: int, j: int)
    requires
        by_urgency(entries),
        0 <= i < j < due(entries, now).len(),
    ensures
        due(entries, now)[i] == entries[i].thread,
        due(entries, now)[j] == entries[j].thread,
        entries[i] == entries[j] || wakes_before(entries[i], entries[j]),
{
    lemma_due(entries, now);
    assert(!wakes_before(entries[j], entries[i]));
}

/// Threads that have been woken up are ready, and no other thread changes.
pub proof fn law_woken_are_ready(s: ManagerState, tids: Seq<isize>, tid: isize)
    requires
        s.threads.contains_key(tid),
        forall|i: int| 0 <= i < tids.len() ==> s.threads.contains_key(#[trigger] tids[i]),
    ensures
        s.all_woken(tids).threads.contains_key(tid),
        tids.contains(tid) ==> s.all_woken(tids).threads[tid] == (ThreadState {
            status: Status::Ready,
            ..s.threads[tid]
        }),
        !tids.contains(tid) ==> s.all_woken(tids).threads[tid] == s.threads[tid],
        s.all_woken(tids).current == s.current,
    decreases tids.len(),
{
    if tids.len() > 0 {
        let rest = tids.drop_last();
        let last = tids.last();
        assert forall|i: int| 0 <= i < rest.len() implies s.threads.contains_key(
            #[trigger] rest[i],
        ) by {
            assert(rest[i] == tids[i]);
        }
        assert(s.threads.contains_key(tids[tids.len() - 1]));
        law_woken_are_ready(s, rest, tid);
        law_woken_are_ready(s, rest, last);
        assert(tids.contains(tid) <==> rest.contains(tid) || tid == last) by {
            if tids.contains(tid) {
                let i = choose|i: int| 0 <= i < tids.len() && tids[i] == tid;
                if i < rest.len() {
                    assert(rest[i] == tid);
                }
            }
            if rest.contains(tid) {
                let i = choose|i: int| 0 <= i < rest.len() && rest[i] == tid;
                assert(tids[i] == tid);
            }
            if tid == last {
                assert(tids[tids.len() - 1] == tid);
            }
        }
    }
}

/* ------------------------------ Field by field ----------------------------- */

/// There are 64 priorities, from 0 to 63, and a level for each.
pub proof fn law_priorities_have_levels(s: ManagerState, tid: isize)
    requires
        s.wf(),
        s.threads.contains_key(tid),
    ensures
        s.ready.len() == 64,
        s.threads[tid].priority < 64,
        s.threads[tid].base_priority < 64,
{
}

/// A thread that becomes ready, or comes in, stands at the end of the level of its priority,
/// behind all who are ready already. Nothing else changes.
pub proof fn law_ready_threads_line_up(s: ManagerState, tid: isize, thread: ThreadState)
    ensures
        ({
            let p = s.threads[tid].priority as int;
            s.woken(tid) == (ManagerState {
                threads: s.threads.insert(
                    tid,
                    ThreadState { status: Status::Ready, ..s.threads[tid] },
                ),
                current: s.current,
                ready: s.ready.update(p, s.ready[p].push(tid)),
                holders: s.holders,
                next_lock: s.next_lock,
            })
        }),
        ({
            let p = thread.priority as int;
            s.registered(thread) == (ManagerState {
                threads: s.threads.insert(thread.tid, thread),
                current: s.current,
                ready: s.ready.update(p, s.ready[p].push(thread.tid)),
                holders: s.holders,
                next_lock: s.next_lock,
            })
        }),
{
}

/// Waking up some threads is waking up one after the other, in their order.
pub proof fn law_woken_one_by_one(s: ManagerState, tids: Seq<isize>, tid: isize)
    ensures
        s.all_woken(Seq::empty()) == s,
        s.all_woken(tids.push(tid)) == s.all_woken(tids).woken(tid),
{
    assert(tids.push(tid).drop_last() =~= tids);
}

/// A thread that stops has another status. Nothing else changes.
pub proof fn law_stopping_changes_the_status(s: ManagerState, status: Status)
    ensures
        s.stopped(status) == (ManagerState {
            threads: s.threads.insert(
                s.current,
                ThreadState { status, ..s.threads[s.current] },
            ),
            current: s.current,
            ready: s.ready,
            holders: s.holders,
            next_lock: s.next_lock,
        }),
{
}

/// What handing the processor on does: the thread that has waited longest in the highest
/// level with a thread in it runs, and leaves its level. The one that ran before is ready,
/// at the end of its level, if it was not stopped. Nothing else changes.
pub proof fn law_schedule_takes_the_head(s: ManagerState, level: int)
    requires
        s.wf(),
        0 <= level < s.ready.len(),
        s.ready[level].len() > 0,
        forall|p: int| level < p < s.ready.len() ==> (#[trigger] s.ready[p]).len() == 0,
    ensures
        ({
            let next = s.ready[level][0];
            let me = s.threads[s.current];
            let p = me.priority as int;
            let queue = s.ready[level];
            let left = s.ready.update(level, queue.subrange(1, queue.len() as int));
            let runs = ThreadState { status: Status::Running, ..s.threads[next] };
            &&& s.switch() == Some(Switch { previous: s.current, next })
            &&& me.status == Status::Running ==> next != s.current && s.scheduled() == (
            ManagerState {
                threads: s.threads.insert(
                    s.current,
                    ThreadState { status: Status::Ready, ..me },
                ).insert(next, runs),
                current: next,
                ready: left.update(p, left[p].push(s.current)),
                holders: s.holders,
                next_lock: s.next_lock,
            })
            &&& me.status != Status::Running ==> s.scheduled() == (ManagerState {
                threads: s.threads.insert(next, runs),
                current: next,
                ready: left,
                holders: s.holders,
                next_lock: s.next_lock,
            })
        }),
{
    lemma_top_level_is(s.ready, level);
    let next = s.ready[level][0];
    assert(s.ready[level].contains(next));
    assert(s.ready_at(next, level));
    assert(s.ready[level].drop_first() =~= s.ready[level].subrange(
        1,
        s.ready[level].len() as int,
    ));
}

/// Where no thread is ready the processor stays where it is.
pub proof fn law_schedule_without_ready_threads(s: ManagerState)
    requires
        forall|p: int| 0 <= p < s.ready.len() ==> (#[trigger] s.ready[p]).len() == 0,
    ensures
        s.scheduled() == s,
        s.switch() is None,
{
    lemma_top_level_is(s.ready, -1);
}

/// The processor is handed on if and only if some ready thread is more urgent than the one
/// that runs, and not for one that is as urgent.
pub proof fn law_preemption_is_for_the_more_urgent(s: ManagerState)
    requires
        s.wf(),
    ensures
        ({
            let urgent = exists|t: isize|
                #![trigger s.threads[t]]
                s.threads.contains_key(t) && s.threads[t].status == Status::Ready
                    && s.threads[t].priority > s.threads[s.current].priority;
            &&& urgent ==> s.after_preemption() == s.scheduled() && s.preemption() == s.switch()
            &&& !urgent ==> s.after_preemption() == s && s.preemption() is None
        }),
{
    lemma_top_level(s.ready);
    let top = top_level(s.ready);
    if top >= 0 {
        let t = s.ready[top][0];
        assert(s.ready[top].contains(t));
        assert(s.ready_at(t, top));
        assert(s.threads[t].priority == top);
    }
    assert forall|t: isize|
        #![trigger s.threads[t]]
        s.threads.contains_key(t) && s.threads[t].status == Status::Ready implies
        s.threads[t].priority <= top by {
        assert(s.ready[s.threads[t].priority as int].contains(t));
        assert(s.ready[s.threads[t].priority as int].len() > 0);
    }
}

/// Whether a priority is the highest of a thread's own one and of what it is lent.
pub open spec fn is_highest(priority: u32, own: u32, donations: Seq<Donation>) -> bool {
    &&& priority >= own
    &&& forall|i: int| 0 <= i < donations.len() ==> (#[trigger] donations[i]).priority <= priority
    &&& priority == own || exists|i: int|
        0 <= i < donations.len() && (#[trigger] donations[i]).priority == priority
}

/// What a donation is good for: it joins those that the thread has been lent, in place of
/// an earlier one of the same donor for the same lock, and the thread is as urgent as the
/// highest of all and its own priority. Nothing else about the thread changes.
pub proof fn law_lent_thread(thread: ThreadState, donation: Donation, i: int)
    ensures
        ({
            let after = thread.lent(donation);
            let same = |d: Donation|
                d.donor_tid == donation.donor_tid && d.lock_id == donation.lock_id;
            &&& after == (ThreadState {
                donations: after.donations,
                priority: after.priority,
                ..thread
            })
            &&& is_highest(after.priority, thread.base_priority, after.donations)
            &&& (forall|j: int|
                0 <= j < thread.donations.len() ==> !same(#[trigger] thread.donations[j]))
                ==> after.donations == thread.donations.push(donation)
            &&& 0 <= i < thread.donations.len() && same(thread.donations[i]) && (forall|j: int|
                0 <= j < i ==> !same(#[trigger] thread.donations[j])) ==> after.donations
                == thread.donations.update(i, donation)
        }),
{
    let after = thread.lent(donation);
    lemma_donated(after.donations);
    if 0 <= i < thread.donations.len() && donation_at(
        thread.donations,
        donation.donor_tid,
        donation.lock_id,
        i,
    ) {
        let k = choose|k: int|
            donation_at(thread.donations, donation.donor_tid, donation.lock_id, k);
        assert(donation_at(thread.donations, donation.donor_tid, donation.lock_id, k));
        if k < i {
            assert(!(thread.donations[k].donor_tid == donation.donor_tid
                && thread.donations[k].lock_id == donation.lock_id));
        } else if i < k {
            assert(!(thread.donations[i].donor_tid == donation.donor_tid
                && thread.donations[i].lock_id == donation.lock_id));
        }
    }
}

/// What lapses with a lock: what the thread has been lent for it, and nothing else; the
/// thread is as urgent as the highest of what is left and its own priority. Nothing else
/// about the thread changes.
pub proof fn law_unlent_thread(thread: ThreadState, lock_id: usize)
    ensures
        ({
            let after = thread.unlent(lock_id);
            &&& after == (ThreadState {
                donations: after.donations,
                priority: after.priority,
                ..thread
            })
            &&& forall|d: Donation| #[trigger]
                after.donations.contains(d) <==> thread.donations.contains(d) && d.lock_id
                    != lock_id
            &&& is_highest(after.priority, thread.base_priority, after.donations)
        }),
{
    lemma_unlent_kept(thread.donations, lock_id);
    lemma_donated(thread.unlent(lock_id).donations);
}

/// A thread's own priority is what it has been set to, and the thread is as urgent as the
/// highest of that and what it is lent. No other thread changes, and no level if the
/// thread is not ready.
pub proof fn law_own_priority_is_set(s: ManagerState, tid: isize, priority: u32)
    ensures
        ({
            let after = s.with_base_priority(tid, priority);
            let thread = after.threads[tid];
            &&& thread == (ThreadState {
                base_priority: priority,
                priority: thread.priority,
                ..s.threads[tid]
            })
            &&& is_highest(thread.priority, priority, s.threads[tid].donations)
            &&& after.threads == s.threads.insert(tid, thread)
            &&& after.current == s.current
            &&& after.holders == s.holders
            &&& after.next_lock == s.next_lock
            &&& s.threads[tid].status != Status::Ready ==> after.ready == s.ready
        }),
{
    lemma_donated(s.threads[tid].donations);
}

/// A queue without a thread that stands in it once is the queue with its place closed.
pub proof fn lemma_without_is_remove(queue: Seq<isize>, tid: isize, i: int)
    requires
        queue.no_duplicates(),
        0 <= i < queue.len(),
        queue[i] == tid,
    ensures
        without(queue, tid) == queue.remove(i),
    decreases queue.len(),
{
    reveal(Seq::filter);
    let rest = queue.drop_last();
    if i == queue.len() - 1 {
        assert(!rest.contains(tid));
        lemma_without(rest, tid);
        assert(queue.remove(i) =~= rest);
    } else {
        assert(queue.last() != tid);
        lemma_without_is_remove(rest, tid, i);
        assert(queue.remove(i) =~= rest.remove(i).push(queue.last()));
    }
}

/// A ready thread whose priority changes, as it is lent something, gives something back or
/// gets another one of its own, leaves its place for the end of the level of its new
/// priority; one that is not ready, or as urgent as before, changes no level. No other
/// thread changes.
pub proof fn law_ready_thread_moves(
    s: ManagerState,
    tid: isize,
    donation: Donation,
    lock_id: usize,
    priority: u32,
    i: int,
)
    requires
        s.wf(),
        s.threads.contains_key(tid),
        donation.priority < 64,
        priority < 64,
        s.threads[tid].status == Status::Ready ==> {
            let queue = s.ready[s.threads[tid].priority as int];
            0 <= i < queue.len() && queue[i] == tid
        },
    ensures
        moves(s, s.lent(tid, donation), tid, i),
        moves(s, s.unlent(tid, lock_id), tid, i),
        moves(s, s.with_base_priority(tid, priority), tid, i),
        s.lent(tid, donation).threads[tid] == s.threads[tid].lent(donation),
        s.unlent(tid, lock_id).threads[tid] == s.threads[tid].unlent(lock_id),
{
    lemma_lent_wf(s, tid, donation);
    lemma_unlent_wf(s, tid, lock_id);
    lemma_with_base_priority_wf(s, tid, priority);
    lemma_moves(s, s.lent(tid, donation).threads[tid], i);
    lemma_moves(s, s.unlent(tid, lock_id).threads[tid], i);
    lemma_moves(s, s.with_base_priority(tid, priority).threads[tid], i);
}

/// Whether a thread has got another priority and nothing but its place in the levels, where
/// it stood at place `i`, has changed with it.
pub open spec fn moves(s: ManagerState, after: ManagerState, tid: isize, i: int) -> bool {
    let old_level = s.threads[tid].priority as int;
    let new_level = after.threads[tid].priority as int;
    &&& after.threads == s.threads.insert(tid, after.threads[tid])
    &&& after.threads[tid].status == s.threads[tid].status
    &&& after.current == s.current
    &&& after.holders == s.holders
    &&& after.next_lock == s.next_lock
    &&& after.ready == (if s.threads[tid].status == Status::Ready && new_level != old_level {
        s.ready.update(old_level, s.ready[old_level].remove(i)).update(
            new_level,
            s.ready[new_level].push(tid),
        )
    } else {
        s.ready
    })
}

/// A thread moves from its level to the end of another one.
proof fn lemma_moves(s: ManagerState, after: ThreadState, i: int)
    requires
        s.wf(),
        s.threads.contains_key(after.tid),
        after.status == s.threads[after.tid].status,
        after.priority < 64,
        after.status == Status::Ready ==> {
            let queue = s.ready[s.threads[after.tid].priority as int];
            0 <= i < queue.len() && queue[i] == after.tid
        },
    ensures
        moves(
            s,
            ManagerState {
                ready: rescheduled(s.ready, s.threads[after.tid], after),
                ..s.with_thread(after.tid, after)
            },
            after.tid,
            i,
        ),
{
    let tid = after.tid;
    let old_level = s.threads[tid].priority as int;
    let new_level = after.priority as int;
    if after.status == Status::Ready && new_level != old_level {
        assert(s.ready[old_level].contains(tid));
        assert(queued(s.ready, tid));
        lemma_without_is_remove(s.ready[old_level], tid, i);
        assert forall|p: int| 0 <= p < s.ready.len() && p != old_level implies without(
            #[trigger] s.ready[p],
            tid,
        ) == s.ready[p] by {
            lemma_without(s.ready[p], tid);
            if s.ready[p].contains(tid) {
                assert(s.ready_at(tid, p));
            }
        }
        assert(rescheduled(s.ready, s.threads[tid], after) =~= s.ready.update(
            old_level,
            s.ready[old_level].remove(i),
        ).update(new_level, s.ready[new_level].push(tid)));
    }
}

/// Whom a thread waits for: the holder of the lock that it waits for, if there is one.
pub proof fn law_blocker_holds_the_lock(s: ManagerState, tid: isize, holder: isize)
    ensures
        s.blocker(tid) == Some(holder) <==> exists|l: usize|
            s.threads[tid].waiting_lock == Some(l) && #[trigger] s.holders.contains_key(l)
                && s.holders[l] == holder,
{
    if s.blocker(tid) == Some(holder) {
        let l = s.threads[tid].waiting_lock->0;
        assert(s.holders.contains_key(l));
    }
}

/// What goes along a chain of threads that wait for each other: each one is lent, by the
/// one before and for the lock that this one waits for, the priority that this one has got,
/// and nothing else. Nobody is lent more than there is.
pub proof fn law_donation_is_the_waiters_priority(s: ManagerState, chain: Seq<isize>, k: int)
    requires
        s.wf(),
        waits_along(s, chain),
        0 <= k < chain.len() - 1,
    ensures
        ({
            let after = s.fully_propagated(chain[0]);
            let donation = Donation {
                donor_tid: chain[k],
                lock_id: s.threads[chain[k]].waiting_lock->0,
                priority: after.threads[chain[k]].priority,
            };
            &&& after.threads[chain[0]] == s.threads[chain[0]]
            &&& after.threads[chain[k + 1]] == s.threads[chain[k + 1]].lent(donation)
            &&& after.holders == s.holders
            &&& after.current == s.current
            &&& after.next_lock == s.next_lock
        }),
{
    lemma_chain_known(s, chain);
    lemma_propagated_exactly(s, chain, s.threads.dom().len(), k);
    lemma_propagated_wf(s, chain[0], s.threads.dom().len());
    law_donation_reaches_all_holders(s, chain);
}

/// What each thread of a chain is lent.
proof fn lemma_propagated_exactly(s: ManagerState, chain: Seq<isize>, steps: nat, k: int)
    requires
        s.wf(),
        waits_along(s, chain),
        chain.len() <= steps + 1,
        0 <= k < chain.len() - 1,
    ensures
        ({
            let after = s.propagated(chain[0], steps);
            after.threads[chain[k + 1]] == s.threads[chain[k + 1]].lent(
                (Donation {
                    donor_tid: chain[k],
                    lock_id: s.threads[chain[k]].waiting_lock->0,
                    priority: after.threads[chain[k]].priority,
                }),
            )
        }),
    decreases chain.len(),
{
    lemma_chain_known(s, chain);
    assert(waits_for_next(s, chain, 0));
    let first = chain[0];
    let holder = chain[1];
    let rest = chain.drop_first();
    let lent = s.lent(holder, s.offer(first));
    assert(s.threads.contains_key(first));
    assert(s.threads[first].wf());
    lemma_lent_wf(s, holder, s.offer(first));
    lemma_lent_changes_one(s, holder, s.offer(first));
    assert forall|j: int| 0 <= j < rest.len() - 1 implies #[trigger] waits_for_next(
        lent,
        rest,
        j,
    ) by {
        assert(waits_for_next(s, chain, j + 1));
        assert(rest[j] == chain[j + 1]);
        assert(rest[j + 1] == chain[j + 2]);
        assert(s.threads.contains_key(chain[j + 1]));
    }
    assert(rest.last() == chain.last());
    assert(s.threads.contains_key(chain.last()));
    assert(waits_along(lent, rest));
    lemma_propagated_along(lent, rest, (steps - 1) as nat);
    let after = s.propagated(first, steps);
    assert(after == lent.propagated(holder, (steps - 1) as nat));
    // The first thread of the chain is not in the rest, and neither is its holder behind
    // itself.
    assert(!rest.contains(first));
    let behind = rest.drop_first();
    assert(!behind.contains(holder)) by {
        if behind.contains(holder) {
            let m = choose|m: int| 0 <= m < behind.len() && behind[m] == holder;
            assert(chain[m + 2] == chain[1]);
        }
    }
    assert(!behind.contains(first)) by {
        if behind.contains(first) {
            let m = choose|m: int| 0 <= m < behind.len() && behind[m] == first;
            assert(chain[m + 2] == chain[0]);
        }
    }
    assert(lent.threads.contains_key(first));
    assert(lent.threads.contains_key(holder));
    if k == 0 {
        assert(after.threads[holder] == lent.threads[holder]);
        assert(after.threads[first] == s.threads[first]);
    } else {
        lemma_propagated_exactly(lent, rest, (steps - 1) as nat, k - 1);
        assert(rest[k - 1] == chain[k]);
        assert(rest[k] == chain[k + 1]);
        assert(chain[k + 1] != holder);
        assert(s.threads.contains_key(chain[k + 1]));
        assert(s.threads.contains_key(chain[k]));
        assert(lent.threads[chain[k + 1]] == s.threads[chain[k + 1]]);
        assert(lent.threads[chain[k]].waiting_lock == s.threads[chain[k]].waiting_lock);
    }
}

/// A thread can be forgotten if and only if it has exited, does not run, and holds no lock;
/// and then nothing but that thread goes.
pub proof fn law_forgotten_threads_are_done(s: ManagerState, tid: isize)
    ensures
        s.can_reap(tid) <==> {
            &&& s.threads.contains_key(tid)
            &&& s.threads[tid].status == Status::Dying
            &&& tid != s.current
            &&& forall|l: usize| #[trigger] s.holders.contains_key(l) ==> s.holders[l] != tid
        },
        s.reaped(tid) == (ManagerState {
            threads: s.threads.remove(tid),
            current: s.current,
            ready: s.ready,
            holders: s.holders,
            next_lock: s.next_lock,
        }),
{
}

/// The registers on record are those that a thread has been left with. Nothing else
/// changes.
pub proof fn law_registers_are_recorded(s: ManagerState, tid: isize, context: ContextState)
    ensures
        s.with_context(tid, context) == (ManagerState {
            threads: s.threads.insert(tid, ThreadState { context, ..s.threads[tid] }),
            current: s.current,
            ready: s.ready,
            holders: s.holders,
            next_lock: s.next_lock,
        }),
{
}

/// A thread that has been built is ready, with what its builder has collected; nobody has
/// lent it anything and it waits for nothing. It starts at the given address on an empty
/// stack, and finds its main function in the first register that calls keep.
pub proof fn law_built_thread_starts_afresh(
    builder: BuilderState,
    tid: isize,
    thread_entry: usize,
    stack: usize,
)
    requires
        stack + 16384 <= usize::MAX,
    ensures
        ({
            let thread = builder.built(tid, thread_entry, stack);
            &&& thread.tid == tid
            &&& thread.name == builder.name
            &&& thread.stack == stack
            &&& thread.status == Status::Ready
            &&& thread.base_priority == builder.priority
            &&& thread.priority == builder.priority
            &&& thread.waiting_lock is None
            &&& thread.donations.len() == 0
            &&& thread.userproc == builder.userproc
            &&& thread.pagetable == builder.pagetable
            &&& thread.context.ra == thread_entry
            &&& thread.context.sp == stack + 16384
            &&& thread.context.s.len() == 12
            &&& thread.context.s[0] == builder.function
            &&& forall|r: int| 0 < r < 12 ==> #[trigger] thread.context.s[r] == 0
        }),
{
}

/// Ids are handed out one after the other. After the highest comes the lowest.
pub proof fn law_ids_count_upwards(tid: isize)
    ensures
        tid < isize::MAX ==> next_tid(tid) == tid + 1,
        tid == isize::MAX ==> next_tid(tid) == isize::MIN,
{
}

/// Sleeping threads stand in the order in which they wake up: by their ticks, and those of
/// one tick by their ids. An entry that wakes up earlier is the greater one.
pub proof fn law_sleepers_are_sorted(entries: Seq<SleepEntry>, i: int, j: int)
    requires
        0 <= i < j < entries.len(),
    ensures
        by_urgency(entries) ==> {
            ||| entries[i].wake_tick < entries[j].wake_tick
            ||| entries[i].wake_tick == entries[j].wake_tick && entries[i].thread
                <= entries[j].thread
        },
        wakes_before(entries[i], entries[j]) <==> {
            ||| entries[i].wake_tick < entries[j].wake_tick
            ||| entries[i].wake_tick == entries[j].wake_tick && entries[i].thread
                < entries[j].thread
        },
        vstd::std_specs::cmp::PartialOrdSpec::partial_cmp_spec(&entries[i], &entries[j])
            == Some(core::cmp::Ordering::Greater) <==> wakes_before(entries[i], entries[j]),
        vstd::std_specs::cmp::PartialOrdSpec::partial_cmp_spec(&entries[i], &entries[j])
            == Some(core::cmp::Ordering::Less) <==> wakes_before(entries[j], entries[i]),
{
    if by_urgency(entries) {
        assert(!wakes_before(entries[j], entries[i]));
    }
}

/// The threads that wake up at a tick are those whose tick has come: an entry in front wakes
/// up if and only if its tick is not later, and what is left are the others, in their order.
pub proof fn law_due_threads_wake_up(entries: Seq<SleepEntry>, now: i64, i: int)
    requires
        by_urgency(entries),
        0 <= i < entries.len(),
    ensures
        ({
            let n = due_count(entries, now);
            &&& n <= entries.len()
            &&& due(entries, now).len() == n
            &&& i < n <==> entries[i].wake_tick <= now
            &&& i < n ==> due(entries, now)[i] == entries[i].thread
        }),
{
    lemma_due(entries, now);
}

/// The number that some digits stand for.
pub open spec fn digits_value(digits: Seq<char>) -> int
    decreases digits.len(),
{
    if digits.len() == 0 {
        0
    } else {
        10 * digits_value(digits.drop_last()) + (digits.last() as int - '0' as int)
    }
}

/// A number is written in decimal digits, without a zero in front, and reads back.
pub proof fn law_decimals_read_back(n: nat)
    ensures
        decimal(n).len() > 0,
        forall|i: int| 0 <= i < decimal(n).len() ==> '0' <= #[trigger] decimal(n)[i] <= '9',
        digits_value(decimal(n)) == n,
        decimal(n)[0] == '0' ==> n == 0,
    decreases n,
{
    reveal_with_fuel(digits_value, 2);
    if n >= 10 {
        law_decimals_read_back(n / 10);
        assert(decimal(n).drop_last() =~= decimal(n / 10));
        assert(decimal(n)[0] == decimal(n / 10)[0]);
        assert(digits_value(decimal(n)) == 10 * (n / 10) + n % 10);
    } else {
        assert(decimal(n).drop_last() =~= Seq::<char>::empty());
    }
}

/// A thread is described by its name, its id in decimal notation, and its status.
pub proof fn law_description(thread: ThreadState)
    ensures
        ({
            let id = if thread.tid < 0 {
                seq!['-'] + decimal((-thread.tid) as nat)
            } else {
                decimal(thread.tid as nat)
            };
            let status = match thread.status {
                Status::Ready => "Ready"@,
                Status::Running => "Running"@,
                Status::Blocked => "Blocked"@,
                Status::Dying => "Dying"@,
            };
            thread.described() == thread.name + "("@ + id + ")["@ + status + "]"@
        }),
{
}

/// The threads that are due can be woken up if and only if each of them is known and
/// blocked, and is due once.
pub proof fn law_due_threads_are_blocked(
    manager: ManagerState,
    entries: Seq<SleepEntry>,
    now: i64,
)
    requires
        by_urgency(entries),
    ensures
        due_are_blocked(manager, entries, now) <==> {
            &&& forall|i: int|
                0 <= i < entries.len() && (#[trigger] entries[i]).wake_tick <= now
                    ==> manager.threads.contains_key(entries[i].thread)
                    && manager.threads[entries[i].thread].status == Status::Blocked
            &&& forall|i: int, j: int|
                0 <= i < j < entries.len() && (#[trigger] entries[i]).wake_tick <= now && (
                #[trigger] entries[j]).wake_tick <= now ==> entries[i].thread != entries[j].thread
        },
{
    lemma_due(entries, now);
    let all = due(entries, now);
    let n = due_count(entries, now);
    if due_are_blocked(manager, entries, now) {
        assert forall|i: int|
            0 <= i < entries.len() && (#[trigger] entries[i]).wake_tick <= now implies
            manager.threads.contains_key(entries[i].thread)
            && manager.threads[entries[i].thread].status == Status::Blocked by {
            assert(all[i] == entries[i].thread);
            assert(all.contains(all[i]));
        }
        assert forall|i: int, j: int|
            0 <= i < j < entries.len() && (#[trigger] entries[i]).wake_tick <= now && (
            #[trigger] entries[j]).wake_tick <= now implies entries[i].thread
            != entries[j].thread by {
            assert(all[i] != all[j]);
        }
    } else {
        if !all.no_duplicates() {
            let (i, j) = choose|i: int, j: int|
                0 <= i < j < all.len() && #[trigger] all[i] == #[trigger] all[j];
            assert(entries[i].wake_tick <= now && entries[j].wake_tick <= now);
        } else {
            let t = choose|t: isize|
                #[trigger] all.contains(t) && !(manager.threads.contains_key(t)
                    && manager.threads[t].status == Status::Blocked);
            let i = choose|i: int| 0 <= i < all.len() && all[i] == t;
            assert(entries[i].wake_tick <= now);
        }
    }
}

} // verus!
