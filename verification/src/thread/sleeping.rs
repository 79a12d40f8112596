//! Threads that sleep until some tick of the timer.

use std::cmp::Ordering;
use std::collections::VecDeque;
use std::mem::swap;

use vstd::prelude::*;

use crate::thread;
use crate::thread::imp::Status;
use crate::thread::manager::Manager;
use crate::thread::state::{ManagerState, Progress};

verus! {

/// A sleeping thread and the tick at which it wakes up.
///
/// Entries are ordered by urgency: the one that wakes up first is the greatest,
/// and of two with the same tick the one with the lower thread id.
#[derive(Clone, Copy, Debug, PartialEq, Eq, Structural)]
pub struct SleepEntry {
    pub wake_tick: i64,
    pub thread: isize,
}

/// Whether `a` wakes up before `b`.
pub open spec fn wakes_before(a: SleepEntry, b: SleepEntry) -> bool {
    a.wake_tick < b.wake_tick || (a.wake_tick == b.wake_tick && a.thread < b.thread)
}

impl vstd::std_specs::cmp::PartialOrdSpecImpl for SleepEntry {
    open spec fn obeys_partial_cmp_spec() -> bool {
        true
    }

    open spec fn partial_cmp_spec(&self, other: &SleepEntry) -> Option<Ordering> {
        if wakes_before(*self, *other) {
            Some(Ordering::Greater)
        } else if wakes_before(*other, *self) {
            Some(Ordering::Less)
        } else {
            Some(Ordering::Equal)
        }
    }
}

impl PartialOrd for SleepEntry {
    fn partial_cmp(&self, other: &SleepEntry) -> (order: Option<Ordering>) {
        if other.wake_tick < self.wake_tick {
            Some(Ordering::Less)
        } else if other.wake_tick > self.wake_tick {
            Some(Ordering::Greater)
        } else if other.thread < self.thread {
            Some(Ordering::Less)
        } else if other.thread > self.thread {
            Some(Ordering::Greater)
        } else {
            Some(Ordering::Equal)
        }
    }
}

/// The sleeping threads, the one that wakes up first in front.
pub struct Sleepers {
    entries: VecDeque<SleepEntry>,
}

impl View for Sleepers {
    type V = Seq<SleepEntry>;

    closed spec fn view(&self) -> Seq<SleepEntry> {
        self.entries@
    }
}

/// Whether no entry stands behind one that wakes up later.
pub open spec fn by_urgency(entries: Seq<SleepEntry>) -> bool {
    forall|i: int, j: int|
        0 <= i < j < entries.len() ==> !wakes_before(#[trigger] entries[j], #[trigger] entries[i])
}

/// How many entries in front are due at tick `now`.
pub open spec fn due_count(entries: Seq<SleepEntry>, now: i64) -> nat
    decreases entries.len(),
{
    if entries.len() > 0 && entries[0].wake_tick <= now {
        1 + due_count(entries.drop_first(), now)
    } else {
        0
    }
}

/// The threads that wake up at tick `now`, in the order in which they do.
pub open spec fn due(entries: Seq<SleepEntry>, now: i64) -> Seq<isize> {
    entries.take(due_count(entries, now) as int).map_values(|e: SleepEntry| e.thread)
}

/// The due entries are those whose tick has come, all of them and no others.
pub proof fn lemma_due(entries: Seq<SleepEntry>, now: i64)
    requires
        by_urgency(entries),
    ensures
        due_count(entries, now) <= entries.len(),
        forall|i: int|
            0 <= i < entries.len() ==> ((#[trigger] entries[i]).wake_tick <= now <==> i < due_count(
                entries,
                now,
            )),
    decreases entries.len(),
{
    if entries.len() > 0 {
        let rest = entries.drop_first();
        assert(by_urgency(rest));
        lemma_due(rest, now);
        assert forall|i: int| 0 <= i < entries.len() implies ((
        #[trigger] entries[i]).wake_tick <= now <==> i < due_count(entries, now)) by {
            if i > 0 {
                assert(rest[i - 1] == entries[i]);
                assert(!wakes_before(entries[i], entries[0]));
            }
        }
    }
}

impl Sleepers {
    /// Those who wake up first stand first.
    #[verifier::type_invariant]
    spec fn in_order(self) -> bool {
        by_urgency(self.entries@)
    }

    /// Nobody sleeps.
    pub fn new() -> (sleepers: Self)
        ensures
            sleepers@ == Seq::<SleepEntry>::empty(),
    {
        Sleepers { entries: VecDeque::new() }
    }

    /// The entry that wakes up first.
    pub fn peek(&self) -> (first: Option<SleepEntry>)
        ensures
            first == (if self@.len() == 0 {
                None
            } else {
                Some(self@[0])
            }),
    {
        if self.entries.len() == 0 {
            None
        } else {
            Some(self.entries[0])
        }
    }

    /// Takes the entry that wakes up first.
    pub fn pop(&mut self) -> (first: Option<SleepEntry>)
        ensures
            old(self)@.len() == 0 ==> first is None && final(self)@ == old(self)@,
            old(self)@.len() > 0 ==> first == Some(old(self)@[0]) && final(self)@
                == old(self)@.drop_first(),
            by_urgency(final(self)@),
    {
        proof {
            use_type_invariant(&*self);
        }
        let mut entries: VecDeque<SleepEntry> = VecDeque::new();
        swap(&mut entries, &mut self.entries);
        let first = entries.pop_front();
        self.entries = entries;
        assert(old(self)@.len() > 0 ==> self@ =~= old(self)@.drop_first());
        first
    }

    /// Adds an entry behind those that do not wake up later.
    pub fn push(&mut self, entry: SleepEntry)
        ensures
            by_urgency(final(self)@),
            final(self)@.to_multiset() == old(self)@.to_multiset().insert(entry),
    {
        proof {
            use_type_invariant(&*self);
        }
        let mut i: usize = self.entries.len();
        while i > 0 && entry > self.entries[i - 1]
            invariant
                i <= self.entries@.len(),
                forall|j: int|
                    i <= j < self.entries@.len() ==> wakes_before(
                        entry,
                        #[trigger] self.entries@[j],
                    ),
            decreases i,
        {
            i = i - 1;
        }
        let ghost before = self.entries@;
        let mut entries: VecDeque<SleepEntry> = VecDeque::new();
        swap(&mut entries, &mut self.entries);
        entries.insert(i, entry);
        proof {
            let after = entries@;
            assert(after == before.insert(i as int, entry));
            assert(after[i as int] == entry);
            assert(after.remove(i as int) =~= before);
            after.to_multiset_ensures();
            assert(after.contains(entry));
            assert(after.to_multiset() =~= before.to_multiset().insert(entry));
            assert forall|a: int, b: int| 0 <= a < b < after.len() implies !wakes_before(
                #[trigger] after[b],
                #[trigger] after[a],
            ) by {
                let pa = if a < i { a } else { a - 1 };
                let pb = if b < i { b } else { b - 1 };
                if a != i && b != i {
                    assert(!wakes_before(before[pb], before[pa]));
                } else if a == i {
                    assert(wakes_before(entry, before[pb]));
                } else {
                    assert(!wakes_before(entry, before[i - 1]));
                    assert(a < i - 1 ==> !wakes_before(before[i - 1], before[a]));
                }
            }
        }
        self.entries = entries;
    }
}

/// Whether the threads that are due can be woken up: each is blocked, and is
/// due once.
pub open spec fn due_are_blocked(
    manager: ManagerState,
    entries: Seq<SleepEntry>,
    now: i64,
) -> bool {
    &&& due(entries, now).no_duplicates()
    &&& forall|t: isize| #[trigger]
        due(entries, now).contains(t) ==> manager.threads.contains_key(t)
            && manager.threads[t].status == Status::Blocked
}

/// Whether the threads that are due can be woken up.
pub fn wake_allowed(manager: &Manager, sleepers: &Sleepers, now: i64) -> (allowed: bool)
    ensures
        allowed == due_are_blocked(manager@, sleepers@, now),
{
    let ghost threads = due(sleepers@, now);
    let ghost count = due_count(sleepers@, now);
    proof {
        use_type_invariant(sleepers);
        lemma_due(sleepers@, now);
    }
    let mut i: usize = 0;
    while i < sleepers.entries.len() && sleepers.entries[i].wake_tick <= now
        invariant
            i <= count <= sleepers@.len(),
            sleepers@ == sleepers.entries@,
            count == due_count(sleepers@, now),
            threads == due(sleepers@, now),
            threads.len() == count,
            forall|j: int|
                0 <= j < sleepers@.len() ==> ((#[trigger] sleepers@[j]).wake_tick <= now <==> j
                    < count),
            forall|j: int|
                0 <= j < i ==> manager@.threads.contains_key(#[trigger] threads[j])
                    && manager@.threads[threads[j]].status == Status::Blocked,
            forall|j: int, k: int| 0 <= j < k < i ==> threads[j] != threads[k],
        decreases sleepers@.len() - i,
    {
        let tid = sleepers.entries[i].thread;
        assert(threads[i as int] == tid);
        let blocked = match manager.get(tid) {
            Some(thread) => thread.status() == Status::Blocked,
            None => false,
        };
        if !blocked {
            assert(threads.contains(threads[i as int]));
            return false;
        }
        let mut k: usize = 0;
        while k < i
            invariant
                k <= i < count <= sleepers@.len(),
                sleepers@ == sleepers.entries@,
                count == due_count(sleepers@, now),
                threads == due(sleepers@, now),
                threads.len() == count,
                tid == threads[i as int],
                forall|j: int| 0 <= j < k ==> #[trigger] threads[j] != tid,
            decreases i - k,
        {
            assert(threads[k as int] == sleepers@[k as int].thread);
            if sleepers.entries[k].thread == tid {
                assert(threads[k as int] == threads[i as int]);
                return false;
            }
            k = k + 1;
        }
        i = i + 1;
    }
    assert(i == count);
    true
}

/// Wakes up every thread whose tick has come.
pub fn wake_sleeping_threads(manager: &mut Manager, sleepers: &mut Sleepers, now: i64)
    requires
        old(manager)@.wf(),
        due_are_blocked(old(manager)@, old(sleepers)@, now),
    ensures
        final(manager)@ == old(manager)@.all_woken(due(old(sleepers)@, now)),
        final(sleepers)@ == old(sleepers)@.skip(due_count(old(sleepers)@, now) as int),
        final(manager)@.wf(),
        by_urgency(final(sleepers)@),
{
    let ghost all = sleepers@;
    let ghost count = due_count(all, now);
    let ghost woken = due(all, now);
    let ghost mut i: int = 0;
    proof {
        use_type_invariant(&*sleepers);
        lemma_due(all, now);
        assert(all.skip(0) =~= all);
        assert(woken.take(0) =~= Seq::<isize>::empty());
        assert forall|k: int| 0 <= k < count implies manager@.threads.contains_key(
            #[trigger] woken[k],
        ) by {
            assert(woken.contains(woken[k]));
        }
    }
    loop
        invariant
            0 <= i <= count <= all.len(),
            all == old(sleepers)@,
            count == due_count(all, now),
            woken == due(all, now),
            woken.len() == count,
            forall|k: int|
                0 <= k < all.len() ==> ((#[trigger] all[k]).wake_tick <= now <==> k < count),
            due_are_blocked(old(manager)@, all, now),
            by_urgency(all),
            by_urgency(sleepers@),
            sleepers@ == all.skip(i),
            manager@.wf(),
            manager@ == old(manager)@.all_woken(woken.take(i)),
            forall|k: int|
                i <= k < count ==> manager@.threads.contains_key(#[trigger] woken[k])
                    && manager@.threads[woken[k]] == old(manager)@.threads[woken[k]],
        ensures
            i == count,
            sleepers@ == all.skip(count as int),
            manager@ == old(manager)@.all_woken(woken),
            manager@.wf(),
            by_urgency(sleepers@),
        decreases count - i,
    {
        proof {
            if i < all.len() {
                assert(all[i] == all.skip(i)[0]);
            }
            assert(woken.take(count as int) =~= woken);
        }
        match sleepers.peek() {
            Some(top) if top.wake_tick <= now => {},
            _ => {
                break ;
            },
        }
        match sleepers.pop() {
            Some(entry) => {
                proof {
                    assert(woken[i] == entry.thread);
                    assert(woken.contains(woken[i]));
                    assert(woken.take(i + 1).drop_last() =~= woken.take(i));
                    assert(woken.take(i + 1).last() == woken[i]);
                    assert(all.skip(i).drop_first() =~= all.skip(i + 1));
                }
                thread::wake_up(manager, entry.thread);
                proof {
                    i = i + 1;
                }
            },
            None => {},
        }
    }
}

/// Makes the running thread sleep for the given ticks, from tick `now` on.
pub fn sleep(manager: &mut Manager, sleepers: &mut Sleepers, now: i64, ticks: i64) -> (progress:
    Progress)
    requires
        old(manager)@.wf(),
        ticks > 0 ==> now + ticks <= i64::MAX,
        ticks > 0 ==> old(manager)@.running().status != Status::Ready,
    ensures
        ticks <= 0 ==> {
            &&& progress == Progress::Done
            &&& final(manager)@ == old(manager)@
            &&& final(sleepers)@ == old(sleepers)@
        },
        ticks > 0 ==> {
            &&& progress == Progress::Blocked(
                old(manager)@.stopped(Status::Blocked).switch(),
            )
            &&& final(manager)@ == old(manager)@.stopped(Status::Blocked).scheduled()
            &&& final(sleepers)@.to_multiset() == old(sleepers)@.to_multiset().insert(
                (SleepEntry { wake_tick: (now + ticks) as i64, thread: old(manager)@.current }),
            )
        },
        final(manager)@.wf(),
        by_urgency(final(sleepers)@),
{
    proof {
        use_type_invariant(&*sleepers);
    }
    if ticks <= 0 {
        return Progress::Done;
    }
    let wake_tick = now + ticks;
    sleepers.push(SleepEntry { wake_tick, thread: manager.current_id() });
    Progress::Blocked(thread::block(manager))
}

} // verus!
