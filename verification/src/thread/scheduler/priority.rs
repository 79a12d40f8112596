//! Strict priority scheduling.

use std::collections::VecDeque;

use vstd::prelude::*;

use crate::thread::imp::{Thread, PRI_MAX};

verus! {

/// Strict priority scheduler with round-robin inside the same priority.
///
/// Level `p` holds the ids of the ready threads of priority `p`, the one that
/// has waited longest in front.
pub struct Priority {
    ready: Vec<VecDeque<isize>>,
}

impl View for Priority {
    type V = Seq<Seq<isize>>;

    closed spec fn view(&self) -> Seq<Seq<isize>> {
        Seq::new(self.ready@.len(), |p: int| self.ready@[p]@)
    }
}

/// The number of priority levels.
pub open spec fn level_count() -> nat {
    (PRI_MAX + 1) as nat
}

/// The scheduler without any ready thread.
pub open spec fn no_ready() -> Seq<Seq<isize>> {
    Seq::new(level_count(), |p: int| Seq::<isize>::empty())
}

/// The highest level with a ready thread, or -1 where there is none.
pub open spec fn top_level(ready: Seq<Seq<isize>>) -> int
    decreases ready.len(),
{
    if ready.len() == 0 {
        -1
    } else if ready.last().len() > 0 {
        ready.len() - 1
    } else {
        top_level(ready.drop_last())
    }
}

/// The thread to run next: the head of the highest level that is not empty.
pub open spec fn next_ready(ready: Seq<Seq<isize>>) -> Option<isize> {
    if top_level(ready) < 0 {
        None
    } else {
        Some(ready[top_level(ready)][0])
    }
}

/// The levels after the next thread has left its own.
pub open spec fn next_taken(ready: Seq<Seq<isize>>) -> Seq<Seq<isize>> {
    if top_level(ready) < 0 {
        ready
    } else {
        ready.update(top_level(ready), ready[top_level(ready)].drop_first())
    }
}

/// The levels after thread `tid` has joined the end of level `priority`.
pub open spec fn joined(ready: Seq<Seq<isize>>, tid: isize, priority: int) -> Seq<Seq<isize>> {
    ready.update(priority, ready[priority].push(tid))
}

/// Whether a thread id differs from `tid`.
pub open spec fn other_than(tid: isize) -> spec_fn(isize) -> bool {
    |t: isize| t != tid
}

/// A queue without any occurrence of `tid`.
pub open spec fn without(queue: Seq<isize>, tid: isize) -> Seq<isize> {
    queue.filter(other_than(tid))
}

/// The levels without any occurrence of `tid`.
pub open spec fn levels_without(ready: Seq<Seq<isize>>, tid: isize) -> Seq<Seq<isize>> {
    Seq::new(ready.len(), |p: int| without(ready[p], tid))
}

/// Whether `tid` stands in some level.
pub open spec fn queued(ready: Seq<Seq<isize>>, tid: isize) -> bool {
    exists|p: int| 0 <= p < ready.len() && (#[trigger] ready[p]).contains(tid)
}

/// The levels after a ready thread has moved to the end of another one.
pub open spec fn moved(ready: Seq<Seq<isize>>, tid: isize, priority: int) -> Seq<Seq<isize>> {
    if queued(ready, tid) {
        joined(levels_without(ready, tid), tid, priority)
    } else {
        ready
    }
}

/// `top_level` is the highest level with a thread in it.
pub proof fn lemma_top_level(ready: Seq<Seq<isize>>)
    ensures
        -1 <= top_level(ready) < ready.len(),
        top_level(ready) >= 0 ==> ready[top_level(ready)].len() > 0,
        forall|p: int| top_level(ready) < p < ready.len() ==> (#[trigger] ready[p]).len() == 0,
    decreases ready.len(),
{
    if ready.len() > 0 && ready.last().len() == 0 {
        lemma_top_level(ready.drop_last());
        assert forall|p: int| top_level(ready) < p < ready.len() implies (
        #[trigger] ready[p]).len() == 0 by {
            if p < ready.len() - 1 {
                assert(ready.drop_last()[p] == ready[p]);
            }
        }
    }
}

/// A level with a thread in it and none above is `top_level`.
pub proof fn lemma_top_level_is(ready: Seq<Seq<isize>>, level: int)
    requires
        -1 <= level < ready.len(),
        level >= 0 ==> ready[level].len() > 0,
        forall|p: int| level < p < ready.len() ==> (#[trigger] ready[p]).len() == 0,
    ensures
        top_level(ready) == level,
{
    lemma_top_level(ready);
    let top = top_level(ready);
    if top < level {
        assert(ready[level].len() == 0);
    } else if level < top {
        assert(ready[top].len() == 0);
    }
}

/// What `without` keeps: every other thread, in order, as often as before.
pub proof fn lemma_without(queue: Seq<isize>, tid: isize)
    ensures
        forall|t: isize| without(queue, tid).contains(t) <==> queue.contains(t) && t != tid,
        queue.no_duplicates() ==> without(queue, tid).no_duplicates(),
        !queue.contains(tid) ==> without(queue, tid) == queue,
        without(queue, tid).len() <= queue.len(),
    decreases queue.len(),
{
    reveal(Seq::filter);
    if queue.len() > 0 {
        let rest = queue.drop_last();
        let last = queue.last();
        lemma_without(rest, tid);
        assert(queue == rest.push(last));
        assert forall|t: isize| queue.contains(t) <==> rest.contains(t) || t == last by {
            if queue.contains(t) {
                let i = choose|i: int| 0 <= i < queue.len() && queue[i] == t;
                if i < rest.len() {
                    assert(rest[i] == t);
                }
            }
            if rest.contains(t) {
                let i = choose|i: int| 0 <= i < rest.len() && rest[i] == t;
                assert(queue[i] == t);
            }
            if t == last {
                assert(queue[queue.len() - 1] == t);
            }
        }
        let kept = without(rest, tid);
        if last != tid {
            assert(without(queue, tid) == kept.push(last));
            assert forall|t: isize| kept.push(last).contains(t) <==> kept.contains(t) || t
                == last by {
                if kept.push(last).contains(t) {
                    let i = choose|i: int|
                        0 <= i < kept.push(last).len() && kept.push(last)[i] == t;
                    if i < kept.len() {
                        assert(kept[i] == t);
                    }
                }
                if kept.contains(t) {
                    let i = choose|i: int| 0 <= i < kept.len() && kept[i] == t;
                    assert(kept.push(last)[i] == t);
                }
                if t == last {
                    assert(kept.push(last)[kept.len() as int] == t);
                }
            }
            if queue.no_duplicates() {
                assert(rest.no_duplicates());
                assert(!rest.contains(last));
                assert(!kept.contains(last));
                assert forall|i: int, j: int|
                    0 <= i < j < kept.push(last).len() implies kept.push(last)[i] != kept.push(
                    last,
                )[j] by {
                    if j == kept.len() {
                        assert(kept[i] != last);
                    }
                }
            }
        } else {
            assert(without(queue, tid) == kept);
        }
    } else {
        assert(without(queue, tid) == queue);
    }
}

/// A queue without any occurrence of `tid`, the others in their order.
pub(crate) fn remove_thread(queue: &VecDeque<isize>, tid: isize) -> (kept: VecDeque<isize>)
    ensures
        kept@ == without(queue@, tid),
{
    let mut kept: VecDeque<isize> = VecDeque::new();
    let mut i: usize = 0;
    proof {
        reveal(Seq::filter);
        assert(queue@.take(0) =~= Seq::<isize>::empty());
    }
    while i < queue.len()
        invariant
            i <= queue@.len(),
            kept@ == without(queue@.take(i as int), tid),
        decreases queue@.len() - i,
    {
        proof {
            reveal(Seq::filter);
            assert(queue@.take(i as int + 1).drop_last() =~= queue@.take(i as int));
        }
        if queue[i] != tid {
            kept.push_back(queue[i]);
        }
        i = i + 1;
    }
    assert(queue@.take(i as int) =~= queue@);
    kept
}

/// A queue with the same threads.
pub(crate) fn copy_queue(queue: &VecDeque<isize>) -> (copy: VecDeque<isize>)
    ensures
        copy@ == queue@,
{
    let mut copy: VecDeque<isize> = VecDeque::new();
    let mut i: usize = 0;
    while i < queue.len()
        invariant
            i <= queue@.len(),
            copy@ == queue@.take(i as int),
        decreases queue@.len() - i,
    {
        copy.push_back(queue[i]);
        i = i + 1;
        assert(copy@ =~= queue@.take(i as int));
    }
    assert(copy@ =~= queue@);
    copy
}

impl Clone for Priority {
    /// A scheduler with the same ready threads.
    fn clone(&self) -> (copy: Self)
        ensures
            copy@ == self@,
    {
        proof {
            use_type_invariant(self);
        }
        let mut ready: Vec<VecDeque<isize>> = Vec::new();
        let mut p: usize = 0;
        while p < self.ready.len()
            invariant
                p <= self.ready@.len(),
                ready@.len() == p,
                forall|i: int| 0 <= i < p ==> (#[trigger] ready@[i])@ == self.ready@[i]@,
            decreases self.ready@.len() - p,
        {
            ready.push(copy_queue(&self.ready[p]));
            p = p + 1;
        }
        let copy = Priority { ready };
        assert(copy@ =~= self@);
        copy
    }
}

impl Default for Priority {
    /// The scheduler without any ready thread.
    fn default() -> (scheduler: Self)
        ensures
            scheduler@ == no_ready(),
    {
        let mut ready: Vec<VecDeque<isize>> = Vec::new();
        let mut p: u32 = 0;
        while p <= PRI_MAX
            invariant
                p <= PRI_MAX + 1,
                ready@.len() == p,
                forall|i: int| 0 <= i < p ==> (#[trigger] ready@[i])@ == Seq::<isize>::empty(),
            decreases PRI_MAX + 1 - p,
        {
            ready.push(VecDeque::new());
            p = p + 1;
        }
        let scheduler = Priority { ready };
        assert(scheduler@ =~= no_ready());
        scheduler
    }
}

impl Priority {
    /// There is a level for every priority.
    #[verifier::type_invariant]
    spec fn has_all_levels(self) -> bool {
        self.ready@.len() == level_count()
    }

    /// Puts a thread at the end of the level of its priority.
    pub fn register(&mut self, thread: &Thread)
        requires
            thread@.priority <= PRI_MAX,
        ensures
            final(self)@ == joined(old(self)@, thread@.tid, thread@.priority as int),
    {
        proof {
            use_type_invariant(&*self);
        }
        let p = thread.priority() as usize;
        self.ready[p].push_back(thread.id());
        assert(self@ =~= joined(old(self)@, thread@.tid, thread@.priority as int));
    }

    /// Takes the thread that has waited longest in the highest level that has
    /// one.
    pub fn schedule(&mut self) -> (next: Option<isize>)
        ensures
            next == next_ready(old(self)@),
            final(self)@ == next_taken(old(self)@),
    {
        proof {
            use_type_invariant(&*self);
        }
        let mut p: usize = self.ready.len();
        while p > 0
            invariant
                p <= self.ready@.len() == level_count(),
                self@ == old(self)@,
                forall|i: int| p <= i < self@.len() ==> (#[trigger] self@[i]).len() == 0,
            decreases p,
        {
            p = p - 1;
            assert(self@[p as int] == self.ready@[p as int]@);
            if self.ready[p].len() > 0 {
                proof {
                    lemma_top_level_is(self@, p as int);
                }
                let next = self.ready[p].pop_front();
                assert(self@ =~= next_taken(old(self)@));
                return next;
            }
        }
        proof {
            lemma_top_level_is(self@, -1);
        }
        None
    }

    /// The highest priority among the ready threads.
    pub fn max_priority(&self) -> (highest: Option<u32>)
        ensures
            highest == (if top_level(self@) < 0 {
                None
            } else {
                Some(top_level(self@) as u32)
            }),
    {
        proof {
            use_type_invariant(self);
        }
        let mut p: usize = self.ready.len();
        while p > 0
            invariant
                p <= self.ready@.len() == level_count(),
                self@.len() == self.ready@.len(),
                forall|i: int| p <= i < self@.len() ==> (#[trigger] self@[i]).len() == 0,
            decreases p,
        {
            p = p - 1;
            assert(self@[p as int] == self.ready@[p as int]@);
            if self.ready[p].len() > 0 {
                proof {
                    lemma_top_level_is(self@, p as int);
                }
                return Some(p as u32);
            }
        }
        proof {
            lemma_top_level_is(self@, -1);
        }
        None
    }

    /// Moves a ready thread to the end of the level of its new priority. A
    /// thread that is not ready stays out.
    pub fn reprioritize(&mut self, tid: isize, priority: u32)
        requires
            priority <= PRI_MAX,
        ensures
            final(self)@ == moved(old(self)@, tid, priority as int),
    {
        proof {
            use_type_invariant(&*self);
        }
        let mut found = false;
        let mut p: usize = 0;
        while p < self.ready.len()
            invariant
                p <= self.ready@.len(),
                self@.len() == old(self)@.len() == self.ready@.len() == level_count(),
                forall|i: int| 0 <= i < p ==> #[trigger] self@[i] == without(old(self)@[i], tid),
                forall|i: int| p <= i < self@.len() ==> #[trigger] self@[i] == old(self)@[i],
                found <==> exists|i: int| 0 <= i < p && (#[trigger] old(self)@[i]).contains(tid),
            decreases self.ready@.len() - p,
        {
            let ghost before = self@;
            assert(self@[p as int] == self.ready@[p as int]@);
            let kept = remove_thread(&self.ready[p], tid);
            proof {
                lemma_without(old(self)@[p as int], tid);
            }
            if kept.len() < self.ready[p].len() {
                found = true;
                assert(old(self)@[p as int].contains(tid));
            } else {
                assert(!old(self)@[p as int].contains(tid)) by {
                    if old(self)@[p as int].contains(tid) {
                        lemma_without_shrinks(old(self)@[p as int], tid);
                    }
                }
            }
            self.ready[p] = kept;
            assert(self@ =~= before.update(p as int, kept@));
            p = p + 1;
        }
        assert(found == queued(old(self)@, tid));
        assert(self@ =~= levels_without(old(self)@, tid));
        if found {
            self.ready[priority as usize].push_back(tid);
            assert(self@ =~= moved(old(self)@, tid, priority as int));
        } else {
            assert forall|i: int| 0 <= i < self@.len() implies self@[i] == old(self)@[i] by {
                lemma_without(old(self)@[i], tid);
                assert(!old(self)@[i].contains(tid));
            }
            assert(self@ =~= old(self)@);
        }
    }
}

/// Dropping a thread that stands in a queue makes the queue shorter.
proof fn lemma_without_shrinks(queue: Seq<isize>, tid: isize)
    requires
        queue.contains(tid),
    ensures
        without(queue, tid).len() < queue.len(),
    decreases queue.len(),
{
    reveal(Seq::filter);
    let rest = queue.drop_last();
    lemma_without(rest, tid);
    if queue.last() != tid {
        let i = choose|i: int| 0 <= i < queue.len() && queue[i] == tid;
        assert(rest[i] == tid);
        lemma_without_shrinks(rest, tid);
    }
}

} // verus!
