//! The thread manager: all threads, the scheduler, and who runs.

use std::collections::BTreeMap;

use vstd::prelude::*;
use vstd::std_specs::iter::IteratorSpec;

use crate::keys::{lemma_take_one_more, lists_keys, sorted_keys};
use crate::thread::imp::{Context, Donation, Status, Thread, ThreadState, PRI_MAX};
use crate::thread::scheduler::priority::{lemma_top_level, no_ready, top_level, Priority};
use crate::thread::state::{
    lemma_lent_wf, lemma_reaped_wf, lemma_refreshed_wf, lemma_registered_wf, lemma_scheduled_wf,
    lemma_thread_lent_wf, lemma_thread_unlent_wf, lemma_unlent_wf, lemma_with_base_priority_wf,
    lemma_with_holders_wf, lemma_with_status_wf, lemma_with_thread_wf, lemma_woken_wf, ManagerState,
    Switch,
};
use crate::userproc::UserProc;

verus! {

/// Keeps all threads, the scheduler, and the holders of sleep locks.
pub struct Manager {
    threads: BTreeMap<isize, Thread>,
    current: isize,
    scheduler: Priority,
    holders: BTreeMap<usize, isize>,
    next_lock: usize,
}

impl View for Manager {
    type V = ManagerState;

    closed spec fn view(&self) -> ManagerState {
        ManagerState {
            threads: self.threads@.map_values(|t: Thread| t@),
            current: self.current,
            ready: self.scheduler@,
            holders: self.holders@,
            next_lock: self.next_lock,
        }
    }
}

impl Clone for Manager {
    /// A manager of the same threads, on which can be tried what would come of something.
    fn clone(&self) -> (copy: Self)
        ensures
            copy@ == self@,
    {
        let keys = sorted_keys(&self.threads);
        let mut threads: BTreeMap<isize, Thread> = BTreeMap::new();
        let mut i: usize = 0;
        while i < keys.len()
            invariant
                i <= keys@.len(),
                lists_keys(keys@, self.threads@),
                forall|k: isize| #[trigger]
                    threads@.contains_key(k) <==> keys@.take(i as int).contains(k),
                forall|k: isize| #[trigger]
                    threads@.contains_key(k) ==> threads@[k]@ == self.threads@[k]@,
            decreases keys@.len() - i,
        {
            let tid = keys[i];
            assert(keys@.contains(tid));
            threads.insert(tid, self.threads.get(&tid).unwrap().clone());
            proof {
                lemma_take_one_more(keys@, i as int);
            }
            i = i + 1;
        }
        assert(keys@.take(i as int) =~= keys@);
        let copy = Manager {
            threads,
            current: self.current,
            scheduler: self.scheduler.clone(),
            holders: self.copy_holders(),
            next_lock: self.next_lock,
        };
        assert(copy@.threads =~= self@.threads);
        copy
    }
}

impl Manager {
    /// Starts with one thread, which runs.
    pub fn new(initial: Thread) -> (manager: Self)
        requires
            initial@.wf(),
        ensures
            manager@ == (ManagerState {
                threads: Map::empty().insert(
                    initial@.tid,
                    ThreadState { status: Status::Running, ..initial@ },
                ),
                current: initial@.tid,
                ready: no_ready(),
                holders: Map::empty(),
                next_lock: 0,
            }),
            manager@.wf(),
    {
        let mut initial = initial;
        initial.set_status(Status::Running);
        let current = initial.id();
        let mut threads: BTreeMap<isize, Thread> = BTreeMap::new();
        let ghost running = initial@;
        threads.insert(current, initial);
        let manager = Manager {
            threads,
            current,
            scheduler: Priority::default(),
            holders: BTreeMap::new(),
            next_lock: 0,
        };
        assert(manager@.threads =~= Map::empty().insert(running.tid, running));
        manager
    }

    /// The id of the running thread.
    pub fn current_id(&self) -> (tid: isize)
        ensures
            tid == self@.current,
    {
        self.current
    }

    /// The thread with a given id.
    pub fn get(&self, tid: isize) -> (thread: Option<&Thread>)
        ensures
            match thread {
                Some(thread) => self@.threads.contains_key(tid) && thread@ == self@.threads[tid],
                None => !self@.threads.contains_key(tid),
            },
    {
        self.threads.get(&tid)
    }

    /// The thread with a given id, which is known to be there.
    pub(crate) fn thread(&self, tid: isize) -> (thread: &Thread)
        requires
            self@.threads.contains_key(tid),
        ensures
            thread@ == self@.threads[tid],
    {
        self.threads.get(&tid).unwrap()
    }

    /// The holder of a sleep lock.
    pub fn holder_of(&self, lock_id: usize) -> (holder: Option<isize>)
        ensures
            holder == (if self@.holders.contains_key(lock_id) {
                Some(self@.holders[lock_id])
            } else {
                None
            }),
    {
        match self.holders.get(&lock_id) {
            Some(tid) => Some(*tid),
            None => None,
        }
    }

    /// Takes a thread out for a change; `put_back` is due next.
    fn take_out(&mut self, tid: isize) -> (thread: Thread)
        requires
            old(self)@.threads.contains_key(tid),
        ensures
            thread@ == old(self)@.threads[tid],
            final(self)@ == (ManagerState {
                threads: old(self)@.threads.remove(tid),
                ..old(self)@
            }),
    {
        let thread = self.threads.remove(&tid).unwrap();
        assert(self@.threads =~= old(self)@.threads.remove(tid));
        thread
    }

    /// Puts a thread back after a change.
    fn put_back(&mut self, tid: isize, thread: Thread)
        ensures
            final(self)@ == old(self)@.with_thread(tid, thread@),
    {
        let ghost state = thread@;
        self.threads.insert(tid, thread);
        assert(self@.threads =~= old(self)@.threads.insert(tid, state));
    }

    /// Sets the status of a thread.
    fn set_status(&mut self, tid: isize, status: Status)
        requires
            old(self)@.threads.contains_key(tid),
        ensures
            final(self)@ == old(self)@.with_status(tid, status),
    {
        let mut thread = self.take_out(tid);
        thread.set_status(status);
        self.put_back(tid, thread);
        assert(self@ =~= old(self)@.with_status(tid, status));
    }

    /// Puts a thread into the level of its priority.
    fn enqueue(&mut self, tid: isize)
        requires
            old(self)@.threads.contains_key(tid),
            old(self)@.threads[tid].tid == tid,
            old(self)@.threads[tid].priority <= PRI_MAX,
        ensures
            final(self)@ == old(self)@.enqueued(tid),
    {
        let thread = self.threads.get(&tid).unwrap();
        self.scheduler.register(thread);
    }

    /// Lets a new thread in, ready to run.
    pub fn register(&mut self, thread: Thread)
        requires
            old(self)@.wf(),
            thread@.wf(),
            thread@.status == Status::Ready,
            !old(self)@.threads.contains_key(thread@.tid),
        ensures
            final(self)@ == old(self)@.registered(thread@),
            final(self)@.wf(),
    {
        proof {
            lemma_registered_wf(self@, thread@);
        }
        let tid = thread.id();
        self.put_back(tid, thread);
        self.enqueue(tid);
    }

    /// Hands the processor to the next ready thread and says what to switch, or
    /// `None` where no thread is ready and the running one stays.
    pub fn schedule(&mut self) -> (switch: Option<Switch>)
        requires
            old(self)@.wf(),
        ensures
            final(self)@ == old(self)@.scheduled(),
            switch == old(self)@.switch(),
            final(self)@.wf(),
    {
        proof {
            lemma_scheduled_wf(self@);
            lemma_top_level(self@.ready);
        }
        match self.scheduler.schedule() {
            None => None,
            Some(next) => {
                proof {
                    let top = top_level(old(self)@.ready);
                    assert(old(self)@.ready[top].contains(next));
                    assert(old(self)@.ready_at(next, top));
                }
                let previous = self.current;
                if self.thread(previous).status() == Status::Running {
                    self.set_status(previous, Status::Ready);
                    self.enqueue(previous);
                }
                self.set_status(next, Status::Running);
                self.current = next;
                assert(self@ =~= old(self)@.scheduled());
                Some(Switch { previous, next })
            },
        }
    }

    /// Hands the processor on if a ready thread is more urgent than the running
    /// one.
    pub fn maybe_preempt(&mut self) -> (switch: Option<Switch>)
        requires
            old(self)@.wf(),
        ensures
            final(self)@ == old(self)@.after_preemption(),
            switch == old(self)@.preemption(),
            final(self)@.wf(),
    {
        let current = self.current;
        let running = self.thread(current).priority();
        proof {
            lemma_top_level(self@.ready);
        }
        let urgent = match self.scheduler.max_priority() {
            Some(highest) => highest > running,
            None => false,
        };
        if urgent {
            self.schedule()
        } else {
            None
        }
    }

    /// Stops the running thread for good or until it is woken up, and hands the
    /// processor on.
    pub(crate) fn stop(&mut self, status: Status) -> (switch: Option<Switch>)
        requires
            old(self)@.wf(),
            old(self)@.running().status != Status::Ready,
            status == Status::Blocked || status == Status::Dying,
        ensures
            final(self)@ == old(self)@.stopped(status).scheduled(),
            switch == old(self)@.stopped(status).switch(),
            final(self)@.wf(),
    {
        proof {
            lemma_with_status_wf(self@, self@.current, status);
        }
        let current = self.current;
        self.set_status(current, status);
        self.schedule()
    }

    /// Makes a blocked thread ready.
    pub(crate) fn wake(&mut self, tid: isize)
        requires
            old(self)@.wf(),
            old(self)@.threads.contains_key(tid),
            old(self)@.threads[tid].status == Status::Blocked,
        ensures
            final(self)@ == old(self)@.woken(tid),
            final(self)@.wf(),
    {
        proof {
            lemma_woken_wf(self@, tid);
        }
        self.set_status(tid, Status::Ready);
        self.enqueue(tid);
    }

    /// Records which lock a thread waits for.
    pub(crate) fn set_waiting_lock(&mut self, tid: isize, lock_id: Option<usize>)
        requires
            old(self)@.wf(),
            old(self)@.threads.contains_key(tid),
        ensures
            final(self)@ == old(self)@.with_waiting_lock(tid, lock_id),
            final(self)@.wf(),
    {
        let ghost after = ThreadState { waiting_lock: lock_id, ..self@.threads[tid] };
        proof {
            lemma_with_thread_wf(self@, tid, after);
        }
        let mut thread = self.take_out(tid);
        thread.set_waiting_lock(lock_id);
        self.put_back(tid, thread);
        assert(self@ =~= old(self)@.with_waiting_lock(tid, lock_id));
    }

    /// Whether there is an id left for another lock.
    pub fn has_lock_id(&self) -> (left: bool)
        ensures
            left == (self@.next_lock < usize::MAX),
    {
        self.next_lock < usize::MAX
    }

    /// Whether a lock has been made by this manager.
    pub fn knows_lock(&self, lock_id: usize) -> (known: bool)
        ensures
            known == (lock_id < self@.next_lock),
    {
        lock_id < self.next_lock
    }

    /// Hands out the id of a new lock.
    pub(crate) fn make_lock(&mut self) -> (lock_id: usize)
        requires
            old(self)@.wf(),
            old(self)@.next_lock < usize::MAX,
        ensures
            lock_id == old(self)@.next_lock,
            !old(self)@.holders.contains_key(lock_id),
            final(self)@ == old(self)@.lock_made(),
            final(self)@.wf(),
    {
        proof {
            lemma_with_holders_wf(self@, self@.holders, (self@.next_lock + 1) as usize);
        }
        let lock_id = self.next_lock;
        self.next_lock = lock_id + 1;
        lock_id
    }

    /// Hands out the id of a new lock that has the holder of another one.
    pub(crate) fn copy_lock(&mut self, lock_id: usize) -> (copy_id: usize)
        requires
            old(self)@.wf(),
            old(self)@.next_lock < usize::MAX,
        ensures
            copy_id == old(self)@.next_lock,
            final(self)@ == old(self)@.lock_copied(lock_id),
            final(self)@.wf(),
    {
        let holder = self.holder_of(lock_id);
        let copy_id = self.make_lock();
        match holder {
            Some(tid) => self.set_holder(copy_id, tid),
            None => {},
        }
        copy_id
    }

    /// Records the registers that a thread has been left with.
    pub fn save_context(&mut self, tid: isize, context: Context)
        requires
            old(self)@.wf(),
            old(self)@.threads.contains_key(tid),
        ensures
            final(self)@ == old(self)@.with_context(tid, context@),
            final(self)@.wf(),
    {
        proof {
            let after = ThreadState { context: context@, ..self@.threads[tid] };
            lemma_with_thread_wf(self@, tid, after);
        }
        let mut thread = self.take_out(tid);
        thread.set_context(context);
        self.put_back(tid, thread);
        assert(self@ =~= old(self)@.with_context(tid, context@));
    }

    /// Makes a thread the holder of a lock.
    pub(crate) fn set_holder(&mut self, lock_id: usize, tid: isize)
        requires
            old(self)@.wf(),
            old(self)@.threads.contains_key(tid),
            lock_id < old(self)@.next_lock,
        ensures
            final(self)@ == old(self)@.held_by(lock_id, tid),
            final(self)@.wf(),
    {
        proof {
            lemma_with_holders_wf(self@, self@.holders.insert(lock_id, tid), self@.next_lock);
        }
        self.holders.insert(lock_id, tid);
    }

    /// Leaves a lock without a holder.
    pub(crate) fn clear_holder(&mut self, lock_id: usize)
        requires
            old(self)@.wf(),
        ensures
            final(self)@ == old(self)@.let_go(lock_id),
            final(self)@.wf(),
    {
        proof {
            lemma_with_holders_wf(self@, self@.holders.remove(lock_id), self@.next_lock);
        }
        self.holders.remove(&lock_id);
    }

    /// Lends a thread what `donation` says.
    pub(crate) fn update_donation(&mut self, tid: isize, donation: Donation) -> (changed: bool)
        requires
            old(self)@.wf(),
            old(self)@.threads.contains_key(tid),
            donation.priority <= PRI_MAX,
        ensures
            final(self)@ == old(self)@.lent(tid, donation),
            changed == (old(self)@.threads[tid].priority != final(self)@.threads[tid].priority),
            final(self)@.wf(),
    {
        proof {
            lemma_lent_wf(self@, tid, donation);
            lemma_thread_lent_wf(self@.threads[tid], donation);
        }
        let mut thread = self.take_out(tid);
        let changed = thread.update_donation(
            &mut self.scheduler,
            donation.donor_tid,
            donation.lock_id,
            donation.priority,
        );
        self.put_back(tid, thread);
        assert(self@ =~= old(self)@.lent(tid, donation));
        changed
    }

    /// Ends what others lend a thread for a lock.
    pub(crate) fn remove_donations_for_lock(
        &mut self,
        tid: isize,
        lock_id: usize,
    ) -> (changed: bool)
        requires
            old(self)@.wf(),
            old(self)@.threads.contains_key(tid),
        ensures
            final(self)@ == old(self)@.unlent(tid, lock_id),
            changed == (old(self)@.threads[tid].priority != final(self)@.threads[tid].priority),
            final(self)@.wf(),
    {
        proof {
            lemma_unlent_wf(self@, tid, lock_id);
            lemma_thread_unlent_wf(self@.threads[tid], lock_id);
        }
        let mut thread = self.take_out(tid);
        let changed = thread.remove_donations_for_lock(&mut self.scheduler, lock_id);
        self.put_back(tid, thread);
        assert(self@ =~= old(self)@.unlent(tid, lock_id));
        changed
    }

    /// Gives a thread another priority of its own.
    pub(crate) fn set_base_priority(&mut self, tid: isize, priority: u32)
        requires
            old(self)@.wf(),
            old(self)@.threads.contains_key(tid),
            priority <= PRI_MAX,
        ensures
            final(self)@ == old(self)@.with_base_priority(tid, priority),
            final(self)@.wf(),
    {
        proof {
            lemma_with_base_priority_wf(self@, tid, priority);
            lemma_refreshed_wf(ThreadState { base_priority: priority, ..self@.threads[tid] });
        }
        let mut thread = self.take_out(tid);
        thread.set_base_priority(priority);
        thread.refresh_priority(&mut self.scheduler);
        self.put_back(tid, thread);
        assert(self@ =~= old(self)@.with_base_priority(tid, priority));
    }

    /// Lends the priority of a thread to the holder of the lock that it waits
    /// for, from there to the thread that the holder waits for, and so on. The
    /// chain is followed for as many steps as there are threads, so that a
    /// deadlock does not keep it going.
    pub fn propagate_priority(&mut self, tid: isize)
        requires
            old(self)@.wf(),
            old(self)@.threads.contains_key(tid),
        ensures
            final(self)@ == old(self)@.fully_propagated(tid),
            final(self)@.wf(),
    {
        let mut donor = tid;
        let mut left: usize = self.threads.len();
        assert(self@.threads.dom() =~= self.threads@.dom());
        while left > 0
            invariant
                self@.wf(),
                self@.threads.contains_key(donor),
                self@.propagated(donor, left as nat) == old(self)@.fully_propagated(tid),
            decreases left,
        {
            let thread = self.thread(donor);
            let priority = thread.priority();
            let lock_id = match thread.waiting_lock() {
                Some(lock_id) => lock_id,
                None => {
                    return ;
                },
            };
            let holder = match self.holder_of(lock_id) {
                Some(holder) => holder,
                None => {
                    return ;
                },
            };
            let donation = Donation { donor_tid: donor, lock_id, priority };
            proof {
                lemma_lent_wf(self@, holder, donation);
            }
            self.update_donation(holder, donation);
            donor = holder;
            left = left - 1;
        }
    }

    /// Whether a thread holds some sleep lock.
    pub fn holds_lock(&self, tid: isize) -> (holds: bool)
        ensures
            holds == self@.holds_lock(tid),
    {
        let ghost pairs = self.holders.iter().remaining();
        let mut holds = false;
        for pair in it: self.holders.iter()
            invariant
                pairs == self.holders.iter().remaining(),
                it.seq() == pairs,
                holds <==> exists|i: int| 0 <= i < it.index() && *(#[trigger] pairs[i]).1 == tid,
        {
            if *pair.1 == tid {
                holds = true;
            }
        }
        proof {
            if holds {
                let i = choose|i: int| 0 <= i < pairs.len() && *(#[trigger] pairs[i]).1 == tid;
                let lock_id = *pairs[i].0;
                assert(self.holders@.contains_key(lock_id));
                assert(self@.holders.contains_key(lock_id));
            }
            if self@.holds_lock(tid) {
                let lock_id = choose|l: usize| #[trigger]
                    self@.holders.contains_key(l) && self@.holders[l] == tid;
                assert(pairs.contains((&lock_id, &self.holders@[lock_id])));
                let i = pairs.index_of((&lock_id, &self.holders@[lock_id]));
                assert(*pairs[i].1 == tid);
            }
        }
        holds
    }

    /// A copy of who holds which lock.
    fn copy_holders(&self) -> (copy: BTreeMap<usize, isize>)
        ensures
            copy@ == self@.holders,
    {
        let ghost pairs = self.holders.iter().remaining();
        let mut copy: BTreeMap<usize, isize> = BTreeMap::new();
        for pair in it: self.holders.iter()
            invariant
                pairs == self.holders.iter().remaining(),
                it.seq() == pairs,
                forall|l: usize| #[trigger]
                    copy@.contains_key(l) ==> self.holders@.contains_key(l) && copy@[l]
                        == self.holders@[l],
                forall|i: int|
                    0 <= i < it.index() ==> copy@.contains_key(*(#[trigger] pairs[i]).0),
        {
            assert(self.holders@.contains_key(*pair.0));
            assert(self.holders@[*pair.0] == *pair.1);
            copy.insert(*pair.0, *pair.1);
        }
        proof {
            assert forall|l: usize| #[trigger]
                self.holders@.contains_key(l) implies copy@.contains_key(l) by {
                assert(pairs.contains((&l, &self.holders@[l])));
                let i = pairs.index_of((&l, &self.holders@[l]));
                assert(copy@.contains_key(*pairs[i].0));
            }
            assert(copy@ =~= self.holders@);
        }
        copy
    }

    /// Takes out a thread that has exited, so that its stack and its page table can be
    /// released. `None` where the thread has not exited, where the processor has not
    /// left it yet, or where it holds a lock.
    pub fn reap(&mut self, tid: isize) -> (thread: Option<Thread>)
        requires
            old(self)@.wf(),
        ensures
            match thread {
                Some(thread) => {
                    &&& old(self)@.can_reap(tid)
                    &&& thread@ == old(self)@.threads[tid]
                    &&& final(self)@ == old(self)@.reaped(tid)
                },
                None => !old(self)@.can_reap(tid) && final(self)@ == old(self)@,
            },
            final(self)@.wf(),
    {
        let dying = match self.threads.get(&tid) {
            Some(thread) => thread.status() == Status::Dying,
            None => false,
        };
        if !dying || tid == self.current || self.holds_lock(tid) {
            return None;
        }
        proof {
            lemma_reaped_wf(self@, tid);
        }
        Some(self.take_out(tid))
    }

    /// The user process of a thread.
    pub(crate) fn userproc(&self, tid: isize) -> (proc: Option<&UserProc>)
        requires
            self@.threads.contains_key(tid),
        ensures
            match proc {
                Some(proc) => self@.threads[tid].userproc == Some(proc@),
                None => self@.threads[tid].userproc is None,
            },
    {
        self.thread(tid).userproc()
    }

    /// Takes the user process of a thread out for a change; `set_userproc` is
    /// due next.
    pub(crate) fn take_userproc(&mut self, tid: isize) -> (proc: Option<UserProc>)
        requires
            old(self)@.threads.contains_key(tid),
        ensures
            match proc {
                Some(proc) => old(self)@.threads[tid].userproc == Some(proc@),
                None => old(self)@.threads[tid].userproc is None,
            },
            final(self)@ == old(self)@.with_thread(
                tid,
                ThreadState { userproc: None, ..old(self)@.threads[tid] },
            ),
    {
        let mut thread = self.take_out(tid);
        let proc = thread.take_userproc();
        self.put_back(tid, thread);
        assert(self@ =~= old(self)@.with_thread(
            tid,
            ThreadState { userproc: None, ..old(self)@.threads[tid] },
        ));
        proc
    }

    /// Gives a thread its user process back.
    pub(crate) fn set_userproc(&mut self, tid: isize, proc: UserProc)
        requires
            old(self)@.threads.contains_key(tid),
        ensures
            final(self)@ == old(self)@.with_proc(tid, proc@),
    {
        let mut thread = self.take_out(tid);
        let ghost state = proc@;
        thread.set_userproc(proc);
        self.put_back(tid, thread);
        assert(self@ =~= old(self)@.with_proc(tid, state));
    }
}

} // verus!
