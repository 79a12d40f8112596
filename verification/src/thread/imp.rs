//! Implementation of kernel threads.

use vstd::prelude::*;

use crate::mem::{PageTable, PG_SIZE};
use crate::thread::manager::Manager;
use crate::thread::scheduler::priority::{moved, Priority};
use crate::text::{push_signed_decimal, signed_decimal};
use crate::thread::state::{lemma_scheduled_wf, Switch};
use crate::userproc::files::ProcState;
use crate::userproc::UserProc;

verus! {

pub const PRI_DEFAULT: u32 = 31;

pub const PRI_MAX: u32 = 63;

pub const PRI_MIN: u32 = 0;

pub const STACK_SIZE: usize = PG_SIZE * 4;

pub const STACK_ALIGN: usize = 16;

pub const STACK_TOP: usize = 0x80500000;

/// The word at the bottom of every kernel stack.
pub const MAGIC: usize = 0xdeadbeef;

/// The priority that a thread lends to the holder of a lock it waits for.
#[derive(Clone, Copy, Debug, PartialEq, Eq, Structural)]
pub struct Donation {
    pub donor_tid: isize,
    pub lock_id: usize,
    pub priority: u32,
}

/* --------------------------------- Status --------------------------------- */
/// States of a thread's life cycle.
#[derive(Clone, Copy, Debug, PartialEq, Eq, Structural)]
pub enum Status {
    /// Not running but ready to run
    Ready,
    /// Currently running
    Running,
    /// Waiting for an event to trigger
    Blocked,
    /// About to be destroyed
    Dying,
}

impl Status {
    /// The name of a status.
    pub open spec fn label(self) -> Seq<char> {
        match self {
            Status::Ready => "Ready"@,
            Status::Running => "Running"@,
            Status::Blocked => "Blocked"@,
            Status::Dying => "Dying"@,
        }
    }

    /// The name of a status.
    pub fn name(&self) -> (name: &'static str)
        ensures
            name@ == self.label(),
    {
        match self {
            Status::Ready => "Ready",
            Status::Running => "Running",
            Status::Blocked => "Blocked",
            Status::Dying => "Dying",
        }
    }
}

/* --------------------------------- Context -------------------------------- */
/// Records a thread's running status when it switches to another thread,
/// and when switching back, restore its status from the context.
#[derive(Clone, Copy, Debug)]
pub struct Context {
    /// return address
    pub ra: usize,
    /// kernel stack
    pub sp: usize,
    /// callee-saved
    pub s: [usize; 12],
}

/// The registers of a context.
#[verifier::ext_equal]
pub struct ContextState {
    pub ra: usize,
    pub sp: usize,
    pub s: Seq<usize>,
}

impl ContextState {
    /// The context of a thread that has not run yet. It starts at
    /// `thread_entry`, with an empty stack, and finds the address of its main
    /// function in the first callee-saved register.
    pub open spec fn initial(thread_entry: usize, stack: usize, entry: usize) -> ContextState {
        ContextState {
            ra: thread_entry,
            sp: (stack + STACK_SIZE) as usize,
            s: Seq::new(12, |i: int| if i == 0 { entry } else { 0 }),
        }
    }
}

impl View for Context {
    type V = ContextState;

    open spec fn view(&self) -> ContextState {
        ContextState { ra: self.ra, sp: self.sp, s: self.s@ }
    }
}

impl Context {
    /// The context of a thread that has not run yet.
    pub fn new(thread_entry: usize, stack: usize, entry: usize) -> (context: Self)
        requires
            stack + STACK_SIZE <= usize::MAX,
        ensures
            context@ == ContextState::initial(thread_entry, stack, entry),
    {
        let mut s: [usize; 12] = [0; 12];
        s[0] = entry;
        let context = Context { ra: thread_entry, sp: stack + STACK_SIZE, s };
        assert(context@ =~= ContextState::initial(thread_entry, stack, entry));
        context
    }
}

/* --------------------------------- Thread --------------------------------- */
/// Hands out thread ids, upwards from zero.
pub struct Tids {
    next: isize,
}

impl View for Tids {
    type V = isize;

    closed spec fn view(&self) -> isize {
        self.next
    }
}

/// The id that follows another one. After the highest number comes the lowest.
pub open spec fn next_tid(tid: isize) -> isize {
    if tid == isize::MAX {
        isize::MIN
    } else {
        (tid + 1) as isize
    }
}

impl Tids {
    pub fn new() -> (tids: Self)
        ensures
            tids@ == 0,
    {
        Tids { next: 0 }
    }

    /// The next id, which stays to be taken.
    pub fn peek(&self) -> (tid: isize)
        ensures
            tid == self@,
    {
        self.next
    }

    /// Takes the next id.
    pub fn take(&mut self) -> (tid: isize)
        ensures
            tid == old(self)@,
            final(self)@ == next_tid(old(self)@),
    {
        let tid = self.next;
        self.next = tid.wrapping_add(1);
        tid
    }
}

/// All data of a kernel thread.
pub struct Thread {
    tid: isize,
    name: &'static str,
    stack: usize,
    status: Status,
    context: Context,
    base_priority: u32,
    priority: u32,
    waiting_lock: Option<usize>,
    donations: Vec<Donation>,
    userproc: Option<UserProc>,
    pagetable: Option<PageTable>,
}

/// What is to be known of a thread.
#[verifier::ext_equal]
pub struct ThreadState {
    pub tid: isize,
    pub name: Seq<char>,
    /// Bottom of the kernel stack.
    pub stack: usize,
    pub status: Status,
    pub context: ContextState,
    /// The thread's own priority.
    pub base_priority: u32,
    /// The priority it is scheduled by.
    pub priority: u32,
    /// The lock it waits for.
    pub waiting_lock: Option<usize>,
    /// What other threads lend it.
    pub donations: Seq<Donation>,
    pub userproc: Option<ProcState>,
    pub pagetable: Option<PageTable>,
}

/// The highest priority among some donations, `PRI_MIN` where there is none.
pub open spec fn donated(donations: Seq<Donation>) -> u32
    decreases donations.len(),
{
    if donations.len() == 0 {
        PRI_MIN
    } else {
        higher(donated(donations.drop_last()), donations.last().priority)
    }
}

/// The higher of two priorities.
pub open spec fn higher(a: u32, b: u32) -> u32 {
    if a >= b {
        a
    } else {
        b
    }
}

/// `donated` is the least bound of the priorities in question.
pub proof fn lemma_donated(donations: Seq<Donation>)
    ensures
        forall|i: int|
            0 <= i < donations.len() ==> (#[trigger] donations[i]).priority <= donated(donations),
        donated(donations) == PRI_MIN || exists|i: int|
            0 <= i < donations.len() && (#[trigger] donations[i]).priority == donated(donations),
    decreases donations.len(),
{
    if donations.len() > 0 {
        let rest = donations.drop_last();
        lemma_donated(rest);
        assert forall|i: int| 0 <= i < donations.len() implies (
        #[trigger] donations[i]).priority <= donated(donations) by {
            if i < rest.len() {
                assert(rest[i] == donations[i]);
            }
        }
        if donated(donations) != PRI_MIN {
            if donated(rest) >= donations.last().priority {
                let i = choose|i: int|
                    0 <= i < rest.len() && (#[trigger] rest[i]).priority == donated(rest);
                assert(donations[i] == rest[i]);
            } else {
                assert(donations[donations.len() - 1].priority == donated(donations));
            }
        }
    }
}

/// Whether `donations[i]` is the first one of `donor_tid` for `lock_id`.
pub open spec fn donation_at(
    donations: Seq<Donation>,
    donor_tid: isize,
    lock_id: usize,
    i: int,
) -> bool {
    &&& 0 <= i < donations.len()
    &&& donations[i].donor_tid == donor_tid && donations[i].lock_id == lock_id
    &&& forall|j: int|
        0 <= j < i ==> !((#[trigger] donations[j]).donor_tid == donor_tid && donations[j].lock_id
            == lock_id)
}

/// The donations after `donation` has taken the place of the earlier one of the
/// same donor for the same lock, or has joined the end where there was none.
pub open spec fn with_donation(donations: Seq<Donation>, donation: Donation) -> Seq<Donation> {
    if exists|i: int| donation_at(donations, donation.donor_tid, donation.lock_id, i) {
        donations.update(
            choose|i: int| donation_at(donations, donation.donor_tid, donation.lock_id, i),
            donation,
        )
    } else {
        donations.push(donation)
    }
}

/// Whether a donation is for another lock.
pub open spec fn for_other_lock(lock_id: usize) -> spec_fn(Donation) -> bool {
    |d: Donation| d.lock_id != lock_id
}

impl ThreadState {
    /// The priority that the thread's own one and the donations give it.
    pub open spec fn effective(self) -> u32 {
        higher(self.base_priority, donated(self.donations))
    }

    /// Every priority is one that the scheduler has a level for.
    pub open spec fn in_range(self) -> bool {
        &&& self.base_priority <= PRI_MAX
        &&& forall|i: int|
            0 <= i < self.donations.len() ==> (#[trigger] self.donations[i]).priority <= PRI_MAX
    }

    /// What every operation keeps: the thread is scheduled by the highest of its own
    /// priority and those that others lend it, which the scheduler has a level for.
    pub open spec fn wf(self) -> bool {
        &&& self.in_range()
        &&& self.priority <= PRI_MAX
        &&& self.priority == self.effective()
        &&& self.userproc is Some ==> self.userproc->0.wf()
    }

    /// The thread in a few words: its name, id and status.
    pub open spec fn described(self) -> Seq<char> {
        self.name + "("@ + signed_decimal(self.tid as int) + ")["@ + self.status.label() + "]"@
    }

    /// The thread after its priority has been computed anew.
    pub open spec fn refreshed(self) -> ThreadState {
        ThreadState { priority: self.effective(), ..self }
    }

    /// The thread after a donation has come in.
    pub open spec fn lent(self, donation: Donation) -> ThreadState {
        ThreadState {
            donations: with_donation(self.donations, donation),
            ..self
        }.refreshed()
    }

    /// The thread after the donations for a lock have lapsed.
    pub open spec fn unlent(self, lock_id: usize) -> ThreadState {
        ThreadState {
            donations: self.donations.filter(for_other_lock(lock_id)),
            ..self
        }.refreshed()
    }
}

/// The scheduler after a thread's priority has gone from `before` to `after`.
pub open spec fn rescheduled(
    ready: Seq<Seq<isize>>,
    before: ThreadState,
    after: ThreadState,
) -> Seq<Seq<isize>> {
    if before.priority != after.priority && before.status == Status::Ready {
        moved(ready, before.tid, after.priority as int)
    } else {
        ready
    }
}

impl View for Thread {
    type V = ThreadState;

    closed spec fn view(&self) -> ThreadState {
        ThreadState {
            tid: self.tid,
            name: self.name@,
            stack: self.stack,
            status: self.status,
            context: self.context@,
            base_priority: self.base_priority,
            priority: self.priority,
            waiting_lock: self.waiting_lock,
            donations: self.donations@,
            userproc: match self.userproc {
                Some(proc) => Some(proc@),
                None => None,
            },
            pagetable: self.pagetable,
        }
    }
}

impl Clone for Thread {
    /// A thread of which the same is to be known.
    fn clone(&self) -> (copy: Self)
        ensures
            copy@ == self@,
    {
        let mut donations: Vec<Donation> = Vec::new();
        let mut i: usize = 0;
        while i < self.donations.len()
            invariant
                i <= self.donations@.len(),
                donations@ == self.donations@.take(i as int),
            decreases self.donations@.len() - i,
        {
            donations.push(self.donations[i]);
            i = i + 1;
            assert(donations@ =~= self.donations@.take(i as int));
        }
        assert(donations@ =~= self.donations@);
        let userproc = match &self.userproc {
            Some(proc) => Some(proc.clone()),
            None => None,
        };
        Thread {
            tid: self.tid,
            name: self.name,
            stack: self.stack,
            status: self.status,
            context: self.context,
            base_priority: self.base_priority,
            priority: self.priority,
            waiting_lock: self.waiting_lock,
            donations,
            userproc,
            pagetable: self.pagetable,
        }
    }
}

impl Thread {
    /// A thread that is ready to run for the first time.
    pub fn new(
        tids: &mut Tids,
        name: &'static str,
        thread_entry: usize,
        stack: usize,
        priority: u32,
        entry: usize,
        userproc: Option<UserProc>,
        pagetable: Option<PageTable>,
    ) -> (thread: Self)
        requires
            stack + STACK_SIZE <= usize::MAX,
        ensures
            final(tids)@ == next_tid(old(tids)@),
            thread@ == (ThreadState {
                tid: old(tids)@,
                name: name@,
                stack,
                status: Status::Ready,
                context: ContextState::initial(thread_entry, stack, entry),
                base_priority: priority,
                priority,
                waiting_lock: None,
                donations: Seq::empty(),
                userproc: match userproc {
                    Some(proc) => Some(proc@),
                    None => None,
                },
                pagetable,
            }),
    {
        Thread {
            tid: tids.take(),
            name,
            stack,
            status: Status::Ready,
            context: Context::new(thread_entry, stack, entry),
            base_priority: priority,
            priority,
            waiting_lock: None,
            donations: Vec::new(),
            userproc,
            pagetable,
        }
    }

    pub fn id(&self) -> (tid: isize)
        ensures
            tid == self@.tid,
    {
        self.tid
    }

    pub fn name(&self) -> (name: &'static str)
        ensures
            name@ == self@.name,
    {
        self.name
    }

    /// Bottom of the kernel stack.
    pub fn stack(&self) -> (stack: usize)
        ensures
            stack == self@.stack,
    {
        self.stack
    }

    pub fn status(&self) -> (status: Status)
        ensures
            status == self@.status,
    {
        self.status
    }

    pub fn set_status(&mut self, status: Status)
        ensures
            final(self)@ == (ThreadState { status, ..old(self)@ }),
    {
        self.status = status;
    }

    /// The registers that the thread goes on with.
    pub fn context(&self) -> (context: Context)
        ensures
            context@ == self@.context,
    {
        self.context
    }

    /// Records the registers that the thread has been left with.
    pub fn set_context(&mut self, context: Context)
        ensures
            final(self)@ == (ThreadState { context: context@, ..old(self)@ }),
    {
        self.context = context;
    }

    /// The priority that the thread is scheduled by.
    pub fn priority(&self) -> (priority: u32)
        ensures
            priority == self@.priority,
    {
        self.priority
    }

    /// The thread's own priority, without what others lend it.
    pub fn base_priority(&self) -> (priority: u32)
        ensures
            priority == self@.base_priority,
    {
        self.base_priority
    }

    /// Sets the thread's own priority. The one that it is scheduled by follows
    /// at the next `refresh_priority`.
    pub fn set_base_priority(&mut self, priority: u32)
        ensures
            final(self)@ == (ThreadState { base_priority: priority, ..old(self)@ }),
    {
        self.base_priority = priority;
    }

    pub fn waiting_lock(&self) -> (lock_id: Option<usize>)
        ensures
            lock_id == self@.waiting_lock,
    {
        self.waiting_lock
    }

    pub fn set_waiting_lock(&mut self, lock_id: Option<usize>)
        ensures
            final(self)@ == (ThreadState { waiting_lock: lock_id, ..old(self)@ }),
    {
        self.waiting_lock = lock_id;
    }

    pub fn pagetable(&self) -> (pagetable: Option<PageTable>)
        ensures
            pagetable == self@.pagetable,
    {
        self.pagetable
    }

    /// The user process of the thread.
    pub fn userproc(&self) -> (proc: Option<&UserProc>)
        ensures
            match proc {
                Some(proc) => self@.userproc == Some(proc@),
                None => self@.userproc is None,
            },
    {
        self.userproc.as_ref()
    }

    /// Takes the user process out for a change.
    pub(crate) fn take_userproc(&mut self) -> (proc: Option<UserProc>)
        ensures
            match proc {
                Some(proc) => old(self)@.userproc == Some(proc@),
                None => old(self)@.userproc is None,
            },
            final(self)@ == (ThreadState { userproc: None, ..old(self)@ }),
    {
        self.userproc.take()
    }

    /// Sets the user process of the thread.
    pub(crate) fn set_userproc(&mut self, proc: UserProc)
        ensures
            final(self)@ == (ThreadState { userproc: Some(proc@), ..old(self)@ }),
    {
        self.userproc = Some(proc);
    }

    /// Records what `donor_tid` lends for `lock_id`, in place of what it lent
    /// for that lock before, and says whether the priority changed.
    pub fn update_donation(
        &mut self,
        scheduler: &mut Priority,
        donor_tid: isize,
        lock_id: usize,
        priority: u32,
    ) -> (changed: bool)
        requires
            old(self)@.status == Status::Ready ==> old(self)@.lent(
                (Donation { donor_tid, lock_id, priority }),
            ).priority <= PRI_MAX,
        ensures
            final(self)@ == old(self)@.lent((Donation { donor_tid, lock_id, priority })),
            final(scheduler)@ == rescheduled(old(scheduler)@, old(self)@, final(self)@),
            changed == (old(self)@.priority != final(self)@.priority),
    {
        let donation = Donation { donor_tid, lock_id, priority };
        let mut i: usize = 0;
        while i < self.donations.len() && !(self.donations[i].donor_tid == donor_tid
            && self.donations[i].lock_id == lock_id)
            invariant
                i <= self.donations@.len(),
                forall|j: int|
                    0 <= j < i ==> !((#[trigger] self.donations@[j]).donor_tid == donor_tid
                        && self.donations@[j].lock_id == lock_id),
            decreases self.donations@.len() - i,
        {
            i = i + 1;
        }
        let ghost before = self.donations@;
        if i < self.donations.len() {
            assert(donation_at(before, donor_tid, lock_id, i as int));
            assert forall|k: int| #[trigger] donation_at(before, donor_tid, lock_id, k) implies k
                == i by {
                if k > i {
                    assert(before[i as int].donor_tid == donor_tid);
                } else if k < i {
                    assert(before[k].donor_tid == donor_tid);
                }
            }
            self.donations[i] = donation;
            assert(self.donations@ == before.update(i as int, donation));
            assert(donation_at(before, donation.donor_tid, donation.lock_id, i as int));
            let ghost k = choose|k: int|
                donation_at(before, donation.donor_tid, donation.lock_id, k);
            assert(donation_at(before, donor_tid, lock_id, k));
            assert(self.donations@ == with_donation(before, donation));
        } else {
            assert forall|k: int| !donation_at(before, donor_tid, lock_id, k) by {
                assert(0 <= k < before.len() ==> !(before[k].donor_tid == donor_tid
                    && before[k].lock_id == lock_id));
            }
            self.donations.push(donation);
            assert(self.donations@ =~= with_donation(before, donation));
        }
        assert(before == old(self)@.donations);
        self.refresh_priority(scheduler)
    }

    /// Drops what others lend for `lock_id` and says whether the priority
    /// changed.
    pub fn remove_donations_for_lock(
        &mut self,
        scheduler: &mut Priority,
        lock_id: usize,
    ) -> (changed: bool)
        requires
            old(self)@.status == Status::Ready ==> old(self)@.unlent(lock_id).priority <= PRI_MAX,
        ensures
            final(self)@ == old(self)@.unlent(lock_id),
            final(scheduler)@ == rescheduled(old(scheduler)@, old(self)@, final(self)@),
            changed == (old(self)@.priority != final(self)@.priority),
    {
        let mut kept: Vec<Donation> = Vec::new();
        let mut i: usize = 0;
        proof {
            reveal(Seq::filter);
            assert(self.donations@.take(0) =~= Seq::<Donation>::empty());
        }
        while i < self.donations.len()
            invariant
                i <= self.donations@.len(),
                kept@ == self.donations@.take(i as int).filter(for_other_lock(lock_id)),
            decreases self.donations@.len() - i,
        {
            proof {
                reveal(Seq::filter);
                assert(self.donations@.take(i as int + 1).drop_last() =~= self.donations@.take(
                    i as int,
                ));
            }
            if self.donations[i].lock_id != lock_id {
                kept.push(self.donations[i]);
            }
            i = i + 1;
        }
        assert(self.donations@.take(i as int) =~= self.donations@);
        self.donations = kept;
        self.refresh_priority(scheduler)
    }

    /// Computes the priority anew from the thread's own one and the donations,
    /// tells the scheduler where the thread is ready, and says whether the
    /// priority changed.
    pub fn refresh_priority(&mut self, scheduler: &mut Priority) -> (changed: bool)
        requires
            old(self)@.status == Status::Ready ==> old(self)@.effective() <= PRI_MAX,
        ensures
            final(self)@ == old(self)@.refreshed(),
            final(scheduler)@ == rescheduled(old(scheduler)@, old(self)@, final(self)@),
            changed == (old(self)@.priority != final(self)@.priority),
    {
        let mut lent: u32 = PRI_MIN;
        let mut i: usize = 0;
        assert(self.donations@.take(0) =~= Seq::<Donation>::empty());
        while i < self.donations.len()
            invariant
                i <= self.donations@.len(),
                lent == donated(self.donations@.take(i as int)),
            decreases self.donations@.len() - i,
        {
            assert(self.donations@.take(i as int + 1).drop_last() =~= self.donations@.take(
                i as int,
            ));
            if self.donations[i].priority > lent {
                lent = self.donations[i].priority;
            }
            i = i + 1;
        }
        assert(self.donations@.take(i as int) =~= self.donations@);
        let new_priority = if self.base_priority >= lent {
            self.base_priority
        } else {
            lent
        };
        let old_priority = self.priority;
        self.priority = new_priority;
        if old_priority != new_priority && self.status == Status::Ready {
            scheduler.reprioritize(self.tid, new_priority);
        }
        old_priority != new_priority
    }

    /// The thread in a few words: its name, id and status.
    pub fn describe(&self) -> (text: String)
        ensures
            text@ == self@.described(),
    {
        let mut text = String::new();
        text.push_str(self.name);
        text.push_str("(");
        push_signed_decimal(&mut text, self.tid);
        text.push_str(")[");
        text.push_str(self.status.name());
        text.push_str("]");
        assert(text@ =~= self@.described());
        text
    }

    /// Whether the stack has grown over its end, judged by the word found at
    /// its bottom.
    pub fn overflow(&self, bottom_word: usize) -> (overflown: bool)
        ensures
            overflown == (bottom_word != MAGIC),
            overflown == (bottom_word != 0xdeadbeef),
    {
        bottom_word != MAGIC
    }
}

/* --------------------------------- Builder -------------------------------- */
/// Collects what a new thread needs.
pub struct Builder {
    priority: u32,
    name: &'static str,
    function: usize,
    userproc: Option<UserProc>,
    pagetable: Option<PageTable>,
}

/// What a builder has collected.
#[verifier::ext_equal]
pub struct BuilderState {
    pub priority: u32,
    pub name: Seq<char>,
    /// Address of the main function.
    pub function: usize,
    pub userproc: Option<ProcState>,
    pub pagetable: Option<PageTable>,
}

impl BuilderState {
    /// The thread that comes out, with its id, the address at which it starts,
    /// and its stack.
    pub open spec fn built(self, tid: isize, thread_entry: usize, stack: usize) -> ThreadState {
        ThreadState {
            tid,
            name: self.name,
            stack,
            status: Status::Ready,
            context: ContextState::initial(thread_entry, stack, self.function),
            base_priority: self.priority,
            priority: self.priority,
            waiting_lock: None,
            donations: Seq::empty(),
            userproc: self.userproc,
            pagetable: self.pagetable,
        }
    }
}

impl View for Builder {
    type V = BuilderState;

    closed spec fn view(&self) -> BuilderState {
        BuilderState {
            priority: self.priority,
            name: self.name@,
            function: self.function,
            userproc: match self.userproc {
                Some(proc) => Some(proc@),
                None => None,
            },
            pagetable: self.pagetable,
        }
    }
}

/// What `Builder::spawn` did.
#[derive(Clone, Copy, Debug, PartialEq, Eq, Structural)]
pub struct Spawned {
    /// The id of the new thread.
    pub tid: isize,
    /// The switch to the new thread, where it is the more urgent one.
    pub switch: Option<Switch>,
}

impl Builder {
    /// Starts with the address of a main function and the defaults.
    pub fn new(function: usize) -> (builder: Self)
        ensures
            builder@ == (BuilderState {
                priority: PRI_DEFAULT,
                name: "Default"@,
                function,
                userproc: None,
                pagetable: None,
            }),
    {
        Builder {
            priority: PRI_DEFAULT,
            name: "Default",
            function,
            userproc: None,
            pagetable: None,
        }
    }

    pub fn priority(self, priority: u32) -> (builder: Self)
        ensures
            builder@ == (BuilderState { priority, ..self@ }),
    {
        let mut builder = self;
        builder.priority = priority;
        builder
    }

    pub fn name(self, name: &'static str) -> (builder: Self)
        ensures
            builder@ == (BuilderState { name: name@, ..self@ }),
    {
        let mut builder = self;
        builder.name = name;
        builder
    }

    pub fn pagetable(self, pagetable: PageTable) -> (builder: Self)
        ensures
            builder@ == (BuilderState { pagetable: Some(pagetable), ..self@ }),
    {
        let mut builder = self;
        builder.pagetable = Some(pagetable);
        builder
    }

    pub fn userproc(self, userproc: UserProc) -> (builder: Self)
        ensures
            builder@ == (BuilderState { userproc: Some(userproc@), ..self@ }),
    {
        let mut builder = self;
        builder.userproc = Some(userproc);
        builder
    }

    /// Builds the thread on a stack of `STACK_SIZE` bytes, which has `MAGIC` at
    /// its bottom.
    pub fn build(self, tids: &mut Tids, thread_entry: usize, stack: usize) -> (thread: Thread)
        requires
            stack + STACK_SIZE <= usize::MAX,
        ensures
            thread@ == self@.built(old(tids)@, thread_entry, stack),
            final(tids)@ == next_tid(old(tids)@),
    {
        Thread::new(
            tids,
            self.name,
            thread_entry,
            stack,
            self.priority,
            self.function,
            self.userproc,
            self.pagetable,
        )
    }

    /// Builds a kernel thread and registers it. If it will run in the user
    /// environment, then `userproc` and `pagetable` have to be set properly.
    pub fn spawn(
        self,
        manager: &mut Manager,
        tids: &mut Tids,
        thread_entry: usize,
        stack: usize,
    ) -> (spawned: Spawned)
        requires
            old(manager)@.wf(),
            !old(manager)@.threads.contains_key(old(tids)@),
            stack + STACK_SIZE <= usize::MAX,
            self@.priority <= PRI_MAX,
            self@.userproc is Some ==> self@.userproc->0.wf(),
        ensures
            spawned.tid == old(tids)@,
            final(tids)@ == next_tid(old(tids)@),
            ({
                let with_new = old(manager)@.registered(
                    self@.built(old(tids)@, thread_entry, stack),
                );
                &&& final(manager)@ == with_new.after_preemption()
                &&& spawned.switch == with_new.preemption()
            }),
            final(manager)@.wf(),
            old(manager)@.below(old(tids)@) && old(tids)@ < isize::MAX ==> final(manager)@.below(
                final(tids)@,
            ),
    {
        let thread = self.build(tids, thread_entry, stack);
        let tid = thread.id();
        manager.register(thread);
        proof {
            lemma_scheduled_wf(manager@);
        }
        let switch = manager.maybe_preempt();
        Spawned { tid, switch }
    }
}

} // verus!
