//! Kernel threads.

pub mod imp;
pub mod laws;
pub mod manager;
pub mod scheduler;
pub mod sleeping;
pub mod state;

pub use self::imp::{
    Builder, Context, Donation, Spawned, Status, Thread, Tids, MAGIC, PRI_DEFAULT, PRI_MAX, PRI_MIN,
    STACK_ALIGN, STACK_SIZE, STACK_TOP,
};
pub use self::manager::Manager;
pub use self::sleeping::{sleep, wake_sleeping_threads, SleepEntry, Sleepers};
pub use self::state::{Progress, Switch};

use vstd::prelude::*;

use crate::thread::imp::BuilderState;

verus! {

/// Creates a new thread, which starts at `thread_entry` on the given stack and
/// runs the function at `function`.
pub fn spawn(
    manager: &mut Manager,
    tids: &mut Tids,
    name: &'static str,
    function: usize,
    thread_entry: usize,
    stack: usize,
) -> (spawned: Spawned)
    requires
        old(manager)@.wf(),
        !old(manager)@.threads.contains_key(old(tids)@),
        stack + STACK_SIZE <= usize::MAX,
    ensures
        spawned.tid == old(tids)@,
        final(tids)@ == imp::next_tid(old(tids)@),
        ({
            let builder = BuilderState {
                priority: PRI_DEFAULT,
                name: name@,
                function,
                userproc: None,
                pagetable: None,
            };
            let with_new = old(manager)@.registered(
                builder.built(old(tids)@, thread_entry, stack),
            );
            &&& final(manager)@ == with_new.after_preemption()
            &&& spawned.switch == with_new.preemption()
        }),
        final(manager)@.wf(),
        old(manager)@.below(old(tids)@) && old(tids)@ < isize::MAX ==> final(manager)@.below(
            final(tids)@,
        ),
{
    Builder::new(function).name(name).spawn(manager, tids, thread_entry, stack)
}

/// The running thread.
pub fn current(manager: &Manager) -> (thread: &Thread)
    requires
        manager@.wf(),
    ensures
        thread@ == manager@.running(),
{
    manager.thread(manager.current_id())
}

/// Yields the control to another thread (if there's another one ready to run).
pub fn schedule(manager: &mut Manager) -> (switch: Option<Switch>)
    requires
        old(manager)@.wf(),
    ensures
        final(manager)@ == old(manager)@.scheduled(),
        switch == old(manager)@.switch(),
        final(manager)@.wf(),
{
    manager.schedule()
}

/// Gracefully shuts down the running thread, and schedules another one.
pub fn exit(manager: &mut Manager) -> (switch: Option<Switch>)
    requires
        old(manager)@.wf(),
        old(manager)@.running().status != Status::Ready,
    ensures
        final(manager)@ == old(manager)@.stopped(Status::Dying).scheduled(),
        switch == old(manager)@.stopped(Status::Dying).switch(),
        final(manager)@.wf(),
{
    manager.stop(Status::Dying)
}

/// Marks the running thread as blocked and yields the control to another
/// thread.
pub fn block(manager: &mut Manager) -> (switch: Option<Switch>)
    requires
        old(manager)@.wf(),
        old(manager)@.running().status != Status::Ready,
    ensures
        final(manager)@ == old(manager)@.stopped(Status::Blocked).scheduled(),
        switch == old(manager)@.stopped(Status::Blocked).switch(),
        final(manager)@.wf(),
{
    manager.stop(Status::Blocked)
}

/// Wakes up a previously blocked thread: marks it as ready and registers it
/// into the scheduler.
pub fn wake_up(manager: &mut Manager, tid: isize)
    requires
        old(manager)@.wf(),
        old(manager)@.threads.contains_key(tid),
        old(manager)@.threads[tid].status == Status::Blocked,
    ensures
        final(manager)@ == old(manager)@.woken(tid),
        final(manager)@.wf(),
{
    manager.wake(tid);
}

/// Sets the running thread's own priority. What others lend it stays on top.
pub fn set_priority(manager: &mut Manager, priority: u32)
    requires
        old(manager)@.wf(),
        priority <= PRI_MAX,
    ensures
        final(manager)@ == old(manager)@.with_base_priority(old(manager)@.current, priority),
        final(manager)@.wf(),
{
    let current = manager.current_id();
    manager.set_base_priority(current, priority);
}

/// The running thread's effective priority.
pub fn get_priority(manager: &Manager) -> (priority: u32)
    requires
        manager@.wf(),
    ensures
        priority == manager@.running().priority,
{
    current(manager).priority()
}

} // verus!
