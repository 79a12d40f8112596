//! Parents waiting for their children.

use std::collections::BTreeMap;
use std::mem::swap;

use vstd::prelude::*;

use crate::keys::{lists_keys, sorted_keys};
use crate::sync::sema::{lemma_foremost, SemaState, Semaphore};
use crate::thread;
use crate::thread::imp::{Status, Thread};
use crate::thread::manager::Manager;
use crate::thread::state::{lemma_with_thread_wf, ManagerState, Progress, Switch};
use crate::userproc::files::{all_files, File};

verus! {

/// What a child process and its parent know of each other.
pub struct WaitStatus {
    parent_tid: isize,
    exit_status: Option<isize>,
    child_alive: bool,
    parent_alive: bool,
    waited: bool,
    exited: Semaphore,
}

/// What a child process and its parent know of each other.
#[verifier::ext_equal]
pub struct WaitState {
    pub parent_tid: isize,
    /// The value that the child has exited with.
    pub exit_status: Option<isize>,
    pub child_alive: bool,
    pub parent_alive: bool,
    /// Whether the parent has asked for the exit value.
    pub waited: bool,
    /// Raised when the child exits.
    pub exited: SemaState,
}

impl View for WaitStatus {
    type V = WaitState;

    closed spec fn view(&self) -> WaitState {
        WaitState {
            parent_tid: self.parent_tid,
            exit_status: self.exit_status,
            child_alive: self.child_alive,
            parent_alive: self.parent_alive,
            waited: self.waited,
            exited: self.exited@,
        }
    }
}

impl WaitState {
    /// A child that has just been made.
    pub open spec fn fresh(parent_tid: isize) -> WaitState {
        WaitState {
            parent_tid,
            exit_status: None,
            child_alive: true,
            parent_alive: true,
            waited: false,
            exited: SemaState::fresh(0),
        }
    }

    /// Whether nobody will ask for this record any more.
    pub open spec fn should_reap(self) -> bool {
        !self.child_alive && (!self.parent_alive || self.waited)
    }

    /// The record after the child has exited with `value`.
    pub open spec fn after_exit(self, manager: ManagerState, value: isize) -> WaitState {
        WaitState {
            exit_status: Some(value),
            child_alive: false,
            exited: self.exited.upped(manager),
            ..self
        }
    }

    /// What the parent gets to know.
    pub open spec fn exit_value(self) -> isize {
        match self.exit_status {
            Some(value) => value,
            None => -1isize,
        }
    }

    /// The semaphore is raised, and the exit value known, from the exit on.
    pub open spec fn wf(self) -> bool {
        &&& self.child_alive ==> self.exited.value == 0 && self.exit_status is None
        &&& !self.child_alive ==> self.exit_status is Some
    }
}

impl WaitStatus {
    /// A child that has just been made.
    pub fn new(parent_tid: isize) -> (status: Self)
        ensures
            status@ == WaitState::fresh(parent_tid),
    {
        WaitStatus {
            parent_tid,
            exit_status: None,
            child_alive: true,
            parent_alive: true,
            waited: false,
            exited: Semaphore::new(0),
        }
    }

    /// Whether nobody will ask for this record any more.
    pub fn should_reap(&self) -> (reap: bool)
        ensures
            reap == self@.should_reap(),
    {
        !self.child_alive && (!self.parent_alive || self.waited)
    }

    /// Records that the child has exited with `value`, and wakes up a parent that
    /// waits for that.
    pub fn mark_exited(&mut self, manager: &mut Manager, value: isize)
        requires
            old(manager)@.wf(),
            old(self)@.exited.can_up(old(manager)@),
        ensures
            final(self)@ == old(self)@.after_exit(old(manager)@, value),
            final(manager)@ == old(self)@.exited.after_up(old(manager)@),
            final(manager)@.wf(),
    {
        self.exit_status = Some(value);
        self.child_alive = false;
        self.exited.up(manager);
    }

    /// Records that the parent has asked, and says whether it is the first time.
    pub fn mark_waited(&mut self) -> (first: bool)
        ensures
            first == !old(self)@.waited,
            final(self)@ == (WaitState { waited: true, ..old(self)@ }),
    {
        if self.waited {
            return false;
        }
        self.waited = true;
        true
    }
}

/// The children whose exit value somebody may still ask for.
pub struct WaitTable {
    table: BTreeMap<isize, WaitStatus>,
    held: BTreeMap<isize, WaitStatus>,
}

/// The children whose exit value somebody may still ask for, by thread id.
#[verifier::ext_equal]
pub struct TableState {
    /// Those that can be waited for.
    pub table: Map<isize, WaitState>,
    /// Those that have left the table because they exited while their parent was
    /// waiting; the parent still has the record in hand.
    pub held: Map<isize, WaitState>,
}

/// What some records say.
spec fn states(records: Map<isize, WaitStatus>) -> Map<isize, WaitState> {
    records.map_values(|s: WaitStatus| s@)
}

impl View for WaitTable {
    type V = TableState;

    closed spec fn view(&self) -> TableState {
        TableState { table: states(self.table@), held: states(self.held@) }
    }
}

/// How far a parent has got with waiting for a child.
#[derive(Clone, Copy, Debug, PartialEq, Eq, Structural)]
pub enum Awaiting {
    /// It comes to wait.
    Enter,
    /// It has been blocked and runs again.
    Blocked,
}

/// How a call of `wait` has ended.
#[derive(Clone, Copy, Debug, PartialEq, Eq, Structural)]
pub enum Wait {
    /// It is complete, with the exit value, or `None` where the child is not one
    /// that the caller can wait for.
    Return(Option<isize>),
    /// The parent has been blocked until the child exits; once it runs, it calls
    /// again with `Awaiting::Blocked`.
    Blocked(Option<Switch>),
}

/// How an exit has ended.
pub struct Exit {
    /// The files that the process held, to be closed.
    pub files: Vec<File>,
    /// The switch to another thread.
    pub switch: Option<Switch>,
}

impl TableState {
    /// What every operation keeps: the records are in order, and one that is only
    /// in hand is of a child that has exited.
    pub open spec fn wf(self) -> bool {
        &&& forall|c: isize| #[trigger] self.table.contains_key(c) ==> self.table[c].wf()
        &&& forall|c: isize| #[trigger]
            self.held.contains_key(c) ==> self.held[c].wf() && !self.held[c].child_alive
    }

    /// Whether no child is both in the table and only in hand.
    pub open spec fn disjoint(self) -> bool {
        forall|c: isize| #[trigger] self.table.contains_key(c) ==> !self.held.contains_key(c)
    }

    /// Whether every child, in the table or in hand, has an id below `next`, and has one
    /// record.
    pub open spec fn below(self, next: isize) -> bool {
        &&& self.disjoint()
        &&& forall|c: isize| #[trigger] self.table.contains_key(c) ==> c < next
        &&& forall|c: isize| #[trigger] self.held.contains_key(c) ==> c < next
    }

    /// Whether every id that all children were below before is one that they are below
    /// now.
    pub open spec fn as_low_as(self, before: TableState) -> bool {
        forall|next: isize| #[trigger] before.below(next) ==> self.below(next)
    }

    /// The table after a child has been made.
    pub open spec fn inserted(self, child_tid: isize, parent_tid: isize) -> TableState {
        TableState { table: self.table.insert(child_tid, WaitState::fresh(parent_tid)), ..self }
    }

    /// The table after a record that nobody will ask for has gone.
    pub open spec fn reaped(self, child_tid: isize) -> TableState {
        if self.table.contains_key(child_tid) && self.table[child_tid].should_reap() {
            TableState { table: self.table.remove(child_tid), ..self }
        } else {
            self
        }
    }

    /// The table after a parent has gone: its living children know, and the
    /// records of the dead ones have gone too.
    pub open spec fn orphaned(self, parent_tid: isize) -> TableState {
        TableState {
            table: Map::new(
                |c: isize|
                    self.table.contains_key(c) && !(self.table[c].parent_tid == parent_tid
                        && !self.table[c].child_alive),
                |c: isize|
                    if self.table[c].parent_tid == parent_tid {
                        WaitState { parent_alive: false, ..self.table[c] }
                    } else {
                        self.table[c]
                    },
            ),
            ..self
        }
    }

    /// The table after a child has exited with `value`. A record that has been
    /// asked for leaves the table for the hands of the waiting parent.
    pub open spec fn exited(
        self,
        child_tid: isize,
        manager: ManagerState,
        value: isize,
    ) -> TableState {
        if self.table.contains_key(child_tid) {
            let after = self.table[child_tid].after_exit(manager, value);
            if !after.should_reap() {
                TableState { table: self.table.insert(child_tid, after), ..self }
            } else if after.waited {
                TableState {
                    table: self.table.remove(child_tid),
                    held: self.held.insert(child_tid, after),
                }
            } else {
                TableState { table: self.table.remove(child_tid), ..self }
            }
        } else {
            self
        }
    }

    /// The threads after a child has exited.
    pub open spec fn after_exit(self, child_tid: isize, manager: ManagerState) -> ManagerState {
        if self.table.contains_key(child_tid) {
            self.table[child_tid].exited.after_up(manager)
        } else {
            manager
        }
    }

    /// Whether `caller` may not wait for `tid`: it is not its child, or it has
    /// waited for it before.
    pub open spec fn refused(self, tid: isize, caller: isize) -> bool {
        ||| tid < 0
        ||| !self.table.contains_key(tid)
        ||| self.table[tid].parent_tid != caller
        ||| self.table[tid].waited
    }

    /// The table with the mark that the parent has asked.
    pub open spec fn asked(self, tid: isize) -> TableState {
        TableState {
            table: self.table.insert(tid, WaitState { waited: true, ..self.table[tid] }),
            ..self
        }
    }

    /// The record that a parent inside `wait` has in hand.
    pub open spec fn in_hand(self, tid: isize) -> WaitState {
        if self.held.contains_key(tid) {
            self.held[tid]
        } else {
            self.table[tid]
        }
    }

    /// The table with another state of the record that a parent inside `wait` has
    /// in hand.
    pub open spec fn with_in_hand(self, tid: isize, status: WaitState) -> TableState {
        if self.held.contains_key(tid) {
            TableState { held: self.held.insert(tid, status), ..self }
        } else {
            TableState { table: self.table.insert(tid, status), ..self }
        }
    }

    /// The record after `caller` has gone for the child's exit.
    pub open spec fn downed(self, tid: isize, caller: isize) -> WaitState {
        WaitState {
            exited: self.in_hand(tid).exited.downed(caller),
            ..self.in_hand(tid)
        }
    }

    /// The table after a parent has got the exit value.
    pub open spec fn collected(self, tid: isize) -> TableState {
        TableState { held: self.held.remove(tid), ..self.reaped(tid) }
    }

    /// What `wait` answers.
    pub open spec fn wait_answer(self, manager: ManagerState, tid: isize, stage: Awaiting) -> Wait {
        match stage {
            Awaiting::Enter => if self.refused(tid, manager.current) {
                Wait::Return(None)
            } else if !self.table[tid].child_alive {
                Wait::Return(Some(self.table[tid].exit_value()))
            } else {
                Wait::Blocked(manager.stopped(Status::Blocked).switch())
            },
            Awaiting::Blocked => match self.in_hand(tid).exited.down_progress(manager) {
                Progress::Done => Wait::Return(Some(self.in_hand(tid).exit_value())),
                Progress::Blocked(switch) => Wait::Blocked(switch),
            },
        }
    }

    /// The table after `wait`.
    pub open spec fn after_wait(
        self,
        manager: ManagerState,
        tid: isize,
        stage: Awaiting,
    ) -> TableState {
        let caller = manager.current;
        match stage {
            Awaiting::Enter => if self.refused(tid, caller) {
                self
            } else if !self.table[tid].child_alive {
                self.asked(tid).reaped(tid)
            } else {
                TableState {
                    table: self.table.insert(
                        tid,
                        WaitState {
                            waited: true,
                            exited: self.table[tid].exited.downed(caller),
                            ..self.table[tid]
                        },
                    ),
                    ..self
                }
            },
            Awaiting::Blocked => {
                let after = self.with_in_hand(tid, self.downed(tid, caller));
                if self.in_hand(tid).exited.value > 0 {
                    after.collected(tid)
                } else {
                    after
                }
            },
        }
    }

    /// The threads after `wait`.
    pub open spec fn threads_after_wait(
        self,
        manager: ManagerState,
        tid: isize,
        stage: Awaiting,
    ) -> ManagerState {
        match self.wait_answer(manager, tid, stage) {
            Wait::Return(_) => manager,
            Wait::Blocked(_) => manager.stopped(Status::Blocked).scheduled(),
        }
    }
}

/// The threads after the running one has closed what its process held.
pub open spec fn closed_on_exit(manager: ManagerState) -> ManagerState {
    manager.with_proc(manager.current, manager.running().userproc->0.all_closed())
}

/// The threads after the running one has told its parent that its process ends,
/// just before it goes.
pub open spec fn leaving(manager: ManagerState, waits: TableState) -> ManagerState {
    waits.after_exit(manager.current, closed_on_exit(manager)).stopped(Status::Dying)
}

/// Whether the process of the running thread can exit: there is one, and the parent
/// that waits for it, if any, is blocked.
pub open spec fn can_exit(manager: ManagerState, waits: TableState) -> bool {
    &&& manager.running().userproc is Some
    &&& manager.running().status == Status::Running
    &&& waits.table.contains_key(manager.current)
        ==> waits.table[manager.current].exited.can_up(manager)
}

/// Whether `c` is among the first `n` keys.
spec fn among(keys: Seq<isize>, n: int, c: isize) -> bool {
    exists|k: int| 0 <= k < n && #[trigger] keys[k] == c
}

impl WaitTable {
    /// What every operation keeps.
    #[verifier::type_invariant]
    pub(crate) open spec fn in_order(self) -> bool {
        self@.wf()
    }

    /// No child has been made.
    pub fn new() -> (waits: Self)
        ensures
            waits@ == (TableState { table: Map::empty(), held: Map::empty() }),
            waits@.wf(),
            waits@.below(0),
    {
        let waits = WaitTable { table: BTreeMap::new(), held: BTreeMap::new() };
        assert(waits@.table =~= Map::empty());
        assert(waits@.held =~= Map::empty());
        waits
    }

    /// Lets a new child in.
    pub fn insert(&mut self, child_tid: isize, parent_tid: isize)
        ensures
            final(self)@ == old(self)@.inserted(child_tid, parent_tid),
            final(self)@.wf(),
            old(self)@.below(child_tid) && child_tid < isize::MAX ==> final(self)@.below(
                (child_tid + 1) as isize,
            ),
    {
        proof {
            use_type_invariant(&*self);
        }
        self.put(child_tid, WaitStatus::new(parent_tid));
    }

    /// Puts a record into the table.
    fn put(&mut self, tid: isize, status: WaitStatus)
        requires
            status@.wf(),
        ensures
            final(self)@.wf(),
            final(self)@ == (TableState {
                table: old(self)@.table.insert(tid, status@),
                ..old(self)@
            }),
    {
        proof {
            use_type_invariant(&*self);
        }
        let ghost state = status@;
        let mut waits = WaitTable::new();
        swap(&mut waits, self);
        let WaitTable { mut table, held } = waits;
        table.insert(tid, status);
        assert(states(table@) =~= old(self)@.table.insert(tid, state));
        *self = WaitTable { table, held };
    }

    /// Takes a record out of the table.
    fn take(&mut self, tid: isize) -> (status: Option<WaitStatus>)
        ensures
            match status {
                Some(status) => old(self)@.table.contains_key(tid) && status@
                    == old(self)@.table[tid] && status@.wf(),
                None => !old(self)@.table.contains_key(tid),
            },
            final(self)@ == (TableState { table: old(self)@.table.remove(tid), ..old(self)@ }),
    {
        proof {
            use_type_invariant(&*self);
        }
        let mut waits = WaitTable::new();
        swap(&mut waits, self);
        let WaitTable { mut table, held } = waits;
        let status = table.remove(&tid);
        assert(states(table@) =~= old(self)@.table.remove(tid));
        *self = WaitTable { table, held };
        status
    }

    /// Puts a record into the hands of a waiting parent.
    fn hold(&mut self, tid: isize, status: WaitStatus)
        requires
            status@.wf(),
            !status@.child_alive,
        ensures
            final(self)@.wf(),
            final(self)@ == (TableState {
                held: old(self)@.held.insert(tid, status@),
                ..old(self)@
            }),
    {
        proof {
            use_type_invariant(&*self);
        }
        let ghost state = status@;
        let mut waits = WaitTable::new();
        swap(&mut waits, self);
        let WaitTable { table, mut held } = waits;
        held.insert(tid, status);
        assert(states(held@) =~= old(self)@.held.insert(tid, state));
        *self = WaitTable { table, held };
    }

    /// Takes a record out of the hands of a waiting parent.
    fn take_held(&mut self, tid: isize) -> (status: Option<WaitStatus>)
        ensures
            match status {
                Some(status) => old(self)@.held.contains_key(tid) && status@
                    == old(self)@.held[tid] && status@.wf() && !status@.child_alive,
                None => !old(self)@.held.contains_key(tid),
            },
            final(self)@ == (TableState { held: old(self)@.held.remove(tid), ..old(self)@ }),
    {
        proof {
            use_type_invariant(&*self);
        }
        let mut waits = WaitTable::new();
        swap(&mut waits, self);
        let WaitTable { table, mut held } = waits;
        let status = held.remove(&tid);
        assert(states(held@) =~= old(self)@.held.remove(tid));
        *self = WaitTable { table, held };
        status
    }

    /// Whether there is a record of a child.
    pub fn knows(&self, tid: isize) -> (known: bool)
        ensures
            known == (self@.held.contains_key(tid) || self@.table.contains_key(tid)),
    {
        self.held.contains_key(&tid) || self.table.contains_key(&tid)
    }

    /// Drops the record of a child that nobody will ask for any more, and hands it
    /// out.
    pub fn maybe_reap(&mut self, child_tid: isize) -> (reaped: Option<WaitStatus>)
        ensures
            final(self)@ == old(self)@.reaped(child_tid),
            match reaped {
                Some(status) => {
                    &&& old(self)@.table.contains_key(child_tid)
                    &&& old(self)@.table[child_tid].should_reap()
                    &&& status@ == old(self)@.table[child_tid]
                },
                None => !(old(self)@.table.contains_key(child_tid)
                    && old(self)@.table[child_tid].should_reap()),
            },
            final(self)@.wf(),
            final(self)@.as_low_as(old(self)@),
    {
        proof {
            use_type_invariant(&*self);
        }
        let should_remove = match self.table.get(&child_tid) {
            Some(status) => status.should_reap(),
            None => false,
        };
        if should_remove {
            self.take(child_tid)
        } else {
            None
        }
    }

    /// Tells the children of a parent that it has gone, and drops the records of
    /// those that have gone before.
    pub fn on_parent_exit(&mut self, parent_tid: isize)
        ensures
            final(self)@ == old(self)@.orphaned(parent_tid),
            final(self)@.wf(),
            final(self)@.as_low_as(old(self)@),
    {
        proof {
            use_type_invariant(&*self);
        }
        let keys = sorted_keys(&self.table);
        let ghost before = self@;
        let ghost after = self@.orphaned(parent_tid);
        let mut i: usize = 0;
        assert(forall|c: isize| #[trigger]
            self.table@.contains_key(c) <==> before.table.contains_key(c));
        while i < keys.len()
            invariant
                i <= keys@.len(),
                before == old(self)@,
                after == before.orphaned(parent_tid),
                lists_keys(keys@, before.table),
                self@.held == before.held,
                forall|c: isize|
                    #![trigger self@.table.contains_key(c)]
                    among(keys@, i as int, c) ==> {
                        &&& self@.table.contains_key(c) <==> after.table.contains_key(c)
                        &&& self@.table.contains_key(c) ==> self@.table[c] == after.table[c]
                    },
                forall|c: isize|
                    #![trigger self@.table.contains_key(c)]
                    !among(keys@, i as int, c) ==> {
                        &&& self@.table.contains_key(c) <==> before.table.contains_key(c)
                        &&& self@.table.contains_key(c) ==> self@.table[c] == before.table[c]
                    },
            decreases keys@.len() - i,
        {
            let child_tid = keys[i];
            let ghost table = self@.table;
            assert(keys@.contains(child_tid));
            assert(!among(keys@, i as int, child_tid));
            assert(table.contains_key(child_tid));
            let mut status = self.take(child_tid).unwrap();
            if status.parent_tid == parent_tid {
                status.parent_alive = false;
                if status.child_alive {
                    self.put(child_tid, status);
                }
            } else {
                self.put(child_tid, status);
            }
            i = i + 1;
            assert forall|c: isize| #[trigger] among(keys@, i as int, c) <==> c == child_tid
                || among(keys@, i - 1, c) by {
                if c == child_tid {
                    assert(keys@[i - 1] == c);
                }
                if among(keys@, i as int, c) {
                    let k = choose|k: int| 0 <= k < i && #[trigger] keys@[k] == c;
                    assert(k < i - 1 ==> keys@[k] == c);
                }
                if among(keys@, i - 1, c) {
                    let k = choose|k: int| 0 <= k < i - 1 && #[trigger] keys@[k] == c;
                    assert(keys@[k] == c);
                }
            }
        }
        proof {
            assert forall|c: isize| #[trigger]
                self@.table.contains_key(c) <==> after.table.contains_key(c) by {
                if before.table.contains_key(c) {
                    assert(keys@.contains(c));
                    let k = choose|k: int| 0 <= k < keys@.len() && keys@[k] == c;
                    assert(among(keys@, i as int, c));
                } else {
                    assert(!among(keys@, i as int, c));
                }
            }
            assert forall|c: isize| #[trigger] self@.table.contains_key(c) implies self@.table[c]
                == after.table[c] by {
                assert(before.table.contains_key(c));
                assert(keys@.contains(c));
                let k = choose|k: int| 0 <= k < keys@.len() && keys@[k] == c;
                assert(among(keys@, i as int, c));
            }
            assert(self@.table =~= after.table);
        }
    }
}

/// Buries a thread that the processor has left, if it has exited: its children learn that
/// it has gone, and the thread comes out, so that its stack and its page table can be
/// released. A thread that holds a lock stays, as others look at it.
pub fn bury(manager: &mut Manager, waits: &mut WaitTable, tid: isize) -> (thread: Option<Thread>)
    requires
        old(manager)@.wf(),
    ensures
        match thread {
            Some(thread) => {
                &&& old(manager)@.can_reap(tid)
                &&& thread@ == old(manager)@.threads[tid]
                &&& final(manager)@ == old(manager)@.reaped(tid)
            },
            None => !old(manager)@.can_reap(tid) && final(manager)@ == old(manager)@,
        },
        final(waits)@ == (if has_exited(old(manager)@, tid) {
            old(waits)@.orphaned(tid)
        } else {
            old(waits)@
        }),
        final(manager)@.wf(),
        final(waits)@.wf(),
        final(waits)@.as_low_as(old(waits)@),
{
    proof {
        use_type_invariant(&*waits);
    }
    let exited = match manager.get(tid) {
        Some(thread) => thread.status() == Status::Dying,
        None => false,
    };
    if !exited || tid == manager.current_id() {
        return None;
    }
    waits.on_parent_exit(tid);
    manager.reap(tid)
}

/// Whether a thread has exited and the processor has left it.
pub open spec fn has_exited(manager: ManagerState, tid: isize) -> bool {
    &&& manager.threads.contains_key(tid)
    &&& manager.threads[tid].status == Status::Dying
    &&& tid != manager.current
}

/// Whether the process of the running thread can exit.
pub fn exit_allowed(manager: &Manager, waits: &WaitTable) -> (allowed: bool)
    requires
        manager@.wf(),
    ensures
        allowed == can_exit(manager@, waits@),
{
    let current = thread::current(manager);
    if current.userproc().is_none() || current.status() != Status::Running {
        return false;
    }
    match waits.table.get(&manager.current_id()) {
        Some(status) => status.exited.can_up(manager),
        None => true,
    }
}

/// Exits the process of the running thread with `value`.
///
/// The running thread has to own a user process.
pub fn exit(manager: &mut Manager, waits: &mut WaitTable, value: isize) -> (exit: Exit)
    requires
        old(manager)@.wf(),
        can_exit(old(manager)@, old(waits)@),
    ensures
        exit.files@ == all_files(old(manager)@.running().userproc->0),
        final(waits)@ == old(waits)@.exited(
            old(manager)@.current,
            closed_on_exit(old(manager)@),
            value,
        ),
        final(manager)@ == leaving(old(manager)@, old(waits)@).scheduled(),
        exit.switch == leaving(old(manager)@, old(waits)@).switch(),
        final(manager)@.wf(),
        final(waits)@.wf(),
        final(waits)@.as_low_as(old(waits)@),
{
    proof {
        use_type_invariant(&*waits);
    }
    let current = manager.current_id();
    let ghost before = manager@;
    let mut proc = manager.take_userproc(current).unwrap();
    let files = proc.close_on_exit();
    manager.set_userproc(current, proc);
    let ghost closed = manager@;
    proof {
        assert(closed =~= before.with_proc(current, before.running().userproc->0.all_closed()));
        lemma_with_thread_wf(before, current, closed.threads[current]);
    }
    match waits.take(current) {
        Some(status) => {
            let mut status = status;
            proof {
                let sema = status@.exited;
                assert forall|i: int| 0 <= i < sema.waiters.len() implies
                    closed.threads.contains_key(#[trigger] sema.waiters[i]) by {}
                assert(sema.priorities(closed) =~= sema.priorities(before));
                if sema.waiters.len() > 0 {
                    lemma_foremost(sema.priorities(before));
                }
            }
            status.mark_exited(manager, value);
            let ghost after = status@;
            waits.put(current, status);
            match waits.maybe_reap(current) {
                Some(status) => {
                    if status.waited {
                        waits.hold(current, status);
                    }
                },
                None => {},
            }
            assert(waits@ =~= old(waits)@.exited(current, closed, value));
        },
        None => {
            assert(waits@ =~= old(waits)@);
        },
    }
    let switch = thread::exit(manager);
    Exit { files, switch }
}

/// Waits for a child thread, which must own a user process.
///
/// ## Return
/// - `Some(exit_value)`
/// - `None`: if tid was not created by the running thread, or has been waited for
///   before.
pub fn wait(manager: &mut Manager, waits: &mut WaitTable, tid: isize, stage: Awaiting) -> (answer:
    Wait)
    requires
        old(manager)@.wf(),
        old(manager)@.running().status != Status::Ready,
        stage == Awaiting::Blocked ==> old(waits)@.held.contains_key(tid)
            || old(waits)@.table.contains_key(tid),
    ensures
        answer == old(waits)@.wait_answer(old(manager)@, tid, stage),
        final(waits)@ == old(waits)@.after_wait(old(manager)@, tid, stage),
        final(manager)@ == old(waits)@.threads_after_wait(old(manager)@, tid, stage),
        final(manager)@.wf(),
        final(waits)@.wf(),
        final(waits)@.as_low_as(old(waits)@),
{
    proof {
        use_type_invariant(&*waits);
    }
    let current = manager.current_id();
    match stage {
        Awaiting::Enter => {
            if tid < 0 {
                return Wait::Return(None);
            }
            let refused = match waits.table.get(&tid) {
                Some(status) => status.parent_tid != current || status.waited,
                None => true,
            };
            if refused {
                return Wait::Return(None);
            }
            let mut status = waits.take(tid).unwrap();
            status.mark_waited();
            if status.child_alive {
                match status.exited.down(manager) {
                    Progress::Blocked(switch) => {
                        waits.put(tid, status);
                        assert(waits@ =~= old(waits)@.after_wait(old(manager)@, tid, stage));
                        return Wait::Blocked(switch);
                    },
                    Progress::Done => {},
                }
            }
            let exit_value = exit_value(&status);
            waits.put(tid, status);
            assert(waits@ =~= old(waits)@.asked(tid));
            waits.maybe_reap(tid);
            Wait::Return(Some(exit_value))
        },
        Awaiting::Blocked => {
            match waits.take_held(tid) {
                Some(status) => {
                    let mut status = status;
                    match status.exited.down(manager) {
                        Progress::Blocked(switch) => {
                            waits.hold(tid, status);
                            assert(waits@ =~= old(waits)@.after_wait(old(manager)@, tid, stage));
                            Wait::Blocked(switch)
                        },
                        Progress::Done => {
                            waits.maybe_reap(tid);
                            assert(waits@ =~= old(waits)@.after_wait(old(manager)@, tid, stage));
                            Wait::Return(Some(exit_value(&status)))
                        },
                    }
                },
                None => {
                    let mut status = waits.take(tid).unwrap();
                    match status.exited.down(manager) {
                        Progress::Blocked(switch) => {
                            waits.put(tid, status);
                            assert(waits@ =~= old(waits)@.after_wait(old(manager)@, tid, stage));
                            Wait::Blocked(switch)
                        },
                        Progress::Done => {
                            let exit_value = exit_value(&status);
                            waits.put(tid, status);
                            waits.maybe_reap(tid);
                            assert(waits@ =~= old(waits)@.after_wait(old(manager)@, tid, stage));
                            Wait::Return(Some(exit_value))
                        },
                    }
                },
            }
        },
    }
}

/// What the parent gets to know.
fn exit_value(status: &WaitStatus) -> (value: isize)
    ensures
        value == status@.exit_value(),
{
    match status.exit_status {
        Some(value) => value,
        None => -1,
    }
}

} // verus!
