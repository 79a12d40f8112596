use kcore::error::OsError;
use kcore::mem::{PageTable, PG_SIZE};
use kcore::sync::sleep::Acquiring;
use kcore::sync::Sleep;
use kcore::thread::{schedule, wake_up, Builder, Manager, Status, Switch, Tids};
use kcore::userproc::children::{exit_allowed, Awaiting, Wait, WaitStatus};
use kcore::userproc::exec::{Image, Launch, Started};
use kcore::userproc::files::FdEntry;
use kcore::userproc::{bury, execute, exit, wait, File, UserProc, WaitTable};

const STACK_TOP: usize = 0x10000;

/// Thread zero runs and owns a process.
fn kernel() -> (Manager, WaitTable, Tids) {
    let mut tids = Tids::new();
    let proc = UserProc::new(File { handle: 100 });
    let initial = Builder::new(0).userproc(proc).build(&mut tids, 0, 0x8000);
    (Manager::new(initial), WaitTable::new(), tids)
}

fn image() -> Result<Image, OsError> {
    Ok(Image { entry_point: 0x1234, init_sp: STACK_TOP, stack_page: Some(vec![0; PG_SIZE]) })
}

fn launch() -> Launch {
    Launch {
        pagetable: PageTable { root: 0x77 },
        function: 0x5000,
        thread_entry: 0x6000,
        stack: 0x9000,
    }
}

fn start_child(manager: &mut Manager, waits: &mut WaitTable, tids: &mut Tids) -> Started {
    let argv = vec![String::from("prog")];
    execute(manager, waits, tids, File { handle: 5 }, &argv, image(), launch()).unwrap()
}

#[test]
fn descriptors_start_behind_the_standard_streams() {
    let mut proc = UserProc::new(File { handle: 1 });
    assert!(proc.has_descriptor());
    assert_eq!(proc.add_file(File { handle: 10 }, true, false), 3);
    assert_eq!(proc.add_file(File { handle: 11 }, false, true), 4);
    assert_eq!(
        proc.with_fd(3),
        Some(FdEntry { file: File { handle: 10 }, readable: true, writable: false })
    );
    assert_eq!(
        proc.with_fd(4),
        Some(FdEntry { file: File { handle: 11 }, readable: false, writable: true })
    );
    assert_eq!(proc.with_fd(0), None);
    assert_eq!(proc.with_fd(5), None);
}

#[test]
fn closed_descriptors_are_not_handed_out_again() {
    let mut proc = UserProc::new(File { handle: 1 });
    proc.add_file(File { handle: 10 }, true, true);
    assert_eq!(proc.close_fd(3), Some(File { handle: 10 }));
    assert_eq!(proc.with_fd(3), None);
    assert_eq!(proc.close_fd(3), None);
    assert_eq!(proc.add_file(File { handle: 12 }, true, true), 4);
}

#[test]
fn everything_is_closed_on_exit() {
    let mut proc = UserProc::new(File { handle: 1 });
    for handle in [20, 10, 30] {
        proc.add_file(File { handle }, true, true);
    }
    proc.close_fd(4);
    assert_eq!(
        proc.close_on_exit(),
        vec![File { handle: 20 }, File { handle: 30 }, File { handle: 1 }]
    );
    assert_eq!(proc.close_on_exit(), vec![]);
    assert_eq!(proc.close_exec_file(), None);
}

#[test]
fn a_program_is_made_into_a_ready_child() {
    let (mut manager, mut waits, mut tids) = kernel();
    let started = start_child(&mut manager, &mut waits, &mut tids);
    assert_eq!(started.tid, 1);
    assert_eq!(started.frame.sepc, 0x1234);
    assert_eq!(started.frame.x[10], 1);
    assert_eq!(started.frame.x[2], started.frame.x[11]);
    assert_eq!(started.frame.x[2] % 16, 0);
    let child = manager.get(1).unwrap();
    assert_eq!(child.status(), Status::Ready);
    assert_eq!(child.pagetable(), Some(PageTable { root: 0x77 }));
    assert_eq!(child.context().ra, 0x6000);
    assert_eq!(child.context().s[0], 0x5000);
    assert!(child.userproc().is_some());
    assert_eq!(tids.peek(), 2);
    assert_eq!(manager.current_id(), 0);
}

#[test]
fn a_program_that_cannot_be_started_leaves_no_trace() {
    let (mut manager, mut waits, mut tids) = kernel();
    let file = File { handle: 5 };
    let argv = vec![String::from("prog")];
    let not_loaded = Err(OsError::FileSystem);
    assert!(
        execute(&mut manager, &mut waits, &mut tids, file, &argv, not_loaded, launch()).is_none()
    );
    let no_stack = Ok(Image { entry_point: 0, init_sp: STACK_TOP, stack_page: None });
    assert!(
        execute(&mut manager, &mut waits, &mut tids, file, &argv, no_stack, launch()).is_none()
    );
    let long = vec!["x".repeat(PG_SIZE)];
    assert!(execute(&mut manager, &mut waits, &mut tids, file, &long, image(), launch()).is_none());
    assert_eq!(tids.peek(), 1);
    assert!(manager.get(1).is_none());
    assert!(!waits.knows(1));
}

#[test]
fn a_parent_gets_the_value_of_a_child_that_has_exited() {
    let (mut manager, mut waits, mut tids) = kernel();
    let child = start_child(&mut manager, &mut waits, &mut tids).tid;
    schedule(&mut manager);
    assert_eq!(manager.current_id(), child);
    assert!(exit_allowed(&manager, &waits));
    let left = exit(&mut manager, &mut waits, 42);
    assert_eq!(left.files, vec![File { handle: 5 }]);
    assert_eq!(left.switch, Some(Switch { previous: child, next: 0 }));
    assert!(waits.knows(child));
    assert_eq!(
        wait(&mut manager, &mut waits, child, Awaiting::Enter),
        Wait::Return(Some(42))
    );
    assert!(!waits.knows(child));
    assert_eq!(wait(&mut manager, &mut waits, child, Awaiting::Enter), Wait::Return(None));
}

#[test]
fn a_parent_is_blocked_until_the_child_exits() {
    let (mut manager, mut waits, mut tids) = kernel();
    let child = start_child(&mut manager, &mut waits, &mut tids).tid;
    assert_eq!(
        wait(&mut manager, &mut waits, child, Awaiting::Enter),
        Wait::Blocked(Some(Switch { previous: 0, next: child }))
    );
    assert_eq!(manager.get(0).unwrap().status(), Status::Blocked);
    assert!(exit_allowed(&manager, &waits));
    let left = exit(&mut manager, &mut waits, -7);
    assert_eq!(left.switch, Some(Switch { previous: child, next: 0 }));
    assert_eq!(manager.current_id(), 0);
    assert_eq!(
        wait(&mut manager, &mut waits, child, Awaiting::Blocked),
        Wait::Return(Some(-7))
    );
    assert!(!waits.knows(child));
}

#[test]
fn a_parent_that_is_woken_too_early_waits_on() {
    let (mut manager, mut waits, mut tids) = kernel();
    let child = start_child(&mut manager, &mut waits, &mut tids).tid;
    wait(&mut manager, &mut waits, child, Awaiting::Enter);
    wake_up(&mut manager, 0);
    schedule(&mut manager);
    assert_eq!(manager.current_id(), 0);
    assert_eq!(
        wait(&mut manager, &mut waits, child, Awaiting::Blocked),
        Wait::Blocked(Some(Switch { previous: 0, next: child }))
    );
    exit(&mut manager, &mut waits, 3);
    assert_eq!(
        wait(&mut manager, &mut waits, child, Awaiting::Blocked),
        Wait::Return(Some(3))
    );
}

#[test]
fn nobody_waits_for_a_stranger() {
    let (mut manager, mut waits, mut tids) = kernel();
    let child = start_child(&mut manager, &mut waits, &mut tids).tid;
    let other = start_child(&mut manager, &mut waits, &mut tids).tid;
    assert_eq!(wait(&mut manager, &mut waits, -1, Awaiting::Enter), Wait::Return(None));
    assert_eq!(wait(&mut manager, &mut waits, 99, Awaiting::Enter), Wait::Return(None));
    schedule(&mut manager);
    assert_eq!(manager.current_id(), child);
    assert_eq!(wait(&mut manager, &mut waits, other, Awaiting::Enter), Wait::Return(None));
    assert_eq!(wait(&mut manager, &mut waits, child, Awaiting::Enter), Wait::Return(None));
}

#[test]
fn the_record_of_an_orphan_goes_with_it() {
    let (mut manager, mut waits, mut tids) = kernel();
    let child = start_child(&mut manager, &mut waits, &mut tids).tid;
    waits.on_parent_exit(0);
    assert!(waits.knows(child));
    schedule(&mut manager);
    exit(&mut manager, &mut waits, 1);
    assert!(!waits.knows(child));
}

#[test]
fn the_records_of_dead_children_go_with_the_parent() {
    let (mut manager, mut waits, mut tids) = kernel();
    let child = start_child(&mut manager, &mut waits, &mut tids).tid;
    schedule(&mut manager);
    exit(&mut manager, &mut waits, 1);
    waits.on_parent_exit(55);
    assert!(waits.knows(child));
    waits.on_parent_exit(0);
    assert!(!waits.knows(child));
}

#[test]
fn a_record_is_reaped_when_nobody_will_ask() {
    let (mut manager, _, _) = kernel();
    let mut status = WaitStatus::new(0);
    assert!(!status.should_reap());
    assert!(status.mark_waited());
    assert!(!status.mark_waited());
    assert!(!status.should_reap());
    status.mark_exited(&mut manager, 9);
    assert!(status.should_reap());

    let mut waits = WaitTable::new();
    waits.insert(7, 0);
    assert!(waits.maybe_reap(7).is_none());
    assert!(waits.maybe_reap(8).is_none());
    assert!(waits.knows(7));
}

#[test]
fn a_thread_without_a_process_cannot_exit_one() {
    let mut tids = Tids::new();
    let manager = Manager::new(Builder::new(0).build(&mut tids, 0, 0x8000));
    assert!(!exit_allowed(&manager, &WaitTable::new()));
}

#[test]
fn a_process_does_not_exit_past_a_parent_that_is_awake() {
    let (mut manager, mut waits, mut tids) = kernel();
    let child = start_child(&mut manager, &mut waits, &mut tids).tid;
    wait(&mut manager, &mut waits, child, Awaiting::Enter);
    assert!(exit_allowed(&manager, &waits));
    wake_up(&mut manager, 0);
    assert!(!exit_allowed(&manager, &waits));
}

#[test]
fn every_child_gets_an_id_that_the_table_does_not_know() {
    let (mut manager, mut waits, mut tids) = kernel();
    let mut last = 0;
    for _ in 0..3 {
        let next = tids.peek();
        assert!(!waits.knows(next));
        let child = start_child(&mut manager, &mut waits, &mut tids).tid;
        assert_eq!(child, next);
        assert!(child > last);
        assert!(waits.knows(child));
        last = child;
    }
    // An id stays taken after its record has gone.
    schedule(&mut manager);
    exit(&mut manager, &mut waits, 0);
    waits.on_parent_exit(0);
    assert!(!waits.knows(1));
    assert_eq!(tids.peek(), 4);
}

#[test]
fn a_thread_that_has_exited_is_buried() {
    let (mut manager, mut waits, mut tids) = kernel();
    let child = start_child(&mut manager, &mut waits, &mut tids).tid;
    exit(&mut manager, &mut waits, 3);
    assert_eq!(manager.current_id(), child);
    let buried = bury(&mut manager, &mut waits, 0).unwrap();
    assert_eq!(buried.id(), 0);
    assert_eq!(buried.stack(), 0x8000);
    assert!(manager.get(0).is_none());
    assert!(bury(&mut manager, &mut waits, 0).is_none());
    // The child is an orphan now, so nobody will ask for its exit value.
    assert!(waits.knows(child));
    exit(&mut manager, &mut waits, 4);
    assert!(!waits.knows(child));
}

#[test]
fn the_living_are_not_buried() {
    let (mut manager, mut waits, mut tids) = kernel();
    let child = start_child(&mut manager, &mut waits, &mut tids).tid;
    assert!(bury(&mut manager, &mut waits, 0).is_none());
    assert!(bury(&mut manager, &mut waits, child).is_none());
    schedule(&mut manager);
    exit(&mut manager, &mut waits, 5);
    assert!(waits.knows(child));
    assert_eq!(
        wait(&mut manager, &mut waits, child, Awaiting::Enter),
        Wait::Return(Some(5))
    );
}

#[test]
fn a_dead_holder_of_a_lock_stays_but_its_children_are_orphans() {
    let (mut manager, mut waits, mut tids) = kernel();
    let child = start_child(&mut manager, &mut waits, &mut tids).tid;
    let mut lock = Sleep::new(&mut manager);
    lock.acquire(&mut manager, Acquiring::Enter);
    exit(&mut manager, &mut waits, 3);
    assert!(bury(&mut manager, &mut waits, 0).is_none());
    assert_eq!(manager.get(0).unwrap().status(), Status::Dying);
    exit(&mut manager, &mut waits, 4);
    assert!(!waits.knows(child));
}

#[test]
fn a_blocked_parent_gets_its_answer_whatever_happens_meanwhile() {
    let (mut manager, mut waits, mut tids) = kernel();
    let first = start_child(&mut manager, &mut waits, &mut tids).tid;
    let second = start_child(&mut manager, &mut waits, &mut tids).tid;
    assert!(matches!(
        wait(&mut manager, &mut waits, first, Awaiting::Enter),
        Wait::Blocked(_)
    ));
    assert_eq!(manager.current_id(), first);
    schedule(&mut manager);
    assert_eq!(manager.current_id(), second);
    start_child(&mut manager, &mut waits, &mut tids);
    exit(&mut manager, &mut waits, 7);
    bury(&mut manager, &mut waits, second);
    assert_eq!(manager.current_id(), first);
    exit(&mut manager, &mut waits, 42);
    bury(&mut manager, &mut waits, first);
    while manager.current_id() != 0 {
        schedule(&mut manager);
    }
    assert_eq!(
        wait(&mut manager, &mut waits, first, Awaiting::Blocked),
        Wait::Return(Some(42))
    );
    assert_eq!(
        wait(&mut manager, &mut waits, second, Awaiting::Enter),
        Wait::Return(Some(7))
    );
    assert!(!waits.knows(first));
    assert!(!waits.knows(second));
}

#[test]
fn an_exit_hands_out_every_file_and_the_executable() {
    let mut tids = Tids::new();
    let mut waits = WaitTable::new();
    let mut proc = UserProc::new(File { handle: 100 });
    proc.add_file(File { handle: 8 }, true, false);
    proc.add_file(File { handle: 9 }, false, true);
    let initial = Builder::new(0).userproc(proc).build(&mut tids, 0, 0x8000);
    let mut manager = Manager::new(initial);
    start_child(&mut manager, &mut waits, &mut tids);
    let exit = exit(&mut manager, &mut waits, 0);
    assert_eq!(
        exit.files,
        vec![File { handle: 8 }, File { handle: 9 }, File { handle: 100 }]
    );
    assert_eq!(exit.switch, Some(Switch { previous: 0, next: 1 }));
}
