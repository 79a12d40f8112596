use kcore::thread::{
    block, current, exit, get_priority, schedule, set_priority, spawn, wake_up, Builder, Context,
    Manager, Status, Switch, Thread, Tids, MAGIC, PRI_DEFAULT, PRI_MAX, PRI_MIN, STACK_SIZE,
};

const ENTRY: usize = 0x2000;
const STACK: usize = 0x8000;

fn thread_of(tids: &mut Tids, priority: u32) -> Thread {
    Builder::new(0x1000).priority(priority).build(tids, ENTRY, STACK)
}

/// A manager whose thread zero runs at `priority`.
fn kernel(priority: u32) -> (Manager, Tids) {
    let mut tids = Tids::new();
    let initial = thread_of(&mut tids, priority);
    (Manager::new(initial), tids)
}

fn register(manager: &mut Manager, tids: &mut Tids, priority: u32) -> isize {
    let thread = thread_of(tids, priority);
    let tid = thread.id();
    manager.register(thread);
    tid
}

fn status_of(manager: &Manager, tid: isize) -> Status {
    manager.get(tid).unwrap().status()
}

#[test]
fn a_new_thread_is_ready_with_the_defaults() {
    let mut tids = Tids::new();
    let thread = Builder::new(0x1000).build(&mut tids, ENTRY, STACK);
    assert_eq!(thread.id(), 0);
    assert_eq!(thread.name(), "Default");
    assert_eq!(thread.stack(), STACK);
    assert_eq!(thread.status(), Status::Ready);
    assert_eq!(thread.priority(), PRI_DEFAULT);
    assert_eq!(thread.base_priority(), PRI_DEFAULT);
    assert_eq!(thread.waiting_lock(), None);
    assert!(thread.userproc().is_none());
    assert!(thread.pagetable().is_none());
    let context = thread.context();
    assert_eq!(context.ra, ENTRY);
    assert_eq!(context.sp, STACK + STACK_SIZE);
    assert_eq!(context.s[0], 0x1000);
    assert_eq!(context.s[1..], [0; 11]);
    assert_eq!(STACK_SIZE, 16384);
}

#[test]
fn ids_are_handed_out_upwards() {
    let mut tids = Tids::new();
    assert_eq!(tids.peek(), 0);
    assert_eq!(tids.take(), 0);
    assert_eq!(tids.take(), 1);
    assert_eq!(tids.peek(), 2);
}

#[test]
fn a_thread_is_described_by_name_id_and_status() {
    let mut tids = Tids::new();
    let mut thread = Builder::new(0).name("idle").build(&mut tids, ENTRY, STACK);
    assert_eq!(thread.describe(), "idle(0)[Ready]");
    thread.set_status(Status::Blocked);
    assert_eq!(thread.describe(), "idle(0)[Blocked]");
    for _ in 0..122 {
        tids.take();
    }
    let mut other = Builder::new(0).name("").build(&mut tids, ENTRY, STACK);
    other.set_status(Status::Dying);
    assert_eq!(other.describe(), "(123)[Dying]");
    other.set_status(Status::Running);
    assert_eq!(other.describe(), "(123)[Running]");
}

#[test]
fn a_stack_has_overflown_when_its_magic_is_gone() {
    let mut tids = Tids::new();
    let thread = thread_of(&mut tids, 0);
    assert!(!thread.overflow(MAGIC));
    assert!(thread.overflow(0));
    assert_eq!(MAGIC, 0xdeadbeef);
}

#[test]
fn the_most_urgent_thread_gets_the_processor() {
    let (mut manager, mut tids) = kernel(10);
    let low = register(&mut manager, &mut tids, 3);
    let high = register(&mut manager, &mut tids, 40);
    let middle = register(&mut manager, &mut tids, 20);
    assert_eq!(schedule(&mut manager), Some(Switch { previous: 0, next: high }));
    assert_eq!(manager.current_id(), high);
    assert_eq!(status_of(&manager, high), Status::Running);
    assert_eq!(status_of(&manager, 0), Status::Ready);
    exit(&mut manager);
    assert_eq!(manager.current_id(), middle);
    exit(&mut manager);
    assert_eq!(manager.current_id(), 0);
    exit(&mut manager);
    assert_eq!(manager.current_id(), low);
}

#[test]
fn threads_of_one_priority_take_turns() {
    let (mut manager, mut tids) = kernel(31);
    let a = register(&mut manager, &mut tids, 31);
    let b = register(&mut manager, &mut tids, 31);
    let mut order = Vec::new();
    for _ in 0..7 {
        schedule(&mut manager);
        order.push(manager.current_id());
    }
    assert_eq!(order, vec![a, b, 0, a, b, 0, a]);
}

#[test]
fn the_only_thread_keeps_the_processor() {
    let (mut manager, _) = kernel(31);
    assert_eq!(schedule(&mut manager), None);
    assert_eq!(manager.current_id(), 0);
    assert_eq!(status_of(&manager, 0), Status::Running);
}

#[test]
fn a_blocked_thread_waits_to_be_woken_up() {
    let (mut manager, mut tids) = kernel(31);
    let other = register(&mut manager, &mut tids, 1);
    assert_eq!(block(&mut manager), Some(Switch { previous: 0, next: other }));
    assert_eq!(status_of(&manager, 0), Status::Blocked);
    assert_eq!(schedule(&mut manager), None);
    wake_up(&mut manager, 0);
    assert_eq!(status_of(&manager, 0), Status::Ready);
    assert_eq!(schedule(&mut manager), Some(Switch { previous: other, next: 0 }));
}

#[test]
fn an_exited_thread_does_not_run_again() {
    let (mut manager, mut tids) = kernel(31);
    let other = register(&mut manager, &mut tids, 31);
    assert_eq!(exit(&mut manager), Some(Switch { previous: 0, next: other }));
    for _ in 0..3 {
        assert_eq!(schedule(&mut manager), None);
        assert_eq!(manager.current_id(), other);
    }
    assert_eq!(status_of(&manager, 0), Status::Dying);
}

#[test]
fn an_exited_thread_is_reaped_once_the_processor_has_left_it() {
    let (mut manager, mut tids) = kernel(31);
    assert!(manager.reap(0).is_none());
    exit(&mut manager);
    assert!(manager.reap(0).is_none());
    let other = register(&mut manager, &mut tids, 31);
    schedule(&mut manager);
    assert!(manager.reap(other).is_none());
    let dead = manager.reap(0).unwrap();
    assert_eq!(dead.id(), 0);
    assert_eq!(dead.stack(), STACK);
    assert!(manager.get(0).is_none());
    assert!(manager.reap(0).is_none());
}

#[test]
fn a_more_urgent_new_thread_runs_at_once() {
    let (mut manager, mut tids) = kernel(31);
    let low = Builder::new(0).priority(31).spawn(&mut manager, &mut tids, ENTRY, STACK);
    assert_eq!(low.tid, 1);
    assert_eq!(low.switch, None);
    assert_eq!(manager.current_id(), 0);
    let high = Builder::new(0).priority(32).spawn(&mut manager, &mut tids, ENTRY, STACK);
    assert_eq!(high.switch, Some(Switch { previous: 0, next: 2 }));
    assert_eq!(manager.current_id(), 2);
    assert_eq!(get_priority(&manager), 32);
}

#[test]
fn spawned_threads_get_the_default_priority() {
    let (mut manager, mut tids) = kernel(PRI_MIN);
    let spawned = spawn(&mut manager, &mut tids, "worker", 0x1000, ENTRY, STACK);
    assert_eq!(spawned.switch, Some(Switch { previous: 0, next: 1 }));
    assert_eq!(current(&manager).name(), "worker");
    assert_eq!(current(&manager).priority(), PRI_DEFAULT);
}

#[test]
fn a_thread_sets_its_own_priority() {
    let (mut manager, _) = kernel(31);
    set_priority(&mut manager, PRI_MAX);
    assert_eq!(get_priority(&manager), 63);
    assert_eq!(current(&manager).base_priority(), 63);
    set_priority(&mut manager, 4);
    assert_eq!(get_priority(&manager), 4);
}

#[test]
fn preemption_needs_a_more_urgent_thread() {
    let (mut manager, mut tids) = kernel(31);
    register(&mut manager, &mut tids, 31);
    assert_eq!(manager.maybe_preempt(), None);
    set_priority(&mut manager, 30);
    assert_eq!(manager.maybe_preempt(), Some(Switch { previous: 0, next: 1 }));
    assert_eq!(manager.maybe_preempt(), None);
}

#[test]
fn the_registers_of_a_thread_are_recorded() {
    let (mut manager, mut tids) = kernel(31);
    let other = register(&mut manager, &mut tids, 31);
    let mut s = [0; 12];
    s[11] = 9;
    manager.save_context(0, Context { ra: 0x70, sp: 0x80, s });
    let saved = manager.get(0).unwrap().context();
    assert_eq!((saved.ra, saved.sp, saved.s), (0x70, 0x80, s));
    assert_eq!(manager.get(other).unwrap().context().ra, ENTRY);
    assert_eq!(manager.get(other).unwrap().context().sp, STACK + STACK_SIZE);
    assert_eq!(status_of(&manager, 0), Status::Running);
    assert_eq!(schedule(&mut manager), Some(Switch { previous: 0, next: other }));
}

#[test]
fn the_id_of_a_thread_that_has_gone_is_not_used_again() {
    let (mut manager, mut tids) = kernel(31);
    let other = register(&mut manager, &mut tids, 31);
    exit(&mut manager);
    assert_eq!(manager.current_id(), other);
    assert!(manager.reap(0).is_some());
    let spawned = spawn(&mut manager, &mut tids, "worker", 0x1000, ENTRY, STACK);
    assert_eq!(spawned.tid, 2);
    assert!(manager.get(tids.peek()).is_none());
}
