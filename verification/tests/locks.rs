use kcore::sync::sleep::Acquiring;
use kcore::sync::Sleep;
use kcore::thread::{
    current, get_priority, schedule, set_priority, wake_up, Builder, Manager, Progress, Status,
    Switch, Tids,
};

fn kernel(priorities: &[u32]) -> (Manager, Tids) {
    let mut tids = Tids::new();
    let initial = Builder::new(0).priority(priorities[0]).build(&mut tids, 0, 0x8000);
    let mut manager = Manager::new(initial);
    for priority in &priorities[1..] {
        manager.register(Builder::new(0).priority(*priority).build(&mut tids, 0, 0x8000));
    }
    (manager, tids)
}

fn spawn(manager: &mut Manager, tids: &mut Tids, priority: u32) {
    Builder::new(0).priority(priority).spawn(manager, tids, 0, 0x8000);
}

fn priority_of(manager: &Manager, tid: isize) -> u32 {
    manager.get(tid).unwrap().priority()
}

#[test]
fn a_free_lock_is_acquired_and_let_go() {
    let (mut manager, _) = kernel(&[31]);
    let mut lock = Sleep::new(&mut manager);
    assert!(!lock.can_release(&manager));
    assert_eq!(lock.acquire(&mut manager, Acquiring::Enter), Progress::Done);
    assert_eq!(manager.holder_of(lock.id()), Some(0));
    assert!(manager.holds_lock(0));
    assert!(lock.can_release(&manager));
    lock.release(&mut manager);
    assert_eq!(manager.holder_of(lock.id()), None);
    assert!(!manager.holds_lock(0));
    assert_eq!(lock.acquire(&mut manager, Acquiring::Enter), Progress::Done);
}

#[test]
fn only_one_thread_holds_a_lock() {
    let (mut manager, _) = kernel(&[31, 31]);
    let mut lock = Sleep::new(&mut manager);
    assert_eq!(lock.acquire(&mut manager, Acquiring::Enter), Progress::Done);
    schedule(&mut manager);
    assert_eq!(
        lock.acquire(&mut manager, Acquiring::Enter),
        Progress::Blocked(Some(Switch { previous: 1, next: 0 }))
    );
    assert_eq!(manager.holder_of(lock.id()), Some(0));
    assert_eq!(manager.get(1).unwrap().status(), Status::Blocked);
    assert_eq!(manager.get(1).unwrap().waiting_lock(), Some(lock.id()));
    lock.release(&mut manager);
    assert_eq!(manager.get(1).unwrap().status(), Status::Ready);
    schedule(&mut manager);
    assert_eq!(lock.acquire(&mut manager, Acquiring::Waiting), Progress::Done);
    assert_eq!(manager.holder_of(lock.id()), Some(1));
    assert_eq!(current(&manager).waiting_lock(), None);
}

#[test]
fn a_holder_gets_the_priority_of_the_waiter() {
    let (mut manager, mut tids) = kernel(&[10]);
    let mut lock = Sleep::new(&mut manager);
    lock.acquire(&mut manager, Acquiring::Enter);
    spawn(&mut manager, &mut tids, 50);
    assert_eq!(manager.current_id(), 1);
    lock.acquire(&mut manager, Acquiring::Enter);
    assert_eq!(manager.current_id(), 0);
    assert_eq!(get_priority(&manager), 50);
    assert_eq!(current(&manager).base_priority(), 10);
    lock.release(&mut manager);
    assert_eq!(get_priority(&manager), 10);
    assert_eq!(
        manager.maybe_preempt(),
        Some(Switch { previous: 0, next: 1 })
    );
}

#[test]
fn donations_pass_through_a_chain_of_holders() {
    let (mut manager, mut tids) = kernel(&[10]);
    let mut a = Sleep::new(&mut manager);
    let mut b = Sleep::new(&mut manager);
    a.acquire(&mut manager, Acquiring::Enter);
    spawn(&mut manager, &mut tids, 20);
    b.acquire(&mut manager, Acquiring::Enter);
    a.acquire(&mut manager, Acquiring::Enter);
    assert_eq!(manager.current_id(), 0);
    assert_eq!(priority_of(&manager, 0), 20);
    spawn(&mut manager, &mut tids, 60);
    b.acquire(&mut manager, Acquiring::Enter);
    assert_eq!(priority_of(&manager, 1), 60);
    assert_eq!(priority_of(&manager, 0), 60);
    assert_eq!(manager.current_id(), 0);
    a.release(&mut manager);
    assert_eq!(priority_of(&manager, 0), 10);
    assert_eq!(priority_of(&manager, 1), 60);
}

#[test]
fn a_ready_holder_moves_up_in_the_scheduler() {
    let (mut manager, _) = kernel(&[30, 20, 25]);
    let mut lock = Sleep::new(&mut manager);
    // Thread one takes the lock, and loses the processor.
    set_priority(&mut manager, 1);
    schedule(&mut manager);
    set_priority(&mut manager, 2);
    schedule(&mut manager);
    assert_eq!(manager.current_id(), 1);
    lock.acquire(&mut manager, Acquiring::Enter);
    set_priority(&mut manager, 0);
    schedule(&mut manager);
    assert_eq!(manager.current_id(), 2);
    assert_eq!(priority_of(&manager, 1), 0);
    lock.acquire(&mut manager, Acquiring::Enter);
    assert_eq!(priority_of(&manager, 1), 2);
    assert_eq!(manager.current_id(), 1);
}

#[test]
fn a_deadlock_does_not_keep_the_donations_going() {
    let (mut manager, _) = kernel(&[31, 31]);
    let mut a = Sleep::new(&mut manager);
    let mut b = Sleep::new(&mut manager);
    a.acquire(&mut manager, Acquiring::Enter);
    schedule(&mut manager);
    b.acquire(&mut manager, Acquiring::Enter);
    a.acquire(&mut manager, Acquiring::Enter);
    assert_eq!(manager.current_id(), 0);
    assert_eq!(b.acquire(&mut manager, Acquiring::Enter), Progress::Blocked(None));
    assert_eq!(priority_of(&manager, 0), 31);
    assert_eq!(priority_of(&manager, 1), 31);
}

#[test]
fn the_holder_of_a_lock_is_not_reaped() {
    let (mut manager, _) = kernel(&[31, 31]);
    let mut lock = Sleep::new(&mut manager);
    lock.acquire(&mut manager, Acquiring::Enter);
    kcore::thread::exit(&mut manager);
    assert!(manager.reap(0).is_none());
}

#[test]
fn every_lock_has_an_id_of_its_own() {
    let (mut manager, _) = kernel(&[31]);
    assert!(manager.has_lock_id());
    assert!(!manager.knows_lock(0));
    let mut a = Sleep::new(&mut manager);
    let b = Sleep::new(&mut manager);
    let copy = a.clone_in(&mut manager);
    assert_eq!((a.id(), b.id(), copy.id()), (0, 1, 2));
    assert!(manager.knows_lock(2));
    assert!(!manager.knows_lock(3));
    a.acquire(&mut manager, Acquiring::Enter);
    assert_eq!(manager.holder_of(a.id()), Some(0));
    assert_eq!(manager.holder_of(b.id()), None);
    assert_eq!(manager.holder_of(copy.id()), None);
}

#[test]
fn a_copy_of_a_free_lock_is_another_lock() {
    let (mut manager, _) = kernel(&[31]);
    let mut lock = Sleep::new(&mut manager);
    let mut copy = lock.clone_in(&mut manager);
    assert_eq!(lock.acquire(&mut manager, Acquiring::Enter), Progress::Done);
    assert_eq!(copy.acquire(&mut manager, Acquiring::Enter), Progress::Done);
    assert!(lock.can_release(&manager));
    lock.release(&mut manager);
    assert_eq!(manager.holder_of(lock.id()), None);
    assert_eq!(manager.holder_of(copy.id()), Some(0));
    assert!(!lock.can_release(&manager));
    assert!(copy.can_release(&manager));
    copy.release(&mut manager);
    assert_eq!(manager.holder_of(copy.id()), None);
}

#[test]
fn a_copy_of_a_held_lock_has_its_holder() {
    let (mut manager, _) = kernel(&[31]);
    let mut lock = Sleep::new(&mut manager);
    lock.acquire(&mut manager, Acquiring::Enter);
    let mut copy = lock.clone_in(&mut manager);
    assert_eq!(manager.holder_of(copy.id()), Some(0));
    copy.release(&mut manager);
    assert_eq!(manager.holder_of(copy.id()), None);
    assert_eq!(manager.holder_of(lock.id()), Some(0));
    lock.release(&mut manager);
    assert!(!manager.holds_lock(0));
}

/// Thread zero holds a lock for which two others wait, of priorities 20 and 50.
fn contended() -> (Manager, Sleep) {
    let (mut manager, mut tids) = kernel(&[10]);
    let mut lock = Sleep::new(&mut manager);
    lock.acquire(&mut manager, Acquiring::Enter);
    for priority in [20, 50] {
        spawn(&mut manager, &mut tids, priority);
        assert!(matches!(lock.acquire(&mut manager, Acquiring::Enter), Progress::Blocked(_)));
        assert_eq!(manager.current_id(), 0);
        assert_eq!(get_priority(&manager), priority);
    }
    (manager, lock)
}

#[test]
fn only_the_waiter_that_gets_the_lock_has_to_be_blocked() {
    let (mut manager, mut lock) = contended();
    wake_up(&mut manager, 1);
    assert!(lock.can_release(&manager));
    // Asking has changed nothing.
    assert_eq!(manager.holder_of(lock.id()), Some(0));
    assert_eq!(get_priority(&manager), 50);
    lock.release(&mut manager);
    assert_eq!(manager.get(2).unwrap().status(), Status::Ready);
    assert_eq!(get_priority(&manager), 10);
}

#[test]
fn a_lock_stays_held_while_the_next_waiter_is_awake() {
    let (mut manager, lock) = contended();
    wake_up(&mut manager, 2);
    assert!(!lock.can_release(&manager));
}

#[test]
fn only_the_holder_can_let_go() {
    let (mut manager, _) = kernel(&[31, 31]);
    let mut lock = Sleep::new(&mut manager);
    lock.acquire(&mut manager, Acquiring::Enter);
    schedule(&mut manager);
    assert_eq!(manager.current_id(), 1);
    assert!(!lock.can_release(&manager));
}
