use kcore::sync::condvar::{WaitAction, Waiting};
use kcore::sync::sleep::Acquiring;
use kcore::sync::{Condvar, Sleep};
use kcore::thread::{
    schedule, set_priority, Builder, Manager, Progress, Status, Switch, Tids,
};

fn kernel(priorities: &[u32]) -> Manager {
    let mut tids = Tids::new();
    let initial = Builder::new(0).priority(priorities[0]).build(&mut tids, 0, 0x8000);
    let mut manager = Manager::new(initial);
    for priority in &priorities[1..] {
        manager.register(Builder::new(0).priority(*priority).build(&mut tids, 0, 0x8000));
    }
    manager
}

fn status_of(manager: &Manager, tid: isize) -> Status {
    manager.get(tid).unwrap().status()
}

/// The running thread goes through `wait` until it is asleep.
fn fall_asleep(condvar: &mut Condvar, manager: &mut Manager) {
    assert_eq!(condvar.wait(manager, Waiting::Enter), WaitAction::ReleaseLock);
    let action = condvar.wait(manager, Waiting::Released);
    assert!(matches!(action, WaitAction::Block(_)));
}

#[test]
fn a_thread_waits_without_the_lock_and_goes_on_with_it() {
    let mut manager = kernel(&[31, 31]);
    let mut lock = Sleep::new(&mut manager);
    let mut condvar = Condvar::new();
    lock.acquire(&mut manager, Acquiring::Enter);
    assert_eq!(condvar.wait(&mut manager, Waiting::Enter), WaitAction::ReleaseLock);
    lock.release(&mut manager);
    assert_eq!(
        condvar.wait(&mut manager, Waiting::Released),
        WaitAction::Block(Some(Switch { previous: 0, next: 1 }))
    );
    assert_eq!(lock.acquire(&mut manager, Acquiring::Enter), Progress::Done);
    assert!(condvar.can_notify_all(&manager));
    condvar.notify_one(&mut manager);
    assert_eq!(status_of(&manager, 0), Status::Ready);
    lock.release(&mut manager);
    schedule(&mut manager);
    assert_eq!(condvar.wait(&mut manager, Waiting::Released), WaitAction::AcquireLock);
    assert_eq!(lock.acquire(&mut manager, Acquiring::Enter), Progress::Done);
    assert_eq!(condvar.wait(&mut manager, Waiting::Enter), WaitAction::ReleaseLock);
}

#[test]
fn the_most_urgent_waiter_is_notified_first() {
    let mut manager = kernel(&[40, 20, 30, 30, 5]);
    let mut condvar = Condvar::new();
    for _ in 0..4 {
        fall_asleep(&mut condvar, &mut manager);
    }
    let mut woken = Vec::new();
    let mut ready = Vec::new();
    for _ in 0..4 {
        condvar.notify_one(&mut manager);
        for tid in 0..4 {
            if status_of(&manager, tid) == Status::Ready && !ready.contains(&tid) {
                ready.push(tid);
                woken.push(tid);
            }
        }
    }
    assert_eq!(woken, vec![0, 2, 3, 1]);
    assert_eq!(condvar.highest_waiter_index(), None);
}

#[test]
fn a_waiter_counts_with_the_priority_that_it_came_with() {
    let mut manager = kernel(&[40, 30, 5]);
    let mut condvar = Condvar::new();
    set_priority(&mut manager, 31);
    assert_eq!(condvar.wait(&mut manager, Waiting::Enter), WaitAction::ReleaseLock);
    set_priority(&mut manager, 1);
    condvar.wait(&mut manager, Waiting::Released);
    assert_eq!(manager.current_id(), 1);
    fall_asleep(&mut condvar, &mut manager);
    assert_eq!(condvar.highest_waiter_index(), Some(0));
    condvar.notify_one(&mut manager);
    assert_eq!(status_of(&manager, 0), Status::Ready);
    assert_eq!(status_of(&manager, 1), Status::Blocked);
}

#[test]
fn a_notification_before_the_sleep_is_not_lost() {
    let mut manager = kernel(&[31, 31]);
    let mut condvar = Condvar::new();
    assert_eq!(condvar.wait(&mut manager, Waiting::Enter), WaitAction::ReleaseLock);
    schedule(&mut manager);
    condvar.notify_one(&mut manager);
    schedule(&mut manager);
    assert_eq!(manager.current_id(), 0);
    assert_eq!(condvar.wait(&mut manager, Waiting::Released), WaitAction::AcquireLock);
}

#[test]
fn everybody_is_notified_at_once() {
    let mut manager = kernel(&[40, 20, 30, 5]);
    let mut condvar = Condvar::new();
    for _ in 0..3 {
        fall_asleep(&mut condvar, &mut manager);
    }
    assert_eq!(manager.current_id(), 3);
    condvar.notify_all(&mut manager);
    for tid in 0..3 {
        assert_eq!(status_of(&manager, tid), Status::Ready);
    }
    schedule(&mut manager);
    for tid in [0, 2, 1] {
        assert_eq!(manager.current_id(), tid);
        assert_eq!(condvar.wait(&mut manager, Waiting::Released), WaitAction::AcquireLock);
        kcore::thread::exit(&mut manager);
    }
    assert_eq!(manager.current_id(), 3);
}

#[test]
fn a_notification_without_waiters_does_nothing() {
    let mut manager = kernel(&[31, 31]);
    let mut condvar = Condvar::new();
    condvar.notify_one(&mut manager);
    condvar.notify_all(&mut manager);
    assert_eq!(manager.current_id(), 0);
    fall_asleep(&mut condvar, &mut manager);
    assert_eq!(status_of(&manager, 0), Status::Blocked);
}

#[test]
fn a_sleeping_waiter_that_something_else_woke_up_cannot_be_notified() {
    let mut manager = kernel(&[31, 31]);
    let mut condvar = Condvar::new();
    fall_asleep(&mut condvar, &mut manager);
    kcore::thread::wake_up(&mut manager, 0);
    assert!(!condvar.can_notify_all(&manager));
    assert!(!condvar.can_notify_one(&manager));
}

#[test]
fn only_the_waiter_that_is_picked_has_to_be_blocked() {
    let mut manager = kernel(&[40, 30, 5]);
    let mut condvar = Condvar::new();
    assert!(condvar.can_notify_one(&manager));
    fall_asleep(&mut condvar, &mut manager);
    fall_asleep(&mut condvar, &mut manager);
    kcore::thread::wake_up(&mut manager, 1);
    assert!(!condvar.can_notify_all(&manager));
    assert!(condvar.can_notify_one(&manager));
    condvar.notify_one(&mut manager);
    assert_eq!(status_of(&manager, 0), Status::Ready);
    assert!(!condvar.can_notify_one(&manager));
}

#[test]
fn a_thread_is_inside_from_the_first_step_to_the_last() {
    let mut manager = kernel(&[31, 31]);
    let mut condvar = Condvar::new();
    assert!(!condvar.inside(0));
    fall_asleep(&mut condvar, &mut manager);
    assert!(condvar.inside(0));
    assert!(!condvar.inside(1));
    condvar.notify_one(&mut manager);
    assert!(condvar.inside(0));
    schedule(&mut manager);
    assert_eq!(condvar.wait(&mut manager, Waiting::Released), WaitAction::AcquireLock);
    assert!(!condvar.inside(0));
}
