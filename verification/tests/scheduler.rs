use kcore::thread::scheduler::priority::Priority;
use kcore::thread::{Builder, Status, Thread, Tids, PRI_MAX};

fn thread_of(tids: &mut Tids, priority: u32) -> Thread {
    Builder::new(0).priority(priority).build(tids, 0, 0x8000)
}

#[test]
fn an_empty_scheduler_has_nobody_to_run() {
    let mut scheduler = Priority::default();
    assert_eq!(scheduler.schedule(), None);
    assert_eq!(scheduler.max_priority(), None);
}

#[test]
fn higher_levels_come_first_and_levels_are_queues() {
    let mut tids = Tids::new();
    let mut scheduler = Priority::default();
    for priority in [5, PRI_MAX, 5, 0, PRI_MAX] {
        scheduler.register(&thread_of(&mut tids, priority));
    }
    assert_eq!(scheduler.max_priority(), Some(63));
    let mut order = Vec::new();
    while let Some(tid) = scheduler.schedule() {
        order.push(tid);
    }
    assert_eq!(order, vec![1, 4, 0, 2, 3]);
}

#[test]
fn a_new_priority_puts_a_ready_thread_at_the_end_of_its_level() {
    let mut tids = Tids::new();
    let mut scheduler = Priority::default();
    for priority in [10, 10, 20] {
        scheduler.register(&thread_of(&mut tids, priority));
    }
    scheduler.reprioritize(0, 20);
    assert_eq!(scheduler.max_priority(), Some(20));
    assert_eq!(scheduler.schedule(), Some(2));
    assert_eq!(scheduler.schedule(), Some(0));
    assert_eq!(scheduler.schedule(), Some(1));
    scheduler.reprioritize(1, 63);
    assert_eq!(scheduler.schedule(), None);
}

#[test]
fn donations_raise_a_thread_to_the_highest() {
    let mut tids = Tids::new();
    let mut scheduler = Priority::default();
    let mut thread = thread_of(&mut tids, 10);
    thread.set_status(Status::Blocked);
    assert!(thread.update_donation(&mut scheduler, 7, 100, 30));
    assert_eq!(thread.priority(), 30);
    assert_eq!(thread.base_priority(), 10);
    assert!(!thread.update_donation(&mut scheduler, 8, 200, 20));
    assert_eq!(thread.priority(), 30);
    assert!(thread.remove_donations_for_lock(&mut scheduler, 100));
    assert_eq!(thread.priority(), 20);
    assert!(thread.remove_donations_for_lock(&mut scheduler, 200));
    assert_eq!(thread.priority(), 10);
    assert!(!thread.remove_donations_for_lock(&mut scheduler, 200));
}

#[test]
fn a_later_donation_of_one_donor_for_one_lock_replaces_the_earlier() {
    let mut tids = Tids::new();
    let mut scheduler = Priority::default();
    let mut thread = thread_of(&mut tids, 10);
    assert!(thread.update_donation(&mut scheduler, 7, 100, 30));
    assert!(thread.update_donation(&mut scheduler, 7, 100, 15));
    assert_eq!(thread.priority(), 15);
    assert!(thread.update_donation(&mut scheduler, 7, 101, 40));
    assert_eq!(thread.priority(), 40);
    assert!(thread.remove_donations_for_lock(&mut scheduler, 101));
    assert_eq!(thread.priority(), 15);
}

#[test]
fn a_donation_moves_a_ready_thread() {
    let mut tids = Tids::new();
    let mut scheduler = Priority::default();
    let mut first = thread_of(&mut tids, 10);
    let second = thread_of(&mut tids, 20);
    scheduler.register(&first);
    scheduler.register(&second);
    assert!(first.update_donation(&mut scheduler, 7, 100, 30));
    assert_eq!(scheduler.schedule(), Some(0));
    assert_eq!(scheduler.schedule(), Some(1));
}

#[test]
fn a_new_base_priority_counts_after_a_refresh() {
    let mut tids = Tids::new();
    let mut scheduler = Priority::default();
    let mut thread = thread_of(&mut tids, 10);
    thread.set_base_priority(25);
    assert_eq!(thread.priority(), 10);
    assert!(thread.refresh_priority(&mut scheduler));
    assert_eq!(thread.priority(), 25);
    assert!(!thread.refresh_priority(&mut scheduler));
}
