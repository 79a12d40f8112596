use kcore::sync::Semaphore;
use kcore::thread::{
    block, schedule, set_priority, wake_up, Builder, Manager, Progress, Status, Switch, Tids,
};

/// Threads of the given priorities; the first one runs.
fn kernel(priorities: &[u32]) -> Manager {
    let mut tids = Tids::new();
    let initial = Builder::new(0).priority(priorities[0]).build(&mut tids, 0, 0x8000);
    let mut manager = Manager::new(initial);
    for priority in &priorities[1..] {
        manager.register(Builder::new(0).priority(*priority).build(&mut tids, 0, 0x8000));
    }
    manager
}

fn status_of(manager: &Manager, tid: isize) -> Status {
    manager.get(tid).unwrap().status()
}

#[test]
fn a_semaphore_counts() {
    let mut manager = kernel(&[31]);
    let mut sema = Semaphore::new(2);
    assert_eq!(sema.value(), 2);
    assert_eq!(sema.down(&mut manager), Progress::Done);
    assert_eq!(sema.down(&mut manager), Progress::Done);
    assert_eq!(sema.value(), 0);
    assert!(sema.can_up(&manager));
    sema.up(&mut manager);
    assert_eq!(sema.value(), 1);
}

#[test]
fn down_on_zero_blocks_until_up() {
    let mut manager = kernel(&[31, 31]);
    let mut sema = Semaphore::new(0);
    assert_eq!(
        sema.down(&mut manager),
        Progress::Blocked(Some(Switch { previous: 0, next: 1 }))
    );
    assert_eq!(status_of(&manager, 0), Status::Blocked);
    assert_eq!(sema.max_priority(&manager), Some(31));
    sema.up(&mut manager);
    assert_eq!(status_of(&manager, 0), Status::Ready);
    assert_eq!(sema.max_priority(&manager), None);
    assert_eq!(sema.value(), 1);
    schedule(&mut manager);
    assert_eq!(manager.current_id(), 0);
    assert_eq!(sema.down(&mut manager), Progress::Done);
    assert_eq!(sema.value(), 0);
}

#[test]
fn up_wakes_the_most_urgent_and_of_those_the_first() {
    let mut manager = kernel(&[40, 20, 30, 30, 5]);
    let mut sema = Semaphore::new(0);
    // They run, and come to wait, by priority: 0, 2, 3, 1.
    for _ in 0..4 {
        sema.down(&mut manager);
    }
    assert_eq!(manager.current_id(), 4);
    assert_eq!(sema.highest_waiter_index(&manager), Some(0));
    assert_eq!(sema.max_priority(&manager), Some(40));
    let mut woken = Vec::new();
    for _ in 0..4 {
        assert!(sema.can_up(&manager));
        sema.up(&mut manager);
        let tid = (0..4).find(|t| status_of(&manager, *t) == Status::Ready).unwrap();
        woken.push(tid);
        // It runs, takes what `up` has given, and is out of the way.
        schedule(&mut manager);
        assert_eq!(manager.current_id(), tid);
        assert_eq!(sema.down(&mut manager), Progress::Done);
        block(&mut manager);
    }
    assert_eq!(woken, vec![0, 2, 3, 1]);
}

#[test]
fn waiters_are_chosen_by_the_priority_that_they_have_now() {
    let mut manager = kernel(&[40, 30, 5]);
    let mut sema = Semaphore::new(0);
    sema.down(&mut manager);
    sema.down(&mut manager);
    assert_eq!(sema.highest_waiter_index(&manager), Some(0));
    // Thread zero is woken by something else, and lowers its priority.
    wake_up(&mut manager, 0);
    schedule(&mut manager);
    set_priority(&mut manager, 10);
    block(&mut manager);
    assert_eq!(sema.highest_waiter_index(&manager), Some(1));
    assert_eq!(sema.max_priority(&manager), Some(30));
}

#[test]
fn nobody_waits_twice() {
    let mut manager = kernel(&[31, 5]);
    let mut sema = Semaphore::new(0);
    sema.down(&mut manager);
    wake_up(&mut manager, 0);
    schedule(&mut manager);
    assert_eq!(manager.current_id(), 0);
    assert!(!sema.can_up(&manager));
    assert!(!sema.all_blocked(&manager));
    sema.down(&mut manager);
    assert!(sema.all_blocked(&manager));
    sema.up(&mut manager);
    assert_eq!(sema.highest_waiter_index(&manager), None);
}

#[test]
fn a_second_up_needs_the_first_to_be_taken() {
    let mut manager = kernel(&[31, 31, 5]);
    let mut sema = Semaphore::new(0);
    sema.down(&mut manager);
    sema.down(&mut manager);
    sema.up(&mut manager);
    assert!(!sema.can_up(&manager));
    let full = Semaphore::new(usize::MAX);
    assert!(!full.can_up(&manager));
}

#[test]
fn a_copy_of_a_semaphore_has_its_value_and_waiters() {
    let mut manager = kernel(&[31, 5]);
    let mut sema = Semaphore::new(0);
    sema.down(&mut manager);
    let copy = sema.clone();
    sema.up(&mut manager);
    assert_eq!(copy.value(), 0);
    assert_eq!(copy.highest_waiter_index(&manager), Some(0));
    assert_eq!(sema.value(), 1);
    assert_eq!(sema.highest_waiter_index(&manager), None);
}
