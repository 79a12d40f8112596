use kcore::thread::sleeping::wake_allowed;
use kcore::thread::{
    schedule, sleep, wake_sleeping_threads, Builder, Manager, Progress, SleepEntry, Sleepers,
    Status, Switch, Tids,
};

fn kernel(threads: usize) -> Manager {
    let mut tids = Tids::new();
    let initial = Builder::new(0).build(&mut tids, 0, 0x8000);
    let mut manager = Manager::new(initial);
    for _ in 1..threads {
        manager.register(Builder::new(0).build(&mut tids, 0, 0x8000));
    }
    manager
}

fn status_of(manager: &Manager, tid: isize) -> Status {
    manager.get(tid).unwrap().status()
}

#[test]
fn a_thread_sleeps_for_its_ticks() {
    let mut manager = kernel(2);
    let mut sleepers = Sleepers::new();
    assert_eq!(
        sleep(&mut manager, &mut sleepers, 100, 5),
        Progress::Blocked(Some(Switch { previous: 0, next: 1 }))
    );
    assert_eq!(sleepers.peek(), Some(SleepEntry { wake_tick: 105, thread: 0 }));
    assert!(wake_allowed(&manager, &sleepers, 104));
    wake_sleeping_threads(&mut manager, &mut sleepers, 104);
    assert_eq!(status_of(&manager, 0), Status::Blocked);
    assert!(wake_allowed(&manager, &sleepers, 105));
    wake_sleeping_threads(&mut manager, &mut sleepers, 105);
    assert_eq!(status_of(&manager, 0), Status::Ready);
    assert_eq!(sleepers.peek(), None);
}

#[test]
fn nobody_sleeps_for_no_ticks() {
    let mut manager = kernel(2);
    let mut sleepers = Sleepers::new();
    assert_eq!(sleep(&mut manager, &mut sleepers, 100, 0), Progress::Done);
    assert_eq!(sleep(&mut manager, &mut sleepers, 100, -3), Progress::Done);
    assert_eq!(sleepers.peek(), None);
    assert_eq!(manager.current_id(), 0);
}

#[test]
fn those_that_are_due_wake_up_by_tick_and_id() {
    let mut manager = kernel(4);
    let mut sleepers = Sleepers::new();
    for ticks in [30, 10, 20, 10] {
        sleep(&mut manager, &mut sleepers, 0, ticks);
    }
    wake_sleeping_threads(&mut manager, &mut sleepers, 29);
    assert_eq!(sleepers.peek(), Some(SleepEntry { wake_tick: 30, thread: 0 }));
    let mut order = Vec::new();
    for _ in 0..3 {
        schedule(&mut manager);
        order.push(manager.current_id());
    }
    assert_eq!(order, vec![1, 3, 2]);
}

#[test]
fn the_entry_that_wakes_up_first_is_the_greatest() {
    let early = SleepEntry { wake_tick: 1, thread: 9 };
    let late = SleepEntry { wake_tick: 2, thread: 3 };
    let late_too = SleepEntry { wake_tick: 2, thread: 4 };
    assert!(early > late);
    assert!(late > late_too);
    assert!(late_too < early);
    assert!(early == SleepEntry { wake_tick: 1, thread: 9 });
    assert!(late != late_too);
}

#[test]
fn the_queue_hands_out_the_most_urgent_entry() {
    let mut sleepers = Sleepers::new();
    for (wake_tick, thread) in [(5, 1), (3, 8), (5, 0), (4, 2)] {
        sleepers.push(SleepEntry { wake_tick, thread });
    }
    let mut order = Vec::new();
    while let Some(entry) = sleepers.pop() {
        order.push((entry.wake_tick, entry.thread));
    }
    assert_eq!(order, vec![(3, 8), (4, 2), (5, 0), (5, 1)]);
}

#[test]
fn a_thread_that_is_not_blocked_cannot_be_woken_up() {
    let manager = kernel(2);
    let mut sleepers = Sleepers::new();
    sleepers.push(SleepEntry { wake_tick: 5, thread: 1 });
    assert!(wake_allowed(&manager, &sleepers, 4));
    assert!(!wake_allowed(&manager, &sleepers, 5));
    sleepers.push(SleepEntry { wake_tick: 1, thread: 77 });
    assert!(!wake_allowed(&manager, &sleepers, 1));
}
