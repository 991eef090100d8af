use stream_db::{Polled, Scheduler};

#[test]
fn new_scheduler_is_done() {
    let mut scheduler: Scheduler<&str> = Scheduler::new();
    assert!(scheduler.is_done());
    assert_eq!(scheduler.take_next(), None);
}

#[test]
fn scheduler_hands_out_the_highest_priority() {
    let mut scheduler = Scheduler::new();
    scheduler.spawn(2, "b");
    scheduler.spawn(9, "z");
    scheduler.spawn(5, "m");
    assert!(!scheduler.is_done());
    assert_eq!(scheduler.take_next(), Some((9, "z")));
    assert_eq!(scheduler.take_next(), Some((5, "m")));
    assert_eq!(scheduler.take_next(), Some((2, "b")));
    assert_eq!(scheduler.take_next(), None);
    assert!(scheduler.is_done());
}

#[test]
fn pending_task_goes_back_under_its_priority() {
    let mut scheduler = Scheduler::new();
    scheduler.spawn(7, "top");
    scheduler.spawn(3, "low");
    let (priority, task) = scheduler.take_next().unwrap();
    assert_eq!((priority, task), (7, "top"));
    scheduler.settle(priority, task, Polled::Pending);
    assert_eq!(scheduler.take_next(), Some((7, "top")));
    assert_eq!(scheduler.take_next(), Some((3, "low")));
}

#[test]
fn ready_task_is_dropped() {
    let mut scheduler = Scheduler::new();
    scheduler.spawn(7, "top");
    scheduler.spawn(3, "low");
    let (priority, task) = scheduler.take_next().unwrap();
    scheduler.settle(priority, task, Polled::Ready);
    assert_eq!(scheduler.take_next(), Some((3, "low")));
    assert!(scheduler.is_done());
}

#[test]
fn run_ends_when_every_task_has_finished() {
    // Each task needs as many polls as its number says.
    let mut scheduler = Scheduler::new();
    scheduler.spawn(4, 3u32);
    scheduler.spawn(8, 1u32);
    scheduler.spawn(6, 2u32);
    let mut polls = Vec::new();
    while let Some((priority, left)) = scheduler.take_next() {
        polls.push(priority);
        if left > 1 {
            scheduler.settle(priority, left - 1, Polled::Pending);
        } else {
            scheduler.settle(priority, left, Polled::Ready);
        }
    }
    assert_eq!(polls, vec![8, 6, 6, 4, 4, 4]);
    assert!(scheduler.is_done());
}
