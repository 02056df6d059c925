use block_scheduler::maybe_hashed::MaybeHashed;
use block_scheduler::scheduler::Scheduler;
use block_scheduler::traits::{Anon, Named};
use block_scheduler::types::{Address, Schedule, SchedulerError};

type Sched = Scheduler<u32, u64, u8>;

fn once(target_block: u64) -> Schedule {
    Schedule { target_block, maybe_periodic: None }
}

#[test]
fn schedule_named_records_the_name() {
    let mut s = Sched::new(0, 0);
    let a = s.schedule_named(vec![1, 2, 3], once(10), 50, 1, MaybeHashed::Value(7)).unwrap();
    assert_eq!(a, Address { block: 10, index: 0 });
    assert_eq!(s.address_of(&vec![1, 2, 3]), Some(a));
    assert_eq!(Named::next_dispatch_time(&s, vec![1, 2, 3]), Ok(10));
    assert_eq!(Anon::next_dispatch_time(&s, a), Ok(10));
    assert_eq!(s.task(a).unwrap().name, Some(vec![1, 2, 3]));
}

#[test]
fn schedule_named_with_a_name_in_use_fails_and_changes_nothing() {
    let mut s = Sched::new(0, 0);
    let a = s.schedule_named(vec![1], once(10), 50, 1, MaybeHashed::Value(7)).unwrap();
    assert_eq!(
        s.schedule_named(vec![1], once(12), 60, 2, MaybeHashed::Value(8)),
        Err(SchedulerError::DuplicateName)
    );
    assert_eq!(s.address_of(&vec![1]), Some(a));
    assert_eq!(Named::next_dispatch_time(&s, vec![1]), Ok(10));
    let t = s.task(a).unwrap();
    assert_eq!(t.schedule, once(10));
    assert_eq!(t.priority, 50);
    assert_eq!(t.call, MaybeHashed::Value(7));
    assert_eq!(s.slots(12), 0);
    assert_eq!(s.slots(10), 1);
}

#[test]
fn a_duplicate_name_is_reported_before_a_target_in_the_past() {
    let mut s = Sched::new(5, 0);
    s.schedule_named(vec![1], once(10), 50, 1, MaybeHashed::Value(7)).unwrap();
    assert_eq!(
        s.schedule_named(vec![1], once(2), 60, 2, MaybeHashed::Value(8)),
        Err(SchedulerError::DuplicateName)
    );
    assert_eq!(
        s.schedule_named(vec![2], once(2), 60, 2, MaybeHashed::Value(8)),
        Err(SchedulerError::TargetInPast)
    );
    assert_eq!(s.address_of(&vec![2]), None);
}

#[test]
fn cancel_named_frees_the_name() {
    let mut s = Sched::new(0, 0);
    let a = s.schedule_named(vec![1], once(10), 50, 1, MaybeHashed::Hash(70)).unwrap();
    let t = s.cancel_named(vec![1]).unwrap();
    assert_eq!(t.call, MaybeHashed::Hash(70));
    assert_eq!(t.name, Some(vec![1]));
    assert_eq!(s.address_of(&vec![1]), None);
    assert_eq!(s.cancel_named(vec![1]), Err(SchedulerError::InvalidName));
    assert_eq!(Named::next_dispatch_time(&s, vec![1]), Err(SchedulerError::InvalidName));
    assert_eq!(s.cancel(a), Err(SchedulerError::InvalidAddress));
    let b = s.schedule_named(vec![1], once(10), 50, 1, MaybeHashed::Value(7)).unwrap();
    assert_eq!(b, Address { block: 10, index: 1 });
}

#[test]
fn cancel_by_address_frees_the_name_too() {
    let mut s = Sched::new(0, 0);
    let a = s.schedule_named(vec![1], once(10), 50, 1, MaybeHashed::Value(7)).unwrap();
    s.cancel(a).unwrap();
    assert_eq!(s.address_of(&vec![1]), None);
    assert_eq!(s.cancel_named(vec![1]), Err(SchedulerError::InvalidName));
}

#[test]
fn unknown_names_are_invalid() {
    let mut s = Sched::new(0, 0);
    assert_eq!(s.cancel_named(vec![9]), Err(SchedulerError::InvalidName));
    assert_eq!(s.reschedule_named(vec![9], once(4)), Err(SchedulerError::InvalidName));
    assert_eq!(Named::next_dispatch_time(&s, vec![9]), Err(SchedulerError::InvalidName));
}

#[test]
fn reschedule_named_keeps_the_name_on_the_task() {
    let mut s = Sched::new(0, 0);
    let a = s.schedule_named(vec![1], once(10), 50, 1, MaybeHashed::Value(7)).unwrap();
    let b = s.reschedule_named(vec![1], once(30)).unwrap();
    assert_ne!(a, b);
    assert_eq!(b, Address { block: 30, index: 0 });
    assert_eq!(Named::next_dispatch_time(&s, vec![1]), Ok(30));
    assert_eq!(s.address_of(&vec![1]), Some(b));
    let c = s.reschedule_named(vec![1], once(20)).unwrap();
    assert_eq!(c, Address { block: 20, index: 0 });
    assert_eq!(Named::next_dispatch_time(&s, vec![1]), Ok(20));
    assert_eq!(Anon::next_dispatch_time(&s, a), Err(SchedulerError::InvalidAddress));
    assert_eq!(Anon::next_dispatch_time(&s, b), Err(SchedulerError::InvalidAddress));
    assert_eq!(s.task(c).unwrap().name, Some(vec![1]));
}

#[test]
fn reschedule_by_address_moves_the_name_along() {
    let mut s = Sched::new(0, 0);
    let a = s.schedule_named(vec![1], once(10), 50, 1, MaybeHashed::Value(7)).unwrap();
    let b = s.reschedule(a, once(15)).unwrap();
    assert_eq!(s.address_of(&vec![1]), Some(b));
    assert_eq!(Named::next_dispatch_time(&s, vec![1]), Ok(15));
}

#[test]
fn reschedule_named_into_the_past_fails_and_changes_nothing() {
    let mut s = Sched::new(5, 0);
    let a = s.schedule_named(vec![1], once(10), 50, 1, MaybeHashed::Value(7)).unwrap();
    assert_eq!(s.reschedule_named(vec![1], once(5)), Err(SchedulerError::TargetInPast));
    assert_eq!(s.address_of(&vec![1]), Some(a));
    assert_eq!(Named::next_dispatch_time(&s, vec![1]), Ok(10));
}

#[test]
fn a_named_task_that_is_being_served_cannot_be_touched() {
    let mut s = Sched::new(2, 0);
    s.schedule_named(vec![1], once(3), 50, 1, MaybeHashed::Value(7)).unwrap();
    assert!(s.begin_cycle(3, 100));
    assert_eq!(s.cancel_named(vec![1]), Err(SchedulerError::InvalidAddress));
    assert_eq!(s.reschedule_named(vec![1], once(9)), Err(SchedulerError::TooLateToReschedule));
    assert_eq!(Named::next_dispatch_time(&s, vec![1]), Err(SchedulerError::InvalidAddress));
    assert_eq!(
        s.schedule_named(vec![1], once(9), 50, 1, MaybeHashed::Value(8)),
        Err(SchedulerError::DuplicateName)
    );
    assert_eq!(s.pending(), 1);
}

#[test]
fn names_differ_by_content() {
    let mut s = Sched::new(0, 0);
    let a = s.schedule_named(vec![1, 2], once(10), 50, 1, MaybeHashed::Value(7)).unwrap();
    let b = s.schedule_named(vec![1], once(10), 50, 1, MaybeHashed::Value(8)).unwrap();
    let c = s.schedule_named(vec![], once(11), 50, 1, MaybeHashed::Value(9)).unwrap();
    assert_eq!(s.address_of(&vec![1, 2]), Some(a));
    assert_eq!(s.address_of(&vec![1]), Some(b));
    assert_eq!(s.address_of(&vec![]), Some(c));
    assert_eq!(s.address_of(&vec![2, 1]), None);
}

#[test]
fn freeing_one_name_leaves_the_others_in_place() {
    let mut s = Sched::new(0, 0);
    let a = s.schedule_named(vec![1], once(10), 50, 1, MaybeHashed::Value(1)).unwrap();
    let b = s.schedule_named(vec![2], once(11), 50, 1, MaybeHashed::Value(2)).unwrap();
    let c = s.schedule_named(vec![3], once(12), 50, 1, MaybeHashed::Value(3)).unwrap();
    let d = s.schedule_named(vec![4], once(12), 50, 1, MaybeHashed::Value(4)).unwrap();
    assert_eq!(s.cancel_named(vec![1]).unwrap().call, MaybeHashed::Value(1));
    assert_eq!(s.address_of(&vec![1]), None);
    assert_eq!(s.address_of(&vec![2]), Some(b));
    assert_eq!(s.address_of(&vec![3]), Some(c));
    assert_eq!(s.address_of(&vec![4]), Some(d));
    assert_eq!(s.cancel_named(vec![3]).unwrap().call, MaybeHashed::Value(3));
    assert_eq!(s.address_of(&vec![2]), Some(b));
    assert_eq!(s.address_of(&vec![3]), None);
    assert_eq!(s.address_of(&vec![4]), Some(d));
    let e = s.reschedule_named(vec![4], once(20)).unwrap();
    assert_eq!(s.address_of(&vec![4]), Some(e));
    assert_eq!(s.address_of(&vec![2]), Some(b));
    assert_eq!(s.cancel_named(vec![4]).unwrap().call, MaybeHashed::Value(4));
    assert_eq!(s.cancel_named(vec![2]).unwrap().call, MaybeHashed::Value(2));
    assert_eq!(s.address_of(&vec![2]), None);
    assert_eq!(s.address_of(&vec![4]), None);
    assert!(!s.is_live(a));
    assert!(!s.is_live(e));
}
