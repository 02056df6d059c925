use block_scheduler::cycle::{Action, Deferral, Outcome};
use block_scheduler::maybe_hashed::{LookupError, MaybeHashed};
use block_scheduler::scheduler::Scheduler;
use block_scheduler::traits::{Anon, Named};
use block_scheduler::types::{Address, Schedule, SchedulerError, HARD_DEADLINE};

type Sched = Scheduler<u32, u64, u8>;

/// A runtime for the tests: calls are numbers, a call weighs and consumes
/// what `weight` says, and fails if it is odd.
struct Host {
    preimages: Vec<(u64, Result<u32, LookupError>)>,
    weight: u64,
    ran: Vec<(u64, u8, u32)>,
    released: Vec<u64>,
}

fn host(weight: u64) -> Host {
    Host { preimages: vec![], weight, ran: vec![], released: vec![] }
}

fn find(host: &Host, hash: u64) -> Result<u32, LookupError> {
    for (h, r) in host.preimages.iter() {
        if *h == hash {
            return *r;
        }
    }
    Err(LookupError::Unknown)
}

/// Takes up the blocks before `block`, which must be empty.
fn advance(s: &mut Sched, block: u64) {
    while s.now() + 1 < block {
        let next = s.now() + 1;
        assert!(s.begin_cycle(next, 0));
        assert_eq!(s.next_action(), Action::Idle);
    }
}

/// Serves `block` to the end and returns what became of each task.
fn serve(s: &mut Sched, host: &mut Host, block: u64, limit: u64) -> Vec<Outcome<u64>> {
    let mut log = vec![];
    advance(s, block);
    assert!(s.begin_cycle(block, limit));
    loop {
        let outcome = match s.next_action() {
            Action::Idle => break,
            Action::Lookup => {
                let hash = *s.head().unwrap().call.as_hash().unwrap();
                s.on_preimage(find(host, hash))
            },
            Action::Weigh => s.on_weight(host.weight),
            Action::Dispatch => {
                let task = s.head().unwrap();
                let call = *task.call.as_value().unwrap();
                host.ran.push((block, task.origin, call));
                s.on_dispatched(call % 2 == 0, host.weight)
            },
        };
        match &outcome {
            Outcome::Resolved { hash } => host.released.push(*hash),
            Outcome::Dropped { released: Some(hash), .. } => host.released.push(*hash),
            _ => {},
        }
        match outcome {
            Outcome::Resolved { .. } | Outcome::Admitted => {},
            other => log.push(other),
        }
    }
    log
}

fn once(target_block: u64) -> Schedule {
    Schedule { target_block, maybe_periodic: None }
}

#[test]
fn an_empty_block_has_nothing_to_do() {
    let mut s = Sched::new(0, 0);
    assert!(s.begin_cycle(1, 10));
    assert_eq!(s.now(), 1);
    assert_eq!(s.limit(), 10);
    assert_eq!(s.used(), 0);
    assert_eq!(s.next_action(), Action::Idle);
    assert_eq!(s.head(), None);
}

#[test]
fn begin_cycle_takes_the_next_block_only() {
    let mut s = Sched::new(5, 0);
    assert!(!s.begin_cycle(5, 10));
    assert!(!s.begin_cycle(4, 10));
    assert!(!s.begin_cycle(7, 10));
    assert_eq!(s.now(), 5);
    assert!(s.begin_cycle(6, 10));
    assert!(!s.begin_cycle(6, 10));
    assert_eq!(s.now(), 6);
    assert!(s.begin_cycle(7, 10));
    assert_eq!(s.now(), 7);
}

#[test]
fn there_is_no_block_after_the_last() {
    let mut s = Sched::new(u64::MAX, 0);
    assert!(!s.begin_cycle(u64::MAX, 10));
    assert!(!s.begin_cycle(0, 10));
    assert_eq!(
        s.schedule(once(u64::MAX), 1, 1, MaybeHashed::Value(1)),
        Err(SchedulerError::TargetInPast)
    );
}

#[test]
fn begin_cycle_refuses_while_tasks_wait() {
    let mut s = Sched::new(0, 0);
    s.schedule(once(1), 100, 1, MaybeHashed::Value(2)).unwrap();
    s.schedule(once(2), 100, 1, MaybeHashed::Value(4)).unwrap();
    assert!(s.begin_cycle(1, 10));
    assert!(!s.begin_cycle(2, 10));
    assert_eq!(s.now(), 1);
    assert_eq!(s.pending(), 1);
    assert_eq!(s.on_weight(1), Outcome::Admitted);
    assert!(!s.begin_cycle(2, 10));
    assert_eq!(s.on_dispatched(true, 1), Outcome::Executed { index: 0, ok: true, renewed: None });
    assert!(s.begin_cycle(2, 10));
    assert_eq!(s.pending(), 1);
}

#[test]
fn the_task_of_priority_5_runs_before_the_task_of_priority_10() {
    let mut s = Sched::new(0, 0);
    s.schedule(once(4), 10, 1, MaybeHashed::Value(100)).unwrap();
    s.schedule(once(4), 5, 2, MaybeHashed::Value(200)).unwrap();
    let mut h = host(1);
    let log = serve(&mut s, &mut h, 4, 1000);
    assert_eq!(h.ran, vec![(4, 2, 200), (4, 1, 100)]);
    assert_eq!(
        log,
        vec![
            Outcome::Executed { index: 1, ok: true, renewed: None },
            Outcome::Executed { index: 0, ok: true, renewed: None },
        ]
    );
}

#[test]
fn tasks_of_one_priority_run_in_the_order_of_their_slots() {
    let mut s = Sched::new(0, 0);
    s.schedule(once(4), 7, 1, MaybeHashed::Value(10)).unwrap();
    s.schedule(once(4), 3, 2, MaybeHashed::Value(20)).unwrap();
    s.schedule(once(4), 7, 3, MaybeHashed::Value(30)).unwrap();
    s.schedule(once(4), 3, 4, MaybeHashed::Value(40)).unwrap();
    s.schedule(once(4), 0, 5, MaybeHashed::Value(50)).unwrap();
    s.schedule(once(4), 255, 6, MaybeHashed::Value(60)).unwrap();
    s.schedule(once(4), 7, 7, MaybeHashed::Value(70)).unwrap();
    let mut h = host(1);
    serve(&mut s, &mut h, 4, 1000);
    assert_eq!(
        h.ran,
        vec![
            (4, 5, 50),
            (4, 2, 20),
            (4, 4, 40),
            (4, 1, 10),
            (4, 3, 30),
            (4, 7, 70),
            (4, 6, 60),
        ]
    );
}

#[test]
fn cancelled_tasks_do_not_run() {
    let mut s = Sched::new(0, 0);
    let a = s.schedule(once(4), 7, 1, MaybeHashed::Value(10)).unwrap();
    s.schedule(once(4), 7, 2, MaybeHashed::Value(20)).unwrap();
    s.cancel(a).unwrap();
    let mut h = host(1);
    let log = serve(&mut s, &mut h, 4, 1000);
    assert_eq!(h.ran, vec![(4, 2, 20)]);
    assert_eq!(log, vec![Outcome::Executed { index: 1, ok: true, renewed: None }]);
    assert_eq!(s.cancel(a), Err(SchedulerError::InvalidAddress));
    assert_eq!(s.slots(4), 0);
}

#[test]
fn a_failed_dispatch_is_reported_and_the_cycle_goes_on() {
    let mut s = Sched::new(0, 0);
    s.schedule(once(4), 7, 1, MaybeHashed::Value(11)).unwrap();
    s.schedule(once(4), 7, 2, MaybeHashed::Value(20)).unwrap();
    let mut h = host(1);
    let log = serve(&mut s, &mut h, 4, 1000);
    assert_eq!(h.ran, vec![(4, 1, 11), (4, 2, 20)]);
    assert_eq!(
        log,
        vec![
            Outcome::Executed { index: 0, ok: false, renewed: None },
            Outcome::Executed { index: 1, ok: true, renewed: None },
        ]
    );
}

#[test]
fn a_periodic_task_of_period_3_with_2_runs_to_follow_runs_at_10_13_and_16() {
    let mut s = Sched::new(0, 0);
    let schedule = Schedule { target_block: 10, maybe_periodic: Some((3, Some(2))) };
    s.schedule(schedule, 100, 1, MaybeHashed::Value(8)).unwrap();
    let mut h = host(1);
    for block in 1..=25 {
        let log = serve(&mut s, &mut h, block, 1000);
        match block {
            10 => assert_eq!(
                log,
                vec![Outcome::Executed {
                    index: 0,
                    ok: true,
                    renewed: Some(Address { block: 13, index: 0 }),
                }]
            ),
            13 => assert_eq!(
                log,
                vec![Outcome::Executed {
                    index: 0,
                    ok: true,
                    renewed: Some(Address { block: 16, index: 0 }),
                }]
            ),
            16 => assert_eq!(log, vec![Outcome::Executed { index: 0, ok: true, renewed: None }]),
            _ => assert_eq!(log, vec![]),
        }
        if block == 10 {
            let next = s.task(Address { block: 13, index: 0 }).unwrap();
            assert_eq!(
                next.schedule,
                Schedule { target_block: 13, maybe_periodic: Some((3, Some(1))) }
            );
        }
        if block == 13 {
            let next = s.task(Address { block: 16, index: 0 }).unwrap();
            assert_eq!(
                next.schedule,
                Schedule { target_block: 16, maybe_periodic: Some((3, Some(0))) }
            );
        }
    }
    assert_eq!(h.ran, vec![(10, 1, 8), (13, 1, 8), (16, 1, 8)]);
    assert_eq!(s.slots(19), 0);
    assert!(!s.is_live(Address { block: 19, index: 0 }));
}

#[test]
fn a_periodic_task_without_end_keeps_running() {
    let mut s = Sched::new(0, 0);
    let schedule = Schedule { target_block: 2, maybe_periodic: Some((2, None)) };
    s.schedule(schedule, 100, 1, MaybeHashed::Value(8)).unwrap();
    let mut h = host(1);
    for block in 1..=9 {
        serve(&mut s, &mut h, block, 1000);
    }
    assert_eq!(h.ran, vec![(2, 1, 8), (4, 1, 8), (6, 1, 8), (8, 1, 8)]);
    assert_eq!(
        s.task(Address { block: 10, index: 0 }).unwrap().schedule,
        Schedule { target_block: 10, maybe_periodic: Some((2, None)) }
    );
}

#[test]
fn a_period_of_zero_is_no_period() {
    let mut s = Sched::new(0, 0);
    let schedule = Schedule { target_block: 2, maybe_periodic: Some((0, None)) };
    s.schedule(schedule, 100, 1, MaybeHashed::Value(8)).unwrap();
    let mut h = host(1);
    let log = serve(&mut s, &mut h, 2, 1000);
    assert_eq!(log, vec![Outcome::Executed { index: 0, ok: true, renewed: None }]);
    assert_eq!(s.slots(2), 0);
    assert_eq!(s.slots(3), 0);
}

#[test]
fn a_period_beyond_the_last_block_ends_the_task() {
    let mut s = Sched::new(0, 0);
    let schedule = Schedule { target_block: 2, maybe_periodic: Some((u64::MAX, None)) };
    s.schedule(schedule, 100, 1, MaybeHashed::Value(8)).unwrap();
    let mut h = host(1);
    let log = serve(&mut s, &mut h, 2, 1000);
    assert_eq!(log, vec![Outcome::Executed { index: 0, ok: true, renewed: None }]);
}

#[test]
fn a_named_periodic_task_keeps_its_name_from_run_to_run() {
    let mut s = Sched::new(0, 0);
    let schedule = Schedule { target_block: 2, maybe_periodic: Some((5, None)) };
    s.schedule_named(vec![7], schedule, 100, 1, MaybeHashed::Value(8)).unwrap();
    s.schedule(once(7), 100, 1, MaybeHashed::Value(2)).unwrap();
    let mut h = host(1);
    serve(&mut s, &mut h, 2, 1000);
    assert_eq!(s.address_of(&vec![7]), Some(Address { block: 7, index: 1 }));
    assert_eq!(Named::next_dispatch_time(&s, vec![7]), Ok(7));
    serve(&mut s, &mut h, 7, 1000);
    assert_eq!(Named::next_dispatch_time(&s, vec![7]), Ok(12));
    s.cancel_named(vec![7]).unwrap();
    for block in 8..=20 {
        serve(&mut s, &mut h, block, 1000);
    }
    assert_eq!(h.ran, vec![(2, 1, 8), (7, 1, 2), (7, 1, 8)]);
}

#[test]
fn the_name_of_a_task_that_ran_for_the_last_time_is_free() {
    let mut s = Sched::new(0, 0);
    s.schedule_named(vec![7], once(2), 100, 1, MaybeHashed::Value(8)).unwrap();
    let mut h = host(1);
    serve(&mut s, &mut h, 2, 1000);
    assert_eq!(s.address_of(&vec![7]), None);
    assert_eq!(Named::next_dispatch_time(&s, vec![7]), Err(SchedulerError::InvalidName));
    assert!(s.schedule_named(vec![7], once(3), 100, 1, MaybeHashed::Value(8)).is_ok());
}

#[test]
fn a_task_over_the_limit_waits_for_the_next_block() {
    let mut s = Sched::new(0, 0);
    s.schedule(once(4), 64, 1, MaybeHashed::Value(10)).unwrap();
    s.schedule(once(4), 64, 2, MaybeHashed::Value(20)).unwrap();
    s.schedule(once(4), 200, 3, MaybeHashed::Value(30)).unwrap();
    let mut h = host(40);
    let log = serve(&mut s, &mut h, 4, 100);
    assert_eq!(
        log,
        vec![
            Outcome::Executed { index: 0, ok: true, renewed: None },
            Outcome::Executed { index: 1, ok: true, renewed: None },
            Outcome::Deferred {
                index: 2,
                to: Address { block: 5, index: 0 },
                cause: Deferral::Overweight,
            },
        ]
    );
    assert_eq!(s.used(), 80);
    let waiting = s.task(Address { block: 5, index: 0 }).unwrap();
    assert_eq!(waiting.priority, 200);
    assert_eq!(waiting.schedule, once(5));
    assert_eq!(waiting.call, MaybeHashed::Value(30));
    let log = serve(&mut s, &mut h, 5, 100);
    assert_eq!(log, vec![Outcome::Executed { index: 0, ok: true, renewed: None }]);
    assert_eq!(h.ran, vec![(4, 1, 10), (4, 2, 20), (5, 3, 30)]);
}

#[test]
fn a_task_that_fills_the_limit_exactly_runs() {
    let mut s = Sched::new(0, 0);
    s.schedule(once(4), 64, 1, MaybeHashed::Value(10)).unwrap();
    s.schedule(once(4), 64, 2, MaybeHashed::Value(20)).unwrap();
    let mut h = host(50);
    let log = serve(&mut s, &mut h, 4, 100);
    assert_eq!(
        log,
        vec![
            Outcome::Executed { index: 0, ok: true, renewed: None },
            Outcome::Executed { index: 1, ok: true, renewed: None },
        ]
    );
    assert_eq!(s.used(), 100);
}

#[test]
fn a_task_over_the_limit_keeps_waiting_while_blocks_are_full() {
    let mut s = Sched::new(0, 0);
    s.schedule(once(1), 100, 1, MaybeHashed::Value(10)).unwrap();
    let mut h = host(40);
    for block in 1..=3 {
        let log = serve(&mut s, &mut h, block, 39);
        assert_eq!(
            log,
            vec![Outcome::Deferred {
                index: 0,
                to: Address { block: block + 1, index: 0 },
                cause: Deferral::Overweight,
            }]
        );
        assert_eq!(s.used(), 0);
    }
    let log = serve(&mut s, &mut h, 4, 40);
    assert_eq!(log, vec![Outcome::Executed { index: 0, ok: true, renewed: None }]);
    assert_eq!(h.ran, vec![(4, 1, 10)]);
}

#[test]
fn a_hard_deadline_task_runs_whatever_the_limit() {
    let mut s = Sched::new(0, 0);
    s.schedule(once(4), HARD_DEADLINE, 1, MaybeHashed::Value(10)).unwrap();
    s.schedule(once(4), 0, 2, MaybeHashed::Value(20)).unwrap();
    s.schedule(once(4), HARD_DEADLINE + 1, 3, MaybeHashed::Value(30)).unwrap();
    let mut h = host(40);
    let log = serve(&mut s, &mut h, 4, 10);
    assert_eq!(
        log,
        vec![
            Outcome::Executed { index: 1, ok: true, renewed: None },
            Outcome::Executed { index: 0, ok: true, renewed: None },
            Outcome::Deferred {
                index: 2,
                to: Address { block: 5, index: 0 },
                cause: Deferral::Overweight,
            },
        ]
    );
    assert_eq!(h.ran, vec![(4, 2, 20), (4, 1, 10)]);
    assert_eq!(s.used(), 80);
}

#[test]
fn the_hard_deadline_is_63() {
    assert_eq!(HARD_DEADLINE, 63);
}

#[test]
fn consumed_weight_stops_at_the_highest_weight() {
    let mut s = Sched::new(0, 0);
    s.schedule(once(1), 0, 1, MaybeHashed::Value(10)).unwrap();
    s.schedule(once(1), 0, 2, MaybeHashed::Value(20)).unwrap();
    assert!(s.begin_cycle(1, 5));
    assert_eq!(s.on_weight(1), Outcome::Admitted);
    assert_eq!(
        s.on_dispatched(true, u64::MAX - 1),
        Outcome::Executed { index: 0, ok: true, renewed: None }
    );
    assert_eq!(s.used(), u64::MAX - 1);
    assert_eq!(s.on_weight(1), Outcome::Admitted);
    assert_eq!(s.on_dispatched(true, 7), Outcome::Executed { index: 1, ok: true, renewed: None });
    assert_eq!(s.used(), u64::MAX);
}

#[test]
fn a_hash_without_preimage_waits_until_the_preimage_is_there() {
    let mut s = Sched::new(0, 1);
    s.schedule(once(1), 100, 1, MaybeHashed::Hash(0xfeed)).unwrap();
    let mut h = host(1);
    for block in 1..=6 {
        let log = serve(&mut s, &mut h, block, 1000);
        assert_eq!(
            log,
            vec![Outcome::Deferred {
                index: 0,
                to: Address { block: block + 1, index: 0 },
                cause: Deferral::Unresolved(LookupError::Unknown),
            }]
        );
        let waiting = s.task(Address { block: block + 1, index: 0 }).unwrap();
        assert_eq!(waiting.call, MaybeHashed::Hash(0xfeed));
        assert_eq!(waiting.retries, 0);
        assert_eq!(s.used(), 0);
    }
    assert_eq!(h.ran, vec![]);
    assert_eq!(h.released, vec![]);
    h.preimages.push((0xfeed, Ok(44)));
    let log = serve(&mut s, &mut h, 7, 1000);
    assert_eq!(log, vec![Outcome::Executed { index: 0, ok: true, renewed: None }]);
    assert_eq!(h.ran, vec![(7, 1, 44)]);
    assert_eq!(h.released, vec![0xfeed]);
}

#[test]
fn a_preimage_that_does_not_decode_is_retried_and_then_dropped() {
    let mut s = Sched::new(0, 2);
    s.schedule_named(vec![1], once(1), 100, 1, MaybeHashed::Hash(0xbad)).unwrap();
    let mut h = host(1);
    h.preimages.push((0xbad, Err(LookupError::BadFormat)));
    let log = serve(&mut s, &mut h, 1, 1000);
    assert_eq!(
        log,
        vec![Outcome::Deferred {
            index: 0,
            to: Address { block: 2, index: 0 },
            cause: Deferral::Unresolved(LookupError::BadFormat),
        }]
    );
    assert_eq!(s.task(Address { block: 2, index: 0 }).unwrap().retries, 1);
    let log = serve(&mut s, &mut h, 2, 1000);
    assert_eq!(
        log,
        vec![Outcome::Deferred {
            index: 0,
            to: Address { block: 3, index: 0 },
            cause: Deferral::Unresolved(LookupError::BadFormat),
        }]
    );
    assert_eq!(s.task(Address { block: 3, index: 0 }).unwrap().retries, 2);
    assert_eq!(s.address_of(&vec![1]), Some(Address { block: 3, index: 0 }));
    let log = serve(&mut s, &mut h, 3, 1000);
    assert_eq!(
        log,
        vec![Outcome::Dropped {
            index: 0,
            error: SchedulerError::PreimageBadFormat,
            released: Some(0xbad),
        }]
    );
    assert_eq!(h.released, vec![0xbad]);
    assert_eq!(h.ran, vec![]);
    assert_eq!(s.address_of(&vec![1]), None);
    assert_eq!(s.slots(4), 0);
}

#[test]
fn without_retries_a_preimage_that_does_not_decode_is_dropped_at_once() {
    let mut s = Sched::new(0, 0);
    s.schedule(once(1), 100, 1, MaybeHashed::Hash(0xbad)).unwrap();
    assert!(s.begin_cycle(1, 10));
    assert_eq!(s.next_action(), Action::Lookup);
    assert_eq!(
        s.on_preimage(Err(LookupError::BadFormat)),
        Outcome::Dropped {
            index: 0,
            error: SchedulerError::PreimageBadFormat,
            released: Some(0xbad),
        }
    );
    assert_eq!(s.next_action(), Action::Idle);
}

#[test]
fn a_replaced_preimage_lets_a_retried_task_run() {
    let mut s = Sched::new(0, 3);
    s.schedule(once(1), 100, 1, MaybeHashed::Hash(0xbad)).unwrap();
    let mut h = host(1);
    h.preimages.push((0xbad, Err(LookupError::BadFormat)));
    serve(&mut s, &mut h, 1, 1000);
    h.preimages = vec![(0xbad, Ok(6))];
    let log = serve(&mut s, &mut h, 2, 1000);
    assert_eq!(log, vec![Outcome::Executed { index: 0, ok: true, renewed: None }]);
    assert_eq!(h.ran, vec![(2, 1, 6)]);
}

#[test]
fn unresolved_tasks_do_not_count_against_the_limit() {
    let mut s = Sched::new(0, 0);
    s.schedule(once(1), 70, 1, MaybeHashed::Hash(1)).unwrap();
    s.schedule(once(1), 80, 2, MaybeHashed::Value(2)).unwrap();
    let mut h = host(10);
    let log = serve(&mut s, &mut h, 1, 10);
    assert_eq!(
        log,
        vec![
            Outcome::Deferred {
                index: 0,
                to: Address { block: 2, index: 0 },
                cause: Deferral::Unresolved(LookupError::Unknown),
            },
            Outcome::Executed { index: 1, ok: true, renewed: None },
        ]
    );
    assert_eq!(s.used(), 10);
}

#[test]
fn the_steps_of_one_task_from_hash_to_run() {
    let mut s = Sched::new(0, 0);
    s.schedule(once(1), 70, 9, MaybeHashed::Hash(5)).unwrap();
    assert!(s.begin_cycle(1, 10));
    assert_eq!(s.next_action(), Action::Lookup);
    assert_eq!(s.head().unwrap().call, MaybeHashed::Hash(5));
    assert_eq!(s.on_preimage(Ok(50)), Outcome::Resolved { hash: 5 });
    assert_eq!(s.next_action(), Action::Weigh);
    assert_eq!(s.head().unwrap().call, MaybeHashed::Value(50));
    assert_eq!(s.head().unwrap().origin, 9);
    assert_eq!(s.on_weight(10), Outcome::Admitted);
    assert_eq!(s.next_action(), Action::Dispatch);
    assert_eq!(s.on_dispatched(true, 4), Outcome::Executed { index: 0, ok: true, renewed: None });
    assert_eq!(s.used(), 4);
    assert_eq!(s.next_action(), Action::Idle);
}

#[test]
fn answers_that_are_not_awaited_are_ignored() {
    let mut s = Sched::new(0, 0);
    assert_eq!(s.on_preimage(Ok(1)), Outcome::Ignored);
    assert_eq!(s.on_weight(1), Outcome::Ignored);
    assert_eq!(s.on_dispatched(true, 1), Outcome::Ignored);
    s.schedule(once(1), 70, 9, MaybeHashed::Hash(5)).unwrap();
    assert!(s.begin_cycle(1, 10));
    assert_eq!(s.on_weight(1), Outcome::Ignored);
    assert_eq!(s.on_dispatched(true, 1), Outcome::Ignored);
    assert_eq!(s.next_action(), Action::Lookup);
    assert_eq!(s.on_preimage(Ok(50)), Outcome::Resolved { hash: 5 });
    assert_eq!(s.on_preimage(Ok(51)), Outcome::Ignored);
    assert_eq!(s.on_dispatched(true, 1), Outcome::Ignored);
    assert_eq!(s.head().unwrap().call, MaybeHashed::Value(50));
    assert_eq!(s.on_weight(1), Outcome::Admitted);
    assert_eq!(s.on_weight(1), Outcome::Ignored);
    assert_eq!(s.on_preimage(Ok(52)), Outcome::Ignored);
    assert_eq!(s.used(), 0);
    assert_eq!(s.pending(), 1);
}

#[test]
fn a_task_cannot_be_carried_beyond_the_last_block() {
    let mut s = Sched::new(u64::MAX - 1, 0);
    s.schedule(once(u64::MAX), 70, 9, MaybeHashed::Hash(5)).unwrap();
    s.schedule(once(u64::MAX), 80, 9, MaybeHashed::Value(6)).unwrap();
    assert!(s.begin_cycle(u64::MAX, 0));
    assert_eq!(
        s.on_preimage(Err(LookupError::Unknown)),
        Outcome::Dropped { index: 0, error: SchedulerError::AgendaFull, released: Some(5) }
    );
    assert_eq!(
        s.on_weight(1),
        Outcome::Dropped { index: 1, error: SchedulerError::AgendaFull, released: None }
    );
    assert_eq!(s.next_action(), Action::Idle);
}

#[test]
fn a_deferred_named_task_is_found_by_its_name() {
    let mut s = Sched::new(0, 0);
    s.schedule_named(vec![3], once(1), 100, 1, MaybeHashed::Hash(0xfeed)).unwrap();
    let mut h = host(1);
    serve(&mut s, &mut h, 1, 1000);
    assert_eq!(s.address_of(&vec![3]), Some(Address { block: 2, index: 0 }));
    assert_eq!(Named::next_dispatch_time(&s, vec![3]), Ok(2));
    let t = s.cancel_named(vec![3]).unwrap();
    assert_eq!(t.call, MaybeHashed::Hash(0xfeed));
    let log = serve(&mut s, &mut h, 2, 1000);
    assert_eq!(log, vec![]);
}

#[test]
fn tasks_scheduled_while_a_block_is_served_wait_for_their_block() {
    let mut s = Sched::new(0, 0);
    s.schedule(once(1), 70, 9, MaybeHashed::Value(2)).unwrap();
    assert!(s.begin_cycle(1, 10));
    assert_eq!(
        s.schedule(once(1), 70, 9, MaybeHashed::Value(4)),
        Err(SchedulerError::TargetInPast)
    );
    let a = s.schedule(once(2), 70, 9, MaybeHashed::Value(4)).unwrap();
    assert_eq!(s.pending(), 1);
    assert_eq!(s.on_weight(1), Outcome::Admitted);
    assert_eq!(s.on_dispatched(true, 1), Outcome::Executed { index: 0, ok: true, renewed: None });
    assert_eq!(Anon::next_dispatch_time(&s, a), Ok(2));
}

#[test]
fn a_renewed_task_holds_the_resolved_call_and_starts_afresh() {
    let mut s = Sched::new(0, 5);
    let schedule = Schedule { target_block: 1, maybe_periodic: Some((10, Some(1))) };
    s.schedule(schedule, 100, 1, MaybeHashed::Hash(0xabc)).unwrap();
    let mut h = host(1);
    h.preimages.push((0xabc, Err(LookupError::BadFormat)));
    serve(&mut s, &mut h, 1, 1000);
    assert_eq!(s.task(Address { block: 2, index: 0 }).unwrap().retries, 1);
    h.preimages = vec![(0xabc, Ok(12))];
    let log = serve(&mut s, &mut h, 2, 1000);
    assert_eq!(
        log,
        vec![Outcome::Executed {
            index: 0,
            ok: true,
            renewed: Some(Address { block: 12, index: 0 }),
        }]
    );
    let next = s.task(Address { block: 12, index: 0 }).unwrap();
    assert_eq!(next.call, MaybeHashed::Value(12));
    assert_eq!(next.retries, 0);
    assert_eq!(next.schedule, Schedule { target_block: 12, maybe_periodic: Some((10, Some(0))) });
    assert_eq!(next.priority, 100);
    assert_eq!(next.origin, 1);
    assert_eq!(h.released, vec![0xabc]);
}

#[test]
fn carried_tasks_keep_their_order_in_the_next_block() {
    let mut s = Sched::new(0, 0);
    s.schedule(once(1), 90, 1, MaybeHashed::Value(10)).unwrap();
    s.schedule(once(1), 80, 2, MaybeHashed::Hash(7)).unwrap();
    s.schedule(once(1), 90, 3, MaybeHashed::Value(30)).unwrap();
    s.schedule(once(2), 90, 4, MaybeHashed::Value(40)).unwrap();
    let mut h = host(10);
    let log = serve(&mut s, &mut h, 1, 5);
    assert_eq!(
        log,
        vec![
            Outcome::Deferred {
                index: 1,
                to: Address { block: 2, index: 1 },
                cause: Deferral::Unresolved(LookupError::Unknown),
            },
            Outcome::Deferred {
                index: 0,
                to: Address { block: 2, index: 2 },
                cause: Deferral::Overweight,
            },
            Outcome::Deferred {
                index: 2,
                to: Address { block: 2, index: 3 },
                cause: Deferral::Overweight,
            },
        ]
    );
    h.preimages.push((7, Ok(20)));
    let log = serve(&mut s, &mut h, 2, 1000);
    assert_eq!(
        log,
        vec![
            Outcome::Executed { index: 1, ok: true, renewed: None },
            Outcome::Executed { index: 0, ok: true, renewed: None },
            Outcome::Executed { index: 2, ok: true, renewed: None },
            Outcome::Executed { index: 3, ok: true, renewed: None },
        ]
    );
    assert_eq!(h.ran, vec![(2, 2, 20), (2, 4, 40), (2, 1, 10), (2, 3, 30)]);
}

#[test]
fn a_busy_scheduler_over_many_blocks() {
    let mut s = Sched::new(0, 1);
    let mut h = host(30);
    s.schedule_named(vec![1], Schedule { target_block: 1, maybe_periodic: Some((2, Some(2))) }, 10, 1, MaybeHashed::Value(2)).unwrap();
    s.schedule_named(vec![2], once(1), 200, 2, MaybeHashed::Value(4)).unwrap();
    s.schedule(once(1), 100, 3, MaybeHashed::Hash(9)).unwrap();
    let doomed = s.schedule(once(2), 0, 4, MaybeHashed::Value(6)).unwrap();
    s.schedule(once(3), 150, 5, MaybeHashed::Value(8)).unwrap();
    s.cancel(doomed).unwrap();
    // Block 1: the periodic task runs under its hard deadline, the hash is
    // unknown, and the last task does not fit any more.
    let log = serve(&mut s, &mut h, 1, 40);
    assert_eq!(
        log,
        vec![
            Outcome::Executed {
                index: 0,
                ok: true,
                renewed: Some(Address { block: 3, index: 1 }),
            },
            Outcome::Deferred {
                index: 2,
                to: Address { block: 2, index: 1 },
                cause: Deferral::Unresolved(LookupError::Unknown),
            },
            Outcome::Deferred {
                index: 1,
                to: Address { block: 2, index: 2 },
                cause: Deferral::Overweight,
            },
        ]
    );
    assert_eq!(s.address_of(&vec![1]), Some(Address { block: 3, index: 1 }));
    assert_eq!(s.address_of(&vec![2]), Some(Address { block: 2, index: 2 }));
    // Block 2: the hash is known now.
    h.preimages.push((9, Ok(10)));
    let log = serve(&mut s, &mut h, 2, 60);
    assert_eq!(
        log,
        vec![
            Outcome::Executed { index: 1, ok: true, renewed: None },
            Outcome::Executed { index: 2, ok: true, renewed: None },
        ]
    );
    assert_eq!(s.used(), 60);
    assert_eq!(s.address_of(&vec![2]), None);
    // Block 3: the periodic task first, by priority; then the other.
    let log = serve(&mut s, &mut h, 3, 100);
    assert_eq!(
        log,
        vec![
            Outcome::Executed {
                index: 1,
                ok: true,
                renewed: Some(Address { block: 5, index: 0 }),
            },
            Outcome::Executed { index: 0, ok: true, renewed: None },
        ]
    );
    let log = serve(&mut s, &mut h, 5, 100);
    assert_eq!(log, vec![Outcome::Executed { index: 0, ok: true, renewed: None }]);
    assert_eq!(s.address_of(&vec![1]), None);
    assert_eq!(
        h.ran,
        vec![(1, 1, 2), (2, 3, 10), (2, 2, 4), (3, 1, 2), (3, 5, 8), (5, 1, 2)]
    );
    assert_eq!(h.released, vec![9]);
    for block in 6..=12 {
        assert_eq!(serve(&mut s, &mut h, block, 100), vec![]);
    }
}
