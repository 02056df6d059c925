//! What holds of the scheduler whatever is asked of it, proved from the
//! functions that the contracts of its operations are stated over.

use crate::cycle::{covers, drawn_from, lemma_order_of_service_is_unique, lemma_service_order};
use crate::cycle::{ordered, renewed, service_order};
use crate::cycle::{Action, Deferral, Outcome};
use crate::maybe_hashed::{LookupError, MaybeHashed};
use crate::model::{Item, State};
use crate::types::{Address, BlockNumber, Priority, Schedule, SchedulerError, TaskView, Weight};
use crate::types::{HARD_DEADLINE, MAX_SLOTS};
use vstd::prelude::*;

verus! {

/// One request to a scheduler: an operation with its arguments.
pub enum Request<C, H, O> {
    Schedule {
        name: Option<Seq<u8>>,
        schedule: Schedule,
        priority: Priority,
        origin: O,
        call: MaybeHashed<C, H>,
    },
    Cancel { address: Address },
    Reschedule { address: Address, schedule: Schedule },
    CancelNamed { id: Seq<u8> },
    RescheduleNamed { id: Seq<u8>, schedule: Schedule },
    BeginCycle { block: BlockNumber, limit: Weight },
    Preimage { lookup: Result<C, LookupError> },
    Weight { weight: Weight },
    Dispatched { ok: bool, consumed: Weight },
}

/// The state after `request` was served in the state `s`.
pub open spec fn after<C, H, O>(s: State<C, H, O>, request: Request<C, H, O>) -> State<C, H, O> {
    match request {
        Request::Schedule { name, schedule, priority, origin, call } => s.schedule(
            name,
            schedule,
            priority,
            origin,
            call,
        ).0,
        Request::Cancel { address } => s.cancel(address).0,
        Request::Reschedule { address, schedule } => s.reschedule(address, schedule).0,
        Request::CancelNamed { id } => s.cancel_named(id).0,
        Request::RescheduleNamed { id, schedule } => s.reschedule_named(id, schedule).0,
        Request::BeginCycle { block, limit } => s.begin_cycle(block, limit).0,
        Request::Preimage { lookup } => s.on_preimage(lookup).0,
        Request::Weight { weight } => s.on_weight(weight).0,
        Request::Dispatched { ok, consumed } => s.on_dispatched(ok, consumed).0,
    }
}

/// Whether `a` is spent: it holds no task, no task that is being served came
/// from it, and no task will ever be placed there, because its block has
/// been reached or its slot has been used.
pub open spec fn spent<C, H, O>(s: State<C, H, O>, a: Address) -> bool {
    &&& !s.live(a)
    &&& !s.in_service(a)
    &&& a.block <= s.now || a.index < s.agenda[a.block].len()
}

/// The invariant holds of a new scheduler, and every request keeps it.
pub proof fn law_invariant<C, H, O>(
    s: State<C, H, O>,
    request: Request<C, H, O>,
    now: BlockNumber,
    retry_limit: u32,
)
    requires
        s.inv(),
    ensures
        State::<C, H, O>::initial(now, retry_limit).inv(),
        after(s, request).inv(),
{
    match request {
        Request::Schedule { name, schedule, priority, origin, call } => {
            if s.schedule(name, schedule, priority, origin, call).1 is Ok {
                s.lemma_place(
                    schedule.target_block,
                    TaskView { schedule, priority, origin, call, name, retries: 0 },
                );
            }
        },
        Request::Cancel { address } => {
            if s.live(address) {
                s.lemma_vacate(address);
            }
        },
        Request::Reschedule { address, schedule } => {
            lemma_reschedule(s, address, schedule);
        },
        Request::CancelNamed { id } => {
            if s.names.contains_key(id) && s.live(s.names[id]) {
                s.lemma_vacate(s.names[id]);
            }
        },
        Request::RescheduleNamed { id, schedule } => {
            if s.names.contains_key(id) {
                lemma_reschedule(s, s.names[id], schedule);
            }
        },
        Request::BeginCycle { block, limit } => {
            s.lemma_begin_cycle(block, limit);
        },
        Request::Preimage { lookup } => {
            s.lemma_on_preimage(lookup);
        },
        Request::Weight { weight } => {
            s.lemma_on_weight(weight);
        },
        Request::Dispatched { ok, consumed } => {
            s.lemma_on_dispatched(ok, consumed);
        },
    }
}

/// Rescheduling keeps the invariant.
proof fn lemma_reschedule<C, H, O>(s: State<C, H, O>, a: Address, schedule: Schedule)
    requires
        s.inv(),
    ensures
        s.reschedule(a, schedule).0.inv(),
{
    if s.reschedule(a, schedule).1 is Ok {
        s.lemma_vacate(a);
        s.vacate(a).lemma_place(schedule.target_block, TaskView { schedule, ..s.task_at(a) });
    }
}

/// An operation that fails changes nothing.
pub proof fn law_failure_changes_nothing<C, H, O>(
    s: State<C, H, O>,
    name: Option<Seq<u8>>,
    schedule: Schedule,
    priority: Priority,
    origin: O,
    call: MaybeHashed<C, H>,
    a: Address,
    id: Seq<u8>,
)
    ensures
        s.schedule(name, schedule, priority, origin, call).1 is Err ==> s.schedule(
            name,
            schedule,
            priority,
            origin,
            call,
        ).0 == s,
        s.cancel(a).1 is Err ==> s.cancel(a).0 == s,
        s.reschedule(a, schedule).1 is Err ==> s.reschedule(a, schedule).0 == s,
        s.cancel_named(id).1 is Err ==> s.cancel_named(id).0 == s,
        s.reschedule_named(id, schedule).1 is Err ==> s.reschedule_named(id, schedule).0 == s,
{
}

/// No two tasks in the agenda bear the same name.
pub proof fn law_names_are_unique<C, H, O>(s: State<C, H, O>, a: Address, b: Address)
    requires
        s.inv(),
        s.live(a),
        s.live(b),
        s.task_at(a).name is Some,
        s.task_at(a).name == s.task_at(b).name,
    ensures
        a == b,
{
    assert(s.slot_ok(a));
    assert(s.slot_ok(b));
}

/// Every task in the agenda waits in a block after the current one.
pub proof fn law_tasks_wait_in_the_future<C, H, O>(s: State<C, H, O>, a: Address)
    requires
        s.inv(),
        s.live(a),
    ensures
        a.block > s.now,
{
    assert(s.agenda[a.block].len() > 0);
}

/// The dispatch time of a task is the target block of its schedule.
pub proof fn law_dispatch_time_is_target<C, H, O>(s: State<C, H, O>, a: Address)
    requires
        s.inv(),
        s.live(a),
    ensures
        s.next_dispatch_time(a) == Ok::<BlockNumber, SchedulerError>(
            s.task_at(a).schedule.target_block,
        ),
{
    assert(s.slot_ok(a));
}

/// A call that is scheduled for a block in the future, whose agenda has a
/// free slot, under no name or under one that is free, gets an address, and
/// the task at that address waits in the target block. If the call was
/// scheduled under a name, the name gives the same block.
pub proof fn law_scheduled_task_waits_at_target<C, H, O>(
    s: State<C, H, O>,
    name: Option<Seq<u8>>,
    schedule: Schedule,
    priority: Priority,
    origin: O,
    call: MaybeHashed<C, H>,
)
    requires
        schedule.target_block > s.now,
        s.has_room(schedule.target_block),
        name matches Some(id) ==> !s.names.contains_key(id),
    ensures
        ({
            let (t, r) = s.schedule(name, schedule, priority, origin, call);
            &&& r is Ok
            &&& t.next_dispatch_time(r->Ok_0) == Ok::<BlockNumber, SchedulerError>(
                schedule.target_block,
            )
            &&& t.task_at(r->Ok_0) == (TaskView {
                schedule,
                priority,
                origin,
                call,
                name,
                retries: 0,
            })
            &&& name matches Some(id) ==> t.next_dispatch_time_named(id) == Ok::<
                BlockNumber,
                SchedulerError,
            >(schedule.target_block)
        }),
{
}

/// Once an address was cancelled, cancelling it, rescheduling it and asking
/// for its dispatch time all fail with `InvalidAddress`, and the address is
/// spent.
pub proof fn law_cancelled_address_is_invalid<C, H, O>(
    s: State<C, H, O>,
    a: Address,
    schedule: Schedule,
)
    requires
        s.inv(),
        s.cancel(a).1 is Ok,
    ensures
        ({
            let t = s.cancel(a).0;
            &&& spent(t, a)
            &&& t.cancel(a) == (t, Err::<TaskView<C, H, O>, SchedulerError>(
                SchedulerError::InvalidAddress,
            ))
            &&& t.reschedule(a, schedule) == (t, Err::<Address, SchedulerError>(
                SchedulerError::InvalidAddress,
            ))
            &&& t.next_dispatch_time(a) == Err::<BlockNumber, SchedulerError>(
                SchedulerError::InvalidAddress,
            )
        }),
{
}

/// Every operation on a spent address fails with `InvalidAddress` and
/// changes nothing.
pub proof fn law_spent_address_is_invalid<C, H, O>(
    s: State<C, H, O>,
    a: Address,
    schedule: Schedule,
)
    requires
        spent(s, a),
    ensures
        s.cancel(a) == (s, Err::<TaskView<C, H, O>, SchedulerError>(SchedulerError::InvalidAddress)),
        s.reschedule(a, schedule) == (
            s,
            Err::<Address, SchedulerError>(SchedulerError::InvalidAddress),
        ),
        s.next_dispatch_time(a) == Err::<BlockNumber, SchedulerError>(
            SchedulerError::InvalidAddress,
        ),
{
}

/// A spent address stays spent whatever is asked of the scheduler: no task
/// is placed there again, and no dispatch cycle serves a task from it.
pub proof fn law_spent_address_stays_spent<C, H, O>(
    s: State<C, H, O>,
    a: Address,
    request: Request<C, H, O>,
)
    requires
        s.inv(),
        spent(s, a),
    ensures
        spent(after(s, request), a),
{
    law_invariant(s, request, 0, 0);
    let t = after(s, request);
    match request {
        Request::Schedule { name, schedule, priority, origin, call } => {},
        Request::Cancel { address } => {},
        Request::Reschedule { address, schedule } => {},
        Request::CancelNamed { id } => {},
        Request::RescheduleNamed { id, schedule } => {},
        Request::BeginCycle { block, limit } => {
            if s.begin_cycle(block, limit).1 {
                lemma_service_order(s.agenda[block]);
            }
        },
        Request::Preimage { lookup } => {
            lemma_queue_shrinks(s, t, a);
        },
        Request::Weight { weight } => {
            lemma_queue_shrinks(s, t, a);
        },
        Request::Dispatched { ok, consumed } => {
            lemma_queue_shrinks(s, t, a);
        },
    }
}

/// A queue that lost its head or kept its slots serves no slot that it did
/// not serve before.
proof fn lemma_queue_shrinks<C, H, O>(s: State<C, H, O>, t: State<C, H, O>, a: Address)
    requires
        !s.in_service(a),
        t.now == s.now,
        t.queue.len() == s.queue.len() && (forall|i: int|
            0 <= i < s.queue.len() ==> (#[trigger] t.queue[i]).index == s.queue[i].index)
            || s.queue.len() > 0 && t.queue == s.queue.drop_first(),
    ensures
        !t.in_service(a),
{
    if t.in_service(a) {
        let i = choose|i: int| 0 <= i < t.queue.len() && (#[trigger] t.queue[i]).index == a.index;
        if t.queue.len() == s.queue.len() && (forall|i: int|
            0 <= i < s.queue.len() ==> (#[trigger] t.queue[i]).index == s.queue[i].index) {
            assert(s.queue[i].index == a.index);
        } else {
            assert(t.queue[i] == s.queue[i + 1]);
        }
    }
}

/// The order of service of an agenda is the one sequence that holds exactly
/// the tasks of the agenda, each with its slot, sorted by priority, the
/// lowest value first, and by slot among equals.
pub proof fn law_order_of_service<C, H, O>(
    slots: Seq<Option<TaskView<C, H, O>>>,
    q: Seq<Item<C, H, O>>,
)
    requires
        slots.len() <= MAX_SLOTS,
    ensures
        ordered(service_order(slots)),
        drawn_from(service_order(slots), slots),
        covers(service_order(slots), slots),
        ordered(q) && drawn_from(q, slots) && covers(q, slots) ==> q == service_order(slots),
{
    lemma_service_order(slots);
    if ordered(q) && drawn_from(q, slots) && covers(q, slots) {
        lemma_order_of_service_is_unique(q, service_order(slots), slots);
    }
}

/// When a block is taken up, every task that waits in it enters the queue,
/// with its slot, and nothing else does.
pub proof fn law_tasks_of_block_are_served<C, H, O>(
    s: State<C, H, O>,
    block: BlockNumber,
    limit: Weight,
)
    requires
        s.inv(),
        s.begin_cycle(block, limit).1,
    ensures
        forall|a: Address|
            a.block == block && #[trigger] s.live(a) ==> exists|i: int|
                0 <= i < s.begin_cycle(block, limit).0.queue.len() && (
                #[trigger] s.begin_cycle(block, limit).0.queue[i]) == (Item {
                    index: a.index,
                    task: s.task_at(a),
                }),
        drawn_from(s.begin_cycle(block, limit).0.queue, s.agenda[block]),
{
    let slots = s.agenda[block];
    let q = s.begin_cycle(block, limit).0.queue;
    lemma_service_order(slots);
    assert forall|a: Address| a.block == block && #[trigger] s.live(a) implies exists|i: int|
        0 <= i < q.len() && (#[trigger] q[i]) == (Item { index: a.index, task: s.task_at(a) }) by {
        assert(slots[a.index as int] is Some);
        let i = choose|i: int| 0 <= i < q.len() && (#[trigger] q[i]).index == a.index;
        assert(slots[q[i].index as int] == Some(q[i].task));
    }
}

/// Of two tasks in the queue, the one with the lower priority value is
/// served first.
pub proof fn law_lower_priority_value_first<C, H, O>(s: State<C, H, O>, i: int, j: int)
    requires
        s.inv(),
        0 <= i < s.queue.len(),
        0 <= j < s.queue.len(),
        s.queue[i].task.priority < s.queue[j].task.priority,
    ensures
        i < j,
{
    if j < i {
        assert(crate::model::served_before(s.queue[j], s.queue[i]));
    }
}

/// A task above the hard deadline whose call does not fit in what the block
/// has left is carried to the next block, if that block has a free slot: it
/// waits there as it was, but for its target block.
pub proof fn law_overweight_task_is_deferred<C, H, O>(s: State<C, H, O>, weight: Weight)
    requires
        s.inv(),
        s.next_action() == Action::Weigh,
        s.queue[0].task.priority > HARD_DEADLINE,
        s.used + weight > s.limit,
        s.can_carry(),
    ensures
        ({
            let (t, r) = s.on_weight(weight);
            let to = s.next_address((s.now + 1) as u64);
            &&& r == Outcome::<H>::Deferred {
                index: s.queue[0].index,
                to,
                cause: Deferral::Overweight,
            }
            &&& to.block == s.now + 1
            &&& t.live(to)
            &&& t.task_at(to) == s.carried(s.queue[0].task)
            &&& t.task_at(to).priority == s.queue[0].task.priority
            &&& t.used == s.used
        }),
{
    s.lemma_pop();
    s.pop().lemma_place((s.now + 1) as u64, s.carried(s.queue[0].task));
}

/// A task whose call fits in what the block has left is admitted, and when
/// its call was dispatched it has run.
pub proof fn law_fitting_task_runs<C, H, O>(
    s: State<C, H, O>,
    weight: Weight,
    ok: bool,
    consumed: Weight,
)
    requires
        s.inv(),
        s.next_action() == Action::Weigh,
        s.used + weight <= s.limit,
    ensures
        s.on_weight(weight).1 == Outcome::<H>::Admitted,
        s.on_weight(weight).0.next_action() == Action::Dispatch,
        s.on_weight(weight).0.on_dispatched(ok, consumed).1 matches Outcome::Executed {
            index,
            ok: o,
            ..
        } && index == s.queue[0].index && o == ok,
{
}

/// A task at the hard deadline or below is admitted whatever its call
/// weighs and whatever the block has consumed, and when its call was
/// dispatched it has run, in the block it waited in.
pub proof fn law_hard_deadline_task_runs<C, H, O>(
    s: State<C, H, O>,
    weight: Weight,
    ok: bool,
    consumed: Weight,
)
    requires
        s.inv(),
        s.next_action() == Action::Weigh,
        s.queue[0].task.priority <= HARD_DEADLINE,
    ensures
        s.on_weight(weight).1 == Outcome::<H>::Admitted,
        s.on_weight(weight).0 == (State { admitted: true, ..s }),
        s.on_weight(weight).0.next_action() == Action::Dispatch,
        s.on_weight(weight).0.on_dispatched(ok, consumed).1 matches Outcome::Executed {
            index,
            ok: o,
            ..
        } && index == s.queue[0].index && o == ok,
        s.queue[0].task.schedule.target_block == s.now,
{
    assert(s.item_ok(s.queue[0]));
}

/// A task whose hash has no preimage is carried to the next block, if that
/// block has a free slot, however often it was carried before: it waits
/// there with its hash, and nothing else of it has changed but its target
/// block. It has not run and is not dropped.
pub proof fn law_unknown_preimage_defers<C, H, O>(s: State<C, H, O>)
    requires
        s.inv(),
        s.next_action() == Action::Lookup,
        s.can_carry(),
    ensures
        ({
            let (t, r) = s.on_preimage(Err(LookupError::Unknown));
            let to = s.next_address((s.now + 1) as u64);
            &&& r == Outcome::<H>::Deferred {
                index: s.queue[0].index,
                to,
                cause: Deferral::Unresolved(LookupError::Unknown),
            }
            &&& to.block == s.now + 1
            &&& t.live(to)
            &&& t.task_at(to) == s.carried(s.queue[0].task)
            &&& t.task_at(to).call == s.queue[0].task.call
            &&& t.used == s.used
        }),
{
    s.lemma_pop();
    s.pop().lemma_place((s.now + 1) as u64, s.carried(s.queue[0].task));
}

/// A task whose hash has a preimage that decodes gets the decoded call, and
/// waits to be weighed; the hash is handed back.
pub proof fn law_found_preimage_resolves<C, H, O>(s: State<C, H, O>, c: C)
    requires
        s.inv(),
        s.next_action() == Action::Lookup,
    ensures
        ({
            let (t, r) = s.on_preimage(Ok(c));
            &&& s.queue[0].task.call matches MaybeHashed::Hash(h) && r == (Outcome::Resolved {
                hash: h,
            })
            &&& t.queue[0].task.call == MaybeHashed::<C, H>::Value(c)
            &&& t.next_action() == Action::Weigh
        }),
{
}

/// A periodic task that ran is placed one period ahead with one run less to
/// follow, if it had runs to follow and that block has a free slot; a task
/// that had none is not placed again.
pub proof fn law_periodic_task_is_renewed<C, H, O>(s: State<C, H, O>, ok: bool, consumed: Weight)
    requires
        s.inv(),
        s.next_action() == Action::Dispatch,
    ensures
        ({
            let (t, r) = s.on_dispatched(ok, consumed);
            let task = s.queue[0].task;
            match task.schedule.maybe_periodic {
                Some((period, remaining)) => {
                    if remaining != Some(0u32) && period > 0 && s.now + period <= u64::MAX
                        && s.has_room((s.now + period) as u64) {
                        let to = s.next_address((s.now + period) as u64);
                        &&& r == Outcome::<H>::Executed {
                            index: s.queue[0].index,
                            ok,
                            renewed: Some(to),
                        }
                        &&& t.live(to)
                        &&& t.task_at(to) == renewed(task).unwrap()
                        &&& t.task_at(to).schedule.target_block == s.now + period
                        &&& t.task_at(to).schedule.maybe_periodic == Some(
                            (
                                period,
                                match remaining {
                                    Some(n) => Some((n - 1) as u32),
                                    None => None,
                                },
                            ),
                        )
                    } else {
                        r == Outcome::<H>::Executed {
                            index: s.queue[0].index,
                            ok,
                            renewed: None,
                        }
                    }
                },
                None => r == Outcome::<H>::Executed {
                    index: s.queue[0].index,
                    ok,
                    renewed: None,
                },
            }
        }),
{
    assert(s.item_ok(s.queue[0]));
    s.lemma_pop();
}

/// Scheduling under a name that is in use fails with `DuplicateName` and
/// changes nothing: the task that bears the name keeps its address and its
/// schedule.
pub proof fn law_duplicate_name_changes_nothing<C, H, O>(
    s: State<C, H, O>,
    id: Seq<u8>,
    schedule: Schedule,
    priority: Priority,
    origin: O,
    call: MaybeHashed<C, H>,
)
    requires
        s.names.contains_key(id),
    ensures
        s.schedule(Some(id), schedule, priority, origin, call) == (
            s,
            Err::<Address, SchedulerError>(SchedulerError::DuplicateName),
        ),
{
}

/// After a task was rescheduled by its name, the name leads to its new
/// address, and its dispatch time by name is the new target block.
pub proof fn law_rescheduled_name_follows<C, H, O>(
    s: State<C, H, O>,
    id: Seq<u8>,
    schedule: Schedule,
)
    requires
        s.inv(),
        s.reschedule_named(id, schedule).1 is Ok,
    ensures
        ({
            let (t, r) = s.reschedule_named(id, schedule);
            &&& t.names.contains_key(id)
            &&& t.names[id] == r->Ok_0
            &&& t.next_dispatch_time_named(id) == Ok::<BlockNumber, SchedulerError>(
                schedule.target_block,
            )
            &&& t.task_at(r->Ok_0) == (TaskView { schedule, ..s.task_at(s.names[id]) })
        }),
{
    let a = s.names[id];
    assert(s.bears(a, id));
    assert(s.task_at(a).name == Some(id));
    s.lemma_vacate(a);
    s.vacate(a).lemma_place(schedule.target_block, TaskView { schedule, ..s.task_at(a) });
}

} // verus!
