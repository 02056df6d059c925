//! The scheduler as a mathematical state, and each operation as a function
//! on that state. The contracts of the executable scheduler are stated over
//! these functions.

use crate::maybe_hashed::MaybeHashed;
use crate::types::{Address, BlockNumber, Priority, Schedule, SchedulerError, TaskView, Weight};
use crate::types::MAX_SLOTS;
use vstd::prelude::*;

verus! {

/// A task that was taken from the agenda of the current block and waits to
/// be served, with the slot it was taken from.
pub struct Item<C, H, O> {
    pub index: u32,
    pub task: TaskView<C, H, O>,
}

/// The state of a scheduler.
pub struct State<C, H, O> {
    /// The current block: the latest block whose agenda was taken up.
    pub now: BlockNumber,
    /// How often a task whose preimage does not decode is carried to the
    /// next block before it is dropped.
    pub retry_limit: u32,
    /// The agenda of every block; a block without tasks has the empty one.
    pub agenda: Map<BlockNumber, Seq<Option<TaskView<C, H, O>>>>,
    /// The names in use, each with the address of the task that bears it.
    pub names: Map<Seq<u8>, Address>,
    /// The tasks of the current block that are still to be served, in the
    /// order of service.
    pub queue: Seq<Item<C, H, O>>,
    /// Whether the head of the queue was admitted and is being executed.
    pub admitted: bool,
    /// The weight consumed so far in the current block.
    pub used: Weight,
    /// The weight limit of the current block.
    pub limit: Weight,
}

/// Whether `x` is served before `y`: by priority, then by slot.
pub open spec fn served_before<C, H, O>(x: Item<C, H, O>, y: Item<C, H, O>) -> bool {
    x.task.priority < y.task.priority || (x.task.priority == y.task.priority && x.index < y.index)
}

impl<C, H, O> State<C, H, O> {
    /// The state of a scheduler that starts at block `now` with nothing
    /// scheduled.
    pub open spec fn initial(now: BlockNumber, retry_limit: u32) -> Self {
        State {
            now,
            retry_limit,
            agenda: Map::new(
                |k: BlockNumber| true,
                |k: BlockNumber| Seq::<Option<TaskView<C, H, O>>>::empty(),
            ),
            names: Map::empty(),
            queue: Seq::empty(),
            admitted: false,
            used: 0,
            limit: 0,
        }
    }

    /// Whether `a` holds a task.
    pub open spec fn live(self, a: Address) -> bool {
        a.index < self.agenda[a.block].len() && self.agenda[a.block][a.index as int] is Some
    }

    /// The task that `a` holds.
    pub open spec fn task_at(self, a: Address) -> TaskView<C, H, O> {
        self.agenda[a.block][a.index as int].unwrap()
    }

    /// Whether the task from `a` is being served: it was taken from there
    /// into the queue of the current block and waits in it.
    pub open spec fn in_service(self, a: Address) -> bool {
        a.block == self.now && exists|i: int|
            0 <= i < self.queue.len() && (#[trigger] self.queue[i]).index == a.index
    }

    /// Whether the task that bears `n` is the one at `a`: in the agenda, or
    /// taken from there into the queue of the current block.
    pub open spec fn bears(self, a: Address, n: Seq<u8>) -> bool {
        ||| self.live(a) && self.task_at(a).name == Some(n)
        ||| a.block == self.now && exists|i: int|
            0 <= i < self.queue.len() && (#[trigger] self.queue[i]).index == a.index
                && self.queue[i].task.name == Some(n)
    }

    /// Whether a queued item is consistent with the rest of the state.
    pub open spec fn item_ok(self, item: Item<C, H, O>) -> bool {
        &&& item.task.schedule.target_block == self.now
        &&& item.task.name matches Some(n) ==> self.names.contains_key(n) && self.names[n]
            == Address { block: self.now, index: item.index }
    }

    /// Whether the task at `a`, if there is one, is consistent with the rest
    /// of the state.
    pub open spec fn slot_ok(self, a: Address) -> bool {
        self.live(a) ==> {
            &&& self.task_at(a).schedule.target_block == a.block
            &&& self.task_at(a).name matches Some(n) ==> self.names.contains_key(n)
                && self.names[n] == a
        }
    }

    /// What holds of every state that the operations reach.
    ///
    /// Every agenda fits the address space, and no task waits in the current
    /// block or in one before it. Every task waits in the block that its
    /// schedule names.
    /// The name index holds exactly the names of the tasks in the agenda and
    /// in the queue, each with the address of its task. The queue is in the
    /// order of service, and no slot occurs in it twice.
    pub open spec fn inv(self) -> bool {
        &&& forall|k: BlockNumber| self.agenda.dom().contains(k)
        &&& forall|k: BlockNumber| (#[trigger] self.agenda[k]).len() <= MAX_SLOTS
        &&& forall|k: BlockNumber| k <= self.now ==> (#[trigger] self.agenda[k]).len() == 0
        &&& forall|a: Address| #[trigger] self.slot_ok(a)
        &&& forall|n: Seq<u8>| #[trigger]
            self.names.contains_key(n) ==> self.bears(self.names[n], n)
        &&& forall|i: int| 0 <= i < self.queue.len() ==> self.item_ok(#[trigger] self.queue[i])
        &&& forall|i: int, j: int|
            0 <= i < j < self.queue.len() ==> served_before(
                #[trigger] self.queue[i],
                #[trigger] self.queue[j],
            ) && self.queue[i].index != self.queue[j].index
        &&& self.admitted ==> self.queue.len() > 0 && self.queue[0].task.call is Value
    }

    /// Whether the agenda of `block` has a free slot.
    pub open spec fn has_room(self, block: BlockNumber) -> bool {
        self.agenda[block].len() < MAX_SLOTS
    }

    /// The address that the next task placed in `block` gets.
    pub open spec fn next_address(self, block: BlockNumber) -> Address {
        Address { block, index: self.agenda[block].len() as u32 }
    }

    /// The state after `task` was appended to the agenda of `block`.
    pub open spec fn place(self, block: BlockNumber, task: TaskView<C, H, O>) -> Self {
        State {
            agenda: self.agenda.insert(block, self.agenda[block].push(Some(task))),
            names: match task.name {
                Some(n) => self.names.insert(n, self.next_address(block)),
                None => self.names,
            },
            ..self
        }
    }

    /// The state after the task at `a` was taken from the agenda: its slot
    /// stays, empty, and its name is free again.
    pub open spec fn vacate(self, a: Address) -> Self {
        State {
            agenda: self.agenda.insert(a.block, self.agenda[a.block].update(a.index as int, None)),
            names: match self.task_at(a).name {
                Some(n) => self.names.remove(n),
                None => self.names,
            },
            ..self
        }
    }

    /// Scheduling a task, under `name` if one is given.
    pub open spec fn schedule(
        self,
        name: Option<Seq<u8>>,
        schedule: Schedule,
        priority: Priority,
        origin: O,
        call: MaybeHashed<C, H>,
    ) -> (Self, Result<Address, SchedulerError>) {
        if name is Some && self.names.contains_key(name.unwrap()) {
            (self, Err(SchedulerError::DuplicateName))
        } else if schedule.target_block <= self.now {
            (self, Err(SchedulerError::TargetInPast))
        } else if !self.has_room(schedule.target_block) {
            (self, Err(SchedulerError::AgendaFull))
        } else {
            (
                self.place(
                    schedule.target_block,
                    TaskView { schedule, priority, origin, call, name, retries: 0 },
                ),
                Ok(self.next_address(schedule.target_block)),
            )
        }
    }

    /// Cancelling the task at `a`.
    pub open spec fn cancel(self, a: Address) -> (Self, Result<TaskView<C, H, O>, SchedulerError>) {
        if !self.live(a) {
            (self, Err(SchedulerError::InvalidAddress))
        } else {
            (self.vacate(a), Ok(self.task_at(a)))
        }
    }

    /// Moving the task at `a` to the block that `schedule` names. It is too
    /// late for that once the block of the task has been reached and the
    /// task is being served.
    pub open spec fn reschedule(self, a: Address, schedule: Schedule) -> (
        Self,
        Result<Address, SchedulerError>,
    ) {
        if self.in_service(a) {
            (self, Err(SchedulerError::TooLateToReschedule))
        } else if !self.live(a) {
            (self, Err(SchedulerError::InvalidAddress))
        } else if schedule.target_block <= self.now {
            (self, Err(SchedulerError::TargetInPast))
        } else if !self.has_room(schedule.target_block) {
            (self, Err(SchedulerError::AgendaFull))
        } else {
            (
                self.vacate(a).place(
                    schedule.target_block,
                    TaskView { schedule, ..self.task_at(a) },
                ),
                Ok(self.next_address(schedule.target_block)),
            )
        }
    }

    /// The block in which the task at `a` waits.
    pub open spec fn next_dispatch_time(self, a: Address) -> Result<BlockNumber, SchedulerError> {
        if self.live(a) {
            Ok(a.block)
        } else {
            Err(SchedulerError::InvalidAddress)
        }
    }

    /// Cancelling the task that bears `id`.
    pub open spec fn cancel_named(self, id: Seq<u8>) -> (
        Self,
        Result<TaskView<C, H, O>, SchedulerError>,
    ) {
        if !self.names.contains_key(id) {
            (self, Err(SchedulerError::InvalidName))
        } else {
            self.cancel(self.names[id])
        }
    }

    /// Moving the task that bears `id` to the block that `schedule` names.
    pub open spec fn reschedule_named(self, id: Seq<u8>, schedule: Schedule) -> (
        Self,
        Result<Address, SchedulerError>,
    ) {
        if !self.names.contains_key(id) {
            (self, Err(SchedulerError::InvalidName))
        } else {
            self.reschedule(self.names[id], schedule)
        }
    }

    /// The block in which the task that bears `id` waits.
    pub open spec fn next_dispatch_time_named(self, id: Seq<u8>) -> Result<
        BlockNumber,
        SchedulerError,
    > {
        if !self.names.contains_key(id) {
            Err(SchedulerError::InvalidName)
        } else {
            self.next_dispatch_time(self.names[id])
        }
    }

    /// Placing a task in a later block keeps the invariant, if the task names
    /// that block and its name is free.
    pub proof fn lemma_place(self, block: BlockNumber, task: TaskView<C, H, O>)
        requires
            self.inv(),
            block > self.now,
            self.has_room(block),
            task.schedule.target_block == block,
            task.name matches Some(n) ==> !self.names.contains_key(n),
        ensures
            self.place(block, task).inv(),
            self.place(block, task).live(self.next_address(block)),
            self.place(block, task).task_at(self.next_address(block)) == task,
            forall|a: Address|
                a != self.next_address(block) ==> (self.place(block, task).live(a) == self.live(a))
                    && (self.live(a) ==> self.place(block, task).task_at(a) == self.task_at(a)),
    {
        let t = self.place(block, task);
        let new = self.next_address(block);
        assert forall|a: Address| #[trigger] t.slot_ok(a) by {
            assert(self.slot_ok(a));
        }
        assert forall|n: Seq<u8>| #[trigger] t.names.contains_key(n) implies t.bears(
            t.names[n],
            n,
        ) by {
            if task.name == Some(n) {
                assert(t.live(new));
            } else {
                assert(self.names.contains_key(n));
                let a = self.names[n];
                assert(self.bears(a, n));
                if self.live(a) && self.task_at(a).name == Some(n) {
                    assert(t.live(a));
                } else {
                    let i = choose|i: int|
                        0 <= i < self.queue.len() && (#[trigger] self.queue[i]).index == a.index
                            && self.queue[i].task.name == Some(n);
                    assert(t.queue[i].index == a.index);
                }
            }
        }
        assert forall|i: int| 0 <= i < t.queue.len() implies t.item_ok(#[trigger] t.queue[i]) by {
            assert(self.item_ok(self.queue[i]));
        }
    }

    /// Taking a task from the agenda keeps the invariant.
    pub proof fn lemma_vacate(self, a: Address)
        requires
            self.inv(),
            self.live(a),
        ensures
            self.vacate(a).inv(),
            !self.vacate(a).live(a),
            self.task_at(a).name matches Some(n) ==> !self.vacate(a).names.contains_key(n),
            forall|k: BlockNumber| (#[trigger] self.vacate(a).agenda[k]).len() == self.agenda[k].len(),
            forall|b: Address|
                b != a ==> (self.vacate(a).live(b) == self.live(b)) && (self.live(b)
                    ==> self.vacate(a).task_at(b) == self.task_at(b)),
    {
        let t = self.vacate(a);
        assert(self.slot_ok(a));
        assert forall|b: Address| #[trigger] t.slot_ok(b) by {
            assert(self.slot_ok(b));
        }
        assert forall|n: Seq<u8>| #[trigger] t.names.contains_key(n) implies t.bears(
            t.names[n],
            n,
        ) by {
            assert(self.names.contains_key(n));
            let b = self.names[n];
            assert(self.bears(b, n));
            if self.live(b) && self.task_at(b).name == Some(n) {
                assert(self.slot_ok(b));
                assert(b != a);
                assert(t.live(b));
            } else {
                let i = choose|i: int|
                    0 <= i < self.queue.len() && (#[trigger] self.queue[i]).index == b.index
                        && self.queue[i].task.name == Some(n);
                assert(t.queue[i].index == b.index);
            }
        }
        assert forall|i: int| 0 <= i < t.queue.len() implies t.item_ok(#[trigger] t.queue[i]) by {
            assert(self.item_ok(self.queue[i]));
        }
        assert forall|k: BlockNumber| (#[trigger] t.agenda[k]).len() <= MAX_SLOTS by {
            assert(self.agenda[k].len() <= MAX_SLOTS);
        }
    }
}

} // verus!
