//! The engine of the scheduler: the agenda of every block, the name index
//! and the queue of the block that is being served, with the operations on
//! them. Every operation asks for a well-formed engine and leaves one.

use crate::maybe_hashed::MaybeHashed;
use crate::model::{Item, State};
use crate::names::{copy_bytes, NameIndex};
use crate::types::{slot_view, Address, BlockNumber, Priority, Schedule, SchedulerError, Task};
use crate::types::{TaskView, Weight, MAX_SLOTS};
use std::collections::HashMap;
use std::collections::VecDeque;
use vstd::prelude::*;

verus! {

broadcast use vstd::std_specs::hash::group_hash_axioms;

/// A task in the queue of the current block, with the slot it came from.
pub struct Queued<C, H, O> {
    pub index: u32,
    pub task: Task<C, H, O>,
}

impl<C, H, O> View for Queued<C, H, O> {
    type V = Item<C, H, O>;

    open spec fn view(&self) -> Item<C, H, O> {
        Item { index: self.index, task: self.task@ }
    }
}

/// The data of a scheduler of calls of type `C`, referred to by hashes of
/// type `H`, for origins of type `O`.
pub struct Engine<C, H, O> {
    pub(crate) now: BlockNumber,
    pub(crate) retry_limit: u32,
    pub(crate) agenda: HashMap<BlockNumber, Vec<Option<Task<C, H, O>>>>,
    pub(crate) names: NameIndex,
    pub(crate) queue: VecDeque<Queued<C, H, O>>,
    pub(crate) admitted: bool,
    pub(crate) used: Weight,
    pub(crate) limit: Weight,
}

/// The view of an agenda.
pub open spec fn slots_view<C, H, O>(slots: Seq<Option<Task<C, H, O>>>) -> Seq<
    Option<TaskView<C, H, O>>,
> {
    slots.map_values(|s: Option<Task<C, H, O>>| slot_view(s))
}

/// The view of a queue.
pub open spec fn queue_view<C, H, O>(queue: Seq<Queued<C, H, O>>) -> Seq<Item<C, H, O>> {
    queue.map_values(|q: Queued<C, H, O>| q@)
}

impl<C, H, O> Engine<C, H, O> {
    /// The agenda of `block`.
    pub open(crate) spec fn slots_at(self, block: BlockNumber) -> Seq<Option<TaskView<C, H, O>>> {
        if self.agenda@.contains_key(block) {
            slots_view(self.agenda@[block]@)
        } else {
            Seq::empty()
        }
    }
}

impl<C, H, O> View for Engine<C, H, O> {
    type V = State<C, H, O>;

    open(crate) spec fn view(&self) -> State<C, H, O> {
        State {
            now: self.now,
            retry_limit: self.retry_limit,
            agenda: Map::new(|k: BlockNumber| true, |k: BlockNumber| self.slots_at(k)),
            names: self.names.view(),
            queue: queue_view(self.queue@),
            admitted: self.admitted,
            used: self.used,
            limit: self.limit,
        }
    }
}

impl<C, H, O> Engine<C, H, O> {
    /// Whether the engine is in a state that its operations reach.
    pub open(crate) spec fn wf(self) -> bool {
        self.names.wf() && self@.inv()
    }

    /// An engine at block `now` with nothing scheduled.
    pub(crate) fn new(now: BlockNumber, retry_limit: u32) -> (r: Self)
        ensures
            r.wf(),
            r@ == State::<C, H, O>::initial(now, retry_limit),
    {
        let r = Engine {
            now,
            retry_limit,
            agenda: HashMap::new(),
            names: NameIndex::new(),
            queue: VecDeque::new(),
            admitted: false,
            used: 0,
            limit: 0,
        };
        assert(r@.agenda =~= State::<C, H, O>::initial(now, retry_limit).agenda);
        assert(r@.queue =~= Seq::empty());
        r
    }

    /// The current block.
    pub(crate) fn now(&self) -> (r: BlockNumber)
        ensures
            r == self@.now,
    {
        self.now
    }

    /// How often a task whose preimage does not decode is carried forward.
    pub(crate) fn retry_limit(&self) -> (r: u32)
        ensures
            r == self@.retry_limit,
    {
        self.retry_limit
    }

    /// The weight that the current block has consumed.
    pub(crate) fn used(&self) -> (r: Weight)
        ensures
            r == self@.used,
    {
        self.used
    }

    /// The weight limit of the current block.
    pub(crate) fn limit(&self) -> (r: Weight)
        ensures
            r == self@.limit,
    {
        self.limit
    }

    /// The number of tasks of the current block that wait to be served.
    pub(crate) fn pending(&self) -> (r: usize)
        ensures
            r == self@.queue.len(),
    {
        self.queue.len()
    }

    /// The number of slots, taken or empty, in the agenda of `block`.
    pub(crate) fn slots(&self, block: BlockNumber) -> (r: usize)
        ensures
            r == self@.agenda[block].len(),
    {
        match self.agenda.get(&block) {
            Some(slots) => slots.len(),
            None => 0,
        }
    }

    /// The task at `a`, if there is one.
    pub(crate) fn task(&self, a: Address) -> (r: Option<&Task<C, H, O>>)
        ensures
            match r {
                Some(t) => self@.live(a) && t@ == self@.task_at(a),
                None => !self@.live(a),
            },
    {
        match self.agenda.get(&a.block) {
            Some(slots) => {
                if (a.index as usize) < slots.len() {
                    slots[a.index as usize].as_ref()
                } else {
                    None
                }
            },
            None => None,
        }
    }

    /// The address recorded for the name `id`, if the name is in use.
    pub(crate) fn address_of(&self, id: &Vec<u8>) -> (r: Option<Address>)
        requires
            self.wf(),
        ensures
            r == (if self@.names.contains_key(id@) {
                Some(self@.names[id@])
            } else {
                None
            }),
    {
        self.names.get(id)
    }

    /// Whether `a` holds a task.
    pub(crate) fn is_live(&self, a: Address) -> (r: bool)
        ensures
            r == self@.live(a),
    {
        match self.agenda.get(&a.block) {
            Some(slots) => {
                (a.index as usize) < slots.len() && slots[a.index as usize].is_some()
            },
            None => false,
        }
    }

    /// Whether the task from `a` is being served.
    pub(crate) fn is_in_service(&self, a: Address) -> (r: bool)
        ensures
            r == self@.in_service(a),
    {
        if a.block != self.now {
            return false;
        }
        let mut i: usize = 0;
        assert(self@.queue.len() == self.queue@.len());
        while i < self.queue.len()
            invariant
                i <= self.queue@.len(),
                a.block == self.now,
                self@.queue.len() == self.queue@.len(),
                forall|j: int| 0 <= j < i ==> (#[trigger] self@.queue[j]).index != a.index,
            decreases self.queue@.len() - i,
        {
            if self.queue[i].index == a.index {
                assert(self@.queue[i as int].index == a.index);
                return true;
            }
            i += 1;
        }
        false
    }

    /// Whether the agenda of `block` has a free slot.
    pub(crate) fn has_room(&self, block: BlockNumber) -> (r: bool)
        ensures
            r == self@.has_room(block),
    {
        match self.agenda.get(&block) {
            Some(slots) => slots.len() < MAX_SLOTS as usize,
            None => true,
        }
    }

    /// Appends `task` to the agenda of `block` and records its name.
    pub(crate) fn put(&mut self, block: BlockNumber, task: Task<C, H, O>) -> (a: Address)
        requires
            old(self).names.wf(),
            old(self)@.has_room(block),
        ensures
            final(self).names.wf(),
            final(self)@ == old(self)@.place(block, task@),
            a == old(self)@.next_address(block),
    {
        let ghost before = *self;
        let mut slots = match self.agenda.remove(&block) {
            Some(slots) => slots,
            None => Vec::new(),
        };
        assert(slots_view(slots@) == before.slots_at(block));
        let a = Address { block, index: slots.len() as u32 };
        match &task.name {
            Some(n) => {
                let name = copy_bytes(n);
                self.names.insert(name, a);
            },
            None => {},
        }
        slots.push(Some(task));
        self.agenda.insert(block, slots);
        proof {
            let want = before@.place(block, task@);
            assert forall|k: BlockNumber| self@.agenda[k] == want.agenda[k] by {
                if k == block {
                    assert(self.slots_at(k) =~= before.slots_at(k).push(Some(task@)));
                } else {
                    assert(self.slots_at(k) == before.slots_at(k));
                }
            }
            assert(self@.agenda =~= want.agenda);
        }
        a
    }
    /// Takes the task at `a` from the agenda and frees its name.
    pub(crate) fn take(&mut self, a: Address) -> (t: Task<C, H, O>)
        requires
            old(self).names.wf(),
            old(self)@.live(a),
        ensures
            final(self).names.wf(),
            final(self)@ == old(self)@.vacate(a),
            t@ == old(self)@.task_at(a),
    {
        let ghost before = *self;
        let mut slots = match self.agenda.remove(&a.block) {
            Some(slots) => slots,
            None => Vec::new(),
        };
        assert(slots_view(slots@) == before.slots_at(a.block));
        let t = slots[a.index as usize].take().unwrap();
        match &t.name {
            Some(n) => {
                self.names.remove(n);
            },
            None => {},
        }
        self.agenda.insert(a.block, slots);
        proof {
            let want = before@.vacate(a);
            assert forall|k: BlockNumber| self@.agenda[k] == want.agenda[k] by {
                if k == a.block {
                    assert(self.slots_at(k) =~= before.slots_at(k).update(a.index as int, None));
                } else {
                    assert(self.slots_at(k) == before.slots_at(k));
                }
            }
            assert(self@.agenda =~= want.agenda);
        }
        t
    }

    /// Schedules a task, under `name` if one is given.
    pub(crate) fn schedule(
        &mut self,
        name: Option<Vec<u8>>,
        schedule: Schedule,
        priority: Priority,
        origin: O,
        call: MaybeHashed<C, H>,
    ) -> (r: Result<Address, SchedulerError>)
        requires
            old(self).wf(),
        ensures
            final(self).wf(),
            (final(self)@, r) == old(self)@.schedule(
                match name {
                    Some(n) => Some(n@),
                    None => None,
                },
                schedule,
                priority,
                origin,
                call,
            ),
    {
        match &name {
            Some(n) => {
                if self.names.get(n).is_some() {
                    return Err(SchedulerError::DuplicateName);
                }
            },
            None => {},
        }
        if schedule.target_block <= self.now {
            return Err(SchedulerError::TargetInPast);
        }
        if !self.has_room(schedule.target_block) {
            return Err(SchedulerError::AgendaFull);
        }
        let task = Task { schedule, priority, origin, call, name, retries: 0 };
        proof {
            self@.lemma_place(schedule.target_block, task@);
        }
        let a = self.put(schedule.target_block, task);
        Ok(a)
    }

    /// Cancels the task at `a`.
    pub(crate) fn cancel(&mut self, a: Address) -> (r: Result<Task<C, H, O>, SchedulerError>)
        requires
            old(self).wf(),
        ensures
            final(self).wf(),
            final(self)@ == old(self)@.cancel(a).0,
            match old(self)@.cancel(a).1 {
                Ok(t) => r is Ok && r->Ok_0@ == t,
                Err(e) => r is Err && r->Err_0 == e,
            },
    {
        if !self.is_live(a) {
            return Err(SchedulerError::InvalidAddress);
        }
        proof {
            self@.lemma_vacate(a);
        }
        let t = self.take(a);
        Ok(t)
    }

    /// Moves the task at `a` to the block that `schedule` names.
    pub(crate) fn reschedule(&mut self, a: Address, schedule: Schedule) -> (r: Result<
        Address,
        SchedulerError,
    >)
        requires
            old(self).wf(),
        ensures
            final(self).wf(),
            (final(self)@, r) == old(self)@.reschedule(a, schedule),
    {
        if self.is_in_service(a) {
            return Err(SchedulerError::TooLateToReschedule);
        }
        if !self.is_live(a) {
            return Err(SchedulerError::InvalidAddress);
        }
        if schedule.target_block <= self.now {
            return Err(SchedulerError::TargetInPast);
        }
        if !self.has_room(schedule.target_block) {
            return Err(SchedulerError::AgendaFull);
        }
        let ghost before = self@;
        proof {
            before.lemma_vacate(a);
        }
        let mut task = self.take(a);
        task.schedule = schedule;
        proof {
            assert(task@ == TaskView { schedule, ..before.task_at(a) });
            before.vacate(a).lemma_place(schedule.target_block, task@);
        }
        let b = self.put(schedule.target_block, task);
        Ok(b)
    }

    /// The block in which the task at `a` waits.
    pub(crate) fn next_dispatch_time(&self, a: Address) -> (r: Result<BlockNumber, SchedulerError>)
        ensures
            r == self@.next_dispatch_time(a),
    {
        if self.is_live(a) {
            Ok(a.block)
        } else {
            Err(SchedulerError::InvalidAddress)
        }
    }

    /// Cancels the task that bears `id`.
    pub(crate) fn cancel_named(&mut self, id: &Vec<u8>) -> (r: Result<
        Task<C, H, O>,
        SchedulerError,
    >)
        requires
            old(self).wf(),
        ensures
            final(self).wf(),
            final(self)@ == old(self)@.cancel_named(id@).0,
            match old(self)@.cancel_named(id@).1 {
                Ok(t) => r is Ok && r->Ok_0@ == t,
                Err(e) => r is Err && r->Err_0 == e,
            },
    {
        match self.names.get(id) {
            Some(a) => self.cancel(a),
            None => Err(SchedulerError::InvalidName),
        }
    }

    /// Moves the task that bears `id` to the block that `schedule` names.
    pub(crate) fn reschedule_named(&mut self, id: &Vec<u8>, schedule: Schedule) -> (r: Result<
        Address,
        SchedulerError,
    >)
        requires
            old(self).wf(),
        ensures
            final(self).wf(),
            (final(self)@, r) == old(self)@.reschedule_named(id@, schedule),
    {
        match self.names.get(id) {
            Some(a) => self.reschedule(a, schedule),
            None => Err(SchedulerError::InvalidName),
        }
    }

    /// The block in which the task that bears `id` waits.
    pub(crate) fn next_dispatch_time_named(&self, id: &Vec<u8>) -> (r: Result<
        BlockNumber,
        SchedulerError,
    >)
        requires
            self.wf(),
        ensures
            r == self@.next_dispatch_time_named(id@),
    {
        match self.names.get(id) {
            Some(a) => self.next_dispatch_time(a),
            None => Err(SchedulerError::InvalidName),
        }
    }
}

} // verus!
