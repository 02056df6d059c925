//! The scheduler that a runtime holds: scheduling by address and by name,
//! and the dispatch cycle. Its state is well-formed at all times, so its
//! operations ask nothing of their callers.

use crate::cycle::{Action, Outcome};
use crate::engine::Engine;
use crate::maybe_hashed::{LookupError, MaybeHashed};
use crate::model::State;
use crate::traits::{Anon, Named};
use crate::types::{Address, BlockNumber, Priority, Schedule, SchedulerError, Task, Weight};
use vstd::prelude::*;

verus! {

/// A scheduler of calls of type `C`, referred to by hashes of type `H`, for
/// origins of type `O`.
pub struct Scheduler<C, H, O> {
    engine: Engine<C, H, O>,
}

impl<C, H, O> View for Scheduler<C, H, O> {
    type V = State<C, H, O>;

    closed spec fn view(&self) -> State<C, H, O> {
        self.engine@
    }
}

impl<C, H, O> Scheduler<C, H, O> {
    #[verifier::type_invariant]
    spec fn well_formed(self) -> bool {
        self.engine.wf()
    }

    /// Takes the engine out for an operation; an empty one stands in.
    fn lend(&mut self) -> (engine: Engine<C, H, O>)
        ensures
            engine.wf(),
            engine@ == old(self)@,
    {
        proof {
            use_type_invariant(&*self);
        }
        let mut engine = Engine::new(0, 0);
        core::mem::swap(&mut self.engine, &mut engine);
        engine
    }

    /// A scheduler at block `now` with nothing scheduled. A task whose
    /// preimage does not decode is carried forward `retry_limit` times before
    /// it is dropped.
    pub fn new(now: BlockNumber, retry_limit: u32) -> (r: Self)
        ensures
            r@ == State::<C, H, O>::initial(now, retry_limit),
            r@.inv(),
    {
        Scheduler { engine: Engine::new(now, retry_limit) }
    }

    /// States that the scheduler meets the invariant of the model, as it
    /// does at all times. The call does nothing else.
    pub fn invariant_holds(&self)
        ensures
            self@.inv(),
    {
        proof {
            use_type_invariant(self);
        }
    }

    /// The current block.
    pub fn now(&self) -> (r: BlockNumber)
        ensures
            r == self@.now,
    {
        self.engine.now()
    }

    /// How often a task whose preimage does not decode is carried forward.
    pub fn retry_limit(&self) -> (r: u32)
        ensures
            r == self@.retry_limit,
    {
        self.engine.retry_limit()
    }

    /// The weight that the current block has consumed.
    pub fn used(&self) -> (r: Weight)
        ensures
            r == self@.used,
    {
        self.engine.used()
    }

    /// The weight limit of the current block.
    pub fn limit(&self) -> (r: Weight)
        ensures
            r == self@.limit,
    {
        self.engine.limit()
    }

    /// The number of tasks of the current block that wait to be served.
    pub fn pending(&self) -> (r: usize)
        ensures
            r == self@.queue.len(),
    {
        self.engine.pending()
    }

    /// The number of slots, taken or empty, in the agenda of `block`.
    pub fn slots(&self, block: BlockNumber) -> (r: usize)
        ensures
            r == self@.agenda[block].len(),
    {
        self.engine.slots(block)
    }

    /// Whether the agenda of `block` has a free slot.
    pub fn has_room(&self, block: BlockNumber) -> (r: bool)
        ensures
            r == self@.has_room(block),
    {
        self.engine.has_room(block)
    }

    /// Whether `a` holds a task.
    pub fn is_live(&self, a: Address) -> (r: bool)
        ensures
            r == self@.live(a),
    {
        self.engine.is_live(a)
    }

    /// Whether the task from `a` is being served in the current block.
    pub fn is_in_service(&self, a: Address) -> (r: bool)
        ensures
            r == self@.in_service(a),
    {
        self.engine.is_in_service(a)
    }

    /// The task at `a`, if there is one.
    pub fn task(&self, a: Address) -> (r: Option<&Task<C, H, O>>)
        ensures
            match r {
                Some(t) => self@.live(a) && t@ == self@.task_at(a),
                None => !self@.live(a),
            },
    {
        self.engine.task(a)
    }

    /// The address recorded for the name `id`, if the name is in use.
    pub fn address_of(&self, id: &Vec<u8>) -> (r: Option<Address>)
        ensures
            r == (if self@.names.contains_key(id@) {
                Some(self@.names[id@])
            } else {
                None
            }),
    {
        proof {
            use_type_invariant(self);
        }
        self.engine.address_of(id)
    }

    /// Takes up the agenda of `block`, which may consume `limit` of weight:
    /// its tasks leave the agenda and wait, in the order of service, for the
    /// runtime to serve them one by one.
    ///
    /// Blocks are taken up one after the other. Returns `false`, and does
    /// nothing, while tasks of the current block still wait, and for any
    /// block but the one that follows the current one.
    pub fn begin_cycle(&mut self, block: BlockNumber, limit: Weight) -> (started: bool)
        ensures
            (final(self)@, started) == old(self)@.begin_cycle(block, limit),
            final(self)@.inv(),
    {
        let mut engine = self.lend();
        let started = engine.begin_cycle(block, limit);
        self.engine = engine;
        started
    }

    /// What the runtime has to do next.
    pub fn next_action(&self) -> (r: Action)
        ensures
            r == self@.next_action(),
    {
        self.engine.next_action()
    }

    /// The task at the head of the queue: the one that the next action is
    /// about.
    pub fn head(&self) -> (r: Option<&Task<C, H, O>>)
        ensures
            match r {
                Some(t) => self@.queue.len() > 0 && t@ == self@.queue[0].task,
                None => self@.queue.len() == 0,
            },
    {
        self.engine.head()
    }

    /// The runtime has looked up the hash of the head.
    ///
    /// A call that was found takes the place of the hash, and the hash is
    /// handed back for its pin to be released. A task whose preimage is
    /// unknown goes to the next block, however often it has done so. A task
    /// whose preimage does not decode goes to the next block as often as the
    /// scheduler was made to retry, and is dropped after that. An answer that
    /// was not awaited is ignored.
    pub fn on_preimage(&mut self, lookup: Result<C, LookupError>) -> (r: Outcome<H>)
        ensures
            (final(self)@, r) == old(self)@.on_preimage(lookup),
            final(self)@.inv(),
    {
        let mut engine = self.lend();
        let r = engine.on_preimage(lookup);
        self.engine = engine;
        r
    }

    /// The runtime has weighed the call of the head.
    ///
    /// The task is admitted if its priority is a hard deadline, or if
    /// `weight` fits in what the block has left; its call is then to be
    /// dispatched. Else the task goes to the next block as it is. An answer
    /// that was not awaited is ignored.
    pub fn on_weight(&mut self, weight: Weight) -> (r: Outcome<H>)
        ensures
            (final(self)@, r) == old(self)@.on_weight(weight),
            final(self)@.inv(),
    {
        let mut engine = self.lend();
        let r = engine.on_weight(weight);
        self.engine = engine;
        r
    }

    /// The runtime has dispatched the call of the head, with success or not,
    /// and the call consumed `consumed`.
    ///
    /// The weight counts against the block, and the task leaves the queue.
    /// If it is periodic and has runs left, its next run is placed one period
    /// ahead, under the same name. An answer that was not awaited is ignored.
    pub fn on_dispatched(&mut self, ok: bool, consumed: Weight) -> (r: Outcome<H>)
        ensures
            (final(self)@, r) == old(self)@.on_dispatched(ok, consumed),
            final(self)@.inv(),
    {
        let mut engine = self.lend();
        let r = engine.on_dispatched(ok, consumed);
        self.engine = engine;
        r
    }
}

impl<C, H, O> Anon<C, O> for Scheduler<C, H, O> {
    type Hash = H;

    open spec fn anon_state(&self) -> State<C, H, O> {
        self@
    }

    fn schedule(
        &mut self,
        schedule: Schedule,
        priority: Priority,
        origin: O,
        call: MaybeHashed<C, H>,
    ) -> (r: Result<Address, SchedulerError>) {
        let mut engine = self.lend();
        let r = engine.schedule(None, schedule, priority, origin, call);
        self.engine = engine;
        r
    }

    fn cancel(&mut self, address: Address) -> (r: Result<Task<C, H, O>, SchedulerError>) {
        let mut engine = self.lend();
        let r = engine.cancel(address);
        self.engine = engine;
        r
    }

    fn reschedule(&mut self, address: Address, new_schedule: Schedule) -> (r: Result<
        Address,
        SchedulerError,
    >) {
        let mut engine = self.lend();
        let r = engine.reschedule(address, new_schedule);
        self.engine = engine;
        r
    }

    fn next_dispatch_time(&self, address: Address) -> (r: Result<BlockNumber, SchedulerError>) {
        self.engine.next_dispatch_time(address)
    }
}

impl<C, H, O> Named<C, O> for Scheduler<C, H, O> {
    type Hash = H;

    open spec fn named_state(&self) -> State<C, H, O> {
        self@
    }

    fn schedule_named(
        &mut self,
        id: Vec<u8>,
        schedule: Schedule,
        priority: Priority,
        origin: O,
        call: MaybeHashed<C, H>,
    ) -> (r: Result<Address, SchedulerError>) {
        let mut engine = self.lend();
        let r = engine.schedule(Some(id), schedule, priority, origin, call);
        self.engine = engine;
        r
    }

    fn cancel_named(&mut self, id: Vec<u8>) -> (r: Result<Task<C, H, O>, SchedulerError>) {
        let mut engine = self.lend();
        let r = engine.cancel_named(&id);
        self.engine = engine;
        r
    }

    fn reschedule_named(&mut self, id: Vec<u8>, new_schedule: Schedule) -> (r: Result<
        Address,
        SchedulerError,
    >) {
        let mut engine = self.lend();
        let r = engine.reschedule_named(&id, new_schedule);
        self.engine = engine;
        r
    }

    fn next_dispatch_time(&self, id: Vec<u8>) -> (r: Result<BlockNumber, SchedulerError>) {
        proof {
            use_type_invariant(self);
        }
        self.engine.next_dispatch_time_named(&id)
    }
}

} // verus!
