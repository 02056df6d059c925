//! What a scheduler offers to the rest of a runtime: scheduling by address
//! and scheduling by name.

use crate::maybe_hashed::MaybeHashed;
use crate::model::State;
use crate::types::{Address, BlockNumber, Priority, Schedule, SchedulerError, Task};
use vstd::prelude::*;

verus! {

/// A scheduler whose tasks are found by the address they were given.
pub trait Anon<Call, Origin>: Sized {
    /// A means of expressing a call by the hash of its encoded data.
    type Hash;

    /// The state that the operations work on. It meets the invariant of the
    /// model after every operation.
    spec fn anon_state(&self) -> State<Call, Self::Hash, Origin>;

    /// Schedules a call for a block in the future, and returns the address
    /// of the new task.
    ///
    /// Fails with `TargetInPast` if the target block is not after the current
    /// one, else with `AgendaFull` if the agenda of the target block has no
    /// free slot; nothing changes then.
    fn schedule(
        &mut self,
        schedule: Schedule,
        priority: Priority,
        origin: Origin,
        call: MaybeHashed<Call, Self::Hash>,
    ) -> (r: Result<Address, SchedulerError>)
        ensures
            final(self).anon_state().inv(),
            (final(self).anon_state(), r) == old(self).anon_state().schedule(
                None,
                schedule,
                priority,
                origin,
                call,
            ),
    ;

    /// Cancels the task at `address`, all its later runs included, and
    /// returns it.
    ///
    /// Fails with `InvalidAddress` if `address` holds no task: if none was
    /// ever there, or if the task has run, is being served, was cancelled or
    /// was moved. Nothing changes then.
    fn cancel(&mut self, address: Address) -> (r: Result<
        Task<Call, Self::Hash, Origin>,
        SchedulerError,
    >)
        ensures
            final(self).anon_state().inv(),
            final(self).anon_state() == old(self).anon_state().cancel(address).0,
            match old(self).anon_state().cancel(address).1 {
                Ok(t) => r is Ok && r->Ok_0@ == t,
                Err(e) => r is Err && r->Err_0 == e,
            },
    ;

    /// Moves the task at `address` to the block that `new_schedule` names,
    /// and returns its new address.
    ///
    /// Fails with `TooLateToReschedule` if the block of the task has been
    /// reached and the task is being served, else with `InvalidAddress` if
    /// `address` holds no task, else with `TargetInPast` if the new target
    /// block is not after the current one, else with `AgendaFull` if the
    /// agenda of the new target block has no free slot; nothing changes then.
    fn reschedule(&mut self, address: Address, new_schedule: Schedule) -> (r: Result<
        Address,
        SchedulerError,
    >)
        ensures
            final(self).anon_state().inv(),
            (final(self).anon_state(), r) == old(self).anon_state().reschedule(
                address,
                new_schedule,
            ),
    ;

    /// The block in which the task at `address` waits.
    ///
    /// Fails with `InvalidAddress` if `address` holds no task.
    fn next_dispatch_time(&self, address: Address) -> (r: Result<BlockNumber, SchedulerError>)
        ensures
            r == self.anon_state().next_dispatch_time(address),
    ;
}

/// A scheduler whose tasks are found by a name that the caller chose.
pub trait Named<Call, Origin>: Sized {
    /// A means of expressing a call by the hash of its encoded data.
    type Hash;

    /// The state that the operations work on. It meets the invariant of the
    /// model after every operation.
    spec fn named_state(&self) -> State<Call, Self::Hash, Origin>;

    /// Schedules a call under the name `id` for a block in the future, and
    /// returns the address of the new task.
    ///
    /// Fails with `DuplicateName` if `id` is in use, else with `TargetInPast`
    /// if the target block is not after the current one, else with
    /// `AgendaFull` if the agenda of the target block has no free slot;
    /// nothing changes then.
    fn schedule_named(
        &mut self,
        id: Vec<u8>,
        schedule: Schedule,
        priority: Priority,
        origin: Origin,
        call: MaybeHashed<Call, Self::Hash>,
    ) -> (r: Result<Address, SchedulerError>)
        ensures
            final(self).named_state().inv(),
            (final(self).named_state(), r) == old(self).named_state().schedule(
                Some(id@),
                schedule,
                priority,
                origin,
                call,
            ),
    ;

    /// Cancels the task that bears `id`, all its later runs included, and
    /// returns it.
    ///
    /// Fails with `InvalidName` if no task bears `id`, and with
    /// `InvalidAddress` if the task is being served in the current block;
    /// nothing changes then.
    fn cancel_named(&mut self, id: Vec<u8>) -> (r: Result<
        Task<Call, Self::Hash, Origin>,
        SchedulerError,
    >)
        ensures
            final(self).named_state().inv(),
            final(self).named_state() == old(self).named_state().cancel_named(id@).0,
            match old(self).named_state().cancel_named(id@).1 {
                Ok(t) => r is Ok && r->Ok_0@ == t,
                Err(e) => r is Err && r->Err_0 == e,
            },
    ;

    /// Moves the task that bears `id` to the block that `new_schedule` names,
    /// and returns its new address. The name stays with the task.
    ///
    /// Fails with `InvalidName` if no task bears `id`, and else as
    /// `reschedule` does for the address of that task; nothing changes then.
    fn reschedule_named(&mut self, id: Vec<u8>, new_schedule: Schedule) -> (r: Result<
        Address,
        SchedulerError,
    >)
        ensures
            final(self).named_state().inv(),
            (final(self).named_state(), r) == old(self).named_state().reschedule_named(
                id@,
                new_schedule,
            ),
    ;

    /// The block in which the task that bears `id` waits.
    ///
    /// Fails with `InvalidName` if no task bears `id`, and with
    /// `InvalidAddress` if the task is being served in the current block.
    fn next_dispatch_time(&self, id: Vec<u8>) -> (r: Result<BlockNumber, SchedulerError>)
        ensures
            r == self.named_state().next_dispatch_time_named(id@),
    ;
}

} // verus!
