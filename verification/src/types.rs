//! The data that the scheduler keeps: schedules, addresses and task entries.

use crate::maybe_hashed::{LookupError, MaybeHashed};
use vstd::prelude::*;

verus! {

/// Priority of a task. Lower values are served first.
pub type Priority = u8;

/// A block height.
pub type BlockNumber = u64;

/// An amount of execution weight.
pub type Weight = u64;

/// Tasks of this priority or a numerically lower one run in the block they
/// are queued for, even where that exceeds the block's weight limit.
pub const HARD_DEADLINE: Priority = 63;

/// The number of slots that one block's agenda can hold: slot indices are
/// `u32`, and the highest index is one below this.
pub const MAX_SLOTS: u32 = 0xffff_ffff;

/// When a task runs: at `target_block`, and then, if `maybe_periodic` is
/// `Some((period, remaining))`, every `period` blocks. `remaining` counts the
/// runs that are still to follow the next one; `None` stands for no end.
#[derive(Clone, Copy, Debug, PartialEq, Eq)]
pub struct Schedule {
    pub target_block: BlockNumber,
    pub maybe_periodic: Option<(BlockNumber, Option<u32>)>,
}

/// The place of a task: the block whose agenda holds it and its slot there.
#[derive(Clone, Copy, Debug, PartialEq, Eq, Structural)]
pub struct Address {
    pub block: BlockNumber,
    pub index: u32,
}

/// One scheduled unit of work.
#[derive(Clone, Debug, PartialEq, Eq)]
pub struct Task<C, H, O> {
    pub schedule: Schedule,
    pub priority: Priority,
    pub origin: O,
    pub call: MaybeHashed<C, H>,
    pub name: Option<Vec<u8>>,
    /// How often the task has been carried to a later block because the
    /// preimage of its call did not decode.
    pub retries: u32,
}

/// A task as contracts speak of it: the name is the sequence of its bytes.
pub struct TaskView<C, H, O> {
    pub schedule: Schedule,
    pub priority: Priority,
    pub origin: O,
    pub call: MaybeHashed<C, H>,
    pub name: Option<Seq<u8>>,
    pub retries: u32,
}

impl<C, H, O> View for Task<C, H, O> {
    type V = TaskView<C, H, O>;

    open spec fn view(&self) -> TaskView<C, H, O> {
        TaskView {
            schedule: self.schedule,
            priority: self.priority,
            origin: self.origin,
            call: self.call,
            name: match self.name {
                Some(n) => Some(n@),
                None => None,
            },
            retries: self.retries,
        }
    }
}

/// The view of an agenda slot.
pub open spec fn slot_view<C, H, O>(slot: Option<Task<C, H, O>>) -> Option<TaskView<C, H, O>> {
    match slot {
        Some(t) => Some(t@),
        None => None,
    }
}

/// Why an operation of the scheduler failed.
#[derive(Clone, Copy, Debug, PartialEq, Eq, Structural)]
pub enum SchedulerError {
    /// The address holds no task: none was ever there, or it ran, or it was
    /// cancelled or moved.
    InvalidAddress,
    /// No task goes by the name.
    InvalidName,
    /// The name is taken by another task.
    DuplicateName,
    /// The schedule's target block is not after the current block.
    TargetInPast,
    /// The block the task waits in has been reached.
    TooLateToReschedule,
    /// No preimage is known for the hash of the call.
    PreimageUnknown,
    /// The preimage of the call does not decode.
    PreimageBadFormat,
    /// The agenda of the target block has no free slot.
    AgendaFull,
}

impl From<LookupError> for SchedulerError {
    fn from(e: LookupError) -> (r: Self) {
        match e {
            LookupError::Unknown => SchedulerError::PreimageUnknown,
            LookupError::BadFormat => SchedulerError::PreimageBadFormat,
        }
    }
}

impl vstd::std_specs::convert::FromSpecImpl<LookupError> for SchedulerError {
    open spec fn obeys_from_spec() -> bool {
        true
    }

    open spec fn from_spec(e: LookupError) -> Self {
        match e {
            LookupError::Unknown => SchedulerError::PreimageUnknown,
            LookupError::BadFormat => SchedulerError::PreimageBadFormat,
        }
    }
}

} // verus!
