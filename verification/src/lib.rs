//! A deferred-execution scheduler for a block-structured runtime.
//!
//! Work is submitted as a call, or as the hash of one, to run at a future
//! block, once or on a period. When a block is reached its agenda is served
//! in priority order under a weight limit. Until then a task can be
//! cancelled or moved to another block, by the address it was given or by a
//! name that its owner chose.
//!
//! # The parts
//!
//! - [`maybe_hashed`]: a call or the hash of one, and how a hash is resolved.
//! - [`types`]: schedules, addresses, tasks and errors.
//! - [`model`] and [`cycle`]: the scheduler as a mathematical state; every
//!   operation is a function on that state, and the contracts of the
//!   executable code are equations over these functions.
//! - [`traits`]: scheduling by address ([`traits::Anon`]) and by name
//!   ([`traits::Named`]).
//! - [`scheduler`]: the scheduler itself, which implements both.
//! - [`laws`]: what holds of the scheduler whatever is asked of it.
//!
//! # The dispatch cycle
//!
//! The scheduler executes nothing and stores no preimages: the runtime does.
//! Once per block the runtime calls [`scheduler::Scheduler::begin_cycle`]
//! with the height of the block and the weight it may consume. The tasks of
//! the block leave the agenda and queue up by priority, the lowest value
//! first, and by slot among equals. Then, as long as
//! [`scheduler::Scheduler::next_action`] asks for something, the runtime does
//! it for the task at the head of the queue and reports back:
//!
//! - `Lookup`: it looks the hash of the call up and decodes what it finds,
//!   and reports with `on_preimage`;
//! - `Weigh`: it says what weight the call needs, with `on_weight`;
//! - `Dispatch`: it executes the call, and reports with `on_dispatched`
//!   whether that succeeded and what weight it consumed.
//!
//! Each report returns what became of the task, for the runtime to pass on
//! to whoever observes it. A call that fails has run all the same, and the
//! cycle goes on with the next task.
//!
//! # What the scheduler decides
//!
//! - A task whose hash has no preimage waits for the next block, and does so
//!   as long as the preimage is missing: it is never dropped for that.
//! - A task whose preimage does not decode waits for the next block, too, but
//!   only as often as the scheduler was told when it was made
//!   (`retry_limit`); after that it is dropped.
//! - A task at the hard deadline or below runs in its block whatever the
//!   weight. Any other task runs if its call fits in what the block has left,
//!   and else waits for the next block, with its priority unchanged.
//! - A periodic task that has run is placed one period ahead, with one run
//!   less to follow and under the same name. A task with no runs to follow,
//!   with a period of zero, or with a period that leads beyond the last
//!   block, is not placed again.
//! - A task that waits for the next block has that block as its target: the
//!   schedule of a task always names the block in whose agenda it waits.
//! - While a task is being served, its name stays taken and its address holds
//!   no task: it cannot be cancelled, and it is too late to reschedule it.
//! - Blocks are taken up one after the other, so that no task is left
//!   behind: `begin_cycle` refuses any block but the one that follows the
//!   current one. A runtime that has fallen behind catches up block by
//!   block.
//! - An agenda holds at most `MAX_SLOTS` slots. Scheduling into a full agenda
//!   fails with `AgendaFull`; a task that cannot wait for the next block,
//!   because that agenda is full or because there is no next block, is
//!   dropped and reported as such.

pub mod cycle;
mod dispatch;
mod engine;
pub mod laws;
pub mod maybe_hashed;
pub mod model;
mod names;
pub mod scheduler;
pub mod traits;
pub mod types;
