//! The dispatch cycle: the scheduler takes up the agenda of a block and says
//! what the runtime has to do next; the runtime does it and says what came
//! of it.

use crate::cycle::{lemma_insert_ordered, lemma_service_order, rank, renewed, service_order};
use crate::cycle::{Action, Deferral, Outcome};
use crate::maybe_hashed::{LookupError, MaybeHashed};
use crate::engine::{queue_view, slots_view, Engine, Queued};
use crate::types::{slot_view, BlockNumber, Priority, Schedule, SchedulerError, Task};
use crate::types::{TaskView, Weight, HARD_DEADLINE, MAX_SLOTS};
use std::collections::VecDeque;
use vstd::prelude::*;

verus! {

broadcast use vstd::std_specs::hash::group_hash_axioms;

/// The place in `queue` of a new task of priority `p`.
fn place_in_queue<C, H, O>(queue: &VecDeque<Queued<C, H, O>>, p: Priority) -> (r: usize)
    ensures
        r == rank(queue_view(queue@), p),
{
    let mut n: usize = queue.len();
    proof {
        assert(queue_view(queue@).take(n as int) =~= queue_view(queue@));
    }
    while n > 0 && queue[n - 1].task.priority > p
        invariant
            n <= queue@.len(),
            rank(queue_view(queue@), p) == rank(queue_view(queue@).take(n as int), p),
        decreases n,
    {
        proof {
            let q = queue_view(queue@).take(n as int);
            assert(q.last() == queue@[n - 1]@);
            assert(q.drop_last() =~= queue_view(queue@).take(n - 1));
        }
        n -= 1;
    }
    proof {
        let q = queue_view(queue@).take(n as int);
        if n > 0 {
            assert(q.last() == queue@[n - 1]@);
        }
    }
    n
}

/// The task that follows a run of `task`, if one does.
fn renew<C, H, O>(task: Task<C, H, O>) -> (r: Option<Task<C, H, O>>)
    ensures
        match r {
            Some(t) => renewed(task@) == Some(t@),
            None => renewed(task@) is None,
        },
{
    match task.schedule.maybe_periodic {
        Some((period, remaining)) => {
            let left: Option<u32> = match remaining {
                Some(n) => {
                    if n == 0 {
                        return None;
                    }
                    Some(n - 1)
                },
                None => None,
            };
            if period == 0 {
                return None;
            }
            match task.schedule.target_block.checked_add(period) {
                Some(target_block) => {
                    let mut next = task;
                    next.schedule = Schedule {
                        target_block,
                        maybe_periodic: Some((period, left)),
                    };
                    next.retries = 0;
                    Some(next)
                },
                None => None,
            }
        },
        None => None,
    }
}

impl<C, H, O> Engine<C, H, O> {
    /// Takes up the agenda of `block`, which may consume `limit` of weight:
    /// its tasks leave the agenda and wait, in the order of service, for the
    /// runtime to serve them one by one.
    ///
    /// Returns `false`, and does nothing, while tasks of the current block
    /// still wait, and for any block but the one that follows the current
    /// one.
    pub(crate) fn begin_cycle(&mut self, block: BlockNumber, limit: Weight) -> (started: bool)
        requires
            old(self).wf(),
        ensures
            final(self).wf(),
            (final(self)@, started) == old(self)@.begin_cycle(block, limit),
    {
        if self.queue.len() > 0 || self.now == u64::MAX || block != self.now + 1 {
            return false;
        }
        let ghost before = *self;
        proof {
            before@.lemma_begin_cycle(block, limit);
        }
        let mut slots = match self.agenda.remove(&block) {
            Some(slots) => slots,
            None => Vec::new(),
        };
        let ghost orig = slots_view(slots@);
        assert(orig == before.slots_at(block));
        assert(orig.len() <= MAX_SLOTS) by {
            assert(before@.agenda[block].len() <= MAX_SLOTS);
        }
        let mut queue: VecDeque<Queued<C, H, O>> = VecDeque::new();
        let mut i: usize = 0;
        proof {
            assert(orig.take(0) =~= Seq::empty());
            assert(queue_view(queue@) =~= Seq::empty());
        }
        while i < slots.len()
            invariant
                i <= slots.len(),
                slots.len() == orig.len(),
                orig.len() <= MAX_SLOTS,
                forall|j: int| i <= j < slots.len() ==> slot_view(slots@[j]) == orig[j],
                queue_view(queue@) == service_order(orig.take(i as int)),
            decreases slots.len() - i,
        {
            let ghost upto = orig.take(i + 1);
            proof {
                assert(upto.drop_last() =~= orig.take(i as int));
                assert(upto.last() == orig[i as int]);
            }
            let slot = slots[i].take();
            match slot {
                Some(task) => {
                    let at = place_in_queue(&queue, task.priority);
                    let ghost item = Queued { index: i as u32, task }@;
                    proof {
                        lemma_service_order(orig.take(i as int));
                        lemma_insert_ordered(queue_view(queue@), item);
                    }
                    let ghost old_queue = queue@;
                    let entry = Queued { index: i as u32, task };
                    queue.insert(at, entry);
                    proof {
                        old_queue.insert_ensures(at as int, entry);
                        queue_view(old_queue).insert_ensures(at as int, item);
                        assert(queue_view(queue@) =~= queue_view(old_queue).insert(
                            at as int,
                            item,
                        ));
                    }
                },
                None => {},
            }
            i += 1;
        }
        proof {
            assert(orig.take(i as int) =~= orig);
        }
        self.now = block;
        self.queue = queue;
        self.admitted = false;
        self.used = 0;
        self.limit = limit;
        proof {
            let want = before@.begin_cycle(block, limit).0;
            assert forall|k: BlockNumber| self@.agenda[k] == want.agenda[k] by {
                if k == block {
                    assert(self.slots_at(k) =~= Seq::empty());
                } else {
                    assert(self.slots_at(k) == before.slots_at(k));
                }
            }
            assert(self@.agenda =~= want.agenda);
        }
        true
    }

    /// What the runtime has to do next.
    pub(crate) fn next_action(&self) -> (r: Action)
        ensures
            r == self@.next_action(),
    {
        if self.queue.len() == 0 {
            Action::Idle
        } else if self.queue[0].task.call.as_hash().is_some() {
            Action::Lookup
        } else if !self.admitted {
            Action::Weigh
        } else {
            Action::Dispatch
        }
    }

    /// The task at the head of the queue: the one that the next action is
    /// about.
    pub(crate) fn head(&self) -> (r: Option<&Task<C, H, O>>)
        ensures
            match r {
                Some(t) => self@.queue.len() > 0 && t@ == self@.queue[0].task,
                None => self@.queue.len() == 0,
            },
    {
        if self.queue.len() == 0 {
            None
        } else {
            Some(&self.queue[0].task)
        }
    }

    /// Takes the head from the queue and frees its name.
    fn leave(&mut self) -> (head: Queued<C, H, O>)
        requires
            old(self).wf(),
            old(self)@.queue.len() > 0,
        ensures
            final(self).wf(),
            final(self)@ == old(self)@.pop(),
            head@ == old(self)@.queue[0],
    {
        let ghost before = *self;
        proof {
            before@.lemma_pop();
        }
        let head = self.queue.pop_front().unwrap();
        match &head.task.name {
            Some(n) => {
                self.names.remove(n);
            },
            None => {},
        }
        self.admitted = false;
        proof {
            assert(self@.queue =~= before@.queue.drop_first());
            assert(self@.agenda =~= before@.agenda);
        }
        head
    }

    /// Sends the head to the next block without having run, if it can be
    /// carried there, and drops it if not. With `again`, the task is noted
    /// to have been retried once more.
    fn postpone(&mut self, again: bool, cause: Deferral) -> (r: Outcome<H>)
        requires
            old(self).wf(),
            old(self)@.queue.len() > 0,
            again ==> old(self)@.queue[0].task.retries < u32::MAX,
        ensures
            final(self).wf(),
            (final(self)@, r) == old(self)@.postpone(
                if again {
                    TaskView {
                        retries: (old(self)@.queue[0].task.retries + 1) as u32,
                        ..old(self)@.queue[0].task
                    }
                } else {
                    old(self)@.queue[0].task
                },
                cause,
            ),
    {
        let ghost before = self@;
        let ghost was = before.queue[0].task;
        let ghost sent = if again {
            TaskView { retries: (was.retries + 1) as u32, ..was }
        } else {
            was
        };
        proof {
            before.lemma_postpone(sent, cause);
            before.lemma_pop();
        }
        let head = self.leave();
        let index = head.index;
        let mut task = head.task;
        if again {
            task.retries = task.retries + 1;
        }
        assert(task@ == sent);
        if self.now < u64::MAX && self.has_room(self.now + 1) {
            let next = self.now + 1;
            task.schedule.target_block = next;
            assert(task@ == before.carried(sent));
            let to = self.put(next, task);
            Outcome::Deferred { index, to, cause }
        } else {
            let released = match task.call {
                MaybeHashed::Hash(h) => Some(h),
                MaybeHashed::Value(_) => None,
            };
            Outcome::Dropped { index, error: SchedulerError::AgendaFull, released }
        }
    }

    /// The runtime has looked up the hash of the head.
    ///
    /// A call that was found takes the place of the hash, and the hash is
    /// handed back for its pin to be released. A task whose preimage is
    /// unknown goes to the next block, however often it has done so. A task
    /// whose preimage does not decode goes to the next block as often as the
    /// scheduler was made to retry, and is dropped after that. An answer that
    /// was not awaited is ignored.
    pub(crate) fn on_preimage(&mut self, lookup: Result<C, LookupError>) -> (r: Outcome<H>)
        requires
            old(self).wf(),
        ensures
            final(self).wf(),
            (final(self)@, r) == old(self)@.on_preimage(lookup),
    {
        if self.queue.len() == 0 || self.queue[0].task.call.as_hash().is_none() {
            return Outcome::Ignored;
        }
        let ghost before = *self;
        proof {
            before@.lemma_on_preimage(lookup);
        }
        match lookup {
            Ok(c) => {
                let head = self.queue.pop_front().unwrap();
                let Queued { index, task } = head;
                let Task { schedule, priority, origin, call, name, retries } = task;
                let (call, released) = call.resolved(Ok(c));
                let entry = Queued {
                    index,
                    task: Task { schedule, priority, origin, call, name, retries },
                };
                self.queue.push_front(entry);
                proof {
                    assert(self@.queue =~= before@.with_head_call(MaybeHashed::Value(c)).queue);
                    assert(self@.agenda =~= before@.agenda);
                }
                Outcome::Resolved { hash: released.unwrap() }
            },
            Err(LookupError::Unknown) => {
                self.postpone(false, Deferral::Unresolved(LookupError::Unknown))
            },
            Err(LookupError::BadFormat) => {
                if self.queue[0].task.retries < self.retry_limit {
                    self.postpone(true, Deferral::Unresolved(LookupError::BadFormat))
                } else {
                    let head = self.leave();
                    let released = match head.task.call {
                        MaybeHashed::Hash(h) => Some(h),
                        MaybeHashed::Value(_) => None,
                    };
                    Outcome::Dropped {
                        index: head.index,
                        error: SchedulerError::PreimageBadFormat,
                        released,
                    }
                }
            },
        }
    }

    /// The runtime has weighed the call of the head.
    ///
    /// The task is admitted if its priority is a hard deadline, or if
    /// `weight` fits in what the block has left; its call is then to be
    /// dispatched. Else the task goes to the next block as it is. An answer
    /// that was not awaited is ignored.
    pub(crate) fn on_weight(&mut self, weight: Weight) -> (r: Outcome<H>)
        requires
            old(self).wf(),
        ensures
            final(self).wf(),
            (final(self)@, r) == old(self)@.on_weight(weight),
    {
        if self.queue.len() == 0 || self.queue[0].task.call.as_hash().is_some() || self.admitted {
            return Outcome::Ignored;
        }
        proof {
            self@.lemma_on_weight(weight);
        }
        let fits = self.used <= self.limit && weight <= self.limit - self.used;
        if self.queue[0].task.priority <= HARD_DEADLINE || fits {
            self.admitted = true;
            proof {
                assert(self@.agenda =~= old(self)@.agenda);
            }
            Outcome::Admitted
        } else {
            self.postpone(false, Deferral::Overweight)
        }
    }

    /// The runtime has dispatched the call of the head, with success or not,
    /// and the call consumed `consumed`.
    ///
    /// The weight counts against the block, and the task leaves the queue.
    /// If it is periodic and has runs left, its next run is placed one period
    /// ahead, under the same name. An answer that was not awaited is ignored.
    pub(crate) fn on_dispatched(&mut self, ok: bool, consumed: Weight) -> (r: Outcome<H>)
        requires
            old(self).wf(),
        ensures
            final(self).wf(),
            (final(self)@, r) == old(self)@.on_dispatched(ok, consumed),
    {
        if self.queue.len() == 0 || !self.admitted {
            return Outcome::Ignored;
        }
        let ghost before = self@;
        proof {
            before.lemma_on_dispatched(ok, consumed);
        }
        let head = self.leave();
        self.used = match self.used.checked_add(consumed) {
            Some(sum) => sum,
            None => u64::MAX,
        };
        proof {
            assert(self@.agenda =~= before.pop().agenda);
        }
        let index = head.index;
        match renew(head.task) {
            Some(next) => {
                let block = next.schedule.target_block;
                if self.has_room(block) {
                    let to = self.put(block, next);
                    Outcome::Executed { index, ok, renewed: Some(to) }
                } else {
                    Outcome::Executed { index, ok, renewed: None }
                }
            },
            None => Outcome::Executed { index, ok, renewed: None },
        }
    }
}

} // verus!
