//! The dispatch cycle as functions on the state: taking up the agenda of a
//! block, and what each answer of the runtime does to the task at the head
//! of the queue.

use crate::maybe_hashed::{LookupError, MaybeHashed};
use crate::model::{served_before, Item, State};
use crate::types::{Address, BlockNumber, Priority, Schedule, SchedulerError, TaskView, Weight};
use crate::types::{HARD_DEADLINE, MAX_SLOTS};
use vstd::prelude::*;

verus! {

/// What the runtime has to do next for the scheduler.
#[derive(Clone, Copy, Debug, PartialEq, Eq, Structural)]
pub enum Action {
    /// No task waits to be served: the cycle of the current block is over.
    Idle,
    /// Look up the hash of the task at the head of the queue.
    Lookup,
    /// Say what weight the call of the task at the head of the queue needs.
    Weigh,
    /// Dispatch the call of the task at the head of the queue.
    Dispatch,
}

/// Why a task was carried to the next block.
#[derive(Clone, Copy, Debug, PartialEq, Eq, Structural)]
pub enum Deferral {
    /// Its call could not be resolved.
    Unresolved(LookupError),
    /// Its call needs more weight than the block had left.
    Overweight,
}

/// What an answer of the runtime did to the task at the head of the queue.
#[derive(Debug, PartialEq, Eq)]
pub enum Outcome<H> {
    /// The answer was not the one awaited. Nothing changed.
    Ignored,
    /// The call was resolved and the task waits to be weighed. The pin on
    /// the preimage of `hash` can go.
    Resolved { hash: H },
    /// The task was admitted and its call is to be dispatched now.
    Admitted,
    /// The task from slot `index` ran, with success or not. If it is to run
    /// again, it waits at `renewed`.
    Executed { index: u32, ok: bool, renewed: Option<Address> },
    /// The task from slot `index` did not run and waits at `to`, in the next
    /// block.
    Deferred { index: u32, to: Address, cause: Deferral },
    /// The task from slot `index` did not run and is gone: because its
    /// preimage did not decode once too often, or because the next block has
    /// no free slot. The pin on the preimage of `released` can go.
    Dropped { index: u32, error: SchedulerError, released: Option<H> },
}

/// The place among `q`, sorted by priority, of a new item of priority `p`:
/// behind every item of that priority or a more urgent one.
pub open spec fn rank<C, H, O>(q: Seq<Item<C, H, O>>, p: Priority) -> int
    decreases q.len(),
{
    if q.len() == 0 {
        0
    } else if q.last().task.priority <= p {
        q.len() as int
    } else {
        rank(q.drop_last(), p)
    }
}

/// The tasks of an agenda in the order in which they are served: by
/// priority, the lowest value first, and by slot among equals.
pub open spec fn service_order<C, H, O>(slots: Seq<Option<TaskView<C, H, O>>>) -> Seq<Item<C, H, O>>
    decreases slots.len(),
{
    if slots.len() == 0 {
        Seq::empty()
    } else {
        let rest = service_order(slots.drop_last());
        match slots.last() {
            None => rest,
            Some(task) => rest.insert(
                rank(rest, task.priority),
                Item { index: (slots.len() - 1) as u32, task },
            ),
        }
    }
}

/// The task that follows a run of `task`: one period later, with one run
/// less to follow. There is none if `task` is not periodic, if this was its
/// last run, or if no block lies one period ahead.
pub open spec fn renewed<C, H, O>(task: TaskView<C, H, O>) -> Option<TaskView<C, H, O>> {
    match task.schedule.maybe_periodic {
        Some((period, remaining)) => {
            if remaining == Some(0u32) || period == 0 || task.schedule.target_block + period
                > u64::MAX {
                None
            } else {
                Some(
                    TaskView {
                        schedule: Schedule {
                            target_block: (task.schedule.target_block + period) as u64,
                            maybe_periodic: Some(
                                (
                                    period,
                                    match remaining {
                                        Some(n) => Some((n - 1) as u32),
                                        None => None,
                                    },
                                ),
                            ),
                        },
                        retries: 0,
                        ..task
                    },
                )
            }
        },
        None => None,
    }
}

/// The hash whose pin can go when a task with the call `call` is dropped.
pub open spec fn pinned<C, H>(call: MaybeHashed<C, H>) -> Option<H> {
    match call {
        MaybeHashed::Hash(h) => Some(h),
        MaybeHashed::Value(_) => None,
    }
}

/// Whether a call of weight `weight` is admitted at priority `priority`
/// when `used` of `limit` is consumed: always at a hard deadline, else if it
/// fits.
pub open spec fn admits(priority: Priority, used: Weight, limit: Weight, weight: Weight) -> bool {
    priority <= HARD_DEADLINE || used + weight <= limit
}

/// The sum of two weights, held at the highest weight there is.
pub open spec fn add_weight(a: Weight, b: Weight) -> Weight {
    if a + b > u64::MAX {
        u64::MAX
    } else {
        (a + b) as u64
    }
}

impl<C, H, O> State<C, H, O> {
    /// Taking up the agenda of `block` under the weight limit `limit`.
    ///
    /// Blocks are taken up one after the other: nothing happens, and `false`
    /// is returned, while tasks of the current block still wait to be served,
    /// and for any block but the one that follows the current one.
    pub open spec fn begin_cycle(self, block: BlockNumber, limit: Weight) -> (Self, bool) {
        if self.queue.len() > 0 || block != self.now + 1 {
            (self, false)
        } else {
            (
                State {
                    now: block,
                    agenda: self.agenda.insert(block, Seq::empty()),
                    queue: service_order(self.agenda[block]),
                    admitted: false,
                    used: 0,
                    limit,
                    ..self
                },
                true,
            )
        }
    }

    /// What the runtime has to do next.
    pub open spec fn next_action(self) -> Action {
        if self.queue.len() == 0 {
            Action::Idle
        } else if self.queue[0].task.call is Hash {
            Action::Lookup
        } else if !self.admitted {
            Action::Weigh
        } else {
            Action::Dispatch
        }
    }

    /// The state after the head left the queue: its name is free again.
    pub open spec fn pop(self) -> Self {
        State {
            queue: self.queue.drop_first(),
            names: match self.queue[0].task.name {
                Some(n) => self.names.remove(n),
                None => self.names,
            },
            admitted: false,
            ..self
        }
    }

    /// The state after the call of the head became `call`.
    pub open spec fn with_head_call(self, call: MaybeHashed<C, H>) -> Self {
        State {
            queue: self.queue.update(
                0,
                Item { task: TaskView { call, ..self.queue[0].task }, ..self.queue[0] },
            ),
            ..self
        }
    }

    /// Whether a task can be carried to the next block: there is one, and
    /// its agenda has a free slot.
    pub open spec fn can_carry(self) -> bool {
        self.now < u64::MAX && self.has_room((self.now + 1) as u64)
    }

    /// `task` as it waits in the next block.
    pub open spec fn carried(self, task: TaskView<C, H, O>) -> TaskView<C, H, O> {
        TaskView {
            schedule: Schedule { target_block: (self.now + 1) as u64, ..task.schedule },
            ..task
        }
    }

    /// The head leaves the queue as `task` without having run: for the next
    /// block if it can be carried there, else for good.
    pub open spec fn postpone(self, task: TaskView<C, H, O>, cause: Deferral) -> (
        Self,
        Outcome<H>,
    ) {
        let index = self.queue[0].index;
        if self.can_carry() {
            (
                self.pop().place((self.now + 1) as u64, self.carried(task)),
                Outcome::Deferred { index, to: self.next_address((self.now + 1) as u64), cause },
            )
        } else {
            (
                self.pop(),
                Outcome::Dropped {
                    index,
                    error: SchedulerError::AgendaFull,
                    released: pinned(task.call),
                },
            )
        }
    }

    /// The runtime answers a lookup of the head's hash with `lookup`.
    ///
    /// A call that was found takes the place of the hash. A task whose
    /// preimage is unknown is carried to the next block, however often that
    /// has happened. A task whose preimage does not decode is carried to the
    /// next block `retry_limit` times, and dropped after that.
    pub open spec fn on_preimage(self, lookup: Result<C, LookupError>) -> (Self, Outcome<H>) {
        if self.queue.len() == 0 {
            (self, Outcome::Ignored)
        } else {
            let head = self.queue[0];
            match head.task.call {
                MaybeHashed::Value(_) => (self, Outcome::Ignored),
                MaybeHashed::Hash(h) => match lookup {
                    Ok(c) => (
                        self.with_head_call(MaybeHashed::Value(c)),
                        Outcome::Resolved { hash: h },
                    ),
                    Err(LookupError::Unknown) => self.postpone(
                        head.task,
                        Deferral::Unresolved(LookupError::Unknown),
                    ),
                    Err(LookupError::BadFormat) => if head.task.retries < self.retry_limit {
                        self.postpone(
                            TaskView { retries: (head.task.retries + 1) as u32, ..head.task },
                            Deferral::Unresolved(LookupError::BadFormat),
                        )
                    } else {
                        (
                            self.pop(),
                            Outcome::Dropped {
                                index: head.index,
                                error: SchedulerError::PreimageBadFormat,
                                released: Some(h),
                            },
                        )
                    },
                },
            }
        }
    }

    /// The runtime says that the call of the head needs `weight`.
    ///
    /// The task is admitted if its priority is a hard deadline or if the
    /// weight fits in what the block has left. Else it is carried to the next
    /// block as it is.
    pub open spec fn on_weight(self, weight: Weight) -> (Self, Outcome<H>) {
        if self.queue.len() == 0 || self.queue[0].task.call is Hash || self.admitted {
            (self, Outcome::Ignored)
        } else if admits(self.queue[0].task.priority, self.used, self.limit, weight) {
            (State { admitted: true, ..self }, Outcome::Admitted)
        } else {
            self.postpone(self.queue[0].task, Deferral::Overweight)
        }
    }

    /// The runtime says that the call of the head was dispatched, with
    /// success or not, and consumed `consumed`.
    ///
    /// The weight is added to what the block has consumed, and the task
    /// leaves the queue. If it is to run again and the agenda of that block
    /// has a free slot, its next run is placed there.
    pub open spec fn on_dispatched(self, ok: bool, consumed: Weight) -> (Self, Outcome<H>) {
        if self.queue.len() == 0 || !self.admitted {
            (self, Outcome::Ignored)
        } else {
            let head = self.queue[0];
            let done = State { used: add_weight(self.used, consumed), ..self.pop() };
            match renewed(head.task) {
                Some(next) => if done.has_room(next.schedule.target_block) {
                    (
                        done.place(next.schedule.target_block, next),
                        Outcome::Executed {
                            index: head.index,
                            ok,
                            renewed: Some(done.next_address(next.schedule.target_block)),
                        },
                    )
                } else {
                    (done, Outcome::Executed { index: head.index, ok, renewed: None })
                },
                None => (done, Outcome::Executed { index: head.index, ok, renewed: None }),
            }
        }
    }
}

/// Whether `q` is in the order of service.
pub open spec fn ordered<C, H, O>(q: Seq<Item<C, H, O>>) -> bool {
    forall|i: int, j: int|
        0 <= i < j < q.len() ==> served_before(#[trigger] q[i], #[trigger] q[j])
}

/// Whether every item of `q` is a task of `slots`, with its slot.
pub open spec fn drawn_from<C, H, O>(
    q: Seq<Item<C, H, O>>,
    slots: Seq<Option<TaskView<C, H, O>>>,
) -> bool {
    forall|i: int|
        0 <= i < q.len() ==> (#[trigger] q[i]).index < slots.len() && slots[q[i].index as int]
            == Some(q[i].task)
}

/// Whether every task of `slots` is an item of `q`.
pub open spec fn covers<C, H, O>(
    q: Seq<Item<C, H, O>>,
    slots: Seq<Option<TaskView<C, H, O>>>,
) -> bool {
    forall|k: int|
        0 <= k < slots.len() && (#[trigger] slots[k]) is Some ==> exists|i: int|
            0 <= i < q.len() && (#[trigger] q[i]).index == k
}

/// The place that `rank` gives lies behind the items of priority `p` or a
/// more urgent one and before all others.
pub proof fn lemma_rank<C, H, O>(q: Seq<Item<C, H, O>>, p: Priority)
    requires
        ordered(q),
    ensures
        0 <= rank(q, p) <= q.len(),
        forall|i: int| 0 <= i < rank(q, p) ==> (#[trigger] q[i]).task.priority <= p,
        forall|i: int| rank(q, p) <= i < q.len() ==> (#[trigger] q[i]).task.priority > p,
    decreases q.len(),
{
    if q.len() > 0 {
        let last = q.len() - 1;
        if q[last].task.priority > p {
            let d = q.drop_last();
            assert forall|i: int, j: int| 0 <= i < j < d.len() implies served_before(
                #[trigger] d[i],
                #[trigger] d[j],
            ) by {
                assert(served_before(q[i], q[j]));
            }
            lemma_rank(d, p);
            assert forall|i: int| 0 <= i < rank(q, p) implies (#[trigger] q[i]).task.priority
                <= p by {
                assert(q[i] == d[i]);
            }
            assert forall|i: int| rank(q, p) <= i < q.len() implies (#[trigger] q[i]).task.priority
                > p by {
                if i < last {
                    assert(q[i] == d[i]);
                }
            }
        } else {
            assert forall|i: int| 0 <= i < rank(q, p) implies (#[trigger] q[i]).task.priority
                <= p by {
                if i < last {
                    assert(served_before(q[i], q[last]));
                }
            }
        }
    }
}

/// An item from a slot behind all slots of `q`, put where `rank` says, keeps
/// `q` in the order of service.
pub proof fn lemma_insert_ordered<C, H, O>(q: Seq<Item<C, H, O>>, item: Item<C, H, O>)
    requires
        ordered(q),
        forall|i: int| 0 <= i < q.len() ==> (#[trigger] q[i]).index < item.index,
    ensures
        0 <= rank(q, item.task.priority) <= q.len(),
        ordered(q.insert(rank(q, item.task.priority), item)),
{
    let r = rank(q, item.task.priority);
    lemma_rank(q, item.task.priority);
    let t = q.insert(r, item);
    q.insert_ensures(r, item);
    assert forall|i: int, j: int| 0 <= i < j < t.len() implies served_before(
        #[trigger] t[i],
        #[trigger] t[j],
    ) by {
        if j < r {
            assert(t[i] == q[i] && t[j] == q[j]);
            assert(served_before(q[i], q[j]));
        } else if i > r {
            assert(t[i] == q[i - 1] && t[j] == q[j - 1]);
            assert(served_before(q[i - 1], q[j - 1]));
        } else if i < r && j > r {
            assert(t[i] == q[i] && t[j] == q[j - 1]);
            assert(served_before(q[i], q[j - 1]));
        } else if i < r {
            assert(t[i] == q[i] && t[j] == item);
            assert(q[i].task.priority <= item.task.priority);
            assert(q[i].index < item.index);
        } else {
            assert(t[i] == item && t[j] == q[j - 1]);
            assert(q[j - 1].task.priority > item.task.priority);
        }
    }
}

/// The order of service of an agenda holds exactly the tasks of the agenda,
/// each with its slot, sorted by priority and then by slot.
pub proof fn lemma_service_order<C, H, O>(slots: Seq<Option<TaskView<C, H, O>>>)
    requires
        slots.len() <= MAX_SLOTS,
    ensures
        service_order(slots).len() <= slots.len(),
        ordered(service_order(slots)),
        drawn_from(service_order(slots), slots),
        covers(service_order(slots), slots),
    decreases slots.len(),
{
    if slots.len() > 0 {
        let front = slots.drop_last();
        let rest = service_order(front);
        lemma_service_order(front);
        let q = service_order(slots);
        match slots.last() {
            None => {
                assert(q == rest);
                assert forall|i: int| 0 <= i < q.len() implies (#[trigger] q[i]).index
                    < slots.len() && slots[q[i].index as int] == Some(q[i].task) by {
                    assert(front[rest[i].index as int] == Some(rest[i].task));
                }
                assert forall|k: int| 0 <= k < slots.len() && (#[trigger] slots[k]) is Some implies exists|
                    i: int,
                | 0 <= i < q.len() && (#[trigger] q[i]).index == k by {
                    assert(front[k] is Some);
                }
            },
            Some(task) => {
                let last = (slots.len() - 1) as u32;
                let item = Item { index: last, task };
                lemma_insert_ordered(rest, item);
                let r = rank(rest, task.priority);
                assert(q == rest.insert(r, item));
                rest.insert_ensures(r, item);
                assert forall|i: int| 0 <= i < q.len() implies (#[trigger] q[i]).index
                    < slots.len() && slots[q[i].index as int] == Some(q[i].task) by {
                    if i < r {
                        assert(q[i] == rest[i]);
                        assert(front[rest[i].index as int] == Some(rest[i].task));
                    } else if i > r {
                        assert(q[i] == rest[i - 1]);
                        assert(front[rest[i - 1].index as int] == Some(rest[i - 1].task));
                    }
                }
                assert forall|k: int| 0 <= k < slots.len() && (#[trigger] slots[k]) is Some implies exists|
                    i: int,
                | 0 <= i < q.len() && (#[trigger] q[i]).index == k by {
                    if k == last {
                        assert(q[r].index == k);
                    } else {
                        assert(front[k] is Some);
                        let i = choose|i: int|
                            0 <= i < rest.len() && (#[trigger] rest[i]).index == k;
                        if i < r {
                            assert(q[i] == rest[i]);
                        } else {
                            assert(q[i + 1] == rest[i]);
                        }
                    }
                }
            },
        }
    }
}

/// Only one sequence holds exactly the tasks of an agenda in the order of
/// service: any two such sequences are the same.
pub proof fn lemma_order_of_service_is_unique<C, H, O>(
    p: Seq<Item<C, H, O>>,
    q: Seq<Item<C, H, O>>,
    slots: Seq<Option<TaskView<C, H, O>>>,
)
    requires
        ordered(p),
        ordered(q),
        drawn_from(p, slots),
        drawn_from(q, slots),
        covers(p, slots),
        covers(q, slots),
    ensures
        p == q,
    decreases p.len(),
{
    if p.len() == 0 {
        if q.len() > 0 {
            let k = q[0].index as int;
            assert(slots[k] is Some);
        }
        assert(p =~= q);
    } else {
        let k = p[0].index as int;
        assert(slots[k] is Some);
        let j = choose|j: int| 0 <= j < q.len() && (#[trigger] q[j]).index == k;
        assert(q[j] == p[0]);
        let m = q[0].index as int;
        assert(slots[m] is Some);
        let i = choose|i: int| 0 <= i < p.len() && (#[trigger] p[i]).index == m;
        assert(p[i] == q[0]);
        if j > 0 {
            assert(served_before(q[0], q[j]));
            if i > 0 {
                assert(served_before(p[0], p[i]));
            }
        }
        assert(j == 0);
        let rest = slots.update(k, None);
        let pt = p.drop_first();
        let qt = q.drop_first();
        assert forall|a: int, b: int| 0 <= a < b < pt.len() implies served_before(
            #[trigger] pt[a],
            #[trigger] pt[b],
        ) by {
            assert(served_before(p[a + 1], p[b + 1]));
        }
        assert forall|a: int, b: int| 0 <= a < b < qt.len() implies served_before(
            #[trigger] qt[a],
            #[trigger] qt[b],
        ) by {
            assert(served_before(q[a + 1], q[b + 1]));
        }
        assert forall|a: int| 0 <= a < pt.len() implies (#[trigger] pt[a]).index < rest.len()
            && rest[pt[a].index as int] == Some(pt[a].task) by {
            assert(pt[a] == p[a + 1]);
            assert(served_before(p[0], p[a + 1]));
            assert(slots[p[a + 1].index as int] == Some(p[a + 1].task));
        }
        assert forall|a: int| 0 <= a < qt.len() implies (#[trigger] qt[a]).index < rest.len()
            && rest[qt[a].index as int] == Some(qt[a].task) by {
            assert(qt[a] == q[a + 1]);
            assert(served_before(q[0], q[a + 1]));
            assert(slots[q[a + 1].index as int] == Some(q[a + 1].task));
        }
        assert forall|n: int| 0 <= n < rest.len() && (#[trigger] rest[n]) is Some implies exists|
            a: int,
        | 0 <= a < pt.len() && (#[trigger] pt[a]).index == n by {
            assert(slots[n] is Some);
            let a = choose|a: int| 0 <= a < p.len() && (#[trigger] p[a]).index == n;
            assert(pt[a - 1] == p[a]);
        }
        assert forall|n: int| 0 <= n < rest.len() && (#[trigger] rest[n]) is Some implies exists|
            a: int,
        | 0 <= a < qt.len() && (#[trigger] qt[a]).index == n by {
            assert(slots[n] is Some);
            let a = choose|a: int| 0 <= a < q.len() && (#[trigger] q[a]).index == n;
            assert(qt[a - 1] == q[a]);
        }
        lemma_order_of_service_is_unique(pt, qt, rest);
        assert(p =~= seq![p[0]] + pt);
        assert(q =~= seq![q[0]] + qt);
    }
}

impl<C, H, O> State<C, H, O> {
    /// Taking up the agenda of a block keeps the invariant.
    pub proof fn lemma_begin_cycle(self, block: BlockNumber, limit: Weight)
        requires
            self.inv(),
        ensures
            self.begin_cycle(block, limit).0.inv(),
    {
        if self.begin_cycle(block, limit).1 {
            let t = self.begin_cycle(block, limit).0;
            let slots = self.agenda[block];
            lemma_service_order(slots);
            assert forall|a: Address| #[trigger] t.slot_ok(a) by {
                assert(self.slot_ok(a));
            }
            assert forall|i: int| 0 <= i < t.queue.len() implies t.item_ok(
                #[trigger] t.queue[i],
            ) by {
                let a = Address { block, index: t.queue[i].index };
                assert(self.live(a));
                assert(self.slot_ok(a));
            }
            assert forall|n: Seq<u8>| #[trigger] t.names.contains_key(n) implies t.bears(
                t.names[n],
                n,
            ) by {
                let a = self.names[n];
                assert(self.bears(a, n));
                assert(self.live(a) && self.task_at(a).name == Some(n));
                if a.block == block {
                    assert(slots[a.index as int] is Some);
                    let i = choose|i: int|
                        0 <= i < t.queue.len() && (#[trigger] t.queue[i]).index == a.index;
                    assert(t.queue[i].task.name == Some(n));
                } else {
                    assert(t.live(a));
                }
            }
            assert forall|i: int, j: int| 0 <= i < j < t.queue.len() implies served_before(
                #[trigger] t.queue[i],
                #[trigger] t.queue[j],
            ) && t.queue[i].index != t.queue[j].index by {
                assert(slots[t.queue[i].index as int] == Some(t.queue[i].task));
                assert(slots[t.queue[j].index as int] == Some(t.queue[j].task));
            }
            assert forall|k: BlockNumber| (#[trigger] t.agenda[k]).len() <= MAX_SLOTS by {
                assert(self.agenda[k].len() <= MAX_SLOTS);
            }
        }
    }

    /// The head leaving the queue keeps the invariant.
    pub proof fn lemma_pop(self)
        requires
            self.inv(),
            self.queue.len() > 0,
        ensures
            self.pop().inv(),
            self.pop().agenda == self.agenda,
            self.queue[0].task.name matches Some(n) ==> !self.pop().names.contains_key(n),
    {
        let t = self.pop();
        let head = self.queue[0];
        assert(self.item_ok(head));
        assert forall|a: Address| #[trigger] t.slot_ok(a) by {
            assert(self.slot_ok(a));
        }
        assert forall|i: int| 0 <= i < t.queue.len() implies t.item_ok(#[trigger] t.queue[i]) by {
            assert(t.queue[i] == self.queue[i + 1]);
            assert(self.item_ok(self.queue[i + 1]));
            assert(served_before(self.queue[0], self.queue[i + 1]));
        }
        assert forall|n: Seq<u8>| #[trigger] t.names.contains_key(n) implies t.bears(
            t.names[n],
            n,
        ) by {
            let a = self.names[n];
            assert(self.bears(a, n));
            if self.live(a) && self.task_at(a).name == Some(n) {
                assert(t.live(a));
            } else {
                let i = choose|i: int|
                    0 <= i < self.queue.len() && (#[trigger] self.queue[i]).index == a.index
                        && self.queue[i].task.name == Some(n);
                assert(i > 0);
                assert(t.queue[i - 1] == self.queue[i]);
            }
        }
        assert forall|i: int, j: int| 0 <= i < j < t.queue.len() implies served_before(
            #[trigger] t.queue[i],
            #[trigger] t.queue[j],
        ) && t.queue[i].index != t.queue[j].index by {
            assert(t.queue[i] == self.queue[i + 1]);
            assert(t.queue[j] == self.queue[j + 1]);
            assert(served_before(self.queue[i + 1], self.queue[j + 1]));
        }
    }

    /// A call that takes the place of the head's hash keeps the invariant.
    pub proof fn lemma_with_head_call(self, call: MaybeHashed<C, H>)
        requires
            self.inv(),
            self.queue.len() > 0,
            call is Value,
        ensures
            self.with_head_call(call).inv(),
    {
        let t = self.with_head_call(call);
        assert forall|a: Address| #[trigger] t.slot_ok(a) by {
            assert(self.slot_ok(a));
        }
        assert forall|i: int| 0 <= i < t.queue.len() implies t.item_ok(#[trigger] t.queue[i]) by {
            assert(self.item_ok(self.queue[i]));
        }
        assert forall|n: Seq<u8>| #[trigger] t.names.contains_key(n) implies t.bears(
            t.names[n],
            n,
        ) by {
            let a = self.names[n];
            assert(self.bears(a, n));
            if self.live(a) && self.task_at(a).name == Some(n) {
                assert(t.live(a));
            } else {
                let i = choose|i: int|
                    0 <= i < self.queue.len() && (#[trigger] self.queue[i]).index == a.index
                        && self.queue[i].task.name == Some(n);
                assert(t.queue[i].index == a.index && t.queue[i].task.name == Some(n));
            }
        }
        assert forall|i: int, j: int| 0 <= i < j < t.queue.len() implies served_before(
            #[trigger] t.queue[i],
            #[trigger] t.queue[j],
        ) && t.queue[i].index != t.queue[j].index by {
            assert(served_before(self.queue[i], self.queue[j]));
        }
    }

    /// The head leaving the queue unserved keeps the invariant.
    pub proof fn lemma_postpone(self, task: TaskView<C, H, O>, cause: Deferral)
        requires
            self.inv(),
            self.queue.len() > 0,
            task.name == self.queue[0].task.name,
        ensures
            self.postpone(task, cause).0.inv(),
    {
        self.lemma_pop();
        if self.can_carry() {
            self.pop().lemma_place((self.now + 1) as u64, self.carried(task));
        }
    }

    /// An answer to a lookup keeps the invariant.
    pub proof fn lemma_on_preimage(self, lookup: Result<C, LookupError>)
        requires
            self.inv(),
        ensures
            self.on_preimage(lookup).0.inv(),
    {
        if self.queue.len() > 0 && self.queue[0].task.call is Hash {
            let head = self.queue[0];
            match lookup {
                Ok(c) => {
                    self.lemma_with_head_call(MaybeHashed::Value(c));
                },
                Err(LookupError::Unknown) => {
                    self.lemma_postpone(head.task, Deferral::Unresolved(LookupError::Unknown));
                },
                Err(LookupError::BadFormat) => {
                    if head.task.retries < self.retry_limit {
                        self.lemma_postpone(
                            TaskView { retries: (head.task.retries + 1) as u32, ..head.task },
                            Deferral::Unresolved(LookupError::BadFormat),
                        );
                    } else {
                        self.lemma_pop();
                    }
                },
            }
        }
    }

    /// A weight keeps the invariant.
    pub proof fn lemma_on_weight(self, weight: Weight)
        requires
            self.inv(),
        ensures
            self.on_weight(weight).0.inv(),
    {
        if !(self.queue.len() == 0 || self.queue[0].task.call is Hash || self.admitted) {
            if admits(self.queue[0].task.priority, self.used, self.limit, weight) {
                let t = self.on_weight(weight).0;
                assert forall|a: Address| #[trigger] t.slot_ok(a) by {
                    assert(self.slot_ok(a));
                }
                assert forall|i: int| 0 <= i < t.queue.len() implies t.item_ok(
                    #[trigger] t.queue[i],
                ) by {
                    assert(self.item_ok(self.queue[i]));
                }
                assert forall|n: Seq<u8>| #[trigger] t.names.contains_key(n) implies t.bears(
                    t.names[n],
                    n,
                ) by {
                    assert(self.bears(self.names[n], n));
                }
            } else {
                self.lemma_postpone(self.queue[0].task, Deferral::Overweight);
            }
        }
    }

    /// The end of a dispatch keeps the invariant.
    pub proof fn lemma_on_dispatched(self, ok: bool, consumed: Weight)
        requires
            self.inv(),
        ensures
            self.on_dispatched(ok, consumed).0.inv(),
    {
        if self.queue.len() > 0 && self.admitted {
            let head = self.queue[0];
            self.lemma_pop();
            let done = State { used: add_weight(self.used, consumed), ..self.pop() };
            assert(done.inv()) by {
                let p = self.pop();
                assert forall|a: Address| #[trigger] done.slot_ok(a) by {
                    assert(p.slot_ok(a));
                }
                assert forall|i: int| 0 <= i < done.queue.len() implies done.item_ok(
                    #[trigger] done.queue[i],
                ) by {
                    assert(p.item_ok(p.queue[i]));
                }
                assert forall|n: Seq<u8>| #[trigger] done.names.contains_key(n) implies done.bears(
                    done.names[n],
                    n,
                ) by {
                    assert(p.bears(p.names[n], n));
                }
            }
            assert(self.item_ok(head));
            match renewed(head.task) {
                Some(next) => {
                    if done.has_room(next.schedule.target_block) {
                        done.lemma_place(next.schedule.target_block, next);
                    }
                },
                None => {},
            }
        }
    }
}

} // verus!
