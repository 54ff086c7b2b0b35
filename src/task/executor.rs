//! A single-threaded cooperative executor.
//!
//! Ready tasks wait, by id, in a bounded FIFO queue. Each pass takes the ids
//! off the queue in order and polls the tasks they name; a task that
//! completes leaves the table together with its cached waker, one that is
//! pending stays until a waker puts its id back on the queue.
use vstd::prelude::*;

use crossbeam_queue::ArrayQueue;
use std::collections::BTreeMap;

use super::{Poll, Task, TaskId, TaskWaker};

verus! {

/// Slots of the ready queue.
pub const TASK_QUEUE_CAPACITY: usize = 100;

/// crossbeam_queue's bounded queue, opaque here: what it holds is named by
/// `queue_items` and `queue_capacity`.
#[verifier::external_type_specification]
#[verifier::external_body]
#[verifier::reject_recursive_types(T)]
pub struct ExArrayQueue<T>(ArrayQueue<T>);

/// The ids waiting in a queue, oldest first.
pub uninterp spec fn queue_items(q: ArrayQueue<u64>) -> Seq<u64>;

/// The number of slots a queue was made with.
pub uninterp spec fn queue_capacity(q: ArrayQueue<u64>) -> nat;

/// Relies on crossbeam_queue's `ArrayQueue::new`: an empty queue with `cap`
/// slots. It panics on a capacity of zero.
#[verifier::external_body]
fn new_queue(cap: usize) -> (q: ArrayQueue<u64>)
    requires
        0 < cap <= TASK_QUEUE_CAPACITY,
    ensures
        queue_items(q) == Seq::<u64>::empty(),
        queue_capacity(q) == cap,
{
    ArrayQueue::new(cap)
}

/// Relies on crossbeam_queue's `ArrayQueue::push_mut`: appends `v` unless
/// every slot is taken, in which case `v` comes back as the error.
#[verifier::external_body]
fn queue_push(q: &mut ArrayQueue<u64>, v: u64) -> (r: Result<(), u64>)
    ensures
        match r {
            Ok(()) => {
                &&& queue_items(*old(q)).len() < queue_capacity(*old(q))
                &&& queue_items(*final(q)) == queue_items(*old(q)).push(v)
                &&& queue_capacity(*final(q)) == queue_capacity(*old(q))
            },
            Err(back) => {
                &&& queue_items(*old(q)).len() >= queue_capacity(*old(q))
                &&& back == v
                &&& queue_items(*final(q)) == queue_items(*old(q))
                &&& queue_capacity(*final(q)) == queue_capacity(*old(q))
            },
        },
{
    q.push_mut(v)
}

/// Relies on crossbeam_queue's `ArrayQueue::pop_mut`: takes the oldest item
/// off the queue, `None` when it is empty.
#[verifier::external_body]
fn queue_pop(q: &mut ArrayQueue<u64>) -> (r: Option<u64>)
    ensures
        match r {
            None => {
                &&& queue_items(*old(q)).len() == 0
                &&& queue_items(*final(q)) == queue_items(*old(q))
                &&& queue_capacity(*final(q)) == queue_capacity(*old(q))
            },
            Some(v) => {
                &&& queue_items(*old(q)).len() > 0
                &&& v == queue_items(*old(q))[0]
                &&& queue_items(*final(q)) == queue_items(*old(q)).drop_first()
                &&& queue_capacity(*final(q)) == queue_capacity(*old(q))
            },
        },
{
    q.pop_mut()
}

/// Relies on crossbeam_queue's `ArrayQueue::is_empty`.
#[verifier::external_body]
fn queue_is_empty(q: &ArrayQueue<u64>) -> (r: bool)
    ensures
        r == (queue_items(*q).len() == 0),
{
    q.is_empty()
}

/// Relies on crossbeam_queue's `ArrayQueue::is_full`.
#[verifier::external_body]
fn queue_is_full(q: &ArrayQueue<u64>) -> (r: bool)
    ensures
        r == (queue_items(*q).len() == queue_capacity(*q)),
{
    q.is_full()
}

/// Whether a pass over the ready queue `queue`, starting with the tasks
/// `live` in the table, polls the tasks in the order `log`: entries are
/// taken in queue order, an entry whose task is gone is passed over, and an
/// entry whose task is there is polled; after the poll the task is either
/// still there (pending) or gone (completed).
pub open spec fn valid_pass(queue: Seq<u64>, live: Set<u64>, log: Seq<u64>) -> bool
    decreases queue.len(),
{
    if queue.len() == 0 {
        log.len() == 0
    } else if !live.contains(queue[0]) {
        valid_pass(queue.drop_first(), live, log)
    } else {
        &&& log.len() > 0
        &&& log[0] == queue[0]
        &&& (valid_pass(queue.drop_first(), live, log.drop_first()) || valid_pass(
            queue.drop_first(),
            live.remove(queue[0]),
            log.drop_first(),
        ))
    }
}

/// A queue whose entries all name no task gives a pass that polls nothing.
proof fn lemma_pass_all_dead(queue: Seq<u64>, live: Set<u64>)
    requires
        forall|j: int| 0 <= j < queue.len() ==> !live.contains(#[trigger] queue[j]),
    ensures
        valid_pass(queue, live, Seq::empty()),
    decreases queue.len(),
{
    if queue.len() > 0 {
        assert(!live.contains(queue[0]));
        assert forall|j: int| 0 <= j < queue.drop_first().len() implies !live.contains(
            #[trigger] queue.drop_first()[j],
        ) by {
            assert(queue.drop_first()[j] == queue[j + 1]);
        }
        lemma_pass_all_dead(queue.drop_first(), live);
    }
}

/// Passing over dead entries up to the first live one at `i`, polling it,
/// then going on from `i + 1`.
proof fn lemma_pass_step(queue: Seq<u64>, live: Set<u64>, i: int, after: Set<u64>, rest: Seq<u64>)
    requires
        0 <= i < queue.len(),
        live.contains(queue[i]),
        forall|j: int| 0 <= j < i ==> !live.contains(#[trigger] queue[j]),
        after == live || after == live.remove(queue[i]),
        valid_pass(queue.subrange(i + 1, queue.len() as int), after, rest),
    ensures
        valid_pass(queue, live, seq![queue[i]] + rest),
    decreases i,
{
    let log = seq![queue[i]] + rest;
    if i == 0 {
        assert(log.drop_first() =~= rest);
        assert(queue.drop_first() =~= queue.subrange(1, queue.len() as int));
    } else {
        let tail = queue.drop_first();
        assert(!live.contains(queue[0]));
        assert(tail.subrange(i, tail.len() as int) =~= queue.subrange(i + 1, queue.len() as int));
        assert forall|j: int| 0 <= j < i - 1 implies !live.contains(#[trigger] tail[j]) by {
            assert(tail[j] == queue[j + 1]);
        }
        assert(tail[i - 1] == queue[i]);
        lemma_pass_step(tail, live, i - 1, after, rest);
    }
}

/// `i` is the first position of `queue` whose id names a task of `tasks`.
pub open spec fn is_first_live<T>(queue: Seq<u64>, tasks: Map<u64, T>, i: int) -> bool {
    &&& 0 <= i < queue.len()
    &&& tasks.contains_key(queue[i])
    &&& forall|j: int| 0 <= j < i ==> !tasks.contains_key(#[trigger] queue[j])
}

/// The cached wakers after a waker for `id` was looked up, and made if
/// missing.
pub open spec fn with_waker(wakers: Map<u64, TaskWaker>, id: u64) -> Map<u64, TaskWaker> {
    if wakers.contains_key(id) {
        wakers
    } else {
        wakers.insert(id, TaskWaker { task_id: TaskId(id) })
    }
}

/// The executor: tasks by id, the ready queue of ids, and one cached waker
/// per task that was polled.
pub struct Executor<T> {
    tasks: BTreeMap<u64, T>,
    task_queue: ArrayQueue<u64>,
    waker_cache: BTreeMap<u64, TaskWaker>,
    currently_running: Option<u64>,
    /// The ids of the tasks handed out for polling so far, in order.
    poll_log: Ghost<Seq<u64>>,
}

impl<T> Executor<T> {
    /// The tasks, by id.
    pub closed spec fn tasks(&self) -> Map<u64, T> {
        self.tasks@
    }

    /// The ids waiting to be polled, oldest first.
    pub closed spec fn queue(&self) -> Seq<u64> {
        queue_items(self.task_queue)
    }

    pub closed spec fn capacity(&self) -> nat {
        queue_capacity(self.task_queue)
    }

    /// The wakers made so far, by task id.
    pub closed spec fn wakers(&self) -> Map<u64, TaskWaker> {
        self.waker_cache@
    }

    /// The task being polled, if any.
    pub closed spec fn running(&self) -> Option<u64> {
        self.currently_running
    }

    /// The ids of the tasks handed out for polling so far, in order.
    pub closed spec fn polled(&self) -> Seq<u64> {
        self.poll_log@
    }

    /// Each cached waker names the task it is cached for.
    pub open spec fn wf(&self) -> bool {
        forall|id: u64| #[trigger]
            self.wakers().contains_key(id) ==> self.wakers()[id] == TaskWaker { task_id: TaskId(id) }
    }

    /// An executor with no task and an empty queue of
    /// `TASK_QUEUE_CAPACITY` slots.
    pub fn new() -> (r: Executor<T>)
        ensures
            r.wf(),
            r.tasks() == Map::<u64, T>::empty(),
            r.queue() == Seq::<u64>::empty(),
            r.capacity() == TASK_QUEUE_CAPACITY,
            r.wakers() == Map::<u64, TaskWaker>::empty(),
            r.running() is None,
            r.polled() == Seq::<u64>::empty(),
    {
        Executor {
            tasks: BTreeMap::new(),
            task_queue: new_queue(TASK_QUEUE_CAPACITY),
            waker_cache: BTreeMap::new(),
            currently_running: None,
            poll_log: Ghost(Seq::empty()),
        }
    }

    /// Stores `task` under `id` and puts `id` on the ready queue. A
    /// duplicate id and a full queue are fatal: the caller rules both out
    /// (`contains_task`, `is_full`).
    pub fn spawn(&mut self, id: TaskId, task: T)
        requires
            old(self).wf(),
            !old(self).tasks().contains_key(id.0),
            old(self).queue().len() < old(self).capacity(),
        ensures
            final(self).wf(),
            final(self).tasks() == old(self).tasks().insert(id.0, task),
            final(self).queue() == old(self).queue().push(id.0),
            final(self).wakers() == old(self).wakers(),
            final(self).running() == old(self).running(),
            final(self).capacity() == old(self).capacity(),
            final(self).polled() == old(self).polled(),
    {
        self.tasks.insert(id.0, task);
        assert(self.wakers() == old(self).wakers());
        assert(self.wf());
        match queue_push(&mut self.task_queue, id.0) {
            Ok(()) => {},
            Err(_) => {
                assert(false);
            },
        }
    }

    /// Puts the task that `waker` names back on the ready queue. A full
    /// queue is fatal: the caller rules it out (`is_full`).
    pub fn wake(&mut self, waker: &TaskWaker)
        requires
            old(self).queue().len() < old(self).capacity(),
        ensures
            final(self).tasks() == old(self).tasks(),
            final(self).wakers() == old(self).wakers(),
            final(self).running() == old(self).running(),
            final(self).capacity() == old(self).capacity(),
            final(self).polled() == old(self).polled(),
            final(self).queue() == old(self).queue().push(waker.task_id.0),
    {
        match queue_push(&mut self.task_queue, waker.task_id.0) {
            Ok(()) => {},
            Err(_) => {
                assert(false);
            },
        }
    }

    /// Wakes the task being polled, if it has a cached waker. A full queue
    /// is fatal: the caller rules it out.
    pub fn requeue_current_task(&mut self)
        requires
            old(self).queue().len() < old(self).capacity(),
        ensures
            final(self).tasks() == old(self).tasks(),
            final(self).wakers() == old(self).wakers(),
            final(self).running() == old(self).running(),
            final(self).capacity() == old(self).capacity(),
            final(self).polled() == old(self).polled(),
            ({
                let woken = match old(self).running() {
                    Some(id) => old(self).wakers().contains_key(id),
                    None => false,
                };
                &&& !woken ==> final(self).queue() == old(self).queue()
                &&& woken ==> final(self).queue() == old(self).queue().push(
                    old(self).wakers()[old(self).running()->Some_0].task_id.0,
                )
            }),
    {
        if let Some(current) = self.currently_running {
            if let Some(waker) = self.waker_cache.get(&current) {
                let w = *waker;
                self.wake(&w);
            }
        }
    }

    /// Whether the ready queue has no free slot.
    pub fn is_full(&self) -> (r: bool)
        ensures
            r == (self.queue().len() == self.capacity()),
    {
        queue_is_full(&self.task_queue)
    }

    /// Whether the ready queue is empty, so that the processor may halt
    /// until the next interrupt.
    pub fn is_idle(&self) -> (r: bool)
        ensures
            r == (self.queue().len() == 0),
    {
        queue_is_empty(&self.task_queue)
    }

    /// Whether a task with id `id` is in the table.
    pub fn contains_task(&self, id: TaskId) -> (r: bool)
        ensures
            r == self.tasks().contains_key(id.0),
    {
        self.tasks.contains_key(&id.0)
    }

    /// Whether a waker for task `id` is cached.
    pub fn has_cached_waker(&self, id: TaskId) -> (r: bool)
        ensures
            r == self.wakers().contains_key(id.0),
    {
        self.waker_cache.contains_key(&id.0)
    }

    /// Takes ids off the ready queue until one names a task, and takes that
    /// task out of the table to be polled, with its waker cached and the
    /// task marked as running. `None` when the queue runs dry first.
    fn next_ready(&mut self) -> (r: Option<(u64, T)>)
        requires
            old(self).wf(),
        ensures
            final(self).wf(),
            final(self).capacity() == old(self).capacity(),
            match r {
                Some((id, task)) => exists|i: int|
                    {
                        &&& is_first_live(old(self).queue(), old(self).tasks(), i)
                        &&& old(self).queue()[i] == id
                        &&& task == old(self).tasks()[id]
                        &&& final(self).queue() == old(self).queue().subrange(
                            i + 1,
                            old(self).queue().len() as int,
                        )
                        &&& final(self).tasks() == old(self).tasks().remove(id)
                        &&& final(self).wakers() == with_waker(old(self).wakers(), id)
                        &&& final(self).running() == Some(id)
                        &&& final(self).polled() == old(self).polled().push(id)
                    },
                None => {
                    &&& forall|j: int|
                        0 <= j < old(self).queue().len() ==> !old(self).tasks().contains_key(
                            #[trigger] old(self).queue()[j],
                        )
                    &&& final(self).queue() == Seq::<u64>::empty()
                    &&& final(self).tasks() == old(self).tasks()
                    &&& final(self).wakers() == old(self).wakers()
                    &&& final(self).running() == old(self).running()
                    &&& final(self).polled() == old(self).polled()
                },
            },
    {
        let ghost q0 = self.queue();
        let ghost i: int = 0;
        loop
            invariant
                self.wf(),
                self.tasks() == old(self).tasks(),
                self.wakers() == old(self).wakers(),
                self.running() == old(self).running(),
                self.capacity() == old(self).capacity(),
                self.polled() == old(self).polled(),
                q0 == old(self).queue(),
                0 <= i <= q0.len(),
                self.queue() == q0.subrange(i, q0.len() as int),
                forall|j: int| 0 <= j < i ==> !self.tasks().contains_key(#[trigger] q0[j]),
            decreases q0.len() - i,
        {
            match queue_pop(&mut self.task_queue) {
                None => {
                    assert(i == q0.len());
                    return None;
                },
                Some(id) => {
                    assert(q0[i] == id);
                    if self.tasks.contains_key(&id) {
                        let task = self.tasks.remove(&id).unwrap();
                        if !self.waker_cache.contains_key(&id) {
                            self.waker_cache.insert(id, TaskWaker::new(TaskId(id)));
                        }
                        self.currently_running = Some(id);
                        self.poll_log = Ghost(self.poll_log@.push(id));
                        assert(is_first_live(q0, old(self).tasks(), i));
                        assert(self.queue() =~= q0.subrange(i + 1, q0.len() as int));
                        return Some((id, task));
                    }
                    proof {
                        i = i + 1;
                        assert(self.queue() =~= q0.subrange(i, q0.len() as int));
                    }
                },
            }
        }
    }

    /// Records the outcome of polling `task`, taken out under `id`: a
    /// completed task is dropped with its cached waker, a pending one goes
    /// back into the table. Nothing runs afterwards.
    pub fn finish_poll(&mut self, id: u64, task: T, outcome: Poll)
        requires
            old(self).wf(),
        ensures
            final(self).wf(),
            final(self).queue() == old(self).queue(),
            final(self).capacity() == old(self).capacity(),
            final(self).running() is None,
            final(self).polled() == old(self).polled(),
            outcome == Poll::Ready ==> {
                &&& final(self).tasks() == old(self).tasks().remove(id)
                &&& final(self).wakers() == old(self).wakers().remove(id)
            },
            outcome == Poll::Pending ==> {
                &&& final(self).tasks() == old(self).tasks().insert(id, task)
                &&& final(self).wakers() == old(self).wakers()
            },
    {
        match outcome {
            Poll::Ready => {
                self.tasks.remove(&id);
                self.waker_cache.remove(&id);
                assert(self.wakers() == old(self).wakers().remove(id));
            },
            Poll::Pending => {
                self.tasks.insert(id, task);
                assert(self.wakers() == old(self).wakers());
            },
        }
        self.currently_running = None;
        assert(self.wf());
    }
}

impl<T: Task> Executor<T> {
    /// Drains the ready queue: the entries are taken in queue order, each
    /// one whose task is still in the table has that task polled once, and
    /// entries of finished tasks are passed over. Tasks that complete leave
    /// the table with their cached wakers; pending ones stay, with a cached
    /// waker. Tasks that were not queued, and the cached wakers of ids that
    /// name no task, are left as they were. No task runs afterwards.
    pub fn run_ready_tasks(&mut self)
        requires
            old(self).wf(),
        ensures
            final(self).wf(),
            final(self).queue() == Seq::<u64>::empty(),
            final(self).capacity() == old(self).capacity(),
            final(self).running() is None,
            final(self).polled().len() >= old(self).polled().len(),
            final(self).polled().take(old(self).polled().len() as int) == old(self).polled(),
            valid_pass(
                old(self).queue(),
                old(self).tasks().dom(),
                final(self).polled().skip(old(self).polled().len() as int),
            ),
            forall|id: u64| #[trigger]
                final(self).tasks().contains_key(id) ==> old(self).tasks().contains_key(id),
            forall|id: u64|
                #![trigger old(self).tasks().contains_key(id)]
                old(self).tasks().contains_key(id) && !old(self).queue().contains(id) ==> {
                    &&& final(self).tasks().contains_key(id)
                    &&& final(self).tasks()[id] == old(self).tasks()[id]
                    &&& final(self).wakers().contains_key(id) == old(self).wakers().contains_key(
                        id,
                    )
                },
            forall|id: u64|
                #![trigger final(self).tasks().contains_key(id)]
                final(self).tasks().contains_key(id) && old(self).queue().contains(id)
                    ==> final(self).wakers().contains_key(id),
            forall|id: u64|
                #![trigger old(self).tasks().contains_key(id)]
                old(self).tasks().contains_key(id) && !final(self).tasks().contains_key(id)
                    ==> !final(self).wakers().contains_key(id),
            forall|id: u64|
                #![trigger old(self).wakers().contains_key(id)]
                !old(self).tasks().contains_key(id) ==> final(self).wakers().contains_key(id)
                    == old(self).wakers().contains_key(id),
    {
        let ghost q0 = self.queue();
        let ghost t0 = self.tasks();
        let ghost w0 = self.wakers();
        let ghost p0 = self.polled();
        let ghost c: int = 0;
        assert(self.polled().skip(p0.len() as int) =~= Seq::<u64>::empty());
        assert(q0.subrange(0, q0.len() as int) =~= q0);
        loop
            invariant
                self.wf(),
                self.capacity() == old(self).capacity(),
                q0 == old(self).queue(),
                t0 == old(self).tasks(),
                w0 == old(self).wakers(),
                p0 == old(self).polled(),
                0 <= c <= q0.len(),
                self.queue() == q0.subrange(c, q0.len() as int),
                self.polled().len() >= p0.len(),
                self.polled().take(p0.len() as int) == p0,
                forall|rest: Seq<u64>|
                    #[trigger] valid_pass(self.queue(), self.tasks().dom(), rest) ==> valid_pass(
                        q0,
                        t0.dom(),
                        self.polled().skip(p0.len() as int) + rest,
                    ),
                forall|id: u64| #[trigger] self.tasks().contains_key(id) ==> t0.contains_key(id),
                forall|id: u64|
                    #![trigger t0.contains_key(id)]
                    t0.contains_key(id) && !q0.subrange(0, c).contains(id) ==> {
                        &&& self.tasks().contains_key(id)
                        &&& self.tasks()[id] == t0[id]
                        &&& self.wakers().contains_key(id) == w0.contains_key(id)
                    },
                forall|id: u64|
                    #![trigger self.tasks().contains_key(id)]
                    self.tasks().contains_key(id) && q0.subrange(0, c).contains(id)
                        ==> self.wakers().contains_key(id),
                forall|id: u64|
                    #![trigger t0.contains_key(id)]
                    t0.contains_key(id) && !self.tasks().contains_key(id)
                        ==> !self.wakers().contains_key(id),
                forall|id: u64|
                    #![trigger w0.contains_key(id)]
                    !t0.contains_key(id) ==> self.wakers().contains_key(id) == w0.contains_key(id),
            decreases q0.len() - c,
        {
            let ghost before = self.queue();
            let ghost tb = self.tasks();
            let ghost wb = self.wakers();
            let ghost lb = self.polled();
            match self.next_ready() {
                None => {
                    proof {
                        assert forall|id: u64|
                            #![trigger t0.contains_key(id)]
                            t0.contains_key(id) && !q0.subrange(0, q0.len() as int).contains(
                                id,
                            ) implies {
                            &&& self.tasks().contains_key(id)
                            &&& self.tasks()[id] == t0[id]
                            &&& self.wakers().contains_key(id) == w0.contains_key(id)
                        } by {
                            if q0.subrange(0, c).contains(id) {
                                let j = choose|j: int| 0 <= j < c && q0.subrange(0, c)[j] == id;
                                assert(q0.subrange(0, q0.len() as int)[j] == id);
                            }
                        }
                        assert forall|id: u64|
                            #![trigger self.tasks().contains_key(id)]
                            self.tasks().contains_key(id) && q0.subrange(
                                0,
                                q0.len() as int,
                            ).contains(id) implies self.wakers().contains_key(id) by {
                            let j = choose|j: int|
                                0 <= j < q0.len() && q0.subrange(0, q0.len() as int)[j] == id;
                            if j >= c {
                                assert(before[j - c] == id);
                                assert(!tb.contains_key(before[j - c]));
                            } else {
                                assert(q0.subrange(0, c)[j] == id);
                            }
                        }
                        assert(q0.subrange(0, q0.len() as int) =~= q0);
                        lemma_pass_all_dead(before, tb.dom());
                        assert(valid_pass(before, tb.dom(), Seq::<u64>::empty()));
                        assert(self.polled().skip(p0.len() as int) + Seq::<u64>::empty()
                            =~= self.polled().skip(p0.len() as int));
                    }
                    self.currently_running = None;
                    return;
                },
                Some((id, mut task)) => {
                    let ghost i = choose|i: int|
                        {
                            &&& is_first_live(before, tb, i)
                            &&& before[i] == id
                            &&& task == tb[id]
                            &&& self.queue() == before.subrange(i + 1, before.len() as int)
                            &&& self.tasks() == tb.remove(id)
                            &&& self.wakers() == with_waker(wb, id)
                            &&& self.running() == Some(id)
                            &&& self.polled() == lb.push(id)
                        };
                    let waker = TaskWaker::new(TaskId(id));
                    let outcome = task.poll(&waker);
                    self.finish_poll(id, task, outcome);
                    proof {
                        let after = self.tasks().dom();
                        if outcome == Poll::Pending {
                            assert(after =~= tb.dom());
                        } else {
                            assert(after =~= tb.dom().remove(id));
                        }
                        assert forall|rest: Seq<u64>|
                            #[trigger] valid_pass(self.queue(), self.tasks().dom(), rest)
                                implies valid_pass(
                                q0,
                                t0.dom(),
                                self.polled().skip(p0.len() as int) + rest,
                            ) by {
                            assert forall|j: int| 0 <= j < i implies !tb.dom().contains(
                                #[trigger] before[j],
                            ) by {}
                            lemma_pass_step(before, tb.dom(), i, after, rest);
                            assert(before[i] == id);
                            assert(valid_pass(before, tb.dom(), seq![id] + rest));
                            assert(self.polled().skip(p0.len() as int) + rest
                                =~= lb.skip(p0.len() as int) + (seq![id] + rest));
                        }
                        assert(self.polled().take(p0.len() as int) =~= p0);
                        let c2 = c + i + 1;
                        let taken = q0.subrange(0, c2);
                        assert(self.queue() =~= q0.subrange(c2, q0.len() as int));
                        assert(taken[c + i] == id);
                        assert forall|x: u64| #[trigger]
                            q0.subrange(0, c).contains(x) implies taken.contains(x) by {
                            if q0.subrange(0, c).contains(x) {
                                let j = choose|j: int| 0 <= j < c && q0.subrange(0, c)[j] == x;
                                assert(taken[j] == x);
                            }
                        }
                        assert forall|x: u64| #[trigger]
                            taken.contains(x) && !q0.subrange(0, c).contains(x) && x != id
                                implies !tb.contains_key(x) by {
                            if taken.contains(x) && !q0.subrange(0, c).contains(x) && x != id {
                                let j = choose|j: int| 0 <= j < c2 && taken[j] == x;
                                if j < c {
                                    assert(q0.subrange(0, c)[j] == x);
                                } else {
                                    assert(before[j - c] == x);
                                    assert(j - c < i);
                                }
                            }
                        }
                        c = c2;
                    }
                },
            }
        }
    }
}

} // verus!
