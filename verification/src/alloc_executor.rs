//! Dynamic `alloc`-backed executor
//!
//! The queue is shared: wakers and spawners add to it, from other threads or
//! from interrupts, while the executor takes items out. How it is shared is left
//! to the platform. The types here hold a handle of type `H`, and each operation
//! on the queue takes the queue itself, as locking it through the handle gives
//! it. No operation that polls a future has the queue, so a future is free to
//! wake tasks and to spawn more of them.

use core::future::Future;
use core::task::Waker;
use std::collections::VecDeque;

use futures::task::FutureObj;
use vstd::prelude::*;

use crate::core_traits::{Alarm, QueueWaker, Sleep};
use crate::future_box::{make_obj, poll_future, poll_outcome};
use crate::history::{
    due, follows, goes_on, happened, lemma_follows_on, lemma_goes_on, lemma_orderly_whole,
    nights, one_queue, orderly, performed, state, took_turn, turns, Moment,
};
use crate::laws::{
    completed, law_a_finished_history_is_complete, law_a_history_is_a_run, told,
};
use crate::registry::{Registry, RegistryState, Task, TaskId, MAX_CAPACITY};
use crate::sleeper::{grants, Sleeper};

verus! {

/// Default registry capacity.
pub const REG_CAP: usize = 16;

/// Default queue capacity.
pub const QUEUE_CAP: usize = 16;

/// Something for the executor to do.
pub enum QueueItem<'a> {
    /// Poll the task with this identifier.
    Poll(TaskId),
    /// Register this future as a new task.
    Spawn(FutureObj<'a, ()>),
}

/// The queue of an executor: first in, first out.
pub struct Queue<'a> {
    items: VecDeque<QueueItem<'a>>,
}

impl<'a> View for Queue<'a> {
    type V = Seq<QueueItem<'a>>;

    closed spec fn view(&self) -> Seq<QueueItem<'a>> {
        self.items@
    }
}

impl<'a> Queue<'a> {
    /// The items are what `VecDeque::with_capacity` makes for `capacity` of them.
    pub closed spec fn has_room(&self, capacity: usize) -> bool {
        call_ensures(VecDeque::<QueueItem<'a>>::with_capacity, (capacity,), self.items)
    }

    /// An empty queue with room for `capacity` items.
    pub fn with_capacity(capacity: usize) -> (queue: Self)
        requires
            capacity <= MAX_CAPACITY,
        ensures
            queue@.len() == 0,
            queue.has_room(capacity),
    {
        Queue { items: VecDeque::with_capacity(capacity) }
    }

    /// Adds an item at the back.
    pub fn push_back(&mut self, item: QueueItem<'a>)
        ensures
            final(self)@ == old(self)@.push(item),
    {
        self.items.push_back(item);
    }

    /// Takes the item at the front, unless the queue is empty.
    pub fn pop_front(&mut self) -> (item: Option<QueueItem<'a>>)
        ensures
            match item {
                Some(item) => {
                    &&& old(self)@.len() > 0
                    &&& item == old(self)@[0]
                    &&& final(self)@ == old(self)@.drop_first()
                },
                None => old(self)@.len() == 0 && final(self)@ == old(self)@,
            },
    {
        self.items.pop_front()
    }
}

/// Queueing the task `id` to be polled takes `queue` to `queue_post`: one item is added at
/// the back, whatever is in the queue.
pub open spec fn queues_poll<'a>(
    queue: Seq<QueueItem<'a>>,
    id: TaskId,
    queue_post: Seq<QueueItem<'a>>,
) -> bool {
    queue_post == queue.push(QueueItem::Poll(id))
}

impl<H, A: Alarm> QueueWaker<H, TaskId, A> {
    /// Queues the task to be polled.
    pub fn wake_queue(&self, queue: &mut Queue<'_>)
        ensures
            queues_poll(old(queue)@, self.id, final(queue)@),
    {
        queue.push_back(QueueItem::Poll(self.id));
    }
}

/// Spawner for an [`AllocExecutor`]
///
/// This can be cloned and passed to an async function to allow it to spawn more
/// tasks.
pub struct Spawner<H>(pub H);

impl<H> Spawner<H> {
    /// Spawn a `FutureObj` into the corresponding `AllocExecutor`
    pub fn spawn_obj<'a>(&self, queue: &mut Queue<'a>, future: FutureObj<'a, ()>)
        ensures
            final(queue)@ == old(queue)@.push(QueueItem::Spawn(future)),
    {
        queue.push_back(QueueItem::Spawn(future));
    }

    /// Spawn a `Future` into the corresponding `AllocExecutor`
    ///
    /// The new item holds what [`make_obj`] makes of `future`.
    pub fn spawn<'a, F>(&self, queue: &mut Queue<'a>, future: F) where
        F: Future<Output = ()> + Send + 'a,

        ensures
            final(queue)@.len() == old(queue)@.len() + 1,
            final(queue)@.drop_last() == old(queue)@,
            final(queue)@.last() is Spawn,
            call_ensures(make_obj::<F, ()>, (future,), final(queue)@.last()->Spawn_0),
    {
        self.spawn_obj(queue, make_obj(future));
    }
}

impl<H: Clone> Clone for Spawner<H> {
    fn clone(&self) -> (spawner: Self)
        ensures
            cloned(self.0, spawner.0),
    {
        Spawner(self.0.clone())
    }
}

/// What came of an attempt to poll a task.
#[derive(Clone, Copy, PartialEq, Eq, Structural, Debug)]
pub enum Polled {
    /// There is no such task.
    Missing,
    /// The task is done and has been removed.
    Ready,
    /// The task is waiting to be woken.
    Pending,
}

/// What the executor wants done next, while it runs.
#[derive(Clone, Copy, PartialEq, Eq, Structural, Debug)]
pub enum Action {
    /// A new task has been registered and queued: go on.
    Spawned(TaskId),
    /// Release the queue and poll the given task.
    Poll(TaskId),
    /// Release the queue and sleep until the alarm rings.
    Sleep,
    /// Every task is done: return.
    Return,
}

/// Spawning `future` as the task `id` takes the registry from `pre` to `post`
/// and the queue from `queue` to `queue_post`: the task has a waker and is queued
/// to be polled.
pub open spec fn spawns<'a>(
    pre: RegistryState<'a>,
    queue: Seq<QueueItem<'a>>,
    future: FutureObj<'a, ()>,
    id: TaskId,
    post: RegistryState<'a>,
    queue_post: Seq<QueueItem<'a>>,
) -> bool {
    &&& post.tasks[id].waker is Some
    &&& pre.inserts(id, Task { future, waker: post.tasks[id].waker }, post)
    &&& queue_post == queue.push(QueueItem::Poll(id))
}

/// `waker` is what `make_waker` makes of the queue waker of the task `id`, which has
/// clones of the handle and of the alarm.
pub open spec fn wakes<H: Clone, A: Clone, M: FnOnce(QueueWaker<H, TaskId, A>) -> Waker>(
    make_waker: M,
    handle: H,
    id: TaskId,
    alarm: A,
    waker: Waker,
) -> bool {
    exists|queue_waker: QueueWaker<H, TaskId, A>|
        {
            &&& cloned(handle, queue_waker.queue)
            &&& queue_waker.id == id
            &&& cloned(alarm, queue_waker.alarm)
            &&& #[trigger] make_waker.ensures((queue_waker,), waker)
        }
}

/// Polling the task `id` takes the registry from `pre` to `post`: a task that is
/// ready is removed, and dropped with the future that this one poll left behind; one
/// that is not stays with that future; and nothing happens if there is no such task.
pub open spec fn polls<'a>(
    pre: RegistryState<'a>,
    id: TaskId,
    polled: Polled,
    post: RegistryState<'a>,
) -> bool {
    let task = pre.tasks[id];
    match polled {
        Polled::Missing => !pre.tasks.contains_key(id) && post == pre,
        Polled::Ready => {
            &&& pre.tasks.contains_key(id)
            &&& exists|after: FutureObj<'a, ()>| #[trigger]
                poll_outcome(task.future, task.waker->0, after, true) && (Task {
                    future: after,
                    waker: task.waker,
                }).is_discarded()
            &&& post == pre.without(id)
        },
        Polled::Pending => {
            &&& pre.tasks.contains_key(id)
            &&& poll_outcome(task.future, task.waker->0, post.tasks[id].future, false)
            &&& post == pre.with_future(id, post.tasks[id].future)
        },
    }
}

/// One turn of a running executor takes the registry from `pre` to `post` and the
/// queue from `queue` to `queue_post`, and asks for `action`.
pub open spec fn steps<'a>(
    pre: RegistryState<'a>,
    queue: Seq<QueueItem<'a>>,
    action: Action,
    post: RegistryState<'a>,
    queue_post: Seq<QueueItem<'a>>,
) -> bool {
    if queue.len() == 0 {
        &&& post == pre
        &&& queue_post == queue
        &&& action == if pre.tasks.is_empty() {
            Action::Return
        } else {
            Action::Sleep
        }
    } else {
        match queue[0] {
            QueueItem::Poll(id) => {
                &&& post == pre
                &&& queue_post == queue.drop_first()
                &&& action == Action::Poll(id)
            },
            QueueItem::Spawn(future) => {
                &&& action is Spawned
                &&& spawns(pre, queue.drop_first(), future, action->Spawned_0, post, queue_post)
            },
        }
    }
}

/// Doing what `action` asks for takes the registry from `pre` to `post`: a task is
/// polled, or nothing changes.
pub open spec fn performs<'a>(
    pre: RegistryState<'a>,
    action: Action,
    post: RegistryState<'a>,
) -> bool {
    match action {
        Action::Poll(id) => exists|polled: Polled| polls(pre, id, polled, post),
        _ => post == pre,
    }
}

/// Alloc-only `Future` executor
///
/// Assuming that the queue is shared through a sound lock, this *should* be
/// safe to use in both embedded and non-embedded scenarios. On embedded devices,
/// it will probably be one that disables/re-enables interrupts. On real OS's,
/// it can be an actual mutex implementation.
///
/// The `Sleep` implementation can be used to put the event loop into a low-power
/// state using something like `cortex_m::wfi/e`.
pub struct AllocExecutor<'a, H, S: Sleep> {
    registry: Registry<'a>,
    queue: H,
    sleeper: Sleeper<S>,
    history: Ghost<Seq<Moment<'a>>>,
}

impl<'a, H, S: Sleep> View for AllocExecutor<'a, H, S> {
    type V = RegistryState<'a>;

    closed spec fn view(&self) -> RegistryState<'a> {
        self.registry@
    }
}

impl<'a, H, S: Sleep> AllocExecutor<'a, H, S> {
    /// The registry is well formed, every task has a waker, and where a sleep is due there
    /// is leave for it.
    pub closed spec fn inv(&self) -> bool {
        &&& self.registry.inv()
        &&& due(self.history@) == Some(Action::Sleep) ==> grants::<S>(
            self.sleeper.alarm(),
            self.sleeper.nights(),
        )
        &&& forall|id: TaskId| #[trigger]
            self.registry@.tasks.contains_key(id) ==> self.registry@.tasks[id].waker is Some
    }

    /// The executor is well formed, and its history accounts for its state and for every
    /// time that it has slept.
    pub open spec fn wf(&self) -> bool {
        &&& self.inv()
        &&& follows(self.history())
        &&& self@ == state(self.history())
        &&& self.spec_nights() == nights(self.history())
    }

    /// How often the executor has slept.
    pub closed spec fn spec_nights(&self) -> nat {
        self.sleeper.nights()
    }

    /// What the executor has done so far.
    pub closed spec fn history(&self) -> Seq<Moment<'a>> {
        self.history@
    }

    /// The handle on the queue.
    pub closed spec fn spec_handle(&self) -> H {
        self.queue
    }

    /// The alarm that ends a sleep.
    pub closed spec fn spec_alarm(&self) -> S::Alarm {
        self.sleeper.alarm()
    }

    /// The registry is a new one that was made with room for `capacity` tasks.
    pub closed spec fn starts_with(&self, capacity: usize) -> bool {
        call_ensures(Registry::<'a>::with_capacity, (capacity,), self.registry)
    }

    /// Initialize a new `AllocExecutor`
    ///
    /// `share` makes the handle out of the new, empty queue. Does nothing unless
    /// it's run.
    pub fn new<F: FnOnce(Queue<'a>) -> H>(share: F) -> (executor: Self)
        requires
            forall|queue: Queue<'a>| #[trigger] share.requires((queue,)),
        ensures
            executor.wf(),
            executor@ == RegistryState::<'a>::initial(),
            executor.history().len() == 0,
            call_ensures(S::make_alarm, (), executor.spec_alarm()),
            executor.starts_with(REG_CAP),
            exists|shared: Queue<'a>|
                {
                    &&& shared@.len() == 0
                    &&& call_ensures(Queue::<'a>::with_capacity, (QUEUE_CAP,), shared)
                    &&& #[trigger] share.ensures((shared,), executor.spec_handle())
                },
    {
        Self::with_capacity(REG_CAP, QUEUE_CAP, share)
    }

    /// Initialize a new `AllocExecutor` with the given capacities.
    ///
    /// `share` makes the handle out of the new, empty queue. Does nothing unless
    /// it's run.
    pub fn with_capacity<F: FnOnce(Queue<'a>) -> H>(
        registry: usize,
        queue: usize,
        share: F,
    ) -> (executor: Self)
        requires
            registry <= MAX_CAPACITY,
            queue <= MAX_CAPACITY,
            forall|queue: Queue<'a>| #[trigger] share.requires((queue,)),
        ensures
            executor.wf(),
            executor@ == RegistryState::<'a>::initial(),
            executor.history().len() == 0,
            call_ensures(S::make_alarm, (), executor.spec_alarm()),
            executor.starts_with(registry),
            exists|shared: Queue<'a>|
                {
                    &&& shared@.len() == 0
                    &&& call_ensures(Queue::<'a>::with_capacity, (queue,), shared)
                    &&& #[trigger] share.ensures((shared,), executor.spec_handle())
                },
    {
        let shared = Queue::with_capacity(queue);
        let ghost empty = shared;
        let handle = share(shared);
        let executor = AllocExecutor {
            registry: Registry::with_capacity(registry),
            queue: handle,
            sleeper: Sleeper::new(),
            history: Ghost(Seq::empty()),
        };
        assert(share.ensures((empty,), executor.spec_handle()));
        executor
    }

    /// The handle on the queue.
    pub fn handle(&self) -> (handle: &H)
        ensures
            *handle == self.spec_handle(),
    {
        &self.queue
    }

    /// The number of tasks that have been removed so far.
    pub fn generation(&self) -> (generation: u64)
        ensures
            generation == self@.generation,
    {
        self.registry.generation()
    }

    /// Polls a task with the given id
    ///
    /// If no such task exists, it's a no-op.
    /// If the task is ready, it will be removed from the registry.
    pub fn poll_task(&mut self, id: TaskId) -> (polled: Polled)
        requires
            old(self).wf(),
            old(self)@.can_remove(id),
        ensures
            final(self).wf(),
            polls(old(self)@, id, polled, final(self)@),
            final(self).history() == old(self).history().push(
                Moment::Poll { id, polled, post: final(self)@ },
            ),
            final(self).spec_handle() == old(self).spec_handle(),
            final(self).spec_alarm() == old(self).spec_alarm(),
    {
        // It's possible that the waker is still hanging out somewhere and
        // getting called even though its task is gone. If so, we can just
        // skip it.
        let ghost mut after = self@.tasks[id].future;
        let ready = match self.registry.task_mut(id) {
            None => {
                proof {
                    let moment = Moment::Poll { id, polled: Polled::Missing, post: self@ };
                    lemma_follows_on(self.history@, moment);
                    self.history@ = self.history@.push(moment);
                }
                return Polled::Missing;
            },
            Some(task) => match &task.waker {
                None => {
                    // Every registered task has a waker.
                    assert(false);
                    false
                },
                Some(waker) => {
                    let ready = poll_future(&mut task.future, waker);
                    proof {
                        after = task.future;
                    }
                    ready
                },
            },
        };
        assert(self@ == old(self)@.with_future(id, after));
        assert(poll_outcome(
            old(self)@.tasks[id].future,
            old(self)@.tasks[id].waker->0,
            after,
            ready,
        ));
        assert(self@.without(id) == old(self)@.without(id));
        self.registry.finish_poll(id, ready);
        let polled = if ready {
            Polled::Ready
        } else {
            Polled::Pending
        };
        proof {
            let moment = Moment::Poll { id, polled, post: self@ };
            lemma_follows_on(self.history@, moment);
            self.history@ = self.history@.push(moment);
        }
        polled
    }

    /// Does what a turn of the executor has asked for, and says whether the
    /// executor is to return.
    ///
    /// The queue has to be released before. The executor sleeps only if a turn has asked for
    /// that, and once for each such turn.
    pub fn perform(&mut self, action: Action) -> (done: bool)
        requires
            old(self).wf(),
            action is Poll ==> old(self)@.can_remove(action->Poll_0),
            action is Sleep ==> due(old(self).history()) == Some(Action::Sleep),
        ensures
            final(self).wf(),
            done == (action is Return),
            performs(old(self)@, action, final(self)@),
            performed(old(self).history(), action, final(self).history()),
            action is Sleep ==> call_ensures(S::sleep, (&old(self).spec_alarm(),), ()),
            final(self).spec_handle() == old(self).spec_handle(),
            final(self).spec_alarm() == old(self).spec_alarm(),
    {
        match action {
            Action::Spawned(_) => false,
            Action::Poll(id) => {
                self.poll_task(id);
                false
            },
            Action::Sleep => {
                self.sleeper.sleep();
                proof {
                    let moment = Moment::Slept { post: self@ };
                    lemma_follows_on(self.history@, moment);
                    self.history@ = self.history@.push(moment);
                }
                false
            },
            Action::Return => true,
        }
    }

    /// Run the executor
    ///
    /// `turn` locks the queue, takes a turn with [`AllocExecutor::step`] and
    /// releases the queue. Each loop will poll at most one task from the queue
    /// and then check for newly spawned tasks. If there are no new tasks spawned
    /// and nothing left in the queue, the executor will attempt to sleep.
    ///
    /// Once there's nothing to spawn and nothing left in the registry, the
    /// executor will return. The result is `false` if that point has not been
    /// reached when the executor has taken `u128::MAX` turns, or has removed
    /// `u64::MAX` tasks, which is as many as it can.
    ///
    /// What is due is done before the next turn, and nothing else is: the history
    /// goes on orderly. Each of the new turns is a call of `turn`, and the last one
    /// of a run that is finished, and no other, asked to return. Each new poll and each
    /// new sleep is a call of [`AllocExecutor::perform`] of its own. If nobody but the
    /// executor takes from the queue, the history is that of a run as
    /// [`crate::laws`] has it; if it is finished, every future that has been spawned
    /// is done, and the queue is empty.
    #[verifier::rlimit(40)]
    pub fn run<T: Fn(&mut Self) -> Action>(&mut self, turn: T) -> (finished: bool)
        requires
            old(self).wf(),
            due(old(self).history()) is None,
            forall|executor: &mut Self|
                executor.wf() && due(executor.history()) is None && executor.spec_handle()
                    == old(self).spec_handle() && executor.spec_alarm() == old(self).spec_alarm()
                    ==> #[trigger] turn.requires(
                    (executor,),
                ),
            forall|executor: &mut Self, action: Action| #[trigger]
                turn.ensures((executor,), action) ==> {
                    &&& final(executor).wf()
                    &&& took_turn(executor.history(), action, final(executor).history())
                    &&& final(executor).spec_handle() == executor.spec_handle()
                    &&& final(executor).spec_alarm() == executor.spec_alarm()
                },
        ensures
            final(self).wf(),
            goes_on(old(self).history(), final(self).history(), finished),
            forall|i: int|
                #![trigger final(self).history()[i]]
                old(self).history().len() <= i < final(self).history().len()
                    && final(self).history()[i] is Step ==> exists|executor: &mut Self|
                    {
                        &&& executor.history() == final(self).history().take(i)
                        &&& final(executor).history() == final(self).history().take(i + 1)
                        &&& #[trigger] turn.ensures(
                            (executor,),
                            final(self).history()[i]->Step_action,
                        )
                    },
            forall|i: int|
                old(self).history().len() <= i < final(self).history().len()
                    && #[trigger] final(self).history()[i].asks(Action::Sleep) ==> call_ensures(
                    S::sleep,
                    (&old(self).spec_alarm(),),
                    (),
                ),
            forall|i: int|
                #![trigger final(self).history()[i]]
                old(self).history().len() <= i < final(self).history().len()
                    && final(self).history()[i].done_for() is Some ==> exists|executor: &mut Self|
                    {
                        &&& executor.history() == final(self).history().take(i)
                        &&& executor.spec_alarm() == old(self).spec_alarm()
                        &&& final(executor).history() == final(self).history().take(i + 1)
                        &&& #[trigger] call_ensures(
                            Self::perform,
                            (executor, final(self).history()[i].done_for()->0),
                            false,
                        )
                    },
            finished ==> {
                &&& final(self)@.tasks.is_empty()
                &&& exists|executor: &mut Self|
                    #[trigger] turn.ensures((executor,), Action::Return) && final(executor)@
                        == final(self)@
            },
            !finished ==> turns(final(self).history(), old(self).history().len() as int)
                == u128::MAX || final(self)@.generation == u64::MAX,
            orderly(old(self).history(), 0) && one_queue(final(self).history()) ==> told(
                final(self).history(),
            ) && (finished ==> completed(final(self).history())),
            final(self).spec_handle() == old(self).spec_handle(),
            final(self).spec_alarm() == old(self).spec_alarm(),
    {
        let ghost start = self.history();
        let mut taken: u128 = 0;
        let mut finished = false;
        proof {
            assert(start.take(start.len() as int) =~= start);
        }
        while !finished && taken < u128::MAX && self.generation() < u64::MAX
            invariant
                self.wf(),
                start == old(self).history(),
                forall|executor: &mut Self|
                    executor.wf() && due(executor.history()) is None && executor.spec_handle()
                    == old(self).spec_handle() && executor.spec_alarm() == old(self).spec_alarm()
                    ==> #[trigger] turn.requires(
                        (executor,),
                    ),
                forall|executor: &mut Self, action: Action| #[trigger]
                    turn.ensures((executor,), action) ==> {
                        &&& final(executor).wf()
                        &&& took_turn(executor.history(), action, final(executor).history())
                        &&& final(executor).spec_handle() == executor.spec_handle()
                        &&& final(executor).spec_alarm() == executor.spec_alarm()
                    },
                goes_on(start, self.history(), finished),
                forall|i: int|
                    #![trigger self.history()[i]]
                    start.len() <= i < self.history().len() && self.history()[i] is Step ==> exists|
                        executor: &mut Self,
                    |
                        {
                            &&& executor.history() == self.history().take(i)
                            &&& final(executor).history() == self.history().take(i + 1)
                            &&& #[trigger] turn.ensures(
                                (executor,),
                                self.history()[i]->Step_action,
                            )
                        },
                forall|i: int|
                    start.len() <= i < self.history().len() && #[trigger] self.history()[i].asks(
                        Action::Sleep,
                    ) ==> call_ensures(S::sleep, (&old(self).spec_alarm(),), ()),
                forall|i: int|
                    #![trigger self.history()[i]]
                    start.len() <= i < self.history().len() && self.history()[i].done_for() is Some
                        ==> exists|executor: &mut Self|
                        {
                            &&& executor.history() == self.history().take(i)
                            &&& executor.spec_alarm() == old(self).spec_alarm()
                            &&& final(executor).history() == self.history().take(i + 1)
                            &&& #[trigger] call_ensures(
                                Self::perform,
                                (executor, self.history()[i].done_for()->0),
                                false,
                            )
                        },
                finished ==> {
                    &&& self@.tasks.is_empty()
                    &&& exists|executor: &mut Self|
                        #[trigger] turn.ensures((executor,), Action::Return) && final(executor)@
                            == self@
                },
                turns(self.history(), start.len() as int) == taken,
                self.spec_handle() == old(self).spec_handle(),
                self.spec_alarm() == old(self).spec_alarm(),
            decreases u128::MAX - taken,
        {
            let ghost before = self.history();
            let action = turn(self);
            let ghost middle = self.history();
            assert(exists|executor: &mut Self|
                {
                    &&& executor.history() == before
                    &&& final(executor).history() == middle
                    &&& final(executor)@ == self@
                    &&& #[trigger] turn.ensures((executor,), action)
                });
            proof {
                assert(middle.take(before.len() as int) =~= before);
                assert(happened(middle.take(before.len() as int), middle[before.len() as int]));
            }
            finished = self.perform(action);
            assert(exists|executor: &mut Self|
                {
                    &&& executor.history() == middle
                    &&& executor.spec_alarm() == old(self).spec_alarm()
                    &&& final(executor).history() == self.history()
                    &&& #[trigger] call_ensures(Self::perform, (executor, action), finished)
                });
            proof {
                lemma_goes_on(start, before, action, middle, self.history());
                let after = self.history();
                assert forall|i: int|
                    #![trigger after[i]]
                    start.len() <= i < after.len() && after[i] is Step implies exists|
                    executor: &mut Self,
                |
                    {
                        &&& executor.history() == after.take(i)
                        &&& final(executor).history() == after.take(i + 1)
                        &&& #[trigger] turn.ensures((executor,), after[i]->Step_action)
                    } by {
                    if i < before.len() {
                        assert(after[i] == before[i]);
                        assert(after.take(i) =~= before.take(i));
                        assert(after.take(i + 1) =~= before.take(i + 1));
                    }
                }
                assert forall|i: int|
                    #![trigger after[i]]
                    start.len() <= i < after.len() && after[i].done_for() is Some implies exists|
                    executor: &mut Self,
                |
                    {
                        &&& executor.history() == after.take(i)
                        &&& executor.spec_alarm() == old(self).spec_alarm()
                        &&& final(executor).history() == after.take(i + 1)
                        &&& #[trigger] call_ensures(
                            Self::perform,
                            (executor, after[i].done_for()->0),
                            false,
                        )
                    } by {
                    if i < before.len() {
                        assert(after[i] == before[i]);
                        assert(after.take(i) =~= before.take(i));
                        assert(after.take(i + 1) =~= before.take(i + 1));
                    } else {
                        assert(after.take(i) =~= middle);
                        assert(after.take(i + 1) =~= after);
                        assert(after[i].done_for() == Some(action));
                        assert(finished == false);
                        let executor = choose|executor: &mut Self|
                            {
                                &&& executor.history() == middle
                                &&& executor.spec_alarm() == old(self).spec_alarm()
                                &&& final(executor).history() == after
                                &&& #[trigger] call_ensures(
                                    Self::perform,
                                    (executor, action),
                                    finished,
                                )
                            };
                        assert(call_ensures(
                            Self::perform,
                            (executor, after[i].done_for()->0),
                            false,
                        ));
                    }
                }
                assert forall|i: int|
                    start.len() <= i < after.len() && #[trigger] after[i].asks(
                        Action::Sleep,
                    ) implies call_ensures(S::sleep, (&old(self).spec_alarm(),), ()) by {
                    if i < before.len() {
                        assert(after[i] == before[i]);
                        assert(before[i].asks(Action::Sleep));
                    }
                }
            }
            taken = taken + 1;
        }
        proof {
            let history = self.history();
            if orderly(start, 0) && one_queue(history) {
                lemma_orderly_whole(start, history);
                law_a_history_is_a_run(history);
                if finished {
                    law_a_finished_history_is_complete(history);
                }
            }
        }
        finished
    }
}

impl<'a, H: Clone, S: Sleep> AllocExecutor<'a, H, S> {
    /// Get a handle to a `Spawner` that can be passed to `Future` constructors
    /// to spawn even *more* `Future`s
    pub fn spawner(&self) -> (spawner: Spawner<H>)
        ensures
            cloned(self.spec_handle(), spawner.0),
    {
        Spawner(self.queue.clone())
    }

    /// Registers a future as a new task and sets its waker.
    fn register<M>(&mut self, future: FutureObj<'a, ()>, make_waker: M) -> (id: TaskId) where
        M: FnOnce(QueueWaker<H, TaskId, S::Alarm>) -> Waker

        requires
            old(self).wf(),
            forall|waker: QueueWaker<H, TaskId, S::Alarm>| #[trigger]
                make_waker.requires((waker,)),
        ensures
            final(self).inv(),
            final(self)@.tasks[id].waker is Some,
            old(self)@.inserts(
                id,
                Task { future, waker: final(self)@.tasks[id].waker },
                final(self)@,
            ),
            wakes(
                make_waker,
                old(self).spec_handle(),
                id,
                old(self).spec_alarm(),
                final(self)@.tasks[id].waker->0,
            ),
            final(self).history() == old(self).history(),
            final(self).spec_nights() == old(self).spec_nights(),
            final(self).spec_handle() == old(self).spec_handle(),
            final(self).spec_alarm() == old(self).spec_alarm(),
    {
        let id = self.registry.insert(future);
        let queue_waker = QueueWaker::new(self.queue.clone(), id, self.sleeper.share_alarm());
        let ghost made_of = queue_waker;
        let waker = make_waker(queue_waker);
        assert(make_waker.ensures((made_of,), waker));
        if let Some(task) = self.registry.task_mut(id) {
            task.set_waker(waker);
        }
        assert(self@.tasks =~= old(self)@.tasks.insert(id, Task { future, waker: Some(waker) }));
        id
    }

    /// Spawn a `FutureObj` into the executor.
    ///
    /// Thanks to the `'a` lifetime bound, these don't necessarily have to be
    /// `'static` `Futures`, so long as they outlive the executor.
    ///
    /// `make_waker` turns what the task's waker has to do into a `Waker`.
    pub fn spawn_obj<M>(
        &mut self,
        queue: &mut Queue<'a>,
        future: FutureObj<'a, ()>,
        make_waker: M,
    ) -> (id: TaskId) where M: FnOnce(QueueWaker<H, TaskId, S::Alarm>) -> Waker
        requires
            old(self).wf(),
            forall|waker: QueueWaker<H, TaskId, S::Alarm>| #[trigger]
                make_waker.requires((waker,)),
        ensures
            final(self).wf(),
            spawns(old(self)@, old(queue)@, future, id, final(self)@, final(queue)@),
            final(self).history() == old(self).history().push(
                Moment::Spawn {
                    id,
                    queue: old(queue)@,
                    queue_post: final(queue)@,
                    post: final(self)@,
                },
            ),
            wakes(
                make_waker,
                old(self).spec_handle(),
                id,
                old(self).spec_alarm(),
                final(self)@.tasks[id].waker->0,
            ),
            final(self).spec_handle() == old(self).spec_handle(),
            final(self).spec_alarm() == old(self).spec_alarm(),
    {
        let id = self.register(future, make_waker);
        // Insert the newly spawned task into the queue to be polled
        queue.push_back(QueueItem::Poll(id));
        proof {
            let moment = Moment::Spawn {
                id,
                queue: old(queue)@,
                queue_post: queue@,
                post: self@,
            };
            lemma_follows_on(self.history@, moment);
            self.history@ = self.history@.push(moment);
        }
        id
    }

    /// Spawn a `Future` into the executor.
    ///
    /// Thanks to the `'a` lifetime bound, these don't necessarily have to be
    /// `'static` `Futures`, so long as they outlive the executor.
    ///
    /// The new task holds what [`make_obj`] makes of `future`.
    pub fn spawn<F, M>(&mut self, queue: &mut Queue<'a>, future: F, make_waker: M) -> (id: TaskId)
        where
            F: Future<Output = ()> + Send + 'a,
            M: FnOnce(QueueWaker<H, TaskId, S::Alarm>) -> Waker

        requires
            old(self).wf(),
            forall|waker: QueueWaker<H, TaskId, S::Alarm>| #[trigger]
                make_waker.requires((waker,)),
        ensures
            final(self).wf(),
            spawns(
                old(self)@,
                old(queue)@,
                final(self)@.tasks[id].future,
                id,
                final(self)@,
                final(queue)@,
            ),
            call_ensures(make_obj::<F, ()>, (future,), final(self)@.tasks[id].future),
            final(self).history() == old(self).history().push(
                Moment::Spawn {
                    id,
                    queue: old(queue)@,
                    queue_post: final(queue)@,
                    post: final(self)@,
                },
            ),
            wakes(
                make_waker,
                old(self).spec_handle(),
                id,
                old(self).spec_alarm(),
                final(self)@.tasks[id].waker->0,
            ),
            final(self).spec_handle() == old(self).spec_handle(),
            final(self).spec_alarm() == old(self).spec_alarm(),
    {
        self.spawn_obj(queue, make_obj(future), make_waker)
    }

    /// One turn of the executor.
    ///
    /// Takes at most one item from the queue. A future that is to be spawned is
    /// registered and queued at once; a task that is to be polled is handed out,
    /// to be polled when the queue has been released. If there is nothing in the
    /// queue, the executor asks to sleep.
    ///
    /// Once there's nothing in the queue and nothing left in the registry, the
    /// executor asks to return.
    ///
    /// What the turn before has asked for has to be done first. Where the executor is going
    /// to ask to sleep, leave to do so has to be given.
    pub fn step<M>(&mut self, queue: &mut Queue<'a>, make_waker: M) -> (action: Action) where
        M: FnOnce(QueueWaker<H, TaskId, S::Alarm>) -> Waker

        requires
            old(self).wf(),
            due(old(self).history()) is None,
            old(queue)@.len() == 0 && !old(self)@.tasks.is_empty() ==> grants::<S>(
                old(self).spec_alarm(),
                nights(old(self).history()),
            ),
            forall|waker: QueueWaker<H, TaskId, S::Alarm>| #[trigger]
                make_waker.requires((waker,)),
        ensures
            final(self).wf(),
            steps(old(self)@, old(queue)@, action, final(self)@, final(queue)@),
            final(self).history() == old(self).history().push(
                Moment::Step {
                    action,
                    queue: old(queue)@,
                    queue_post: final(queue)@,
                    post: final(self)@,
                },
            ),
            action is Spawned ==> wakes(
                make_waker,
                old(self).spec_handle(),
                action->Spawned_0,
                old(self).spec_alarm(),
                final(self)@.tasks[action->Spawned_0].waker->0,
            ),
            final(self).spec_handle() == old(self).spec_handle(),
            final(self).spec_alarm() == old(self).spec_alarm(),
    {
        let action = match queue.pop_front() {
            Some(QueueItem::Poll(id)) => Action::Poll(id),
            Some(QueueItem::Spawn(future)) => {
                let id = self.register(future, make_waker);
                queue.push_back(QueueItem::Poll(id));
                Action::Spawned(id)
            },
            None => if self.registry.has_no_tasks() {
                Action::Return
            } else {
                Action::Sleep
            },
        };
        proof {
            let moment = Moment::Step {
                action,
                queue: old(queue)@,
                queue_post: queue@,
                post: self@,
            };
            lemma_follows_on(self.history@, moment);
            self.history@ = self.history@.push(moment);
        }
        action
    }
}

} // verus!
