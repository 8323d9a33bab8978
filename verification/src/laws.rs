//! What holds of an executor over a whole run, however its environment behaves.
//!
//! A run is a sequence of [`World`]s with one [`Event`] between each of them and
//! the next. An event is a call of one function of [`crate::alloc_executor`], and
//! changes the registry and the queue as that function's contract says. Wakers
//! and spawners may act between any two events of the executor.
//!
//! [`law_a_history_is_a_run`] makes the laws of runs laws of the executor: the history
//! that it keeps is what it does in such a run, if it has done things in order, as
//! [`crate::AllocExecutor::run`] does, and nobody else takes from its queue. The last of
//! the laws speak of such a history itself.

use core::task::Waker;
use std::collections::VecDeque;

use vstd::prelude::*;

use crate::alloc_executor::{
    polls, queues_poll, spawns, steps, wakes, Action, AllocExecutor, Polled, Queue, QueueItem,
};
use crate::core_traits::{Alarm, PollQueue, QueueWaker, Sleep};
use crate::history::{
    due, finds_its_queue, follows, happened, in_order, one_queue, orderly, queue_left, state, Moment,
};
use crate::registry::{RegistryState, TaskId};

verus! {

/// Something that happens to an executor.
pub enum Event {
    /// A future is spawned into the executor, as the task with this identifier.
    Spawn(TaskId),
    /// A spawner puts a future into the queue.
    Request,
    /// The waker of the task with this identifier is called.
    Wake(TaskId),
    /// The executor takes a turn and asks for this action.
    Step(Action),
    /// The executor has polled the task with this identifier.
    Poll(TaskId, Polled),
    /// The executor has slept.
    Slept,
}

/// An executor and its queue, with a record of what has become of each future.
///
/// The futures are numbered, in the order in which they were spawned.
pub struct World<'a> {
    /// The registry of the executor.
    pub registry: RegistryState<'a>,
    /// The queue of the executor.
    pub queue: Seq<QueueItem<'a>>,
    /// What the last turn has asked for and is still to be done.
    pub due: Option<Action>,
    /// How many futures have been spawned.
    pub spawned: nat,
    /// For each item of the queue that holds a future, its number.
    pub tags: Seq<nat>,
    /// The number of the future of each task.
    pub owners: Map<TaskId, nat>,
    /// The numbers of the futures that have been polled until they were ready.
    pub done: Set<nat>,
    /// The identifiers of the tasks that have been removed.
    pub retired: Set<TaskId>,
}

/// A new executor with an empty queue.
pub open spec fn starts(w: World<'_>) -> bool {
    &&& w.registry.tasks.is_empty()
    &&& w.registry.generation == 0
    &&& w.queue.len() == 0
    &&& w.due is None
    &&& w.spawned == 0
    &&& w.tags.len() == 0
    &&& w.owners.is_empty()
    &&& w.done.is_empty()
    &&& w.retired.is_empty()
}

/// `event` takes `w` to `v`.
pub open spec fn happens<'a>(w: World<'a>, event: Event, v: World<'a>) -> bool {
    match event {
        Event::Spawn(id) => {
            let future = v.registry.tasks[id].future;
            &&& spawns(w.registry, w.queue, future, id, v.registry, v.queue)
            &&& v.spawned == w.spawned + 1
            &&& v.tags == w.tags.push(0)
            &&& v.owners == w.owners.insert(id, w.spawned)
            &&& v.due == w.due
            &&& v.done == w.done
            &&& v.retired == w.retired
        },
        Event::Request => {
            &&& v.queue.len() > 0
            &&& v.queue.last() is Spawn
            &&& v.queue == w.queue.push(v.queue.last())
            &&& v.registry == w.registry
            &&& v.spawned == w.spawned + 1
            &&& v.tags == w.tags.push(w.spawned)
            &&& v.owners == w.owners
            &&& v.due == w.due
            &&& v.done == w.done
            &&& v.retired == w.retired
        },
        Event::Wake(id) => {
            &&& queues_poll(w.queue, id, v.queue)
            &&& v.registry == w.registry
            &&& v.spawned == w.spawned
            &&& v.tags == w.tags.push(0)
            &&& v.owners == w.owners
            &&& v.due == w.due
            &&& v.done == w.done
            &&& v.retired == w.retired
        },
        Event::Step(action) => {
            &&& w.due is None
            &&& steps(w.registry, w.queue, action, v.registry, v.queue)
            &&& v.spawned == w.spawned
            &&& v.done == w.done
            &&& v.retired == w.retired
            &&& match action {
                Action::Spawned(id) => {
                    &&& v.tags == w.tags.drop_first().push(0)
                    &&& v.owners == w.owners.insert(id, w.tags[0])
                    &&& v.due is None
                },
                Action::Poll(_) => {
                    &&& v.tags == w.tags.drop_first()
                    &&& v.owners == w.owners
                    &&& v.due == Some(action)
                },
                Action::Sleep => {
                    &&& v.tags == w.tags
                    &&& v.owners == w.owners
                    &&& v.due == Some(action)
                },
                Action::Return => {
                    &&& v.tags == w.tags
                    &&& v.owners == w.owners
                    &&& v.due is None
                },
            }
        },
        Event::Poll(id, polled) => {
            &&& w.due == Some(Action::Poll(id))
            &&& polls(w.registry, id, polled, v.registry)
            &&& v.queue == w.queue
            &&& v.due is None
            &&& v.spawned == w.spawned
            &&& v.tags == w.tags
            &&& if polled is Ready {
                &&& v.owners == w.owners.remove(id)
                &&& v.done == w.done.insert(w.owners[id])
                &&& v.retired == w.retired.insert(id)
            } else {
                &&& v.owners == w.owners
                &&& v.done == w.done
                &&& v.retired == w.retired
            }
        },
        Event::Slept => {
            &&& w.due == Some(Action::Sleep)
            &&& v.due is None
            &&& v.registry == w.registry
            &&& v.queue == w.queue
            &&& v.spawned == w.spawned
            &&& v.tags == w.tags
            &&& v.owners == w.owners
            &&& v.done == w.done
            &&& v.retired == w.retired
        },
    }
}

/// `events` take a new executor through `worlds`.
pub open spec fn is_run(worlds: Seq<World<'_>>, events: Seq<Event>) -> bool {
    &&& worlds.len() == events.len() + 1
    &&& starts(worlds[0])
    &&& forall|i: int|
        0 <= i < events.len() ==> #[trigger] happens(worlds[i], events[i], worlds[i + 1])
}

/// The future number `tag` is in the queue.
pub open spec fn waits(w: World<'_>, tag: nat) -> bool {
    exists|k: int| 0 <= k < w.queue.len() && #[trigger] w.queue[k] is Spawn && w.tags[k] == tag
}

/// The future number `tag` is a registered task.
pub open spec fn lives(w: World<'_>, tag: nat) -> bool {
    exists|id: TaskId| #[trigger]
        w.owners.contains_key(id) && w.owners[id] == tag && w.registry.tasks.contains_key(id)
}

/// What every event keeps.
spec fn inv(w: World<'_>) -> bool {
    &&& w.tags.len() == w.queue.len()
    &&& w.owners.dom() == w.registry.tasks.dom()
    &&& forall|id: TaskId| #[trigger]
        w.registry.tasks.contains_key(id) ==> id.generation <= w.registry.generation
            && w.registry.tasks[id].waker is Some
    &&& forall|id: TaskId| #[trigger]
        w.retired.contains(id) ==> id.generation < w.registry.generation
            && !w.registry.tasks.contains_key(id)
    &&& forall|tag: nat|
        tag < w.spawned ==> #[trigger] w.done.contains(tag) || lives(w, tag) || waits(w, tag)
    &&& once(w)
}

/// No future is in two places, and none is there that has not been spawned.
spec fn once(w: World<'_>) -> bool {
    &&& forall|tag: nat| #[trigger] w.done.contains(tag) ==> tag < w.spawned
    &&& forall|id: TaskId| #[trigger]
        w.owners.contains_key(id) ==> w.owners[id] < w.spawned && !w.done.contains(w.owners[id])
    &&& forall|id: TaskId, other: TaskId| #[trigger]
        w.owners.contains_key(id) && #[trigger] w.owners.contains_key(other) && id != other
            ==> w.owners[id] != w.owners[other]
    &&& forall|k: int|
        0 <= k < w.queue.len() && #[trigger] w.queue[k] is Spawn ==> w.tags[k] < w.spawned
            && !w.done.contains(w.tags[k])
    &&& forall|k: int, id: TaskId|
        0 <= k < w.queue.len() && #[trigger] w.queue[k] is Spawn && #[trigger]
            w.owners.contains_key(id) ==> w.owners[id] != w.tags[k]
    &&& forall|k: int, l: int|
        0 <= k < l < w.queue.len() && #[trigger] w.queue[k] is Spawn && #[trigger] w.queue[l] is Spawn
            ==> w.tags[k] != w.tags[l]
}

/// Every future that has been spawned stays in one of the three places.
proof fn lemma_placed<'a>(w: World<'a>, event: Event, v: World<'a>, tag: nat)
    requires
        inv(w),
        happens(w, event, v),
        tag < v.spawned,
    ensures
        v.done.contains(tag) || lives(v, tag) || waits(v, tag),
{
    if tag == w.spawned {
        match event {
            Event::Spawn(id) => {
                assert(v.owners.contains_key(id) && v.owners[id] == tag);
            },
            _ => {
                let k = w.queue.len() as int;
                assert(v.queue[k] is Spawn && v.tags[k] == tag);
            },
        }
    } else if w.done.contains(tag) {
    } else if lives(w, tag) {
        let id = choose|id: TaskId| #[trigger]
            w.owners.contains_key(id) && w.owners[id] == tag && w.registry.tasks.contains_key(id);
        if !v.done.contains(tag) {
            assert(v.owners.contains_key(id) && v.owners[id] == tag);
        }
    } else {
        let k = choose|k: int|
            0 <= k < w.queue.len() && #[trigger] w.queue[k] is Spawn && w.tags[k] == tag;
        match event {
            Event::Step(Action::Spawned(id)) => {
                if k == 0 {
                    assert(v.owners.contains_key(id) && v.owners[id] == tag);
                } else {
                    assert(v.queue[k - 1] is Spawn && v.tags[k - 1] == tag);
                }
            },
            Event::Step(Action::Poll(id)) => {
                assert(v.queue[k - 1] is Spawn && v.tags[k - 1] == tag);
            },
            _ => {
                assert(v.queue[k] is Spawn && v.tags[k] == tag);
            },
        }
    }
}

proof fn lemma_once<'a>(w: World<'a>, event: Event, v: World<'a>)
    requires
        inv(w),
        happens(w, event, v),
    ensures
        once(v),
{
}

proof fn lemma_inv(worlds: Seq<World<'_>>, events: Seq<Event>, i: int)
    requires
        is_run(worlds, events),
        0 <= i <= events.len(),
    ensures
        inv(worlds[i]),
    decreases i,
{
    if i == 0 {
        assert(worlds[0].owners.dom() =~= worlds[0].registry.tasks.dom());
    } else {
        let j = i - 1;
        lemma_inv(worlds, events, j);
        let w = worlds[j];
        let v = worlds[j + 1];
        assert(happens(w, events[j], v));
        assert(v.owners.dom() =~= v.registry.tasks.dom());
        assert forall|tag: nat| tag < v.spawned implies #[trigger] v.done.contains(tag) || lives(
            v,
            tag,
        ) || waits(v, tag) by {
            lemma_placed(w, events[j], v, tag);
        }
        lemma_once(w, events[j], v);
    }
}

/// When the executor returns, all spawned futures and any new futures that got
/// spawned have been driven to completion, and nothing is left to do.
pub proof fn law_return_means_all_done(worlds: Seq<World<'_>>, events: Seq<Event>, i: int)
    requires
        is_run(worlds, events),
        0 <= i < events.len(),
        events[i] == Event::Step(Action::Return),
    ensures
        forall|tag: nat| tag < worlds[i].spawned ==> #[trigger] worlds[i].done.contains(tag),
        worlds[i].registry.tasks.is_empty(),
        worlds[i].queue.len() == 0,
{
    let w = worlds[i];
    assert(happens(w, events[i], worlds[i + 1]));
    lemma_inv(worlds, events, i);
    assert forall|tag: nat| tag < w.spawned implies #[trigger] w.done.contains(tag) by {
        if lives(w, tag) {
            let id = choose|id: TaskId| #[trigger]
                w.owners.contains_key(id) && w.owners[id] == tag && w.registry.tasks.contains_key(
                    id,
                );
            assert(w.registry.tasks.dom().contains(id));
        }
    }
}

/// A future that has been spawned is never lost: it waits in the queue, is a
/// registered task, or has been driven to completion.
pub proof fn law_no_future_is_lost(
    worlds: Seq<World<'_>>,
    events: Seq<Event>,
    i: int,
    tag: nat,
)
    requires
        is_run(worlds, events),
        0 <= i <= events.len(),
        tag < worlds[i].spawned,
    ensures
        worlds[i].done.contains(tag) || lives(worlds[i], tag) || waits(worlds[i], tag),
{
    lemma_inv(worlds, events, i);
}

/// A future that is found ready has not been ready before: each is driven to
/// completion once.
pub proof fn law_futures_finish_once(
    worlds: Seq<World<'_>>,
    events: Seq<Event>,
    i: int,
    id: TaskId,
)
    requires
        is_run(worlds, events),
        0 <= i < events.len(),
        events[i] == Event::Poll(id, Polled::Ready),
    ensures
        worlds[i].owners.contains_key(id),
        !worlds[i].done.contains(worlds[i].owners[id]),
        worlds[i + 1].done.contains(worlds[i].owners[id]),
{
    lemma_inv(worlds, events, i);
    assert(happens(worlds[i], events[i], worlds[i + 1]));
    assert(worlds[i].owners.dom().contains(id));
}

/// Every registered task has a waker, so it can always be polled.
pub proof fn law_tasks_have_wakers(
    worlds: Seq<World<'_>>,
    events: Seq<Event>,
    i: int,
    id: TaskId,
)
    requires
        is_run(worlds, events),
        0 <= i <= events.len(),
        worlds[i].registry.tasks.contains_key(id),
    ensures
        worlds[i].registry.tasks[id].waker is Some,
{
    lemma_inv(worlds, events, i);
}

proof fn lemma_retired_grows(worlds: Seq<World<'_>>, events: Seq<Event>, i: int, j: int, id: TaskId)
    requires
        is_run(worlds, events),
        0 <= i <= j <= events.len(),
        worlds[i].retired.contains(id),
    ensures
        worlds[j].retired.contains(id),
    decreases j,
{
    if i < j {
        let k = j - 1;
        lemma_retired_grows(worlds, events, i, k, id);
        assert(happens(worlds[k], events[k], worlds[k + 1]));
    }
}

/// The identifier of a task that has been removed never belongs to a task again.
pub proof fn law_identifiers_are_not_reused(
    worlds: Seq<World<'_>>,
    events: Seq<Event>,
    i: int,
    j: int,
    id: TaskId,
)
    requires
        is_run(worlds, events),
        0 <= i <= j <= events.len(),
        worlds[i].retired.contains(id),
    ensures
        !worlds[j].registry.tasks.contains_key(id),
{
    lemma_retired_grows(worlds, events, i, j, id);
    lemma_inv(worlds, events, j);
}

/// A waker that outlives its task does no harm: polling its task finds none and
/// changes nothing.
pub proof fn law_stale_wakers_are_harmless(
    worlds: Seq<World<'_>>,
    events: Seq<Event>,
    i: int,
    id: TaskId,
    polled: Polled,
)
    requires
        is_run(worlds, events),
        0 <= i < events.len(),
        events[i] == Event::Poll(id, polled),
        worlds[i].retired.contains(id),
    ensures
        polled is Missing,
        worlds[i + 1].registry == worlds[i].registry,
{
    law_identifiers_are_not_reused(worlds, events, i, i, id);
    assert(happens(worlds[i], events[i], worlds[i + 1]));
}

/// Polling one task does not touch any other.
pub proof fn law_tasks_are_independent<'a>(
    pre: RegistryState<'a>,
    id: TaskId,
    polled: Polled,
    post: RegistryState<'a>,
    other: TaskId,
)
    requires
        polls(pre, id, polled, post),
        other != id,
    ensures
        post.tasks.contains_key(other) == pre.tasks.contains_key(other),
        pre.tasks.contains_key(other) ==> post.tasks[other] == pre.tasks[other],
{
}

/// How many items the executor takes from the queue in the events from `i` up to,
/// but not including, `j`.
pub open spec fn taken(events: Seq<Event>, i: int, j: int) -> nat
    decreases j - i,
{
    if j <= i {
        0
    } else {
        taken(events, i, j - 1) + match events[j - 1] {
            Event::Step(Action::Spawned(_)) | Event::Step(Action::Poll(_)) => 1nat,
            _ => 0nat,
        }
    }
}

/// The queue is first in, first out, whoever adds to it: the item in place `k`
/// moves up by one place for each item that the executor takes.
pub proof fn law_queue_is_fifo(
    worlds: Seq<World<'_>>,
    events: Seq<Event>,
    i: int,
    j: int,
    k: int,
)
    requires
        is_run(worlds, events),
        0 <= i <= j <= events.len(),
        0 <= k < worlds[i].queue.len(),
        taken(events, i, j) <= k,
    ensures
        k - taken(events, i, j) < worlds[j].queue.len(),
        worlds[j].queue[k - taken(events, i, j)] == worlds[i].queue[k],
    decreases j,
{
    if i < j {
        let m = j - 1;
        law_queue_is_fifo(worlds, events, i, m, k);
        assert(happens(worlds[m], events[m], worlds[m + 1]));
    }
}

/// A task that is queued to be polled stays queued until it is handed out.
proof fn lemma_queued_or_handed_out(
    worlds: Seq<World<'_>>,
    events: Seq<Event>,
    i: int,
    j: int,
    id: TaskId,
)
    requires
        is_run(worlds, events),
        0 <= i <= j <= events.len(),
        worlds[i].queue.contains(QueueItem::Poll(id)),
    ensures
        worlds[j].queue.contains(QueueItem::Poll(id)) || exists|m: int|
            i <= m < j && #[trigger] events[m] == Event::Step(Action::Poll(id)),
    decreases j,
{
    if i < j {
        let m = j - 1;
        lemma_queued_or_handed_out(worlds, events, i, m, id);
        let w = worlds[m];
        let v = worlds[m + 1];
        assert(happens(w, events[m], v));
        if w.queue.contains(QueueItem::Poll(id)) {
            let k = w.queue.index_of(QueueItem::Poll(id));
            assert(w.queue[k] == QueueItem::<'_>::Poll(id));
            match events[m] {
                Event::Step(Action::Spawned(_)) => {
                    assert(v.queue[k - 1] == w.queue[k]);
                },
                Event::Step(Action::Poll(_)) => {
                    if k > 0 {
                        assert(v.queue[k - 1] == w.queue[k]);
                    }
                },
                _ => {
                    assert(v.queue[k] == w.queue[k]);
                },
            }
        }
    }
}

/// A task that is handed out stays due until it is polled.
proof fn lemma_due_or_polled(
    worlds: Seq<World<'_>>,
    events: Seq<Event>,
    i: int,
    j: int,
    id: TaskId,
)
    requires
        is_run(worlds, events),
        0 <= i <= j <= events.len(),
        worlds[i].due == Some(Action::Poll(id)),
    ensures
        worlds[j].due == Some(Action::Poll(id)) || exists|n: int|
            i <= n < j && #[trigger] events[n] is Poll && events[n]->Poll_0 == id,
    decreases j,
{
    if i < j {
        let n = j - 1;
        lemma_due_or_polled(worlds, events, i, n, id);
        assert(happens(worlds[n], events[n], worlds[n + 1]));
        if worlds[n].due == Some(Action::Poll(id)) && worlds[j].due != Some(
            Action::Poll(id),
        ) {
            assert(events[n] is Poll && events[n]->Poll_0 == id);
        }
    }
}

/// The task `id` is handed out and then polled, from the event `i` on and before the
/// event `j`.
pub open spec fn polled_between(events: Seq<Event>, i: int, j: int, id: TaskId) -> bool {
    exists|m: int, n: int|
        {
            &&& i <= m < n < j
            &&& #[trigger] events[m] == Event::Step(Action::Poll(id))
            &&& #[trigger] events[n] is Poll
            &&& events[n]->Poll_0 == id
        }
}

/// A task that is queued to be polled is handed out and polled before the
/// executor sleeps or returns.
pub proof fn law_queued_tasks_are_polled(
    worlds: Seq<World<'_>>,
    events: Seq<Event>,
    i: int,
    j: int,
    id: TaskId,
)
    requires
        is_run(worlds, events),
        0 <= i <= j < events.len(),
        worlds[i].queue.contains(QueueItem::Poll(id)),
        events[j] == Event::Step(Action::Sleep) || events[j] == Event::Step(Action::Return),
    ensures
        polled_between(events, i, j, id),
{
    assert(happens(worlds[j], events[j], worlds[j + 1]));
    lemma_queued_or_handed_out(worlds, events, i, j, id);
    let m = choose|m: int| i <= m < j && #[trigger] events[m] == Event::Step(Action::Poll(id));
    assert(happens(worlds[m], events[m], worlds[m + 1]));
    lemma_due_or_polled(worlds, events, m + 1, j, id);
    let n = choose|n: int|
        m + 1 <= n < j && #[trigger] events[n] is Poll && events[n]->Poll_0 == id;
    assert(events[m] == Event::Step(Action::Poll(id)) && events[n] is Poll);
}

/// No wake-up is lost: a task that is woken is handed out and polled, after the
/// wake-up, before the executor sleeps or returns.
pub proof fn law_woken_tasks_are_polled(
    worlds: Seq<World<'_>>,
    events: Seq<Event>,
    i: int,
    j: int,
    id: TaskId,
)
    requires
        is_run(worlds, events),
        0 <= i < j < events.len(),
        events[i] == Event::Wake(id),
        events[j] == Event::Step(Action::Sleep) || events[j] == Event::Step(Action::Return),
    ensures
        polled_between(events, i + 1, j, id),
{
    assert(happens(worlds[i], events[i], worlds[i + 1]));
    assert(worlds[i + 1].queue.last() == QueueItem::<'_>::Poll(id));
    law_queued_tasks_are_polled(worlds, events, i + 1, j, id);
}

/// A new task is handed out and polled before the executor sleeps or returns.
pub proof fn law_new_tasks_are_polled(
    worlds: Seq<World<'_>>,
    events: Seq<Event>,
    i: int,
    j: int,
    id: TaskId,
)
    requires
        is_run(worlds, events),
        0 <= i < j < events.len(),
        events[i] == Event::Spawn(id) || events[i] == Event::Step(Action::Spawned(id)),
        events[j] == Event::Step(Action::Sleep) || events[j] == Event::Step(Action::Return),
    ensures
        polled_between(events, i + 1, j, id),
{
    assert(happens(worlds[i], events[i], worlds[i + 1]));
    assert(worlds[i + 1].queue.last() == QueueItem::<'_>::Poll(id));
    law_queued_tasks_are_polled(worlds, events, i + 1, j, id);
}

/// How often the task `id` is polled in the first `n` events.
pub open spec fn polls_of(events: Seq<Event>, id: TaskId, n: int) -> nat
    decreases n,
{
    if n <= 0 {
        0
    } else {
        polls_of(events, id, n - 1) + if events[n - 1] is Poll && events[n - 1]->Poll_0 == id {
            1nat
        } else {
            0nat
        }
    }
}

/// How often the waker of the task `id` is called in the first `n` events.
pub open spec fn wakes_of(events: Seq<Event>, id: TaskId, n: int) -> nat
    decreases n,
{
    if n <= 0 {
        0
    } else {
        wakes_of(events, id, n - 1) + if events[n - 1] == Event::Wake(id) {
            1nat
        } else {
            0nat
        }
    }
}

/// How often a task is registered as `id` in the first `n` events.
pub open spec fn births_of(events: Seq<Event>, id: TaskId, n: int) -> nat
    decreases n,
{
    if n <= 0 {
        0
    } else {
        births_of(events, id, n - 1) + if events[n - 1] == Event::Spawn(id) || events[n - 1]
            == Event::Step(Action::Spawned(id)) {
            1nat
        } else {
            0nat
        }
    }
}

/// How often the task `id` stands in the queue to be polled, or is handed out.
pub open spec fn polls_to_come(w: World<'_>, id: TaskId) -> nat {
    w.queue.to_multiset().count(QueueItem::Poll(id)) + if w.due == Some(Action::Poll(id)) {
        1nat
    } else {
        0nat
    }
}

/// What one event does to the polls that are to come.
#[verifier::rlimit(40)]
proof fn lemma_polls_to_come<'a>(w: World<'a>, event: Event, v: World<'a>, id: TaskId)
    requires
        happens(w, event, v),
    ensures
        polls_to_come(v, id) + polls_of(seq![event], id, 1) == polls_to_come(w, id) + wakes_of(
            seq![event],
            id,
            1,
        ) + births_of(seq![event], id, 1),
{
    broadcast use vstd::multiset::group_multiset_axioms;

    let item = QueueItem::<'a>::Poll(id);
    assert(polls_of(seq![event], id, 0) == 0);
    assert(wakes_of(seq![event], id, 0) == 0);
    assert(births_of(seq![event], id, 0) == 0);
    match event {
        Event::Spawn(new) => {
            vstd::seq_lib::to_multiset_build(w.queue, QueueItem::Poll(new));
        },
        Event::Request => {
            vstd::seq_lib::to_multiset_build(w.queue, v.queue.last());
        },
        Event::Wake(woken) => {
            vstd::seq_lib::to_multiset_build(w.queue, QueueItem::Poll(woken));
        },
        Event::Step(Action::Spawned(new)) => {
            let rest = w.queue.drop_first();
            assert(rest =~= w.queue.remove(0));
            vstd::seq_lib::to_multiset_remove(w.queue, 0);
            vstd::seq_lib::to_multiset_build(rest, QueueItem::Poll(new));
        },
        Event::Step(Action::Poll(_)) => {
            assert(w.queue.drop_first() =~= w.queue.remove(0));
            vstd::seq_lib::to_multiset_remove(w.queue, 0);
            vstd::seq_lib::to_multiset_contains(w.queue, item);
            assert(w.queue.contains(w.queue[0]));
        },
        _ => {},
    }
}

/// Every poll of a task answers one wake-up, or its being registered: the polls that
/// have been and those that are to come are as many as these.
pub proof fn law_polls_answer_wakes(
    worlds: Seq<World<'_>>,
    events: Seq<Event>,
    n: int,
    id: TaskId,
)
    requires
        is_run(worlds, events),
        0 <= n <= events.len(),
    ensures
        polls_of(events, id, n) + polls_to_come(worlds[n], id) == wakes_of(events, id, n)
            + births_of(events, id, n),
    decreases n,
{
    if n == 0 {
        assert(worlds[0].queue =~= Seq::empty());
        vstd::seq_lib::to_multiset_contains(worlds[0].queue, QueueItem::Poll(id));
        assert(!worlds[0].queue.contains(QueueItem::Poll(id)));
    } else {
        let m = n - 1;
        law_polls_answer_wakes(worlds, events, m, id);
        assert(happens(worlds[m], events[m], worlds[m + 1]));
        lemma_polls_to_come(worlds[m], events[m], worlds[m + 1], id);
        let one = seq![events[m]];
        assert(one[0] == events[m]);
        assert(polls_of(one, id, 0) == 0 && wakes_of(one, id, 0) == 0 && births_of(one, id, 0) == 0);
    }
}

/// An identifier is given to one task at most: to the one that is registered under it,
/// or was.
proof fn lemma_born_once(worlds: Seq<World<'_>>, events: Seq<Event>, n: int, id: TaskId)
    requires
        is_run(worlds, events),
        0 <= n <= events.len(),
    ensures
        births_of(events, id, n) == if worlds[n].registry.tasks.contains_key(id)
            || worlds[n].retired.contains(id) {
            1nat
        } else {
            0nat
        },
    decreases n,
{
    if n > 0 {
        let m = n - 1;
        lemma_born_once(worlds, events, m, id);
        lemma_inv(worlds, events, m);
        assert(happens(worlds[m], events[m], worlds[m + 1]));
    }
}

/// A task is polled at most once more often than it is woken. One that nobody wakes is
/// polled at most once.
pub proof fn law_polls_are_bounded_by_wakes(
    worlds: Seq<World<'_>>,
    events: Seq<Event>,
    n: int,
    id: TaskId,
)
    requires
        is_run(worlds, events),
        0 <= n <= events.len(),
    ensures
        polls_of(events, id, n) <= wakes_of(events, id, n) + 1,
{
    law_polls_answer_wakes(worlds, events, n, id);
    lemma_born_once(worlds, events, n, id);
}

/// A registered task that was never polled stands in the queue to be polled, or is
/// handed out.
pub proof fn law_tasks_wait_for_their_first_poll(
    worlds: Seq<World<'_>>,
    events: Seq<Event>,
    n: int,
    id: TaskId,
)
    requires
        is_run(worlds, events),
        0 <= n <= events.len(),
        worlds[n].registry.tasks.contains_key(id),
        polls_of(events, id, n) == 0,
    ensures
        worlds[n].queue.contains(QueueItem::Poll(id)) || worlds[n].due == Some(Action::Poll(id)),
{
    law_polls_answer_wakes(worlds, events, n, id);
    lemma_born_once(worlds, events, n, id);
    vstd::seq_lib::to_multiset_contains(worlds[n].queue, QueueItem::Poll(id));
}

/// Every wake-up adds one item to the queue, at the back: `j - i` of them in a row add
/// as many, in their order.
pub proof fn law_every_wake_adds_one_item(
    worlds: Seq<World<'_>>,
    events: Seq<Event>,
    i: int,
    j: int,
)
    requires
        is_run(worlds, events),
        0 <= i <= j <= events.len(),
        forall|k: int| i <= k < j ==> #[trigger] events[k] is Wake,
    ensures
        worlds[j].queue == worlds[i].queue + Seq::new(
            (j - i) as nat,
            |k: int| QueueItem::Poll(events[i + k]->Wake_0),
        ),
    decreases j,
{
    if i < j {
        let m = j - 1;
        law_every_wake_adds_one_item(worlds, events, i, m);
        assert(happens(worlds[m], events[m], worlds[m + 1]));
        assert(events[m] is Wake);
    }
}

/// Wake-ups of one task are not merged: `k` of them, one after the other, add `k` items to
/// the queue, whatever is in it already.
pub proof fn law_wakes_are_not_merged<'a>(queues: Seq<Seq<QueueItem<'a>>>, id: TaskId, k: nat)
    requires
        queues.len() == k + 1,
        forall|i: int| 0 <= i < k ==> #[trigger] queues_poll(queues[i], id, queues[i + 1]),
    ensures
        queues[k as int] == queues[0] + Seq::new(k, |i: int| QueueItem::Poll(id)),
    decreases k,
{
    if k > 0 {
        let m = (k - 1) as nat;
        let fewer = queues.drop_last();
        assert forall|i: int| 0 <= i < m implies #[trigger] queues_poll(fewer[i], id, fewer[i + 1]) by {
            assert(queues_poll(queues[i], id, queues[i + 1]));
        }
        law_wakes_are_not_merged(fewer, id, m);
        assert(queues_poll(queues[m as int], id, queues[m as int + 1]));
    }
}

/// Nor are they on a `VecDeque` of identifiers.
pub proof fn law_enqueued_identifiers_are_not_merged<Id: Copy + Send + Sync + 'static>(
    queues: Seq<VecDeque<Id>>,
    id: Id,
    k: nat,
)
    requires
        queues.len() == k + 1,
        forall|i: int| 0 <= i < k ==> #[trigger] queues[i].enqueues(id, &queues[i + 1]),
    ensures
        queues[k as int]@ == queues[0]@ + Seq::new(k, |i: int| id),
    decreases k,
{
    if k > 0 {
        let m = (k - 1) as nat;
        let fewer = queues.drop_last();
        assert forall|i: int| 0 <= i < m implies #[trigger] fewer[i].enqueues(id, &fewer[i + 1]) by {
            assert(queues[i].enqueues(id, &queues[i + 1]));
        }
        law_enqueued_identifiers_are_not_merged(fewer, id, m);
        assert(queues[m as int].enqueues(id, &queues[m as int + 1]));
    }
}

/// The waker that a task is given when it is spawned is made of a queue waker that has
/// clones of the executor's handle and alarm. Its `wake_queue` queues that task, under its
/// own identifier, and its `fire` makes the call that queues the task and rings the alarm.
pub proof fn law_a_waker_wakes_its_task<
    H: Clone,
    A: Alarm,
    M: FnOnce(QueueWaker<H, TaskId, A>) -> Waker,
    E: FnOnce(&QueueWaker<H, TaskId, A>),
>(make_waker: M, handle: H, id: TaskId, alarm: A, waker: Waker)
    requires
        wakes(make_waker, handle, id, alarm, waker),
    ensures
        exists|queue_waker: QueueWaker<H, TaskId, A>|
            {
                &&& #[trigger] make_waker.ensures((queue_waker,), waker)
                &&& cloned(handle, queue_waker.queue)
                &&& cloned(alarm, queue_waker.alarm)
                &&& forall|queue: &mut Queue<'_>| #[trigger]
                    call_ensures(
                        QueueWaker::<H, TaskId, A>::wake_queue,
                        (&queue_waker, queue),
                        (),
                    ) ==> queues_poll(queue@, id, final(queue)@)
                &&& forall|enqueue: E| #[trigger]
                    call_ensures(
                        QueueWaker::<H, TaskId, A>::fire::<E>,
                        (&queue_waker, enqueue),
                        (),
                    ) ==> enqueue.ensures((&queue_waker,), ()) && call_ensures(
                        A::ring,
                        (&queue_waker.alarm,),
                        (),
                    )
            },
{
}

/// Executors that are made with different capacities start in the same state. What they do
/// from there on is the same, too, by
/// [`crate::schedule::law_equal_calls_give_equal_actions`].
pub proof fn law_executors_start_alike<'a, H, S: Sleep, F: FnOnce(Queue<'a>) -> H>(
    share: F,
    registry: usize,
    queue: usize,
    executor: AllocExecutor<'a, H, S>,
    other_registry: usize,
    other_queue: usize,
    other: AllocExecutor<'a, H, S>,
)
    requires
        call_ensures(
            AllocExecutor::<'a, H, S>::with_capacity::<F>,
            (registry, queue, share),
            executor,
        ),
        call_ensures(
            AllocExecutor::<'a, H, S>::with_capacity::<F>,
            (other_registry, other_queue, share),
            other,
        ),
    ensures
        executor.wf() && other.wf(),
        executor@ == other@,
        executor.history() == other.history(),
{
    assert(executor.history() =~= other.history());
}

/// What a turn has asked for stays due until it is done.
proof fn lemma_due_was_asked_for(worlds: Seq<World<'_>>, events: Seq<Event>, i: int)
    requires
        is_run(worlds, events),
        0 <= i <= events.len(),
        worlds[i].due is Some,
    ensures
        exists|m: int| #[trigger] asked_at(events, m, i, worlds[i].due->0),
    decreases i,
{
    let action = worlds[i].due->0;
    let k = i - 1;
    assert(happens(worlds[k], events[k], worlds[k + 1]));
    if events[k] is Step {
        assert(asked_at(events, k, i, action));
    } else {
        lemma_due_was_asked_for(worlds, events, k);
        let m = choose|m: int| #[trigger] asked_at(events, m, k, action);
        assert(asked_at(events, m, i, action));
    }
}

/// The event `m` is a turn that asks for `action`, and the executor does nothing that a
/// turn could have asked for between this and the event `i`.
pub open spec fn asked_at(events: Seq<Event>, m: int, i: int, action: Action) -> bool {
    &&& 0 <= m < i
    &&& events[m] == Event::Step(action)
    &&& forall|n: int|
        m < n < i ==> #[trigger] events[n] is Spawn || events[n] is Request || events[n] is Wake
}

/// The executor sleeps only if a turn has just found the queue empty while tasks were
/// registered.
pub proof fn law_sleeps_only_with_nothing_to_do(
    worlds: Seq<World<'_>>,
    events: Seq<Event>,
    i: int,
)
    requires
        is_run(worlds, events),
        0 <= i < events.len(),
        events[i] is Slept,
    ensures
        exists|m: int| #[trigger]
            asked_at(events, m, i, Action::Sleep) && worlds[m].queue.len() == 0
                && !worlds[m].registry.tasks.is_empty(),
{
    assert(happens(worlds[i], events[i], worlds[i + 1]));
    lemma_due_was_asked_for(worlds, events, i);
    let m = choose|m: int| #[trigger] asked_at(events, m, i, Action::Sleep);
    assert(happens(worlds[m], events[m], worlds[m + 1]));
}

/// An executor that is asked to sleep does so before it takes another turn.
pub proof fn law_sleeps_before_the_next_turn(
    worlds: Seq<World<'_>>,
    events: Seq<Event>,
    i: int,
    j: int,
)
    requires
        is_run(worlds, events),
        0 <= i < j < events.len(),
        events[i] == Event::Step(Action::Sleep),
        events[j] is Step,
    ensures
        exists|n: int| i < n < j && #[trigger] events[n] is Slept,
{
    assert(happens(worlds[i], events[i], worlds[i + 1]));
    assert(happens(worlds[j], events[j], worlds[j + 1]));
    lemma_due_or_slept(worlds, events, i + 1, j);
}

proof fn lemma_due_or_slept(worlds: Seq<World<'_>>, events: Seq<Event>, i: int, j: int)
    requires
        is_run(worlds, events),
        0 <= i <= j <= events.len(),
        worlds[i].due == Some(Action::Sleep),
    ensures
        worlds[j].due == Some(Action::Sleep) || exists|n: int|
            i <= n < j && #[trigger] events[n] is Slept,
    decreases j,
{
    if i < j {
        let n = j - 1;
        lemma_due_or_slept(worlds, events, i, n);
        assert(happens(worlds[n], events[n], worlds[n + 1]));
        if worlds[n].due == Some(Action::Sleep) && worlds[j].due != Some(Action::Sleep) {
            assert(events[n] is Slept);
        }
    }
}

/// The event that a moment of a history is.
pub open spec fn event_of(moment: Moment<'_>) -> Event {
    match moment {
        Moment::Spawn { id, .. } => Event::Spawn(id),
        Moment::Step { action, .. } => Event::Step(action),
        Moment::Poll { id, polled, .. } => Event::Poll(id, polled),
        Moment::Slept { .. } => Event::Slept,
    }
}

/// `history` is what the executor does in a run: the moment `i` is the event `at[i]`, and
/// finds and leaves the registry and the queue as that event does. All other events
/// are calls of wakers and spawners, between the moments.
pub open spec fn tells<'a>(
    history: Seq<Moment<'a>>,
    worlds: Seq<World<'a>>,
    events: Seq<Event>,
    at: Seq<int>,
) -> bool {
    &&& is_run(worlds, events)
    &&& at.len() == history.len()
    &&& forall|i: int|
        #![trigger at[i]]
        0 <= i < history.len() ==> {
            &&& 0 <= at[i] < events.len()
            &&& events[at[i]] == event_of(history[i])
            &&& worlds[at[i]].registry == state(history.take(i))
            &&& worlds[at[i] + 1].registry == history[i].post()
            &&& history[i].has_queue() ==> worlds[at[i]].queue == history[i].queue()
                && worlds[at[i] + 1].queue == history[i].queue_post()
        }
    &&& forall|i: int, j: int| 0 <= i < j < history.len() ==> #[trigger] at[i] < #[trigger] at[j]
    &&& forall|k: int|
        0 <= k < events.len() && !at.contains(k) ==> #[trigger] events[k] is Wake
            || events[k] is Request
    &&& history.len() > 0 ==> at.last() == events.len() - 1
    &&& worlds.last().registry == state(history)
    &&& worlds.last().queue == queue_left(history)
    &&& worlds.last().due == due(history)
}

/// `history` is what the executor does in some run.
pub open spec fn told<'a>(history: Seq<Moment<'a>>) -> bool {
    exists|worlds: Seq<World<'a>>, events: Seq<Event>, at: Seq<int>|
        tells(history, worlds, events, at)
}

/// `history` is what the executor does in some run, at the end of which every future
/// that has been spawned, through the executor or through a spawner, is done, no task
/// is registered and the queue is empty.
pub open spec fn completed<'a>(history: Seq<Moment<'a>>) -> bool {
    exists|worlds: Seq<World<'a>>, events: Seq<Event>, at: Seq<int>|
        {
            &&& #[trigger] tells(history, worlds, events, at)
            &&& forall|tag: nat|
                tag < worlds.last().spawned ==> #[trigger] worlds.last().done.contains(tag)
            &&& worlds.last().registry.tasks.is_empty()
            &&& worlds.last().queue.len() == 0
        }
}

/// A run goes on with one more event.
proof fn lemma_run_goes_on<'a>(
    worlds: Seq<World<'a>>,
    events: Seq<Event>,
    event: Event,
    world: World<'a>,
)
    requires
        is_run(worlds, events),
        happens(worlds.last(), event, world),
    ensures
        is_run(worlds.push(world), events.push(event)),
{
    let worlds_on = worlds.push(world);
    let events_on = events.push(event);
    assert forall|i: int| 0 <= i < events_on.len() implies #[trigger] happens(
        worlds_on[i],
        events_on[i],
        worlds_on[i + 1],
    ) by {
        if i < events.len() {
            assert(happens(worlds[i], events[i], worlds[i + 1]));
        }
    }
}

/// What wakers and spawners add to the queue are events of a run.
proof fn lemma_is_added_to<'a>(
    worlds: Seq<World<'a>>,
    events: Seq<Event>,
    queue: Seq<QueueItem<'a>>,
) -> (on: (Seq<World<'a>>, Seq<Event>))
    requires
        is_run(worlds, events),
        worlds.last().queue.is_prefix_of(queue),
    ensures
        is_run(on.0, on.1),
        worlds.is_prefix_of(on.0),
        events.is_prefix_of(on.1),
        forall|k: int|
            events.len() <= k < on.1.len() ==> #[trigger] on.1[k] is Wake || on.1[k] is Request,
        on.0.last().queue == queue,
        on.0.last().registry == worlds.last().registry,
        on.0.last().due == worlds.last().due,
    decreases queue.len() - worlds.last().queue.len(),
{
    let w = worlds.last();
    if w.queue.len() == queue.len() {
        assert(w.queue =~= queue);
        (worlds, events)
    } else {
        let n = w.queue.len() as int;
        let longer = queue.take(n + 1);
        assert(longer =~= w.queue.push(queue[n]));
        let (event, v) = match queue[n] {
            QueueItem::Poll(id) => (
                Event::Wake(id),
                World { queue: longer, tags: w.tags.push(0), ..w },
            ),
            QueueItem::Spawn(_) => (
                Event::Request,
                World {
                    queue: longer,
                    spawned: w.spawned + 1,
                    tags: w.tags.push(w.spawned),
                    ..w
                },
            ),
        };
        assert(happens(w, event, v));
        lemma_run_goes_on(worlds, events, event, v);
        let on = lemma_is_added_to(worlds.push(v), events.push(event), queue);
        assert(worlds.is_prefix_of(on.0));
        assert(events.is_prefix_of(on.1));
        assert forall|k: int| events.len() <= k < on.1.len() implies #[trigger] on.1[k] is Wake
            || on.1[k] is Request by {
            if k == events.len() {
                assert(on.1[k] == events.push(event)[k]);
            }
        }
        on
    }
}

/// What a moment makes of a world.
spec fn after<'a>(w: World<'a>, moment: Moment<'a>) -> World<'a> {
    match moment {
        Moment::Spawn { id, queue_post, post, .. } => World {
            registry: post,
            queue: queue_post,
            spawned: w.spawned + 1,
            tags: w.tags.push(0),
            owners: w.owners.insert(id, w.spawned),
            ..w
        },
        Moment::Step { action, queue_post, post, .. } => {
            let v = World { registry: post, queue: queue_post, ..w };
            match action {
                Action::Spawned(id) => World {
                    tags: w.tags.drop_first().push(0),
                    owners: w.owners.insert(id, w.tags[0]),
                    due: None,
                    ..v
                },
                Action::Poll(_) => World { tags: w.tags.drop_first(), due: Some(action), ..v },
                Action::Sleep => World { due: Some(action), ..v },
                Action::Return => World { due: None, ..v },
            }
        },
        Moment::Poll { id, polled, post } => {
            let v = World { registry: post, due: None, ..w };
            if polled is Ready {
                World {
                    owners: w.owners.remove(id),
                    done: w.done.insert(w.owners[id]),
                    retired: w.retired.insert(id),
                    ..v
                }
            } else {
                v
            }
        },
        Moment::Slept { .. } => World { due: None, ..w },
    }
}

/// A moment is an event of a run.
proof fn lemma_moment_happens<'a>(before: Seq<Moment<'a>>, moment: Moment<'a>, w: World<'a>)
    requires
        happened(before, moment),
        in_order(before, moment),
        w.registry == state(before),
        w.due == due(before),
        moment.has_queue() ==> w.queue == moment.queue(),
        !moment.has_queue() ==> w.queue == queue_left(before),
    ensures
        happens(w, event_of(moment), after(w, moment)),
        after(w, moment).registry == moment.post(),
        moment.has_queue() ==> after(w, moment).queue == moment.queue_post(),
        after(w, moment).queue == queue_left(before.push(moment)),
        after(w, moment).due == due(before.push(moment)),
{
    assert(before.push(moment).drop_last() =~= before);
}

/// What holds of every moment of a history holds of those before the last.
proof fn lemma_begins(history: Seq<Moment<'_>>)
    requires
        history.len() > 0,
    ensures
        follows(history) ==> follows(history.drop_last()),
        orderly(history, 0) ==> orderly(history.drop_last(), 0),
        one_queue(history) ==> one_queue(history.drop_last()),
{
    let before = history.drop_last();
    assert forall|i: int| 0 <= i < before.len() implies #[trigger] before[i] == history[i]
        && before.take(i) == history.take(i) by {
        assert(before.take(i) =~= history.take(i));
    }
}

/// A history that is what the executor does in some run goes on with one more moment.
#[verifier::rlimit(40)]
proof fn lemma_told_on<'a>(
    history: Seq<Moment<'a>>,
    worlds: Seq<World<'a>>,
    events: Seq<Event>,
    at: Seq<int>,
)
    requires
        history.len() > 0,
        happened(history.drop_last(), history.last()),
        in_order(history.drop_last(), history.last()),
        finds_its_queue(history.drop_last(), history.last()),
        tells(history.drop_last(), worlds, events, at),
    ensures
        told(history),
{
    let before = history.drop_last();
    let moment = history.last();
    let queue = if moment.has_queue() {
        moment.queue()
    } else {
        worlds.last().queue
    };
    let (worlds_on, events_on) = lemma_is_added_to(worlds, events, queue);
    let w = worlds_on.last();
    let v = after(w, moment);
    let event = event_of(moment);
    assert(before.push(moment) =~= history);
    lemma_moment_happens(before, moment, w);
    lemma_run_goes_on(worlds_on, events_on, event, v);
    let worlds_next = worlds_on.push(v);
    let events_next = events_on.push(event);
    let at_next = at.push(events_on.len() as int);
    assert(worlds_next[events_on.len() as int] == w);
    assert(worlds.is_prefix_of(worlds_next));
    assert(events.is_prefix_of(events_next));
    lemma_tells_on(history, worlds, events, at, worlds_next, events_next, at_next);
}

proof fn lemma_nothing_is_told<'a>(history: Seq<Moment<'a>>)
    requires
        history.len() == 0,
    ensures
        told(history),
{
    let w = World {
        registry: RegistryState::initial(),
        queue: Seq::empty(),
        due: None,
        spawned: 0,
        tags: Seq::empty(),
        owners: Map::empty(),
        done: Set::empty(),
        retired: Set::empty(),
    };
    assert(tells(history, seq![w], Seq::empty(), Seq::empty()));
}

/// The history of an executor that did things in order, on a queue from which nobody
/// else takes, is what the executor does in some run. So the laws of runs are laws of
/// the executor.
#[verifier::rlimit(40)]
pub proof fn law_a_history_is_a_run<'a>(history: Seq<Moment<'a>>)
    requires
        follows(history),
        orderly(history, 0),
        one_queue(history),
    ensures
        told(history),
    decreases history.len(),
{
    if history.len() == 0 {
        lemma_nothing_is_told(history);
    } else {
        let n = history.len() - 1;
        let before = history.drop_last();
        assert(history.take(n) =~= before);
        lemma_begins(history);
        law_a_history_is_a_run(before);
        let (worlds, events, at) = choose|
            worlds: Seq<World<'a>>,
            events: Seq<Event>,
            at: Seq<int>,
        |
            tells(before, worlds, events, at);
        assert(happened(before, history[n]) && in_order(before, history[n]) && finds_its_queue(
            before,
            history[n],
        ));
        lemma_told_on(history, worlds, events, at);
    }
}

#[verifier::rlimit(40)]
proof fn lemma_tells_on<'a>(
    history: Seq<Moment<'a>>,
    worlds: Seq<World<'a>>,
    events: Seq<Event>,
    at: Seq<int>,
    worlds_on: Seq<World<'a>>,
    events_on: Seq<Event>,
    at_on: Seq<int>,
)
    requires
        history.len() > 0,
        tells(history.drop_last(), worlds, events, at),
        is_run(worlds_on, events_on),
        events_on.len() > events.len(),
        worlds.is_prefix_of(worlds_on),
        events.is_prefix_of(events_on),
        at_on == at.push(events_on.len() - 1),
        forall|k: int|
            events.len() <= k < events_on.len() - 1 ==> #[trigger] events_on[k] is Wake
                || events_on[k] is Request,
        events_on.last() == event_of(history.last()),
        worlds_on[events_on.len() - 1].registry == state(history.drop_last()),
        worlds_on.last().registry == history.last().post(),
        history.last().has_queue() ==> worlds_on[events_on.len() - 1].queue
            == history.last().queue() && worlds_on.last().queue == history.last().queue_post(),
        worlds_on.last().queue == queue_left(history),
        worlds_on.last().due == due(history),
    ensures
        tells(history, worlds_on, events_on, at_on),
{
    let before = history.drop_last();
    let n = before.len() as int;
    assert forall|i: int| #![trigger at_on[i]] 0 <= i < history.len() implies {
        &&& 0 <= at_on[i] < events_on.len()
        &&& events_on[at_on[i]] == event_of(history[i])
        &&& worlds_on[at_on[i]].registry == state(history.take(i))
        &&& worlds_on[at_on[i] + 1].registry == history[i].post()
        &&& history[i].has_queue() ==> worlds_on[at_on[i]].queue == history[i].queue()
            && worlds_on[at_on[i] + 1].queue == history[i].queue_post()
    } by {
        if i < n {
            assert(at_on[i] == at[i]);
            assert(before[i] == history[i]);
            assert(before.take(i) =~= history.take(i));
            assert(worlds[at[i]] == worlds_on[at[i]]);
            assert(worlds[at[i] + 1] == worlds_on[at[i] + 1]);
            assert(events[at[i]] == events_on[at[i]]);
        } else {
            assert(history.take(i) =~= before);
        }
    }
    assert forall|i: int, j: int| 0 <= i < j < history.len() implies #[trigger] at_on[i]
        < #[trigger] at_on[j] by {
        assert(at_on[i] == at[i]);
        if j < n {
            assert(at_on[j] == at[j]);
        }
    }
    assert forall|k: int| 0 <= k < events_on.len() && !at_on.contains(k) implies #[trigger]
        events_on[k] is Wake || events_on[k] is Request by {
        if k == events_on.len() - 1 {
            assert(at_on[n] == k);
        } else if k < events.len() {
            assert(events[k] == events_on[k]);
            if at.contains(k) {
                let i = choose|i: int| 0 <= i < at.len() && at[i] == k;
                assert(at_on[i] == k);
            }
        }
    }
}

/// If, moreover, the executor was last asked to return, every future that has been
/// spawned, through the executor or through a spawner, has been driven to completion,
/// and nothing is left to do.
pub proof fn law_a_finished_history_is_complete<'a>(history: Seq<Moment<'a>>)
    requires
        follows(history),
        orderly(history, 0),
        one_queue(history),
        history.len() > 0,
        history.last().asks(Action::Return),
    ensures
        completed(history),
{
    law_a_history_is_a_run(history);
    let (worlds, events, at) = choose|
        worlds: Seq<World<'a>>,
        events: Seq<Event>,
        at: Seq<int>,
    |
        tells(history, worlds, events, at);
    let n = events.len() - 1;
    assert(at[history.len() - 1] == n);
    assert(events[n] == Event::Step(Action::Return));
    law_return_means_all_done(worlds, events, n);
    assert(happens(worlds[n], events[n], worlds[n + 1]));
    assert forall|tag: nat| tag < worlds.last().spawned implies #[trigger]
        worlds.last().done.contains(tag) by {
        assert(worlds[n].done.contains(tag));
    }
}

/// An executor that was last asked to return has driven to completion every task
/// that was registered at any point of its history.
pub proof fn law_a_finished_history_finishes_every_task<'a>(
    history: Seq<Moment<'a>>,
    k: int,
    id: TaskId,
)
    requires
        follows(history),
        history.len() > 0,
        history.last().asks(Action::Return),
        0 <= k <= history.len(),
        state(history.take(k)).tasks.contains_key(id),
    ensures
        exists|i: int|
            k <= i < history.len() && #[trigger] history[i] is Poll && history[i]->Poll_id == id
                && history[i]->Poll_polled is Ready,
    decreases history.len() - k,
{
    let n = history.len() - 1;
    assert(happened(history.take(n), history[n]));
    if k == history.len() {
        assert(history.take(k) =~= history);
        assert(state(history).tasks.dom().contains(id));
    } else {
        assert(happened(history.take(k), history[k]));
        assert(state(history.take(k + 1)) == history[k].post());
        if state(history.take(k + 1)).tasks.contains_key(id) {
            law_a_finished_history_finishes_every_task(history, k + 1, id);
        }
    }
}

/// After any history, every registered task has a waker.
pub proof fn law_tasks_of_a_history_have_wakers(history: Seq<Moment<'_>>, id: TaskId)
    requires
        follows(history),
        state(history).tasks.contains_key(id),
    ensures
        state(history).tasks[id].waker is Some,
    decreases history.len(),
{
    let n = history.len() - 1;
    let before = history.drop_last();
    assert(history.take(n) =~= before);
    assert(happened(before, history[n]));
    lemma_begins(history);
    if state(before).tasks.contains_key(id) {
        law_tasks_of_a_history_have_wakers(before, id);
    }
}

/// A registered task that was never polled stands in the queue to be polled, or is
/// handed out.
pub proof fn law_tasks_of_a_history_wait_for_their_first_poll(
    history: Seq<Moment<'_>>,
    id: TaskId,
)
    requires
        follows(history),
        orderly(history, 0),
        one_queue(history),
        state(history).tasks.contains_key(id),
        forall|i: int|
            0 <= i < history.len() && #[trigger] history[i] is Poll ==> history[i]->Poll_id != id,
    ensures
        queue_left(history).contains(QueueItem::Poll(id)) || due(history) == Some(Action::Poll(id)),
    decreases history.len(),
{
    let n = history.len() - 1;
    let before = history.drop_last();
    let moment = history.last();
    let item = QueueItem::<'_>::Poll(id);
    assert(history.take(n) =~= before);
    assert(happened(before, history[n]) && in_order(before, history[n]) && finds_its_queue(
        before,
        history[n],
    ));
    lemma_begins(history);
    if state(before).tasks.contains_key(id) {
        assert forall|i: int| 0 <= i < before.len() && #[trigger] before[i] is Poll implies
            before[i]->Poll_id != id by {
            assert(before[i] == history[i]);
        }
        law_tasks_of_a_history_wait_for_their_first_poll(before, id);
        if queue_left(before).contains(item) && moment.has_queue() {
            let k = queue_left(before).index_of(item);
            assert(moment.queue()[k] == item);
            match moment {
                Moment::Spawn { .. } => {
                    assert(moment.queue_post()[k] == item);
                },
                _ => {
                    if k > 0 {
                        assert(moment.queue_post()[k - 1] == item);
                    }
                },
            }
        }
    } else {
        assert(moment.queue_post().last() == item);
    }
}

/// How many items the executor takes from the queue in the moments from `i` up to, but
/// not including, `j`.
pub open spec fn takes(history: Seq<Moment<'_>>, i: int, j: int) -> nat
    decreases j - i,
{
    if j <= i {
        0
    } else {
        takes(history, i, j - 1) + if takes_item(history[j - 1]) {
            1nat
        } else {
            0nat
        }
    }
}

/// A turn that takes an item from the queue.
pub open spec fn takes_item(moment: Moment<'_>) -> bool {
    moment is Step && (moment->Step_action is Spawned || moment->Step_action is Poll)
}

/// What has become of the item in place `k` of the queue that the moment `i` found.
#[verifier::rlimit(40)]
proof fn lemma_moves_up(history: Seq<Moment<'_>>, i: int, j: int, k: int)
    requires
        follows(history),
        one_queue(history),
        0 <= i < j <= history.len(),
        history[i].has_queue(),
        0 <= k < history[i].queue().len(),
        takes(history, i, j) <= k,
    ensures
        k - takes(history, i, j) < queue_left(history.take(j)).len(),
        queue_left(history.take(j))[k - takes(history, i, j)] == history[i].queue()[k],
    decreases j,
{
    let m = j - 1;
    let before = history.take(m);
    assert(happened(before, history[m]) && finds_its_queue(before, history[m]));
    assert(history.take(j).drop_last() =~= before);
    assert(history.take(j).last() == history[m]);
    assert(takes(history, i, i) == 0);
    let item = history[i].queue()[k];
    let place = k - takes(history, i, m);
    if i < m {
        lemma_moves_up(history, i, m, k);
    }
    match history[m] {
        Moment::Spawn { queue, queue_post, .. } => {
            assert(queue[place] == item);
            assert(queue_post[place] == item);
        },
        Moment::Step { queue, queue_post, .. } => {
            assert(queue[place] == item);
            if takes_item(history[m]) {
                assert(queue.drop_first()[place - 1] == item);
                assert(queue_post[place - 1] == item);
            }
        },
        _ => {},
    }
}

/// The queue is first in, first out: the item in place `k` of the queue that one moment
/// finds has moved up, when another finds it, by one place for each item that the
/// executor has taken between them.
pub proof fn law_a_history_is_fifo(history: Seq<Moment<'_>>, i: int, j: int, k: int)
    requires
        follows(history),
        one_queue(history),
        0 <= i <= j < history.len(),
        history[i].has_queue(),
        history[j].has_queue(),
        0 <= k < history[i].queue().len(),
        takes(history, i, j) <= k,
    ensures
        k - takes(history, i, j) < history[j].queue().len(),
        history[j].queue()[k - takes(history, i, j)] == history[i].queue()[k],
{
    if i < j {
        lemma_moves_up(history, i, j, k);
        assert(finds_its_queue(history.take(j), history[j]));
    }
}

/// The moment at which the item in place `k` is taken.
proof fn lemma_is_taken(history: Seq<Moment<'_>>, i: int, j: int, k: int) -> (m: int)
    requires
        0 <= i <= j <= history.len(),
        0 <= k < takes(history, i, j),
    ensures
        i <= m < j,
        takes_item(history[m]),
        takes(history, i, m) == k,
    decreases j,
{
    if takes(history, i, j - 1) > k {
        lemma_is_taken(history, i, j - 1, k)
    } else {
        j - 1
    }
}

/// A task that is handed out stays due until it is polled.
proof fn lemma_due_or_polled_in(history: Seq<Moment<'_>>, i: int, j: int, id: TaskId)
    requires
        follows(history),
        orderly(history, 0),
        0 <= i <= j <= history.len(),
        due(history.take(i)) == Some(Action::Poll(id)),
    ensures
        due(history.take(j)) == Some(Action::Poll(id)) || exists|n: int|
            i <= n < j && #[trigger] history[n] is Poll && history[n]->Poll_id == id,
    decreases j,
{
    if i < j {
        let n = j - 1;
        lemma_due_or_polled_in(history, i, n, id);
        assert(happened(history.take(n), history[n]) && in_order(history.take(n), history[n]));
        assert(history.take(j).drop_last() =~= history.take(n));
        assert(history.take(j).last() == history[n]);
        if due(history.take(n)) == Some(Action::Poll(id)) && due(history.take(j)) != Some(
            Action::Poll(id),
        ) {
            assert(history[n] is Poll && history[n]->Poll_id == id);
        }
    }
}

/// No wake-up is lost: a task that stands in the queue when the executor has it, because
/// it is new or was woken, is handed out and then polled before the executor is asked to
/// sleep or to return.
pub proof fn law_a_history_loses_no_wake_up(history: Seq<Moment<'_>>, i: int, j: int, id: TaskId)
    requires
        follows(history),
        orderly(history, 0),
        one_queue(history),
        0 <= i <= j < history.len(),
        history[i].has_queue(),
        history[i].queue().contains(QueueItem::Poll(id)),
        history[j].asks(Action::Sleep) || history[j].asks(Action::Return),
    ensures
        exists|m: int, n: int|
            {
                &&& i <= m < n < j
                &&& #[trigger] history[m].asks(Action::Poll(id))
                &&& #[trigger] history[n] is Poll
                &&& history[n]->Poll_id == id
            },
{
    let k = history[i].queue().index_of(QueueItem::Poll(id));
    assert(history[i].queue()[k] == QueueItem::<'_>::Poll(id));
    assert(happened(history.take(j), history[j]));
    if takes(history, i, j) <= k {
        law_a_history_is_fifo(history, i, j, k);
    }
    let m = lemma_is_taken(history, i, j, k);
    law_a_history_is_fifo(history, i, m, k);
    assert(happened(history.take(m), history[m]));
    assert(history[m].asks(Action::Poll(id)));
    assert(history.take(m + 1).last() == history[m]);
    lemma_due_or_polled_in(history, m + 1, j, id);
    let n = choose|n: int|
        m + 1 <= n < j && #[trigger] history[n] is Poll && history[n]->Poll_id == id;
    assert(history[m].asks(Action::Poll(id)) && history[n] is Poll);
}

} // verus!
