//! What becomes of the future of a task, from its being spawned to its being dropped.

use futures::task::FutureObj;
use vstd::prelude::*;

use crate::alloc_executor::Polled;
use crate::future_box::poll_outcome;
use crate::history::{follows, happened, state, Moment};
use crate::registry::{Task, TaskId};

verus! {

/// The moment is a poll of the task `id`.
pub open spec fn is_poll_of(moment: Moment<'_>, id: TaskId) -> bool {
    moment is Poll && moment->Poll_id == id
}

/// The task `id`, as the moment `i` finds it.
pub open spec fn task_at<'a>(history: Seq<Moment<'a>>, i: int, id: TaskId) -> Task<'a> {
    state(history.take(i)).tasks[id]
}

/// The task `id` is registered when the moment `i` comes.
pub open spec fn lives_at(history: Seq<Moment<'_>>, i: int, id: TaskId) -> bool {
    state(history.take(i)).tasks.contains_key(id)
}

/// Nobody touches a task but to poll it: between two moments between which it was not
/// polled, it stays registered, with the same future and the same waker.
pub proof fn law_tasks_change_only_when_polled(
    history: Seq<Moment<'_>>,
    i: int,
    j: int,
    id: TaskId,
)
    requires
        follows(history),
        0 <= i <= j <= history.len(),
        lives_at(history, i, id),
        forall|k: int| i <= k < j ==> !is_poll_of(#[trigger] history[k], id),
    ensures
        lives_at(history, j, id),
        task_at(history, j, id) == task_at(history, i, id),
    decreases j,
{
    if i < j {
        let k = j - 1;
        law_tasks_change_only_when_polled(history, i, k, id);
        assert(happened(history.take(k), history[k]));
        assert(history.take(j).last() == history[k]);
    }
}

/// A poll goes on where the one before it has left off: what it finds is what polling that
/// task once, from what the one before it found, has left behind. Neither is a task
/// polled in between, nor more than once at a time.
pub proof fn law_polls_go_on_where_the_last_left_off(
    history: Seq<Moment<'_>>,
    i: int,
    j: int,
    id: TaskId,
)
    requires
        follows(history),
        0 <= i < j < history.len(),
        is_poll_of(history[i], id),
        history[i]->Poll_polled is Pending,
        is_poll_of(history[j], id),
        forall|k: int| i < k < j ==> !is_poll_of(#[trigger] history[k], id),
    ensures
        lives_at(history, i, id),
        lives_at(history, j, id),
        task_at(history, j, id).waker == task_at(history, i, id).waker,
        poll_outcome(
            task_at(history, i, id).future,
            task_at(history, i, id).waker->0,
            task_at(history, j, id).future,
            false,
        ),
{
    assert(happened(history.take(i), history[i]));
    assert(history.take(i + 1).last() == history[i]);
    law_tasks_change_only_when_polled(history, i + 1, j, id);
}

/// The moment `k` has polled the task `id` once and has found it ready, and the task was
/// dropped then, with its waker and with what this one poll has left of its future.
pub open spec fn ends_at<'a>(history: Seq<Moment<'a>>, k: int, id: TaskId) -> bool {
    &&& is_poll_of(history[k], id)
    &&& history[k]->Poll_polled is Ready
    &&& lives_at(history, k, id)
    &&& exists|after: FutureObj<'a, ()>| #[trigger]
        poll_outcome(
            task_at(history, k, id).future,
            task_at(history, k, id).waker->0,
            after,
            true,
        ) && (Task { future: after, waker: task_at(history, k, id).waker }).is_discarded()
}

/// A task that is not registered any more was found ready and was dropped, with the waker
/// that it had. It was dropped by that poll, not later.
pub proof fn law_tasks_that_are_gone_were_dropped(
    history: Seq<Moment<'_>>,
    i: int,
    j: int,
    id: TaskId,
)
    requires
        follows(history),
        0 <= i <= j <= history.len(),
        lives_at(history, i, id),
        !lives_at(history, j, id),
    ensures
        exists|k: int|
            {
                &&& i <= k < j
                &&& #[trigger] ends_at(history, k, id)
                &&& task_at(history, k, id).waker == task_at(history, i, id).waker
            },
    decreases j - i,
{
    if i < j {
        assert(happened(history.take(i), history[i]));
        assert(history.take(i + 1).last() == history[i]);
        if lives_at(history, i + 1, id) {
            law_tasks_that_are_gone_were_dropped(history, i + 1, j, id);
            let k = choose|k: int|
                {
                    &&& i + 1 <= k < j
                    &&& #[trigger] ends_at(history, k, id)
                    &&& task_at(history, k, id).waker == task_at(history, i + 1, id).waker
                };
            assert(ends_at(history, k, id));
        } else {
            assert(ends_at(history, i, id));
        }
    }
}

/// Identifiers bear a generation that has been.
proof fn lemma_generations(history: Seq<Moment<'_>>, i: int, id: TaskId)
    requires
        follows(history),
        0 <= i <= history.len(),
        lives_at(history, i, id),
    ensures
        id.generation <= state(history.take(i)).generation,
    decreases i,
{
    if i > 0 {
        let k = i - 1;
        assert(happened(history.take(k), history[k]));
        assert(history.take(i).last() == history[k]);
        if lives_at(history, k, id) {
            lemma_generations(history, k, id);
        }
    }
}

/// What has ended does not come back.
proof fn lemma_stays_gone(history: Seq<Moment<'_>>, i: int, j: int, id: TaskId)
    requires
        follows(history),
        0 <= i < j <= history.len(),
        is_poll_of(history[i], id),
        history[i]->Poll_polled is Ready,
    ensures
        !lives_at(history, j, id),
        id.generation < state(history.take(j)).generation,
    decreases j,
{
    let k = j - 1;
    assert(happened(history.take(k), history[k]));
    assert(history.take(j).last() == history[k]);
    if k == i {
        lemma_generations(history, i, id);
    } else {
        lemma_stays_gone(history, i, k, id);
    }
}

/// A future that was ready is never polled again: every later poll of its task finds none.
pub proof fn law_ready_futures_are_not_polled_again(
    history: Seq<Moment<'_>>,
    i: int,
    j: int,
    id: TaskId,
)
    requires
        follows(history),
        0 <= i < j < history.len(),
        is_poll_of(history[i], id),
        history[i]->Poll_polled is Ready,
        is_poll_of(history[j], id),
    ensures
        history[j]->Poll_polled == Polled::Missing,
        state(history.take(j + 1)) == state(history.take(j)),
{
    lemma_stays_gone(history, i, j, id);
    assert(happened(history.take(j), history[j]));
    assert(history.take(j + 1).last() == history[j]);
}

} // verus!
