//! In which order an executor polls and how often it sleeps, as laws of its history.

use vstd::prelude::*;

use crate::alloc_executor::{Action, AllocExecutor, QueueItem};
use crate::core_traits::Sleep;
use crate::history::{
    due, finds_its_queue, follows, goes_on, happened, in_order, nights, one_queue, orderly,
    queue_left, state, Moment,
};
use crate::registry::TaskId;

verus! {

/// How many turns found nothing in the queue while tasks were registered, and so asked to
/// sleep.
pub open spec fn idle_turns(history: Seq<Moment<'_>>) -> nat
    decreases history.len(),
{
    if history.len() == 0 {
        0
    } else {
        idle_turns(history.drop_last()) + if history.last().asks(Action::Sleep) {
            1nat
        } else {
            0nat
        }
    }
}

/// An executor that does things in order sleeps once for each turn that found nothing to
/// do, but for one whose sleep is still due, and never else.
pub proof fn law_one_sleep_for_each_idle_turn(history: Seq<Moment<'_>>)
    requires
        follows(history),
        orderly(history, 0),
    ensures
        nights(history) + if due(history) == Some(Action::Sleep) {
            1nat
        } else {
            0nat
        } == idle_turns(history),
    decreases history.len(),
{
    if history.len() > 0 {
        let n = history.len() - 1;
        let before = history.drop_last();
        assert(history.take(n) =~= before);
        assert(happened(before, history[n]) && in_order(before, history[n]));
        assert forall|i: int| 0 <= i < n implies #[trigger] before[i] == history[i]
            && before.take(i) == history.take(i) by {
            assert(before.take(i) =~= history.take(i));
        }
        law_one_sleep_for_each_idle_turn(before);
    }
}

/// An executor that does things in order has slept, on its platform, once for each turn
/// that found nothing to do, but for one whose sleep is still due, and never else.
pub proof fn law_an_executor_sleeps_once_for_each_idle_turn<'a, H, S: Sleep>(
    executor: AllocExecutor<'a, H, S>,
)
    requires
        executor.wf(),
        orderly(executor.history(), 0),
    ensures
        executor.spec_nights() + if due(executor.history()) == Some(Action::Sleep) {
            1nat
        } else {
            0nat
        } == idle_turns(executor.history()),
{
    law_one_sleep_for_each_idle_turn(executor.history());
}

/// A sleep that is due was asked for by a turn that found the queue empty while tasks were
/// registered, after which nothing else was due.
proof fn lemma_sleep_is_due(history: Seq<Moment<'_>>, from: int, j: int)
    requires
        follows(history),
        0 <= from <= j <= history.len(),
        due(history.take(j)) == Some(Action::Sleep),
        due(history.take(from)) is None,
    ensures
        exists|m: int|
            {
                &&& from <= m < j
                &&& #[trigger] history[m].asks(Action::Sleep)
                &&& history[m].queue().len() == 0
                &&& !state(history.take(m)).tasks.is_empty()
            },
    decreases j,
{
    let m = j - 1;
    assert(history.take(j).drop_last() =~= history.take(m));
    assert(history.take(j).last() == history[m]);
    assert(happened(history.take(m), history[m]));
    if history[m] is Step {
        assert(history[m].asks(Action::Sleep));
    } else {
        lemma_sleep_is_due(history, from, m);
    }
}

/// Between two sleeps the executor looks at its queue, and finds it empty while tasks are
/// registered: it does not sleep on while something waits that a ring has told it of.
pub proof fn law_looks_at_the_queue_between_sleeps(history: Seq<Moment<'_>>, i: int, j: int)
    requires
        follows(history),
        orderly(history, 0),
        0 <= i < j < history.len(),
        history[i] is Slept,
        history[j] is Slept,
    ensures
        exists|m: int|
            {
                &&& i < m < j
                &&& #[trigger] history[m].asks(Action::Sleep)
                &&& history[m].queue().len() == 0
                &&& !state(history.take(m)).tasks.is_empty()
            },
{
    assert(history.take(i + 1).last() == history[i]);
    assert(in_order(history.take(j), history[j]));
    lemma_sleep_is_due(history, i + 1, j);
}

/// Nobody but the executor adds to its queue, nor takes from it.
pub open spec fn alone(history: Seq<Moment<'_>>) -> bool {
    forall|i: int|
        0 <= i < history.len() && (#[trigger] history[i]).has_queue() ==> history[i].queue()
            == queue_left(history.take(i))
}

/// The identifiers of the first `n` moments, which are spawns, from the moment `k` on, each
/// queued to be polled.
spec fn polls_from<'a>(history: Seq<Moment<'a>>, k: int, n: int) -> Seq<QueueItem<'a>> {
    Seq::new((n - k) as nat, |i: int| QueueItem::Poll(history[k + i]->Spawn_id))
}

/// What is left to do when the tasks of the spawns before the moment `k` are done: those of
/// the first `n` moments from there on are queued and registered, and nothing else is.
spec fn left_from<'a>(
    history: Seq<Moment<'a>>,
    now: Seq<Moment<'a>>,
    k: int,
    n: int,
) -> bool {
    &&& queue_left(now) == polls_from(history, k, n)
    &&& due(now) is None
    &&& forall|m: int| k <= m < n ==> state(now).tasks.contains_key(#[trigger] history[m]->Spawn_id)
    &&& forall|id: TaskId| #[trigger]
        state(now).tasks.contains_key(id) ==> exists|m: int|
            k <= m < n && #[trigger] history[m]->Spawn_id == id
    &&& forall|l: int, m: int|
        0 <= l < m < n ==> #[trigger] history[l]->Spawn_id != #[trigger] history[m]->Spawn_id
}

/// The spawns.
proof fn lemma_spawned<'a>(history: Seq<Moment<'a>>, n: int)
    requires
        follows(history),
        alone(history),
        0 <= n <= history.len(),
        forall|i: int| 0 <= i < n ==> #[trigger] history[i] is Spawn,
    ensures
        left_from(history, history.take(n), 0, n),
    decreases n,
{
    if n > 0 {
        let m = n - 1;
        let before = history.take(m);
        let now = history.take(n);
        lemma_spawned(history, m);
        assert(happened(before, history[m]));
        assert(now.drop_last() =~= before);
        assert(now.last() == history[m]);
        assert(history[m].queue() == queue_left(before));
        assert(queue_left(now) =~= polls_from(history, 0, n));
        assert forall|id: TaskId| #[trigger] state(now).tasks.contains_key(id) implies exists|l: int|
            0 <= l < n && #[trigger] history[l]->Spawn_id == id by {
            if state(before).tasks.contains_key(id) {
                let l = choose|l: int| 0 <= l < m && #[trigger] history[l]->Spawn_id == id;
                assert(history[l]->Spawn_id == id);
            } else {
                assert(history[m]->Spawn_id == id);
            }
        }
    } else {
        assert(queue_left(history.take(0)) =~= polls_from(history, 0, 0));
    }
}

/// After `n` spawns, the turn number `m` hands out the task of the spawn number `m`, which
/// is then polled and ready.
pub open spec fn polled_in_turn(history: Seq<Moment<'_>>, n: int, m: int) -> bool {
    let id = history[m]->Spawn_id;
    &&& history[n + 2 * m].asks(Action::Poll(id))
    &&& history[n + 2 * m + 1] is Poll
    &&& history[n + 2 * m + 1]->Poll_id == id
    &&& history[n + 2 * m + 1]->Poll_polled is Ready
}

/// A turn that finds a task in front of the queue.
proof fn lemma_hands_out<'a>(before: Seq<Moment<'a>>, moment: Moment<'a>, id: TaskId)
    requires
        happened(before, moment),
        in_order(before, moment),
        due(before) is None,
        moment !is Spawn,
        moment.has_queue() ==> moment.queue() == queue_left(before),
        queue_left(before).len() > 0,
        queue_left(before)[0] == QueueItem::<'a>::Poll(id),
    ensures
        moment.asks(Action::Poll(id)),
        queue_left(before.push(moment)) == queue_left(before).drop_first(),
        due(before.push(moment)) == Some(Action::Poll(id)),
        state(before.push(moment)) == state(before),
{
}

/// The poll of a task that is ready.
proof fn lemma_is_ready<'a>(before: Seq<Moment<'a>>, moment: Moment<'a>, id: TaskId)
    requires
        happened(before, moment),
        in_order(before, moment),
        due(before) == Some(Action::Poll(id)),
        moment !is Spawn,
        moment is Poll ==> moment->Poll_polled !is Pending,
        state(before).tasks.contains_key(id),
    ensures
        moment is Poll,
        moment->Poll_id == id,
        moment->Poll_polled is Ready,
        queue_left(before.push(moment)) == queue_left(before),
        due(before.push(moment)) is None,
        state(before.push(moment)) == state(before).without(id),
{
    assert(before.push(moment).drop_last() =~= before);
}

/// One task less is left to do.
proof fn lemma_one_less<'a>(
    history: Seq<Moment<'a>>,
    before: Seq<Moment<'a>>,
    after: Seq<Moment<'a>>,
    k: int,
    n: int,
)
    requires
        0 <= k < n,
        left_from(history, before, k, n),
        queue_left(after) == queue_left(before).drop_first(),
        due(after) is None,
        state(after) == state(before).without(history[k]->Spawn_id),
    ensures
        left_from(history, after, k + 1, n),
{
    assert(queue_left(after) =~= polls_from(history, k + 1, n));
    assert forall|id: TaskId| #[trigger] state(after).tasks.contains_key(id) implies exists|m: int|
        k + 1 <= m < n && #[trigger] history[m]->Spawn_id == id by {
        assert(state(before).tasks.contains_key(id));
        let m = choose|m: int| k <= m < n && #[trigger] history[m]->Spawn_id == id;
        assert(history[m]->Spawn_id == id);
    }
    assert forall|m: int| k + 1 <= m < n implies state(after).tasks.contains_key(
        #[trigger] history[m]->Spawn_id,
    ) by {
        assert(state(before).tasks.contains_key(history[m]->Spawn_id));
        assert(history[k]->Spawn_id != history[m]->Spawn_id);
    }
}

/// The turn and the poll of the `k`-th task.
#[verifier::rlimit(40)]
proof fn lemma_polled_next<'a>(history: Seq<Moment<'a>>, n: int, k: int)
    requires
        follows(history),
        alone(history),
        0 <= n <= history.len(),
        goes_on(history.take(n), history, true),
        forall|i: int|
            0 <= i < history.len() && #[trigger] history[i] is Poll ==> history[i]->Poll_polled
                !is Pending,
        0 <= k < n,
        n + 2 * k < history.len(),
        left_from(history, history.take(n + 2 * k), k, n),
    ensures
        n + 2 * k + 2 < history.len(),
        polled_in_turn(history, n, k),
        left_from(history, history.take(n + 2 * k + 2), k + 1, n),
{
    let i = n + 2 * k;
    let id = history[k]->Spawn_id;
    let before = history.take(i);
    let middle = history.take(i + 1);
    let after = history.take(i + 2);
    assert(queue_left(before)[0] == QueueItem::<'a>::Poll(id));
    assert(state(before).tasks.contains_key(id));
    let step = history[i];
    assert(happened(before, step) && in_order(before, step));
    lemma_hands_out(before, step, id);
    assert(i < history.len() - 1) by {
        assert(history.last().asks(Action::Return));
    }
    assert(middle =~= before.push(step));
    let poll = history[i + 1];
    assert(happened(middle, poll) && in_order(middle, poll));
    lemma_is_ready(middle, poll, id);
    assert(i + 1 < history.len() - 1) by {
        assert(history.last().asks(Action::Return));
    }
    assert(after =~= middle.push(poll));
    lemma_one_less(history, before, after, k, n);
}

/// The first `k` tasks.
proof fn lemma_polled_in_turn<'a>(history: Seq<Moment<'a>>, n: int, k: int)
    requires
        follows(history),
        alone(history),
        0 <= n <= history.len(),
        forall|i: int| 0 <= i < n ==> #[trigger] history[i] is Spawn,
        goes_on(history.take(n), history, true),
        forall|i: int|
            0 <= i < history.len() && #[trigger] history[i] is Poll ==> history[i]->Poll_polled
                !is Pending,
        0 <= k <= n,
    ensures
        n + 2 * k < history.len(),
        left_from(history, history.take(n + 2 * k), k, n),
        forall|m: int| 0 <= m < k ==> #[trigger] polled_in_turn(history, n, m),
    decreases k,
{
    if k == 0 {
        lemma_spawned(history, n);
    } else {
        lemma_polled_in_turn(history, n, k - 1);
        lemma_polled_next(history, n, k - 1);
        assert(n + 2 * (k - 1) + 2 == n + 2 * k);
    }
}

/// Tasks that are spawned into a new executor and are ready when they are first polled are
/// polled in the order in which they were spawned, each of them once, if nobody wakes or
/// spawns any meanwhile: a run that is finished has taken a turn for each, has polled it,
/// and has taken one more turn to find that nothing is left. It never sleeps.
pub proof fn law_tasks_are_polled_in_the_order_of_spawning<'a>(history: Seq<Moment<'a>>, n: int)
    requires
        follows(history),
        alone(history),
        0 <= n <= history.len(),
        forall|i: int| 0 <= i < n ==> #[trigger] history[i] is Spawn,
        goes_on(history.take(n), history, true),
        forall|i: int|
            0 <= i < history.len() && #[trigger] history[i] is Poll ==> history[i]->Poll_polled
                !is Pending,
    ensures
        history.len() == n + 2 * n + 1,
        forall|m: int| 0 <= m < n ==> #[trigger] polled_in_turn(history, n, m),
        history.last().asks(Action::Return),
        nights(history) == 0,
{
    lemma_polled_in_turn(history, n, n);
    let i = n + 2 * n;
    let before = history.take(i);
    assert(happened(before, history[i]) && in_order(before, history[i]));
    assert(history[i] !is Spawn);
    assert(history[i].queue().len() == 0);
    assert(state(before).tasks.dom() =~= Set::empty()) by {
        assert forall|id: TaskId| !state(before).tasks.dom().contains(id) by {
            if state(before).tasks.contains_key(id) {
                let m = choose|m: int| n <= m < n && #[trigger] history[m]->Spawn_id == id;
            }
        }
    }
    assert(history[i].asks(Action::Return));
    assert forall|j: int| 0 <= j < history.len() implies #[trigger] history[j] !is Slept by {
        if n <= j < i {
            let m = (j - n) / 2;
            assert(polled_in_turn(history, n, m));
            assert(j == n + 2 * m || j == n + 2 * m + 1);
        }
    }
    lemma_no_night(history);
}

proof fn lemma_no_night(history: Seq<Moment<'_>>)
    requires
        forall|j: int| 0 <= j < history.len() ==> #[trigger] history[j] !is Slept,
    ensures
        nights(history) == 0,
    decreases history.len(),
{
    if history.len() > 0 {
        let before = history.drop_last();
        assert forall|j: int| 0 <= j < before.len() implies #[trigger] before[j] !is Slept by {
            assert(before[j] == history[j]);
        }
        lemma_no_night(before);
    }
}

/// `item` with the tasks renamed.
pub open spec fn renamed_item<'a>(
    names: spec_fn(TaskId) -> TaskId,
    item: QueueItem<'a>,
) -> QueueItem<'a> {
    match item {
        QueueItem::Poll(id) => QueueItem::Poll(names(id)),
        QueueItem::Spawn(_) => item,
    }
}

/// A queue with the tasks renamed.
pub open spec fn renamed<'a>(
    names: spec_fn(TaskId) -> TaskId,
    queue: Seq<QueueItem<'a>>,
) -> Seq<QueueItem<'a>> {
    Seq::new(queue.len(), |i: int| renamed_item(names, queue[i]))
}

/// `action` with the tasks renamed.
pub open spec fn renamed_action(names: spec_fn(TaskId) -> TaskId, action: Action) -> Action {
    match action {
        Action::Spawned(id) => Action::Spawned(names(id)),
        Action::Poll(id) => Action::Poll(names(id)),
        Action::Sleep => Action::Sleep,
        Action::Return => Action::Return,
    }
}

/// What has been added to the queue since the executor last had it.
pub open spec fn added<'a>(history: Seq<Moment<'a>>, i: int) -> Seq<QueueItem<'a>> {
    history[i].queue().skip(queue_left(history.take(i)).len() as int)
}

/// The moments `i` of the two histories are the same call: what was added to the queue is
/// the same, a poll has the same outcome, and a new task of the one history bears the
/// name that the new task of the other is known by. Nothing is said of what a turn asks
/// for, nor of which task is polled.
pub open spec fn same_call<'a>(
    history: Seq<Moment<'a>>,
    other: Seq<Moment<'a>>,
    names: spec_fn(TaskId) -> TaskId,
    i: int,
) -> bool {
    match (history[i], other[i]) {
        (Moment::Spawn { id, .. }, Moment::Spawn { id: other_id, .. }) => {
            &&& names(id) == other_id
            &&& renamed(names, added(history, i)) == added(other, i)
        },
        (Moment::Step { action, .. }, Moment::Step { action: other_action, .. }) => {
            &&& renamed(names, added(history, i)) == added(other, i)
            &&& action is Spawned && other_action is Spawned ==> names(action->Spawned_0)
                == other_action->Spawned_0
        },
        (Moment::Poll { polled, .. }, Moment::Poll { polled: other_polled, .. }) => polled
            == other_polled,
        (Moment::Slept { .. }, Moment::Slept { .. }) => true,
        _ => false,
    }
}

/// The two histories have come to the same, but for the names of the tasks.
spec fn alike<'a>(
    history: Seq<Moment<'a>>,
    other: Seq<Moment<'a>>,
    names: spec_fn(TaskId) -> TaskId,
) -> bool {
    &&& renamed(names, queue_left(history)) == queue_left(other)
    &&& due(other) == match due(history) {
        Some(action) => Some(renamed_action(names, action)),
        None => None,
    }
    &&& forall|id: TaskId| #[trigger]
        state(history).tasks.contains_key(id) ==> state(other).tasks.contains_key(names(id))
    &&& forall|id: TaskId| #[trigger]
        state(other).tasks.contains_key(id) ==> exists|from: TaskId| #[trigger]
            state(history).tasks.contains_key(from) && names(from) == id
}

/// The moment `i` does the same to both.
#[verifier::rlimit(60)]
proof fn lemma_alike_on<'a>(
    history: Seq<Moment<'a>>,
    other: Seq<Moment<'a>>,
    names: spec_fn(TaskId) -> TaskId,
    i: int,
)
    requires
        0 <= i < history.len(),
        i < other.len(),
        happened(history.take(i), history[i]),
        happened(other.take(i), other[i]),
        in_order(history.take(i), history[i]),
        in_order(other.take(i), other[i]),
        finds_its_queue(history.take(i), history[i]),
        finds_its_queue(other.take(i), other[i]),
        forall|a: TaskId, b: TaskId| #[trigger] names(a) == #[trigger] names(b) ==> a == b,
        same_call(history, other, names, i),
        alike(history.take(i), other.take(i), names),
    ensures
        history[i] is Step ==> other[i]->Step_action == renamed_action(
            names,
            history[i]->Step_action,
        ),
        history[i] is Poll ==> other[i]->Poll_id == names(history[i]->Poll_id),
        alike(history.take(i + 1), other.take(i + 1), names),
{
    let before = history.take(i);
    let before_other = other.take(i);
    let after = history.take(i + 1);
    let after_other = other.take(i + 1);
    assert(after.drop_last() =~= before && after.last() == history[i]);
    assert(after_other.drop_last() =~= before_other && after_other.last() == other[i]);
    if history[i].has_queue() {
        let queue = history[i].queue();
        let queue_other = other[i].queue();
        assert(queue =~= queue_left(before) + added(history, i));
        assert(queue_other =~= queue_left(before_other) + added(other, i));
        assert(renamed(names, queue) =~= renamed(names, queue_left(before)) + renamed(
            names,
            added(history, i),
        ));
        assert(queue_other == renamed(names, queue));
        lemma_tasks_alike(before, before_other, names);
        if queue.len() > 0 {
            assert(queue_other[0] == renamed_item(names, queue[0]));
            assert(renamed(names, queue.drop_first()) =~= queue_other.drop_first());
        }
    }
    assert(renamed(names, queue_left(after)) =~= queue_left(after_other));
    assert forall|id: TaskId| #[trigger] state(after).tasks.contains_key(id) implies state(
        after_other,
    ).tasks.contains_key(names(id)) by {
        if state(before).tasks.contains_key(id) {
            assert(state(before_other).tasks.contains_key(names(id)));
        }
    }
    assert forall|id: TaskId| #[trigger] state(after_other).tasks.contains_key(id) implies exists|
        from: TaskId,
    | #[trigger] state(after).tasks.contains_key(from) && names(from) == id by {
        if state(before_other).tasks.contains_key(id) {
            let from = choose|from: TaskId| #[trigger]
                state(before).tasks.contains_key(from) && names(from) == id;
            assert(state(after).tasks.contains_key(from));
        } else {
            let from = match history[i] {
                Moment::Spawn { id, .. } => id,
                Moment::Step { action, .. } => action->Spawned_0,
                _ => id,
            };
            assert(state(after).tasks.contains_key(from));
        }
    }
}

proof fn lemma_tasks_alike<'a>(
    history: Seq<Moment<'a>>,
    other: Seq<Moment<'a>>,
    names: spec_fn(TaskId) -> TaskId,
)
    requires
        alike(history, other, names),
    ensures
        state(history).tasks.is_empty() == state(other).tasks.is_empty(),
{
    let tasks = state(history).tasks;
    let tasks_other = state(other).tasks;
    if tasks.is_empty() {
        assert forall|id: TaskId| !tasks_other.dom().contains(id) by {
            if tasks_other.contains_key(id) {
                let from = choose|from: TaskId| #[trigger]
                    tasks.contains_key(from) && names(from) == id;
                assert(tasks.dom().contains(from));
            }
        }
        assert(tasks_other.dom() =~= Set::empty());
    } else {
        assert(exists|id: TaskId| tasks.dom().contains(id)) by {
            if forall|id: TaskId| !tasks.dom().contains(id) {
                assert(tasks.dom() =~= Set::empty());
            }
        }
        let id = choose|id: TaskId| tasks.dom().contains(id);
        assert(tasks.contains_key(id));
        assert(tasks_other.dom().contains(names(id)));
    }
}

proof fn lemma_alike<'a>(
    history: Seq<Moment<'a>>,
    other: Seq<Moment<'a>>,
    names: spec_fn(TaskId) -> TaskId,
    i: int,
)
    requires
        follows(history) && follows(other),
        orderly(history, 0) && orderly(other, 0),
        one_queue(history) && one_queue(other),
        forall|a: TaskId, b: TaskId| #[trigger] names(a) == #[trigger] names(b) ==> a == b,
        0 <= i <= history.len(),
        i <= other.len(),
        forall|j: int| 0 <= j < i ==> #[trigger] same_call(history, other, names, j),
    ensures
        alike(history.take(i), other.take(i), names),
    decreases i,
{
    if i == 0 {
        assert(renamed(names, queue_left(history.take(0))) =~= queue_left(other.take(0)));
    } else {
        let j = i - 1;
        lemma_alike(history, other, names, j);
        assert(same_call(history, other, names, j));
        assert(happened(history.take(j), history[j]) && happened(other.take(j), other[j]));
        assert(in_order(history.take(j), history[j]) && in_order(other.take(j), other[j]));
        assert(finds_its_queue(history.take(j), history[j]) && finds_its_queue(
            other.take(j),
            other[j],
        ));
        lemma_alike_on(history, other, names, j);
    }
}

/// Equal calls, with equal outcomes of the polls, make two executors ask for the same and
/// poll the same tasks, in the same order, whatever capacities they were made with and
/// whichever slots their tasks got: `names` has, for the tasks of the one executor, the
/// identifiers that those of the other have.
pub proof fn law_equal_calls_give_equal_actions<'a>(
    history: Seq<Moment<'a>>,
    other: Seq<Moment<'a>>,
    names: spec_fn(TaskId) -> TaskId,
    i: int,
)
    requires
        follows(history) && follows(other),
        orderly(history, 0) && orderly(other, 0),
        one_queue(history) && one_queue(other),
        forall|a: TaskId, b: TaskId| #[trigger] names(a) == #[trigger] names(b) ==> a == b,
        0 <= i < history.len(),
        i < other.len(),
        forall|j: int| 0 <= j <= i ==> #[trigger] same_call(history, other, names, j),
    ensures
        history[i] is Step ==> other[i]->Step_action == renamed_action(
            names,
            history[i]->Step_action,
        ),
        history[i] is Poll ==> other[i]->Poll_id == names(history[i]->Poll_id),
{
    lemma_alike(history, other, names, i);
    assert(same_call(history, other, names, i));
    assert(happened(history.take(i), history[i]) && happened(other.take(i), other[i]));
    assert(in_order(history.take(i), history[i]) && in_order(other.take(i), other[i]));
    assert(finds_its_queue(history.take(i), history[i]) && finds_its_queue(
        other.take(i),
        other[i],
    ));
    lemma_alike_on(history, other, names, i);
}

} // verus!
