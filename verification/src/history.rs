//! What an executor has done so far, moment by moment.
//!
//! An executor keeps its history as ghost state. Each function that touches the
//! registry or the queue adds one [`Moment`], so a contract can speak of the order in
//! which things were done, and of the queue that each turn found.

use vstd::prelude::*;

use crate::alloc_executor::{polls, spawns, steps, Action, Polled, QueueItem};
use crate::registry::{RegistryState, TaskId};

verus! {

/// One thing that an executor has done.
///
/// `post` is the registry afterwards; `queue` and `queue_post` are the queue before
/// and afterwards, where the executor had it.
pub enum Moment<'a> {
    /// A future was spawned into the executor, as the task `id`.
    Spawn {
        id: TaskId,
        queue: Seq<QueueItem<'a>>,
        queue_post: Seq<QueueItem<'a>>,
        post: RegistryState<'a>,
    },
    /// The executor took a turn and asked for `action`.
    Step {
        action: Action,
        queue: Seq<QueueItem<'a>>,
        queue_post: Seq<QueueItem<'a>>,
        post: RegistryState<'a>,
    },
    /// The task `id` was polled.
    Poll { id: TaskId, polled: Polled, post: RegistryState<'a> },
    /// The executor has slept.
    Slept { post: RegistryState<'a> },
}

impl<'a> Moment<'a> {
    /// The registry afterwards.
    pub open spec fn post(self) -> RegistryState<'a> {
        match self {
            Moment::Spawn { post, .. } => post,
            Moment::Step { post, .. } => post,
            Moment::Poll { post, .. } => post,
            Moment::Slept { post } => post,
        }
    }

    /// The executor had the queue.
    pub open spec fn has_queue(self) -> bool {
        self is Spawn || self is Step
    }

    /// The queue before.
    pub open spec fn queue(self) -> Seq<QueueItem<'a>> {
        match self {
            Moment::Spawn { queue, .. } => queue,
            Moment::Step { queue, .. } => queue,
            _ => Seq::empty(),
        }
    }

    /// The queue afterwards.
    pub open spec fn queue_post(self) -> Seq<QueueItem<'a>> {
        match self {
            Moment::Spawn { queue_post, .. } => queue_post,
            Moment::Step { queue_post, .. } => queue_post,
            _ => Seq::empty(),
        }
    }

    /// The action that this is the doing of.
    pub open spec fn done_for(self) -> Option<Action> {
        match self {
            Moment::Poll { id, .. } => Some(Action::Poll(id)),
            Moment::Slept { .. } => Some(Action::Sleep),
            _ => None,
        }
    }

    /// A turn that asked for `action`.
    pub open spec fn asks(self, action: Action) -> bool {
        self is Step && self->Step_action == action
    }
}

/// The registry after `history`.
pub open spec fn state<'a>(history: Seq<Moment<'a>>) -> RegistryState<'a> {
    if history.len() == 0 {
        RegistryState::initial()
    } else {
        history.last().post()
    }
}

/// The queue as the executor left it when it last had it.
pub open spec fn queue_left<'a>(history: Seq<Moment<'a>>) -> Seq<QueueItem<'a>>
    decreases history.len(),
{
    if history.len() == 0 {
        Seq::empty()
    } else if history.last().has_queue() {
        history.last().queue_post()
    } else {
        queue_left(history.drop_last())
    }
}

/// What the last turn has asked for and is still to be done: to poll a task, or to
/// sleep.
pub open spec fn due(history: Seq<Moment<'_>>) -> Option<Action>
    decreases history.len(),
{
    if history.len() == 0 {
        None
    } else {
        match history.last() {
            Moment::Spawn { .. } => due(history.drop_last()),
            Moment::Step { action, .. } => match action {
                Action::Poll(_) | Action::Sleep => Some(action),
                Action::Spawned(_) | Action::Return => None,
            },
            Moment::Poll { .. } | Moment::Slept { .. } => None,
        }
    }
}

/// After `before`, `moment` changes the registry and the queue as it should; a turn
/// finds that nothing is due.
pub open spec fn happened<'a>(before: Seq<Moment<'a>>, moment: Moment<'a>) -> bool {
    let pre = state(before);
    match moment {
        Moment::Spawn { id, queue, queue_post, post } => spawns(
            pre,
            queue,
            post.tasks[id].future,
            id,
            post,
            queue_post,
        ),
        Moment::Step { action, queue, queue_post, post } => {
            &&& due(before) is None
            &&& steps(pre, queue, action, post, queue_post)
        },
        Moment::Poll { id, polled, post } => polls(pre, id, polled, post),
        Moment::Slept { post } => post == pre,
    }
}

/// After `before`, a task is polled only if that is due, and the executor sleeps only
/// if that is due.
pub open spec fn in_order<'a>(before: Seq<Moment<'a>>, moment: Moment<'a>) -> bool {
    match moment {
        Moment::Poll { id, .. } => due(before) == Some(Action::Poll(id)),
        Moment::Slept { .. } => due(before) == Some(Action::Sleep),
        _ => true,
    }
}

/// After `before`, the executor finds its queue as it left it, but for what has been
/// added at the back.
pub open spec fn finds_its_queue<'a>(before: Seq<Moment<'a>>, moment: Moment<'a>) -> bool {
    moment.has_queue() ==> queue_left(before).is_prefix_of(moment.queue())
}

/// Every moment of `history` changes the registry and the queue as it should.
pub open spec fn follows(history: Seq<Moment<'_>>) -> bool {
    forall|i: int|
        0 <= i < history.len() ==> happened(history.take(i), #[trigger] history[i])
}

/// From the moment `from` on, tasks are polled, and the executor sleeps, when that is
/// due and not otherwise.
pub open spec fn orderly(history: Seq<Moment<'_>>, from: int) -> bool {
    forall|i: int|
        from <= i < history.len() ==> in_order(history.take(i), #[trigger] history[i])
}

/// All turns were taken on one queue, which was empty at first and from which nobody
/// but the executor takes.
pub open spec fn one_queue(history: Seq<Moment<'_>>) -> bool {
    forall|i: int|
        0 <= i < history.len() ==> finds_its_queue(history.take(i), #[trigger] history[i])
}

/// How many turns the executor has taken from the moment `from` on.
pub open spec fn turns(history: Seq<Moment<'_>>, from: int) -> nat
    decreases history.len(),
{
    if history.len() <= from || history.len() == 0 {
        0
    } else {
        turns(history.drop_last(), from) + if history.last() is Step {
            1nat
        } else {
            0nat
        }
    }
}

/// How often the executor has slept.
pub open spec fn nights(history: Seq<Moment<'_>>) -> nat
    decreases history.len(),
{
    if history.len() == 0 {
        0
    } else {
        nights(history.drop_last()) + if history.last() is Slept {
            1nat
        } else {
            0nat
        }
    }
}

/// A turn that asks for `action` takes `history` to `post`.
pub open spec fn took_turn<'a>(
    history: Seq<Moment<'a>>,
    action: Action,
    post: Seq<Moment<'a>>,
) -> bool {
    &&& post == history.push(post.last())
    &&& post.last().asks(action)
}

/// Doing what `action` asks for takes `history` to `post`: a task is polled, the
/// executor sleeps, or there is nothing to do.
pub open spec fn performed<'a>(
    history: Seq<Moment<'a>>,
    action: Action,
    post: Seq<Moment<'a>>,
) -> bool {
    match action {
        Action::Poll(id) => {
            &&& post == history.push(post.last())
            &&& post.last() is Poll
            &&& post.last()->Poll_id == id
        },
        Action::Sleep => post == history.push(Moment::Slept { post: state(history) }),
        Action::Spawned(_) | Action::Return => post == history,
    }
}

/// `history` goes on from `start` as a run of the executor does: what is due is done
/// before the next turn, nothing else is done, and a turn that asks to return is the
/// last.
pub open spec fn goes_on<'a>(
    start: Seq<Moment<'a>>,
    history: Seq<Moment<'a>>,
    finished: bool,
) -> bool {
    &&& start.is_prefix_of(history)
    &&& orderly(history, start.len() as int)
    &&& due(history) is None
    &&& forall|i: int|
        start.len() <= i < history.len() ==> #[trigger] history[i] !is Spawn && (
        history[i].asks(Action::Return) ==> finished && i == history.len() - 1)
    &&& finished ==> history.len() > start.len() && history.last().asks(Action::Return)
}

/// One more moment that changes the registry and the queue as it should.
pub(crate) proof fn lemma_follows_on<'a>(history: Seq<Moment<'a>>, moment: Moment<'a>)
    requires
        follows(history),
        happened(history, moment),
    ensures
        follows(history.push(moment)),
        nights(history.push(moment)) == nights(history) + if moment is Slept {
            1nat
        } else {
            0nat
        },
        moment is Spawn ==> due(history.push(moment)) == due(history),
{
    let longer = history.push(moment);
    assert(longer.drop_last() =~= history);
    assert forall|i: int| 0 <= i < longer.len() implies happened(
        longer.take(i),
        #[trigger] longer[i],
    ) by {
        assert(longer.take(i) =~= history.take(i));
        if i == history.len() {
            assert(history.take(i) =~= history);
        } else {
            assert(longer[i] == history[i]);
        }
    }
}

/// One more moment that is in order.
pub(crate) proof fn lemma_orderly_on<'a>(history: Seq<Moment<'a>>, moment: Moment<'a>, from: int)
    requires
        0 <= from,
        orderly(history, from),
        in_order(history, moment),
    ensures
        orderly(history.push(moment), from),
{
    let longer = history.push(moment);
    assert forall|i: int| from <= i < longer.len() implies in_order(
        longer.take(i),
        #[trigger] longer[i],
    ) by {
        assert(longer.take(i) =~= history.take(i));
        if i == history.len() {
            assert(history.take(i) =~= history);
        } else {
            assert(longer[i] == history[i]);
        }
    }
}

/// What was in order, and goes on in order, is in order.
pub(crate) proof fn lemma_orderly_whole<'a>(start: Seq<Moment<'a>>, history: Seq<Moment<'a>>)
    requires
        start.is_prefix_of(history),
        orderly(start, 0),
        orderly(history, start.len() as int),
    ensures
        orderly(history, 0),
{
    assert forall|i: int| 0 <= i < history.len() implies in_order(
        history.take(i),
        #[trigger] history[i],
    ) by {
        if i < start.len() {
            assert(history[i] == start[i]);
            assert(history.take(i) =~= start.take(i));
        }
    }
}

/// A turn, and what it asks for.
pub(crate) proof fn lemma_goes_on<'a>(
    start: Seq<Moment<'a>>,
    before: Seq<Moment<'a>>,
    action: Action,
    middle: Seq<Moment<'a>>,
    after: Seq<Moment<'a>>,
)
    requires
        goes_on(start, before, false),
        took_turn(before, action, middle),
        performed(middle, action, after),
    ensures
        goes_on(start, after, action is Return),
        turns(after, start.len() as int) == turns(before, start.len() as int) + 1,
        after.len() > before.len(),
        after.take(before.len() as int) == before,
        after.take(before.len() as int + 1) == middle,
        after[before.len() as int].asks(action),
        forall|i: int|
            before.len() < i < after.len() ==> #[trigger] after[i] !is Step,
{
    let n = start.len() as int;
    let step = middle.last();
    assert(middle.drop_last() =~= before);
    lemma_orderly_on(before, step, n);
    assert(turns(middle, n) == turns(before, n) + 1);
    if action is Poll || action is Sleep {
        let done = after.last();
        assert(after.drop_last() =~= middle);
        lemma_orderly_on(middle, done, n);
        assert(turns(after, n) == turns(middle, n));
    }
    assert(after.take(before.len() as int) =~= before);
    assert(after.take(before.len() as int + 1) =~= middle);
    assert forall|i: int| start.len() <= i < after.len() implies #[trigger] after[i] !is Spawn && (
    after[i].asks(Action::Return) ==> action is Return && i == after.len() - 1) by {
        if i < before.len() {
            assert(after[i] == before[i]);
        }
    }
}

} // verus!
