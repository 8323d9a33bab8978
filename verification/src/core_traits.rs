//! The traits that the parts of an executor are made of.

use std::collections::VecDeque;

use futures::task::FutureObj;
use vstd::prelude::*;

verus! {

/// A registry of futures, each known by an identifier of its own.
pub trait TaskReg<'a> {
    /// Identifies a registered future.
    type Id: Copy + Send + Sync + 'static;

    /// The registered futures.
    spec fn futures(&self) -> Map<Self::Id, FutureObj<'a, ()>>;

    /// The registry is well formed.
    spec fn wf(&self) -> bool;

    /// The registry can take the future `id` out.
    spec fn can_deregister(&self, id: Self::Id) -> bool;

    /// Registers `future` under an identifier that no registered future has.
    fn register(&mut self, future: FutureObj<'a, ()>) -> (id: Self::Id)
        requires
            old(self).wf(),
        ensures
            final(self).wf(),
            !old(self).futures().contains_key(id),
            final(self).futures() == old(self).futures().insert(id, future),
    ;

    /// The future that is registered under `id`, if there is one.
    fn get_mut(&mut self, id: Self::Id) -> (future: Option<&mut FutureObj<'a, ()>>)
        requires
            old(self).wf(),
        ensures
            final(self).wf(),
            match future {
                Some(future) => {
                    &&& old(self).futures().contains_key(id)
                    &&& *future == old(self).futures()[id]
                    &&& final(self).futures() == old(self).futures().insert(id, *final(future))
                },
                None => {
                    &&& !old(self).futures().contains_key(id)
                    &&& final(self).futures() == old(self).futures()
                },
            },
    ;

    /// Takes out the future that is registered under `id`, if there is one.
    fn deregister(&mut self, id: Self::Id)
        requires
            old(self).wf(),
            old(self).can_deregister(id),
        ensures
            final(self).wf(),
            final(self).futures() == old(self).futures().remove(id),
    ;

    /// Whether no future is registered.
    fn is_empty(&self) -> (empty: bool)
        requires
            self.wf(),
        ensures
            empty == self.futures().is_empty(),
    ;
}

/// A queue of the tasks that wait to be polled.
///
/// Nothing that is enqueued gets lost and nothing else comes out. In which order
/// the identifiers come out, and whether one that is enqueued twice comes out
/// twice, is for the queue to decide.
pub trait PollQueue: Send + 'static {
    /// Identifies a task.
    type Id: Copy + Send + Sync + 'static;

    /// The tasks that wait to be polled.
    spec fn pending(&self) -> Set<Self::Id>;

    /// Enqueuing `id` once takes this queue to `post`.
    spec fn enqueues(&self, id: Self::Id, post: &Self) -> bool;

    /// Puts a task into the queue.
    fn enqueue(&mut self, id: Self::Id)
        ensures
            old(self).enqueues(id, &*final(self)),
            final(self).pending() == old(self).pending().insert(id),
    ;

    /// Takes a task out of the queue, unless the queue is empty.
    fn dequeue(&mut self) -> (id: Option<Self::Id>)
        ensures
            match id {
                Some(id) => {
                    &&& old(self).pending().contains(id)
                    &&& old(self).pending().remove(id).subset_of(final(self).pending())
                    &&& final(self).pending().subset_of(old(self).pending())
                },
                None => {
                    &&& old(self).pending().is_empty()
                    &&& final(self).pending().is_empty()
                },
            },
    ;
}

/// First in, first out.
impl<Id: Copy + Send + Sync + 'static> PollQueue for VecDeque<Id> {
    type Id = Id;

    open spec fn pending(&self) -> Set<Id> {
        self@.to_set()
    }

    open spec fn enqueues(&self, id: Id, post: &Self) -> bool {
        post@ == self@.push(id)
    }

    fn enqueue(&mut self, id: Id) {
        self.push_back(id);
        assert(self@[self@.len() - 1] == id);
        assert forall|other: Id| old(self)@.to_set().contains(other) implies
            self@.to_set().contains(other) by {
            let i = choose|i: int| 0 <= i < old(self)@.len() && old(self)@[i] == other;
            assert(self@[i] == other);
        }
        assert(self@.to_set() =~= old(self)@.to_set().insert(id));
    }

    fn dequeue(&mut self) -> (id: Option<Id>)
        ensures
            match id {
                Some(id) => {
                    &&& old(self)@.len() > 0
                    &&& id == old(self)@[0]
                    &&& final(self)@ == old(self)@.drop_first()
                },
                None => old(self)@.len() == 0 && final(self)@ == old(self)@,
            },
    {
        let id = self.pop_front();
        proof {
            if id is Some {
                assert forall|other: Id| #[trigger]
                    old(self)@.to_set().remove(id.unwrap()).contains(other) implies
                    self@.to_set().contains(other) by {
                    let i = choose|i: int| 0 <= i < old(self)@.len() && old(self)@[i] == other;
                    assert(self@[i - 1] == other);
                }
                assert forall|other: Id| #[trigger] self@.to_set().contains(other) implies
                    old(self)@.to_set().contains(other) by {
                    let i = choose|i: int| 0 <= i < self@.len() && self@[i] == other;
                    assert(old(self)@[i + 1] == other);
                }
            } else {
                assert(self@.to_set() =~= Set::empty());
            }
        }
        id
    }
}

/// Ends a sleep.
pub trait Alarm: Clone + Send + Sync + 'static {
    /// The alarm may ring: whoever it wakes up finds what it is rung for.
    ///
    /// An alarm that does not say otherwise may always ring.
    open spec fn may_ring(&self) -> bool {
        true
    }

    /// Wakes up whoever sleeps on this alarm.
    fn ring(&self)
        requires
            self.may_ring(),
    ;
}

/// A way to put the current thread to sleep until an alarm rings.
pub trait Sleep {
    /// The alarm that ends the sleep.
    type Alarm: Alarm;

    /// A new alarm.
    fn make_alarm() -> Self::Alarm;

    /// One may sleep on this alarm: there is nothing else to do.
    ///
    /// A way to sleep that does not say otherwise may always be used.
    open spec fn may_sleep(handle: &Self::Alarm) -> bool {
        true
    }

    /// Sleeps until the alarm rings.
    fn sleep(handle: &Self::Alarm)
        requires
            Self::may_sleep(handle),
    ;
}

/// What a waker does: it queues its task to be polled again and rings the alarm.
///
/// `H` is the handle through which the queue is shared. The queue has to be
/// locked for [`QueueWaker::wake`] and released before [`QueueWaker::ring`], as
/// [`QueueWaker::fire`] has it.
pub struct QueueWaker<H, Id, A> {
    /// Handle on the queue.
    pub queue: H,
    /// The task to wake.
    pub id: Id,
    /// The alarm to ring once the task is queued.
    pub alarm: A,
}

impl<H, Id: Copy + Send + Sync + 'static, A: Alarm> QueueWaker<H, Id, A> {
    /// A waker for the task `id`.
    pub fn new(queue: H, id: Id, alarm: A) -> (waker: Self)
        ensures
            waker.queue == queue,
            waker.id == id,
            waker.alarm == alarm,
    {
        QueueWaker { queue, id, alarm }
    }

    /// Puts the task into the queue.
    pub fn wake<Q: PollQueue<Id = Id>>(&self, queue: &mut Q)
        ensures
            old(queue).enqueues(self.id, &*final(queue)),
            final(queue).pending() == old(queue).pending().insert(self.id),
    {
        queue.enqueue(self.id);
    }

    /// Rings the alarm.
    pub fn ring(&self)
        requires
            self.alarm.may_ring(),
        ensures
            call_ensures(A::ring, (&self.alarm,), ()),
    {
        self.alarm.ring();
    }

    /// What it is to be woken: the task is queued, and then the alarm rings.
    ///
    /// `enqueue` locks the queue through the handle, puts the task into it and
    /// releases it, as with [`QueueWaker::wake`]. Nothing but that gives leave to ring,
    /// so whoever the alarm wakes up finds the task in the queue.
    pub fn fire<E: FnOnce(&Self)>(&self, enqueue: E)
        requires
            enqueue.requires((self,)),
            enqueue.ensures((self,), ()) ==> self.alarm.may_ring(),
        ensures
            enqueue.ensures((self,), ()),
            call_ensures(A::ring, (&self.alarm,), ()),
    {
        enqueue(self);
        self.ring();
    }
}

} // verus!
