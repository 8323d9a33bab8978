//! The task registry: a generational arena of spawned tasks.
//!
//! Every registered task is known by a [`TaskId`]. An identifier stays valid
//! for as long as its task is registered and is never handed out again, so a
//! waker that outlives its task can do no harm.

use core::task::Waker;

use futures::task::FutureObj;
use generational_arena::{Arena, Index};
use vstd::prelude::*;

use crate::core_traits::TaskReg;

verus! {

/// `core::task::Waker`, carried through without looking inside.
#[verifier::external_type_specification]
#[verifier::external_body]
pub struct ExWaker(Waker);

/// `generational_arena::Arena`; what it holds is [`arena_tasks`].
#[verifier::external_type_specification]
#[verifier::external_body]
#[verifier::reject_recursive_types(T)]
pub struct ExArena<T>(Arena<T>);

/// The largest capacity that a registry or a queue can be asked to start with.
///
/// No entry takes more than 64 bytes, so half of the address space, the most
/// that one allocation can have, is never exceeded.
pub const MAX_CAPACITY: usize = usize::MAX / 128;

/// Identifies one task: the slot that it occupies, and the generation of the
/// registry at the time when it was put there.
#[derive(Clone, Copy, PartialEq, Eq, Structural, Debug)]
pub struct TaskId {
    /// Slot of the registry.
    pub index: usize,
    /// Number of tasks that had been removed when the slot was filled.
    pub generation: u64,
}

/// A spawned future together with the waker that it is polled with.
pub struct Task<'a> {
    /// The future to drive to completion.
    pub future: FutureObj<'a, ()>,
    /// The waker, once it has been set.
    pub waker: Option<Waker>,
}

impl<'a> Task<'a> {
    /// A task for `future` whose waker is not set yet.
    pub fn new(future: FutureObj<'a, ()>) -> (task: Task<'a>)
        ensures
            task.future == future,
            task.waker is None,
    {
        Task { future, waker: None }
    }

    /// The task has been dropped, with its future and its waker: it was handed, as an error,
    /// to `Result::ok`, which consumes an error and discards it.
    pub open spec fn is_discarded(self) -> bool {
        call_ensures(Result::<(), Task<'a>>::ok, (Err(self),), None)
    }

    /// Drops the task, with its future and its waker.
    pub fn discard(self)
        ensures
            self.is_discarded(),
    {
        let task: Result<(), Task<'a>> = Err(self);
        task.ok();
    }

    /// Sets the waker that the task is polled with.
    pub fn set_waker(&mut self, waker: Waker)
        ensures
            final(self).future == old(self).future,
            final(self).waker == Some(waker),
    {
        self.waker = Some(waker);
    }
}

/// The tasks that an arena holds, by their identifiers: one entry for each
/// occupied slot, under that slot and the generation written in it.
pub uninterp spec fn arena_tasks(arena: Arena<Task<'_>>) -> Map<TaskId, Task<'_>>;

/// The generation that an arena gives to the next task that is inserted.
pub uninterp spec fn arena_generation(arena: Arena<Task<'_>>) -> u64;

/// Calls `Arena::with_capacity`: an empty arena of generation zero.
///
/// The call panics where the slots would not fit in one allocation, which
/// [`MAX_CAPACITY`] rules out. How much is allocated is not stated.
#[verifier::external_body]
fn arena_with_capacity<'a>(capacity: usize) -> (arena: Arena<Task<'a>>)
    requires
        capacity <= MAX_CAPACITY,
    ensures
        arena_tasks(arena).is_empty(),
        arena_generation(arena) == 0,
{
    Arena::with_capacity(capacity)
}

/// Calls `Arena::insert`: the task is stored in a slot that no other task
/// occupies, under the arena's current generation, and the rest of the arena
/// stays as it is.
///
/// Which of the free slots is taken is not stated. As with any collection of
/// the standard library, memory is taken to be available when the arena grows.
#[verifier::external_body]
fn arena_insert<'a>(arena: &mut Arena<Task<'a>>, task: Task<'a>) -> (id: TaskId)
    ensures
        forall|other: TaskId| #[trigger]
            arena_tasks(*old(arena)).contains_key(other) ==> other.index != id.index,
        id.generation == arena_generation(*old(arena)),
        arena_tasks(*final(arena)) == arena_tasks(*old(arena)).insert(id, task),
        arena_generation(*final(arena)) == arena_generation(*old(arena)),
{
    let (index, generation) = arena.insert(task).into_raw_parts();
    TaskId { index, generation }
}

/// Calls `Arena::get_mut`: a reference to the task with this identifier, if
/// the arena holds one; what is written through it is the only change.
#[verifier::external_body]
fn arena_get_mut<'r, 'a>(arena: &'r mut Arena<Task<'a>>, id: TaskId) -> (task: Option<
    &'r mut Task<'a>,
>)
    ensures
        match task {
            Some(task) => {
                &&& arena_tasks(*old(arena)).contains_key(id)
                &&& *task == arena_tasks(*old(arena))[id]
                &&& arena_tasks(*final(arena)) == arena_tasks(*old(arena)).insert(id, *final(task))
                &&& arena_generation(*final(arena)) == arena_generation(*old(arena))
            },
            None => {
                &&& !arena_tasks(*old(arena)).contains_key(id)
                &&& *final(arena) == *old(arena)
            },
        },
{
    arena.get_mut(Index::from_raw_parts(id.index, id.generation))
}

/// Calls `Arena::remove`: takes out the task with this identifier and starts a
/// new generation, or leaves the arena as it is where it holds no such task.
///
/// The generation is a `u64` that is incremented without a check, so a removal
/// from an arena that has reached the last one is left out.
#[verifier::external_body]
fn arena_remove<'a>(arena: &mut Arena<Task<'a>>, id: TaskId) -> (task: Option<Task<'a>>)
    requires
        arena_tasks(*old(arena)).contains_key(id) ==> arena_generation(*old(arena)) < u64::MAX,
    ensures
        match task {
            Some(task) => {
                &&& arena_tasks(*old(arena)).contains_key(id)
                &&& task == arena_tasks(*old(arena))[id]
                &&& arena_tasks(*final(arena)) == arena_tasks(*old(arena)).remove(id)
                &&& arena_generation(*final(arena)) == arena_generation(*old(arena)) + 1
            },
            None => {
                &&& !arena_tasks(*old(arena)).contains_key(id)
                &&& *final(arena) == *old(arena)
            },
        },
{
    arena.remove(Index::from_raw_parts(id.index, id.generation))
}

/// Calls `Arena::is_empty`: whether the arena holds no task.
#[verifier::external_body]
fn arena_is_empty(arena: &Arena<Task<'_>>) -> (empty: bool)
    ensures
        empty == arena_tasks(*arena).is_empty(),
{
    arena.is_empty()
}

/// What a registry stands for.
#[verifier::ext_equal]
pub struct RegistryState<'a> {
    /// The registered tasks.
    pub tasks: Map<TaskId, Task<'a>>,
    /// The number of tasks that have been taken out so far.
    pub generation: nat,
}

impl<'a> RegistryState<'a> {
    /// No task is registered, and none has been taken out.
    pub open spec fn initial() -> RegistryState<'a> {
        RegistryState { tasks: Map::empty(), generation: 0 }
    }

    /// `task` is registered under `id`, which belonged to no task and bears the
    /// current generation; all else stays.
    pub open spec fn inserts(self, id: TaskId, task: Task<'a>, post: RegistryState<'a>) -> bool {
        &&& !self.tasks.contains_key(id)
        &&& id.generation == self.generation
        &&& post.tasks == self.tasks.insert(id, task)
        &&& post.generation == self.generation
    }

    /// The task `id` can be taken out. The generation is a `u64`, so a registry can
    /// part with up to `u64::MAX` tasks.
    pub open spec fn can_remove(self, id: TaskId) -> bool {
        self.tasks.contains_key(id) ==> self.generation < u64::MAX
    }

    /// The state without the task `id`: a new generation where there was such a
    /// task, the same state where there was none.
    pub open spec fn without(self, id: TaskId) -> RegistryState<'a> {
        if self.tasks.contains_key(id) {
            RegistryState { tasks: self.tasks.remove(id), generation: self.generation + 1 }
        } else {
            self
        }
    }

    /// The state in which the future of the task `id` is `future`.
    pub open spec fn with_future(self, id: TaskId, future: FutureObj<'a, ()>) -> RegistryState<'a> {
        RegistryState {
            tasks: self.tasks.insert(id, Task { future, waker: self.tasks[id].waker }),
            generation: self.generation,
        }
    }
}

/// A registry of tasks, backed by a generational arena.
pub struct Registry<'a> {
    arena: Arena<Task<'a>>,
    generation: u64,
}

impl<'a> View for Registry<'a> {
    type V = RegistryState<'a>;

    closed spec fn view(&self) -> RegistryState<'a> {
        RegistryState { tasks: arena_tasks(self.arena), generation: self.generation as nat }
    }
}

impl<'a> Registry<'a> {
    /// The registry counts the generations as its arena does.
    pub closed spec fn inv(&self) -> bool {
        self.generation == arena_generation(self.arena)
    }

    /// The arena is what `Arena::with_capacity` makes for `capacity` tasks.
    pub closed spec fn has_room(&self, capacity: usize) -> bool {
        call_ensures(arena_with_capacity, (capacity,), self.arena)
    }

    /// An empty registry with room for `capacity` tasks.
    pub fn with_capacity(capacity: usize) -> (registry: Self)
        requires
            capacity <= MAX_CAPACITY,
        ensures
            registry.inv(),
            registry@ == RegistryState::<'a>::initial(),
            registry.has_room(capacity),
    {
        Registry { arena: arena_with_capacity(capacity), generation: 0 }
    }

    /// The number of tasks that have been taken out so far.
    pub fn generation(&self) -> (generation: u64)
        ensures
            generation == self@.generation,
    {
        self.generation
    }

    /// Registers `future` as a task whose waker is not set.
    pub fn insert(&mut self, future: FutureObj<'a, ()>) -> (id: TaskId)
        requires
            old(self).inv(),
        ensures
            final(self).inv(),
            old(self)@.inserts(id, Task { future, waker: None }, final(self)@),
    {
        arena_insert(&mut self.arena, Task::new(future))
    }

    /// The task that is registered under `id`, if there is one.
    pub fn task_mut(&mut self, id: TaskId) -> (task: Option<&mut Task<'a>>)
        requires
            old(self).inv(),
        ensures
            final(self).inv(),
            final(self)@.generation == old(self)@.generation,
            match task {
                Some(task) => {
                    &&& old(self)@.tasks.contains_key(id)
                    &&& *task == old(self)@.tasks[id]
                    &&& final(self)@.tasks == old(self)@.tasks.insert(id, *final(task))
                },
                None => {
                    &&& !old(self)@.tasks.contains_key(id)
                    &&& final(self)@.tasks == old(self)@.tasks
                },
            },
    {
        arena_get_mut(&mut self.arena, id)
    }

    /// Takes out the task that is registered under `id`, if there is one, and drops it.
    pub fn remove(&mut self, id: TaskId)
        requires
            old(self).inv(),
            old(self)@.can_remove(id),
        ensures
            final(self).inv(),
            final(self)@ == old(self)@.without(id),
            old(self)@.tasks.contains_key(id) ==> old(self)@.tasks[id].is_discarded(),
    {
        match arena_remove(&mut self.arena, id) {
            Some(task) => {
                task.discard();
                self.generation = self.generation + 1;
            },
            None => {},
        }
    }

    /// Takes out the task `id` if polling has found it ready.
    pub fn finish_poll(&mut self, id: TaskId, ready: bool)
        requires
            old(self).inv(),
            ready ==> old(self)@.can_remove(id),
        ensures
            final(self).inv(),
            final(self)@ == if ready {
                old(self)@.without(id)
            } else {
                old(self)@
            },
            ready && old(self)@.tasks.contains_key(id) ==> old(self)@.tasks[id].is_discarded(),
    {
        if ready {
            self.remove(id);
        }
    }

    /// Whether no task is registered.
    pub fn has_no_tasks(&self) -> (empty: bool)
        ensures
            empty == self@.tasks.is_empty(),
    {
        arena_is_empty(&self.arena)
    }
}

impl<'a> TaskReg<'a> for Registry<'a> {
    type Id = TaskId;

    open spec fn futures(&self) -> Map<TaskId, FutureObj<'a, ()>> {
        self@.tasks.map_values(|task: Task<'a>| task.future)
    }

    open spec fn wf(&self) -> bool {
        self.inv()
    }

    open spec fn can_deregister(&self, id: TaskId) -> bool {
        self@.can_remove(id)
    }

    fn register(&mut self, future: FutureObj<'a, ()>) -> (id: TaskId)
        ensures
            old(self)@.inserts(id, Task { future, waker: None }, final(self)@),
    {
        let id = self.insert(future);
        assert(self.futures() =~= old(self).futures().insert(id, future));
        id
    }

    fn get_mut(&mut self, id: TaskId) -> (future: Option<&mut FutureObj<'a, ()>>)
        ensures
            match future {
                Some(future) => final(self)@ == old(self)@.with_future(id, *final(future)),
                None => final(self)@ == old(self)@,
            },
    {
        match self.task_mut(id) {
            Some(task) => Some(&mut task.future),
            None => None,
        }
    }

    fn deregister(&mut self, id: TaskId)
        ensures
            final(self)@ == old(self)@.without(id),
            old(self)@.tasks.contains_key(id) ==> old(self)@.tasks[id].is_discarded(),
    {
        self.remove(id);
        assert(self.futures() =~= old(self).futures().remove(id));
    }

    fn is_empty(&self) -> (empty: bool)
        ensures
            empty == self@.tasks.is_empty(),
    {
        let empty = self.has_no_tasks();
        assert(self.futures().dom() =~= self@.tasks.dom());
        empty
    }
}

} // verus!
