# embedded-executor

A futures executor that needs no more than an allocator, verified with Verus.

* `src/` is the library. `alloc_executor` holds the executor, its queue and its
  spawner; `registry` the tasks, in a generational arena; `core_traits` and `sleep`
  what a platform provides; `future_box` boxed futures. `history` is the record that an
  executor keeps, as ghost state, of what it has done. `laws` states what holds of the
  history of an executor that is run on a queue from which nobody else takes: that an
  executor which returns has driven every spawned future to completion, that no wake-up
  is lost, that a task is polled at most once more often than it is woken, that the queue
  is first in, first out, and that a stale waker does no harm. `schedule` adds in which
  order tasks are polled, and that the executor sleeps once for each turn that found
  nothing to do. `sleeper` holds the alarm, so that it sleeps at no other time.
* `app/` puts the executor on a `lock_api` mutex.
* `tests/` runs the library.

How the queue is shared is up to the platform. The executor holds a handle on it, and
each operation on the queue takes the queue itself, locked through that handle. Futures
are only ever polled while the queue is released.
