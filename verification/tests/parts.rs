use std::cell::Cell;
use std::collections::VecDeque;
use std::rc::Rc;
use std::sync::atomic::{AtomicUsize, Ordering};
use std::sync::{Arc, Mutex};
use std::task::Waker;

use embedded_executor::core_traits::{self, Alarm, PollQueue, QueueWaker, TaskReg};
use embedded_executor::future_box::{make_local, make_obj};
use embedded_executor::registry::{Registry, Task, TaskId, MAX_CAPACITY};
use embedded_executor::sleep::{spin_until, Attempts};
use embedded_executor::{Sleep, SpinSleep};
use futures::executor::block_on;

#[derive(Clone)]
struct CountingAlarm(Arc<AtomicUsize>);

impl Alarm for CountingAlarm {
    fn ring(&self) {
        self.0.fetch_add(1, Ordering::SeqCst);
    }
}

#[test]
fn spin_sleep_ends_when_woken() {
    let sleep = SpinSleep::default();
    let waker = sleep.clone();
    waker.wake();
    sleep.sleep();
    // The flag has been cleared, so the next sleep needs another wake-up.
    sleep.wake();
    waker.sleep();
}

#[test]
fn spinning_ends_with_the_first_attempt_that_succeeds() {
    let calls = Cell::new(0);
    let woken = spin_until(&mut Attempts::new(), |attempts: &mut Attempts| {
        calls.set(calls.get() + 1);
        let found = calls.get() == 4;
        attempts.note(found);
        found
    });
    assert!(woken);
    assert_eq!(calls.get(), 4);
}

#[test]
fn an_attempt_clears_the_flag() {
    let sleep = SpinSleep::default();
    let mut attempts = Attempts::new();
    assert!(!sleep.attempt(&mut attempts));
    sleep.wake();
    sleep.wake();
    assert!(sleep.attempt(&mut attempts));
    assert!(!sleep.attempt(&mut attempts));
    sleep.wake();
    assert!(sleep.spin(&mut Attempts::new()));
    assert!(!sleep.attempt(&mut attempts));
}

#[test]
fn spin_sleep_is_an_alarm() {
    let alarm = <SpinSleep as core_traits::Sleep>::make_alarm();
    alarm.clone().ring();
    <SpinSleep as core_traits::Sleep>::sleep(&alarm);
}

#[test]
fn a_queue_waker_enqueues_and_rings() {
    let rings = Arc::new(AtomicUsize::new(0));
    let waker = QueueWaker::new("handle", 7u32, CountingAlarm(rings.clone()));
    assert_eq!(waker.queue, "handle");
    let mut queue: VecDeque<u32> = VecDeque::new();
    queue.enqueue(3);
    waker.wake(&mut queue);
    assert_eq!(rings.load(Ordering::SeqCst), 0);
    waker.ring();
    assert_eq!(rings.load(Ordering::SeqCst), 1);
    assert_eq!(queue.dequeue(), Some(3));
    assert_eq!(queue.dequeue(), Some(7));
    assert_eq!(queue.dequeue(), None);
}

/// Notes how many items are in the queue when it rings.
#[derive(Clone)]
struct NotingAlarm {
    queue: Arc<Mutex<VecDeque<u32>>>,
    notes: Arc<Mutex<Vec<usize>>>,
}

impl Alarm for NotingAlarm {
    fn ring(&self) {
        let len = self.queue.lock().unwrap().len();
        self.notes.lock().unwrap().push(len);
    }
}

#[test]
fn a_waker_rings_when_its_task_is_queued() {
    let queue = Arc::new(Mutex::new(VecDeque::new()));
    let notes = Arc::new(Mutex::new(Vec::new()));
    let alarm = NotingAlarm {
        queue: queue.clone(),
        notes: notes.clone(),
    };
    let waker = QueueWaker::new(queue.clone(), 7u32, alarm);
    for _ in 0..2 {
        waker.fire(|waker| {
            waker.wake(&mut *waker.queue.lock().unwrap());
        });
    }
    assert_eq!(*notes.lock().unwrap(), vec![1, 2]);
    assert_eq!(*queue.lock().unwrap(), VecDeque::from(vec![7, 7]));
}

#[test]
fn a_task_starts_without_a_waker() {
    let mut task = Task::new(make_obj(async {}));
    assert!(task.waker.is_none());
    task.set_waker(Waker::noop().clone());
    assert!(task.waker.unwrap().will_wake(Waker::noop()));
}

#[test]
fn a_boxed_future_gives_what_the_future_gives() {
    assert_eq!(block_on(make_obj(async { 5 + 6 })), 11);
    let shared = Rc::new(7);
    let clone = shared.clone();
    assert_eq!(block_on(make_local(async move { *clone + 1 })), 8);
    assert_eq!(Rc::strong_count(&shared), 1);
}

#[test]
fn finishing_a_poll_removes_what_is_ready() {
    let mut registry = Registry::with_capacity(1);
    let id = registry.register(make_obj(async {}));
    registry.finish_poll(id, false);
    assert_eq!(registry.generation(), 0);
    assert!(registry.task_mut(id).is_some());
    registry.finish_poll(id, true);
    assert_eq!(registry.generation(), 1);
    assert!(registry.task_mut(id).is_none());
    registry.finish_poll(id, true);
    assert_eq!(registry.generation(), 1);
}

#[test]
fn the_registry_keeps_its_tasks_apart() {
    let mut registry = Registry::with_capacity(1);
    assert!(registry.is_empty());
    let a = registry.register(make_obj(async {}));
    let b = registry.register(make_obj(async {}));
    assert_ne!(a, b);
    assert_eq!((a.generation, b.generation), (0, 0));
    assert!(!registry.is_empty());
    assert!(registry.get_mut(a).is_some());

    registry.deregister(a);
    assert!(registry.get_mut(a).is_none());
    assert!(registry.task_mut(a).is_none());
    assert!(registry.get_mut(b).is_some());
    assert_eq!(registry.generation(), 1);

    let c = registry.register(make_obj(async {}));
    assert_eq!(
        c,
        TaskId {
            index: a.index,
            generation: 1
        }
    );
    registry.deregister(a);
    assert_eq!(registry.generation(), 1);
    assert!(!registry.has_no_tasks());
    registry.deregister(b);
    registry.remove(c);
    assert_eq!(registry.generation(), 3);
    assert!(registry.has_no_tasks());
}

#[test]
fn a_registered_future_can_be_replaced() {
    let mut registry = Registry::with_capacity(1);
    let id = registry.register(make_obj(async { panic!("replaced") }));
    *registry.get_mut(id).unwrap() = make_obj(async {});
    block_on(registry.get_mut(id).unwrap());
    let task = registry.task_mut(id).unwrap();
    assert!(task.waker.is_none());
}

#[test]
fn the_largest_capacity_fits_in_one_allocation() {
    assert_eq!(MAX_CAPACITY, usize::MAX / 128);
    assert!(std::mem::size_of::<Task<'static>>() <= 48);
}
