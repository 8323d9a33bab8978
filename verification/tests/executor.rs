use std::future::Future;
use std::pin::Pin;
use std::sync::{Arc, Mutex};
use std::task::{Context, Poll, Wake, Waker};

use embedded_executor::alloc_executor::{Action, AllocExecutor, Polled, Queue, QueueItem, Spawner};
use embedded_executor::core_traits::{Alarm, QueueWaker, Sleep};
use embedded_executor::future_box::make_obj;
use embedded_executor::registry::TaskId;

type Handle = Arc<Mutex<Queue<'static>>>;
type Log = Arc<Mutex<Vec<i32>>>;
type Exec = AllocExecutor<'static, Handle, NopSleep>;

struct NopSleep;

#[derive(Copy, Clone)]
struct NopAlarm;

impl Sleep for NopSleep {
    type Alarm = NopAlarm;

    fn make_alarm() -> NopAlarm {
        NopAlarm
    }

    fn sleep(_: &NopAlarm) {}
}

impl Alarm for NopAlarm {
    fn ring(&self) {}
}

struct TaskWaker(QueueWaker<Handle, TaskId, NopAlarm>);

impl Wake for TaskWaker {
    fn wake(self: Arc<Self>) {
        self.0.fire(|waker| {
            waker.wake_queue(&mut waker.queue.lock().unwrap());
        });
    }
}

fn make_waker(waker: QueueWaker<Handle, TaskId, NopAlarm>) -> Waker {
    Waker::from(Arc::new(TaskWaker(waker)))
}

fn new_executor() -> Exec {
    AllocExecutor::new(|queue| Arc::new(Mutex::new(queue)))
}

fn turn<S: Sleep<Alarm = NopAlarm>>(executor: &mut AllocExecutor<'static, Handle, S>) -> Action {
    let handle = executor.handle().clone();
    let mut queue = handle.lock().unwrap();
    executor.step(&mut queue, make_waker)
}

fn spawn<S, F>(executor: &mut AllocExecutor<'static, Handle, S>, future: F) -> TaskId
where
    S: Sleep<Alarm = NopAlarm>,
    F: Future<Output = ()> + Send + 'static,
{
    let handle = executor.handle().clone();
    let mut queue = handle.lock().unwrap();
    executor.spawn(&mut queue, future, make_waker)
}

fn spawn_through<F: Future<Output = ()> + Send + 'static>(spawner: &Spawner<Handle>, future: F) {
    spawner.spawn(&mut spawner.0.lock().unwrap(), future);
}

/// Leaves its waker behind and is ready when polled again.
struct Yield {
    waker: Arc<Mutex<Option<Waker>>>,
    polled: bool,
}

impl Yield {
    fn new() -> (Yield, Arc<Mutex<Option<Waker>>>) {
        let waker = Arc::new(Mutex::new(None));
        (
            Yield {
                waker: waker.clone(),
                polled: false,
            },
            waker,
        )
    }
}

impl Future for Yield {
    type Output = ();

    fn poll(mut self: Pin<&mut Self>, cx: &mut Context<'_>) -> Poll<()> {
        if self.polled {
            Poll::Ready(())
        } else {
            self.polled = true;
            *self.waker.lock().unwrap() = Some(cx.waker().clone());
            Poll::Pending
        }
    }
}

/// Wakes itself as often as it is told to before it is ready.
struct Countdown {
    left: u32,
    polls: Arc<Mutex<Vec<i32>>>,
    name: i32,
}

impl Future for Countdown {
    type Output = ();

    fn poll(mut self: Pin<&mut Self>, cx: &mut Context<'_>) -> Poll<()> {
        let name = self.name;
        self.polls.lock().unwrap().push(name);
        if self.left == 0 {
            Poll::Ready(())
        } else {
            self.left -= 1;
            cx.waker().wake_by_ref();
            Poll::Pending
        }
    }
}

fn foo() -> impl Future<Output = i32> {
    async { 5 }
}

fn bar(log: Log) -> impl Future<Output = i32> {
    async move {
        let a = foo().await;
        log.lock().unwrap().push(a);
        let b = a + 1;
        b
    }
}

fn baz(spawner: Spawner<Handle>, log: Log) -> impl Future<Output = ()> {
    async move {
        let c = bar(log.clone()).await;
        for i in c..25 {
            let log = log.clone();
            let spam = make_obj(async move { log.lock().unwrap().push(i) });
            let mut queue = spawner.0.lock().unwrap();
            spawner.spawn_obj(&mut queue, spam);
        }
    }
}

#[test]
fn executor() {
    let log: Log = Arc::new(Mutex::new(Vec::new()));
    let mut executor = new_executor();
    let spawner = executor.spawner();
    let entry_log = log.clone();
    let entry = async move {
        for i in 0..10 {
            let log = entry_log.clone();
            spawn_through(&spawner, async move {
                log.lock().unwrap().push(i);
            });
        }
    };
    spawn(&mut executor, entry);
    let spawner = executor.spawner();
    spawn(&mut executor, baz(spawner, log.clone()));
    assert!(executor.run(turn));

    let mut expected = vec![5];
    expected.extend(0..10);
    expected.extend(6..25);
    assert_eq!(*log.lock().unwrap(), expected);
    assert_eq!(executor.generation(), 2 + 10 + 19);
}

#[test]
fn an_executor_without_tasks_returns_at_once() {
    let mut executor = new_executor();
    assert_eq!(turn(&mut executor), Action::Return);
    assert!(executor.run(turn));
    assert_eq!(executor.generation(), 0);
}

#[test]
fn capacities_are_no_limits() {
    let log: Log = Arc::new(Mutex::new(Vec::new()));
    let mut executor: Exec = AllocExecutor::with_capacity(0, 0, |queue| Arc::new(Mutex::new(queue)));
    for i in 0..40 {
        let log = log.clone();
        spawn(&mut executor, async move { log.lock().unwrap().push(i) });
    }
    assert!(executor.run(turn));
    assert_eq!(*log.lock().unwrap(), (0..40).collect::<Vec<i32>>());
    assert_eq!(executor.generation(), 40);
}

#[test]
fn spawning_queues_the_task() {
    let mut executor = new_executor();
    let first = spawn(&mut executor, async {});
    let second = spawn(&mut executor, async {});
    assert_ne!(first, second);
    assert_eq!(turn(&mut executor), Action::Poll(first));
    assert_eq!(executor.poll_task(first), Polled::Ready);
    assert_eq!(turn(&mut executor), Action::Poll(second));
    assert_eq!(executor.poll_task(second), Polled::Ready);
    assert_eq!(turn(&mut executor), Action::Return);
}

#[test]
fn spawn_requests_are_registered_in_turn() {
    let mut executor = new_executor();
    let spawner = executor.spawner();
    spawn_through(&spawner, async {});
    let direct = spawn(&mut executor, async {});
    let spawned = match turn(&mut executor) {
        Action::Spawned(id) => id,
        other => panic!("{:?}", other),
    };
    assert_ne!(spawned, direct);
    assert_eq!(turn(&mut executor), Action::Poll(direct));
    assert!(!executor.perform(Action::Poll(direct)));
    assert_eq!(turn(&mut executor), Action::Poll(spawned));
    assert!(!executor.perform(Action::Poll(spawned)));
    assert_eq!(turn(&mut executor), Action::Return);
    assert!(executor.perform(Action::Return));
}

#[test]
fn a_woken_task_is_polled_again() {
    let mut executor = new_executor();
    let (future, waker) = Yield::new();
    let id = spawn(&mut executor, future);
    assert_eq!(turn(&mut executor), Action::Poll(id));
    assert_eq!(executor.poll_task(id), Polled::Pending);
    assert_eq!(turn(&mut executor), Action::Sleep);
    assert!(!executor.perform(Action::Sleep));
    waker.lock().unwrap().take().unwrap().wake();
    assert_eq!(turn(&mut executor), Action::Poll(id));
    assert_eq!(executor.poll_task(id), Polled::Ready);
    assert_eq!(executor.generation(), 1);
    assert_eq!(turn(&mut executor), Action::Return);
}

#[test]
fn a_stale_waker_does_no_harm() {
    let mut executor = new_executor();
    let (future, waker) = Yield::new();
    let id = spawn(&mut executor, future);
    assert_eq!(turn(&mut executor), Action::Poll(id));
    assert_eq!(executor.poll_task(id), Polled::Pending);
    let waker = waker.lock().unwrap().take().unwrap();
    waker.wake_by_ref();
    waker.wake_by_ref();
    assert_eq!(turn(&mut executor), Action::Poll(id));
    assert_eq!(executor.poll_task(id), Polled::Ready);

    // The slot is taken again, under another identifier.
    let (future, _waker) = Yield::new();
    let other = spawn(&mut executor, future);
    assert_eq!(other.index, id.index);
    assert_eq!(other.generation, id.generation + 1);
    assert_eq!(turn(&mut executor), Action::Poll(id));
    assert_eq!(executor.poll_task(id), Polled::Missing);
    assert_eq!(turn(&mut executor), Action::Poll(other));
    assert_eq!(executor.poll_task(other), Polled::Pending);
    assert_eq!(executor.poll_task(other), Polled::Ready);
}

#[test]
fn tasks_take_turns() {
    let polls: Log = Arc::new(Mutex::new(Vec::new()));
    let mut executor = new_executor();
    for name in 1..4 {
        spawn(
            &mut executor,
            Countdown {
                left: 2,
                polls: polls.clone(),
                name,
            },
        );
    }
    assert!(executor.run(turn));
    assert_eq!(*polls.lock().unwrap(), vec![1, 2, 3, 1, 2, 3, 1, 2, 3]);
}

#[test]
fn spawn_requests_wait_for_their_turn() {
    let log: Log = Arc::new(Mutex::new(Vec::new()));
    let mut executor = new_executor();
    let spawner = executor.spawner();
    let (a, b) = (log.clone(), log.clone());
    // The request is registered first, but its task is queued behind the other one.
    spawn_through(&spawner, async move { a.lock().unwrap().push(1) });
    spawn(&mut executor, async move { b.lock().unwrap().push(2) });
    assert!(executor.run(turn));
    assert_eq!(*log.lock().unwrap(), vec![2, 1]);
}

#[test]
fn a_spawn_request_keeps_an_executor_without_tasks_going() {
    let log: Log = Arc::new(Mutex::new(Vec::new()));
    let mut executor = new_executor();
    let spawner = executor.spawner();
    let task_log = log.clone();
    spawn_through(&spawner, async move { task_log.lock().unwrap().push(1) });
    assert!(executor.run(turn));
    assert_eq!(*log.lock().unwrap(), vec![1]);
    assert_eq!(executor.generation(), 1);
}

#[test]
fn a_task_is_polled_once_and_once_more_for_each_wake() {
    let polls: Log = Arc::new(Mutex::new(Vec::new()));
    let mut executor = new_executor();
    spawn(
        &mut executor,
        Countdown {
            left: 4,
            polls: polls.clone(),
            name: 1,
        },
    );
    assert!(executor.run(turn));
    assert_eq!(polls.lock().unwrap().len(), 4 + 1);
}

#[test]
fn every_wake_adds_one_item() {
    let handle: Handle = Arc::new(Mutex::new(Queue::with_capacity(0)));
    let id = TaskId {
        index: 2,
        generation: 3,
    };
    let waker = make_waker(QueueWaker::new(handle.clone(), id, NopAlarm));
    for _ in 0..3 {
        waker.wake_by_ref();
    }
    for _ in 0..3 {
        assert!(matches!(handle.lock().unwrap().pop_front(), Some(QueueItem::Poll(i)) if i == id));
    }
    assert!(handle.lock().unwrap().pop_front().is_none());
}

/// Sleeps by waking what is waiting, and counts.
struct WakingSleep;

#[derive(Clone)]
struct WakingAlarm {
    sleeps: Arc<Mutex<u32>>,
    rings: Arc<Mutex<u32>>,
    waiting: Arc<Mutex<Vec<Arc<Mutex<Option<Waker>>>>>>,
}

impl Sleep for WakingSleep {
    type Alarm = WakingAlarm;

    fn make_alarm() -> WakingAlarm {
        WakingAlarm {
            sleeps: Arc::new(Mutex::new(0)),
            rings: Arc::new(Mutex::new(0)),
            waiting: Arc::new(Mutex::new(Vec::new())),
        }
    }

    fn sleep(alarm: &WakingAlarm) {
        *alarm.sleeps.lock().unwrap() += 1;
        let next = alarm.waiting.lock().unwrap().remove(0);
        let waker = next.lock().unwrap().take();
        waker.unwrap().wake();
    }
}

impl Alarm for WakingAlarm {
    fn ring(&self) {
        *self.rings.lock().unwrap() += 1;
    }
}

struct WakingTaskWaker(QueueWaker<Handle, TaskId, WakingAlarm>);

impl Wake for WakingTaskWaker {
    fn wake(self: Arc<Self>) {
        self.0.fire(|waker| {
            waker.wake_queue(&mut waker.queue.lock().unwrap());
        });
    }
}

#[test]
fn the_executor_sleeps_when_there_is_nothing_to_poll() {
    let mut executor: AllocExecutor<'static, Handle, WakingSleep> =
        AllocExecutor::new(|queue| Arc::new(Mutex::new(queue)));
    let (first, first_waker) = Yield::new();
    let (second, second_waker) = Yield::new();
    let mut alarms = Vec::new();
    for future in [first, second] {
        let handle = executor.handle().clone();
        let mut queue = handle.lock().unwrap();
        executor.spawn(&mut queue, future, |waker| {
            alarms.push(waker.alarm.clone());
            Waker::from(Arc::new(WakingTaskWaker(waker)))
        });
    }
    // Both wakers have the alarm on which the executor sleeps.
    alarms[1].waiting.lock().unwrap().push(second_waker);
    alarms[0].waiting.lock().unwrap().push(first_waker);
    let finished = executor.run(|executor: &mut AllocExecutor<'static, Handle, WakingSleep>| {
        let handle = executor.handle().clone();
        let mut queue = handle.lock().unwrap();
        executor.step(&mut queue, |waker| {
            Waker::from(Arc::new(WakingTaskWaker(waker)))
        })
    });
    assert!(finished);
    assert_eq!(*alarms[0].sleeps.lock().unwrap(), 2);
    assert_eq!(*alarms[0].rings.lock().unwrap(), 2);
    assert_eq!(executor.generation(), 2);
}

/// Must not be slept on.
struct NoSleep;

impl Sleep for NoSleep {
    type Alarm = NopAlarm;

    fn make_alarm() -> NopAlarm {
        NopAlarm
    }

    fn sleep(_: &NopAlarm) {
        panic!("slept");
    }
}

fn sleepless(registry: usize, queue: usize) -> AllocExecutor<'static, Handle, NoSleep> {
    AllocExecutor::with_capacity(registry, queue, |queue| Arc::new(Mutex::new(queue)))
}

#[test]
fn ready_tasks_are_polled_in_the_order_of_spawning() {
    let polls: Log = Arc::new(Mutex::new(Vec::new()));
    let mut executor = sleepless(0, 0);
    for name in 0..5 {
        spawn(
            &mut executor,
            Countdown {
                left: 0,
                polls: polls.clone(),
                name,
            },
        );
    }
    assert!(executor.run(turn));
    assert_eq!(*polls.lock().unwrap(), vec![0, 1, 2, 3, 4]);
}

#[test]
fn an_executor_can_be_run_again() {
    let log: Log = Arc::new(Mutex::new(Vec::new()));
    let mut executor = sleepless(16, 16);
    assert!(executor.run(turn));
    assert!(executor.run(turn));
    let task_log = log.clone();
    spawn(&mut executor, async move { task_log.lock().unwrap().push(1) });
    assert!(executor.run(turn));
    assert_eq!(*log.lock().unwrap(), vec![1]);
    assert!(executor.run(turn));
    assert_eq!(*log.lock().unwrap(), vec![1]);
}

/// Wakes itself twice before it is ready.
struct WokenTwice(Arc<Mutex<u32>>);

impl Future for WokenTwice {
    type Output = ();

    fn poll(self: Pin<&mut Self>, cx: &mut Context<'_>) -> Poll<()> {
        *self.0.lock().unwrap() += 1;
        if *self.0.lock().unwrap() == 1 {
            cx.waker().wake_by_ref();
            cx.waker().wake_by_ref();
            Poll::Pending
        } else {
            Poll::Ready(())
        }
    }
}

#[test]
fn a_task_that_is_gone_is_skipped() {
    let polls = Arc::new(Mutex::new(0));
    let mut executor = sleepless(16, 16);
    spawn(&mut executor, WokenTwice(polls.clone()));
    assert!(executor.run(turn));
    assert_eq!(*polls.lock().unwrap(), 2);
    assert_eq!(turn(&mut executor), Action::Return);
}

#[test]
fn capacities_change_no_result() {
    let mut seen = Vec::new();
    for (registry, queue) in [(0, 0), (1, 64), (64, 1)] {
        let polls: Log = Arc::new(Mutex::new(Vec::new()));
        let mut executor = sleepless(registry, queue);
        for name in 0..6 {
            spawn(
                &mut executor,
                Countdown {
                    left: name as u32 % 3,
                    polls: polls.clone(),
                    name,
                },
            );
        }
        assert!(executor.run(turn));
        seen.push(polls.lock().unwrap().clone());
    }
    assert_eq!(seen[0], vec![0, 1, 2, 3, 4, 5, 1, 2, 4, 5, 2, 5]);
    assert_eq!(seen[1], seen[0]);
    assert_eq!(seen[2], seen[0]);
}

#[test]
fn an_executor_can_be_sent() {
    fn sent<T: Send>(value: T) -> T {
        value
    }
    assert!(sent(new_executor()).run(turn));
}

#[test]
fn the_queue_is_first_in_first_out() {
    let mut queue: Queue<'static> = Queue::with_capacity(1);
    assert!(queue.pop_front().is_none());
    let first = TaskId {
        index: 1,
        generation: 7,
    };
    let second = TaskId {
        index: 0,
        generation: 9,
    };
    queue.push_back(QueueItem::Poll(first));
    queue.push_back(QueueItem::Spawn(make_obj(async {})));
    let waker = QueueWaker::new((), second, NopAlarm);
    waker.wake_queue(&mut queue);
    assert!(matches!(queue.pop_front(), Some(QueueItem::Poll(id)) if id == first));
    assert!(matches!(queue.pop_front(), Some(QueueItem::Spawn(_))));
    assert!(matches!(queue.pop_front(), Some(QueueItem::Poll(id)) if id == second));
    assert!(queue.pop_front().is_none());
}

#[test]
fn clones_of_a_spawner_share_the_queue() {
    let log: Log = Arc::new(Mutex::new(Vec::new()));
    let mut executor = new_executor();
    let spawner = executor.spawner();
    let clone = spawner.clone();
    let (a, b) = (log.clone(), log.clone());
    spawn_through(&spawner, async move { a.lock().unwrap().push(1) });
    spawn_through(&clone, async move { b.lock().unwrap().push(2) });
    assert!(executor.run(turn));
    assert_eq!(*log.lock().unwrap(), vec![1, 2]);
}

#[test]
fn futures_may_borrow_what_outlives_the_executor() {
    let count = Mutex::new(0);
    {
        let mut executor: AllocExecutor<'_, (), NopSleep> = AllocExecutor::new(|_| ());
        let mut queue = Queue::with_capacity(4);
        let id = executor.spawn(
            &mut queue,
            async {
                *count.lock().unwrap() += 1;
            },
            |_| Waker::noop().clone(),
        );
        assert_eq!(executor.poll_task(id), Polled::Ready);
    }
    assert_eq!(*count.lock().unwrap(), 1);
}
