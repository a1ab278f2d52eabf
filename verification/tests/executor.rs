use fragments_core::effect::{
    from_stream, Effect, Executor, FnOnceEffect, FutureEffect, Handler, SignalEffect,
    StreamEffect, TaskSpawner,
};
use fragments_core::interval::Interval;
use fragments_core::poll::{Context, Poll, Waker};
use fragments_core::signal::{Mutable, MutableSignal, Signal};
use fragments_core::time::{Sleep, Timers};

/// What the effects of these tests run against.
struct App {
    log: Vec<String>,
    count: Mutable<i32>,
    timers: Timers,
}

impl App {
    fn new() -> App {
        App { log: Vec::new(), count: Mutable::new(0), timers: Timers::new() }
    }
}

/// An effect that stays pending for a number of polls.
struct Countdown {
    name: &'static str,
    polls_left: u32,
    wake_itself: bool,
}

/// A signal of the counter of the app.
struct CountSignal(MutableSignal<i32>);

impl Signal<App> for CountSignal {
    type Item = i32;

    fn poll_changed(&mut self, app: &mut App, cx: &Context) -> Poll<Option<i32>> {
        self.0.poll_changed(&mut app.count, cx)
    }
}

/// A sleep over the timers of the app.
struct AppSleep(Sleep);

impl fragments_core::poll::Future<App> for AppSleep {
    type Output = ();

    fn poll(&mut self, app: &mut App, cx: &Context) -> Poll<()> {
        fragments_core::poll::Future::poll(&mut self.0, &mut app.timers, cx)
    }
}

/// An interval over the timers of the app.
struct AppInterval(Interval);

impl fragments_core::poll::Stream<App> for AppInterval {
    type Item = u64;

    fn poll_next(&mut self, app: &mut App, cx: &Context) -> Poll<Option<u64>> {
        fragments_core::poll::Stream::poll_next(&mut self.0, &mut app.timers, cx)
    }
}

struct LogValue(&'static str);

impl<T: std::fmt::Debug> Handler<App, TestEffect, T> for LogValue {
    fn handle(&mut self, app: &mut App, _spawner: &mut TaskSpawner<TestEffect>, item: T) {
        app.log.push(format!("{} {:?}", self.0, item));
    }
}

/// A handler that spawns a task for each item.
struct SpawnChild;

impl Handler<App, TestEffect, ()> for SpawnChild {
    fn handle(&mut self, app: &mut App, spawner: &mut TaskSpawner<TestEffect>, _item: ()) {
        app.log.push("parent ran".to_string());
        spawner.spawn(TestEffect::Countdown(Countdown {
            name: "child",
            polls_left: 0,
            wake_itself: false,
        }));
    }
}

enum TestEffect {
    Countdown(Countdown),
    Signal(SignalEffect<CountSignal, LogValue>),
    Future(FutureEffect<AppSleep, LogValue>),
    Stream(StreamEffect<AppInterval, LogValue>),
    Once(FnOnceEffect<SpawnChild>),
    FromFuture(SignalEffect<fragments_core::signal::FromFuture<AppSleep>, LogValue>),
}

impl Effect<App, TestEffect> for TestEffect {
    fn poll_effect(
        &mut self,
        app: &mut App,
        spawner: &mut TaskSpawner<TestEffect>,
        cx: &Context,
    ) -> Poll<()> {
        match self {
            TestEffect::Countdown(c) => {
                app.log.push(format!("{} polled", c.name));
                if c.wake_itself {
                    spawner.wake(cx.waker());
                }
                if c.polls_left == 0 {
                    Poll::Ready(())
                } else {
                    c.polls_left -= 1;
                    Poll::Pending
                }
            }
            TestEffect::Signal(e) => e.poll_effect(app, spawner, cx),
            TestEffect::Future(e) => e.poll_effect(app, spawner, cx),
            TestEffect::Stream(e) => e.poll_effect(app, spawner, cx),
            TestEffect::Once(e) => e.poll_effect(app, spawner, cx),
            TestEffect::FromFuture(e) => e.poll_effect(app, spawner, cx),
        }
    }
}

fn countdown(name: &'static str, polls_left: u32) -> TestEffect {
    TestEffect::Countdown(Countdown { name, polls_left, wake_itself: false })
}

#[test]
fn a_new_task_is_polled_in_the_pass_that_takes_it_in() {
    let mut app = App::new();
    let mut executor = Executor::new();
    assert!(!executor.spawner().has_updates());
    executor.spawner().spawn(countdown("a", 1));
    assert!(executor.spawner().has_updates());
    assert_eq!(executor.len(), 0);

    executor.update(&mut app);
    assert_eq!(app.log, vec!["a polled"]);
    assert_eq!(executor.len(), 1);
    assert!(!executor.spawner().has_updates());

    // Nobody woke the task: the next pass leaves it alone.
    executor.update(&mut app);
    assert_eq!(app.log, vec!["a polled"]);
}

#[test]
fn a_task_that_finishes_is_dropped() {
    let mut app = App::new();
    let mut executor = Executor::new();
    let handle = executor.spawner().spawn(countdown("a", 1));
    executor.update(&mut app);
    executor.spawner().wake(Waker::new(handle.key()));
    executor.update(&mut app);
    assert_eq!(app.log, vec!["a polled", "a polled"]);
    assert_eq!(executor.len(), 0);
    // A wake-up for a task that is gone is absorbed.
    executor.spawner().wake(Waker::new(handle.key()));
    assert!(!executor.spawner().has_updates());
    executor.update(&mut app);
    assert_eq!(app.log.len(), 2);
}

#[test]
fn many_wake_ups_make_one_poll() {
    let mut app = App::new();
    let mut executor = Executor::new();
    let a = executor.spawner().spawn(countdown("a", 5));
    let b = executor.spawner().spawn(countdown("b", 5));
    executor.update(&mut app);
    app.log.clear();

    for _ in 0..10 {
        executor.spawner().wake(Waker::new(a.key()));
    }
    let wakers = vec![Waker::new(b.key()), Waker::new(a.key()), Waker::new(b.key())];
    executor.spawner().wake_all(&wakers);
    executor.update(&mut app);
    assert_eq!(app.log, vec!["a polled", "b polled"]);
}

#[test]
fn a_task_that_wakes_itself_runs_again_in_the_next_pass() {
    let mut app = App::new();
    let mut executor = Executor::new();
    executor.spawner().spawn(TestEffect::Countdown(Countdown {
        name: "a",
        polls_left: 2,
        wake_itself: true,
    }));
    executor.update(&mut app);
    assert_eq!(app.log.len(), 1);
    assert!(executor.spawner().has_updates());
    executor.update(&mut app);
    assert_eq!(app.log.len(), 2);
    executor.update(&mut app);
    assert_eq!(app.log.len(), 3);
    assert_eq!(executor.len(), 0);
    executor.update(&mut app);
    assert_eq!(app.log.len(), 3);
}

#[test]
fn an_aborted_task_is_dropped_without_a_poll() {
    let mut app = App::new();
    let mut executor = Executor::new();
    let a = executor.spawner().spawn(countdown("a", 5));
    let b = executor.spawner().spawn(countdown("b", 5));
    a.abort(executor.spawner());
    executor.update(&mut app);
    assert_eq!(app.log, vec!["b polled"]);
    assert_eq!(executor.len(), 1);

    // Aborting does not wake: the task is dropped when it is next due.
    b.abort(executor.spawner());
    executor.update(&mut app);
    assert_eq!(executor.len(), 1);
    executor.spawner().wake(Waker::new(b.key()));
    executor.update(&mut app);
    assert_eq!(app.log, vec!["b polled"]);
    assert_eq!(executor.len(), 0);
}

#[test]
fn aborting_twice_or_after_the_end_does_nothing() {
    let mut app = App::new();
    let mut executor = Executor::new();
    let a = executor.spawner().spawn(countdown("a", 0));
    let b = executor.spawner().spawn(countdown("b", 3));
    executor.update(&mut app);
    assert_eq!(app.log, vec!["a polled", "b polled"]);
    assert_eq!(executor.len(), 1);

    // `a` has finished.
    a.abort(executor.spawner());
    a.abort(executor.spawner());
    executor.update(&mut app);
    assert_eq!(executor.len(), 1);

    b.abort(executor.spawner());
    b.abort(executor.spawner());
    let guard = b.abort_on_drop();
    guard.abort(executor.spawner());
    guard.close(executor.spawner());
    executor.spawner().wake(Waker::new(b.key()));
    executor.update(&mut app);
    assert_eq!(app.log.len(), 2);
    assert_eq!(executor.len(), 0);
}

#[test]
fn a_task_spawned_in_a_pass_runs_in_the_next() {
    let mut app = App::new();
    let mut executor = Executor::new();
    executor.spawner().spawn(TestEffect::Once(FnOnceEffect::new(SpawnChild)));
    executor.update(&mut app);
    assert_eq!(app.log, vec!["parent ran"]);
    assert!(executor.spawner().has_updates());
    executor.update(&mut app);
    assert_eq!(app.log, vec!["parent ran", "child polled"]);
    assert_eq!(executor.len(), 0);
}

#[test]
fn poll_update_waits_for_something_to_do() {
    let mut app = App::new();
    let mut executor = Executor::new();
    let driver = Context::from_waker(Waker::new(77));
    assert_eq!(executor.poll_update(&driver, &mut app), Poll::Pending);
    assert_eq!(executor.spawner().notify(), None);

    executor.spawner().spawn(countdown("a", 0));
    assert_eq!(executor.spawner().notify(), Some(Waker::new(77)));
    assert_eq!(executor.poll_update(&driver, &mut app), Poll::Ready(()));
    assert_eq!(app.log, vec!["a polled"]);
    assert_eq!(executor.poll_update(&driver, &mut app), Poll::Pending);
}

#[test]
fn a_signal_effect_sees_the_last_value_of_each_round() {
    let mut app = App::new();
    let mut executor = Executor::new();
    let signal = CountSignal(app.count.signal());
    executor.spawner().spawn(TestEffect::Signal(SignalEffect::new(signal, LogValue("count"))));

    executor.update(&mut app);
    assert_eq!(app.log, vec!["count 0"]);

    app.count.write(1);
    app.count.write(2);
    let woken = app.count.write(3);
    assert_eq!(woken.len(), 1);
    executor.spawner().wake_all(&woken);
    executor.update(&mut app);
    assert_eq!(app.log, vec!["count 0", "count 3"]);

    // The end of the stream ends the effect.
    let woken = app.count.drop_handle();
    executor.spawner().wake_all(&woken);
    executor.update(&mut app);
    assert_eq!(app.log, vec!["count 0", "count 3"]);
    assert_eq!(executor.len(), 0);
}

#[test]
fn a_future_effect_runs_its_handler_once() {
    let mut app = App::new();
    let mut executor = Executor::new();
    let fut = AppSleep(Sleep::new(&mut app.timers, 10));
    executor.spawner().spawn(TestEffect::Future(FutureEffect::new(fut, LogValue("slept"))));
    executor.update(&mut app);
    assert!(app.log.is_empty());
    assert_eq!(executor.len(), 1);

    let fired = app.timers.tick(10);
    executor.spawner().wake_all(&fired.woken);
    executor.update(&mut app);
    assert_eq!(app.log, vec!["slept ()"]);
    assert_eq!(executor.len(), 0);
}

#[test]
fn a_stream_effect_handles_every_item_that_is_there() {
    let mut app = App::new();
    let mut executor = Executor::new();
    let ticks = AppInterval(Interval::new(&mut app.timers, 100, 50));
    executor.spawner().spawn(TestEffect::Stream(from_stream(ticks, LogValue("tick"))));
    executor.update(&mut app);
    assert!(app.log.is_empty());

    let fired = app.timers.tick(100);
    executor.spawner().wake_all(&fired.woken);
    executor.update(&mut app);
    assert_eq!(app.log, vec!["tick 100"]);

    let fired = app.timers.tick(400);
    executor.spawner().wake_all(&fired.woken);
    executor.update(&mut app);
    assert_eq!(app.log, vec!["tick 100", "tick 150"]);
    assert_eq!(executor.len(), 1);
}

/// A future that resolves to a greeting once its sleep is over.
struct Greeting(Sleep);

impl fragments_core::poll::Future<App> for Greeting {
    type Output = &'static str;

    fn poll(&mut self, app: &mut App, cx: &Context) -> Poll<&'static str> {
        match fragments_core::poll::Future::poll(&mut self.0, &mut app.timers, cx) {
            Poll::Ready(()) => Poll::Ready("Hello, World!"),
            Poll::Pending => Poll::Pending,
        }
    }
}

#[test]
fn from_future() {
    let mut app = App::new();
    let future = Greeting(Sleep::new(&mut app.timers, 1_000));

    let mut signal = fragments_core::signal::from_future(future);

    let cx = Context::from_waker(Waker::new(5));
    assert_eq!(signal.poll_changed(&mut app, &cx), Poll::Pending);
    assert_eq!(app.timers.tick(1_000).woken, vec![Waker::new(5)]);
    assert_eq!(signal.poll_changed(&mut app, &cx), Poll::Ready(Some("Hello, World!")));
    assert_eq!(signal.poll_changed(&mut app, &cx), Poll::Ready(None));
}

#[test]
fn a_signal_of_a_future_ends_its_effect() {
    let mut app = App::new();
    let mut executor = Executor::new();
    let fut = AppSleep(Sleep::new(&mut app.timers, 2_000));
    executor.spawner().spawn(TestEffect::FromFuture(SignalEffect::new(
        fragments_core::signal::from_future(fut),
        LogValue("done"),
    )));
    executor.update(&mut app);
    let fired = app.timers.tick(2_000);
    executor.spawner().wake_all(&fired.woken);
    executor.update(&mut app);
    assert_eq!(app.log, vec!["done ()"]);
    assert_eq!(executor.len(), 0);
}

#[test]
fn a_task_that_is_woken_before_its_first_pass_is_polled_once_in_it() {
    let mut app = App::new();
    let mut executor = Executor::new();
    let a = executor.spawner().spawn(countdown("a", 3));
    let b = executor.spawner().spawn(countdown("b", 3));
    executor.spawner().wake(Waker::new(a.key()));
    executor.spawner().wake(Waker::new(a.key()));
    executor.spawner().wake(Waker::new(b.key()));
    executor.update(&mut app);
    assert_eq!(app.log, vec!["a polled", "b polled"]);
    // The wake-ups were absorbed: nothing is due.
    executor.update(&mut app);
    assert_eq!(app.log.len(), 2);
    executor.spawner().wake(Waker::new(a.key()));
    executor.update(&mut app);
    assert_eq!(app.log, vec!["a polled", "b polled", "a polled"]);
}
