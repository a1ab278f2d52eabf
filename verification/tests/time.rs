use fragments_core::interval::Interval;
use fragments_core::poll::{Context, Future, Poll, Stream, Waker};
use fragments_core::time::{sleep, sleep_until, Sleep, Timers};

fn cx(id: u64) -> Context {
    Context::from_waker(Waker::new(id))
}

fn three_out_of_order(timers: &mut Timers) -> (Sleep, Sleep, Sleep) {
    let mut s3 = Sleep::new(timers, 300);
    let mut s1 = Sleep::new(timers, 100);
    let mut s2 = Sleep::new(timers, 200);
    assert_eq!(s3.poll(timers, &cx(3)), Poll::Pending);
    assert_eq!(s1.poll(timers, &cx(1)), Poll::Pending);
    assert_eq!(s2.poll(timers, &cx(2)), Poll::Pending);
    (s1, s2, s3)
}

#[test]
fn timers_fire_in_the_order_of_their_deadlines() {
    let mut timers = Timers::new();
    let (mut s1, mut s2, mut s3) = three_out_of_order(&mut timers);
    assert_eq!(timers.pending(), 3);
    assert!(timers.notified());

    let fired = timers.tick(300);
    assert_eq!(fired.next, None);
    assert_eq!(fired.woken, vec![Waker::new(1), Waker::new(2), Waker::new(3)]);
    assert_eq!(fired.timers.len(), 3);
    assert!(!timers.notified());
    assert_eq!(timers.pending(), 0);

    assert_eq!(s1.poll(&mut timers, &cx(1)), Poll::Ready(()));
    assert_eq!(s2.poll(&mut timers, &cx(2)), Poll::Ready(()));
    assert_eq!(s3.poll(&mut timers, &cx(3)), Poll::Ready(()));
}

#[test]
fn a_tick_between_two_deadlines_fires_the_first_alone() {
    let mut timers = Timers::new();
    let (mut s1, mut s2, _s3) = three_out_of_order(&mut timers);

    let fired = timers.tick(150);
    assert_eq!(fired.next, Some(200));
    assert_eq!(fired.woken, vec![Waker::new(1)]);
    assert_eq!(timers.pending(), 2);
    assert_eq!(s1.poll(&mut timers, &cx(1)), Poll::Ready(()));
    assert_eq!(s2.poll(&mut timers, &cx(2)), Poll::Pending);

    let fired = timers.tick(100);
    assert_eq!(fired.next, Some(200));
    assert!(fired.woken.is_empty());

    let fired = timers.tick(200);
    assert_eq!(fired.next, Some(300));
    assert_eq!(fired.woken, vec![Waker::new(2)]);
}

#[test]
fn an_empty_registry_has_no_next_deadline() {
    let mut timers = Timers::new();
    let fired = timers.tick(1_000);
    assert_eq!(fired.next, None);
    assert!(fired.timers.is_empty());
    assert!(fired.woken.is_empty());
}

#[test]
fn a_sleep_resolves_once_for_each_firing() {
    let mut timers = Timers::new();
    let mut s = sleep_until(&mut timers, 50);
    assert_eq!(s.deadline(), 50);
    assert_eq!(s.poll(&mut timers, &cx(9)), Poll::Pending);
    assert_eq!(s.poll(&mut timers, &cx(8)), Poll::Pending);
    assert_eq!(timers.pending(), 1);
    let fired = timers.tick(50);
    // The waker of the last poll is the one that is woken.
    assert_eq!(fired.woken, vec![Waker::new(8)]);
    assert_eq!(s.poll(&mut timers, &cx(8)), Poll::Ready(()));
    assert_eq!(s.poll(&mut timers, &cx(8)), Poll::Pending);
    assert_eq!(timers.pending(), 0);
}

#[test]
fn an_expired_deadline_fires_with_the_next_tick() {
    let mut timers = Timers::new();
    let mut s = sleep_until(&mut timers, 10);
    assert_eq!(s.poll(&mut timers, &cx(1)), Poll::Pending);
    let fired = timers.tick(500);
    assert_eq!(fired.woken, vec![Waker::new(1)]);
    assert_eq!(s.poll(&mut timers, &cx(1)), Poll::Ready(()));
}

#[test]
fn a_dropped_sleep_never_fires() {
    let mut timers = Timers::new();
    let mut a = sleep_until(&mut timers, 10);
    let mut b = sleep_until(&mut timers, 20);
    assert_eq!(a.poll(&mut timers, &cx(1)), Poll::Pending);
    assert_eq!(b.poll(&mut timers, &cx(2)), Poll::Pending);
    a.close(&mut timers);
    assert_eq!(timers.pending(), 1);
    let fired = timers.tick(100);
    assert_eq!(fired.woken, vec![Waker::new(2)]);
    assert_eq!(fired.next, None);
}

#[test]
fn a_sleep_that_was_never_polled_is_not_pending() {
    let mut timers = Timers::new();
    let never_polled = sleep_until(&mut timers, 10);
    assert_eq!(timers.pending(), 0);
    assert!(!timers.notified());
    let fired = timers.tick(100);
    assert!(fired.timers.is_empty());
    never_polled.close(&mut timers);
}

#[test]
fn a_reset_sleep_waits_for_its_new_deadline() {
    let mut timers = Timers::new();
    let mut s = sleep_until(&mut timers, 10);
    assert_eq!(s.poll(&mut timers, &cx(1)), Poll::Pending);
    s.reset(&mut timers, 30);
    assert_eq!(s.deadline(), 30);
    assert_eq!(timers.pending(), 0);
    assert_eq!(s.poll(&mut timers, &cx(1)), Poll::Pending);
    assert_eq!(timers.tick(20).next, Some(30));
    assert_eq!(s.poll(&mut timers, &cx(1)), Poll::Pending);
    assert_eq!(timers.tick(30).woken, vec![Waker::new(1)]);
    assert_eq!(s.poll(&mut timers, &cx(1)), Poll::Ready(()));
}

#[test]
fn sleep_adds_the_duration_and_stops_at_the_end_of_time() {
    let mut timers = Timers::new();
    assert_eq!(sleep(&mut timers, 1_000, 500).deadline(), 1_500);
    assert_eq!(sleep(&mut timers, u64::MAX - 1, 500).deadline(), u64::MAX);
}

#[test]
fn timers_with_one_deadline_fire_in_the_order_of_their_making() {
    let mut timers = Timers::new();
    let mut a = sleep_until(&mut timers, 10);
    let mut b = sleep_until(&mut timers, 10);
    assert_eq!(b.poll(&mut timers, &cx(2)), Poll::Pending);
    assert_eq!(a.poll(&mut timers, &cx(1)), Poll::Pending);
    assert_eq!(timers.tick(10).woken, vec![Waker::new(1), Waker::new(2)]);
}

#[test]
fn an_interval_reports_its_nominal_deadlines() {
    let mut timers = Timers::new();
    let mut interval = Interval::new(&mut timers, 1_000, 100);
    assert_eq!(interval.period(), 100);
    // Each tick is seen late, and later each time.
    let mut now = 1_000;
    for k in 0..8u64 {
        assert_eq!(interval.deadline(), 1_000 + k * 100);
        assert_eq!(interval.poll_tick(&mut timers, &cx(1)), Poll::Pending);
        now += 100 + 37 * k;
        assert_eq!(timers.tick(now).woken, vec![Waker::new(1)]);
        assert_eq!(interval.poll_tick(&mut timers, &cx(1)), Poll::Ready(1_000 + k * 100));
    }
    assert_eq!(interval.deadline(), 1_800);
}

#[test]
fn an_interval_that_is_behind_catches_up_in_a_burst() {
    let mut timers = Timers::new();
    let mut interval = Interval::new(&mut timers, 0, 100);
    let mut seen = Vec::new();
    // 350 ticks pass before anybody looks.
    for _ in 0..4 {
        assert_eq!(interval.poll_next(&mut timers, &cx(1)), Poll::Pending);
        timers.tick(350);
        match interval.poll_next(&mut timers, &cx(1)) {
            Poll::Ready(Some(deadline)) => seen.push(deadline),
            other => panic!("expected a tick, found {:?}", other),
        }
    }
    assert_eq!(seen, vec![0, 100, 200, 300]);
    assert_eq!(interval.poll_next(&mut timers, &cx(1)), Poll::Pending);
    assert_eq!(timers.tick(350).next, Some(400));
    assert_eq!(interval.poll_next(&mut timers, &cx(1)), Poll::Pending);
}
