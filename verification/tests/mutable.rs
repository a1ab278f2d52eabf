use fragments_core::poll::{Context, Poll, Waker};
use fragments_core::poll::{Future, Stream};
use fragments_core::signal::{Mapper, Mutable, Signal, Then};

fn cx(id: u64) -> Context {
    Context::from_waker(Waker::new(id))
}

struct ToString;

impl Mapper<i32> for ToString {
    type Output = String;

    fn apply(&mut self, item: i32) -> String {
        item.to_string()
    }
}

struct Lowercase;

impl Mapper<String> for Lowercase {
    type Output = String;

    fn apply(&mut self, item: String) -> String {
        item.to_lowercase()
    }
}

#[test]
fn two_signals_see_the_initial_value_and_each_write() {
    let cx = cx(1);
    let mut cell = Mutable::new(0);
    let mut s0 = cell.signal();
    let mut s1 = cell.signal();

    assert_eq!(s0.poll_changed(&mut cell, &cx), Poll::Ready(Some(0)));
    assert_eq!(s1.poll_changed(&mut cell, &cx), Poll::Ready(Some(0)));

    cell.write(5);
    assert_eq!(s0.poll_changed(&mut cell, &cx), Poll::Ready(Some(5)));
    assert_eq!(s0.poll_changed(&mut cell, &cx), Poll::Pending);

    let woken = cell.write(7);
    assert_eq!(woken, vec![Waker::new(1)]);
    assert_eq!(s1.poll_changed(&mut cell, &cx), Poll::Ready(Some(7)));
    cell.drop_handle();
    assert_eq!(s1.poll_changed(&mut cell, &cx), Poll::Ready(None));
    assert_eq!(s0.poll_changed(&mut cell, &cx), Poll::Ready(None));
}

#[test]
fn a_closed_cell_ends_the_stream_even_with_an_unseen_write() {
    let cx = cx(1);
    let mut cell = Mutable::new(0);
    let mut s1 = cell.signal();
    assert_eq!(s1.poll_changed(&mut cell, &cx), Poll::Ready(Some(0)));
    cell.write(7);
    let woken = cell.drop_handle();
    assert!(woken.is_empty());
    assert!(cell.is_closed());
    assert_eq!(s1.poll_changed(&mut cell, &cx), Poll::Ready(None));
    assert_eq!(s1.poll_changed(&mut cell, &cx), Poll::Ready(None));
}

#[test]
fn the_last_of_many_writes_is_observed() {
    let cx = cx(3);
    let mut cell = Mutable::new(0u32);
    let mut s = cell.signal();
    for v in 1..=10u32 {
        cell.write(v);
    }
    assert_eq!(s.poll_changed(&mut cell, &cx), Poll::Ready(Some(10)));
    assert_eq!(s.poll_changed(&mut cell, &cx), Poll::Pending);
}

#[test]
fn dropping_the_last_handle_wakes_the_waiters_once_more() {
    let mut cell = Mutable::new(1);
    let mut a = cell.signal();
    let mut b = cell.signal();
    assert_eq!(a.poll_changed(&mut cell, &cx(10)), Poll::Ready(Some(1)));
    assert_eq!(b.poll_changed(&mut cell, &cx(11)), Poll::Ready(Some(1)));
    assert_eq!(a.poll_changed(&mut cell, &cx(10)), Poll::Pending);
    assert_eq!(b.poll_changed(&mut cell, &cx(11)), Poll::Pending);
    assert!(cell.clone_handle());
    assert!(cell.drop_handle().is_empty());
    assert!(!cell.is_closed());
    assert_eq!(cell.drop_handle(), vec![Waker::new(10), Waker::new(11)]);
    assert!(cell.is_closed());
    assert!(!cell.clone_handle());
    assert_eq!(a.poll_changed(&mut cell, &cx(10)), Poll::Ready(None));
}

#[test]
fn a_closed_signal_is_not_woken() {
    let mut cell = Mutable::new(1);
    let mut a = cell.signal();
    let mut b = cell.signal();
    assert_eq!(a.poll_changed(&mut cell, &cx(10)), Poll::Ready(Some(1)));
    assert_eq!(b.poll_changed(&mut cell, &cx(11)), Poll::Ready(Some(1)));
    assert_eq!(a.poll_changed(&mut cell, &cx(10)), Poll::Pending);
    assert_eq!(b.poll_changed(&mut cell, &cx(11)), Poll::Pending);
    a.close(&mut cell);
    assert_eq!(cell.write(2), vec![Waker::new(11)]);
    assert_eq!(*cell.read(), 2);
}

#[test]
fn mapped() {
    let cx = cx(0);
    let mut value = Mutable::new(5);

    let mut s0 = value.signal().map(ToString);
    assert_eq!(s0.poll_changed(&mut value, &cx), Poll::Ready(Some("5".to_string())));
    assert_eq!(s0.poll_changed(&mut value, &cx), Poll::Pending);
    value.write(7);

    assert_eq!(s0.poll_changed(&mut value, &cx), Poll::Ready(Some("7".to_string())));
    value.drop_handle();

    assert_eq!(s0.poll_changed(&mut value, &cx), Poll::Ready(None));
}

#[test]
fn mapped_ref() {
    let cx = cx(0);
    let mut value = Mutable::new(5);

    let mut s0 = value.signal_ref().cloned().map(ToString);

    assert_eq!(s0.poll_changed(&mut value, &cx), Poll::Ready(Some("5".to_string())));
    assert_eq!(s0.poll_changed(&mut value, &cx), Poll::Pending);
    value.write(7);

    assert_eq!(s0.poll_changed(&mut value, &cx), Poll::Ready(Some("7".to_string())));
    value.drop_handle();

    assert_eq!(s0.poll_changed(&mut value, &cx), Poll::Ready(None));
}

#[test]
fn a_borrowing_signal_yields_the_value_without_a_clone() {
    let cx = cx(0);
    let mut value = Mutable::new(vec![1, 2, 3]);
    let mut s0 = value.signal_ref();
    match s0.poll_changed(&mut value, &cx) {
        Poll::Ready(Some(guard)) => assert_eq!(guard.get().len(), 3),
        _ => panic!("expected the value"),
    }
    assert!(matches!(s0.poll_changed(&mut value, &cx), Poll::Pending));
    s0.close(&mut value);
    assert!(value.write(vec![]).is_empty());
}

#[test]
fn hold() {
    let mut value = Mutable::new("Hello, World!".to_string());

    let signal = value.signal().map(Lowercase);

    let mut sink = signal.hold();

    assert_eq!(sink.get(&mut value), Some(&"hello, world!".to_string()));
    assert_eq!(sink.get(&mut value), Some(&"hello, world!".to_string()));
    value.write("Foo".to_string());

    assert_eq!(sink.get(&mut value), Some(&"foo".to_string()));
    assert!(!sink.is_closed());
    value.drop_handle();
    assert_eq!(sink.get(&mut value), None);
    assert!(sink.is_closed());
}

#[test]
fn a_mapper_is_not_applied_to_the_end_of_the_stream() {
    struct Count(u32);
    impl Mapper<i32> for Count {
        type Output = u32;

        fn apply(&mut self, _item: i32) -> u32 {
            self.0 += 1;
            self.0
        }
    }
    let cx = cx(0);
    let mut value = Mutable::new(5);
    let mut s = value.signal().map(Count(0));
    assert_eq!(s.poll_changed(&mut value, &cx), Poll::Ready(Some(1)));
    assert_eq!(s.poll_changed(&mut value, &cx), Poll::Pending);
    value.write(6);
    assert_eq!(s.poll_changed(&mut value, &cx), Poll::Ready(Some(2)));
    value.drop_handle();
    assert_eq!(s.poll_changed(&mut value, &cx), Poll::Ready(None));
    value.write(7);
    assert_eq!(s.poll_changed(&mut value, &cx), Poll::Ready(None));
}

#[test]
fn mappers_compose() {
    struct Double;
    impl Mapper<i32> for Double {
        type Output = i32;

        fn apply(&mut self, item: i32) -> i32 {
            item * 2
        }
    }
    let cx = cx(0);
    let mut value = Mutable::new(21);
    let mut s = value.signal().map(Then(Double, ToString));
    assert_eq!(s.poll_changed(&mut value, &cx), Poll::Ready(Some("42".to_string())));
}

#[test]
fn a_signal_is_a_stream_and_its_next_value_a_future() {
    let cx = cx(0);
    let mut value = Mutable::new(1);
    let mut stream = value.signal().cloned().into_stream();
    assert_eq!(stream.poll_next(&mut value, &cx), Poll::Ready(Some(1)));
    assert_eq!(stream.poll_next(&mut value, &cx), Poll::Pending);

    let mut next = value.signal().next_value();
    assert_eq!(next.poll(&mut value, &cx), Poll::Ready(Some(1)));
    assert_eq!(next.poll(&mut value, &cx), Poll::Pending);
    value.write(2);
    assert_eq!(next.poll(&mut value, &cx), Poll::Ready(Some(2)));
    let mut signal = next.into_signal();
    value.drop_handle();
    assert_eq!(signal.poll_changed(&mut value, &cx), Poll::Ready(None));
}

#[test]
fn a_stream_turned_signal_stays_ended() {
    struct Once(Option<u8>);
    impl Stream<()> for Once {
        type Item = u8;

        fn poll_next(&mut self, _src: &mut (), _cx: &Context) -> Poll<Option<u8>> {
            Poll::Ready(self.0.take())
        }
    }
    let cx = cx(0);
    let mut signal = fragments_core::signal::from_stream(Once(Some(3)));
    assert_eq!(signal.poll_changed(&mut (), &cx), Poll::Ready(Some(3)));
    assert_eq!(signal.poll_changed(&mut (), &cx), Poll::Ready(None));
    assert_eq!(signal.poll_changed(&mut (), &cx), Poll::Ready(None));
}

#[test]
fn mod_mutable() {
    let cx = cx(0);
    let mut value = Mutable::new(5);

    let mut s0 = value.signal();
    let mut s1 = value.signal();
    let mut s2 = value.signal();

    assert_eq!(s0.poll_changed(&mut value, &cx), Poll::Ready(Some(5)));

    assert_eq!(s0.poll_changed(&mut value, &cx), Poll::Pending);

    let doubled = *value.read() * 2;
    value.write(doubled);

    assert_eq!(s0.poll_changed(&mut value, &cx), Poll::Ready(Some(10)));
    assert_eq!(s1.poll_changed(&mut value, &cx), Poll::Ready(Some(10)));

    assert_eq!(s1.poll_changed(&mut value, &cx), Poll::Pending);
    value.write(4);

    assert_eq!(s1.poll_changed(&mut value, &cx), Poll::Ready(Some(4)));

    // The signal that is polled last sees the last value alone.
    assert_eq!(s2.poll_changed(&mut value, &cx), Poll::Ready(Some(4)));
}

#[test]
fn mutable_mutable() {
    let cx = cx(0);
    let mut value = Mutable::new("foo".to_string());

    let mut signal = value.signal();
    let mut signal_ref = value.signal_ref();

    assert_eq!(signal.poll_changed(&mut value, &cx), Poll::Ready(Some("foo".to_string())));

    match signal_ref.poll_changed(&mut value, &cx) {
        Poll::Ready(Some(guard)) => assert_eq!(guard.get().clone(), "foo".to_string()),
        _ => panic!("expected the value"),
    }

    // Somebody waits for the next value.
    assert_eq!(signal.poll_changed(&mut value, &cx), Poll::Pending);

    let woken = value.drop_handle();
    assert_eq!(woken.len(), 1);

    assert!(matches!(signal_ref.poll_changed(&mut value, &cx), Poll::Ready(None)));

    assert_eq!(signal.poll_changed(&mut value, &cx), Poll::Ready(None));
}
