use fragments_core::poll::{Context, Poll, Waker};
use fragments_core::signal::{channel, Signal};

fn cx(id: u64) -> Context {
    Context::from_waker(Waker::new(id))
}

#[test]
fn notify() {
    let (mut chan, tx, mut rx) = channel::<String>();

    let mut rx2 = rx.clone_receiver(&mut chan);

    tx.send(&mut chan, "foo".into());

    assert_eq!(rx.poll_changed(&mut chan, &cx(1)), Poll::Ready(Some("foo".to_string())));

    assert_eq!(rx2.poll_changed(&mut chan, &cx(2)), Poll::Pending);

    tx.send(&mut chan, "bar".into());
    tx.close(&mut chan);

    assert_eq!(rx2.poll_changed(&mut chan, &cx(2)), Poll::Ready(Some("bar".to_string())));
    assert_eq!(rx2.poll_changed(&mut chan, &cx(2)), Poll::Ready(None));
}

#[test]
fn a_waiting_receiver_is_woken_by_a_send() {
    let (mut chan, tx, mut rx) = channel::<u32>();
    // The first poll that has to wait makes the hook, without a waker.
    assert_eq!(rx.poll_changed(&mut chan, &cx(7)), Poll::Pending);
    assert!(tx.send(&mut chan, 1).is_empty());
    assert_eq!(rx.poll_changed(&mut chan, &cx(7)), Poll::Ready(Some(1)));
}

#[test]
fn a_hook_leaves_the_queue_when_it_is_woken() {
    let (mut chan, tx, mut rx) = channel::<u32>();
    assert_eq!(rx.poll_changed(&mut chan, &cx(7)), Poll::Pending);
    tx.send(&mut chan, 1);
    assert_eq!(rx.poll_changed(&mut chan, &cx(7)), Poll::Ready(Some(1)));
    // The hook was woken and has taken its value: it is queued no more, so
    // the next value waits in the channel without waking it.
    assert_eq!(rx.poll_changed(&mut chan, &cx(7)), Poll::Pending);
    assert!(tx.send(&mut chan, 2).is_empty());
    assert_eq!(chan.peek(), &Some(2));
    assert_eq!(rx.poll_changed(&mut chan, &cx(7)), Poll::Pending);
}

#[test]
fn a_woken_hook_that_finds_no_value_waits_in_the_queue_again() {
    let (mut chan, tx, mut rx) = channel::<u32>();
    let mut other = rx.clone_receiver(&mut chan);
    assert_eq!(rx.poll_changed(&mut chan, &cx(7)), Poll::Pending);
    tx.send(&mut chan, 1);
    // Another receiver takes the value first.
    assert_eq!(other.poll_changed(&mut chan, &cx(8)), Poll::Ready(Some(1)));
    assert_eq!(rx.poll_changed(&mut chan, &cx(7)), Poll::Pending);
    tx.send(&mut chan, 2);
    assert_eq!(rx.poll_changed(&mut chan, &cx(7)), Poll::Ready(Some(2)));
}

#[test]
fn a_hook_that_was_not_woken_stores_the_waker() {
    let (mut chan, tx, mut rx) = channel::<u32>();
    assert_eq!(rx.poll_changed(&mut chan, &cx(7)), Poll::Pending);
    // Not woken since: this poll stores the waker in the hook.
    assert_eq!(rx.poll_changed(&mut chan, &cx(7)), Poll::Pending);
    assert_eq!(tx.send(&mut chan, 1), vec![Waker::new(7)]);
    assert_eq!(rx.poll_changed(&mut chan, &cx(7)), Poll::Ready(Some(1)));
}

#[test]
fn a_later_value_replaces_one_that_was_not_received() {
    let (mut chan, tx, mut rx) = channel::<u32>();
    tx.send(&mut chan, 1);
    tx.send(&mut chan, 2);
    assert_eq!(rx.poll_changed(&mut chan, &cx(1)), Poll::Ready(Some(2)));
}

#[test]
fn the_last_sender_ends_the_stream() {
    let (mut chan, tx, mut rx) = channel::<u32>();
    let tx2 = tx.clone_sender(&mut chan);
    assert_eq!(chan.senders(), 2);
    assert_eq!(rx.poll_changed(&mut chan, &cx(4)), Poll::Pending);
    assert_eq!(rx.poll_changed(&mut chan, &cx(4)), Poll::Pending);
    assert!(tx.close(&mut chan).is_empty());
    assert_eq!(rx.poll_changed(&mut chan, &cx(4)), Poll::Pending);
    assert_eq!(tx2.close(&mut chan), vec![Waker::new(4)]);
    assert_eq!(rx.poll_changed(&mut chan, &cx(4)), Poll::Ready(None));
    assert_eq!(rx.poll_changed(&mut chan, &cx(4)), Poll::Ready(None));
}

#[test]
fn sending_without_a_receiver_does_nothing() {
    let (mut chan, tx, rx) = channel::<u32>();
    rx.close(&mut chan);
    assert!(tx.send(&mut chan, 1).is_empty());
    assert_eq!(chan.peek(), &None);
}
