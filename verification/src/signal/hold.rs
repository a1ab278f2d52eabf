use vstd::prelude::*;

use crate::poll::{Context, Poll, Waker};
use crate::signal::Signal;

verus! {

/// Keeps the most recent value of a signal.
pub struct Hold<S, T> {
    signal: S,
    value: Option<T>,
    is_closed: bool,
}

/// What a [`Hold`] holds.
pub ghost struct HoldView<S, T> {
    pub signal: S,
    pub value: Option<T>,
    pub is_closed: bool,
}

impl<S, T> View for Hold<S, T> {
    type V = HoldView<S, T>;

    closed spec fn view(&self) -> HoldView<S, T> {
        HoldView { signal: self.signal, value: self.value, is_closed: self.is_closed }
    }
}

/// `r` is a borrow of what `value` holds.
pub open spec fn borrowed<T>(r: Option<&T>, value: Option<T>) -> bool {
    match (r, value) {
        (Some(a), Some(b)) => *a == b,
        (None, None) => true,
        _ => false,
    }
}

impl<S, T> Hold<S, T> {
    /// A hold of `signal` that has seen no value yet.
    pub fn new(signal: S) -> (h: Hold<S, T>)
        ensures
            h@ == (HoldView::<S, T> { signal, value: None, is_closed: false }),
    {
        Hold { signal, value: None, is_closed: false }
    }

    /// Polls the signal, without asking to be woken, and returns its most
    /// recent value: `None` if the signal has not had a value yet, and from
    /// the poll on that found the signal closed.
    pub fn get<Src>(&mut self, src: &mut Src) -> (r: Option<&T>) where S: Signal<Src, Item = T>
        ensures
            exists|p: Poll<Option<T>>|
                {
                    &&& #[trigger] S::polled(
                        old(self)@.signal,
                        *old(src),
                        Context::from_waker(Waker::noop()),
                        final(self)@.signal,
                        *final(src),
                        p,
                    )
                    &&& match p {
                        Poll::Ready(Some(v)) => {
                            &&& final(self)@.value == Some(v)
                            &&& final(self)@.is_closed == old(self)@.is_closed
                            &&& borrowed(r, Some(v))
                        },
                        Poll::Ready(None) => {
                            &&& final(self)@.value == old(self)@.value
                            &&& final(self)@.is_closed
                            &&& r is None
                        },
                        Poll::Pending => {
                            &&& final(self)@.value == old(self)@.value
                            &&& final(self)@.is_closed == old(self)@.is_closed
                            &&& borrowed(r, old(self)@.value)
                        },
                    }
                },
    {
        let cx = Context::from_waker(Waker::noop());
        let p = self.signal.poll_changed(src, &cx);
        let ghost seen = p;
        match p {
            Poll::Ready(Some(v)) => {
                self.value = Some(v);
            },
            Poll::Ready(None) => {
                self.is_closed = true;
                proof {
                    assert(S::polled(old(self)@.signal, *old(src), cx, self@.signal, *src, seen));
                }
                return None;
            },
            Poll::Pending => {},
        }
        proof {
            assert(S::polled(old(self)@.signal, *old(src), cx, self@.signal, *src, seen));
        }
        self.value.as_ref()
    }

    /// Whether a poll has found the signal closed.
    pub fn is_closed(&self) -> (r: bool)
        ensures
            r == self@.is_closed,
    {
        self.is_closed
    }
}

} // verus!
