//! Values that change over time and can be observed by polling.

use vstd::prelude::*;

use crate::poll::{Context, Future, Poll, Stream};

pub mod hold;
pub mod map;
pub mod mutable;
pub mod notify;
pub mod waiter;

pub use hold::Hold;
pub use map::{Mapped, Mapper, Then};
pub use mutable::{Mutable, MutableReadGuard, MutableSignal, MutableSignalRef};
pub use notify::{channel, Channel, Receiver, Sender};
pub use waiter::{Hook, HookList, SignalWaker, WaitList, Waiter};

verus! {

/// A value that can change and be observed.
///
/// A signal does not own what it observes: each poll is handed the source,
/// the state in which the observed value lives.
pub trait Signal<Src>: Sized {
    /// What the signal yields at each change.
    type Item;

    /// What one poll does: from the signal and its source before the poll and
    /// the context of the poll, to both after it and to what the poll returns.
    open spec fn polled(
        pre: Self,
        pre_src: Src,
        cx: Context,
        post: Self,
        post_src: Src,
        r: Poll<Option<Self::Item>>,
    ) -> bool {
        true
    }

    /// Polls for the next change: `Ready(Some(item))` is a new value,
    /// `Ready(None)` the end of the stream, and `Pending` means that the
    /// waker of `cx` was stored and will be handed back at the next change.
    fn poll_changed(&mut self, src: &mut Src, cx: &Context) -> (r: Poll<Option<Self::Item>>)
        ensures
            Self::polled(*old(self), *old(src), *cx, *final(self), *final(src), r),
    ;

    /// The next value of the signal, as a future.
    fn next_value(self) -> (f: SignalFuture<Self>)
        ensures
            f.spec_signal() == self,
    {
        SignalFuture::new(self)
    }

    /// A hold of the signal: it keeps the most recent value.
    fn hold(self) -> (h: Hold<Self, Self::Item>)
        ensures
            h@ == (hold::HoldView::<Self, Self::Item> { signal: self, value: None, is_closed: false }),
    {
        Hold::new(self)
    }

    /// The signal of what `f` makes of each value of this signal.
    fn map<F: Mapper<Self::Item>>(self, f: F) -> (m: Mapped<Self, F>)
        ensures
            m.spec_signal() == self,
            m.spec_f() == f,
    {
        Mapped::new(self, f)
    }

    /// The signal of clones of the values of this signal.
    fn cloned(self) -> (c: Cloned<Self>)
        ensures
            c.spec_signal() == self,
    {
        Cloned::new(self)
    }

    /// The values of the signal as a stream.
    fn into_stream(self) -> (s: SignalStream<Self>)
        ensures
            s.spec_signal() == self,
    {
        SignalStream::new(self)
    }
}

/// A poll of `fut` in the context `cx` may resolve to `v` and leave the
/// source as `post_src`.
pub open spec fn resolved<Src, F: Future<Src>>(
    fut: F,
    pre_src: Src,
    cx: Context,
    post_src: Src,
    v: F::Output,
) -> bool {
    exists|done: F| #[trigger] F::polled(fut, pre_src, cx, done, post_src, Poll::Ready(v))
}

/// A poll of `stream` in the context `cx` may find the stream ended and
/// leave the source as `post_src`.
pub open spec fn ended<Src, S: Stream<Src>>(stream: S, pre_src: Src, cx: Context, post_src: Src) -> bool {
    exists|done: S| #[trigger] S::polled_next(stream, pre_src, cx, done, post_src, Poll::Ready(None))
}

/// A signal that yields the value of a future, once, when the future has
/// resolved.
pub struct FromFuture<F> {
    fut: Option<F>,
}

impl<F> FromFuture<F> {
    /// The future that has not resolved yet; `None` once it has.
    pub closed spec fn spec_fut(&self) -> Option<F> {
        self.fut
    }
}

/// Turns a future into a signal that yields one item.
pub fn from_future<F>(future: F) -> (s: FromFuture<F>)
    ensures
        s.spec_fut() == Some(future),
{
    FromFuture { fut: Some(future) }
}

impl<Src, F: Future<Src>> Signal<Src> for FromFuture<F> {
    type Item = F::Output;

    /// While the future is there, a poll polls it, and yields its value when
    /// it resolves; the future is then given up. After that the stream has
    /// ended.
    open spec fn polled(
        pre: Self,
        pre_src: Src,
        cx: Context,
        post: Self,
        post_src: Src,
        r: Poll<Option<F::Output>>,
    ) -> bool {
        match pre.spec_fut() {
            Some(fut) => match r {
                Poll::Ready(Some(v)) => {
                    &&& post.spec_fut() is None
                    &&& resolved(fut, pre_src, cx, post_src, v)
                },
                Poll::Ready(None) => false,
                Poll::Pending => {
                    &&& post.spec_fut() is Some
                    &&& F::polled(fut, pre_src, cx, post.spec_fut()->0, post_src, Poll::Pending)
                },
            },
            None => post == pre && post_src == pre_src && r == Poll::<Option<F::Output>>::Ready(
                None,
            ),
        }
    }

    fn poll_changed(&mut self, src: &mut Src, cx: &Context) -> (r: Poll<Option<F::Output>>) {
        match self.fut.take() {
            Some(fut) => {
                let mut fut = fut;
                match fut.poll(src, cx) {
                    Poll::Ready(v) => {
                        proof {
                            assert(F::polled(
                                old(self).spec_fut()->0,
                                *old(src),
                                *cx,
                                fut,
                                *src,
                                Poll::Ready(v),
                            ));
                            assert(resolved(old(self).spec_fut()->0, *old(src), *cx, *src, v));
                        }
                        Poll::Ready(Some(v))
                    },
                    Poll::Pending => {
                        self.fut = Some(fut);
                        Poll::Pending
                    },
                }
            },
            None => Poll::Ready(None),
        }
    }
}

/// A signal that yields the items of a stream, and that has ended for good
/// once the stream has ended.
pub struct FromStream<S> {
    stream: Option<S>,
}

impl<S> FromStream<S> {
    /// The stream that has not ended yet; `None` once it has.
    pub closed spec fn spec_stream(&self) -> Option<S> {
        self.stream
    }
}

/// Turns a stream into a signal.
pub fn from_stream<S>(stream: S) -> (s: FromStream<S>)
    ensures
        s.spec_stream() == Some(stream),
{
    FromStream { stream: Some(stream) }
}

impl<Src, S: Stream<Src>> Signal<Src> for FromStream<S> {
    type Item = S::Item;

    /// While the stream is there, a poll is a poll of the stream; the stream
    /// is given up when it ends. After that the signal has ended.
    open spec fn polled(
        pre: Self,
        pre_src: Src,
        cx: Context,
        post: Self,
        post_src: Src,
        r: Poll<Option<S::Item>>,
    ) -> bool {
        match pre.spec_stream() {
            Some(stream) => if r == Poll::<Option<S::Item>>::Ready(None) {
                &&& post.spec_stream() is None
                &&& ended(stream, pre_src, cx, post_src)
            } else {
                &&& post.spec_stream() is Some
                &&& S::polled_next(stream, pre_src, cx, post.spec_stream()->0, post_src, r)
            },
            None => post == pre && post_src == pre_src && r == Poll::<Option<S::Item>>::Ready(
                None,
            ),
        }
    }

    fn poll_changed(&mut self, src: &mut Src, cx: &Context) -> (r: Poll<Option<S::Item>>) {
        match self.stream.take() {
            Some(stream) => {
                let mut stream = stream;
                match stream.poll_next(src, cx) {
                    Poll::Ready(None) => {
                        proof {
                            assert(S::polled_next(
                                old(self).spec_stream()->0,
                                *old(src),
                                *cx,
                                stream,
                                *src,
                                Poll::Ready(None),
                            ));
                            assert(ended(old(self).spec_stream()->0, *old(src), *cx, *src));
                        }
                        Poll::Ready(None)
                    },
                    Poll::Ready(Some(item)) => {
                        self.stream = Some(stream);
                        Poll::Ready(Some(item))
                    },
                    Poll::Pending => {
                        self.stream = Some(stream);
                        Poll::Pending
                    },
                }
            },
            None => Poll::Ready(None),
        }
    }
}

/// A signal that yields clones of the values of another signal, and gives
/// up the values themselves.
pub struct Cloned<S> {
    signal: S,
}

impl<S> Cloned<S> {
    /// The signal that yields owned clones of the values of `signal`.
    pub fn new(signal: S) -> (c: Cloned<S>)
        ensures
            c.spec_signal() == signal,
    {
        Cloned { signal }
    }

    /// The signal underneath.
    pub closed spec fn spec_signal(&self) -> S {
        self.signal
    }
}

impl<Src, S: Signal<Src>> Signal<Src> for Cloned<S> where S::Item: Clone {
    type Item = S::Item;

    /// One poll is one poll of the signal underneath; a value is handed on as
    /// its clone.
    open spec fn polled(
        pre: Self,
        pre_src: Src,
        cx: Context,
        post: Self,
        post_src: Src,
        r: Poll<Option<S::Item>>,
    ) -> bool {
        exists|inner: Poll<Option<S::Item>>|
            {
                &&& #[trigger] S::polled(
                    pre.spec_signal(),
                    pre_src,
                    cx,
                    post.spec_signal(),
                    post_src,
                    inner,
                )
                &&& match inner {
                    Poll::Ready(Some(v)) => r matches Poll::Ready(Some(out)) && cloned(v, out),
                    Poll::Ready(None) => r == Poll::<Option<S::Item>>::Ready(None),
                    Poll::Pending => r == Poll::<Option<S::Item>>::Pending,
                }
            }
    }

    fn poll_changed(&mut self, src: &mut Src, cx: &Context) -> (r: Poll<Option<S::Item>>) {
        let inner = self.signal.poll_changed(src, cx);
        let ghost seen = inner;
        let r = match inner {
            Poll::Ready(Some(v)) => {
                let out = v.clone();
                Poll::Ready(Some(out))
            },
            Poll::Ready(None) => Poll::Ready(None),
            Poll::Pending => Poll::Pending,
        };
        proof {
            assert(S::polled(
                old(self).spec_signal(),
                *old(src),
                *cx,
                self.spec_signal(),
                *src,
                seen,
            ));
        }
        r
    }
}

/// A signal seen as a stream of its values.
pub struct SignalStream<S> {
    signal: S,
}

impl<S> SignalStream<S> {
    pub closed spec fn spec_new(signal: S) -> SignalStream<S> {
        SignalStream { signal }
    }

    /// The stream of the values of `signal`.
    pub fn new(signal: S) -> (s: SignalStream<S>)
        ensures
            s.spec_signal() == signal,
            s == SignalStream::spec_new(signal),
    {
        SignalStream { signal }
    }

    /// The signal underneath.
    pub closed spec fn spec_signal(&self) -> S {
        self.signal
    }
}

impl<Src, S: Signal<Src>> Stream<Src> for SignalStream<S> {
    type Item = S::Item;

    /// Each poll is a poll of the signal.
    open spec fn polled_next(
        pre: Self,
        pre_src: Src,
        cx: Context,
        post: Self,
        post_src: Src,
        r: Poll<Option<S::Item>>,
    ) -> bool {
        S::polled(pre.spec_signal(), pre_src, cx, post.spec_signal(), post_src, r)
    }

    fn poll_next(&mut self, src: &mut Src, cx: &Context) -> (r: Poll<Option<S::Item>>) {
        self.signal.poll_changed(src, cx)
    }
}

/// The next value of a signal, as a future.
pub struct SignalFuture<S> {
    signal: S,
}

impl<S> SignalFuture<S> {
    /// The future that resolves to the next value of `signal`, or to `None`
    /// where the signal has ended.
    pub fn new(signal: S) -> (s: SignalFuture<S>)
        ensures
            s.spec_signal() == signal,
    {
        SignalFuture { signal }
    }

    /// The signal underneath.
    pub closed spec fn spec_signal(&self) -> S {
        self.signal
    }

    /// Gives the signal back.
    pub fn into_signal(self) -> (signal: S)
        ensures
            signal == self.spec_signal(),
    {
        self.signal
    }
}

impl<Src, S: Signal<Src>> Future<Src> for SignalFuture<S> {
    type Output = Option<S::Item>;

    /// Each poll is a poll of the signal.
    open spec fn polled(
        pre: Self,
        pre_src: Src,
        cx: Context,
        post: Self,
        post_src: Src,
        r: Poll<Option<S::Item>>,
    ) -> bool {
        S::polled(pre.spec_signal(), pre_src, cx, post.spec_signal(), post_src, r)
    }

    fn poll(&mut self, src: &mut Src, cx: &Context) -> (r: Poll<Option<S::Item>>) {
        self.signal.poll_changed(src, cx)
    }
}

} // verus!
