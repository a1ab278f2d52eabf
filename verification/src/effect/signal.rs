use vstd::prelude::*;

use crate::effect::executor::{SpawnerView, TaskSpawner};
use crate::effect::stream::{drained, StreamEffect};
use crate::effect::{Effect, Handler};
use crate::poll::{Context, Poll};
use crate::signal::{Signal, SignalStream};

verus! {

/// An effect that runs a handler for each value of a signal.
pub struct SignalEffect<S, F> {
    inner: StreamEffect<SignalStream<S>, F>,
}

impl<S, F> SignalEffect<S, F> {
    pub closed spec fn spec_new(signal: S, func: F) -> SignalEffect<S, F> {
        SignalEffect { inner: StreamEffect::spec_new(SignalStream::spec_new(signal), func) }
    }

    /// An effect that hands each value of `signal` to `func`.
    pub fn new(signal: S, func: F) -> (e: SignalEffect<S, F>)
        ensures
            e.spec_inner().spec_stream().spec_signal() == signal,
            e.spec_inner().spec_func() == func,
            e == SignalEffect::spec_new(signal, func),
    {
        SignalEffect { inner: StreamEffect::new(SignalStream::new(signal), func) }
    }

    /// The effect over the signal's stream, which does the work.
    pub closed spec fn spec_inner(&self) -> StreamEffect<SignalStream<S>, F> {
        self.inner
    }
}

impl<T, E, S: Signal<T>, F: Handler<T, E, S::Item>> Effect<T, E> for SignalEffect<S, F> {
    /// A poll drains the signal as a stream effect drains its stream: see
    /// [`drained`].
    open spec fn polled(
        pre: Self,
        pre_data: T,
        pre_spawner: SpawnerView<E>,
        cx: Context,
        post: Self,
        post_data: T,
        post_spawner: SpawnerView<E>,
        r: Poll<()>,
    ) -> bool {
        drained(
            pre.spec_inner(),
            pre_data,
            pre_spawner,
            cx,
            post.spec_inner(),
            post_data,
            post_spawner,
            r,
        )
    }

    fn poll_effect(&mut self, data: &mut T, spawner: &mut TaskSpawner<E>, cx: &Context) -> (r:
        Poll<()>) {
        self.inner.poll(data, spawner, cx)
    }
}

} // verus!
