use vstd::prelude::*;

use crate::effect::executor::{SpawnerView, TaskSpawner};
use crate::effect::{Effect, Handler};
use crate::poll::{Context, Poll, Stream};

verus! {

/// An effect that runs a handler for each item of a stream.
pub struct StreamEffect<S, F> {
    stream: S,
    func: F,
}

/// The number of items that one poll handles at most. An effect that has
/// handled that many wakes its own task and goes on in the next pass.
pub const ITEMS_PER_POLL: usize = usize::MAX;

impl<S, F> StreamEffect<S, F> {
    pub closed spec fn spec_new(stream: S, func: F) -> StreamEffect<S, F> {
        StreamEffect { stream, func }
    }

    /// An effect that hands each item of `stream` to `func`.
    pub fn new(stream: S, func: F) -> (e: StreamEffect<S, F>)
        ensures
            e.spec_stream() == stream,
            e.spec_func() == func,
            e == StreamEffect::spec_new(stream, func),
    {
        StreamEffect { stream, func }
    }

    /// The stream that the effect drains.
    pub closed spec fn spec_stream(&self) -> S {
        self.stream
    }

    /// The handler that the effect runs.
    pub closed spec fn spec_func(&self) -> F {
        self.func
    }
}

/// What the effect, the state and the spawner are after the effect took `n`
/// items from its stream, one after the other, and handed each to its
/// handler.
pub open spec fn fed<T, E, S: Stream<T>, F: Handler<T, E, S::Item>>(
    pre: StreamEffect<S, F>,
    pre_data: T,
    pre_spawner: SpawnerView<E>,
    cx: Context,
    n: nat,
    post: StreamEffect<S, F>,
    post_data: T,
    post_spawner: SpawnerView<E>,
) -> bool
    decreases n,
{
    if n == 0 {
        post == pre && post_data == pre_data && post_spawner == pre_spawner
    } else {
        exists|
            mid: StreamEffect<S, F>,
            mid_data: T,
            mid_spawner: SpawnerView<E>,
            polled_data: T,
            item: S::Item,
        |
            {
                &&& fed(pre, pre_data, pre_spawner, cx, (n - 1) as nat, mid, mid_data, mid_spawner)
                &&& #[trigger] S::polled_next(
                    mid.spec_stream(),
                    mid_data,
                    cx,
                    post.spec_stream(),
                    polled_data,
                    Poll::Ready(Some(item)),
                )
                &&& #[trigger] F::handled(
                    mid.spec_func(),
                    polled_data,
                    mid_spawner,
                    item,
                    post.spec_func(),
                    post_data,
                    post_spawner,
                )
            }
    }
}

/// What one poll of a stream effect does: it takes items from the stream and
/// hands each to the handler, until the stream has none for now, or has
/// ended, which ends the effect. After [`ITEMS_PER_POLL`] items the effect
/// wakes its own task instead of taking another item.
pub open spec fn drained<T, E, S: Stream<T>, F: Handler<T, E, S::Item>>(
    pre: StreamEffect<S, F>,
    pre_data: T,
    pre_spawner: SpawnerView<E>,
    cx: Context,
    post: StreamEffect<S, F>,
    post_data: T,
    post_spawner: SpawnerView<E>,
    r: Poll<()>,
) -> bool {
    exists|n: nat, mid: StreamEffect<S, F>, mid_data: T, mid_spawner: SpawnerView<E>|
        {
            &&& n <= ITEMS_PER_POLL
            &&& #[trigger] fed(pre, pre_data, pre_spawner, cx, n, mid, mid_data, mid_spawner)
            &&& if n == ITEMS_PER_POLL {
                &&& post == mid
                &&& post_data == mid_data
                &&& post_spawner == SpawnerView {
                    shared: mid_spawner.shared.woken(cx.waker()@),
                    ..mid_spawner
                }
                &&& r == Poll::<()>::Pending
            } else {
                &&& post_spawner == mid_spawner
                &&& post.spec_func() == mid.spec_func()
                &&& {
                    ||| r == Poll::<()>::Pending && S::polled_next(
                        mid.spec_stream(),
                        mid_data,
                        cx,
                        post.spec_stream(),
                        post_data,
                        Poll::Pending,
                    )
                    ||| r == Poll::Ready(()) && S::polled_next(
                        mid.spec_stream(),
                        mid_data,
                        cx,
                        post.spec_stream(),
                        post_data,
                        Poll::Ready(None),
                    )
                }
            }
        }
}

proof fn lemma_fed_next<T, E, S: Stream<T>, F: Handler<T, E, S::Item>>(
    pre: StreamEffect<S, F>,
    pre_data: T,
    pre_spawner: SpawnerView<E>,
    cx: Context,
    n: nat,
    mid: StreamEffect<S, F>,
    mid_data: T,
    mid_spawner: SpawnerView<E>,
    polled_data: T,
    item: S::Item,
    post: StreamEffect<S, F>,
    post_data: T,
    post_spawner: SpawnerView<E>,
)
    requires
        fed(pre, pre_data, pre_spawner, cx, n, mid, mid_data, mid_spawner),
        S::polled_next(
            mid.spec_stream(),
            mid_data,
            cx,
            post.spec_stream(),
            polled_data,
            Poll::Ready(Some(item)),
        ),
        F::handled(
            mid.spec_func(),
            polled_data,
            mid_spawner,
            item,
            post.spec_func(),
            post_data,
            post_spawner,
        ),
    ensures
        fed(pre, pre_data, pre_spawner, cx, n + 1, post, post_data, post_spawner),
{
    assert(((n + 1) - 1) as nat == n);
}

impl<S, F> StreamEffect<S, F> {
    /// Drains the stream: see [`drained`].
    pub fn poll<T, E>(&mut self, data: &mut T, spawner: &mut TaskSpawner<E>, cx: &Context) -> (r:
        Poll<()>) where S: Stream<T>, F: Handler<T, E, S::Item>
        ensures
            drained(
                *old(self),
                *old(data),
                old(spawner)@,
                *cx,
                *final(self),
                *final(data),
                final(spawner)@,
                r,
            ),
    {
        let mut n: usize = 0;
        while n < ITEMS_PER_POLL
            invariant
                n <= ITEMS_PER_POLL,
                fed(*old(self), *old(data), old(spawner)@, *cx, n as nat, *self, *data, spawner@),
            decreases ITEMS_PER_POLL - n,
        {
            let ghost mid = *self;
            let ghost mid_data = *data;
            let ghost mid_spawner = spawner@;
            match self.stream.poll_next(data, cx) {
                Poll::Pending => {
                    return Poll::Pending;
                },
                Poll::Ready(None) => {
                    return Poll::Ready(());
                },
                Poll::Ready(Some(item)) => {
                    let ghost polled_data = *data;
                    let ghost taken = item;
                    self.func.handle(data, spawner, item);
                    proof {
                        lemma_fed_next(
                            *old(self),
                            *old(data),
                            old(spawner)@,
                            *cx,
                            n as nat,
                            mid,
                            mid_data,
                            mid_spawner,
                            polled_data,
                            taken,
                            *self,
                            *data,
                            spawner@,
                        );
                    }
                    n += 1;
                },
            }
        }
        spawner.wake(cx.waker());
        Poll::Pending
    }
}

impl<T, E, S: Stream<T>, F: Handler<T, E, S::Item>> Effect<T, E> for StreamEffect<S, F> {
    /// A poll drains the stream: see [`drained`].
    open spec fn polled(
        pre: Self,
        pre_data: T,
        pre_spawner: SpawnerView<E>,
        cx: Context,
        post: Self,
        post_data: T,
        post_spawner: SpawnerView<E>,
        r: Poll<()>,
    ) -> bool {
        drained(pre, pre_data, pre_spawner, cx, post, post_data, post_spawner, r)
    }

    fn poll_effect(&mut self, data: &mut T, spawner: &mut TaskSpawner<E>, cx: &Context) -> (r:
        Poll<()>) {
        self.poll(data, spawner, cx)
    }
}

} // verus!
