use vstd::prelude::*;

use crate::effect::executor::{SpawnerView, TaskSpawner};
use crate::effect::{Effect, Handler};
use crate::poll::{Context, Future, Poll};

verus! {

/// An effect that runs a future to completion and hands its value to a
/// handler, once.
pub struct FutureEffect<Fut, F> {
    fut: Fut,
    func: Option<F>,
}

impl<Fut, F> FutureEffect<Fut, F> {
    pub closed spec fn spec_new(fut: Fut, func: F) -> FutureEffect<Fut, F> {
        FutureEffect { fut, func: Some(func) }
    }

    /// An effect that hands the value of `fut` to `func`.
    pub fn new(fut: Fut, func: F) -> (e: FutureEffect<Fut, F>)
        ensures
            e.spec_fut() == fut,
            e.spec_func() == Some(func),
            e == FutureEffect::spec_new(fut, func),
    {
        FutureEffect { fut, func: Some(func) }
    }

    /// The future that the effect runs.
    pub closed spec fn spec_fut(&self) -> Fut {
        self.fut
    }

    /// The handler that waits for the value; `None` once it has run.
    pub closed spec fn spec_func(&self) -> Option<F> {
        self.func
    }
}

impl<T, E, Fut: Future<T>, F: Handler<T, E, Fut::Output>> Effect<T, E> for FutureEffect<Fut, F> {
    /// A poll polls the future; when it resolves, the handler runs on the
    /// value and the effect has finished. An effect whose handler has run is
    /// finished and touches nothing.
    open spec fn polled(
        pre: Self,
        pre_data: T,
        pre_spawner: SpawnerView<E>,
        cx: Context,
        post: Self,
        post_data: T,
        post_spawner: SpawnerView<E>,
        r: Poll<()>,
    ) -> bool {
        match pre.spec_func() {
            None => post == pre && post_data == pre_data && post_spawner == pre_spawner && r
                == Poll::Ready(()),
            Some(func) => match r {
                Poll::Pending => {
                    &&& post_spawner == pre_spawner
                    &&& post.spec_func() == pre.spec_func()
                    &&& Fut::polled(
                        pre.spec_fut(),
                        pre_data,
                        cx,
                        post.spec_fut(),
                        post_data,
                        Poll::Pending,
                    )
                },
                Poll::Ready(_) => {
                    &&& post.spec_func() is None
                    &&& exists|v: Fut::Output, polled_data: T, done: F|
                        {
                            &&& #[trigger] Fut::polled(
                                pre.spec_fut(),
                                pre_data,
                                cx,
                                post.spec_fut(),
                                polled_data,
                                Poll::Ready(v),
                            )
                            &&& #[trigger] F::handled(
                                func,
                                polled_data,
                                pre_spawner,
                                v,
                                done,
                                post_data,
                                post_spawner,
                            )
                        }
                },
            },
        }
    }

    fn poll_effect(&mut self, data: &mut T, spawner: &mut TaskSpawner<E>, cx: &Context) -> (r:
        Poll<()>) {
        match self.func.take() {
            None => Poll::Ready(()),
            Some(func) => {
                let mut func = func;
                match self.fut.poll(data, cx) {
                    Poll::Ready(v) => {
                        let ghost polled_data = *data;
                        let ghost value = v;
                        let ghost before = func;
                        func.handle(data, spawner, v);
                        proof {
                            assert(Fut::polled(
                                old(self).spec_fut(),
                                *old(data),
                                *cx,
                                self.spec_fut(),
                                polled_data,
                                Poll::Ready(value),
                            ));
                            assert(F::handled(
                                before,
                                polled_data,
                                old(spawner)@,
                                value,
                                func,
                                *data,
                                spawner@,
                            ));
                        }
                        Poll::Ready(())
                    },
                    Poll::Pending => {
                        self.func = Some(func);
                        Poll::Pending
                    },
                }
            },
        }
    }
}

} // verus!
