//! Computations that run against a context whenever one of their sources
//! has changed.

use vstd::prelude::*;

use crate::poll::{Context, Poll};

pub mod executor;
pub mod future;
pub mod signal;
pub mod stream;

pub use executor::{
    AbortTaskHandle, Executor, Shared, SpawnerView, Task, TaskHandle, TaskSpawner, TaskWaker,
};
pub use future::FutureEffect;
pub use signal::SignalEffect;
pub use stream::StreamEffect;

verus! {


/// What an effect runs for each item of its source, in a scheduler of
/// effects of type `E`.
pub trait Handler<T, E, Item>: Sized {
    /// What handling one item may do to the handler, to the state and to the
    /// spawner.
    open spec fn handled(
        pre: Self,
        pre_data: T,
        pre_spawner: SpawnerView<E>,
        item: Item,
        post: Self,
        post_data: T,
        post_spawner: SpawnerView<E>,
    ) -> bool {
        true
    }

    /// Handles one item.
    fn handle(&mut self, data: &mut T, spawner: &mut TaskSpawner<E>, item: Item)
        ensures
            Self::handled(
                *old(self),
                *old(data),
                old(spawner)@,
                item,
                *final(self),
                *final(data),
                final(spawner)@,
            ),
    ;
}

/// A computation that is advanced by polling, with a context that lives only
/// as long as the poll: the state it acts on, the spawner of the scheduler
/// that runs it, and the waker of its task.
///
/// The spawner takes effects of the type `E`, the one type of effect that
/// the scheduler runs: a program with effects of several shapes runs them as
/// the variants of one enum.
pub trait Effect<T, E>: Sized {
    /// What one poll may do: from the effect, the state and the spawner
    /// before the poll, to all three after it and to what the poll returns.
    open spec fn polled(
        pre: Self,
        pre_data: T,
        pre_spawner: SpawnerView<E>,
        cx: Context,
        post: Self,
        post_data: T,
        post_spawner: SpawnerView<E>,
        r: Poll<()>,
    ) -> bool {
        true
    }

    /// Advances the effect. `Ready` means that the effect has finished and
    /// is to be removed; it is not polled again.
    fn poll_effect(&mut self, data: &mut T, spawner: &mut TaskSpawner<E>, cx: &Context) -> (r:
        Poll<()>)
        ensures
            Self::polled(
                *old(self),
                *old(data),
                old(spawner)@,
                *cx,
                *final(self),
                *final(data),
                final(spawner)@,
                r,
            ),
    ;
}

/// Turns a stream into an effect that runs `func` for each item.
pub fn from_stream<S, F>(stream: S, func: F) -> (e: StreamEffect<S, F>)
    ensures
        e.spec_stream() == stream,
        e.spec_func() == func,
{
    StreamEffect::new(stream, func)
}

/// An effect that runs a handler once, with its first poll.
pub struct FnOnceEffect<F> {
    func: Option<F>,
}

impl<F> FnOnceEffect<F> {
    /// An effect that runs `func`.
    pub fn new(func: F) -> (e: FnOnceEffect<F>)
        ensures
            e.spec_func() == Some(func),
    {
        FnOnceEffect { func: Some(func) }
    }

    /// The handler that waits to run; `None` once it has.
    pub closed spec fn spec_func(&self) -> Option<F> {
        self.func
    }
}

impl<T, E, F: Handler<T, E, ()>> Effect<T, E> for FnOnceEffect<F> {
    /// The first poll runs the handler and finishes the effect. A later poll
    /// finds the effect finished and touches nothing.
    open spec fn polled(
        pre: Self,
        pre_data: T,
        pre_spawner: SpawnerView<E>,
        cx: Context,
        post: Self,
        post_data: T,
        post_spawner: SpawnerView<E>,
        r: Poll<()>,
    ) -> bool {
        &&& r == Poll::Ready(())
        &&& post.spec_func() is None
        &&& match pre.spec_func() {
            Some(func) => ran_once(func, pre_data, pre_spawner, post_data, post_spawner),
            None => post_data == pre_data && post_spawner == pre_spawner,
        }
    }

    fn poll_effect(&mut self, data: &mut T, spawner: &mut TaskSpawner<E>, cx: &Context) -> (r:
        Poll<()>) {
        match self.func.take() {
            Some(func) => {
                let mut func = func;
                let ghost before = func;
                func.handle(data, spawner, ());
                proof {
                    assert(F::handled(
                        before,
                        *old(data),
                        old(spawner)@,
                        (),
                        func,
                        *data,
                        spawner@,
                    ));
                }
            },
            None => {},
        }
        Poll::Ready(())
    }
}

/// Running `func` once may turn the state and the spawner into `post_data`
/// and `post_spawner`.
pub open spec fn ran_once<T, E, F: Handler<T, E, ()>>(
    func: F,
    pre_data: T,
    pre_spawner: SpawnerView<E>,
    post_data: T,
    post_spawner: SpawnerView<E>,
) -> bool {
    exists|done: F| #[trigger]
        F::handled(func, pre_data, pre_spawner, (), done, post_data, post_spawner)
}

} // verus!
