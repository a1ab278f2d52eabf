use vstd::prelude::*;

use crate::poll::{Context, Poll};
use crate::signal::Signal;

verus! {

/// What a mapped signal applies to each value. A mapper may keep state from
/// one value to the next.
pub trait Mapper<A>: Sized {
    /// What the mapper makes of a value.
    type Output;

    /// What applying the mapper to one value may do.
    open spec fn applied(pre: Self, item: A, post: Self, out: Self::Output) -> bool {
        true
    }

    /// Applies the mapper to one value.
    fn apply(&mut self, item: A) -> (out: Self::Output)
        ensures
            Self::applied(*old(self), item, *final(self), out),
    ;
}

/// Two mappers, one after the other.
pub struct Then<F, G>(pub F, pub G);

impl<A, F: Mapper<A>, G: Mapper<F::Output>> Mapper<A> for Then<F, G> {
    type Output = G::Output;

    /// The value goes through the first mapper, and what that makes of it
    /// through the second.
    open spec fn applied(pre: Self, item: A, post: Self, out: G::Output) -> bool {
        exists|mid: F::Output|
            {
                &&& #[trigger] F::applied(pre.0, item, post.0, mid)
                &&& G::applied(pre.1, mid, post.1, out)
            }
    }

    fn apply(&mut self, item: A) -> (out: G::Output) {
        let mid = self.0.apply(item);
        let ghost seen = mid;
        let out = self.1.apply(mid);
        proof {
            assert(F::applied(old(self).0, item, self.0, seen));
        }
        out
    }
}

/// A signal whose values are those of another signal, each passed through a
/// mapper.
pub struct Mapped<S, F> {
    signal: S,
    f: F,
}

impl<S, F> Mapped<S, F> {
    /// The signal that yields what `f` makes of each value of `signal`.
    pub fn new(signal: S, f: F) -> (m: Mapped<S, F>)
        ensures
            m.spec_signal() == signal,
            m.spec_f() == f,
    {
        Mapped { signal, f }
    }

    /// The signal underneath.
    pub closed spec fn spec_signal(&self) -> S {
        self.signal
    }

    /// The mapper.
    pub closed spec fn spec_f(&self) -> F {
        self.f
    }
}

impl<Src, S: Signal<Src>, F: Mapper<S::Item>> Signal<Src> for Mapped<S, F> {
    type Item = F::Output;

    /// One poll is one poll of the signal underneath. A value is passed
    /// through the mapper; the end of the stream and a pending poll are
    /// handed on, and the mapper is not applied.
    open spec fn polled(
        pre: Self,
        pre_src: Src,
        cx: Context,
        post: Self,
        post_src: Src,
        r: Poll<Option<F::Output>>,
    ) -> bool {
        exists|inner: Poll<Option<S::Item>>|
            {
                &&& #[trigger] S::polled(
                    pre.spec_signal(),
                    pre_src,
                    cx,
                    post.spec_signal(),
                    post_src,
                    inner,
                )
                &&& match inner {
                    Poll::Ready(Some(v)) => r matches Poll::Ready(Some(out)) && F::applied(
                        pre.spec_f(),
                        v,
                        post.spec_f(),
                        out,
                    ),
                    Poll::Ready(None) => r == Poll::<Option<F::Output>>::Ready(None)
                        && post.spec_f() == pre.spec_f(),
                    Poll::Pending => r == Poll::<Option<F::Output>>::Pending && post.spec_f()
                        == pre.spec_f(),
                }
            }
    }

    fn poll_changed(&mut self, src: &mut Src, cx: &Context) -> (r: Poll<Option<F::Output>>) {
        let inner = self.signal.poll_changed(src, cx);
        let ghost seen = inner;
        let r = match inner {
            Poll::Ready(Some(v)) => Poll::Ready(Some(self.f.apply(v))),
            Poll::Ready(None) => Poll::Ready(None),
            Poll::Pending => Poll::Pending,
        };
        proof {
            assert(S::polled(
                old(self).spec_signal(),
                *old(src),
                *cx,
                self.spec_signal(),
                *src,
                seen,
            ));
        }
        r
    }
}

} // verus!
