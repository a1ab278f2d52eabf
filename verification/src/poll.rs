use vstd::prelude::*;

verus! {

/// The outcome of polling something that may not have a value yet.
#[derive(Debug, PartialEq, Eq)]
pub enum Poll<T> {
    /// A value is available.
    Ready(T),
    /// Nothing yet; the waker handed to the poll has been stored.
    Pending,
}

/// A token that names whoever asked to be woken.
///
/// Waking is not done by the library: every operation that wakes hands the
/// tokens back, and the caller delivers them.
#[derive(Clone, Copy, Debug, PartialEq, Eq, Structural)]
pub struct Waker {
    id: u64,
}

impl View for Waker {
    type V = u64;

    closed spec fn view(&self) -> u64 {
        self.id
    }
}

impl Waker {
    pub closed spec fn spec_new(id: u64) -> Waker {
        Waker { id }
    }

    /// The token with the given number.
    #[verifier::when_used_as_spec(spec_new)]
    pub fn new(id: u64) -> (w: Waker)
        ensures
            w@ == id,
            w == Waker::spec_new(id),
    {
        Waker { id }
    }

    pub closed spec fn spec_noop() -> Waker {
        Waker { id: 0 }
    }

    /// The token that names nobody: no task of an executor goes by it.
    #[verifier::when_used_as_spec(spec_noop)]
    pub fn noop() -> (w: Waker)
        ensures
            w@ == 0,
            w == Waker::spec_noop(),
    {
        Waker { id: 0 }
    }

    /// The number this token was made from.
    pub fn id(&self) -> (id: u64)
        ensures
            id == self@,
    {
        self.id
    }
}

/// What a poll is given: the waker of whoever polls.
#[derive(Clone, Copy, Debug, PartialEq, Eq, Structural)]
pub struct Context {
    waker: Waker,
}

impl Context {
    pub closed spec fn spec_from_waker(waker: Waker) -> Context {
        Context { waker }
    }

    /// A context that carries `waker`.
    #[verifier::when_used_as_spec(spec_from_waker)]
    pub fn from_waker(waker: Waker) -> (cx: Context)
        ensures
            cx.spec_waker() == waker,
            cx == Context::spec_from_waker(waker),
    {
        Context { waker }
    }

    pub closed spec fn spec_waker(&self) -> Waker {
        self.waker
    }

    /// The waker of whoever polls.
    #[verifier::when_used_as_spec(spec_waker)]
    pub fn waker(&self) -> (w: Waker)
        ensures
            w == self.spec_waker(),
    {
        self.waker
    }
}

impl<T> Poll<T> {
    /// Whether a value is available.
    pub fn is_ready(&self) -> (r: bool)
        ensures
            r == (*self is Ready),
    {
        match self {
            Poll::Ready(_) => true,
            Poll::Pending => false,
        }
    }

    /// Whether the poll has to be repeated after a wake-up.
    pub fn is_pending(&self) -> (r: bool)
        ensures
            r == (*self is Pending),
    {
        match self {
            Poll::Ready(_) => false,
            Poll::Pending => true,
        }
    }
}

/// A computation that ends with one value, advanced by polling.
///
/// Each poll is handed the source: the state outside the future that the
/// future reads and changes.
pub trait Future<Src>: Sized {
    /// What the future resolves to.
    type Output;

    /// What one poll does: from the future and its source before the poll and
    /// the context of the poll, to both after it and to what the poll returns.
    open spec fn polled(
        pre: Self,
        pre_src: Src,
        cx: Context,
        post: Self,
        post_src: Src,
        r: Poll<Self::Output>,
    ) -> bool {
        true
    }

    /// Polls for the value. `Pending` means that the waker of `cx` was stored.
    fn poll(&mut self, src: &mut Src, cx: &Context) -> (r: Poll<Self::Output>)
        ensures
            Self::polled(*old(self), *old(src), *cx, *final(self), *final(src), r),
    ;
}

/// A sequence of values that arrive over time, advanced by polling.
pub trait Stream<Src>: Sized {
    /// What the stream yields.
    type Item;

    /// What one poll does: from the stream and its source before the poll and
    /// the context of the poll, to both after it and to what the poll returns.
    open spec fn polled_next(
        pre: Self,
        pre_src: Src,
        cx: Context,
        post: Self,
        post_src: Src,
        r: Poll<Option<Self::Item>>,
    ) -> bool {
        true
    }

    /// Polls for the next item; `Ready(None)` is the end of the stream.
    fn poll_next(&mut self, src: &mut Src, cx: &Context) -> (r: Poll<Option<Self::Item>>)
        ensures
            Self::polled_next(*old(self), *old(src), *cx, *final(self), *final(src), r),
    ;
}

} // verus!
