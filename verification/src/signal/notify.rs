use vstd::prelude::*;

use core::marker::PhantomData;

use crate::poll::{Context, Poll, Waker};
use crate::signal::waiter::{
    queue_tokens, registered, slot_of, woken_queue, SignalWaker, Slot, WaitList, Waiter,
    WaiterView,
};
use crate::signal::Signal;

verus! {

/// The state of a channel that holds at most one value: the value, the
/// number of senders and of receivers, the hooks of the receivers, and the
/// numbers of the hooks that wait to be woken.
pub struct Channel<T> {
    value: Option<T>,
    senders: usize,
    receivers: usize,
    hooks: WaitList,
    queue: Vec<u64>,
}

/// What a [`Channel`] holds.
pub ghost struct ChannelView<T> {
    pub value: Option<T>,
    pub senders: nat,
    pub receivers: nat,
    pub hooks: Seq<Slot>,
    pub queue: Seq<u64>,
}

impl<T> ChannelView<T> {
    /// The channel after every queued hook was woken and the queue emptied.
    pub open spec fn drained(self) -> ChannelView<T> {
        ChannelView {
            hooks: woken_queue(self.hooks, self.queue),
            queue: Seq::empty(),
            ..self
        }
    }

    /// The channel after `value` was sent: nothing changes where no receiver
    /// is left.
    pub open spec fn sent(self, value: T) -> ChannelView<T> {
        if self.receivers == 0 {
            self
        } else {
            ChannelView { value: Some(value), ..self.drained() }
        }
    }

    /// The channel after one sender was dropped: the last one wakes the
    /// queued hooks.
    pub open spec fn sender_dropped(self) -> ChannelView<T> {
        if self.receivers == 0 || self.senders == 0 {
            self
        } else if self.senders == 1 {
            ChannelView { senders: 0, ..self.drained() }
        } else {
            ChannelView { senders: (self.senders - 1) as nat, ..self }
        }
    }
}

impl<T> View for Channel<T> {
    type V = ChannelView<T>;

    closed spec fn view(&self) -> ChannelView<T> {
        ChannelView {
            value: self.value,
            senders: self.senders as nat,
            receivers: self.receivers as nat,
            hooks: self.hooks@,
            queue: self.queue@,
        }
    }
}

impl<T> Channel<T> {
    /// What every operation keeps: the registry of hooks is well formed.
    pub closed spec fn wf(&self) -> bool {
        self.hooks.wf()
    }

    /// Whether the channel can register no further hook.
    pub open spec fn exhausted(&self) -> bool {
        self.handed_out() == u64::MAX
    }

    /// The number of numbers that have been handed out to waiters. The next
    /// one gets this number.
    pub closed spec fn handed_out(&self) -> nat {
        self.hooks.handed_out()
    }

    /// The value that waits to be received, if any.
    pub fn peek(&self) -> (v: &Option<T>)
        ensures
            *v == self@.value,
    {
        &self.value
    }

    /// The number of senders.
    pub fn senders(&self) -> (n: usize)
        ensures
            n == self@.senders,
    {
        self.senders
    }

    fn drain(&mut self) -> (woken: Vec<Waker>)
        ensures
            final(self)@ == old(self)@.drained(),
            woken@ == queue_tokens(old(self)@.hooks, old(self)@.queue),
            old(self).wf() ==> final(self).wf(),
            final(self).handed_out() == old(self).handed_out(),
    {
        let woken = self.hooks.wake_each(&self.queue);
        self.queue.clear();
        woken
    }
}

/// The sending side of a channel. It holds nothing: the channel counts it.
#[derive(Debug)]
pub struct Sender<T> {
    marker: PhantomData<T>,
}

/// The receiving side of a channel: a signal of the values sent.
#[derive(Debug)]
pub struct Receiver<T> {
    waiter: Option<u64>,
    marker: PhantomData<T>,
}

/// A channel with one sender and one receiver, and no value.
pub fn channel<T>() -> (r: (Channel<T>, Sender<T>, Receiver<T>))
    ensures
        r.0@ == (ChannelView::<T> {
            value: None,
            senders: 1,
            receivers: 1,
            hooks: Seq::empty(),
            queue: Seq::empty(),
        }),
        r.0.wf(),
        r.0.handed_out() == 0,
        r.2.spec_waiter() is None,
{
    let inner = Channel {
        value: None,
        senders: 1,
        receivers: 1,
        hooks: WaitList::new(),
        queue: Vec::new(),
    };
    (inner, Sender { marker: PhantomData }, Receiver { waiter: None, marker: PhantomData })
}

impl<T> Sender<T> {
    /// Sends a value down the channel, in place of one not yet received, and
    /// wakes the queued hooks. Returns the tokens to deliver.
    pub fn send(&self, chan: &mut Channel<T>, value: T) -> (woken: Vec<Waker>)
        ensures
            final(chan)@ == old(chan)@.sent(value),
            woken@ == if old(chan)@.receivers == 0 {
                Seq::<Waker>::empty()
            } else {
                queue_tokens(old(chan)@.hooks, old(chan)@.queue)
            },
            old(chan).wf() ==> final(chan).wf(),
            final(chan).handed_out() == old(chan).handed_out(),
    {
        if chan.receivers == 0 {
            return Vec::new();
        }
        chan.value = Some(value);
        chan.drain()
    }

    /// One more sender of the channel. It is counted only while a receiver is
    /// left and the count can grow.
    pub fn clone_sender(&self, chan: &mut Channel<T>) -> (s: Sender<T>)
        ensures
            final(chan)@ == if old(chan)@.receivers > 0 && old(chan)@.senders < usize::MAX {
                ChannelView { senders: old(chan)@.senders + 1, ..old(chan)@ }
            } else {
                old(chan)@
            },
            old(chan).wf() ==> final(chan).wf(),
            final(chan).handed_out() == old(chan).handed_out(),
    {
        if chan.receivers > 0 && chan.senders < usize::MAX {
            chan.senders = chan.senders + 1;
        }
        Sender { marker: PhantomData }
    }

    /// Drops the sender. The last one wakes the queued hooks, so that the
    /// receivers see the end of the stream. Returns the tokens to deliver.
    pub fn close(self, chan: &mut Channel<T>) -> (woken: Vec<Waker>)
        ensures
            final(chan)@ == old(chan)@.sender_dropped(),
            woken@ == if old(chan)@.receivers > 0 && old(chan)@.senders == 1 {
                queue_tokens(old(chan)@.hooks, old(chan)@.queue)
            } else {
                Seq::<Waker>::empty()
            },
            old(chan).wf() ==> final(chan).wf(),
            final(chan).handed_out() == old(chan).handed_out(),
    {
        if chan.receivers == 0 || chan.senders == 0 {
            return Vec::new();
        }
        chan.senders = chan.senders - 1;
        if chan.senders == 0 {
            chan.drain()
        } else {
            Vec::new()
        }
    }
}

impl<T> Receiver<T> {
    /// The number of the receiver's hook in the channel; `None` before the
    /// first poll that had to wait.
    pub closed spec fn spec_waiter(&self) -> Option<u64> {
        self.waiter
    }

    /// One more receiver of the channel, without a hook of its own yet.
    pub fn clone_receiver(&self, chan: &mut Channel<T>) -> (r: Receiver<T>)
        ensures
            r.spec_waiter() is None,
            final(chan)@ == if 0 < old(chan)@.receivers < usize::MAX {
                ChannelView { receivers: old(chan)@.receivers + 1, ..old(chan)@ }
            } else {
                old(chan)@
            },
            old(chan).wf() ==> final(chan).wf(),
            final(chan).handed_out() == old(chan).handed_out(),
    {
        if 0 < chan.receivers && chan.receivers < usize::MAX {
            chan.receivers = chan.receivers + 1;
        }
        Receiver { waiter: None, marker: PhantomData }
    }

    /// Drops the receiver: its hook leaves the channel.
    pub fn close(self, chan: &mut Channel<T>)
        ensures
            final(chan)@ == (ChannelView {
                receivers: if old(chan)@.receivers > 0 {
                    (old(chan)@.receivers - 1) as nat
                } else {
                    0
                },
                hooks: if self.spec_waiter() is Some && registered(
                    old(chan)@.hooks,
                    self.spec_waiter()->0,
                ) {
                    old(chan)@.hooks.remove(slot_of(old(chan)@.hooks, self.spec_waiter()->0))
                } else {
                    old(chan)@.hooks
                },
                ..old(chan)@
            }),
            old(chan).wf() ==> final(chan).wf(),
            final(chan).handed_out() == old(chan).handed_out(),
    {
        match self.waiter {
            Some(id) => {
                chan.hooks.remove(id);
            },
            None => {},
        }
        if chan.receivers > 0 {
            chan.receivers = chan.receivers - 1;
        }
    }
}

impl<T> Signal<Channel<T>> for Receiver<T> {
    type Item = T;

    /// A receiver takes the value if its hook was woken, or if it has no hook
    /// yet. Where there is nothing to take, the stream has ended once no
    /// sender is left. Else the receiver waits: a woken hook goes back into
    /// the queue, a hook that was not woken gets the context's waker, and a
    /// receiver without a hook gets one, queued and without a waker.
    open spec fn polled(
        pre: Self,
        pre_src: Channel<T>,
        cx: Context,
        post: Self,
        post_src: Channel<T>,
        r: Poll<Option<T>>,
    ) -> bool {
        let c = pre_src@;
        let d = post_src@;
        &&& pre_src.wf() ==> post_src.wf()
        &&& d.senders == c.senders
        &&& d.receivers == c.receivers
        &&& post_src.handed_out() == if pre.spec_waiter() is None && c.value is None && c.senders
            != 0 && !pre_src.exhausted() {
            pre_src.handed_out() + 1
        } else {
            pre_src.handed_out()
        }
        &&& match pre.spec_waiter() {
            Some(id) => {
                &&& post == pre
                &&& if !registered(c.hooks, id) {
                    d == c && r == Poll::<Option<T>>::Ready(None)
                } else {
                    let k = slot_of(c.hooks, id);
                    let taken = c.hooks.update(
                        k,
                        (id, WaiterView { changed: false, waker: c.hooks[k].1.waker }),
                    );
                    if c.hooks[k].1.changed {
                        &&& d.hooks == taken
                        &&& d.value is None
                        &&& match c.value {
                            Some(item) => d.queue == c.queue && r == Poll::Ready(Some(item)),
                            None => if c.senders == 0 {
                                d.queue == c.queue && r == Poll::<Option<T>>::Ready(None)
                            } else {
                                d.queue == c.queue.push(id) && r == Poll::<Option<T>>::Pending
                            },
                        }
                    } else if c.senders == 0 {
                        d == c && r == Poll::<Option<T>>::Ready(None)
                    } else {
                        &&& d == ChannelView {
                            hooks: c.hooks.update(
                                k,
                                (
                                    id,
                                    WaiterView {
                                        changed: false,
                                        waker: SignalWaker::from_cx_spec(cx),
                                    },
                                ),
                            ),
                            ..c
                        }
                        &&& r == Poll::<Option<T>>::Pending
                    }
                }
            },
            None => match c.value {
                Some(item) => {
                    &&& post == pre
                    &&& d == ChannelView { value: None, ..c }
                    &&& r == Poll::Ready(Some(item))
                },
                None => if c.senders == 0 || pre_src.exhausted() {
                    post == pre && d == c && r == Poll::<Option<T>>::Ready(None)
                } else {
                    &&& post.spec_waiter() matches Some(id)
                    &&& id == pre_src.handed_out()
                    &&& (pre_src.wf() ==> !registered(c.hooks, id))
                    &&& d == ChannelView {
                        hooks: c.hooks.push(
                            (id, WaiterView { changed: false, waker: SignalWaker::Unset }),
                        ),
                        queue: c.queue.push(id),
                        ..c
                    }
                    &&& r == Poll::<Option<T>>::Pending
                },
            },
        }
    }

    fn poll_changed(&mut self, src: &mut Channel<T>, cx: &Context) -> (r: Poll<Option<T>>) {
        match self.waiter {
            Some(id) => match src.hooks.take_changed(id) {
                Some(true) => {
                    let item = src.value.take();
                    match item {
                        Some(item) => Poll::Ready(Some(item)),
                        None => if src.senders == 0 {
                            Poll::Ready(None)
                        } else {
                            // Someone else took the value: wait for the next one.
                            src.queue.push(id);
                            Poll::Pending
                        },
                    }
                },
                Some(false) => {
                    proof {
                        let s0 = old(src)@.hooks;
                        let k = slot_of(s0, id);
                        crate::signal::waiter::lemma_slot_of(s0, id);
                        assert(s0.update(
                            k,
                            (id, WaiterView { changed: false, waker: s0[k].1.waker }),
                        ) =~= s0);
                    }
                    if src.senders == 0 {
                        Poll::Ready(None)
                    } else {
                        src.hooks.set_waker(id, SignalWaker::from_cx(cx));
                        Poll::Pending
                    }
                },
                None => Poll::Ready(None),
            },
            None => {
                let item = src.value.take();
                match item {
                    Some(item) => Poll::Ready(Some(item)),
                    None => if src.senders == 0 {
                        Poll::Ready(None)
                    } else {
                        match src.hooks.push(Waiter::new(false)) {
                            Some(id) => {
                                src.queue.push(id);
                                self.waiter = Some(id);
                                Poll::Pending
                            },
                            None => Poll::Ready(None),
                        }
                    },
                }
            },
        }
    }
}

} // verus!
