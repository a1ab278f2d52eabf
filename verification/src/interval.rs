//! Ticks at a fixed period.

use vstd::prelude::*;

use crate::poll::{Context, Future, Poll, Stream};
use crate::signal::waiter::{registered, slot_of, SignalWaker, WaiterView};
use crate::time::{
    after, entry_fired, entry_set, entry_waker, removed, Duration, Instant, Sleep, SleepView,
    Timers, TimersView,
};

verus! {

/// A stream that ticks at a start time and then once every period.
///
/// Each tick reports the deadline it was due at. The next deadline is that
/// one plus the period, however late the tick was seen.
#[derive(Debug)]
pub struct Interval {
    sleep: Sleep,
    period: Duration,
}

/// What an [`Interval`] holds.
pub ghost struct IntervalView {
    pub sleep: SleepView,
    pub period: Duration,
}

impl View for Interval {
    type V = IntervalView;

    closed spec fn view(&self) -> IntervalView {
        IntervalView { sleep: self.sleep@, period: self.period }
    }
}

impl Interval {
    /// What one poll for a tick does. Where the timer of the sleep has
    /// fired, the tick reports the deadline it was due at, and the sleep is
    /// reset to that deadline plus the period. Else it is a poll of the sleep
    /// that returns pending.
    pub open spec fn ticked(
        pre: Self,
        pre_src: Timers,
        cx: Context,
        post: Self,
        post_src: Timers,
        r: Poll<Instant>,
    ) -> bool {
        let t = pre_src@;
        &&& post@.period == pre@.period
        &&& pre_src.wf() ==> post_src.wf()
        &&& post_src.handed_out() == pre_src.handed_out()
        &&& if pre@.sleep.timer is Some && entry_fired(t.entries, pre@.sleep.timer->0) {
            let id = pre@.sleep.timer->0;
            &&& r == Poll::Ready(pre@.sleep.deadline)
            &&& post@.sleep == SleepView {
                timer: pre@.sleep.timer,
                deadline: after(pre@.sleep.deadline, pre@.period),
                registered: false,
            }
            &&& post_src@ == TimersView {
                heap: removed(t.heap, (pre@.sleep.deadline, id)),
                entries: entry_set(t.entries, id, false, entry_waker(t.entries, id)),
                ..t
            }
        } else {
            &&& r == Poll::<Instant>::Pending
            &&& Sleep::polled(
                pre.spec_sleep(),
                pre_src,
                cx,
                post.spec_sleep(),
                post_src,
                Poll::Pending,
            )
        }
    }

    pub closed spec fn spec_sleep(&self) -> Sleep {
        self.sleep
    }

    /// An interval that ticks at `start` and then every `period`.
    pub fn new(timers: &mut Timers, start: Instant, period: Duration) -> (i: Interval)
        ensures
            i@.period == period,
            i@.sleep.deadline == start,
            !i@.sleep.registered,
            i@.sleep.timer is None <==> old(timers).exhausted(),
            match i@.sleep.timer {
                Some(id) => {
                    &&& id == old(timers).handed_out()
                    &&& final(timers).handed_out() == old(timers).handed_out() + 1
                    &&& final(timers)@ == TimersView {
                        entries: old(timers)@.entries.push(
                            (id, WaiterView { changed: false, waker: SignalWaker::Unset }),
                        ),
                        ..old(timers)@
                    }
                },
                None => final(timers)@ == old(timers)@ && final(timers).handed_out() == old(
                    timers,
                ).handed_out(),
            },
            old(timers).wf() ==> final(timers).wf(),
    {
        Interval { sleep: Sleep::new(timers, start), period }
    }

    /// The deadline of the next tick.
    pub fn deadline(&self) -> (d: Instant)
        ensures
            d == self@.sleep.deadline,
    {
        self.sleep.deadline()
    }

    /// The time between two ticks.
    pub fn period(&self) -> (p: Duration)
        ensures
            p == self@.period,
    {
        self.period
    }

    /// Polls for the next tick and reports the deadline it was due at.
    pub fn poll_tick(&mut self, timers: &mut Timers, cx: &Context) -> (r: Poll<Instant>)
        ensures
            Self::ticked(*old(self), *old(timers), *cx, *final(self), *final(timers), r),
    {
        let deadline = self.sleep.deadline();
        match self.sleep.poll(timers, cx) {
            Poll::Pending => Poll::Pending,
            Poll::Ready(_) => {
                // The next deadline follows from the one before, not from the
                // time at which the tick is seen.
                let new_deadline = deadline.saturating_add(self.period);
                proof {
                    let id = self@.sleep.timer->0;
                    let e = old(timers)@.entries;
                    crate::signal::waiter::lemma_slot_of(e, id);
                    let e1 = timers@.entries;
                    crate::signal::waiter::lemma_slot_of_first(e1, id, slot_of(e, id));
                    assert(entry_set(e1, id, false, entry_waker(e1, id)) =~= e1);
                }
                self.sleep.reset(timers, new_deadline);
                Poll::Ready(deadline)
            },
        }
    }

    /// Drops the interval: its timer stops being pending and its entry
    /// leaves the registry.
    pub fn close(self, timers: &mut Timers)
        ensures
            final(timers)@ == match self@.sleep.timer {
                Some(id) => TimersView {
                    heap: removed(old(timers)@.heap, (self@.sleep.deadline, id)),
                    entries: if registered(old(timers)@.entries, id) {
                        old(timers)@.entries.remove(slot_of(old(timers)@.entries, id))
                    } else {
                        old(timers)@.entries
                    },
                    ..old(timers)@
                },
                None => old(timers)@,
            },
            old(timers).wf() ==> final(timers).wf(),
            final(timers).handed_out() == old(timers).handed_out(),
    {
        self.sleep.close(timers);
    }
}

impl Stream<Timers> for Interval {
    type Item = Instant;

    /// An interval never ends: each poll is a poll for the next tick.
    open spec fn polled_next(
        pre: Self,
        pre_src: Timers,
        cx: Context,
        post: Self,
        post_src: Timers,
        r: Poll<Option<Instant>>,
    ) -> bool {
        match r {
            Poll::Ready(Some(d)) => Interval::ticked(pre, pre_src, cx, post, post_src, Poll::Ready(d)),
            Poll::Ready(None) => false,
            Poll::Pending => Interval::ticked(pre, pre_src, cx, post, post_src, Poll::Pending),
        }
    }

    fn poll_next(&mut self, src: &mut Timers, cx: &Context) -> (r: Poll<Option<Instant>>) {
        match self.poll_tick(src, cx) {
            Poll::Ready(d) => Poll::Ready(Some(d)),
            Poll::Pending => Poll::Pending,
        }
    }
}

/// Interval phase stability: an interval with period `period` whose next
/// deadline is `start + k * period` reports exactly that deadline with its
/// next tick, and then waits for `start + (k + 1) * period`, whatever the
/// registry holds and however late the tick was seen. Until it ticks, its
/// deadline stays.
pub proof fn lemma_interval_phase_stable(
    start: Instant,
    k: nat,
    pre: Interval,
    pre_src: Timers,
    cx: Context,
    post: Interval,
    post_src: Timers,
    r: Poll<Instant>,
)
    requires
        pre@.sleep.deadline == start + k * pre@.period,
        start + (k + 1) * pre@.period <= u64::MAX,
        Interval::ticked(pre, pre_src, cx, post, post_src, r),
    ensures
        post@.period == pre@.period,
        match r {
            Poll::Ready(d) => d == start + k * pre@.period && post@.sleep.deadline == start + (k
                + 1) * pre@.period,
            Poll::Pending => post@.sleep.deadline == start + k * pre@.period,
        },
{
    assert((k + 1) * pre@.period == k * pre@.period + pre@.period) by (nonlinear_arith);
}

} // verus!
