//! A registry of timers ordered by deadline, and the sleep future over it.
//!
//! Time is a count of ticks of a monotonic clock. The registry never reads a
//! clock: whoever drives it says what time it is.

use vstd::prelude::*;

use crate::poll::{Context, Future, Poll, Waker};
use crate::seqs::{first_where, lemma_first_where, lemma_first_where_is};
use crate::signal::waiter::{
    queue_tokens, registered, slot_of, woken_queue, SignalWaker, Slot, WaitList, Waiter,
    WaiterView,
};

verus! {

/// A point in time, in ticks of a monotonic clock.
pub type Instant = u64;

/// A span of time, in ticks.
pub type Duration = u64;

/// A pending timer as the registry orders it: its deadline, then its number.
pub type Deadline = (Instant, u64);

/// The order of the registry: by deadline, and by number among equal
/// deadlines.
pub open spec fn before(a: Deadline, b: Deadline) -> bool {
    a.0 < b.0 || (a.0 == b.0 && a.1 < b.1)
}

/// The pending timers stand in the order of the registry, none twice.
pub open spec fn sorted(heap: Seq<Deadline>) -> bool {
    forall|i: int, j: int| 0 <= i < j < heap.len() ==> before(heap[i], heap[j])
}

/// The number of pending timers in front of the place of `e`.
pub open spec fn rank(heap: Seq<Deadline>, e: Deadline) -> int {
    first_where(heap, |x: Deadline| !before(x, e))
}

/// The pending timers after `e` was registered: `e` stands at its place,
/// once.
pub open spec fn inserted(heap: Seq<Deadline>, e: Deadline) -> Seq<Deadline> {
    let p = rank(heap, e);
    if p < heap.len() && heap[p] == e {
        heap
    } else {
        heap.insert(p, e)
    }
}

/// The index of `e` among the pending timers, or their number where it is
/// not among them.
pub open spec fn place(heap: Seq<Deadline>, e: Deadline) -> int {
    first_where(heap, |x: Deadline| x.0 == e.0 && x.1 == e.1)
}

/// The pending timers without `e`.
pub open spec fn removed(heap: Seq<Deadline>, e: Deadline) -> Seq<Deadline> {
    let p = place(heap, e);
    if p < heap.len() {
        heap.remove(p)
    } else {
        heap
    }
}

/// The number of timers at the front whose deadline is not after `time`.
pub open spec fn due(heap: Seq<Deadline>, time: Instant) -> int {
    first_where(heap, |x: Deadline| x.0 > time)
}

/// The numbers of the timers in `heap`, in its order.
pub open spec fn numbers(heap: Seq<Deadline>) -> Seq<u64> {
    heap.map_values(|x: Deadline| x.1)
}

proof fn lemma_rank_is(heap: Seq<Deadline>, e: Deadline, i: int)
    requires
        0 <= i <= heap.len(),
        i < heap.len() ==> !before(heap[i], e),
        forall|j: int| 0 <= j < i ==> before(heap[j], e),
    ensures
        rank(heap, e) == i,
{
    lemma_first_where_is(heap, |x: Deadline| !before(x, e), i);
}

proof fn lemma_place_is(heap: Seq<Deadline>, e: Deadline, i: int)
    requires
        0 <= i <= heap.len(),
        i < heap.len() ==> heap[i] == e,
        forall|j: int| 0 <= j < i ==> heap[j] != e,
    ensures
        place(heap, e) == i,
{
    lemma_first_where_is(heap, |x: Deadline| x.0 == e.0 && x.1 == e.1, i);
}

proof fn lemma_due_is(heap: Seq<Deadline>, time: Instant, i: int)
    requires
        0 <= i <= heap.len(),
        i < heap.len() ==> heap[i].0 > time,
        forall|j: int| 0 <= j < i ==> heap[j].0 <= time,
    ensures
        due(heap, time) == i,
{
    lemma_first_where_is(heap, |x: Deadline| x.0 > time, i);
}

#[derive(Clone, Copy)]
struct Entry {
    deadline: Instant,
    timer: u64,
}

/// The registry of timers: the pending timers in the order of their
/// deadlines, one entry for each sleep, and whether a timer was registered
/// since the last tick.
pub struct Timers {
    heap: Vec<Entry>,
    entries: WaitList,
    notified: bool,
}

/// What a [`Timers`] holds. An entry's changed flag says that its timer has
/// fired and the sleep has not seen it yet.
pub ghost struct TimersView {
    pub heap: Seq<Deadline>,
    pub entries: Seq<Slot>,
    pub notified: bool,
}

impl TimersView {
    /// The registry after a tick at `time`: the due timers have left, their
    /// entries are marked as fired, and the registration mark is cleared.
    pub open spec fn ticked(self, time: Instant) -> TimersView {
        let k = due(self.heap, time);
        TimersView {
            heap: self.heap.skip(k),
            entries: woken_queue(self.entries, numbers(self.heap.take(k))),
            notified: false,
        }
    }
}

/// What a tick did.
#[derive(Debug)]
pub struct Fired {
    /// The deadline of the earliest timer that is still pending.
    pub next: Option<Instant>,
    /// The numbers of the timers that fired, in the order in which they did.
    pub timers: Vec<u64>,
    /// The tokens to deliver, in the order in which the timers fired.
    pub woken: Vec<Waker>,
}

impl View for Timers {
    type V = TimersView;

    closed spec fn view(&self) -> TimersView {
        TimersView {
            heap: Seq::new(
                self.heap.len() as nat,
                |i: int| (self.heap[i].deadline, self.heap[i].timer),
            ),
            entries: self.entries@,
            notified: self.notified,
        }
    }
}

impl Timers {
    /// What every operation keeps: the pending timers are in order and the
    /// registry of entries is well formed.
    pub closed spec fn wf(&self) -> bool {
        &&& sorted(self@.heap)
        &&& self.entries.wf()
    }

    /// Whether the registry can make no further entry.
    pub open spec fn exhausted(&self) -> bool {
        self.handed_out() == u64::MAX
    }

    /// The number of numbers that have been handed out to waiters. The next
    /// one gets this number.
    pub closed spec fn handed_out(&self) -> nat {
        self.entries.handed_out()
    }

    /// In a well-formed registry the pending timers are in order.
    pub proof fn lemma_wf_sorted(&self)
        requires
            self.wf(),
        ensures
            sorted(self@.heap),
    {
    }

    /// A registry without timers.
    pub fn new() -> (t: Timers)
        ensures
            t@ == (TimersView { heap: Seq::empty(), entries: Seq::empty(), notified: false }),
            t.wf(),
            t.handed_out() == 0,
    {
        let t = Timers { heap: Vec::new(), entries: WaitList::new(), notified: false };
        assert(t@.heap =~= Seq::empty());
        t
    }

    /// The number of pending timers.
    pub fn pending(&self) -> (n: usize)
        ensures
            n == self@.heap.len(),
    {
        self.heap.len()
    }

    /// Whether a timer was registered since the last tick: whoever drives the
    /// registry then has to tick again to learn the next deadline.
    pub fn notified(&self) -> (r: bool)
        ensures
            r == self@.notified,
    {
        self.notified
    }

    /// Registers the timer numbered `timer` with `deadline`, at its place in
    /// the order, and marks the registration.
    #[verifier::loop_isolation(false)]
    pub fn register(&mut self, deadline: Instant, timer: u64)
        ensures
            final(self)@ == (TimersView {
                heap: inserted(old(self)@.heap, (deadline, timer)),
                notified: true,
                ..old(self)@
            }),
            old(self).wf() ==> final(self).wf(),
            final(self).handed_out() == old(self).handed_out(),
    {
        let ghost h = self@.heap;
        let ghost e = (deadline, timer);
        let mut i: usize = 0;
        while i < self.heap.len() && (self.heap[i].deadline < deadline || (self.heap[i].deadline
            == deadline && self.heap[i].timer < timer))
            invariant
                i <= self.heap.len(),
                self@ == old(self)@,
                h == self@.heap,
                h.len() == self.heap.len(),
                forall|j: int| 0 <= j < h.len() ==> h[j] == (self.heap[j].deadline, self.heap[j].timer),
                forall|j: int| 0 <= j < i ==> before(h[j], e),
            decreases self.heap.len() - i,
        {
            i += 1;
        }
        proof {
            lemma_rank_is(h, e, i as int);
        }
        self.notified = true;
        if i < self.heap.len() && self.heap[i].deadline == deadline && self.heap[i].timer == timer {
            assert(self@.heap =~= h);
        } else {
            self.heap.insert(i, Entry { deadline, timer });
            proof {
                assert(self@.heap =~= h.insert(i as int, e));
                if old(self).wf() {
                    lemma_inserted_sorted(h, e);
                }
            }
        }
    }

    /// Removes the timer numbered `timer` with `deadline` from the pending
    /// ones, if it is among them.
    #[verifier::loop_isolation(false)]
    pub fn remove(&mut self, deadline: Instant, timer: u64) -> (r: bool)
        ensures
            r == (place(old(self)@.heap, (deadline, timer)) < old(self)@.heap.len()),
            final(self)@ == (TimersView {
                heap: removed(old(self)@.heap, (deadline, timer)),
                ..old(self)@
            }),
            old(self).wf() ==> final(self).wf(),
            final(self).handed_out() == old(self).handed_out(),
    {
        let ghost h = self@.heap;
        let ghost e = (deadline, timer);
        let mut i: usize = 0;
        while i < self.heap.len() && !(self.heap[i].deadline == deadline && self.heap[i].timer
            == timer)
            invariant
                i <= self.heap.len(),
                self@ == old(self)@,
                h == self@.heap,
                h.len() == self.heap.len(),
                forall|j: int| 0 <= j < h.len() ==> h[j] == (self.heap[j].deadline, self.heap[j].timer),
                forall|j: int| 0 <= j < i ==> h[j] != e,
            decreases self.heap.len() - i,
        {
            i += 1;
        }
        proof {
            lemma_place_is(h, e, i as int);
        }
        if i < self.heap.len() {
            self.heap.remove(i);
            assert(self@.heap =~= h.remove(i as int));
            true
        } else {
            assert(self@.heap =~= h);
            false
        }
    }

    /// Advances the registry to `time`: fires every pending timer whose
    /// deadline is not after `time`, earliest first, and says which deadline
    /// comes next.
    #[verifier::loop_isolation(false)]
    pub fn tick(&mut self, time: Instant) -> (fired: Fired)
        ensures
            final(self)@ == old(self)@.ticked(time),
            fired.timers@ == numbers(old(self)@.heap.take(due(old(self)@.heap, time))),
            fired.woken@ == queue_tokens(old(self)@.entries, fired.timers@),
            fired.next == if due(old(self)@.heap, time) < old(self)@.heap.len() {
                Some(old(self)@.heap[due(old(self)@.heap, time)].0)
            } else {
                None::<Instant>
            },
            old(self).wf() ==> final(self).wf(),
            final(self).handed_out() == old(self).handed_out(),
    {
        let ghost h = self@.heap;
        let mut timers: Vec<u64> = Vec::new();
        let mut i: usize = 0;
        while i < self.heap.len() && self.heap[i].deadline <= time
            invariant
                i <= self.heap.len(),
                self@ == old(self)@,
                h == self@.heap,
                h.len() == self.heap.len(),
                forall|j: int| 0 <= j < h.len() ==> h[j] == (self.heap[j].deadline, self.heap[j].timer),
                forall|j: int| 0 <= j < i ==> h[j].0 <= time,
                timers@ == numbers(h.take(i as int)),
            decreases self.heap.len() - i,
        {
            timers.push(self.heap[i].timer);
            proof {
                assert(numbers(h.take(i + 1)) =~= numbers(h.take(i as int)).push(h[i as int].1));
            }
            i += 1;
        }
        proof {
            lemma_due_is(h, time, i as int);
        }
        let next = if i < self.heap.len() {
            Some(self.heap[i].deadline)
        } else {
            None
        };
        let rest = self.heap.split_off(i);
        self.heap = rest;
        self.notified = false;
        let woken = self.entries.wake_each(&timers);
        proof {
            assert(self@.heap =~= h.skip(i as int));
        }
        Fired { next, timers, woken }
    }
}

/// A future that resolves once its deadline has passed.
///
/// The sleep has an entry in the registry from the start. Its timer becomes
/// pending with the first poll, and again with the first poll after a reset.
#[derive(Debug)]
pub struct Sleep {
    timer: Option<u64>,
    deadline: Instant,
    registered: bool,
}

/// What a [`Sleep`] holds: the number of its entry (`None` where the registry
/// could make none), its deadline, and whether its timer has been registered
/// since the sleep was made or reset.
pub ghost struct SleepView {
    pub timer: Option<u64>,
    pub deadline: Instant,
    pub registered: bool,
}

impl View for Sleep {
    type V = SleepView;

    closed spec fn view(&self) -> SleepView {
        SleepView { timer: self.timer, deadline: self.deadline, registered: self.registered }
    }
}

/// The entries after the one numbered `id` was given the flag `changed` and
/// the waker `waker`.
pub open spec fn entry_set(entries: Seq<Slot>, id: u64, changed: bool, waker: SignalWaker) -> Seq<
    Slot,
> {
    if registered(entries, id) {
        entries.update(slot_of(entries, id), (id, WaiterView { changed, waker }))
    } else {
        entries
    }
}

/// The waker stored in the entry numbered `id`.
pub open spec fn entry_waker(entries: Seq<Slot>, id: u64) -> SignalWaker {
    entries[slot_of(entries, id)].1.waker
}

/// Whether the timer of the entry numbered `id` has fired without the sleep
/// having seen it.
pub open spec fn entry_fired(entries: Seq<Slot>, id: u64) -> bool {
    registered(entries, id) && entries[slot_of(entries, id)].1.changed
}

impl Sleep {
    /// A sleep until `deadline`, with a fresh entry in `timers`.
    pub fn new(timers: &mut Timers, deadline: Instant) -> (s: Sleep)
        ensures
            s@.deadline == deadline,
            !s@.registered,
            match s@.timer {
                Some(id) => {
                    &&& id == old(timers).handed_out()
                    &&& final(timers).handed_out() == old(timers).handed_out() + 1
                    &&& final(timers)@ == TimersView {
                        entries: old(timers)@.entries.push(
                            (id, WaiterView { changed: false, waker: SignalWaker::Unset }),
                        ),
                        ..old(timers)@
                    }
                },
                None => final(timers)@ == old(timers)@ && final(timers).handed_out() == old(
                    timers,
                ).handed_out(),
            },
            s@.timer is None <==> old(timers).exhausted(),
            old(timers).wf() ==> final(timers).wf(),
            old(timers).wf() && s@.timer is Some ==> !registered(
                old(timers)@.entries,
                s@.timer->0,
            ),
    {
        let timer = timers.entries.push(Waiter::new(false));
        Sleep { timer, deadline, registered: false }
    }

    /// When the sleep resolves.
    pub fn deadline(&self) -> (d: Instant)
        ensures
            d == self@.deadline,
    {
        self.deadline
    }

    /// Sets a new deadline. The timer stops being pending and its entry
    /// forgets that it fired; the next poll registers the timer again.
    pub fn reset(&mut self, timers: &mut Timers, deadline: Instant)
        ensures
            Sleep::reset_to(*old(self), *old(timers), deadline, *final(self), *final(timers)),
    {
        match self.timer {
            Some(id) => {
                timers.remove(self.deadline, id);
                timers.entries.take_changed(id);
            },
            None => {},
        }
        self.registered = false;
        self.deadline = deadline;
    }

    /// What [`Sleep::reset`] does to a sleep and its registry.
    pub open spec fn reset_to(
        pre: Sleep,
        pre_src: Timers,
        deadline: Instant,
        post: Sleep,
        post_src: Timers,
    ) -> bool {
        &&& post@ == SleepView { timer: pre@.timer, deadline, registered: false }
        &&& post_src@ == match pre@.timer {
            Some(id) => TimersView {
                heap: removed(pre_src@.heap, (pre@.deadline, id)),
                entries: entry_set(pre_src@.entries, id, false, entry_waker(pre_src@.entries, id)),
                ..pre_src@
            },
            None => pre_src@,
        }
        &&& pre_src.wf() ==> post_src.wf()
        &&& post_src.handed_out() == pre_src.handed_out()
    }

    /// Drops the sleep: its timer stops being pending and its entry leaves
    /// the registry, so a dropped sleep never fires.
    pub fn close(self, timers: &mut Timers)
        ensures
            final(timers)@ == match self@.timer {
                Some(id) => TimersView {
                    heap: removed(old(timers)@.heap, (self@.deadline, id)),
                    entries: if registered(old(timers)@.entries, id) {
                        old(timers)@.entries.remove(slot_of(old(timers)@.entries, id))
                    } else {
                        old(timers)@.entries
                    },
                    ..old(timers)@
                },
                None => old(timers)@,
            },
            old(timers).wf() ==> final(timers).wf(),
            final(timers).handed_out() == old(timers).handed_out(),
    {
        match self.timer {
            Some(id) => {
                timers.remove(self.deadline, id);
                timers.entries.remove(id);
            },
            None => {},
        }
    }
}

impl Future<Timers> for Sleep {
    type Output = ();

    /// A sleep whose timer has fired resolves, once for each firing. Else
    /// the context's waker is stored in the entry, and a timer that is not
    /// registered yet becomes pending. A sleep without an entry in the
    /// registry never resolves.
    open spec fn polled(
        pre: Self,
        pre_src: Timers,
        cx: Context,
        post: Self,
        post_src: Timers,
        r: Poll<()>,
    ) -> bool {
        let t = pre_src@;
        &&& pre_src.wf() ==> post_src.wf()
        &&& post_src.handed_out() == pre_src.handed_out()
        &&& match pre@.timer {
            Some(id) => if !registered(t.entries, id) {
                post@ == pre@ && post_src@ == t && r == Poll::<()>::Pending
            } else if entry_fired(t.entries, id) {
                &&& post@ == pre@
                &&& post_src@ == TimersView {
                    entries: entry_set(t.entries, id, false, entry_waker(t.entries, id)),
                    ..t
                }
                &&& r == Poll::Ready(())
            } else if !pre@.registered {
                &&& post@ == SleepView { registered: true, ..pre@ }
                &&& post_src@ == TimersView {
                    heap: inserted(t.heap, (pre@.deadline, id)),
                    entries: entry_set(t.entries, id, false, SignalWaker::from_cx_spec(cx)),
                    notified: true,
                }
                &&& r == Poll::<()>::Pending
            } else {
                &&& post@ == pre@
                &&& post_src@ == TimersView {
                    entries: entry_set(t.entries, id, false, SignalWaker::from_cx_spec(cx)),
                    ..t
                }
                &&& r == Poll::<()>::Pending
            },
            None => post@ == pre@ && post_src@ == t && r == Poll::<()>::Pending,
        }
    }

    fn poll(&mut self, src: &mut Timers, cx: &Context) -> (r: Poll<()>) {
        let id = match self.timer {
            Some(id) => id,
            None => {
                return Poll::Pending;
            },
        };
        match src.entries.take_changed(id) {
            None => Poll::Pending,
            Some(true) => Poll::Ready(()),
            Some(false) => {
                src.entries.set_waker(id, SignalWaker::from_cx(cx));
                proof {
                    let s0 = old(src)@.entries;
                    let k = slot_of(s0, id);
                    crate::signal::waiter::lemma_slot_of(s0, id);
                    assert(s0.update(k, (id, WaiterView { changed: false, waker: s0[k].1.waker }))
                        =~= s0);
                }
                if !self.registered {
                    src.register(self.deadline, id);
                    self.registered = true;
                }
                Poll::Pending
            },
        }
    }
}

/// A sleep until `deadline`.
pub fn sleep_until(timers: &mut Timers, deadline: Instant) -> (s: Sleep)
    ensures
        s@.deadline == deadline,
        !s@.registered,
        match s@.timer {
            Some(id) => {
                &&& id == old(timers).handed_out()
                &&& final(timers).handed_out() == old(timers).handed_out() + 1
                &&& final(timers)@ == TimersView {
                    entries: old(timers)@.entries.push(
                        (id, WaiterView { changed: false, waker: SignalWaker::Unset }),
                    ),
                    ..old(timers)@
                }
            },
            None => final(timers)@ == old(timers)@ && final(timers).handed_out() == old(
                timers,
            ).handed_out(),
        },
        s@.timer is None <==> old(timers).exhausted(),
        old(timers).wf() ==> final(timers).wf(),
{
    Sleep::new(timers, deadline)
}

/// The point in time that lies `duration` after `now`, or the last one that
/// the clock can show.
pub open spec fn after(now: Instant, duration: Duration) -> Instant {
    if now + duration <= u64::MAX {
        (now + duration) as u64
    } else {
        u64::MAX
    }
}

/// A sleep that resolves `duration` after `now`.
pub fn sleep(timers: &mut Timers, now: Instant, duration: Duration) -> (s: Sleep)
    ensures
        s@.deadline == after(now, duration),
        !s@.registered,
        match s@.timer {
            Some(id) => {
                &&& id == old(timers).handed_out()
                &&& final(timers).handed_out() == old(timers).handed_out() + 1
                &&& final(timers)@ == TimersView {
                    entries: old(timers)@.entries.push(
                        (id, WaiterView { changed: false, waker: SignalWaker::Unset }),
                    ),
                    ..old(timers)@
                }
            },
            None => final(timers)@ == old(timers)@ && final(timers).handed_out() == old(
                timers,
            ).handed_out(),
        },
        s@.timer is None <==> old(timers).exhausted(),
        old(timers).wf() ==> final(timers).wf(),
{
    Sleep::new(timers, now.saturating_add(duration))
}

/// Registering keeps the pending timers in order.
pub proof fn lemma_inserted_sorted(heap: Seq<Deadline>, e: Deadline)
    requires
        sorted(heap),
    ensures
        sorted(inserted(heap, e)),
        inserted(heap, e).contains(e),
        forall|x: Deadline| heap.contains(x) ==> inserted(heap, e).contains(x),
{
    let p = rank(heap, e);
    lemma_first_where(heap, |x: Deadline| !before(x, e));
    let r = inserted(heap, e);
    if p < heap.len() && heap[p] == e {
    } else {
        assert(r[p] == e);
        assert forall|i: int, j: int| 0 <= i < j < r.len() implies before(r[i], r[j]) by {
            if j == p {
                assert(r[i] == heap[i]);
            } else if i == p {
                assert(r[j] == heap[j - 1]);
                assert(!before(heap[p], e));
                if j - 1 > p {
                    assert(before(heap[p], heap[j - 1]));
                }
            } else {
                let a = if i < p { i } else { i - 1 };
                let b = if j < p { j } else { j - 1 };
                assert(r[i] == heap[a] && r[j] == heap[b]);
            }
        }
        assert forall|x: Deadline| heap.contains(x) implies r.contains(x) by {
            let i = choose|i: int| 0 <= i < heap.len() && heap[i] == x;
            if i < p {
                assert(r[i] == x);
            } else {
                assert(r[i + 1] == x);
            }
        }
    }
}

/// Timer monotonic firing: among timers in the order of the registry, a tick
/// fires exactly those whose deadline is not after the time of the tick, the
/// earlier deadline first, and the deadline it reports as next is the earliest
/// that is left.
pub proof fn lemma_tick_fires_in_deadline_order(timers: Timers, time: Instant)
    requires
        timers.wf(),
    ensures
        ({
            let heap = timers@.heap;
            &&& 0 <= due(heap, time) <= heap.len()
            &&& forall|i: int| 0 <= i < due(heap, time) ==> heap[i].0 <= time
            &&& forall|i: int| due(heap, time) <= i < heap.len() ==> heap[i].0 > time
            &&& forall|i: int, j: int| 0 <= i <= j < heap.len() ==> heap[i].0 <= heap[j].0
        }),
{
    timers.lemma_wf_sorted();
    lemma_due_splits(timers@.heap, time);
}

/// Among pending timers in order, those that are due at `time` stand in
/// front of the others, and the deadlines grow along all of them.
pub proof fn lemma_due_splits(heap: Seq<Deadline>, time: Instant)
    requires
        sorted(heap),
    ensures
        0 <= due(heap, time) <= heap.len(),
        forall|i: int| 0 <= i < due(heap, time) ==> heap[i].0 <= time,
        forall|i: int| due(heap, time) <= i < heap.len() ==> heap[i].0 > time,
        forall|i: int, j: int| 0 <= i <= j < heap.len() ==> heap[i].0 <= heap[j].0,
{
    lemma_first_where(heap, |x: Deadline| x.0 > time);
    let k = due(heap, time);
    assert forall|i: int| k <= i < heap.len() implies heap[i].0 > time by {
        if i > k {
            assert(before(heap[k], heap[i]));
        }
    }
    assert forall|i: int, j: int| 0 <= i <= j < heap.len() implies heap[i].0 <= heap[j].0 by {
        if i < j {
            assert(before(heap[i], heap[j]));
        }
    }
}

/// Three timers with deadlines `d1 < d2 < d3` stand in the order of their
/// deadlines in whichever order they were registered. A tick at or after `d3`
/// fires all three and reports no next deadline; a tick from `d1` on and
/// before `d2` fires the first alone and reports `d2`.
pub proof fn lemma_three_timers_out_of_order(x: Deadline, y: Deadline, z: Deadline, time: Instant)
    requires
        x.0 < y.0 < z.0,
    ensures
        inserted(inserted(inserted(Seq::empty(), x), y), z) == seq![x, y, z],
        inserted(inserted(inserted(Seq::empty(), x), z), y) == seq![x, y, z],
        inserted(inserted(inserted(Seq::empty(), y), x), z) == seq![x, y, z],
        inserted(inserted(inserted(Seq::empty(), y), z), x) == seq![x, y, z],
        inserted(inserted(inserted(Seq::empty(), z), x), y) == seq![x, y, z],
        inserted(inserted(inserted(Seq::empty(), z), y), x) == seq![x, y, z],
        time >= z.0 ==> due(seq![x, y, z], time) == 3,
        x.0 <= time < y.0 ==> due(seq![x, y, z], time) == 1,
{
    let e = Seq::<Deadline>::empty();
    lemma_rank_is(e, x, 0);
    lemma_rank_is(e, y, 0);
    lemma_rank_is(e, z, 0);
    assert(inserted(e, x) =~= seq![x]);
    assert(inserted(e, y) =~= seq![y]);
    assert(inserted(e, z) =~= seq![z]);
    lemma_rank_is(seq![x], y, 1);
    lemma_rank_is(seq![x], z, 1);
    lemma_rank_is(seq![y], x, 0);
    lemma_rank_is(seq![y], z, 1);
    lemma_rank_is(seq![z], x, 0);
    lemma_rank_is(seq![z], y, 0);
    assert(inserted(seq![x], y) =~= seq![x, y]);
    assert(inserted(seq![x], z) =~= seq![x, z]);
    assert(inserted(seq![y], x) =~= seq![x, y]);
    assert(inserted(seq![y], z) =~= seq![y, z]);
    assert(inserted(seq![z], x) =~= seq![x, z]);
    assert(inserted(seq![z], y) =~= seq![y, z]);
    lemma_rank_is(seq![x, y], z, 2);
    lemma_rank_is(seq![x, z], y, 1);
    lemma_rank_is(seq![y, z], x, 0);
    assert(inserted(seq![x, y], z) =~= seq![x, y, z]);
    assert(inserted(seq![x, z], y) =~= seq![x, y, z]);
    assert(inserted(seq![y, z], x) =~= seq![x, y, z]);
    if time >= z.0 {
        lemma_due_is(seq![x, y, z], time, 3);
    }
    if x.0 <= time < y.0 {
        lemma_due_is(seq![x, y, z], time, 1);
    }
}

} // verus!
