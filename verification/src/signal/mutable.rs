use vstd::prelude::*;

use core::marker::PhantomData;

use crate::poll::{Context, Poll, Waker};
use crate::signal::waiter::{
    registered, slot_of, tokens, woken_all, SignalWaker, Slot, WaitList, Waiter, WaiterView,
};
use crate::signal::{Cloned, Signal};

verus! {

/// A reactive cell: a value, the number of handles that may write it, and the
/// waiters of the signals that observe it.
///
/// The cell is closed once the last handle is dropped. Its signals then yield
/// the end of the stream.
pub struct Mutable<T> {
    value: T,
    mutable_count: usize,
    waiters: WaitList,
}

/// What a [`Mutable`] holds.
pub ghost struct MutableView<T> {
    pub value: T,
    pub handles: nat,
    pub waiters: Seq<Slot>,
}

impl<T> MutableView<T> {
    /// Whether every handle has been dropped.
    pub open spec fn closed(self) -> bool {
        self.handles == 0
    }

    /// The cell after `value` was written.
    pub open spec fn written(self, value: T) -> MutableView<T> {
        MutableView { value, handles: self.handles, waiters: woken_all(self.waiters) }
    }

    /// The cell after a signal was taken whose waiter got the number `id`.
    pub open spec fn observed(self, id: u64) -> MutableView<T> {
        MutableView {
            value: self.value,
            handles: self.handles,
            waiters: self.waiters.push(
                (id, WaiterView { changed: true, waker: SignalWaker::Unset }),
            ),
        }
    }

    /// The cell after one handle was dropped.
    pub open spec fn released(self) -> MutableView<T> {
        if self.handles == 0 {
            self
        } else if self.handles == 1 {
            MutableView { value: self.value, handles: 0, waiters: woken_all(self.waiters) }
        } else {
            MutableView {
                value: self.value,
                handles: (self.handles - 1) as nat,
                waiters: self.waiters,
            }
        }
    }
}

/// The cell after the values of `writes` were written one after the other.
pub open spec fn written_all<T>(cell: MutableView<T>, writes: Seq<T>) -> MutableView<T>
    decreases writes.len(),
{
    if writes.len() == 0 {
        cell
    } else {
        written_all(cell, writes.drop_last()).written(writes.last())
    }
}

impl<T> View for Mutable<T> {
    type V = MutableView<T>;

    closed spec fn view(&self) -> MutableView<T> {
        MutableView {
            value: self.value,
            handles: self.mutable_count as nat,
            waiters: self.waiters@,
        }
    }
}

impl<T> Mutable<T> {
    /// What every operation keeps: the registry of waiters is well formed.
    pub closed spec fn wf(&self) -> bool {
        self.waiters.wf()
    }

    /// Whether the cell can register no further signal.
    pub open spec fn exhausted(&self) -> bool {
        self.handed_out() == u64::MAX
    }

    /// The number of numbers that have been handed out to waiters. The next
    /// one gets this number.
    pub closed spec fn handed_out(&self) -> nat {
        self.waiters.handed_out()
    }

    /// In a well-formed cell every registered waiter has a number that was
    /// handed out.
    pub proof fn lemma_counted(&self)
        requires
            self.wf(),
        ensures
            counted((self@, self.handed_out())),
    {
        self.waiters.lemma_handed_out_fits();
        assert forall|id: u64| registered(self@.waiters, id) implies id < self.handed_out() by {
            self.waiters.lemma_registered_was_handed_out(id);
        }
    }

    /// A cell that holds `value`, with one handle and no signal.
    pub fn new(value: T) -> (cell: Mutable<T>)
        ensures
            cell@ == (MutableView { value, handles: 1, waiters: Seq::<Slot>::empty() }),
            cell.wf(),
            cell.handed_out() == 0,
    {
        Mutable { value, mutable_count: 1, waiters: WaitList::new() }
    }

    /// The value the cell holds.
    pub fn read(&self) -> (v: &T)
        ensures
            *v == self@.value,
    {
        &self.value
    }

    /// Whether every handle has been dropped.
    pub fn is_closed(&self) -> (r: bool)
        ensures
            r == self@.closed(),
    {
        self.mutable_count == 0
    }

    /// Replaces the value and wakes every registered waiter. Returns the
    /// tokens to deliver, in the order of registration.
    pub fn write(&mut self, value: T) -> (woken: Vec<Waker>)
        ensures
            final(self)@ == old(self)@.written(value),
            woken@ == tokens(old(self)@.waiters),
            old(self).wf() ==> final(self).wf(),
            final(self).handed_out() == old(self).handed_out(),
    {
        self.value = value;
        self.waiters.wake_all()
    }

    /// Counts one more handle; false, with the cell unchanged, where the cell
    /// is closed or the count cannot grow.
    pub fn clone_handle(&mut self) -> (r: bool)
        ensures
            r == (0 < old(self)@.handles < usize::MAX),
            final(self)@ == if r {
                MutableView { handles: old(self)@.handles + 1, ..old(self)@ }
            } else {
                old(self)@
            },
            old(self).wf() ==> final(self).wf(),
            final(self).handed_out() == old(self).handed_out(),
    {
        if 0 < self.mutable_count && self.mutable_count < usize::MAX {
            self.mutable_count = self.mutable_count + 1;
            true
        } else {
            false
        }
    }

    /// Drops one handle. With the last one the cell closes and every
    /// registered waiter is woken one final time; the tokens to deliver are
    /// returned.
    pub fn drop_handle(&mut self) -> (woken: Vec<Waker>)
        ensures
            final(self)@ == old(self)@.released(),
            woken@ == if old(self)@.handles == 1 {
                tokens(old(self)@.waiters)
            } else {
                Seq::<Waker>::empty()
            },
            old(self).wf() ==> final(self).wf(),
            final(self).handed_out() == old(self).handed_out(),
    {
        if self.mutable_count == 0 {
            Vec::new()
        } else {
            self.mutable_count = self.mutable_count - 1;
            if self.mutable_count == 0 {
                self.waiters.wake_all()
            } else {
                Vec::new()
            }
        }
    }

    /// A signal of the cell's value. Its waiter starts out changed, so its
    /// first poll yields the current value.
    pub fn signal(&mut self) -> (s: MutableSignal<T>)
        ensures
            match s.spec_waiter() {
                Some(id) => {
                    &&& id == old(self).handed_out()
                    &&& final(self).handed_out() == old(self).handed_out() + 1
                    &&& final(self)@ == old(self)@.observed(id)
                },
                None => final(self)@ == old(self)@ && final(self).handed_out() == old(
                    self,
                ).handed_out(),
            },
            s.spec_waiter() is None <==> old(self).exhausted(),
            old(self).wf() ==> final(self).wf(),
            old(self).wf() && s.spec_waiter() is Some ==> !registered(
                old(self)@.waiters,
                s.spec_waiter()->0,
            ),
    {
        let waiter = self.waiters.push(Waiter::new(true));
        MutableSignal { waiter, marker: PhantomData }
    }

    /// A signal of the cell's value that yields borrows. Its waiter starts
    /// out changed, so its first poll yields the current value.
    pub fn signal_ref(&mut self) -> (s: MutableSignalRef<T>)
        ensures
            match s.spec_waiter() {
                Some(id) => {
                    &&& id == old(self).handed_out()
                    &&& final(self).handed_out() == old(self).handed_out() + 1
                    &&& final(self)@ == old(self)@.observed(id)
                },
                None => final(self)@ == old(self)@ && final(self).handed_out() == old(
                    self,
                ).handed_out(),
            },
            s.spec_waiter() is None <==> old(self).exhausted(),
            old(self).wf() ==> final(self).wf(),
            old(self).wf() && s.spec_waiter() is Some ==> !registered(
                old(self)@.waiters,
                s.spec_waiter()->0,
            ),
    {
        let waker = self.waiters.push(Waiter::new(true));
        MutableSignalRef { waker, marker: PhantomData }
    }
}

/// A borrow of a cell's value, valid while the cell is not touched.
pub struct MutableReadGuard<'a, T> {
    value: &'a T,
}

impl<'a, T> MutableReadGuard<'a, T> {
    /// The value that the guard borrows.
    pub closed spec fn spec_get(&self) -> T {
        *self.value
    }

    /// The borrowed value.
    pub fn get(&self) -> (v: &'a T)
        ensures
            *v == self.spec_get(),
    {
        self.value
    }
}

/// A signal that yields a borrow of the cell's value at each change, and so
/// spares the clone.
#[derive(Debug)]
pub struct MutableSignalRef<T> {
    waker: Option<u64>,
    marker: PhantomData<T>,
}

impl<T> MutableSignalRef<T> {
    /// The number of the signal's waiter in the cell's registry; `None` for a
    /// signal that could not be registered.
    pub closed spec fn spec_waiter(&self) -> Option<u64> {
        self.waker
    }

    /// Polls for the next change, as a [`MutableSignal`] does, and yields a
    /// borrow of the value in place of a clone.
    pub fn poll_changed<'a>(&mut self, src: &'a mut Mutable<T>, cx: &Context) -> (r: Poll<
        Option<MutableReadGuard<'a, T>>,
    >)
        ensures
            *final(self) == *old(self),
            final(src)@ == MutableSignal::<T>::poll_cell(old(self).spec_waiter(), old(src)@, *cx),
            old(src).wf() ==> final(src).wf(),
            final(src).handed_out() == old(src).handed_out(),
            ({
                let w = old(self).spec_waiter();
                if old(src)@.closed() || w is None || !registered(old(src)@.waiters, w->0) {
                    r is Ready && r->Ready_0 is None
                } else if old(src)@.waiters[slot_of(old(src)@.waiters, w->0)].1.changed {
                    r matches Poll::Ready(Some(g)) && g.spec_get() == old(src)@.value
                } else {
                    r is Pending
                }
            }),
    {
        if src.mutable_count == 0 {
            return Poll::Ready(None);
        }
        let id = match self.waker {
            Some(id) => id,
            None => {
                return Poll::Ready(None);
            },
        };
        match src.waiters.take_changed(id) {
            None => Poll::Ready(None),
            Some(true) => Poll::Ready(Some(MutableReadGuard { value: &src.value })),
            Some(false) => {
                src.waiters.set_waker(id, SignalWaker::from_cx(cx));
                proof {
                    let s0 = old(src)@.waiters;
                    let k = slot_of(s0, id);
                    crate::signal::waiter::lemma_slot_of(s0, id);
                    let s1 = s0.update(k, (id, WaiterView { changed: false, waker: s0[k].1.waker }));
                    assert(s1 =~= s0);
                }
                Poll::Pending
            },
        }
    }

    /// The signal of clones of the borrowed values: a signal like any other,
    /// which can be mapped, held and used by effects.
    pub fn cloned(self) -> (c: Cloned<MutableSignalRef<T>>)
        ensures
            c.spec_signal() == self,
    {
        Cloned::new(self)
    }

    /// Ends the signal: its waiter leaves the cell's registry.
    pub fn close(self, cell: &mut Mutable<T>)
        ensures
            final(cell)@ == if self.spec_waiter() is Some && registered(
                old(cell)@.waiters,
                self.spec_waiter()->0,
            ) {
                MutableView {
                    waiters: old(cell)@.waiters.remove(
                        slot_of(old(cell)@.waiters, self.spec_waiter()->0),
                    ),
                    ..old(cell)@
                }
            } else {
                old(cell)@
            },
            old(cell).wf() ==> final(cell).wf(),
            final(cell).handed_out() == old(cell).handed_out(),
    {
        match self.waker {
            Some(id) => {
                cell.waiters.remove(id);
            },
            None => {},
        }
    }
}

impl<T: Clone> Signal<Mutable<T>> for Cloned<MutableSignalRef<T>> {
    type Item = T;

    /// One poll is one poll of the borrowing signal; a value is handed on as
    /// a clone of what was borrowed.
    open spec fn polled(
        pre: Self,
        pre_src: Mutable<T>,
        cx: Context,
        post: Self,
        post_src: Mutable<T>,
        r: Poll<Option<T>>,
    ) -> bool {
        let w = pre.spec_signal().spec_waiter();
        &&& post == pre
        &&& post_src@ == MutableSignal::<T>::poll_cell(w, pre_src@, cx)
        &&& pre_src.wf() ==> post_src.wf()
        &&& post_src.handed_out() == pre_src.handed_out()
        &&& if pre_src@.closed() || w is None || !registered(pre_src@.waiters, w->0) {
            r == Poll::<Option<T>>::Ready(None)
        } else if pre_src@.waiters[slot_of(pre_src@.waiters, w->0)].1.changed {
            r matches Poll::Ready(Some(v)) && cloned(pre_src@.value, v)
        } else {
            r == Poll::<Option<T>>::Pending
        }
    }

    fn poll_changed(&mut self, src: &mut Mutable<T>, cx: &Context) -> (r: Poll<Option<T>>) {
        match self.signal.poll_changed(src, cx) {
            Poll::Ready(Some(guard)) => Poll::Ready(Some(guard.get().clone())),
            Poll::Ready(None) => Poll::Ready(None),
            Poll::Pending => Poll::Pending,
        }
    }
}

/// A signal that yields a clone of the cell's value at each change.
#[derive(Debug)]
pub struct MutableSignal<T> {
    waiter: Option<u64>,
    marker: PhantomData<T>,
}

impl<T> MutableSignal<T> {
    /// The number of the signal's waiter in the cell's registry; `None` for a
    /// signal that could not be registered.
    pub closed spec fn spec_waiter(&self) -> Option<u64> {
        self.waiter
    }

    /// What a poll in context `cx` makes of the cell `pre`, for a signal
    /// whose waiter has the number `waiter`.
    pub open spec fn poll_cell(waiter: Option<u64>, pre: MutableView<T>, cx: Context) -> MutableView<T> {
        if pre.closed() || waiter is None || !registered(pre.waiters, waiter->0) {
            pre
        } else {
            let id = waiter->0;
            let k = slot_of(pre.waiters, id);
            if pre.waiters[k].1.changed {
                MutableView {
                    waiters: pre.waiters.update(
                        k,
                        (id, WaiterView { changed: false, waker: pre.waiters[k].1.waker }),
                    ),
                    ..pre
                }
            } else {
                MutableView {
                    waiters: pre.waiters.update(
                        k,
                        (id, WaiterView { changed: false, waker: SignalWaker::from_cx_spec(cx) }),
                    ),
                    ..pre
                }
            }
        }
    }

    /// Ends the signal: its waiter leaves the cell's registry.
    pub fn close(self, cell: &mut Mutable<T>)
        ensures
            final(cell)@ == if self.spec_waiter() is Some && registered(
                old(cell)@.waiters,
                self.spec_waiter()->0,
            ) {
                MutableView {
                    waiters: old(cell)@.waiters.remove(
                        slot_of(old(cell)@.waiters, self.spec_waiter()->0),
                    ),
                    ..old(cell)@
                }
            } else {
                old(cell)@
            },
            old(cell).wf() ==> final(cell).wf(),
            final(cell).handed_out() == old(cell).handed_out(),
    {
        match self.waiter {
            Some(id) => {
                cell.waiters.remove(id);
            },
            None => {},
        }
    }
}

impl<T: Clone> Signal<Mutable<T>> for MutableSignal<T> {
    type Item = T;

    /// A closed cell, or one that does not know the signal's waiter, ends the
    /// stream. Else a change since the last poll yields a clone of the value
    /// and consumes the change; without one the context's waker is stored.
    open spec fn polled(
        pre: Self,
        pre_src: Mutable<T>,
        cx: Context,
        post: Self,
        post_src: Mutable<T>,
        r: Poll<Option<T>>,
    ) -> bool {
        let w = pre.spec_waiter();
        &&& post == pre
        &&& post_src@ == MutableSignal::<T>::poll_cell(w, pre_src@, cx)
        &&& pre_src.wf() ==> post_src.wf()
        &&& post_src.handed_out() == pre_src.handed_out()
        &&& if pre_src@.closed() || w is None || !registered(pre_src@.waiters, w->0) {
            r == Poll::<Option<T>>::Ready(None)
        } else if pre_src@.waiters[slot_of(pre_src@.waiters, w->0)].1.changed {
            r matches Poll::Ready(Some(v)) && cloned(pre_src@.value, v)
        } else {
            r == Poll::<Option<T>>::Pending
        }
    }

    fn poll_changed(&mut self, src: &mut Mutable<T>, cx: &Context) -> (r: Poll<Option<T>>) {
        if src.mutable_count == 0 {
            return Poll::Ready(None);
        }
        let id = match self.waiter {
            Some(id) => id,
            None => {
                return Poll::Ready(None);
            },
        };
        match src.waiters.take_changed(id) {
            None => Poll::Ready(None),
            Some(true) => {
                let item = src.value.clone();
                Poll::Ready(Some(item))
            },
            Some(false) => {
                src.waiters.set_waker(id, SignalWaker::from_cx(cx));
                proof {
                    let s0 = old(src)@.waiters;
                    let k = slot_of(s0, id);
                    crate::signal::waiter::lemma_slot_of(s0, id);
                    let s1 = s0.update(k, (id, WaiterView { changed: false, waker: s0[k].1.waker }));
                    assert(s1 =~= s0);
                }
                Poll::Pending
            },
        }
    }
}

/// Writing keeps the registered waiters and their order, and leaves each of
/// them changed.
pub proof fn lemma_written_all<T>(cell: MutableView<T>, writes: Seq<T>)
    requires
        writes.len() > 0,
    ensures
        written_all(cell, writes).value == writes.last(),
        written_all(cell, writes).handles == cell.handles,
        written_all(cell, writes).waiters.len() == cell.waiters.len(),
        forall|i: int|
            0 <= i < cell.waiters.len() ==> {
                &&& (#[trigger] written_all(cell, writes).waiters[i]).0 == cell.waiters[i].0
                &&& written_all(cell, writes).waiters[i].1.changed
            },
    decreases writes.len(),
{
    if writes.len() > 1 {
        lemma_written_all(cell, writes.drop_last());
    } else {
        assert(writes.drop_last().len() == 0);
        assert(written_all(cell, writes.drop_last()) == cell);
    }
}

/// A number is registered in one list exactly if it is in another list with
/// the same numbers, and at the same place.
proof fn lemma_slot_of_same_ids(a: Seq<Slot>, b: Seq<Slot>, id: u64)
    requires
        a.len() == b.len(),
        forall|i: int| 0 <= i < a.len() ==> a[i].0 == b[i].0,
    ensures
        slot_of(a, id) == slot_of(b, id),
{
    crate::signal::waiter::lemma_slot_of(a, id);
    crate::signal::waiter::lemma_slot_of_first(b, id, slot_of(a, id));
}

/// Last observed value: after any number of writes, at least one, with no
/// poll in between, a poll of a registered signal of an open cell yields the
/// value of the last write, whatever was written before it.
pub proof fn lemma_last_observed_value<T: Clone>(
    signal: MutableSignal<T>,
    before: Mutable<T>,
    writes: Seq<T>,
    after: Mutable<T>,
    cx: Context,
    post: MutableSignal<T>,
    post_src: Mutable<T>,
    r: Poll<Option<T>>,
)
    requires
        !before@.closed(),
        signal.spec_waiter() is Some,
        registered(before@.waiters, signal.spec_waiter()->0),
        writes.len() > 0,
        after@ == written_all(before@, writes),
        MutableSignal::<T>::polled(signal, after, cx, post, post_src, r),
    ensures
        r matches Poll::Ready(Some(v)) && cloned(writes.last(), v),
{
    lemma_written_all(before@, writes);
    let id = signal.spec_waiter()->0;
    lemma_slot_of_same_ids(before@.waiters, after@.waiters, id);
    crate::signal::waiter::lemma_slot_of(before@.waiters, id);
}

/// End of stream: every poll of a closed cell yields the end of the stream
/// and leaves the cell as it is.
pub proof fn lemma_closed_cell_ends_stream<T: Clone>(
    signal: MutableSignal<T>,
    src: Mutable<T>,
    cx: Context,
    post: MutableSignal<T>,
    post_src: Mutable<T>,
    r: Poll<Option<T>>,
)
    requires
        src@.closed(),
        MutableSignal::<T>::polled(signal, src, cx, post, post_src, r),
    ensures
        r == Poll::<Option<T>>::Ready(None),
        post_src@ == src@,
        post_src@.closed(),
{
}

/// End of stream is final: dropping the last handle closes the cell, and no
/// write, no new signal and no dropped handle opens a closed cell again.
pub proof fn lemma_closed_is_final<T>(cell: MutableView<T>, value: T, id: u64)
    ensures
        cell.handles == 1 ==> cell.released().closed(),
        cell.closed() ==> cell.written(value).closed(),
        cell.closed() ==> cell.observed(id).closed(),
        cell.closed() ==> cell.released().closed(),
{
}

/// One thing that can happen to a cell.
pub ghost enum CellStep<T> {
    /// A value is written.
    Write(T),
    /// A signal is taken.
    Observe,
    /// A handle is cloned.
    Retain,
    /// A handle is dropped.
    Release,
    /// The signal whose waiter has the given number is polled.
    Poll(Option<u64>, Context),
    /// The signal whose waiter has the given number is closed.
    Close(u64),
}

/// A cell together with the count of the numbers that it has handed out.
pub type Counted<T> = (MutableView<T>, nat);

/// Every registered waiter of the cell has a number that was handed out.
pub open spec fn counted<T>(cell: Counted<T>) -> bool {
    &&& cell.1 <= u64::MAX
    &&& forall|id: u64| registered(cell.0.waiters, id) ==> id < cell.1
}

/// The cell after one step, as the contracts of the cell's operations and of
/// its signals give it.
pub open spec fn stepped<T>(cell: Counted<T>, step: CellStep<T>) -> Counted<T> {
    let (c, next) = cell;
    match step {
        CellStep::Write(value) => (c.written(value), next),
        CellStep::Observe => if next == u64::MAX {
            cell
        } else {
            (c.observed(next as u64), next + 1)
        },
        CellStep::Retain => if 0 < c.handles < usize::MAX {
            (MutableView { handles: c.handles + 1, ..c }, next)
        } else {
            cell
        },
        CellStep::Release => (c.released(), next),
        CellStep::Poll(waiter, cx) => (MutableSignal::<T>::poll_cell(waiter, c, cx), next),
        CellStep::Close(id) => if registered(c.waiters, id) {
            (MutableView { waiters: c.waiters.remove(slot_of(c.waiters, id)), ..c }, next)
        } else {
            cell
        },
    }
}

/// The cell after the steps of `steps`, first to last.
pub open spec fn stepped_all<T>(cell: Counted<T>, steps: Seq<CellStep<T>>) -> Counted<T>
    decreases steps.len(),
{
    if steps.len() == 0 {
        cell
    } else {
        stepped(stepped_all(cell, steps.drop_last()), steps.last())
    }
}

/// Whether the stream of the signal whose waiter has the number `waiter` has
/// ended: a poll of it yields the end of the stream.
pub open spec fn ended<T>(waiter: Option<u64>, cell: MutableView<T>) -> bool {
    cell.closed() || waiter is None || !registered(cell.waiters, waiter->0)
}

proof fn lemma_registered_same_ids(a: Seq<Slot>, b: Seq<Slot>, id: u64)
    requires
        a.len() == b.len(),
        forall|i: int| 0 <= i < a.len() ==> a[i].0 == b[i].0,
    ensures
        registered(a, id) == registered(b, id),
{
    lemma_slot_of_same_ids(a, b, id);
}

proof fn lemma_registered_among(a: Seq<Slot>, b: Seq<Slot>, id: u64)
    requires
        forall|i: int| 0 <= i < b.len() ==> exists|j: int| 0 <= j < a.len() && a[j].0 == (#[trigger] b[i]).0,
        !registered(a, id),
    ensures
        !registered(b, id),
{
    crate::signal::waiter::lemma_slot_of(a, id);
    crate::signal::waiter::lemma_slot_of(b, id);
    let k = slot_of(b, id);
    if k < b.len() {
        let j = choose|j: int| 0 <= j < a.len() && a[j].0 == b[k].0;
        assert(a[j].0 != id);
    }
}

proof fn lemma_same_ids_keep_end<T>(cell: Counted<T>, after: Counted<T>, waiter: Option<u64>)
    requires
        counted(cell),
        waiter is Some ==> waiter->0 < cell.1,
        ended(waiter, cell.0),
        after.1 == cell.1,
        cell.0.closed() ==> after.0.closed(),
        after.0.waiters.len() == cell.0.waiters.len(),
        forall|i: int|
            0 <= i < cell.0.waiters.len() ==> cell.0.waiters[i].0 == after.0.waiters[i].0,
    ensures
        counted(after),
        ended(waiter, after.0),
{
    let a = cell.0.waiters;
    let b = after.0.waiters;
    assert forall|id: u64| registered(b, id) implies id < after.1 by {
        lemma_registered_same_ids(a, b, id);
    }
    if waiter is Some {
        lemma_registered_same_ids(a, b, waiter->0);
    }
}

proof fn lemma_step_keeps_end<T>(cell: Counted<T>, step: CellStep<T>, waiter: Option<u64>)
    requires
        counted(cell),
        waiter is Some ==> waiter->0 < cell.1,
        ended(waiter, cell.0),
    ensures
        counted(stepped(cell, step)),
        waiter is Some ==> waiter->0 < stepped(cell, step).1,
        ended(waiter, stepped(cell, step).0),
{
    let c = cell.0;
    let next = cell.1;
    let after = stepped(cell, step);
    let a = c.waiters;
    let b = after.0.waiters;
    match step {
        CellStep::Observe => {
            if next != u64::MAX {
                assert(b == a.push((next as u64, WaiterView { changed: true, waker: SignalWaker::Unset })));
                assert forall|id: u64| registered(b, id) implies id < after.1 by {
                    crate::signal::waiter::lemma_slot_of(b, id);
                    let k = slot_of(b, id);
                    if k < a.len() {
                        assert forall|j: int| 0 <= j < k implies a[j].0 != id by {
                            assert(a[j] == b[j]);
                        }
                        assert(a[k] == b[k]);
                        crate::signal::waiter::lemma_slot_of_first(a, id, k);
                        assert(registered(a, id));
                    } else {
                        assert(k == a.len());
                        assert(b[k].0 == next as u64);
                    }
                }
                if waiter is Some && !registered(a, waiter->0) {
                    let w = waiter->0;
                    crate::signal::waiter::lemma_slot_of(a, w);
                    crate::signal::waiter::lemma_slot_of(b, w);
                    let k = slot_of(b, w);
                    if k < a.len() {
                        assert(a[k] == b[k]);
                    }
                }
            }
        },
        CellStep::Close(gone) => {
            if registered(a, gone) {
                let at = slot_of(a, gone);
                crate::signal::waiter::lemma_slot_of(a, gone);
                assert(b == a.remove(at));
                assert forall|i: int| 0 <= i < b.len() implies exists|j: int|
                    0 <= j < a.len() && a[j].0 == (#[trigger] b[i]).0 by {
                    let j = if i < at { i } else { i + 1 };
                    assert(a[j] == b[i]);
                }
                assert forall|id: u64| registered(b, id) implies id < after.1 by {
                    if !registered(a, id) {
                        lemma_registered_among(a, b, id);
                    }
                }
                if waiter is Some && !registered(a, waiter->0) {
                    lemma_registered_among(a, b, waiter->0);
                }
            }
        },
        CellStep::Write(value) => {
            assert(after.0 == c.written(value));
            lemma_same_ids_keep_end(cell, after, waiter);
        },
        CellStep::Retain => {
            lemma_same_ids_keep_end(cell, after, waiter);
        },
        CellStep::Release => {
            assert(after.0 == c.released());
            lemma_same_ids_keep_end(cell, after, waiter);
        },
        CellStep::Poll(w2, cx) => {
            assert(after.0 == MutableSignal::<T>::poll_cell(w2, c, cx));
            if w2 is Some {
                crate::signal::waiter::lemma_slot_of(a, w2->0);
            }
            lemma_same_ids_keep_end(cell, after, waiter);
        },
    }
}

/// End of stream is final: once the stream of a signal has ended, whatever
/// happens to the cell afterwards and however often, the stream stays ended,
/// so no later poll of the signal yields a value.
pub proof fn lemma_end_of_stream_is_final<T>(
    cell: Counted<T>,
    steps: Seq<CellStep<T>>,
    waiter: Option<u64>,
)
    requires
        counted(cell),
        waiter is Some ==> waiter->0 < cell.1,
        ended(waiter, cell.0),
    ensures
        counted(stepped_all(cell, steps)),
        waiter is Some ==> waiter->0 < stepped_all(cell, steps).1,
        ended(waiter, stepped_all(cell, steps).0),
    decreases steps.len(),
{
    if steps.len() > 0 {
        lemma_end_of_stream_is_final(cell, steps.drop_last(), waiter);
        lemma_step_keeps_end(stepped_all(cell, steps.drop_last()), steps.last(), waiter);
    }
}

/// A poll of a signal whose stream has ended yields the end of the stream.
pub proof fn lemma_ended_yields_none<T: Clone>(
    signal: MutableSignal<T>,
    src: Mutable<T>,
    cx: Context,
    post: MutableSignal<T>,
    post_src: Mutable<T>,
    r: Poll<Option<T>>,
)
    requires
        ended(signal.spec_waiter(), src@),
        MutableSignal::<T>::polled(signal, src, cx, post, post_src, r),
    ensures
        r == Poll::<Option<T>>::Ready(None),
        ended(post.spec_waiter(), post_src@),
{
}

} // verus!
