use vstd::prelude::*;

use crate::poll::{Context, Waker};

verus! {

/// How a waiter signals a change: not at all, or by waking a stored token.
#[derive(Clone, Copy, Debug, PartialEq, Eq, Structural)]
pub enum SignalWaker {
    /// Nobody waits.
    Unset,
    /// The waker of a poll that returned pending.
    AsyncWaker(Waker),
}

impl SignalWaker {
    pub open spec fn from_cx_spec(cx: Context) -> SignalWaker {
        SignalWaker::AsyncWaker(cx.waker())
    }

    /// The waker of the polling context.
    pub fn from_cx(cx: &Context) -> (w: SignalWaker)
        ensures
            w == SignalWaker::from_cx_spec(*cx),
    {
        SignalWaker::AsyncWaker(cx.waker())
    }

    /// The token to deliver, if any.
    pub open spec fn woken(&self) -> Option<Waker> {
        match *self {
            SignalWaker::Unset => None,
            SignalWaker::AsyncWaker(w) => Some(w),
        }
    }

    /// Signals a change: returns the token that has to be delivered.
    pub fn wake(&self) -> (w: Option<Waker>)
        ensures
            w == self.woken(),
    {
        match self {
            SignalWaker::Unset => None,
            SignalWaker::AsyncWaker(w) => Some(*w),
        }
    }
}

impl Default for SignalWaker {
    fn default() -> (w: SignalWaker)
        ensures
            w == SignalWaker::Unset,
    {
        SignalWaker::Unset
    }
}

/// A single-slot wake primitive: one changed flag and one stored waker.
///
/// The flag goes from false to true only in [`Waiter::wake`], and from true
/// to false only in [`Waiter::take_changed`].
#[derive(Clone, Copy, Debug, PartialEq, Eq, Structural)]
pub struct Waiter {
    changed: bool,
    waker: SignalWaker,
}

/// What a [`Waiter`] holds.
pub ghost struct WaiterView {
    pub changed: bool,
    pub waker: SignalWaker,
}

impl View for Waiter {
    type V = WaiterView;

    closed spec fn view(&self) -> WaiterView {
        WaiterView { changed: self.changed, waker: self.waker }
    }
}

impl Waiter {
    /// A waiter without a stored waker.
    pub fn new(initial_changed: bool) -> (w: Waiter)
        ensures
            w@ == (WaiterView { changed: initial_changed, waker: SignalWaker::Unset }),
    {
        Waiter { changed: initial_changed, waker: SignalWaker::Unset }
    }

    /// Consumes the changed flag: true if there was a change since the flag
    /// was last taken.
    pub fn take_changed(&mut self) -> (r: bool)
        ensures
            r == old(self)@.changed,
            final(self)@ == (WaiterView { changed: false, waker: old(self)@.waker }),
    {
        let r = self.changed;
        self.changed = false;
        r
    }

    /// Stores the waker to use at the next change, in place of the one before.
    pub fn set_waker(&mut self, waker: SignalWaker)
        ensures
            final(self)@ == (WaiterView { changed: old(self)@.changed, waker }),
    {
        self.waker = waker;
    }

    /// Marks a change and returns the token of the stored waker, which the
    /// caller delivers. The waker stays stored.
    pub fn wake(&mut self) -> (w: Option<Waker>)
        ensures
            w == old(self)@.waker.woken(),
            final(self)@ == (WaiterView { changed: true, waker: old(self)@.waker }),
    {
        self.changed = true;
        self.waker.wake()
    }
}

/// One registered waiter: its number, and what it holds.
pub type Slot = (u64, WaiterView);

/// The index of the first waiter numbered `id`, or the length of `s` where
/// there is none.
pub open spec fn slot_of(s: Seq<Slot>, id: u64) -> int
    decreases s.len(),
{
    if s.len() == 0 {
        0
    } else if s[0].0 == id {
        0
    } else {
        1 + slot_of(s.drop_first(), id)
    }
}

/// Whether a waiter numbered `id` is registered.
pub open spec fn registered(s: Seq<Slot>, id: u64) -> bool {
    slot_of(s, id) < s.len()
}

/// The waiters after each of them was woken.
pub open spec fn woken_all(s: Seq<Slot>) -> Seq<Slot> {
    Seq::new(s.len(), |i: int| (s[i].0, WaiterView { changed: true, waker: s[i].1.waker }))
}

/// The waiters after the one numbered `id` was woken, if it is registered.
pub open spec fn woken_one(s: Seq<Slot>, id: u64) -> Seq<Slot> {
    if registered(s, id) {
        s.update(slot_of(s, id), (id, WaiterView { changed: true, waker: s[slot_of(s, id)].1.waker }))
    } else {
        s
    }
}

/// The token that waking the waiter numbered `id` delivers.
pub open spec fn token_of(s: Seq<Slot>, id: u64) -> Option<Waker> {
    if registered(s, id) {
        s[slot_of(s, id)].1.waker.woken()
    } else {
        None
    }
}

/// The tokens that waking every waiter delivers, in the order of registration.
pub open spec fn tokens(s: Seq<Slot>) -> Seq<Waker>
    decreases s.len(),
{
    if s.len() == 0 {
        Seq::empty()
    } else {
        match s.last().1.waker.woken() {
            Some(w) => tokens(s.drop_last()).push(w),
            None => tokens(s.drop_last()),
        }
    }
}

/// The waiters after those numbered in `queue` were woken, first to last.
pub open spec fn woken_queue(hooks: Seq<Slot>, queue: Seq<u64>) -> Seq<Slot>
    decreases queue.len(),
{
    if queue.len() == 0 {
        hooks
    } else {
        woken_one(woken_queue(hooks, queue.drop_last()), queue.last())
    }
}

/// The tokens that waking the waiters numbered in `queue` delivers, first to
/// last.
pub open spec fn queue_tokens(hooks: Seq<Slot>, queue: Seq<u64>) -> Seq<Waker>
    decreases queue.len(),
{
    if queue.len() == 0 {
        Seq::empty()
    } else {
        let before = queue_tokens(hooks, queue.drop_last());
        match token_of(woken_queue(hooks, queue.drop_last()), queue.last()) {
            Some(w) => before.push(w),
            None => before,
        }
    }
}

/// `slot_of` finds the first waiter with the number, and only that.
pub proof fn lemma_slot_of(s: Seq<Slot>, id: u64)
    ensures
        0 <= slot_of(s, id) <= s.len(),
        slot_of(s, id) < s.len() ==> s[slot_of(s, id)].0 == id,
        forall|j: int| 0 <= j < slot_of(s, id) ==> s[j].0 != id,
    decreases s.len(),
{
    if s.len() > 0 && s[0].0 != id {
        let t = s.drop_first();
        lemma_slot_of(t, id);
        assert forall|j: int| 0 <= j < slot_of(s, id) implies s[j].0 != id by {
            if j > 0 {
                assert(t[j - 1] == s[j]);
            }
        }
    }
}

/// The first index at which the number stands is what `slot_of` returns.
pub proof fn lemma_slot_of_first(s: Seq<Slot>, id: u64, i: int)
    requires
        0 <= i <= s.len(),
        i < s.len() ==> s[i].0 == id,
        forall|j: int| 0 <= j < i ==> s[j].0 != id,
    ensures
        slot_of(s, id) == i,
{
    lemma_slot_of(s, id);
    let k = slot_of(s, id);
    if k < i {
        assert(s[k].0 != id);
    }
}

struct Entry {
    id: u64,
    waiter: Waiter,
}

/// The waiters registered with one source of changes, in the order of
/// registration.
///
/// A waiter is named by the number it got at registration. Numbers are never
/// handed out twice, so a number whose waiter was removed names nothing.
pub struct WaitList {
    inner: Vec<Entry>,
    next_id: u64,
}

impl View for WaitList {
    type V = Seq<Slot>;

    closed spec fn view(&self) -> Seq<Slot> {
        Seq::new(self.inner.len() as nat, |i: int| (self.inner[i].id, self.inner[i].waiter@))
    }
}

impl WaitList {
    /// What registration keeps: the numbers grow along the list and lie below
    /// the next number to hand out.
    pub closed spec fn wf(&self) -> bool {
        &&& forall|i: int, j: int|
            0 <= i < j < self.inner.len() ==> self.inner[i].id < self.inner[j].id
        &&& forall|i: int| 0 <= i < self.inner.len() ==> self.inner[i].id < self.next_id
    }

    /// The number of numbers that have been handed out. The next waiter gets
    /// this number.
    pub closed spec fn handed_out(&self) -> nat {
        self.next_id as nat
    }

    /// Whether every number has been handed out.
    pub open spec fn exhausted(&self) -> bool {
        self.handed_out() == u64::MAX
    }

    /// The count of the numbers handed out never passes the greatest number.
    pub proof fn lemma_handed_out_fits(&self)
        ensures
            self.handed_out() <= u64::MAX,
    {
    }

    /// In a well-formed list every registered waiter has a number that was
    /// handed out.
    pub proof fn lemma_registered_was_handed_out(&self, id: u64)
        requires
            self.wf(),
            registered(self@, id),
        ensures
            id < self.handed_out(),
    {
        lemma_slot_of(self@, id);
    }

    /// An empty list.
    pub fn new() -> (l: WaitList)
        ensures
            l@ == Seq::<Slot>::empty(),
            l.wf(),
            l.handed_out() == 0,
    {
        let l = WaitList { inner: Vec::new(), next_id: 0 };
        assert(l@ =~= Seq::<Slot>::empty());
        l
    }

    /// The number of registered waiters.
    pub fn len(&self) -> (n: usize)
        ensures
            n == self@.len(),
    {
        self.inner.len()
    }

    fn position(&self, id: u64) -> (i: usize)
        ensures
            i == slot_of(self@, id),
            i <= self.inner.len(),
    {
        let mut i: usize = 0;
        while i < self.inner.len()
            invariant
                i <= self.inner.len(),
                forall|j: int| 0 <= j < i ==> self.inner[j].id != id,
            decreases self.inner.len() - i,
        {
            if self.inner[i].id == id {
                proof {
                    lemma_slot_of_first(self@, id, i as int);
                }
                return i;
            }
            i += 1;
        }
        proof {
            lemma_slot_of_first(self@, id, i as int);
        }
        i
    }

    /// Whether `id` names a registered waiter.
    pub fn contains(&self, id: u64) -> (r: bool)
        ensures
            r == registered(self@, id),
    {
        self.position(id) < self.inner.len()
    }

    /// Registers `waiter` behind the others and returns its number. `None`,
    /// with the list unchanged, once the numbers are used up.
    pub fn push(&mut self, waiter: Waiter) -> (r: Option<u64>)
        ensures
            match r {
                Some(id) => {
                    &&& id == old(self).handed_out()
                    &&& final(self).handed_out() == old(self).handed_out() + 1
                    &&& final(self)@ == old(self)@.push((id, waiter@))
                },
                None => final(self)@ == old(self)@ && final(self).handed_out() == old(
                    self,
                ).handed_out(),
            },
            r is None <==> old(self).exhausted(),
            old(self).wf() ==> final(self).wf(),
            old(self).wf() && r is Some ==> !registered(old(self)@, r->0),
    {
        if self.next_id == u64::MAX {
            return None;
        }
        let id = self.next_id;
        self.next_id = id + 1;
        self.inner.push(Entry { id, waiter });
        proof {
            assert(final(self)@ =~= old(self)@.push((id, waiter@)));
            if old(self).wf() {
                lemma_slot_of(old(self)@, id);
            }
        }
        Some(id)
    }

    /// Removes the waiter numbered `id`, if it is registered. The others keep
    /// their numbers and their order.
    pub fn remove(&mut self, id: u64) -> (r: bool)
        ensures
            r == registered(old(self)@, id),
            final(self)@ == if r {
                old(self)@.remove(slot_of(old(self)@, id))
            } else {
                old(self)@
            },
            old(self).wf() ==> final(self).wf(),
            final(self).handed_out() == old(self).handed_out(),
    {
        let i = self.position(id);
        if i < self.inner.len() {
            self.inner.remove(i);
            proof {
                assert(final(self)@ =~= old(self)@.remove(i as int));
            }
            true
        } else {
            false
        }
    }

    /// Consumes the changed flag of the waiter numbered `id`: what the flag
    /// was, or `None` where no such waiter is registered.
    pub fn take_changed(&mut self, id: u64) -> (r: Option<bool>)
        ensures
            r == if registered(old(self)@, id) {
                Some(old(self)@[slot_of(old(self)@, id)].1.changed)
            } else {
                None
            },
            final(self)@ == if registered(old(self)@, id) {
                old(self)@.update(
                    slot_of(old(self)@, id),
                    (
                        id,
                        WaiterView {
                            changed: false,
                            waker: old(self)@[slot_of(old(self)@, id)].1.waker,
                        },
                    ),
                )
            } else {
                old(self)@
            },
            old(self).wf() ==> final(self).wf(),
            final(self).handed_out() == old(self).handed_out(),
    {
        let i = self.position(id);
        if i < self.inner.len() {
            proof {
                lemma_slot_of(self@, id);
            }
            let r = self.inner[i].waiter.take_changed();
            proof {
                assert(final(self)@ =~= old(self)@.update(
                    i as int,
                    (id, WaiterView { changed: false, waker: old(self)@[i as int].1.waker }),
                ));
            }
            Some(r)
        } else {
            None
        }
    }

    /// Stores `waker` in the waiter numbered `id`; false where no such waiter
    /// is registered.
    pub fn set_waker(&mut self, id: u64, waker: SignalWaker) -> (r: bool)
        ensures
            r == registered(old(self)@, id),
            final(self)@ == if r {
                old(self)@.update(
                    slot_of(old(self)@, id),
                    (
                        id,
                        WaiterView { changed: old(self)@[slot_of(old(self)@, id)].1.changed, waker },
                    ),
                )
            } else {
                old(self)@
            },
            old(self).wf() ==> final(self).wf(),
            final(self).handed_out() == old(self).handed_out(),
    {
        let i = self.position(id);
        if i < self.inner.len() {
            proof {
                lemma_slot_of(self@, id);
            }
            self.inner[i].waiter.set_waker(waker);
            proof {
                assert(final(self)@ =~= old(self)@.update(
                    i as int,
                    (id, WaiterView { changed: old(self)@[i as int].1.changed, waker }),
                ));
            }
            true
        } else {
            false
        }
    }

    /// Wakes the waiter numbered `id`, if it is registered, and returns the
    /// token to deliver.
    pub fn wake(&mut self, id: u64) -> (w: Option<Waker>)
        ensures
            w == token_of(old(self)@, id),
            final(self)@ == woken_one(old(self)@, id),
            old(self).wf() ==> final(self).wf(),
            final(self).handed_out() == old(self).handed_out(),
    {
        let i = self.position(id);
        if i < self.inner.len() {
            proof {
                lemma_slot_of(self@, id);
            }
            let w = self.inner[i].waiter.wake();
            proof {
                assert(final(self)@ =~= old(self)@.update(
                    i as int,
                    (id, WaiterView { changed: true, waker: old(self)@[i as int].1.waker }),
                ));
            }
            w
        } else {
            None
        }
    }

    /// Wakes the waiters numbered in `queue`, first to last, and returns the
    /// tokens to deliver, in that order.
    pub fn wake_each(&mut self, queue: &Vec<u64>) -> (woken: Vec<Waker>)
        ensures
            woken@ == queue_tokens(old(self)@, queue@),
            final(self)@ == woken_queue(old(self)@, queue@),
            old(self).wf() ==> final(self).wf(),
            final(self).handed_out() == old(self).handed_out(),
    {
        let mut woken: Vec<Waker> = Vec::new();
        let mut i: usize = 0;
        while i < queue.len()
            invariant
                i <= queue.len(),
                self@ == woken_queue(old(self)@, queue@.take(i as int)),
                woken@ == queue_tokens(old(self)@, queue@.take(i as int)),
                old(self).wf() ==> self.wf(),
                self.handed_out() == old(self).handed_out(),
            decreases queue.len() - i,
        {
            let id = queue[i];
            proof {
                assert(queue@.take(i + 1).drop_last() =~= queue@.take(i as int));
                assert(queue@.take(i + 1).last() == id);
            }
            match self.wake(id) {
                Some(w) => woken.push(w),
                None => {},
            }
            i += 1;
        }
        proof {
            assert(queue@.take(i as int) =~= queue@);
        }
        woken
    }

    /// Wakes every waiter, in the order of registration, and returns the
    /// tokens to deliver, in that order.
    pub fn wake_all(&mut self) -> (woken: Vec<Waker>)
        ensures
            woken@ == tokens(old(self)@),
            final(self)@ == woken_all(old(self)@),
            old(self).wf() ==> final(self).wf(),
            final(self).handed_out() == old(self).handed_out(),
    {
        let mut woken: Vec<Waker> = Vec::new();
        let mut i: usize = 0;
        while i < self.inner.len()
            invariant
                i <= self.inner.len(),
                self.inner.len() == old(self).inner.len(),
                self.next_id == old(self).next_id,
                forall|j: int| 0 <= j < self.inner.len() ==> self.inner[j].id == old(self).inner[j].id,
                forall|j: int|
                    0 <= j < i ==> self.inner[j].waiter@ == (WaiterView {
                        changed: true,
                        waker: old(self).inner[j].waiter@.waker,
                    }),
                forall|j: int| i <= j < self.inner.len() ==> self.inner[j] == old(self).inner[j],
                woken@ == tokens(old(self)@.take(i as int)),
            decreases self.inner.len() - i,
        {
            let w = self.inner[i].waiter.wake();
            proof {
                let s = old(self)@;
                assert(s.take(i + 1).drop_last() =~= s.take(i as int));
                assert(s.take(i + 1).last() == s[i as int]);
            }
            match w {
                Some(w) => woken.push(w),
                None => {},
            }
            i += 1;
        }
        proof {
            assert(old(self)@.take(i as int) =~= old(self)@);
            assert(final(self)@ =~= woken_all(old(self)@));
        }
        woken
    }
}

/// A waiter, by the name of what it is to its source: the hook on which a
/// change pulls.
pub type Hook = Waiter;

/// A list of hooks.
pub type HookList = WaitList;

} // verus!
