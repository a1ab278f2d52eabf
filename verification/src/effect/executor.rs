//! The scheduler: tasks, their handles, and the single-pass executor.

use vstd::prelude::*;

use slotmap::{DefaultKey, Key, KeyData, SlotMap};

use std::collections::HashMap;

use vstd::std_specs::hash::*;

use crate::effect::Effect;
use crate::poll::{Context, Poll, Waker};
use crate::signal::waiter::SignalWaker;

verus! {

/// What the scheduler shares with the producers about one task: whether a
/// wake-up for it is under way, and whether it has been aborted.
#[derive(Clone, Copy, Debug, PartialEq, Eq, Structural)]
pub struct TaskWaker {
    pub sent: bool,
    pub aborted: bool,
}

/// The table of the tasks' shared state: a slot map, which hands out the
/// keys that name the tasks.
#[verifier::external_body]
pub struct Slots {
    inner: SlotMap<DefaultKey, TaskWaker>,
}

/// What a table holds: the state of each task, by the number of its key.
///
/// The number of a key is the 64-bit integer that the slot map crate packs
/// the key into with `KeyData::as_ffi`: the slot's index in the low half, the
/// slot's version in the high half.
pub uninterp spec fn slots(table: Slots) -> Map<u64, TaskWaker>;

/// The number of keys that a table holds, as the slot map crate counts them.
pub uninterp spec fn slots_count(table: Slots) -> nat;

/// Whether `key` is a number that `KeyData::from_ffi` unpacks to a key with
/// that same number: the version in the high half is odd. The keys of values
/// that a slot map holds have odd versions.
pub open spec fn canonical(key: u64) -> bool {
    (key >> 32) & 1 == 1
}

/// `SlotMap::new`: the new table holds nothing.
#[verifier::external_body]
fn slots_new() -> (table: Slots)
    ensures
        slots(table) == (Map::<u64, TaskWaker>::empty()),
        slots_count(table) == 0,
{
    Slots { inner: SlotMap::new() }
}

/// `SlotMap::len`: the number of keys the table holds.
#[verifier::external_body]
fn slots_len(table: &Slots) -> (n: usize)
    ensures
        n == slots_count(*table),
{
    table.inner.len()
}

/// `SlotMap::insert`, which panics in a table with 2^32 - 1 slots; a table
/// with fewer than 2^32 - 2 keys has a free slot or room for one more. The
/// value is stored under a key that the table did not hold, with an odd
/// version. The number of that key, as `Key::data` and `KeyData::as_ffi`
/// give it, is returned.
#[verifier::external_body]
fn slots_insert(table: &mut Slots, value: TaskWaker) -> (key: u64)
    requires
        slots_count(*old(table)) + 2 < 0x1_0000_0000,
    ensures
        canonical(key),
        !slots(*old(table)).contains_key(key),
        slots(*final(table)) == slots(*old(table)).insert(key, value),
        slots_count(*final(table)) == slots_count(*old(table)) + 1,
{
    table.inner.insert(value).data().as_ffi()
}

/// `SlotMap::get_mut` with the key that `KeyData::from_ffi` unpacks from
/// `key`: a borrow of the value stored under that key, if the table holds it.
#[verifier::external_body]
fn slots_get_mut(table: &mut Slots, key: u64) -> (r: Option<&mut TaskWaker>)
    requires
        canonical(key),
    ensures
        r is Some <==> slots(*old(table)).contains_key(key),
        r is Some ==> *r->0 == slots(*old(table))[key],
        r is Some ==> slots(*final(table)) == slots(*old(table)).insert(key, *final(r->0)),
        r is None ==> slots(*final(table)) == slots(*old(table)),
        slots_count(*final(table)) == slots_count(*old(table)),
{
    table.inner.get_mut(KeyData::from_ffi(key).into())
}

/// `SlotMap::remove` with the key that `KeyData::from_ffi` unpacks from
/// `key`: the value stored under that key leaves the table and is returned.
#[verifier::external_body]
fn slots_remove(table: &mut Slots, key: u64) -> (r: Option<TaskWaker>)
    requires
        canonical(key),
    ensures
        r == (if slots(*old(table)).contains_key(key) {
            Some(slots(*old(table))[key])
        } else {
            None
        }),
        slots(*final(table)) == slots(*old(table)).remove(key),
        slots_count(*final(table)) == slots_count(*old(table)) - (if slots(
            *old(table),
        ).contains_key(key) {
            1int
        } else {
            0int
        }),
{
    table.inner.remove(KeyData::from_ffi(key).into())
}

fn is_canonical(key: u64) -> (r: bool)
    ensures
        r == canonical(key),
{
    (key >> 32) & 1 == 1
}

/// The state that producers and the executor share: the tasks' wake and
/// abort marks, the keys of the tasks that were woken since the last pass,
/// whether there is anything for the executor to do, and the waker of
/// whoever waits for that.
pub struct Shared {
    tasks: Slots,
    ready: Vec<u64>,
    waker: SignalWaker,
    has_updates: bool,
}

/// What a [`Shared`] holds.
pub ghost struct SharedView {
    pub tasks: Map<u64, TaskWaker>,
    /// The number of tasks that the table holds.
    pub count: nat,
    pub ready: Seq<u64>,
    pub waker: SignalWaker,
    pub has_updates: bool,
}

impl SharedView {
    /// Every ready task has its wake mark set, and none is ready twice.
    pub open spec fn coalesced(self) -> bool {
        &&& self.ready.no_duplicates()
        &&& forall|i: int|
            0 <= i < self.ready.len() ==> self.tasks.contains_key(#[trigger] self.ready[i])
                && self.tasks[self.ready[i]].sent
    }

    /// The state after a wake-up for the task numbered `key`: a task without
    /// a wake-up under way becomes ready, once; any other wake-up is absorbed.
    pub open spec fn woken(self, key: u64) -> SharedView {
        if canonical(key) && self.tasks.contains_key(key) && !self.tasks[key].sent {
            SharedView {
                tasks: self.tasks.insert(key, TaskWaker { sent: true, ..self.tasks[key] }),
                ready: self.ready.push(key),
                has_updates: true,
                ..self
            }
        } else {
            self
        }
    }

    /// The state after the task numbered `key` was aborted.
    pub open spec fn aborted(self, key: u64) -> SharedView {
        if canonical(key) && self.tasks.contains_key(key) {
            SharedView {
                tasks: self.tasks.insert(key, TaskWaker { aborted: true, ..self.tasks[key] }),
                ..self
            }
        } else {
            self
        }
    }

    /// The state after the wake mark of the task numbered `key` was cleared.
    pub open spec fn reset(self, key: u64) -> SharedView {
        if canonical(key) && self.tasks.contains_key(key) {
            SharedView {
                tasks: self.tasks.insert(key, TaskWaker { sent: false, ..self.tasks[key] }),
                ..self
            }
        } else {
            self
        }
    }

    /// The state after the task numbered `key` left the table.
    pub open spec fn retired(self, key: u64) -> SharedView {
        if canonical(key) && self.tasks.contains_key(key) {
            SharedView {
                tasks: self.tasks.remove(key),
                count: (self.count - 1) as nat,
                ..self
            }
        } else {
            self
        }
    }

    /// Whether the table can take no further task.
    pub open spec fn full(self) -> bool {
        self.count + 2 >= 0x1_0000_0000
    }

    /// The state after room was made for a task under the number `key`. The
    /// task counts as woken, since it is due in the next pass: a wake-up
    /// before that pass is absorbed.
    pub open spec fn allocated(self, key: u64) -> SharedView {
        SharedView {
            tasks: self.tasks.insert(key, TaskWaker { sent: true, aborted: false }),
            count: self.count + 1,
            ..self
        }
    }

    /// Whether the task numbered `key` is to be dropped without a poll: it
    /// was aborted, or the table does not know it.
    pub open spec fn gone(self, key: u64) -> bool {
        !canonical(key) || !self.tasks.contains_key(key) || self.tasks[key].aborted
    }
}

impl View for Shared {
    type V = SharedView;

    closed spec fn view(&self) -> SharedView {
        SharedView {
            tasks: slots(self.tasks),
            count: slots_count(self.tasks),
            ready: self.ready@,
            waker: self.waker,
            has_updates: self.has_updates,
        }
    }
}

impl Shared {
    /// Shared state without tasks.
    pub fn new() -> (s: Shared)
        ensures
            s@ == (SharedView {
                tasks: Map::empty(),
                count: 0,
                ready: Seq::empty(),
                waker: SignalWaker::Unset,
                has_updates: false,
            }),
            !s.full(),
    {
        Shared { tasks: slots_new(), ready: Vec::new(), waker: SignalWaker::Unset, has_updates: false }
    }

    /// Whether there is anything for the executor to do.
    pub fn has_updates(&self) -> (r: bool)
        ensures
            r == self@.has_updates,
    {
        self.has_updates
    }

    /// The number of tasks that wait for the next pass.
    pub fn ready_len(&self) -> (n: usize)
        ensures
            n == self@.ready.len(),
    {
        self.ready.len()
    }

    /// Marks that there is something for the executor to do.
    pub fn wake(&mut self)
        ensures
            final(self)@ == (SharedView { has_updates: true, ..old(self)@ }),
            final(self).full() == old(self).full(),
    {
        self.has_updates = true;
    }

    /// Queues the task numbered `key` for the next pass.
    pub fn push_ready(&mut self, key: u64)
        ensures
            final(self)@ == (SharedView {
                ready: old(self)@.ready.push(key),
                has_updates: true,
                ..old(self)@
            }),
            final(self).full() == old(self).full(),
    {
        self.ready.push(key);
        self.wake();
    }

    /// Delivers a wake-up to the task that `waker` names. However often this
    /// is called between two polls of the task, the task is queued once.
    pub fn wake_task(&mut self, waker: Waker)
        ensures
            final(self)@ == old(self)@.woken(waker@),
            final(self).full() == old(self).full(),
    {
        let key = waker.id();
        if !is_canonical(key) {
            return ;
        }
        let fresh = match slots_get_mut(&mut self.tasks, key) {
            Some(task) => {
                if task.sent {
                    false
                } else {
                    task.sent = true;
                    true
                }
            },
            None => false,
        };
        if fresh {
            self.push_ready(key);
        }
        proof {
            assert(final(self)@.tasks =~= old(self)@.woken(key).tasks);
        }
    }

    /// Delivers each of the wake-ups in `wakers`, first to last.
    pub fn wake_tasks(&mut self, wakers: &Vec<Waker>)
        ensures
            final(self)@ == woken_each(old(self)@, wakers@),
            final(self).full() == old(self).full(),
    {
        let mut i: usize = 0;
        while i < wakers.len()
            invariant
                i <= wakers.len(),
                self@ == woken_each(old(self)@, wakers@.take(i as int)),
                self.full() == old(self).full(),
            decreases wakers.len() - i,
        {
            proof {
                assert(wakers@.take(i + 1).drop_last() =~= wakers@.take(i as int));
            }
            self.wake_task(wakers[i]);
            i += 1;
        }
        proof {
            assert(wakers@.take(i as int) =~= wakers@);
        }
    }

    /// Whether the table can take no further task.
    pub open spec fn full(&self) -> bool {
        self@.full()
    }

    /// Makes room for one more task and returns the number of its key;
    /// `None`, with nothing changed, where the table is full. The task starts
    /// out with its wake mark set: it is due in the next pass, and a wake-up
    /// before that pass is absorbed.
    pub fn allocate(&mut self) -> (r: Option<u64>)
        ensures
            match r {
                Some(key) => {
                    &&& canonical(key)
                    &&& !old(self)@.tasks.contains_key(key)
                    &&& final(self)@ == old(self)@.allocated(key)
                },
                None => final(self)@ == old(self)@,
            },
            r is None <==> old(self).full(),
    {
        let n = slots_len(&self.tasks);
        if n >= 0xffff_fffe {
            return None;
        }
        let key = slots_insert(&mut self.tasks, TaskWaker { sent: true, aborted: false });
        Some(key)
    }

    /// Marks the task numbered `key` as aborted. A task that has left the
    /// table is not touched.
    pub fn abort(&mut self, key: u64)
        ensures
            final(self)@ == old(self)@.aborted(key),
            final(self).full() == old(self).full(),
    {
        if !is_canonical(key) {
            return ;
        }
        match slots_get_mut(&mut self.tasks, key) {
            Some(task) => {
                task.aborted = true;
            },
            None => {},
        }
        proof {
            assert(final(self)@.tasks =~= old(self)@.aborted(key).tasks);
        }
    }

    /// Clears the wake mark of the task numbered `key`, so that a wake-up
    /// from now on queues the task again, and says whether the task is to be
    /// dropped without a poll.
    pub fn begin_poll(&mut self, key: u64) -> (gone: bool)
        ensures
            gone == old(self)@.gone(key),
            final(self)@ == old(self)@.reset(key),
    {
        if !is_canonical(key) {
            return true;
        }
        let gone = match slots_get_mut(&mut self.tasks, key) {
            Some(task) => {
                task.sent = false;
                task.aborted
            },
            None => true,
        };
        proof {
            assert(final(self)@.tasks =~= old(self)@.reset(key).tasks);
        }
        gone
    }

    /// Removes the task numbered `key` from the table.
    pub fn retire(&mut self, key: u64)
        ensures
            final(self)@ == old(self)@.retired(key),
    {
        if is_canonical(key) {
            slots_remove(&mut self.tasks, key);
        }
        proof {
            assert(final(self)@.tasks =~= old(self)@.retired(key).tasks);
        }
    }

    /// Takes the keys of the tasks that were woken since the last pass, in
    /// the order of their wake-ups, and clears the mark that there is
    /// something to do.
    pub fn take_ready(&mut self) -> (ready: Vec<u64>)
        ensures
            ready@ == old(self)@.ready,
            final(self)@ == (SharedView {
                ready: Seq::empty(),
                has_updates: false,
                ..old(self)@
            }),
    {
        self.has_updates = false;
        let mut ready: Vec<u64> = Vec::new();
        core::mem::swap(&mut ready, &mut self.ready);
        ready
    }

    /// Consumes the mark that there is something to do. Without one, the
    /// waker of `cx` is stored for [`Shared::notify`].
    pub fn poll_updates(&mut self, cx: &Context) -> (r: Poll<()>)
        ensures
            r == (if old(self)@.has_updates {
                Poll::Ready(())
            } else {
                Poll::Pending
            }),
            final(self)@ == (if old(self)@.has_updates {
                SharedView { has_updates: false, ..old(self)@ }
            } else {
                SharedView { waker: SignalWaker::from_cx_spec(*cx), ..old(self)@ }
            }),
    {
        if self.has_updates {
            self.has_updates = false;
            Poll::Ready(())
        } else {
            self.waker = SignalWaker::from_cx(cx);
            Poll::Pending
        }
    }

    /// The token to deliver to whoever waits for something to do: the stored
    /// waker, once there is something to do.
    pub fn notify(&self) -> (w: Option<Waker>)
        ensures
            w == (if self@.has_updates {
                self@.waker.woken()
            } else {
                None
            }),
    {
        if self.has_updates {
            self.waker.wake()
        } else {
            None
        }
    }
}

/// The state after a wake-up was delivered for each of `wakers`, first to
/// last.
pub open spec fn woken_each(s: SharedView, wakers: Seq<Waker>) -> SharedView
    decreases wakers.len(),
{
    if wakers.len() == 0 {
        s
    } else {
        woken_each(s, wakers.drop_last()).woken(wakers.last()@)
    }
}

/// At most one enqueue: however often a wake-up is delivered to a task, the
/// first delivery alone changes the state, and if no task was ready twice
/// before, none is after.
pub proof fn lemma_wake_coalesces(s: SharedView, key: u64)
    ensures
        s.woken(key).woken(key) == s.woken(key),
        s.coalesced() ==> s.woken(key).coalesced(),
        s.woken(key).ready == s.ready || s.woken(key).ready == s.ready.push(key),
{
    let t = s.woken(key);
    if canonical(key) && s.tasks.contains_key(key) && !s.tasks[key].sent {
        assert(t.tasks[key].sent);
        if s.coalesced() {
            assert forall|i: int, j: int| 0 <= i < j < t.ready.len() implies t.ready[i]
                != t.ready[j] by {
                if j == s.ready.len() {
                    assert(s.tasks[s.ready[i]].sent);
                }
            }
            assert forall|i: int| 0 <= i < t.ready.len() implies t.tasks.contains_key(
                #[trigger] t.ready[i],
            ) && t.tasks[t.ready[i]].sent by {
                if i < s.ready.len() {
                    assert(s.tasks.contains_key(s.ready[i]) && s.tasks[s.ready[i]].sent);
                }
            }
        }
    }
}

/// At most one enqueue, for any number of wake-ups: where no task was ready
/// twice, none is after the wake-ups of `wakers` were delivered, whatever
/// they are and however many.
pub proof fn lemma_wake_ups_coalesce(s: SharedView, wakers: Seq<Waker>)
    requires
        s.coalesced(),
    ensures
        woken_each(s, wakers).coalesced(),
    decreases wakers.len(),
{
    if wakers.len() > 0 {
        lemma_wake_ups_coalesce(s, wakers.drop_last());
        lemma_wake_coalesces(woken_each(s, wakers.drop_last()), wakers.last()@);
    }
}

/// Abort idempotence: aborting a task twice is aborting it once, and
/// aborting a task that has left the table changes nothing.
pub proof fn lemma_abort_idempotent(s: SharedView, key: u64)
    ensures
        s.aborted(key).aborted(key) == s.aborted(key),
        !s.tasks.contains_key(key) ==> s.aborted(key) == s,
        s.aborted(key).ready == s.ready,
        s.aborted(key).tasks.dom() == s.tasks.dom(),
{
    let t = s.aborted(key);
    assert(t.aborted(key).tasks =~= t.tasks);
    assert(t.tasks.dom() =~= s.tasks.dom());
}

/// A handle to a task, with which the task can be aborted. It does not keep
/// the task alive, and it may outlive it.
#[derive(Clone, Copy, Debug, PartialEq, Eq, Structural)]
pub struct TaskHandle {
    key: u64,
}

impl View for TaskHandle {
    type V = u64;

    /// The number of the task's key.
    closed spec fn view(&self) -> u64 {
        self.key
    }
}

impl TaskHandle {
    /// The number of the task's key.
    pub fn key(&self) -> (key: u64)
        ensures
            key == self@,
    {
        self.key
    }

    /// Turns the handle into one that is meant to abort the task when it is
    /// given up.
    pub fn abort_on_drop(self) -> (h: AbortTaskHandle)
        ensures
            h@ == self@,
    {
        AbortTaskHandle(self)
    }

    /// Aborts the task: it will not be polled again, and the next pass of
    /// the executor drops it. Aborting twice, or aborting a task that has
    /// finished, does nothing.
    pub fn abort<E>(&self, spawner: &mut TaskSpawner<E>)
        ensures
            final(spawner)@ == (SpawnerView {
                shared: old(spawner)@.shared.aborted(self@),
                ..old(spawner)@
            }),
            final(spawner).full() == old(spawner).full(),
            old(spawner)@.coalesced() ==> final(spawner)@.coalesced(),
    {
        proof {
            if old(spawner)@.coalesced() {
                lemma_abort_keeps_coalesced(old(spawner)@, self.key);
            }
        }
        spawner.shared.abort(self.key);
    }
}

/// A task handle that is meant to abort its task when it is given up.
#[derive(Debug, PartialEq, Eq)]
pub struct AbortTaskHandle(TaskHandle);

impl View for AbortTaskHandle {
    type V = u64;

    /// The number of the task's key.
    closed spec fn view(&self) -> u64 {
        self.0@
    }
}

impl AbortTaskHandle {
    /// Aborts the task, as [`TaskHandle::abort`] does.
    pub fn abort<E>(&self, spawner: &mut TaskSpawner<E>)
        ensures
            final(spawner)@ == (SpawnerView {
                shared: old(spawner)@.shared.aborted(self@),
                ..old(spawner)@
            }),
            final(spawner).full() == old(spawner).full(),
    {
        self.0.abort(spawner);
    }

    /// Gives the handle up, which aborts the task.
    pub fn close<E>(self, spawner: &mut TaskSpawner<E>)
        ensures
            final(spawner)@ == (SpawnerView {
                shared: old(spawner)@.shared.aborted(self@),
                ..old(spawner)@
            }),
            final(spawner).full() == old(spawner).full(),
    {
        self.abort(spawner);
    }
}

/// A unit of execution: an effect, and the number of the key under which the
/// scheduler knows it.
pub struct Task<E> {
    pub effect: E,
    pub key: u64,
}

/// Where tasks are spawned: the tasks that wait for the executor to take them
/// in, and the state shared with the producers.
pub struct TaskSpawner<E> {
    new_tasks: Vec<Task<E>>,
    shared: Shared,
}

/// What a [`TaskSpawner`] holds.
pub ghost struct SpawnerView<E> {
    pub new_tasks: Seq<Task<E>>,
    pub shared: SharedView,
}

impl<E> SpawnerView<E> {
    /// The keys that the next pass works through, in its order: the tasks
    /// that were woken since the last pass, then the new ones.
    pub open spec fn order(self) -> Seq<u64> {
        self.shared.ready + keys_of(self.new_tasks)
    }

    /// No task is due twice, and every task that is due has its wake mark
    /// set, so that a further wake-up for it is absorbed.
    pub open spec fn coalesced(self) -> bool {
        &&& self.order().no_duplicates()
        &&& forall|i: int|
            0 <= i < self.order().len() ==> self.shared.tasks.contains_key(
                #[trigger] self.order()[i],
            ) && self.shared.tasks[self.order()[i]].sent
    }

    /// No task is due twice, and a task is due exactly if its wake mark is
    /// set. This is how a spawner stands between two passes.
    pub open spec fn settled(self) -> bool {
        &&& self.coalesced()
        &&& forall|key: u64|
            self.shared.tasks.contains_key(key) && self.shared.tasks[key].sent
                ==> self.order().contains(key)
    }

    /// The spawner after a task for `effect` was spawned under the number
    /// `key`.
    pub open spec fn spawned(self, effect: E, key: u64) -> SpawnerView<E> {
        SpawnerView {
            new_tasks: self.new_tasks.push(Task { effect, key }),
            shared: SharedView { has_updates: true, ..self.shared.allocated(key) },
        }
    }
}

/// One poll in each pass: where no task is due twice, the keys that a pass
/// works through hold no key twice, so the pass polls each task that is due
/// once.
pub proof fn lemma_pass_holds_no_key_twice<E>(e: ExecutorView<E>)
    requires
        e.spawner.coalesced(),
    ensures
        e.order().no_duplicates(),
        forall|i: int, j: int|
            0 <= i < e.order().len() && 0 <= j < e.order().len() && i != j ==> e.order()[i]
                != e.order()[j],
{
}

/// Spawning keeps it that no task is due twice: the new task is due once,
/// and its wake mark is set.
pub proof fn lemma_spawn_keeps_coalesced<E>(s: SpawnerView<E>, effect: E, key: u64)
    requires
        s.coalesced(),
        !s.shared.tasks.contains_key(key),
    ensures
        s.spawned(effect, key).coalesced(),
{
    let t = s.spawned(effect, key);
    assert(keys_of(t.new_tasks) =~= keys_of(s.new_tasks).push(key));
    assert(t.order() =~= s.order().push(key));
    assert forall|i: int, j: int| 0 <= i < j < t.order().len() implies t.order()[i]
        != t.order()[j] by {
        if j == s.order().len() {
            assert(s.shared.tasks.contains_key(s.order()[i]));
        } else {
            assert(s.order()[i] != s.order()[j]);
        }
    }
    assert forall|i: int| 0 <= i < t.order().len() implies t.shared.tasks.contains_key(
        #[trigger] t.order()[i],
    ) && t.shared.tasks[t.order()[i]].sent by {
        if i < s.order().len() {
            assert(s.shared.tasks.contains_key(s.order()[i]) && s.shared.tasks[s.order()[i]].sent);
        }
    }
}

/// A wake-up keeps it that no task is due twice, whether it is for a task
/// that is known, new, due already, or gone.
pub proof fn lemma_wake_keeps_coalesced<E>(s: SpawnerView<E>, key: u64)
    requires
        s.coalesced(),
    ensures
        (SpawnerView { shared: s.shared.woken(key), ..s }).coalesced(),
{
    let t = SpawnerView { shared: s.shared.woken(key), ..s };
    if canonical(key) && s.shared.tasks.contains_key(key) && !s.shared.tasks[key].sent {
        let r = s.shared.ready.len() as int;
        let at = |i: int| if i < r { i } else { i - 1 };
        assert forall|i: int| 0 <= i < t.order().len() && i != r implies t.order()[i]
            == s.order()[at(i)] && 0 <= at(i) < s.order().len() by {}
        assert(t.order()[r] == key);
        assert forall|i: int| 0 <= i < s.order().len() implies s.order()[i] != key by {
            assert(s.shared.tasks[s.order()[i]].sent);
        }
        assert forall|i: int, j: int| 0 <= i < j < t.order().len() implies t.order()[i]
            != t.order()[j] by {
            if i != r && j != r {
                assert(s.order()[at(i)] != s.order()[at(j)]);
            }
        }
        assert forall|i: int| 0 <= i < t.order().len() implies t.shared.tasks.contains_key(
            #[trigger] t.order()[i],
        ) && t.shared.tasks[t.order()[i]].sent by {
            if i != r {
                assert(s.shared.tasks.contains_key(s.order()[at(i)]) && s.shared.tasks[s.order()[at(
                    i,
                )]].sent);
            }
        }
    }
}

/// Between two passes, spawning, waking and aborting keep a task due exactly
/// if its wake mark is set.
pub proof fn lemma_settled_is_kept<E>(s: SpawnerView<E>, effect: E, fresh: u64, key: u64)
    requires
        s.settled(),
    ensures
        !s.shared.tasks.contains_key(fresh) ==> s.spawned(effect, fresh).settled(),
        (SpawnerView { shared: s.shared.woken(key), ..s }).settled(),
        (SpawnerView { shared: s.shared.aborted(key), ..s }).settled(),
{
    if !s.shared.tasks.contains_key(fresh) {
        let t = s.spawned(effect, fresh);
        lemma_spawn_keeps_coalesced(s, effect, fresh);
        assert(keys_of(t.new_tasks) =~= keys_of(s.new_tasks).push(fresh));
        assert(t.order() =~= s.order().push(fresh));
        assert forall|k: u64| t.shared.tasks.contains_key(k) && t.shared.tasks[k].sent implies t.order().contains(
            k,
        ) by {
            if k == fresh {
                assert(t.order()[s.order().len() as int] == fresh);
            } else {
                assert(s.shared.tasks.contains_key(k) && s.shared.tasks[k].sent);
                assert(s.order().contains(k));
                let i = choose|i: int| 0 <= i < s.order().len() && s.order()[i] == k;
                assert(t.order()[i] == k);
            }
        }
    }
    lemma_settled_woken(s, key);
    {
        let t = SpawnerView { shared: s.shared.aborted(key), ..s };
        lemma_abort_keeps_coalesced(s, key);
        assert(t.order() == s.order());
        assert forall|k: u64| t.shared.tasks.contains_key(k) && t.shared.tasks[k].sent implies t.order().contains(
            k,
        ) by {
            assert(s.shared.tasks.contains_key(k) && s.shared.tasks[k].sent);
            assert(s.order().contains(k));
        }
    }
}

/// At most one enqueue, and one poll: between two passes, after any number
/// of wake-ups for a task that the spawner knows, at least one, the task is
/// due in the next pass exactly once.
pub proof fn lemma_woken_task_is_due_once<E>(s: SpawnerView<E>, key: u64, times: nat)
    requires
        s.settled(),
        canonical(key),
        s.shared.tasks.contains_key(key),
        times >= 1,
    ensures
        woken_times(s, key, times).settled(),
        woken_times(s, key, times).order().contains(key),
        woken_times(s, key, times).order().no_duplicates(),
{
    let before = woken_times(s, key, (times - 1) as nat);
    lemma_woken_times_keep_tasks(s, key, (times - 1) as nat);
    let t = SpawnerView { shared: before.shared.woken(key), ..before };
    lemma_settled_woken(before, key);
    assert(t.shared.tasks.contains_key(key) && t.shared.tasks[key].sent);
}

proof fn lemma_woken_times_keep_tasks<E>(s: SpawnerView<E>, key: u64, times: nat)
    requires
        s.settled(),
    ensures
        woken_times(s, key, times).settled(),
        woken_times(s, key, times).shared.tasks.dom() == s.shared.tasks.dom(),
    decreases times,
{
    if times > 0 {
        lemma_woken_times_keep_tasks(s, key, (times - 1) as nat);
        let before = woken_times(s, key, (times - 1) as nat);
        lemma_settled_woken(before, key);
        lemma_wake_keeps_tasks(before.shared, key);
    }
}

/// The spawner after `times` wake-ups for the task numbered `key`.
pub open spec fn woken_times<E>(s: SpawnerView<E>, key: u64, times: nat) -> SpawnerView<E>
    decreases times,
{
    if times == 0 {
        s
    } else {
        let before = woken_times(s, key, (times - 1) as nat);
        SpawnerView { shared: before.shared.woken(key), ..before }
    }
}

proof fn lemma_wake_keeps_tasks(s: SharedView, key: u64)
    ensures
        s.woken(key).tasks.dom() == s.tasks.dom(),
{
    assert(s.woken(key).tasks.dom() =~= s.tasks.dom());
}

proof fn lemma_settled_woken<E>(s: SpawnerView<E>, key: u64)
    requires
        s.settled(),
    ensures
        (SpawnerView { shared: s.shared.woken(key), ..s }).settled(),
{
    let t = SpawnerView { shared: s.shared.woken(key), ..s };
    lemma_wake_keeps_coalesced(s, key);
    let r = s.shared.ready.len() as int;
    assert forall|k: u64| t.shared.tasks.contains_key(k) && t.shared.tasks[k].sent implies t.order().contains(
        k,
    ) by {
        if canonical(key) && s.shared.tasks.contains_key(key) && !s.shared.tasks[key].sent {
            if k == key {
                assert(t.order()[r] == key);
            } else {
                assert(s.shared.tasks.contains_key(k) && s.shared.tasks[k].sent);
                assert(s.order().contains(k));
                let i = choose|i: int| 0 <= i < s.order().len() && s.order()[i] == k;
                let j = if i < r { i } else { i + 1 };
                assert(t.order()[j] == k);
            }
        } else {
            assert(t == s);
            assert(s.order().contains(k));
        }
    }
}

/// Any number of wake-ups keep it that no task is due twice.
pub proof fn lemma_wake_ups_keep_coalesced<E>(s: SpawnerView<E>, wakers: Seq<Waker>)
    requires
        s.coalesced(),
    ensures
        (SpawnerView { shared: woken_each(s.shared, wakers), ..s }).coalesced(),
    decreases wakers.len(),
{
    if wakers.len() > 0 {
        lemma_wake_ups_keep_coalesced(s, wakers.drop_last());
        lemma_wake_keeps_coalesced(
            SpawnerView { shared: woken_each(s.shared, wakers.drop_last()), ..s },
            wakers.last()@,
        );
    }
}

/// An abort keeps it that no task is due twice: it changes no wake mark and
/// makes no task due.
pub proof fn lemma_abort_keeps_coalesced<E>(s: SpawnerView<E>, key: u64)
    requires
        s.coalesced(),
    ensures
        (SpawnerView { shared: s.shared.aborted(key), ..s }).coalesced(),
{
    let t = SpawnerView { shared: s.shared.aborted(key), ..s };
    assert(t.order() == s.order());
    assert forall|i: int| 0 <= i < t.order().len() implies t.shared.tasks.contains_key(
        #[trigger] t.order()[i],
    ) && t.shared.tasks[t.order()[i]].sent by {
        assert(s.shared.tasks.contains_key(s.order()[i]) && s.shared.tasks[s.order()[i]].sent);
    }
}

impl<E> View for TaskSpawner<E> {
    type V = SpawnerView<E>;

    closed spec fn view(&self) -> SpawnerView<E> {
        SpawnerView { new_tasks: self.new_tasks@, shared: self.shared@ }
    }
}

impl<E> TaskSpawner<E> {
    /// A spawner without tasks.
    pub fn new() -> (s: TaskSpawner<E>)
        ensures
            s@.new_tasks == Seq::<Task<E>>::empty(),
            s@.shared == (SharedView {
                tasks: Map::empty(),
                count: 0,
                ready: Seq::empty(),
                waker: SignalWaker::Unset,
                has_updates: false,
            }),
            !s.full(),
    {
        TaskSpawner { new_tasks: Vec::new(), shared: Shared::new() }
    }

    /// Whether the spawner can take no further task.
    pub open spec fn full(&self) -> bool {
        self@.shared.full()
    }

    /// Spawns a task for `effect`. The executor takes the task in with its
    /// next pass and polls it in that pass. Where the spawner is full, the
    /// effect is dropped and the handle names no task.
    pub fn spawn(&mut self, effect: E) -> (handle: TaskHandle)
        ensures
            old(self).full() ==> final(self)@ == old(self)@ && !canonical(handle@),
            !old(self).full() ==> {
                &&& canonical(handle@)
                &&& !old(self)@.shared.tasks.contains_key(handle@)
                &&& final(self)@ == old(self)@.spawned(effect, handle@)
            },
            old(self)@.coalesced() ==> final(self)@.coalesced(),
    {
        proof {
            if old(self)@.coalesced() {
                assert forall|key: u64| !old(self)@.shared.tasks.contains_key(key) implies old(
                    self,
                )@.spawned(effect, key).coalesced() by {
                    lemma_spawn_keeps_coalesced(old(self)@, effect, key);
                }
            }
        }
        match self.shared.allocate() {
            Some(key) => {
                self.new_tasks.push(Task { effect, key });
                self.shared.wake();
                TaskHandle { key }
            },
            None => {
                assert(!canonical(0u64)) by (bit_vector);
                TaskHandle { key: 0 }
            },
        }
    }

    /// Delivers a wake-up to the task that `waker` names. A task that is due
    /// already, new or woken, stays due once.
    pub fn wake(&mut self, waker: Waker)
        ensures
            final(self)@ == (SpawnerView {
                shared: old(self)@.shared.woken(waker@),
                ..old(self)@
            }),
            final(self).full() == old(self).full(),
            old(self)@.coalesced() ==> final(self)@.coalesced(),
    {
        proof {
            if old(self)@.coalesced() {
                lemma_wake_keeps_coalesced(old(self)@, waker@);
            }
        }
        self.shared.wake_task(waker);
    }

    /// Delivers each of the wake-ups in `wakers`, first to last.
    pub fn wake_all(&mut self, wakers: &Vec<Waker>)
        ensures
            final(self)@ == (SpawnerView {
                shared: woken_each(old(self)@.shared, wakers@),
                ..old(self)@
            }),
            final(self).full() == old(self).full(),
            old(self)@.coalesced() ==> final(self)@.coalesced(),
    {
        proof {
            if old(self)@.coalesced() {
                lemma_wake_ups_keep_coalesced(old(self)@, wakers@);
            }
        }
        self.shared.wake_tasks(wakers);
    }

    /// Whether there is anything for the executor to do.
    pub fn has_updates(&self) -> (r: bool)
        ensures
            r == self@.shared.has_updates,
    {
        self.shared.has_updates()
    }

    /// The token to deliver to whoever waits for something to do.
    pub fn notify(&self) -> (w: Option<Waker>)
        ensures
            w == (if self@.shared.has_updates {
                self@.shared.waker.woken()
            } else {
                None
            }),
    {
        self.shared.notify()
    }
}

/// The tasks after those of `new_tasks` were taken in, first to last.
pub open spec fn taken_in<E>(tasks: Map<u64, E>, new_tasks: Seq<Task<E>>) -> Map<u64, E>
    decreases new_tasks.len(),
{
    if new_tasks.len() == 0 {
        tasks
    } else {
        taken_in(tasks, new_tasks.drop_last()).insert(new_tasks.last().key, new_tasks.last().effect)
    }
}

/// The keys of `new_tasks`, in their order.
pub open spec fn keys_of<E>(new_tasks: Seq<Task<E>>) -> Seq<u64> {
    new_tasks.map_values(|t: Task<E>| t.key)
}

/// The context in which the task numbered `key` is polled: its waker names
/// the task.
pub open spec fn context_of(key: u64) -> Context {
    Context::spec_from_waker(Waker::spec_new(key))
}

/// What an [`Executor`] holds: the effects of the tasks that it has taken
/// in, by the number of their key, and the spawner.
pub ghost struct ExecutorView<E> {
    pub tasks: Map<u64, E>,
    pub spawner: SpawnerView<E>,
}

impl<E> ExecutorView<E> {
    /// The executor at the start of a pass: the ready keys are taken, the
    /// mark that there is something to do is cleared, and the new tasks are
    /// taken in.
    pub open spec fn begun(self) -> ExecutorView<E> {
        ExecutorView {
            tasks: taken_in(self.tasks, self.spawner.new_tasks),
            spawner: SpawnerView {
                new_tasks: Seq::empty(),
                shared: SharedView {
                    ready: Seq::empty(),
                    has_updates: false,
                    ..self.spawner.shared
                },
            },
        }
    }

    /// The keys that a pass works through, in its order: the tasks that were
    /// woken since the last pass, then the new ones.
    pub open spec fn order(self) -> Seq<u64> {
        self.spawner.order()
    }
}

/// What a pass does with one key. A key without a task is skipped. A task
/// that was aborted is dropped without a poll. Any other task has its wake
/// mark cleared and is polled once, with a waker that names it; it is dropped
/// if the poll returns ready, and kept as the poll left it otherwise.
pub open spec fn stepped<T, E: Effect<T, E>>(
    pre: ExecutorView<E>,
    pre_data: T,
    key: u64,
    post: ExecutorView<E>,
    post_data: T,
) -> bool {
    if !pre.tasks.contains_key(key) {
        post == pre && post_data == pre_data
    } else if pre.spawner.shared.gone(key) {
        &&& post == ExecutorView {
            tasks: pre.tasks.remove(key),
            spawner: SpawnerView {
                shared: pre.spawner.shared.reset(key).retired(key),
                ..pre.spawner
            },
        }
        &&& post_data == pre_data
    } else {
        exists|effect: E, spawner: SpawnerView<E>, r: Poll<()>|
            {
                &&& #[trigger] E::polled(
                    pre.tasks[key],
                    pre_data,
                    SpawnerView { shared: pre.spawner.shared.reset(key), ..pre.spawner },
                    context_of(key),
                    effect,
                    post_data,
                    spawner,
                    r,
                )
                &&& post == if r is Ready {
                    ExecutorView {
                        tasks: pre.tasks.remove(key),
                        spawner: SpawnerView { shared: spawner.shared.retired(key), ..spawner },
                    }
                } else {
                    ExecutorView { tasks: pre.tasks.insert(key, effect), spawner }
                }
            }
    }
}

/// What a pass does with the keys of `order`, first to last.
pub open spec fn ran<T, E: Effect<T, E>>(
    pre: ExecutorView<E>,
    pre_data: T,
    order: Seq<u64>,
    post: ExecutorView<E>,
    post_data: T,
) -> bool
    decreases order.len(),
{
    if order.len() == 0 {
        post == pre && post_data == pre_data
    } else {
        exists|mid: ExecutorView<E>, mid_data: T|
            {
                &&& ran(pre, pre_data, order.drop_last(), mid, mid_data)
                &&& #[trigger] stepped(mid, mid_data, order.last(), post, post_data)
            }
    }
}

proof fn lemma_ran_push<T, E: Effect<T, E>>(
    pre: ExecutorView<E>,
    pre_data: T,
    order: Seq<u64>,
    mid: ExecutorView<E>,
    mid_data: T,
    key: u64,
    post: ExecutorView<E>,
    post_data: T,
)
    requires
        ran(pre, pre_data, order, mid, mid_data),
        stepped(mid, mid_data, key, post, post_data),
    ensures
        ran(pre, pre_data, order.push(key), post, post_data),
{
    let next = order.push(key);
    assert(next.drop_last() =~= order);
    assert(stepped(mid, mid_data, next.last(), post, post_data));
}

/// Runs tasks: polls each task that is ready, once in each pass, against the
/// state it is handed.
pub struct Executor<E> {
    tasks: HashMap<u64, E>,
    spawner: TaskSpawner<E>,
}

impl<E> View for Executor<E> {
    type V = ExecutorView<E>;

    closed spec fn view(&self) -> ExecutorView<E> {
        ExecutorView { tasks: self.tasks@, spawner: self.spawner@ }
    }
}

impl<E> Executor<E> {
    /// An executor without tasks.
    pub fn new() -> (e: Executor<E>)
        ensures
            e@.tasks == Map::<u64, E>::empty(),
            e@.spawner.new_tasks == Seq::<Task<E>>::empty(),
            e@.spawner.shared == (SharedView {
                tasks: Map::empty(),
                count: 0,
                ready: Seq::empty(),
                waker: SignalWaker::Unset,
                has_updates: false,
            }),
    {
        Executor { tasks: HashMap::new(), spawner: TaskSpawner::new() }
    }

    /// The spawner of this executor: where tasks are spawned, woken and
    /// aborted between two passes.
    pub fn spawner(&mut self) -> (s: &mut TaskSpawner<E>)
        ensures
            s@ == old(self)@.spawner,
            final(self)@ == (ExecutorView { tasks: old(self)@.tasks, spawner: final(s)@ }),
    {
        &mut self.spawner
    }

    /// Runs one pass: takes the keys of the tasks that were woken since the
    /// last pass, takes in the new tasks, and works through both. A task
    /// that wakes itself, or is spawned, during the pass waits for the next
    /// one.
    pub fn update<T>(&mut self, state: &mut T) where E: Effect<T, E>
        ensures
            ran(old(self)@.begun(), *old(state), old(self)@.order(), final(self)@, *final(state)),
    {
        broadcast use group_hash_axioms;

        let mut order = self.spawner.shared.take_ready();
        let mut new_tasks: Vec<Task<E>> = Vec::new();
        core::mem::swap(&mut new_tasks, &mut self.spawner.new_tasks);
        let ghost incoming = new_tasks@;
        // Take in the new tasks, first to last: each is polled in this pass.
        let ghost ready = order@;
        for task in it: new_tasks
            invariant
                it.seq() == incoming,
                self.tasks@ == taken_in(old(self)@.tasks, incoming.take(it.index() as int)),
                order@ == ready + keys_of(incoming.take(it.index() as int)),
                self.spawner@ == old(self)@.begun().spawner,
        {
            proof {
                let n = it.index() as int;
                assert(incoming.take(n + 1).drop_last() =~= incoming.take(n));
                assert(keys_of(incoming.take(n + 1)) =~= keys_of(incoming.take(n)).push(
                    incoming[n].key,
                ));
            }
            order.push(task.key);
            self.tasks.insert(task.key, task.effect);
        }
        proof {
            assert(incoming.take(incoming.len() as int) =~= incoming);
        }
        let ghost begun = self@;
        let mut i: usize = 0;
        while i < order.len()
            invariant
                i <= order.len(),
                ran(begun, *old(state), order@.take(i as int), self@, *state),
            decreases order.len() - i,
        {
            let key = order[i];
            let ghost mid = self@;
            let ghost mid_data = *state;
            match self.tasks.remove(&key) {
                None => {
                    proof {
                        assert(self@.tasks =~= mid.tasks);
                        assert(stepped(mid, mid_data, key, self@, *state));
                    }
                },
                Some(effect) => {
                    let mut effect = effect;
                    // Reset the wake mark, so that a wake-up during the poll
                    // queues the task for the next pass.
                    if self.spawner.shared.begin_poll(key) {
                        self.spawner.shared.retire(key);
                        proof {
                            assert(self@.tasks =~= mid.tasks.remove(key));
                            assert(stepped(mid, mid_data, key, self@, *state));
                        }
                    } else {
                        let cx = Context::from_waker(Waker::new(key));
                        let ghost before = self.spawner@;
                        let r = effect.poll_effect(state, &mut self.spawner, &cx);
                        let ghost polled_effect = effect;
                        let ghost polled_spawner = self.spawner@;
                        proof {
                            assert(E::polled(
                                mid.tasks[key],
                                mid_data,
                                before,
                                context_of(key),
                                polled_effect,
                                *state,
                                polled_spawner,
                                r,
                            ));
                        }
                        if r.is_ready() {
                            self.spawner.shared.retire(key);
                            proof {
                                assert(self@.tasks =~= mid.tasks.remove(key));
                                assert(stepped(mid, mid_data, key, self@, *state));
                            }
                        } else {
                            self.tasks.insert(key, effect);
                            proof {
                                assert(self@.tasks =~= mid.tasks.insert(key, polled_effect));
                                assert(stepped(mid, mid_data, key, self@, *state));
                            }
                        }
                    }
                },
            }
            proof {
                lemma_ran_push(
                    begun,
                    *old(state),
                    order@.take(i as int),
                    mid,
                    mid_data,
                    key,
                    self@,
                    *state,
                );
                assert(order@.take(i + 1) =~= order@.take(i as int).push(key));
            }
            i += 1;
        }
        proof {
            assert(order@.take(i as int) =~= order@);
        }
    }

    /// Runs a pass if there is anything to do. Without anything to do, the
    /// waker of `cx` is stored, to be handed out once there is.
    pub fn poll_update<T>(&mut self, cx: &Context, state: &mut T) -> (r: Poll<()>) where
        E: Effect<T, E>,

        ensures
            old(self)@.spawner.shared.has_updates ==> r == Poll::Ready(()) && ran(
                old(self)@.begun(),
                *old(state),
                old(self)@.order(),
                final(self)@,
                *final(state),
            ),
            !old(self)@.spawner.shared.has_updates ==> {
                &&& r == Poll::<()>::Pending
                &&& *final(state) == *old(state)
                &&& final(self)@ == ExecutorView {
                    spawner: SpawnerView {
                        shared: SharedView {
                            waker: SignalWaker::from_cx_spec(*cx),
                            ..old(self)@.spawner.shared
                        },
                        ..old(self)@.spawner
                    },
                    ..old(self)@
                }
            },
    {
        match self.spawner.shared.poll_updates(cx) {
            Poll::Ready(_) => {
                proof {
                    assert(self@.begun() == old(self)@.begun());
                }
                self.update(state);
                Poll::Ready(())
            },
            Poll::Pending => Poll::Pending,
        }
    }

    /// The number of tasks that the executor has taken in and not dropped.
    pub fn len(&self) -> (n: usize)
        ensures
            n == self@.tasks.len(),
    {
        broadcast use group_hash_axioms;

        self.tasks.len()
    }
}

} // verus!
