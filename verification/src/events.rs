//! Events that are broadcast to whoever registered for them.

use vstd::prelude::*;

use crate::scope::Frame;
use crate::world::{alive, node, notified, same_names, Component, Entity, NodeView, World};

verus! {

/// Whether an event has been dealt with.
#[derive(Clone, Copy, Debug, PartialEq, Eq, Structural)]
pub enum EventState {
    Pending,
    Handled,
}

impl EventState {
    /// Whether the event has been dealt with.
    pub fn is_handled(&self) -> (r: bool)
        ensures
            r == (*self is Handled),
    {
        match self {
            EventState::Handled => true,
            EventState::Pending => false,
        }
    }
}

impl Default for EventState {
    fn default() -> (s: EventState)
        ensures
            s == EventState::Pending,
    {
        EventState::Pending
    }
}

/// A value of a node that listens for events of type `T`.
pub trait Listener<T>: Sized {
    /// What hearing one event may do to the listener, and what the listener
    /// says of the event.
    open spec fn heard(pre: Self, id: Entity, event: T, post: Self, r: EventState) -> bool {
        true
    }

    /// Hears an event that reached the node named `id`.
    fn on_event(&mut self, id: Entity, event: &T) -> (r: EventState)
        ensures
            Self::heard(*old(self), id, *event, *final(self), r),
    ;
}

/// What sending `event` to the node named `id` does. A node that is gone
/// hears nothing. Else the listener that the node holds as `kind` hears the
/// event first; if it does not deal with it, the event goes on to the
/// ordered children of the node, first to last, and down from each of them,
/// until a listener deals with it.
pub open spec fn sent<V: Listener<T>, T>(
    w: Seq<NodeView<V>>,
    id: Entity,
    kind: Component,
    event: T,
    post: Seq<NodeView<V>>,
    r: EventState,
) -> bool
    decreases u64::MAX - id.id, 1nat, 0nat,
{
    if !alive(w, id.id) {
        post == w && r == EventState::Pending
    } else {
        exists|mid: Seq<NodeView<V>>, said: Option<EventState>|
            {
                &&& #[trigger] notified(w, id, kind, event, mid, said)
                &&& if said == Some(EventState::Handled) {
                    post == mid && r == EventState::Handled
                } else {
                    sent_down(mid, id, children_of(mid, id), kind, event, post, r)
                }
            }
    }
}

/// The ordered children of the node named `id`: none where the node is gone.
pub open spec fn children_of<V>(w: Seq<NodeView<V>>, id: Entity) -> Seq<Entity> {
    if alive(w, id.id) {
        node(w, id.id).children
    } else {
        Seq::empty()
    }
}

/// What sending `event` to each of `children` does where none of them and
/// nothing below them deals with it. A child that was not made after
/// `parent` is passed over. Sending changes listeners alone: the graph holds
/// the same nodes all along.
pub open spec fn passed<V: Listener<T>, T>(
    w: Seq<NodeView<V>>,
    parent: Entity,
    children: Seq<Entity>,
    kind: Component,
    event: T,
    post: Seq<NodeView<V>>,
) -> bool
    decreases u64::MAX - parent.id, 0nat, children.len(),
{
    if children.len() == 0 {
        post == w
    } else {
        exists|mid: Seq<NodeView<V>>|
            {
                &&& #[trigger] same_names(w, mid)
                &&& passed(w, parent, children.drop_last(), kind, event, mid)
                &&& if children.last().id > parent.id {
                    sent(mid, children.last(), kind, event, post, EventState::Pending)
                } else {
                    post == mid
                }
            }
    }
}

/// What sending `event` to `children`, first to last, does: the first child
/// that deals with the event, itself or below, ends the sending.
pub open spec fn sent_down<V: Listener<T>, T>(
    w: Seq<NodeView<V>>,
    parent: Entity,
    children: Seq<Entity>,
    kind: Component,
    event: T,
    post: Seq<NodeView<V>>,
    r: EventState,
) -> bool
    decreases u64::MAX - parent.id, 0nat, children.len() + 1,
{
    match r {
        EventState::Pending => passed(w, parent, children, kind, event, post),
        EventState::Handled => exists|i: int, mid: Seq<NodeView<V>>|
            #![trigger children[i], same_names(w, mid)]
            {
                &&& 0 <= i < children.len()
                &&& children[i].id > parent.id
                &&& same_names(w, mid)
                &&& passed(w, parent, children.take(i), kind, event, mid)
                &&& sent(mid, children[i], kind, event, post, EventState::Handled)
            },
    }
}

/// Sends an event down the tree from the node named `id`, depth first, and
/// says whether a listener dealt with it: see [`sent`].
#[verifier::loop_isolation(false)]
pub fn send_event<V: Listener<T>, T>(
    world: &mut World<V>,
    id: Entity,
    kind: Component,
    event: &T,
) -> (r: EventState)
    ensures
        sent(old(world)@, id, kind, *event, final(world)@, r),
        same_names(old(world)@, final(world)@),
        old(world).wf() ==> final(world).wf(),
    decreases u64::MAX - id.id,
{
    if !world.is_alive(id) {
        return EventState::Pending;
    }
    let said = world.notify(id, kind, event);
    let ghost heard = world@;
    match said {
        Some(EventState::Handled) => {
            proof {
                assert(notified(old(world)@, id, kind, *event, heard, said));
            }
            return EventState::Handled;
        },
        _ => {},
    }
    let children = world.children(id);
    let mut i: usize = 0;
    while i < children.len()
        invariant
            i <= children.len(),
            children@ == children_of(heard, id),
            passed(heard, id, children@.take(i as int), kind, *event, world@),
            same_names(heard, world@),
            same_names(old(world)@, heard),
            old(world).wf() ==> world.wf(),
        decreases children.len() - i,
    {
        let child = children[i];
        let ghost mid = world@;
        proof {
            assert(children@.take(i + 1).drop_last() =~= children@.take(i as int));
        }
        if child.id > id.id {
            let r = send_event(world, child, kind, event);
            if r.is_handled() {
                proof {
                    assert(notified(old(world)@, id, kind, *event, heard, said));
                    assert(passed(heard, id, children@.take(i as int), kind, *event, mid));
                    assert(same_names(heard, mid));
                    assert(sent_down(heard, id, children@, kind, *event, world@, r));
                }
                return EventState::Handled;
            }
            proof {
                assert(passed(heard, id, children@.take(i + 1).drop_last(), kind, *event, mid));
                assert(same_names(heard, mid));
            }
        } else {
            proof {
                assert(passed(heard, id, children@.take(i + 1).drop_last(), kind, *event, mid));
                assert(same_names(heard, mid));
            }
        }
        i += 1;
    }
    proof {
        assert(children@.take(i as int) =~= children@);
        assert(notified(old(world)@, id, kind, *event, heard, said));
    }
    EventState::Pending
}

/// Something that handles events of type `T` against a context of type `C`.
pub trait EventHandler<C, T>: Sized {
    /// What handling one event may do to the handler and to the context, and
    /// whether the handler stays registered.
    open spec fn handled(
        pre: Self,
        pre_ctx: C,
        event: T,
        post: Self,
        post_ctx: C,
        keep: bool,
    ) -> bool {
        true
    }

    /// Handles an event. Returns true if the handler is to be kept, false if
    /// it is to be dropped.
    fn on_event(&mut self, ctx: &mut C, event: &T) -> (keep: bool)
        ensures
            Self::handled(*old(self), *old(ctx), *event, *final(self), *final(ctx), keep),
    ;
}

/// A handler that is tied to a node: it handles events while the node is
/// alive, and is dropped with the first event after the node is gone.
pub struct ScopedEventHandler<H> {
    handler: H,
    id: Entity,
}

impl<H> ScopedEventHandler<H> {
    pub closed spec fn spec_new(handler: H, id: Entity) -> ScopedEventHandler<H> {
        ScopedEventHandler { handler, id }
    }

    /// The handler `handler`, tied to the node named `id`.
    pub fn new(handler: H, id: Entity) -> (h: ScopedEventHandler<H>)
        ensures
            h.spec_handler() == handler,
            h.spec_id() == id,
            h == ScopedEventHandler::spec_new(handler, id),
    {
        ScopedEventHandler { handler, id }
    }

    /// The handler that handles the events.
    pub closed spec fn spec_handler(&self) -> H {
        self.handler
    }

    /// The name of the node.
    pub closed spec fn spec_id(&self) -> Entity {
        self.id
    }
}

impl<V, T, H: EventHandler<Frame<V>, T>> EventHandler<Frame<V>, T> for ScopedEventHandler<H> {
    /// While the node is alive, the event goes to the handler, and the
    /// registration is kept whatever the handler says. Once the node is
    /// gone, nothing is touched and the registration is dropped.
    open spec fn handled(
        pre: Self,
        pre_ctx: Frame<V>,
        event: T,
        post: Self,
        post_ctx: Frame<V>,
        keep: bool,
    ) -> bool {
        &&& post.spec_id() == pre.spec_id()
        &&& keep == alive(pre_ctx.world@, pre.spec_id().id)
        &&& if keep {
            exists|inner: bool| #[trigger]
                H::handled(pre.spec_handler(), pre_ctx, event, post.spec_handler(), post_ctx, inner)
        } else {
            post.spec_handler() == pre.spec_handler() && post_ctx == pre_ctx
        }
    }

    fn on_event(&mut self, ctx: &mut Frame<V>, event: &T) -> (keep: bool) {
        if ctx.world.is_alive(self.id) {
            let inner = self.handler.on_event(ctx, event);
            proof {
                assert(H::handled(
                    old(self).spec_handler(),
                    *old(ctx),
                    *event,
                    self.spec_handler(),
                    *ctx,
                    inner,
                ));
            }
            true
        } else {
            false
        }
    }
}

/// The handlers `kept`, with `handler` behind them if it asks to be kept.
pub open spec fn retained<H>(kept: Seq<H>, handler: H, keep: bool) -> Seq<H> {
    if keep {
        kept.push(handler)
    } else {
        kept
    }
}

/// What emitting `event` to `pre`, first to last, does: each handler handles
/// the event, against the context as the handlers before it left it, and
/// those that ask to be kept stay, in their order.
pub open spec fn emitted<C, T, H: EventHandler<C, T>>(
    pre: Seq<H>,
    pre_ctx: C,
    event: T,
    post: Seq<H>,
    post_ctx: C,
) -> bool
    decreases pre.len(),
{
    if pre.len() == 0 {
        post == Seq::<H>::empty() && post_ctx == pre_ctx
    } else {
        exists|mid: Seq<H>, mid_ctx: C, handler: H, keep: bool|
            {
                &&& emitted(pre.drop_last(), pre_ctx, event, mid, mid_ctx)
                &&& #[trigger] H::handled(pre.last(), mid_ctx, event, handler, post_ctx, keep)
                &&& post == #[trigger] retained(mid, handler, keep)
            }
    }
}

proof fn lemma_emitted_next<C, T, H: EventHandler<C, T>>(
    pre: Seq<H>,
    pre_ctx: C,
    event: T,
    mid: Seq<H>,
    mid_ctx: C,
    next: H,
    handler: H,
    post_ctx: C,
    keep: bool,
)
    requires
        emitted(pre, pre_ctx, event, mid, mid_ctx),
        H::handled(next, mid_ctx, event, handler, post_ctx, keep),
    ensures
        emitted(pre.push(next), pre_ctx, event, retained(mid, handler, keep), post_ctx),
{
    let all = pre.push(next);
    assert(all.drop_last() =~= pre);
    assert(H::handled(all.last(), mid_ctx, event, handler, post_ctx, keep));
}

/// The handlers for events of one type, in the order of registration.
pub struct EventDispatcher<H> {
    handlers: Vec<H>,
}

impl<H> View for EventDispatcher<H> {
    type V = Seq<H>;

    closed spec fn view(&self) -> Seq<H> {
        self.handlers@
    }
}

impl<H> EventDispatcher<H> {
    /// A dispatcher without handlers.
    pub fn new() -> (d: EventDispatcher<H>)
        ensures
            d@ == Seq::<H>::empty(),
    {
        EventDispatcher { handlers: Vec::new() }
    }

    /// The number of registered handlers.
    pub fn len(&self) -> (n: usize)
        ensures
            n == self@.len(),
    {
        self.handlers.len()
    }

    /// Registers `handler` behind the others.
    pub fn register(&mut self, handler: H)
        ensures
            final(self)@ == old(self)@.push(handler),
    {
        self.handlers.push(handler);
    }

    /// Emits an event to every handler, in the order of registration, and
    /// drops the handlers that do not ask to be kept.
    pub fn emit<C, T>(&mut self, ctx: &mut C, event: &T) where H: EventHandler<C, T>
        ensures
            emitted(old(self)@, *old(ctx), *event, final(self)@, *final(ctx)),
    {
        let mut handlers: Vec<H> = Vec::new();
        core::mem::swap(&mut handlers, &mut self.handlers);
        let ghost all = handlers@;
        for handler in it: handlers
            invariant
                it.seq() == all,
                emitted(all.take(it.index() as int), *old(ctx), *event, self@, *ctx),
        {
            let ghost n = it.index() as int;
            let ghost mid = self@;
            let ghost mid_ctx = *ctx;
            let mut handler = handler;
            let ghost next = handler;
            let keep = handler.on_event(ctx, event);
            let ghost done = handler;
            if keep {
                self.handlers.push(handler);
            }
            proof {
                lemma_emitted_next(
                    all.take(n),
                    *old(ctx),
                    *event,
                    mid,
                    mid_ctx,
                    next,
                    done,
                    *ctx,
                    keep,
                );
                assert(all.take(n + 1) =~= all.take(n).push(next));
            }
        }
        proof {
            assert(all.take(all.len() as int) =~= all);
        }
    }
}

} // verus!
