//! Widgets that are made of other widgets, or of widgets that arrive later.

use vstd::prelude::*;

use crate::effect::executor::{SpawnerView, TaskHandle, TaskSpawner};
use crate::effect::{FutureEffect, Handler, StreamEffect};
use crate::poll::{Future, Stream};
use crate::signal::SignalStream;
use crate::scope::{
    attached, detached, effect_created, flushed, Frame, Scope, ScopeView, Widget, Wrap,
};
use crate::world::{alive, node, Entity, NodeView};

verus! {

/// What attaching the widgets of `widgets`, first to last, below the node of
/// a scope does, and the names of the children that were made.
pub open spec fn attached_all<V, E, W: Widget<V, E>>(
    widgets: Seq<W>,
    scope: ScopeView<V>,
    pre: Frame<V>,
    pre_spawner: SpawnerView<E>,
    ids: Seq<Entity>,
    post: Frame<V>,
    post_spawner: SpawnerView<E>,
) -> bool
    decreases widgets.len(),
{
    if widgets.len() == 0 {
        ids == Seq::<Entity>::empty() && post == pre && post_spawner == pre_spawner
    } else {
        exists|
            mid_ids: Seq<Entity>,
            mid: Frame<V>,
            mid_spawner: SpawnerView<E>,
            mid_scope: ScopeView<V>,
            r: Option<Entity>,
        |
            {
                &&& attached_all(
                    widgets.drop_last(),
                    scope,
                    pre,
                    pre_spawner,
                    mid_ids,
                    mid,
                    mid_spawner,
                )
                &&& mid_scope == if widgets.len() == 1 {
                    scope
                } else {
                    ScopeView { data: Seq::empty(), ..scope }
                }
                &&& #[trigger] attached(
                    widgets.last(),
                    mid_scope,
                    mid,
                    mid_spawner,
                    r,
                    post,
                    post_spawner,
                )
                &&& ids == #[trigger] with_id(mid_ids, r)
            }
    }
}

/// The names `ids`, with the name of `r` behind them if there is one.
pub open spec fn with_id(ids: Seq<Entity>, r: Option<Entity>) -> Seq<Entity> {
    match r {
        Some(id) => ids.push(id),
        None => ids,
    }
}

/// A widget that mounts each of its widgets as a child, in their order.
pub struct Container<W>(pub Vec<W>);

impl<V, E, W: Widget<V, E>> Widget<V, E> for Container<W> {
    /// Each widget is attached below the node, first to last, and the
    /// children that were made become the ordered children of the node.
    open spec fn mounted(
        self,
        pre_scope: ScopeView<V>,
        pre_frame: Frame<V>,
        pre_spawner: SpawnerView<E>,
        post_scope: ScopeView<V>,
        post_frame: Frame<V>,
        post_spawner: SpawnerView<E>,
    ) -> bool {
        &&& post_scope.id == pre_scope.id
        &&& post_scope.data == if self.0@.len() == 0 {
            pre_scope.data
        } else {
            Seq::empty()
        }
        &&& exists|ids: Seq<Entity>, mid: Frame<V>|
            {
                &&& #[trigger] attached_all(
                    self.0@,
                    pre_scope,
                    pre_frame,
                    pre_spawner,
                    ids,
                    mid,
                    post_spawner,
                )
                &&& post_frame.cleanups == mid.cleanups
                &&& post_frame.world@ == with_children(mid.world@, pre_scope.id.id, ids)
            }
    }

    fn mount(self, scope: &mut Scope<V>, frame: &mut Frame<V>, spawner: &mut TaskSpawner<E>) {
        let mut ids: Vec<Entity> = Vec::new();
        let ghost widgets = self.0@;
        for widget in it: self.0
            invariant
                it.seq() == widgets,
                scope@.id == old(scope)@.id,
                old(frame).world.wf() ==> frame.world.wf(),
                scope@.data == if it.index() == 0 {
                    old(scope)@.data
                } else {
                    Seq::empty()
                },
                attached_all(
                    widgets.take(it.index() as int),
                    old(scope)@,
                    *old(frame),
                    old(spawner)@,
                    ids@,
                    *frame,
                    spawner@,
                ),
        {
            let ghost n = it.index() as int;
            let ghost mid_ids = ids@;
            let ghost mid = *frame;
            let ghost mid_spawner = spawner@;
            let ghost mid_scope = scope@;
            let r = scope.attach(frame, spawner, widget);
            match r {
                Some(id) => {
                    ids.push(id);
                },
                None => {},
            }
            proof {
                let next = widgets.take(n + 1);
                assert(next.drop_last() =~= widgets.take(n));
                assert(next.last() == widget);
                assert(attached(next.last(), mid_scope, mid, mid_spawner, r, *frame, spawner@));
                assert(ids@ == with_id(mid_ids, r));
                if n > 0 {
                    assert(mid_scope == ScopeView { data: Seq::empty(), ..old(scope)@ });
                }
            }
        }
        proof {
            assert(widgets.take(widgets.len() as int) =~= widgets);
        }
        frame.world.set_children(scope.id(), ids);
    }
}

/// The graph after `children` became the ordered children of the node named
/// `id`.
pub open spec fn with_children<V>(w: Seq<NodeView<V>>, id: u64, children: Seq<Entity>) -> Seq<
    NodeView<V>,
> {
    if alive(w, id) {
        w.update(crate::world::index_of(w, id), NodeView { children, ..node(w, id) })
    } else {
        w
    }
}

/// The handler of an [`AsyncWidget`]: it mounts the widget that arrives in
/// the scope of its node, if the node is still alive.
pub struct MountIn {
    id: Entity,
}

impl MountIn {
    /// The name of the node.
    pub closed spec fn spec_id(&self) -> Entity {
        self.id
    }
}

impl<V, E, W: Widget<V, E>> Handler<Frame<V>, E, W> for MountIn {
    /// While the node is alive, the widget is mounted in a scope of the
    /// node, and what it wrote is flushed. Once the node is gone, nothing
    /// happens.
    open spec fn handled(
        pre: Self,
        pre_data: Frame<V>,
        pre_spawner: SpawnerView<E>,
        item: W,
        post: Self,
        post_data: Frame<V>,
        post_spawner: SpawnerView<E>,
    ) -> bool {
        &&& post == pre
        &&& pre_data.world.wf() ==> post_data.world.wf()
        &&& if alive(pre_data.world@, pre.spec_id().id) {
            exists|mounted_scope: ScopeView<V>, mounted_frame: Frame<V>|
                {
                    &&& #[trigger] item.mounted(
                        ScopeView { id: pre.spec_id(), data: Seq::empty() },
                        pre_data,
                        pre_spawner,
                        mounted_scope,
                        mounted_frame,
                        post_spawner,
                    )
                    &&& post_data.cleanups == mounted_frame.cleanups
                    &&& post_data.world@ == flushed(
                        mounted_frame.world@,
                        mounted_scope.id.id,
                        mounted_scope.data,
                    )
                }
        } else {
            post_data == pre_data && post_spawner == pre_spawner
        }
    }

    fn handle(&mut self, data: &mut Frame<V>, spawner: &mut TaskSpawner<E>, item: W) {
        match Scope::try_from_id(data, self.id) {
            Some(scope) => {
                let mut scope = scope;
                item.mount(&mut scope, data, spawner);
                let ghost mounted_scope = scope@;
                let ghost mounted_frame = *data;
                scope.close(data);
                proof {
                    assert(item.mounted(
                        ScopeView { id: self.spec_id(), data: Seq::empty() },
                        *old(data),
                        old(spawner)@,
                        mounted_scope,
                        mounted_frame,
                        spawner@,
                    ));
                }
            },
            None => {},
        }
    }
}

/// A widget that arrives later: when the future resolves, its widget is
/// mounted in the place of this one.
pub struct AsyncWidget<F>(pub F);

impl<V, E, W, F> Widget<V, E> for AsyncWidget<F> where
    F: Future<Frame<V>, Output = W>,
    W: Widget<V, E>,
    E: Wrap<FutureEffect<F, MountIn>>,
 {
    /// The node gets an effect that waits for the future and then mounts the
    /// widget it resolved to.
    open spec fn mounted(
        self,
        pre_scope: ScopeView<V>,
        pre_frame: Frame<V>,
        pre_spawner: SpawnerView<E>,
        post_scope: ScopeView<V>,
        post_frame: Frame<V>,
        post_spawner: SpawnerView<E>,
    ) -> bool {
        exists|effect: FutureEffect<F, MountIn>, full: bool, handle: TaskHandle|
            {
                &&& effect.spec_fut() == self.0
                &&& effect.spec_func() matches Some(func) && func.spec_id() == pre_scope.id
                &&& #[trigger] effect_created(
                    effect,
                    pre_scope,
                    pre_frame,
                    pre_spawner,
                    full,
                    handle,
                    post_scope,
                    post_frame,
                    post_spawner,
                )
            }
    }

    fn mount(self, scope: &mut Scope<V>, frame: &mut Frame<V>, spawner: &mut TaskSpawner<E>) {
        let effect = FutureEffect::new(self.0, MountIn { id: scope.id() });
        let ghost made = effect;
        let ghost full = spawner.full();
        let handle = scope.create_effect(frame, spawner, effect);
        proof {
            assert(effect_created(
                made,
                old(scope)@,
                *old(frame),
                old(spawner)@,
                full,
                handle,
                scope@,
                *frame,
                spawner@,
            ));
        }
    }
}

/// The handler of a [`Streaming`] widget: it mounts each widget that arrives
/// as a child of its node, in the place of the one before.
pub struct Remount {
    id: Entity,
    child: Option<Entity>,
}

impl Remount {
    /// The name of the node.
    pub closed spec fn spec_id(&self) -> Entity {
        self.id
    }

    /// The child that is mounted at present.
    pub closed spec fn spec_child(&self) -> Option<Entity> {
        self.child
    }
}

impl<V, E, W: Widget<V, E>> Handler<Frame<V>, E, W> for Remount {
    /// While the node is alive, the child that was mounted for the widget
    /// before, if it is still a child of the node, is detached, and the
    /// widget is attached in its place. Once the node is gone, nothing
    /// happens.
    open spec fn handled(
        pre: Self,
        pre_data: Frame<V>,
        pre_spawner: SpawnerView<E>,
        item: W,
        post: Self,
        post_data: Frame<V>,
        post_spawner: SpawnerView<E>,
    ) -> bool {
        &&& post.spec_id() == pre.spec_id()
        &&& pre_data.world.wf() ==> post_data.world.wf()
        &&& if alive(pre_data.world@, pre.spec_id().id) {
            exists|mid: Frame<V>, mid_spawner: SpawnerView<E>|
                {
                    &&& if pre.spec_child() is Some && alive(
                        pre_data.world@,
                        pre.spec_child()->0.id,
                    ) && node(pre_data.world@, pre.spec_child()->0.id).parent == Some(
                        pre.spec_id().id,
                    ) {
                        pre_data.world.wf() ==> detached(
                            pre_data,
                            pre_spawner,
                            pre.spec_child()->0,
                            mid,
                            mid_spawner,
                        )
                    } else {
                        mid == pre_data && mid_spawner == pre_spawner
                    }
                    &&& #[trigger] attached(
                        item,
                        ScopeView { id: pre.spec_id(), data: Seq::empty() },
                        mid,
                        mid_spawner,
                        post.spec_child(),
                        post_data,
                        post_spawner,
                    )
                }
        } else {
            post == pre && post_data == pre_data && post_spawner == pre_spawner
        }
    }

    fn handle(&mut self, data: &mut Frame<V>, spawner: &mut TaskSpawner<E>, item: W) {
        match Scope::try_from_id(data, self.id) {
            Some(scope) => {
                let mut scope = scope;
                match self.child.take() {
                    Some(old_child) => {
                        if data.world.has_parent(old_child, self.id) {
                            scope.detach(data, spawner, old_child);
                        }
                    },
                    None => {},
                }
                let ghost mid = *data;
                let ghost mid_spawner = spawner@;
                self.child = scope.attach(data, spawner, item);
                proof {
                    assert(attached(
                        item,
                        ScopeView { id: self.spec_id(), data: Seq::empty() },
                        mid,
                        mid_spawner,
                        self.spec_child(),
                        *data,
                        spawner@,
                    ));
                }
            },
            None => {},
        }
    }
}

/// A widget that is replaced over time: each widget of the stream is mounted
/// as a child, in the place of the one before.
pub struct Streaming<S>(pub S);

impl<S> Streaming<SignalStream<S>> {
    /// The widget that shows, at each time, the widget that `signal` yielded
    /// last.
    pub fn from_signal(signal: S) -> (w: Streaming<SignalStream<S>>)
        ensures
            w.0.spec_signal() == signal,
    {
        Streaming(SignalStream::new(signal))
    }
}

impl<V, E, S> Widget<V, E> for Streaming<S> where
    S: Stream<Frame<V>>,
    S::Item: Widget<V, E>,
    E: Wrap<StreamEffect<S, Remount>>,
 {
    /// The node gets an effect that mounts each widget of the stream.
    open spec fn mounted(
        self,
        pre_scope: ScopeView<V>,
        pre_frame: Frame<V>,
        pre_spawner: SpawnerView<E>,
        post_scope: ScopeView<V>,
        post_frame: Frame<V>,
        post_spawner: SpawnerView<E>,
    ) -> bool {
        exists|effect: StreamEffect<S, Remount>, full: bool, handle: TaskHandle|
            {
                &&& effect.spec_stream() == self.0
                &&& effect.spec_func().spec_id() == pre_scope.id
                &&& effect.spec_func().spec_child() is None
                &&& #[trigger] effect_created(
                    effect,
                    pre_scope,
                    pre_frame,
                    pre_spawner,
                    full,
                    handle,
                    post_scope,
                    post_frame,
                    post_spawner,
                )
            }
    }

    fn mount(self, scope: &mut Scope<V>, frame: &mut Frame<V>, spawner: &mut TaskSpawner<E>) {
        let effect = StreamEffect::new(self.0, Remount { id: scope.id(), child: None });
        let ghost made = effect;
        let ghost full = spawner.full();
        let handle = scope.create_effect(frame, spawner, effect);
        proof {
            assert(effect_created(
                made,
                old(scope)@,
                *old(frame),
                old(spawner)@,
                full,
                handle,
                scope@,
                *frame,
                spawner@,
            ));
        }
    }
}

} // verus!
