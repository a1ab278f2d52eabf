//! Scopes: the view that a widget has of its node, and what ties the life of
//! effects to the life of nodes.

use vstd::prelude::*;

use crate::effect::executor::{SharedView, SpawnerView, TaskHandle, TaskSpawner};
use crate::effect::{Effect, FutureEffect, SignalEffect, StreamEffect};
use crate::events::{EventDispatcher, ScopedEventHandler};
use crate::poll::{Context, Poll};
use crate::signal::hold::borrowed;
use crate::world::{
    alive, cleanups_of, doomed, kept, node, tasks_of, value_of, written, Cleanup, Component,
    Entity, NodeView, World, Write,
};

verus! {

/// The state of the user interface: the scene graph, and the cleanups of
/// nodes that have gone away, which wait to be run.
pub struct Frame<V> {
    pub world: World<V>,
    pub cleanups: Vec<Cleanup>,
}

impl<V> Frame<V> {
    /// A frame around `world`, with no cleanup waiting.
    pub fn new(world: World<V>) -> (f: Frame<V>)
        ensures
            f.world == world,
            f.cleanups@ == Seq::<Cleanup>::empty(),
    {
        Frame { world, cleanups: Vec::new() }
    }

    /// Makes a node without a parent and mounts `widget` in it. Returns the
    /// name of the node; `None`, with nothing changed, once the graph can
    /// make no further node.
    pub fn spawn_root<E, W: Widget<V, E>>(
        &mut self,
        spawner: &mut TaskSpawner<E>,
        widget: W,
    ) -> (r: Option<Entity>)
        ensures
            r is None <==> old(self).world.full(),
            r is None ==> *final(self) == *old(self) && final(spawner)@ == old(spawner)@,
            r is Some ==> r->0.id == old(self).world.made(),
            old(self).world.wf() ==> final(self).world.wf(),
            r is Some ==> exists|began: Frame<V>, mounted_scope: ScopeView<V>, mounted: Frame<V>|
                {
                    &&& began.cleanups == old(self).cleanups
                    &&& began.world.made() == old(self).world.made() + 1
                    &&& old(self).world.wf() ==> began.world.wf()
                    &&& began.world@ == old(self).world@.push(
                        NodeView {
                            id: r->0.id,
                            parent: None,
                            components: Seq::empty(),
                            children: Seq::empty(),
                            cleanups: Seq::empty(),
                            tasks: Seq::empty(),
                        },
                    )
                    &&& #[trigger] widget.mounted(
                        ScopeView { id: r->0, data: Seq::empty() },
                        began,
                        old(spawner)@,
                        mounted_scope,
                        mounted,
                        final(spawner)@,
                    )
                    &&& final(self).cleanups == mounted.cleanups
                    &&& final(self).world@ == flushed(
                        mounted.world@,
                        mounted_scope.id.id,
                        mounted_scope.data,
                    )
                },
    {
        if self.world.is_full() {
            return None;
        }
        match Scope::spawn(self) {
            Some(scope) => {
                let mut scope = scope;
                let id = scope.id();
                let ghost began = *self;
                widget.mount(&mut scope, self, spawner);
                let ghost mounted_scope = scope@;
                let ghost mounted = *self;
                scope.close(self);
                proof {
                    assert(widget.mounted(
                        ScopeView { id, data: Seq::empty() },
                        began,
                        old(spawner)@,
                        mounted_scope,
                        mounted,
                        spawner@,
                    ));
                }
                Some(id)
            },
            None => None,
        }
    }

    /// Takes the cleanups that wait to be run, in the order in which to run
    /// them. Each is handed out once.
    pub fn take_cleanups(&mut self) -> (r: Vec<Cleanup>)
        ensures
            r@ == old(self).cleanups@,
            final(self).cleanups@ == Seq::<Cleanup>::empty(),
            final(self).world == old(self).world,
    {
        let mut r: Vec<Cleanup> = Vec::new();
        core::mem::swap(&mut r, &mut self.cleanups);
        r
    }
}

/// The key of a context value: a component that is looked up along the chain
/// of parents.
#[derive(Clone, Copy, Debug)]
pub struct ContextKey {
    component: Component,
}

impl ContextKey {
    pub closed spec fn spec_into_raw(self) -> Component {
        self.component
    }

    /// The key that stands for `component`.
    pub fn from_raw(component: Component) -> (k: ContextKey)
        ensures
            k.into_raw() == component,
    {
        ContextKey { component }
    }

    /// The component that the key stands for.
    #[verifier::when_used_as_spec(spec_into_raw)]
    pub fn into_raw(self) -> (c: Component)
        ensures
            c == self.into_raw(),
    {
        self.component
    }

    /// The name of the component that the key stands for.
    pub fn name(&self) -> (n: &'static str)
        ensures
            n == self.into_raw().name(),
    {
        self.component.name()
    }
}

/// The value of `component` that the node named `id` sees: its own, or that
/// of the nearest node above it that has one.
pub open spec fn provided<V>(w: Seq<NodeView<V>>, id: u64, component: Component) -> Option<V>
    decreases id,
{
    if !alive(w, id) {
        None
    } else if value_of(node(w, id).components, component) is Some {
        value_of(node(w, id).components, component)
    } else {
        match node(w, id).parent {
            Some(p) => if p < id {
                provided(w, p, component)
            } else {
                None
            },
            None => None,
        }
    }
}

/// The shared state after each of the tasks of `handles` was aborted.
pub open spec fn aborted_each(s: SharedView, handles: Seq<TaskHandle>) -> SharedView
    decreases handles.len(),
{
    if handles.len() == 0 {
        s
    } else {
        aborted_each(s, handles.drop_last()).aborted(handles.last()@)
    }
}

/// The view that a widget has of its node: the node's name, and the writes
/// to the node that wait to be flushed.
pub struct Scope<V> {
    id: Entity,
    data: Vec<Write<V>>,
}

/// What a [`Scope`] holds.
pub ghost struct ScopeView<V> {
    pub id: Entity,
    pub data: Seq<Write<V>>,
}

impl<V> View for Scope<V> {
    type V = ScopeView<V>;

    closed spec fn view(&self) -> ScopeView<V> {
        ScopeView { id: self.id, data: self.data@ }
    }
}

/// The graph after `writes` were flushed to the node named `id`: unchanged
/// where the node is gone.
pub open spec fn flushed<V>(w: Seq<NodeView<V>>, id: u64, writes: Seq<Write<V>>) -> Seq<
    NodeView<V>,
> {
    if alive(w, id) {
        w.update(
            crate::world::index_of(w, id),
            NodeView { components: written(node(w, id).components, writes), ..node(w, id) },
        )
    } else {
        w
    }
}

impl<V> Scope<V> {
    /// Makes a node without components and returns the scope of it; `None`
    /// once the graph can make no further node.
    pub fn spawn(frame: &mut Frame<V>) -> (r: Option<Scope<V>>)
        ensures
            r is None <==> old(frame).world.full(),
            match r {
                Some(s) => {
                    &&& s@.data == Seq::<Write<V>>::empty()
                    &&& s@.id.id == old(frame).world.made()
                    &&& final(frame).world.made() == old(frame).world.made() + 1
                    &&& old(frame).world.wf() ==> !alive(old(frame).world@, s@.id.id)
                    &&& final(frame).world@ == old(frame).world@.push(
                        NodeView {
                            id: s@.id.id,
                            parent: None,
                            components: Seq::empty(),
                            children: Seq::empty(),
                            cleanups: Seq::empty(),
                            tasks: Seq::empty(),
                        },
                    )
                },
                None => final(frame).world@ == old(frame).world@ && final(frame).world.made()
                    == old(frame).world.made(),
            },
            final(frame).cleanups == old(frame).cleanups,
            old(frame).world.wf() ==> final(frame).world.wf(),
    {
        match frame.world.spawn(None) {
            Some(id) => Some(Scope { id, data: Vec::new() }),
            None => None,
        }
    }

    /// The scope of the node named `id`, if the node is alive.
    pub fn try_from_id(frame: &Frame<V>, id: Entity) -> (r: Option<Scope<V>>)
        ensures
            r is Some <==> alive(frame.world@, id.id),
            r is Some ==> r->0@ == (ScopeView::<V> { id, data: Seq::empty() }),
    {
        if !frame.world.is_alive(id) {
            return None;
        }
        Some(Scope { id, data: Vec::new() })
    }

    /// The name of the scope's node.
    pub fn id(&self) -> (id: Entity)
        ensures
            id == self@.id,
    {
        self.id
    }

    /// Sets a component of the node. The write waits for the next flush.
    pub fn set(&mut self, component: Component, value: V)
        ensures
            final(self)@ == (ScopeView {
                data: old(self)@.data.push(Write::Put(component, value)),
                ..old(self)@
            }),
    {
        self.data.push(Write::Put(component, value));
    }

    /// Sets a component of the node to the default value. The write waits
    /// for the next flush.
    pub fn set_default(&mut self, component: Component) where V: Default
        ensures
            final(self)@.id == old(self)@.id,
            exists|value: V| final(self)@.data == old(self)@.data.push(Write::Put(component, value)),
    {
        let value = V::default();
        self.set(component, value);
        proof {
            assert(self@.data == old(self)@.data.push(Write::Put(component, value)));
        }
    }

    /// Removes a component of the node. The write waits for the next flush.
    pub fn remove(&mut self, component: Component)
        ensures
            final(self)@ == (ScopeView {
                data: old(self)@.data.push(Write::Remove(component)),
                ..old(self)@
            }),
    {
        self.data.push(Write::Remove(component));
    }

    /// Provides a context value to the node and to every node below it that
    /// does not provide its own. The write waits for the next flush.
    pub fn provide_context(&mut self, key: ContextKey, value: V)
        ensures
            final(self)@ == (ScopeView {
                data: old(self)@.data.push(Write::Put(key.into_raw(), value)),
                ..old(self)@
            }),
    {
        self.set(key.into_raw(), value);
    }

    /// Writes the waiting writes to the graph, in the order in which they
    /// were made, all at once. They are dropped where the node is gone.
    pub fn flush(&mut self, frame: &mut Frame<V>)
        ensures
            final(self)@ == (ScopeView { data: Seq::empty(), ..old(self)@ }),
            final(frame).world@ == flushed(old(frame).world@, old(self)@.id.id, old(self)@.data),
            final(frame).cleanups == old(frame).cleanups,
            old(frame).world.wf() ==> final(frame).world.wf(),
            final(frame).world.made() == old(frame).world.made(),
    {
        let mut writes: Vec<Write<V>> = Vec::new();
        core::mem::swap(&mut writes, &mut self.data);
        frame.world.write(self.id, writes);
    }

    /// Gives the scope up: the waiting writes are flushed.
    pub fn close(self, frame: &mut Frame<V>)
        ensures
            final(frame).world@ == flushed(old(frame).world@, self@.id.id, self@.data),
            final(frame).cleanups == old(frame).cleanups,
            old(frame).world.wf() ==> final(frame).world.wf(),
            final(frame).world.made() == old(frame).world.made(),
    {
        let mut scope = self;
        scope.flush(frame);
    }

    /// Registers a cleanup: it is handed out, after those registered before,
    /// when the node goes away. The waiting writes are flushed first.
    pub fn on_cleanup(&mut self, frame: &mut Frame<V>, cleanup: Cleanup)
        ensures
            final(self)@ == (ScopeView { data: Seq::empty(), ..old(self)@ }),
            final(frame).world@ == with_cleanup(
                flushed(old(frame).world@, old(self)@.id.id, old(self)@.data),
                old(self)@.id.id,
                cleanup,
            ),
            final(frame).cleanups == old(frame).cleanups,
            old(frame).world.wf() ==> final(frame).world.wf(),
            final(frame).world.made() == old(frame).world.made(),
    {
        self.flush(frame);
        frame.world.on_cleanup(self.id, cleanup);
    }

    /// The context value that the node sees for `key`: its own, or that of
    /// the nearest node above it that provides one. Writes that wait to be
    /// flushed are not seen.
    pub fn consume_context<'a>(&self, frame: &'a Frame<V>, key: ContextKey) -> (r: Option<&'a V>)
        ensures
            borrowed(r, provided(frame.world@, self@.id.id, key.into_raw())),
    {
        let component = key.into_raw();
        let mut cur = self.id;
        loop
            invariant
                provided(frame.world@, cur.id, component) == provided(
                    frame.world@,
                    self@.id.id,
                    component,
                ),
                component == key.into_raw(),
            decreases cur.id,
        {
            if !frame.world.is_alive(cur) {
                return None;
            }
            match frame.world.get(cur, component) {
                Some(v) => {
                    return Some(v);
                },
                None => {},
            }
            match frame.world.parent(cur) {
                Some(p) => {
                    if p.id < cur.id {
                        cur = p;
                    } else {
                        return None;
                    }
                },
                None => {
                    return None;
                },
            }
        }
    }
}

/// The graph after `cleanup` was registered with the node named `id`.
pub open spec fn with_cleanup<V>(w: Seq<NodeView<V>>, id: u64, cleanup: Cleanup) -> Seq<
    NodeView<V>,
> {
    if alive(w, id) {
        w.update(
            crate::world::index_of(w, id),
            NodeView { cleanups: node(w, id).cleanups.push(cleanup), ..node(w, id) },
        )
    } else {
        w
    }
}

/// The graph after the task of `handle` was handed to the node named `id`.
pub open spec fn with_task<V>(w: Seq<NodeView<V>>, id: u64, handle: TaskHandle) -> Seq<
    NodeView<V>,
> {
    if alive(w, id) {
        w.update(
            crate::world::index_of(w, id),
            NodeView { tasks: node(w, id).tasks.push(handle), ..node(w, id) },
        )
    } else {
        w
    }
}

/// An effect of a node, lifted to the scheduler: it runs while its node is
/// alive, and is finished once the node is gone.
pub struct Lift<X> {
    effect: X,
    id: Entity,
}

impl<X> Lift<X> {
    pub closed spec fn spec_new(effect: X, id: Entity) -> Lift<X> {
        Lift { effect, id }
    }

    /// The effect `effect`, tied to the node named `id`.
    pub fn new(effect: X, id: Entity) -> (l: Lift<X>)
        ensures
            l.spec_effect() == effect,
            l.spec_id() == id,
            l == Lift::spec_new(effect, id),
    {
        Lift { effect, id }
    }

    /// The effect that runs while the node is alive.
    pub closed spec fn spec_effect(&self) -> X {
        self.effect
    }

    /// The name of the node.
    pub closed spec fn spec_id(&self) -> Entity {
        self.id
    }
}

impl<V, E, X: Effect<Frame<V>, E>> Effect<Frame<V>, E> for Lift<X> {
    /// While the node is alive, a poll is a poll of the effect. Once the
    /// node is gone, a poll finishes and touches nothing.
    open spec fn polled(
        pre: Self,
        pre_data: Frame<V>,
        pre_spawner: SpawnerView<E>,
        cx: Context,
        post: Self,
        post_data: Frame<V>,
        post_spawner: SpawnerView<E>,
        r: Poll<()>,
    ) -> bool {
        &&& post.spec_id() == pre.spec_id()
        &&& if alive(pre_data.world@, pre.spec_id().id) {
            X::polled(
                pre.spec_effect(),
                pre_data,
                pre_spawner,
                cx,
                post.spec_effect(),
                post_data,
                post_spawner,
                r,
            )
        } else {
            &&& post.spec_effect() == pre.spec_effect()
            &&& post_data == pre_data
            &&& post_spawner == pre_spawner
            &&& r == Poll::Ready(())
        }
    }

    fn poll_effect(
        &mut self,
        data: &mut Frame<V>,
        spawner: &mut TaskSpawner<E>,
        cx: &Context,
    ) -> (r: Poll<()>) {
        if data.world.is_alive(self.id) {
            self.effect.poll_effect(data, spawner, cx)
        } else {
            Poll::Ready(())
        }
    }
}

/// How the scheduler's type of effect takes in a lifted effect of type `X`.
pub trait Wrap<X>: Sized {
    /// Whether `e` is an effect of the scheduler that stands for `effect`.
    open spec fn wraps(effect: Lift<X>, e: Self) -> bool {
        true
    }

    /// Takes a lifted effect in.
    fn wrap(effect: Lift<X>) -> (e: Self)
        ensures
            Self::wraps(effect, e),
    ;
}

/// A scheduler that runs lifted effects of one type takes them as they are.
impl<X> Wrap<X> for Lift<X> {
    open spec fn wraps(effect: Lift<X>, e: Self) -> bool {
        e == effect
    }

    fn wrap(effect: Lift<X>) -> (e: Self) {
        effect
    }
}

impl<V> Scope<V> {
    /// Creates an effect that runs in this scope: it is spawned as a task,
    /// lifted so that it finishes once the node is gone, and the node owns
    /// the task, which is aborted when the node goes away. The waiting
    /// writes are flushed.
    pub fn create_effect<X, E: Wrap<X>>(
        &mut self,
        frame: &mut Frame<V>,
        spawner: &mut TaskSpawner<E>,
        effect: X,
    ) -> (handle: TaskHandle)
        ensures
            effect_created(
                effect,
                old(self)@,
                *old(frame),
                old(spawner)@,
                old(spawner).full(),
                handle,
                final(self)@,
                *final(frame),
                final(spawner)@,
            ),
            old(frame).world.wf() ==> final(frame).world.wf(),
            final(frame).world.made() == old(frame).world.made(),
    {
        let lifted = E::wrap(Lift::new(effect, self.id));
        let ghost wrapped = lifted;
        let handle = spawner.spawn(lifted);
        proof {
            assert(E::wraps(Lift::spec_new(effect, old(self)@.id), wrapped));
        }
        self.flush(frame);
        frame.world.add_task(self.id, handle);
        handle
    }

    /// Runs `func` in this scope for each value of `signal`.
    pub fn use_signal<S, F, E: Wrap<SignalEffect<S, F>>>(
        &mut self,
        frame: &mut Frame<V>,
        spawner: &mut TaskSpawner<E>,
        signal: S,
        func: F,
    ) -> (handle: TaskHandle)
        ensures
            effect_created(
                SignalEffect::spec_new(signal, func),
                old(self)@,
                *old(frame),
                old(spawner)@,
                old(spawner).full(),
                handle,
                final(self)@,
                *final(frame),
                final(spawner)@,
            ),
            old(frame).world.wf() ==> final(frame).world.wf(),
    {
        self.create_effect(frame, spawner, SignalEffect::new(signal, func))
    }

    /// Runs `func` in this scope for each item of `stream`.
    pub fn use_stream<S, F, E: Wrap<StreamEffect<S, F>>>(
        &mut self,
        frame: &mut Frame<V>,
        spawner: &mut TaskSpawner<E>,
        stream: S,
        func: F,
    ) -> (handle: TaskHandle)
        ensures
            effect_created(
                StreamEffect::spec_new(stream, func),
                old(self)@,
                *old(frame),
                old(spawner)@,
                old(spawner).full(),
                handle,
                final(self)@,
                *final(frame),
                final(spawner)@,
            ),
            old(frame).world.wf() ==> final(frame).world.wf(),
    {
        self.create_effect(frame, spawner, StreamEffect::new(stream, func))
    }

    /// Runs `func` in this scope, once, on the value that `future` resolves
    /// to.
    pub fn use_async<Fut, F, E: Wrap<FutureEffect<Fut, F>>>(
        &mut self,
        frame: &mut Frame<V>,
        spawner: &mut TaskSpawner<E>,
        future: Fut,
        func: F,
    ) -> (handle: TaskHandle)
        ensures
            effect_created(
                FutureEffect::spec_new(future, func),
                old(self)@,
                *old(frame),
                old(spawner)@,
                old(spawner).full(),
                handle,
                final(self)@,
                *final(frame),
                final(spawner)@,
            ),
            old(frame).world.wf() ==> final(frame).world.wf(),
    {
        self.create_effect(frame, spawner, FutureEffect::new(future, func))
    }

    /// Registers `handler` for the events of `dispatcher`, for as long as the
    /// node is alive: the first event after the node is gone drops the
    /// registration.
    pub fn on_global_event<H>(
        &self,
        dispatcher: &mut EventDispatcher<ScopedEventHandler<H>>,
        handler: H,
    )
        ensures
            final(dispatcher)@ == old(dispatcher)@.push(
                ScopedEventHandler::spec_new(handler, self@.id),
            ),
    {
        dispatcher.register(ScopedEventHandler::new(handler, self.id));
    }

    /// Detaches a child of the node: the child and every node below it go
    /// away. Each task that they own is aborted, and their cleanups are put
    /// behind those that wait in the frame to be run, node after node and in
    /// the order of registration.
    pub fn detach<E>(&mut self, frame: &mut Frame<V>, spawner: &mut TaskSpawner<E>, id: Entity)
        requires
            alive(old(frame).world@, id.id),
            node(old(frame).world@, id.id).parent == Some(old(self)@.id.id),
        ensures
            final(self)@ == old(self)@,
            final(frame).world.made() == old(frame).world.made(),
            old(frame).world.wf() ==> detached(
                *old(frame),
                old(spawner)@,
                id,
                *final(frame),
                final(spawner)@,
            ),
    {
        let gone = frame.world.despawn_recursive(id);
        let crate::world::Despawned { nodes: _, cleanups, tasks } = gone;
        let mut cleanups = cleanups;
        frame.cleanups.append(&mut cleanups);
        let mut i: usize = 0;
        while i < tasks.len()
            invariant
                i <= tasks.len(),
                spawner@ == (SpawnerView {
                    shared: aborted_each(old(spawner)@.shared, tasks@.take(i as int)),
                    ..old(spawner)@
                }),
                spawner.full() == old(spawner).full(),
            decreases tasks.len() - i,
        {
            proof {
                assert(tasks@.take(i + 1).drop_last() =~= tasks@.take(i as int));
            }
            tasks[i].abort(spawner);
            i += 1;
        }
        proof {
            assert(tasks@.take(i as int) =~= tasks@);
        }
    }
}

/// What detaching the node named `id` does to a well-formed frame and to the
/// spawner: the node and every node below it leave the graph, their cleanups
/// wait in the frame behind those that waited before, and their tasks are
/// aborted.
pub open spec fn detached<V, E>(
    pre: Frame<V>,
    pre_spawner: SpawnerView<E>,
    id: Entity,
    post: Frame<V>,
    post_spawner: SpawnerView<E>,
) -> bool {
    let gone = doomed(pre.world@, pre.world@, id.id);
    &&& post.world.wf()
    &&& post.world@ == kept(pre.world@, pre.world@, id.id)
    &&& post.cleanups@ == pre.cleanups@ + cleanups_of(gone)
    &&& post_spawner == SpawnerView {
        shared: aborted_each(pre_spawner.shared, tasks_of(gone)),
        ..pre_spawner
    }
}

/// What a widget attaches to a node of the user interface.
pub trait Widget<V, E>: Sized {
    /// What mounting the widget in a scope may do to the scope, the frame
    /// and the spawner.
    open spec fn mounted(
        self,
        pre_scope: ScopeView<V>,
        pre_frame: Frame<V>,
        pre_spawner: SpawnerView<E>,
        post_scope: ScopeView<V>,
        post_frame: Frame<V>,
        post_spawner: SpawnerView<E>,
    ) -> bool {
        true
    }

    /// Mounts the widget: attaches its data and its effects to the scope.
    fn mount(self, scope: &mut Scope<V>, frame: &mut Frame<V>, spawner: &mut TaskSpawner<E>)
        ensures
            self.mounted(
                old(scope)@,
                *old(frame),
                old(spawner)@,
                final(scope)@,
                *final(frame),
                final(spawner)@,
            ),
            old(frame).world.wf() ==> final(frame).world.wf(),
    ;
}

/// The graph after `child` was put behind the ordered children of the node
/// named `id`.
pub open spec fn with_child<V>(w: Seq<NodeView<V>>, id: u64, child: Entity) -> Seq<NodeView<V>> {
    if alive(w, id) {
        w.update(
            crate::world::index_of(w, id),
            NodeView { children: node(w, id).children.push(child), ..node(w, id) },
        )
    } else {
        w
    }
}

/// What attaching `widget` below the node of `scope` does. The waiting
/// writes of the scope are flushed. In a graph that can make a node, a child
/// is made below the node, the widget is mounted in the scope of the child,
/// what the widget wrote is flushed, and the child is put behind the ordered
/// children of the node.
///
/// The child gets the next name of the graph. In a well-formed graph that
/// name is greater than that of every living node, so the new node is a
/// child of the scope's node whenever that node is alive. A scope whose name
/// was never given has no node to be the parent.
pub open spec fn attached<V, E, W: Widget<V, E>>(
    widget: W,
    scope: ScopeView<V>,
    pre: Frame<V>,
    pre_spawner: SpawnerView<E>,
    r: Option<Entity>,
    post: Frame<V>,
    post_spawner: SpawnerView<E>,
) -> bool {
    let flushed_world = flushed(pre.world@, scope.id.id, scope.data);
    if pre.world.full() {
        &&& r is None
        &&& post.world@ == flushed_world
        &&& post.cleanups == pre.cleanups
        &&& post_spawner == pre_spawner
    } else {
        &&& r is Some
        &&& r->0.id == pre.world.made()
        &&& pre.world.wf() && alive(pre.world@, scope.id.id) ==> scope.id.id < r->0.id
        &&& exists|began: Frame<V>, mounted_scope: ScopeView<V>, mounted_frame: Frame<V>|
            {
                &&& began.cleanups == pre.cleanups
                &&& began.world.made() == pre.world.made() + 1
                &&& pre.world.wf() ==> began.world.wf()
                &&& began.world@ == flushed_world.push(
                    NodeView {
                        id: r->0.id,
                        parent: if scope.id.id < r->0.id {
                            Some(scope.id.id)
                        } else {
                            None
                        },
                        components: Seq::empty(),
                        children: Seq::empty(),
                        cleanups: Seq::empty(),
                        tasks: Seq::empty(),
                    },
                )
                &&& #[trigger] widget.mounted(
                    ScopeView { id: r->0, data: Seq::empty() },
                    began,
                    pre_spawner,
                    mounted_scope,
                    mounted_frame,
                    post_spawner,
                )
                &&& post.cleanups == mounted_frame.cleanups
                &&& post.world@ == with_child(
                    flushed(mounted_frame.world@, mounted_scope.id.id, mounted_scope.data),
                    scope.id.id,
                    r->0,
                )
            }
    }
}

impl<V> Scope<V> {
    /// Mounts a widget as a child of the node and returns the name of the
    /// child: see [`attached`]. `None` once the graph can make no further
    /// node.
    pub fn attach<E, W: Widget<V, E>>(
        &mut self,
        frame: &mut Frame<V>,
        spawner: &mut TaskSpawner<E>,
        widget: W,
    ) -> (r: Option<Entity>)
        ensures
            final(self)@ == (ScopeView { data: Seq::empty(), ..old(self)@ }),
            attached(
                widget,
                old(self)@,
                *old(frame),
                old(spawner)@,
                r,
                *final(frame),
                final(spawner)@,
            ),
            old(frame).world.wf() ==> final(frame).world.wf(),
    {
        proof {
            if old(frame).world.wf() && alive(old(frame).world@, self@.id.id) {
                old(frame).world.lemma_alive_was_made(self@.id.id);
            }
        }
        self.flush(frame);
        match frame.world.spawn(Some(self.id)) {
            None => None,
            Some(id) => {
                let mut child = Scope { id, data: Vec::new() };
                let ghost began = *frame;
                widget.mount(&mut child, frame, spawner);
                let ghost mounted_scope = child@;
                let ghost mounted_frame = *frame;
                child.close(frame);
                frame.world.push_child(self.id, id);
                proof {
                    assert(widget.mounted(
                        ScopeView { id, data: Seq::empty() },
                        began,
                        old(spawner)@,
                        mounted_scope,
                        mounted_frame,
                        spawner@,
                    ));
                }
                Some(id)
            },
        }
    }
}

/// What creating the effect `effect` in a scope does: the waiting writes of
/// the scope are flushed, the effect is lifted and spawned, and the node owns
/// the task.
pub open spec fn effect_created<V, E: Wrap<X>, X>(
    effect: X,
    pre_scope: ScopeView<V>,
    pre_frame: Frame<V>,
    pre_spawner: SpawnerView<E>,
    full: bool,
    handle: TaskHandle,
    post_scope: ScopeView<V>,
    post_frame: Frame<V>,
    post_spawner: SpawnerView<E>,
) -> bool {
    &&& post_scope == ScopeView { data: Seq::empty(), ..pre_scope }
    &&& post_frame.cleanups == pre_frame.cleanups
    &&& post_frame.world@ == with_task(
        flushed(pre_frame.world@, pre_scope.id.id, pre_scope.data),
        pre_scope.id.id,
        handle,
    )
    &&& exists|e: E|
        {
            &&& #[trigger] E::wraps(Lift::spec_new(effect, pre_scope.id), e)
            &&& spawned(pre_spawner, full, e, handle, post_spawner)
        }
}

/// What spawning `effect` does to a spawner: see [`TaskSpawner::spawn`].
pub open spec fn spawned<E>(
    pre: SpawnerView<E>,
    full: bool,
    effect: E,
    handle: TaskHandle,
    post: SpawnerView<E>,
) -> bool {
    if full {
        post == pre && !crate::effect::executor::canonical(handle@)
    } else {
        &&& crate::effect::executor::canonical(handle@)
        &&& !pre.shared.tasks.contains_key(handle@)
        &&& post == pre.spawned(effect, handle@)
    }
}

/// Subtree cleanup completeness: where each of the nodes that go away owns
/// `c` cleanups and `t` tasks, exactly as many cleanups are handed out as
/// there are such nodes times `c`, and as many tasks are aborted as there are
/// such nodes times `t`.
pub proof fn lemma_subtree_cleanup_complete<V>(gone: Seq<NodeView<V>>, c: nat, t: nat)
    requires
        forall|i: int| 0 <= i < gone.len() ==> (#[trigger] gone[i]).cleanups.len() == c && gone[i].tasks.len() == t,
    ensures
        cleanups_of(gone).len() == gone.len() * c,
        tasks_of(gone).len() == gone.len() * t,
    decreases gone.len(),
{
    if gone.len() > 0 {
        let rest = gone.drop_last();
        assert forall|i: int| 0 <= i < rest.len() implies (#[trigger] rest[i]).cleanups.len() == c
            && rest[i].tasks.len() == t by {
            assert(rest[i] == gone[i]);
        }
        lemma_subtree_cleanup_complete(rest, c, t);
        assert(gone.last() == gone[gone.len() - 1]);
        assert(gone.len() * c == rest.len() * c + c) by (nonlinear_arith)
            requires
                gone.len() == rest.len() + 1,
        ;
        assert(gone.len() * t == rest.len() * t + t) by (nonlinear_arith)
            requires
                gone.len() == rest.len() + 1,
        ;
    }
}

/// No cleanup is handed out twice: the nodes that went away are not alive in
/// what is left of the graph, so nothing of theirs is there to be handed out
/// again.
pub proof fn lemma_despawned_are_gone<V>(world: World<V>, root: u64, i: int)
    requires
        world.wf(),
        0 <= i < doomed(world@, world@, root).len(),
    ensures
        !alive(kept(world@, world@, root), doomed(world@, world@, root)[i].id),
{
    let w = world@;
    world.lemma_wf_ordered();
    let d = doomed(w, w, root);
    let k = kept(w, w, root);
    lemma_doomed_descend(w, w, root);
    lemma_kept_stay(w, w, root);
    crate::world::lemma_index_of(k, d[i].id);
    let j = crate::world::index_of(k, d[i].id);
    if j < k.len() {
        assert(k[j].id == d[i].id);
        assert(!crate::world::descends(w, k[j].id, root));
    }
}

/// Every node among the doomed lies in the subtree.
pub proof fn lemma_doomed_descend<V>(w: Seq<NodeView<V>>, s: Seq<NodeView<V>>, root: u64)
    ensures
        forall|i: int|
            0 <= i < doomed(w, s, root).len() ==> crate::world::descends(
                w,
                (#[trigger] doomed(w, s, root)[i]).id,
                root,
            ),
        doomed(w, s, root).len() <= s.len(),
    decreases s.len(),
{
    if s.len() > 0 {
        lemma_doomed_descend(w, s.drop_last(), root);
    }
}

/// Every node among the kept lies outside the subtree.
pub proof fn lemma_kept_stay<V>(w: Seq<NodeView<V>>, s: Seq<NodeView<V>>, root: u64)
    ensures
        forall|i: int|
            0 <= i < kept(w, s, root).len() ==> !crate::world::descends(
                w,
                (#[trigger] kept(w, s, root)[i]).id,
                root,
            ),
        kept(w, s, root).len() <= s.len(),
    decreases s.len(),
{
    if s.len() > 0 {
        lemma_kept_stay(w, s.drop_last(), root);
    }
}

} // verus!
