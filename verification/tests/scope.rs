use fragments_core::effect::{
    Effect, Executor, FutureEffect, Handler, SignalEffect, StreamEffect, TaskSpawner,
};
use fragments_core::poll::{Context, Future, Poll, Stream, Waker};
use fragments_core::signal::Signal;
use fragments_core::scope::{ContextKey, Frame, Lift, Scope, Widget, Wrap};
use fragments_core::widget::{Container, Remount, Streaming};
use fragments_core::world::{Cleanup, Component, Entity, World};

type Value = String;

/// An effect that counts its polls in a component of the root node.
struct Ticker {
    polls: u32,
}

/// A stream of labels, one for each poll that finds it woken.
struct Labels {
    next: Vec<&'static str>,
}

impl Stream<Frame<Value>> for Labels {
    type Item = Leaf;

    fn poll_next(&mut self, _frame: &mut Frame<Value>, _cx: &Context) -> Poll<Option<Leaf>> {
        if self.next.is_empty() {
            Poll::Pending
        } else {
            let label = self.next.remove(0);
            if label == "end" {
                Poll::Ready(None)
            } else {
                Poll::Ready(Some(Leaf { label, cleanups: 1, tasks: 1 }))
            }
        }
    }
}

/// A signal and a future that follow a script, one step for each poll.
struct Script(Vec<Poll<Option<u32>>>);

impl Signal<Frame<Value>> for Script {
    type Item = u32;

    fn poll_changed(&mut self, _frame: &mut Frame<Value>, _cx: &Context) -> Poll<Option<u32>> {
        if self.0.is_empty() {
            Poll::Pending
        } else {
            self.0.remove(0)
        }
    }
}

impl Future<Frame<Value>> for Script {
    type Output = u32;

    fn poll(&mut self, _frame: &mut Frame<Value>, _cx: &Context) -> Poll<u32> {
        if self.0.is_empty() {
            return Poll::Pending;
        }
        match self.0.remove(0) {
            Poll::Ready(Some(v)) => Poll::Ready(v),
            _ => Poll::Pending,
        }
    }
}

/// A handler that writes each item into the text of its node.
struct ShowIn(Entity);

impl Handler<Frame<Value>, UiEffect, u32> for ShowIn {
    fn handle(&mut self, frame: &mut Frame<Value>, _spawner: &mut TaskSpawner<UiEffect>, item: u32) {
        let mut scope = Scope::try_from_id(frame, self.0).unwrap();
        scope.set(text(), item.to_string());
        scope.close(frame);
    }
}

enum UiEffect {
    Ticker(Lift<Ticker>),
    Streaming(Lift<StreamEffect<Labels, Remount>>),
    Shown(Lift<SignalEffect<Script, ShowIn>>),
    ShownOnce(Lift<FutureEffect<Script, ShowIn>>),
}

impl Effect<Frame<Value>, UiEffect> for Ticker {
    fn poll_effect(
        &mut self,
        _frame: &mut Frame<Value>,
        _spawner: &mut TaskSpawner<UiEffect>,
        _cx: &Context,
    ) -> Poll<()> {
        self.polls += 1;
        Poll::Pending
    }
}

impl Effect<Frame<Value>, UiEffect> for UiEffect {
    fn poll_effect(
        &mut self,
        frame: &mut Frame<Value>,
        spawner: &mut TaskSpawner<UiEffect>,
        cx: &Context,
    ) -> Poll<()> {
        match self {
            UiEffect::Ticker(e) => e.poll_effect(frame, spawner, cx),
            UiEffect::Streaming(e) => e.poll_effect(frame, spawner, cx),
            UiEffect::Shown(e) => e.poll_effect(frame, spawner, cx),
            UiEffect::ShownOnce(e) => e.poll_effect(frame, spawner, cx),
        }
    }
}

impl Wrap<Ticker> for UiEffect {
    fn wrap(effect: Lift<Ticker>) -> UiEffect {
        UiEffect::Ticker(effect)
    }
}

impl Wrap<SignalEffect<Script, ShowIn>> for UiEffect {
    fn wrap(effect: Lift<SignalEffect<Script, ShowIn>>) -> UiEffect {
        UiEffect::Shown(effect)
    }
}

impl Wrap<FutureEffect<Script, ShowIn>> for UiEffect {
    fn wrap(effect: Lift<FutureEffect<Script, ShowIn>>) -> UiEffect {
        UiEffect::ShownOnce(effect)
    }
}

impl Wrap<StreamEffect<Labels, Remount>> for UiEffect {
    fn wrap(effect: Lift<StreamEffect<Labels, Remount>>) -> UiEffect {
        UiEffect::Streaming(effect)
    }
}

const TEXT: u64 = 1;
const THEME: u64 = 2;

fn text() -> Component {
    Component::new(TEXT, "text")
}

/// A widget with a label, some cleanups and some tasks.
struct Leaf {
    label: &'static str,
    cleanups: u64,
    tasks: u32,
}

impl Widget<Value, UiEffect> for Leaf {
    fn mount(
        self,
        scope: &mut Scope<Value>,
        frame: &mut Frame<Value>,
        spawner: &mut TaskSpawner<UiEffect>,
    ) {
        scope.set(text(), self.label.to_string());
        for k in 0..self.cleanups {
            scope.on_cleanup(frame, Cleanup { id: scope.id().id * 100 + k });
        }
        for _ in 0..self.tasks {
            scope.create_effect(frame, spawner, Ticker { polls: 0 });
        }
    }
}

/// A widget with children.
struct Branch {
    children: Vec<Leaf>,
}

impl Widget<Value, UiEffect> for Branch {
    fn mount(
        self,
        scope: &mut Scope<Value>,
        frame: &mut Frame<Value>,
        spawner: &mut TaskSpawner<UiEffect>,
    ) {
        scope.set(text(), "branch".to_string());
        scope.on_cleanup(frame, Cleanup { id: scope.id().id * 100 });
        scope.on_cleanup(frame, Cleanup { id: scope.id().id * 100 + 1 });
        scope.create_effect(frame, spawner, Ticker { polls: 0 });
        scope.create_effect(frame, spawner, Ticker { polls: 0 });
        Container(self.children).mount(scope, frame, spawner);
    }
}

fn leaf(label: &'static str) -> Leaf {
    Leaf { label, cleanups: 2, tasks: 2 }
}

struct Ui {
    frame: Frame<Value>,
    executor: Executor<UiEffect>,
    root: Scope<Value>,
}

fn ui() -> Ui {
    let mut frame = Frame::new(World::new());
    let root = Scope::spawn(&mut frame).unwrap();
    Ui { frame, executor: Executor::new(), root }
}

#[test]
fn writes_wait_for_the_flush() {
    let mut ui = ui();
    let id = ui.root.id();
    ui.root.set(text(), "a".to_string());
    ui.root.set(text(), "b".to_string());
    assert_eq!(ui.frame.world.get(id, text()), None);
    ui.root.flush(&mut ui.frame);
    assert_eq!(ui.frame.world.get(id, text()), Some(&"b".to_string()));
    ui.root.remove(text());
    assert_eq!(ui.frame.world.get(id, text()), Some(&"b".to_string()));
    ui.root.close(&mut ui.frame);
    assert_eq!(ui.frame.world.get(id, text()), None);
}

#[test]
fn attach_makes_a_child_and_mounts_the_widget() {
    let mut ui = ui();
    let root = ui.root.id();
    let child = ui.root.attach(&mut ui.frame, ui.executor.spawner(), leaf("a")).unwrap();
    assert!(ui.frame.world.is_alive(child));
    assert!(ui.frame.world.has_parent(child, root));
    assert_eq!(ui.frame.world.parent(child), Some(root));
    assert_eq!(ui.frame.world.get(child, text()), Some(&"a".to_string()));
    assert_eq!(ui.frame.world.children(root), vec![child]);
    let second = ui.root.attach(&mut ui.frame, ui.executor.spawner(), leaf("b")).unwrap();
    assert_eq!(ui.frame.world.children(root), vec![child, second]);
    assert_eq!(ui.frame.world.len(), 3);
}

#[test]
fn detaching_a_subtree_hands_out_every_cleanup_and_aborts_every_task() {
    let mut ui = ui();
    let branch = Branch { children: vec![leaf("a"), leaf("b"), leaf("c")] };
    let sibling = ui.root.attach(&mut ui.frame, ui.executor.spawner(), leaf("s")).unwrap();
    let top = ui.root.attach(&mut ui.frame, ui.executor.spawner(), branch).unwrap();
    assert_eq!(ui.frame.world.len(), 6);
    let children = ui.frame.world.children(top);
    assert_eq!(children.len(), 3);

    ui.executor.update(&mut ui.frame);
    assert_eq!(ui.executor.len(), 10);

    ui.root.detach(&mut ui.frame, ui.executor.spawner(), top);
    // Four nodes with two cleanups each, node after node, in the order of
    // registration.
    let b = top.id * 100;
    let expected: Vec<Cleanup> = [
        b,
        b + 1,
        children[0].id * 100,
        children[0].id * 100 + 1,
        children[1].id * 100,
        children[1].id * 100 + 1,
        children[2].id * 100,
        children[2].id * 100 + 1,
    ]
    .iter()
    .map(|id| Cleanup { id: *id })
    .collect();
    assert_eq!(ui.frame.take_cleanups(), expected);
    assert!(ui.frame.take_cleanups().is_empty());
    assert_eq!(ui.frame.world.len(), 2);
    assert!(!ui.frame.world.is_alive(top));
    for child in children {
        assert!(!ui.frame.world.is_alive(child));
    }
    assert!(ui.frame.world.is_alive(sibling));

    // Four nodes with two tasks each are aborted: they are dropped when
    // they are next due.
    for key in 0..64u64 {
        ui.executor.spawner().wake(Waker::new((1 << 32) | key));
    }
    ui.executor.update(&mut ui.frame);
    assert_eq!(ui.executor.len(), 2);
    assert!(ui.frame.take_cleanups().is_empty());
}

#[test]
fn an_effect_ends_when_its_node_is_gone() {
    let mut ui = ui();
    let mut world_only = ui.root.attach(&mut ui.frame, ui.executor.spawner(), leaf("a")).unwrap();
    ui.executor.update(&mut ui.frame);
    assert_eq!(ui.executor.len(), 2);
    // The node goes away behind the back of the scheduler.
    let gone = ui.frame.world.despawn_recursive(world_only);
    assert_eq!(gone.nodes, vec![world_only]);
    assert_eq!(gone.cleanups.len(), 2);
    assert_eq!(gone.tasks.len(), 2);
    for handle in &gone.tasks {
        ui.executor.spawner().wake(Waker::new(handle.key()));
    }
    ui.executor.update(&mut ui.frame);
    assert_eq!(ui.executor.len(), 0);
    world_only = Entity { id: 99 };
    assert!(Scope::<Value>::try_from_id(&ui.frame, world_only).is_none());
}

#[test]
fn a_context_is_seen_from_below() {
    let mut ui = ui();
    let theme = ContextKey::from_raw(Component::new(THEME, "theme"));
    ui.root.provide_context(theme, "dark".to_string());
    let child = ui.root.attach(&mut ui.frame, ui.executor.spawner(), leaf("a")).unwrap();
    let mut child_scope = Scope::try_from_id(&ui.frame, child).unwrap();
    let grandchild =
        child_scope.attach(&mut ui.frame, ui.executor.spawner(), leaf("b")).unwrap();
    let grandchild_scope = Scope::try_from_id(&ui.frame, grandchild).unwrap();

    assert_eq!(grandchild_scope.consume_context(&ui.frame, theme), Some(&"dark".to_string()));
    assert_eq!(ui.root.consume_context(&ui.frame, theme), Some(&"dark".to_string()));

    // The nearest node that provides the context wins.
    child_scope.provide_context(theme, "light".to_string());
    child_scope.flush(&mut ui.frame);
    assert_eq!(grandchild_scope.consume_context(&ui.frame, theme), Some(&"light".to_string()));
    assert_eq!(ui.root.consume_context(&ui.frame, theme), Some(&"dark".to_string()));

    let other = ContextKey::from_raw(Component::new(77, "other"));
    assert_eq!(grandchild_scope.consume_context(&ui.frame, other), None);
}

#[test]
fn a_root_is_spawned_with_its_widget_mounted() {
    let mut frame: Frame<Value> = Frame::new(World::new());
    let mut executor: Executor<UiEffect> = Executor::new();
    let root = frame.spawn_root(executor.spawner(), leaf("root")).unwrap();
    assert_eq!(frame.world.parent(root), None);
    assert_eq!(frame.world.get(root, text()), Some(&"root".to_string()));
    assert_eq!(root.id, 0);
    executor.update(&mut frame);
    assert_eq!(executor.len(), 2);
}

#[test]
fn context_key() {
    let foo = ContextKey::from_raw(Component::new(1, "foo"));
    let bar = ContextKey::from_raw(Component::new(2, "bar"));

    assert_ne!(foo.into_raw().key(), bar.into_raw().key());
    assert_eq!(foo.name(), "foo");
    assert_eq!(
        foo.into_raw().key(),
        ContextKey::from_raw(Component::new(1, "foo")).into_raw().key()
    );
    assert_eq!(bar.name(), "bar");
}

#[test]
fn a_streaming_widget_replaces_its_child() {
    let mut ui = ui();
    let root = ui.root.id();
    let stream = Labels { next: vec!["first"] };
    Streaming(stream).mount(&mut ui.root, &mut ui.frame, ui.executor.spawner());
    ui.executor.update(&mut ui.frame);
    let children = ui.frame.world.children(root);
    assert_eq!(children.len(), 1);
    let first = children[0];
    assert_eq!(ui.frame.world.get(first, text()), Some(&"first".to_string()));
    assert!(ui.frame.take_cleanups().is_empty());
}

#[test]
fn a_scope_of_a_dead_node_writes_nothing() {
    let mut ui = ui();
    let child = ui.root.attach(&mut ui.frame, ui.executor.spawner(), leaf("a")).unwrap();
    let mut scope = Scope::try_from_id(&ui.frame, child).unwrap();
    ui.root.detach(&mut ui.frame, ui.executor.spawner(), child);
    scope.set(text(), "late".to_string());
    scope.on_cleanup(&mut ui.frame, Cleanup { id: 5 });
    scope.close(&mut ui.frame);
    assert_eq!(ui.frame.world.len(), 1);
    assert_eq!(ui.frame.take_cleanups().len(), 2);
}

#[test]
fn a_signal_is_used_in_the_scope_until_the_node_is_gone() {
    let mut ui = ui();
    let child = ui.root.attach(&mut ui.frame, ui.executor.spawner(), leaf("a")).unwrap();
    let mut scope = Scope::try_from_id(&ui.frame, child).unwrap();
    let script = Script(vec![
        Poll::Ready(Some(1)),
        Poll::Ready(Some(2)),
        Poll::Pending,
        Poll::Ready(Some(3)),
        Poll::Pending,
        Poll::Ready(Some(4)),
    ]);
    let handle = scope.use_signal(&mut ui.frame, ui.executor.spawner(), script, ShowIn(child));
    ui.executor.update(&mut ui.frame);
    // Every value that is there is handled in one poll.
    assert_eq!(ui.frame.world.get(child, text()), Some(&"2".to_string()));

    ui.executor.spawner().wake(Waker::new(handle.key()));
    ui.executor.update(&mut ui.frame);
    assert_eq!(ui.frame.world.get(child, text()), Some(&"3".to_string()));
    assert_eq!(ui.executor.len(), 3);

    // The node goes away: its tasks are aborted and dropped.
    ui.root.detach(&mut ui.frame, ui.executor.spawner(), child);
    ui.executor.spawner().wake(Waker::new(handle.key()));
    ui.executor.update(&mut ui.frame);
    assert_eq!(ui.executor.len(), 2);
}

#[test]
fn a_future_is_used_in_the_scope_once() {
    let mut ui = ui();
    let id = ui.root.id();
    let script = Script(vec![Poll::Pending, Poll::Ready(Some(8)), Poll::Ready(Some(9))]);
    let handle = ui.root.use_async(&mut ui.frame, ui.executor.spawner(), script, ShowIn(id));
    ui.executor.update(&mut ui.frame);
    assert_eq!(ui.frame.world.get(id, text()), None);
    ui.executor.spawner().wake(Waker::new(handle.key()));
    ui.executor.update(&mut ui.frame);
    assert_eq!(ui.frame.world.get(id, text()), Some(&"8".to_string()));
    assert_eq!(ui.executor.len(), 0);
}
