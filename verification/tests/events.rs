use fragments_core::events::{
    send_event, EventDispatcher, EventHandler, EventState, ScopedEventHandler,
};
use fragments_core::scope::{Frame, Scope};
use fragments_core::world::{Component, World};

/// A handler that writes each event into its node, a number of times.
struct Record {
    name: &'static str,
    left: u32,
}

impl EventHandler<Vec<String>, u32> for Record {
    fn on_event(&mut self, log: &mut Vec<String>, event: &u32) -> bool {
        log.push(format!("{} {}", self.name, event));
        self.left -= 1;
        self.left > 0
    }
}

struct Resized;

impl EventHandler<Frame<u32>, u32> for Resized {
    fn on_event(&mut self, frame: &mut Frame<u32>, event: &u32) -> bool {
        let root = fragments_core::world::Entity { id: 0 };
        let mut scope = Scope::try_from_id(frame, root).unwrap();
        scope.set(Component::new(1, "width"), *event);
        scope.close(frame);
        false
    }
}

#[test]
fn handlers_run_in_the_order_of_registration_until_they_ask_to_go() {
    let mut log = Vec::new();
    let mut dispatcher = EventDispatcher::new();
    dispatcher.register(Record { name: "a", left: 2 });
    dispatcher.register(Record { name: "b", left: 1 });
    dispatcher.register(Record { name: "c", left: 3 });
    assert_eq!(dispatcher.len(), 3);

    dispatcher.emit(&mut log, &1);
    assert_eq!(log, vec!["a 1", "b 1", "c 1"]);
    assert_eq!(dispatcher.len(), 2);

    dispatcher.emit(&mut log, &2);
    assert_eq!(log, vec!["a 1", "b 1", "c 1", "a 2", "c 2"]);
    assert_eq!(dispatcher.len(), 1);

    dispatcher.emit(&mut log, &3);
    assert_eq!(log.len(), 6);
    assert_eq!(dispatcher.len(), 0);
    dispatcher.emit(&mut log, &4);
    assert_eq!(log.len(), 6);
}

#[test]
fn a_scoped_handler_lives_as_long_as_its_node() {
    let mut frame: Frame<u32> = Frame::new(World::new());
    let root = Scope::spawn(&mut frame).unwrap();
    let child = frame.world.spawn(Some(root.id())).unwrap();
    let mut dispatcher: EventDispatcher<ScopedEventHandler<Resized>> = EventDispatcher::new();
    Scope::<u32>::try_from_id(&frame, child).unwrap().on_global_event(&mut dispatcher, Resized);

    // The handler asks to go, but a scoped handler stays while the node is
    // alive.
    dispatcher.emit(&mut frame, &800);
    assert_eq!(frame.world.get(root.id(), Component::new(1, "width")), Some(&800));
    assert_eq!(dispatcher.len(), 1);

    frame.world.despawn_recursive(child);
    dispatcher.emit(&mut frame, &600);
    assert_eq!(frame.world.get(root.id(), Component::new(1, "width")), Some(&800));
    assert_eq!(dispatcher.len(), 0);
}

#[test]
fn an_event_starts_out_pending() {
    assert_eq!(EventState::default(), EventState::Pending);
    assert!(!EventState::Pending.is_handled());
    assert!(EventState::Handled.is_handled());
}

/// A listener that remembers what it heard, and deals with the events it
/// was made for.
#[derive(Debug, PartialEq)]
struct Ear {
    heard: Vec<u32>,
    deals_with: u32,
}

impl fragments_core::events::Listener<u32> for Ear {
    fn on_event(&mut self, _id: fragments_core::world::Entity, event: &u32) -> EventState {
        self.heard.push(*event);
        if *event == self.deals_with {
            EventState::Handled
        } else {
            EventState::Pending
        }
    }
}

fn ear(deals_with: u32) -> fragments_core::world::Write<Ear> {
    fragments_core::world::Write::Put(
        Component::new(9, "on_click"),
        Ear { heard: Vec::new(), deals_with },
    )
}

#[test]
fn an_event_goes_down_the_tree_until_it_is_dealt_with() {
    let click = Component::new(9, "on_click");
    let mut world: World<Ear> = World::new();
    let root = world.spawn(None).unwrap();
    let a = world.spawn(Some(root)).unwrap();
    let a1 = world.spawn(Some(a)).unwrap();
    let b = world.spawn(Some(root)).unwrap();
    let c = world.spawn(Some(root)).unwrap();
    world.push_child(root, a);
    world.push_child(root, b);
    world.push_child(root, c);
    world.push_child(a, a1);
    world.write(root, vec![ear(1)]);
    world.write(a1, vec![ear(2)]);
    world.write(b, vec![ear(3)]);
    world.write(c, vec![ear(3)]);
    let heard = |world: &World<Ear>, id| world.get(id, click).map(|ear| ear.heard.clone());

    // The root deals with 1: nobody below hears it.
    assert_eq!(send_event(&mut world, root, click, &1), EventState::Handled);
    assert_eq!(heard(&world, root), Some(vec![1]));
    assert_eq!(heard(&world, a1), Some(vec![]));

    // 2 passes the root and `a`, which does not listen, and is dealt with
    // below `a`; `b` does not hear it.
    assert_eq!(send_event(&mut world, root, click, &2), EventState::Handled);
    assert_eq!(heard(&world, a1), Some(vec![2]));
    assert_eq!(heard(&world, b), Some(vec![]));

    // 3 is dealt with by the first child that does: `c` does not hear it.
    assert_eq!(send_event(&mut world, root, click, &3), EventState::Handled);
    assert_eq!(heard(&world, a1), Some(vec![2, 3]));
    assert_eq!(heard(&world, b), Some(vec![3]));
    assert_eq!(heard(&world, c), Some(vec![]));

    // Nobody deals with 4, and everybody hears it.
    assert_eq!(send_event(&mut world, root, click, &4), EventState::Pending);
    assert_eq!(heard(&world, root), Some(vec![1, 2, 3, 4]));
    assert_eq!(heard(&world, c), Some(vec![4]));
    assert_eq!(heard(&world, a), None);

    // A node that is gone hears nothing.
    world.despawn_recursive(a);
    assert_eq!(send_event(&mut world, a1, click, &2), EventState::Pending);
    assert_eq!(send_event(&mut world, root, click, &2), EventState::Pending);
}
