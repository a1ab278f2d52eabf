//! The scene graph: nodes with components, a parent, ordered children, and
//! what has to happen when a node goes away.

use vstd::prelude::*;

use crate::effect::executor::TaskHandle;
use crate::events::{EventState, Listener};
use crate::signal::hold::borrowed;

verus! {

/// The name of a node of the scene graph. A name is never given twice, so
/// the name of a node that is gone names nothing.
#[derive(Clone, Copy, Debug, PartialEq, Eq, Structural)]
pub struct Entity {
    pub id: u64,
}

/// A component: a kind of value that a node can hold one of. A component is
/// known by its key; its name is for people.
#[derive(Clone, Copy, Debug)]
pub struct Component {
    key: u64,
    name: &'static str,
}

impl Component {
    /// The component with the given key and name.
    pub fn new(key: u64, name: &'static str) -> (c: Component)
        ensures
            c.key() == key,
            c.name() == name,
    {
        Component { key, name }
    }

    pub closed spec fn spec_key(&self) -> u64 {
        self.key
    }

    /// The key by which the component is known.
    #[verifier::when_used_as_spec(spec_key)]
    pub fn key(&self) -> (k: u64)
        ensures
            k == self.key(),
    {
        self.key
    }

    pub closed spec fn spec_name(&self) -> &'static str {
        self.name
    }

    /// The name of the component.
    #[verifier::when_used_as_spec(spec_name)]
    pub fn name(&self) -> (n: &'static str)
        ensures
            n == self.name(),
    {
        self.name
    }
}

/// A token that names something to run when a node goes away. The scene
/// graph does not run anything: it hands the tokens back.
#[derive(Clone, Copy, Debug, PartialEq, Eq, Structural)]
pub struct Cleanup {
    pub id: u64,
}

struct Node<V> {
    id: u64,
    parent: Option<u64>,
    components: Vec<(Component, V)>,
    children: Vec<Entity>,
    cleanups: Vec<Cleanup>,
    tasks: Vec<TaskHandle>,
}

/// What a node holds.
pub ghost struct NodeView<V> {
    pub id: u64,
    pub parent: Option<u64>,
    pub components: Seq<(Component, V)>,
    pub children: Seq<Entity>,
    pub cleanups: Seq<Cleanup>,
    pub tasks: Seq<TaskHandle>,
}

impl<V> View for Node<V> {
    type V = NodeView<V>;

    closed spec fn view(&self) -> NodeView<V> {
        NodeView {
            id: self.id,
            parent: self.parent,
            components: self.components@,
            children: self.children@,
            cleanups: self.cleanups@,
            tasks: self.tasks@,
        }
    }
}

/// The index of the node named `id`, or the number of nodes where there is
/// none.
pub open spec fn index_of<V>(w: Seq<NodeView<V>>, id: u64) -> int
    decreases w.len(),
{
    if w.len() == 0 {
        0
    } else if w[0].id == id {
        0
    } else {
        1 + index_of(w.drop_first(), id)
    }
}

/// Whether a node named `id` is alive.
pub open spec fn alive<V>(w: Seq<NodeView<V>>, id: u64) -> bool {
    index_of(w, id) < w.len()
}

/// The node named `id`.
pub open spec fn node<V>(w: Seq<NodeView<V>>, id: u64) -> NodeView<V> {
    w[index_of(w, id)]
}

/// Whether the node named `id` is the node named `root` or lies below it: a
/// chain of parents leads from it to `root`.
pub open spec fn descends<V>(w: Seq<NodeView<V>>, id: u64, root: u64) -> bool
    decreases id,
{
    id == root || (alive(w, id) && match node(w, id).parent {
        Some(p) => p < id && descends(w, p, root),
        None => false,
    })
}

/// The nodes of `s` that lie in the subtree of `root` in the graph `w`, in
/// the order of `s`.
pub open spec fn doomed<V>(w: Seq<NodeView<V>>, s: Seq<NodeView<V>>, root: u64) -> Seq<NodeView<V>>
    decreases s.len(),
{
    if s.len() == 0 {
        Seq::empty()
    } else if descends(w, s.last().id, root) {
        doomed(w, s.drop_last(), root).push(s.last())
    } else {
        doomed(w, s.drop_last(), root)
    }
}

/// The nodes of `s` that lie outside the subtree of `root` in the graph `w`,
/// in the order of `s`.
pub open spec fn kept<V>(w: Seq<NodeView<V>>, s: Seq<NodeView<V>>, root: u64) -> Seq<NodeView<V>>
    decreases s.len(),
{
    if s.len() == 0 {
        Seq::empty()
    } else if descends(w, s.last().id, root) {
        kept(w, s.drop_last(), root)
    } else {
        kept(w, s.drop_last(), root).push(s.last())
    }
}

/// The cleanups of the nodes of `s`: node after node, and for each node in
/// the order of registration.
pub open spec fn cleanups_of<V>(s: Seq<NodeView<V>>) -> Seq<Cleanup>
    decreases s.len(),
{
    if s.len() == 0 {
        Seq::empty()
    } else {
        cleanups_of(s.drop_last()) + s.last().cleanups
    }
}

/// The tasks of the nodes of `s`: node after node, and for each node in the
/// order in which they were added.
pub open spec fn tasks_of<V>(s: Seq<NodeView<V>>) -> Seq<TaskHandle>
    decreases s.len(),
{
    if s.len() == 0 {
        Seq::empty()
    } else {
        tasks_of(s.drop_last()) + s.last().tasks
    }
}

/// The names of the nodes of `s`, in their order.
pub open spec fn names_of<V>(s: Seq<NodeView<V>>) -> Seq<Entity>
    decreases s.len(),
{
    if s.len() == 0 {
        Seq::empty()
    } else {
        names_of(s.drop_last()).push(Entity { id: s.last().id })
    }
}

/// Whether `id` is among `names`.
pub open spec fn has_name(names: Seq<Entity>, id: u64) -> bool {
    exists|k: int| 0 <= k < names.len() && names[k].id == id
}

/// In an ordered graph, a node lies in the subtree of `root` exactly if it
/// is `root` or its parent lies in that subtree.
pub proof fn lemma_descends_at<V>(w: Seq<NodeView<V>>, i: int, root: u64)
    requires
        ordered(w),
        0 <= i < w.len(),
    ensures
        index_of(w, w[i].id) == i,
        descends(w, w[i].id, root) == (w[i].id == root || match w[i].parent {
            Some(p) => p < w[i].id && descends(w, p, root),
            None => false,
        }),
{
    assert forall|j: int| 0 <= j < i implies w[j].id != w[i].id by {
        assert(w[j].id < w[i].id);
    }
    lemma_index_of_is(w, w[i].id, i);
}

fn contains_name(names: &Vec<Entity>, id: u64) -> (r: bool)
    ensures
        r == has_name(names@, id),
{
    let mut k: usize = 0;
    while k < names.len()
        invariant
            k <= names.len(),
            forall|j: int| 0 <= j < k ==> names[j].id != id,
        decreases names.len() - k,
    {
        if names[k].id == id {
            return true;
        }
        k += 1;
    }
    false
}

/// `index_of` finds the first node with the name, and only that.
pub proof fn lemma_index_of<V>(w: Seq<NodeView<V>>, id: u64)
    ensures
        0 <= index_of(w, id) <= w.len(),
        index_of(w, id) < w.len() ==> w[index_of(w, id)].id == id,
        forall|j: int| 0 <= j < index_of(w, id) ==> w[j].id != id,
    decreases w.len(),
{
    if w.len() > 0 && w[0].id != id {
        let t = w.drop_first();
        lemma_index_of(t, id);
        assert forall|j: int| 0 <= j < index_of(w, id) implies w[j].id != id by {
            if j > 0 {
                assert(t[j - 1] == w[j]);
            }
        }
    }
}

/// The first index at which the name stands is what `index_of` returns.
pub proof fn lemma_index_of_is<V>(w: Seq<NodeView<V>>, id: u64, i: int)
    requires
        0 <= i <= w.len(),
        i < w.len() ==> w[i].id == id,
        forall|j: int| 0 <= j < i ==> w[j].id != id,
    ensures
        index_of(w, id) == i,
{
    lemma_index_of(w, id);
    let k = index_of(w, id);
    if k < i {
        assert(w[k].id != id);
    }
}

/// The names grow along the nodes, and each parent has a smaller name than
/// its child.
pub open spec fn ordered<V>(w: Seq<NodeView<V>>) -> bool {
    &&& forall|i: int, j: int| 0 <= i < j < w.len() ==> w[i].id < w[j].id
    &&& forall|i: int| 0 <= i < w.len() && w[i].parent is Some ==> w[i].parent->0 < w[i].id
}

/// What went away with a subtree.
#[derive(Debug)]
pub struct Despawned {
    /// The names of the nodes that went away, in the order of their making.
    pub nodes: Vec<Entity>,
    /// The cleanups to run, in the order in which to run them.
    pub cleanups: Vec<Cleanup>,
    /// The tasks that the nodes owned.
    pub tasks: Vec<TaskHandle>,
}

/// The scene graph: the living nodes, in the order of their making.
pub struct World<V> {
    nodes: Vec<Node<V>>,
    next: u64,
}

impl<V> View for World<V> {
    type V = Seq<NodeView<V>>;

    closed spec fn view(&self) -> Seq<NodeView<V>> {
        Seq::new(self.nodes.len() as nat, |i: int| self.nodes[i]@)
    }
}

impl<V> World<V> {
    /// What every operation keeps: the nodes are in the order of their names,
    /// which lie below the next name to give, and parents were made before
    /// their children.
    pub open spec fn wf(&self) -> bool {
        &&& ordered(self@)
        &&& forall|i: int| 0 <= i < self@.len() ==> (#[trigger] self@[i]).id < self.made()
    }

    /// The number of names that have been given. The next node is named by
    /// this number.
    pub closed spec fn made(&self) -> nat {
        self.next as nat
    }

    /// Whether every name has been given.
    pub open spec fn full(&self) -> bool {
        self.made() == u64::MAX
    }

    /// In a well-formed graph the node of a name that was not given yet is
    /// not alive.
    pub proof fn lemma_alive_was_made(&self, id: u64)
        requires
            self.wf(),
            alive(self@, id),
        ensures
            id < self.made(),
    {
        lemma_index_of(self@, id);
    }

    /// In a well-formed graph the nodes are in order.
    pub proof fn lemma_wf_ordered(&self)
        requires
            self.wf(),
        ensures
            ordered(self@),
    {
    }

    /// A graph without nodes.
    pub fn new() -> (w: World<V>)
        ensures
            w@ == Seq::<NodeView<V>>::empty(),
            w.made() == 0,
            w.wf(),
    {
        let w = World { nodes: Vec::new(), next: 0 };
        assert(w@ =~= Seq::<NodeView<V>>::empty());
        w
    }

    /// Whether every name has been given.
    pub fn is_full(&self) -> (r: bool)
        ensures
            r == self.full(),
    {
        self.next == u64::MAX
    }

    /// The number of living nodes.
    pub fn len(&self) -> (n: usize)
        ensures
            n == self@.len(),
    {
        self.nodes.len()
    }

    fn position(&self, id: u64) -> (i: usize)
        ensures
            i == index_of(self@, id),
            i <= self.nodes.len(),
    {
        let mut i: usize = 0;
        while i < self.nodes.len()
            invariant
                i <= self.nodes.len(),
                forall|j: int| 0 <= j < i ==> self.nodes[j].id != id,
            decreases self.nodes.len() - i,
        {
            if self.nodes[i].id == id {
                proof {
                    lemma_index_of_is(self@, id, i as int);
                }
                return i;
            }
            i += 1;
        }
        proof {
            lemma_index_of_is(self@, id, i as int);
        }
        i
    }

    /// Whether the node named `id` is alive.
    pub fn is_alive(&self, id: Entity) -> (r: bool)
        ensures
            r == alive(self@, id.id),
    {
        self.position(id.id) < self.nodes.len()
    }

    /// Makes a node without components, below `parent` if one is given that
    /// was made before. `None`, with nothing changed, once every name has
    /// been given.
    pub fn spawn(&mut self, parent: Option<Entity>) -> (r: Option<Entity>)
        ensures
            r is None <==> old(self).full(),
            match r {
                Some(e) => {
                    &&& e.id == old(self).made()
                    &&& final(self).made() == old(self).made() + 1
                    &&& old(self).wf() ==> !alive(old(self)@, e.id)
                    &&& final(self)@ == old(self)@.push(
                        NodeView {
                            id: e.id,
                            parent: match parent {
                                Some(p) => if p.id < e.id {
                                    Some(p.id)
                                } else {
                                    None
                                },
                                None => None,
                            },
                            components: Seq::empty(),
                            children: Seq::empty(),
                            cleanups: Seq::empty(),
                            tasks: Seq::empty(),
                        },
                    )
                },
                None => final(self)@ == old(self)@ && final(self).made() == old(self).made(),
            },
            old(self).wf() ==> final(self).wf(),
    {
        if self.next == u64::MAX {
            return None;
        }
        let id = self.next;
        let parent = match parent {
            Some(p) => if p.id < id {
                Some(p.id)
            } else {
                None
            },
            None => None,
        };
        self.next = id + 1;
        let node = Node {
            id,
            parent,
            components: Vec::new(),
            children: Vec::new(),
            cleanups: Vec::new(),
            tasks: Vec::new(),
        };
        let ghost made = node@;
        self.nodes.push(node);
        proof {
            assert(final(self)@ =~= old(self)@.push(made));
            if old(self).wf() {
                lemma_index_of(old(self)@, id);
            }
        }
        Some(Entity { id })
    }

    /// The parent of the node named `id`.
    pub fn parent(&self, id: Entity) -> (r: Option<Entity>)
        ensures
            r == (if alive(self@, id.id) {
                match node(self@, id.id).parent {
                    Some(p) => Some(Entity { id: p }),
                    None => None,
                }
            } else {
                None
            }),
    {
        let i = self.position(id.id);
        if i < self.nodes.len() {
            match self.nodes[i].parent {
                Some(p) => Some(Entity { id: p }),
                None => None,
            }
        } else {
            None
        }
    }

    /// Whether the node named `id` is alive and a child of `parent`.
    pub fn has_parent(&self, id: Entity, parent: Entity) -> (r: bool)
        ensures
            r == (alive(self@, id.id) && node(self@, id.id).parent == Some(parent.id)),
    {
        let i = self.position(id.id);
        if i < self.nodes.len() {
            match self.nodes[i].parent {
                Some(p) => p == parent.id,
                None => false,
            }
        } else {
            false
        }
    }

    /// The value of `component` in the node named `id`.
    pub fn get(&self, id: Entity, component: Component) -> (r: Option<&V>)
        ensures
            borrowed(
                r,
                if alive(self@, id.id) {
                    value_of(node(self@, id.id).components, component)
                } else {
                    None
                },
            ),
    {
        let i = self.position(id.id);
        if i < self.nodes.len() {
            find_value(&self.nodes[i].components, component)
        } else {
            None
        }
    }

    /// Applies `writes` to the node named `id`, first to last; false, with
    /// nothing changed, where the node is gone.
    pub fn write(&mut self, id: Entity, writes: Vec<Write<V>>) -> (r: bool)
        ensures
            r == alive(old(self)@, id.id),
            final(self)@ == (if r {
                old(self)@.update(
                    index_of(old(self)@, id.id),
                    NodeView {
                        components: written(node(old(self)@, id.id).components, writes@),
                        ..node(old(self)@, id.id)
                    },
                )
            } else {
                old(self)@
            }),
            old(self).wf() ==> final(self).wf(),
            final(self).made() == old(self).made(),
    {
        let i = self.position(id.id);
        if i >= self.nodes.len() {
            return false;
        }
        proof {
            lemma_index_of(self@, id.id);
        }
        let ghost before = self.nodes[i as int]@;
        for w in it: writes
            invariant
                it.seq() == writes@,
                i < self.nodes.len(),
                self.nodes.len() == old(self).nodes.len(),
                self.next == old(self).next,
                forall|j: int| 0 <= j < self.nodes.len() && j != i ==> self.nodes[j] == old(
                    self,
                ).nodes[j],
                self.nodes[i as int]@ == (NodeView {
                    components: written(before.components, writes@.take(it.index() as int)),
                    ..before
                }),
                before == old(self).nodes[i as int]@,
        {
            proof {
                let n = it.index() as int;
                assert(writes@.take(n + 1).drop_last() =~= writes@.take(n));
            }
            apply_write(&mut self.nodes[i].components, w);
        }
        proof {
            assert(writes@.take(writes@.len() as int) =~= writes@);
            assert(final(self)@ =~= old(self)@.update(
                i as int,
                NodeView { components: written(before.components, writes@), ..before },
            ));
        }
        true
    }

    /// Adds `child` at the end of the ordered children of the node named
    /// `id`; false, with nothing changed, where the node is gone.
    pub fn push_child(&mut self, id: Entity, child: Entity) -> (r: bool)
        ensures
            r == alive(old(self)@, id.id),
            final(self)@ == (if r {
                old(self)@.update(
                    index_of(old(self)@, id.id),
                    NodeView {
                        children: node(old(self)@, id.id).children.push(child),
                        ..node(old(self)@, id.id)
                    },
                )
            } else {
                old(self)@
            }),
            old(self).wf() ==> final(self).wf(),
            final(self).made() == old(self).made(),
    {
        let i = self.position(id.id);
        if i >= self.nodes.len() {
            return false;
        }
        proof {
            lemma_index_of(self@, id.id);
        }
        self.nodes[i].children.push(child);
        proof {
            assert(final(self)@ =~= old(self)@.update(
                i as int,
                NodeView {
                    children: node(old(self)@, id.id).children.push(child),
                    ..node(old(self)@, id.id)
                },
            ));
        }
        true
    }

    /// Replaces the ordered children of the node named `id`; false, with
    /// nothing changed, where the node is gone.
    pub fn set_children(&mut self, id: Entity, children: Vec<Entity>) -> (r: bool)
        ensures
            r == alive(old(self)@, id.id),
            final(self)@ == (if r {
                old(self)@.update(
                    index_of(old(self)@, id.id),
                    NodeView { children: children@, ..node(old(self)@, id.id) },
                )
            } else {
                old(self)@
            }),
            old(self).wf() ==> final(self).wf(),
            final(self).made() == old(self).made(),
    {
        let i = self.position(id.id);
        if i >= self.nodes.len() {
            return false;
        }
        proof {
            lemma_index_of(self@, id.id);
        }
        self.nodes[i].children = children;
        proof {
            assert(final(self)@ =~= old(self)@.update(
                i as int,
                NodeView { children: children@, ..node(old(self)@, id.id) },
            ));
        }
        true
    }

    /// The ordered children of the node named `id`: none where the node is
    /// gone.
    pub fn children(&self, id: Entity) -> (r: Vec<Entity>)
        ensures
            r@ == (if alive(self@, id.id) {
                node(self@, id.id).children
            } else {
                Seq::empty()
            }),
    {
        let i = self.position(id.id);
        let mut r: Vec<Entity> = Vec::new();
        if i < self.nodes.len() {
            let mut k: usize = 0;
            while k < self.nodes[i].children.len()
                invariant
                    i < self.nodes.len(),
                    k <= self.nodes[i as int].children.len(),
                    r@ == self.nodes[i as int].children@.take(k as int),
                decreases self.nodes[i as int].children.len() - k,
            {
                r.push(self.nodes[i].children[k]);
                proof {
                    let c = self.nodes[i as int].children@;
                    assert(c.take(k + 1) =~= c.take(k as int).push(c[k as int]));
                }
                k += 1;
            }
            proof {
                let c = self.nodes[i as int].children@;
                assert(c.take(k as int) =~= c);
            }
        }
        r
    }

    /// Registers `cleanup` with the node named `id`, behind the cleanups
    /// registered before; false, with nothing changed, where the node is
    /// gone.
    pub fn on_cleanup(&mut self, id: Entity, cleanup: Cleanup) -> (r: bool)
        ensures
            r == alive(old(self)@, id.id),
            final(self)@ == (if r {
                old(self)@.update(
                    index_of(old(self)@, id.id),
                    NodeView {
                        cleanups: node(old(self)@, id.id).cleanups.push(cleanup),
                        ..node(old(self)@, id.id)
                    },
                )
            } else {
                old(self)@
            }),
            old(self).wf() ==> final(self).wf(),
            final(self).made() == old(self).made(),
    {
        let i = self.position(id.id);
        if i >= self.nodes.len() {
            return false;
        }
        proof {
            lemma_index_of(self@, id.id);
        }
        self.nodes[i].cleanups.push(cleanup);
        proof {
            assert(final(self)@ =~= old(self)@.update(
                i as int,
                NodeView {
                    cleanups: node(old(self)@, id.id).cleanups.push(cleanup),
                    ..node(old(self)@, id.id)
                },
            ));
        }
        true
    }

    /// Hands the task of `handle` to the node named `id`: the task is aborted
    /// when the node goes away. False, with nothing changed, where the node
    /// is gone.
    pub fn add_task(&mut self, id: Entity, handle: TaskHandle) -> (r: bool)
        ensures
            r == alive(old(self)@, id.id),
            final(self)@ == (if r {
                old(self)@.update(
                    index_of(old(self)@, id.id),
                    NodeView {
                        tasks: node(old(self)@, id.id).tasks.push(handle),
                        ..node(old(self)@, id.id)
                    },
                )
            } else {
                old(self)@
            }),
            old(self).wf() ==> final(self).wf(),
            final(self).made() == old(self).made(),
    {
        let i = self.position(id.id);
        if i >= self.nodes.len() {
            return false;
        }
        proof {
            lemma_index_of(self@, id.id);
        }
        self.nodes[i].tasks.push(handle);
        proof {
            assert(final(self)@ =~= old(self)@.update(
                i as int,
                NodeView {
                    tasks: node(old(self)@, id.id).tasks.push(handle),
                    ..node(old(self)@, id.id)
                },
            ));
        }
        true
    }

    /// Takes the node named `id` and every node below it out of the graph.
    /// Returns their names, their cleanups and their tasks, node after node
    /// in the order in which the nodes were made.
    pub fn despawn_recursive(&mut self, id: Entity) -> (r: Despawned)
        ensures
            old(self).wf() ==> {
                &&& final(self)@ == kept(old(self)@, old(self)@, id.id)
                &&& r.nodes@ == names_of(doomed(old(self)@, old(self)@, id.id))
                &&& r.cleanups@ == cleanups_of(doomed(old(self)@, old(self)@, id.id))
                &&& r.tasks@ == tasks_of(doomed(old(self)@, old(self)@, id.id))
                &&& final(self).wf()
            },
            final(self).made() == old(self).made(),
    {
        let root = id.id;
        let ghost w = self@;
        let ghost wf = self.wf();
        let mut nodes: Vec<Node<V>> = Vec::new();
        core::mem::swap(&mut nodes, &mut self.nodes);
        let mut names: Vec<Entity> = Vec::new();
        let mut cleanups: Vec<Cleanup> = Vec::new();
        let mut tasks: Vec<TaskHandle> = Vec::new();
        assert(self@ =~= Seq::<NodeView<V>>::empty());
        for node in it: nodes
            invariant
                it.seq().len() == w.len(),
                forall|j: int| 0 <= j < w.len() ==> #[trigger] it.seq()[j]@ == w[j],
                self.next == old(self).next,
                wf ==> ordered(w),
                wf ==> forall|j: int| 0 <= j < w.len() ==> (#[trigger] w[j]).id < self.next,
                wf ==> self@ == kept(w, w.take(it.index() as int), root),
                wf ==> names@ == names_of(doomed(w, w.take(it.index() as int), root)),
                wf ==> cleanups@ == cleanups_of(doomed(w, w.take(it.index() as int), root)),
                wf ==> tasks@ == tasks_of(doomed(w, w.take(it.index() as int), root)),
                wf ==> forall|j: int|
                    0 <= j < it.index() ==> (has_name(names@, (#[trigger] w[j]).id) <==> descends(
                        w,
                        w[j].id,
                        root,
                    )),
                wf ==> forall|k: int|
                    0 <= k < names.len() ==> exists|j: int|
                        0 <= j < it.index() && w[j].id == (#[trigger] names[k]).id,
                wf ==> forall|k: int|
                    0 <= k < self.nodes.len() ==> exists|j: int|
                        0 <= j < it.index() && w[j] == (#[trigger] self.nodes[k])@,
                wf ==> forall|a: int, b: int|
                    0 <= a < b < self.nodes.len() ==> self.nodes[a].id < self.nodes[b].id,
                wf ==> forall|a: int, j: int|
                    0 <= a < self.nodes.len() && it.index() <= j < w.len() ==> self.nodes[a].id
                        < w[j].id,
        {
            let ghost i = it.index() as int;
            let below = node.id == root || match node.parent {
                Some(p) => p < node.id && (p == root || contains_name(&names, p)),
                None => false,
            };
            proof {
                assert(node@ == w[i]);
                assert(w.take(i + 1).drop_last() =~= w.take(i));
                assert(w.take(i + 1).last() == w[i]);
                if wf {
                    lemma_descends_at(w, i, root);
                    if w[i].parent is Some && w[i].parent->0 < w[i].id && w[i].parent->0 != root {
                        let p = w[i].parent->0;
                        lemma_index_of(w, p);
                        let j = index_of(w, p);
                        if j < w.len() {
                            assert(w[j].id == p);
                            assert(j < i) by {
                                if j > i {
                                    assert(w[i].id < w[j].id);
                                }
                            }
                            assert(has_name(names@, w[j].id) <==> descends(w, w[j].id, root));
                        } else {
                            assert(!descends(w, p, root));
                            if has_name(names@, p) {
                                let k = choose|k: int| 0 <= k < names.len() && names[k].id == p;
                                let j2 = choose|j2: int| 0 <= j2 < i && w[j2].id == names[k].id;
                                assert(w[j2].id != p);
                            }
                        }
                    }
                    assert(below == descends(w, w[i].id, root));
                }
            }
            if below {
                let mut node = node;
                let ghost names0 = names@;
                names.push(Entity { id: node.id });
                cleanups.append(&mut node.cleanups);
                tasks.append(&mut node.tasks);
                proof {
                    if wf {
                        let d = doomed(w, w.take(i), root);
                        assert(names_of(d.push(w[i])) =~= names_of(d).push(Entity { id: w[i].id })) by {
                            assert(d.push(w[i]).drop_last() =~= d);
                        }
                        assert(d.push(w[i]).drop_last() =~= d);
                        assert(names@ == names0.push(Entity { id: w[i].id }));
                        assert forall|j: int| 0 <= j < i + 1 implies (has_name(
                            names@,
                            (#[trigger] w[j]).id,
                        ) <==> descends(w, w[j].id, root)) by {
                            if j < i {
                                assert(has_name(names0, w[j].id) <==> descends(w, w[j].id, root));
                                assert(w[j].id < w[i].id);
                                if has_name(names0, w[j].id) {
                                    let k = choose|k: int|
                                        0 <= k < names0.len() && names0[k].id == w[j].id;
                                    assert(names@[k].id == w[j].id);
                                }
                                if has_name(names@, w[j].id) {
                                    let k = choose|k: int|
                                        0 <= k < names@.len() && names@[k].id == w[j].id;
                                    assert(k < names0.len());
                                    assert(names0[k].id == w[j].id);
                                }
                            } else {
                                assert(names@[names@.len() - 1].id == w[i].id);
                            }
                        }
                        assert forall|k: int| 0 <= k < names.len() implies exists|j: int|
                            0 <= j < i + 1 && w[j].id == (#[trigger] names[k]).id by {
                            if k < names.len() - 1 {
                                assert(names0[k] == names[k]);
                                let j = choose|j: int| 0 <= j < i && w[j].id == names0[k].id;
                                assert(w[j].id == names[k].id);
                            } else {
                                assert(w[i].id == names[k].id);
                            }
                        }
                    }
                }
            } else {
                let ghost made = node@;
                self.nodes.push(node);
                proof {
                    if wf {
                        let kp = kept(w, w.take(i), root);
                        assert(self@ =~= kp.push(w[i]));
                        assert forall|j: int| 0 <= j < i + 1 implies (has_name(
                            names@,
                            (#[trigger] w[j]).id,
                        ) <==> descends(w, w[j].id, root)) by {
                            if j == i {
                                if has_name(names@, w[i].id) {
                                    let k = choose|k: int|
                                        0 <= k < names@.len() && names@[k].id == w[i].id;
                                    let j2 = choose|j2: int|
                                        0 <= j2 < i && w[j2].id == names[k].id;
                                    assert(w[j2].id < w[i].id);
                                }
                            }
                        }
                        assert forall|k: int| 0 <= k < self.nodes.len() implies exists|j: int|
                            0 <= j < i + 1 && w[j] == (#[trigger] self.nodes[k])@ by {
                            if k < self.nodes.len() - 1 {
                                assert(self@[k] == kp[k]);
                                let j = choose|j: int| 0 <= j < i && w[j] == kp[k];
                                assert(w[j] == self.nodes[k]@);
                            } else {
                                assert(w[i] == self.nodes[k]@);
                            }
                        }
                    }
                }
            }
        }
        proof {
            assert(w.take(w.len() as int) =~= w);
        }
        Despawned { nodes: names, cleanups, tasks }
    }

    /// Hands `event` to the listener that the node named `id` holds as
    /// `component`, and returns what the listener says; `None`, with nothing
    /// changed, where the node is gone or holds no such component.
    pub fn notify<T>(&mut self, id: Entity, component: Component, event: &T) -> (r: Option<
        EventState,
    >) where V: Listener<T>
        ensures
            notified(old(self)@, id, component, *event, final(self)@, r),
            same_names(old(self)@, final(self)@),
            old(self).wf() ==> final(self).wf(),
            final(self).made() == old(self).made(),
    {
        let i = self.position(id.id);
        if i >= self.nodes.len() {
            return None;
        }
        proof {
            lemma_index_of(self@, id.id);
            assert(node(self@, id.id) == self.nodes[i as int]@);
        }
        let k = component_position(&self.nodes[i].components, component);
        if k >= self.nodes[i].components.len() {
            return None;
        }
        let ghost before = self.nodes[i as int].components@[k as int].1;
        let r = self.nodes[i].components[k].1.on_event(id, event);
        proof {
            let after = self.nodes[i as int].components@[k as int].1;
            let w = old(self)@;
            let comps = node(w, id.id).components;
            assert(self.nodes[i as int].components@ =~= comps.update(
                k as int,
                (comps[k as int].0, after),
            ));
            assert(self@ =~= w.update(
                i as int,
                NodeView {
                    components: comps.update(k as int, (comps[k as int].0, after)),
                    ..node(w, id.id)
                },
            ));
            assert(heard_as(w, id, component, *event, after, r, self@));
        }
        Some(r)
    }
}

/// The graphs `a` and `b` hold the same nodes by name, in the same order:
/// what turned one into the other made no node and took none away.
pub open spec fn same_names<V>(a: Seq<NodeView<V>>, b: Seq<NodeView<V>>) -> bool {
    &&& a.len() == b.len()
    &&& forall|i: int| 0 <= i < a.len() ==> (#[trigger] a[i]).id == b[i].id
}

/// The listener that the node named `id` holds as `component` may hear
/// `event`, become `after` and say `said`, which leaves the graph as `post`.
pub open spec fn heard_as<V: Listener<T>, T>(
    w: Seq<NodeView<V>>,
    id: Entity,
    component: Component,
    event: T,
    after: V,
    said: EventState,
    post: Seq<NodeView<V>>,
) -> bool {
    let comps = node(w, id.id).components;
    let k = slot_of_component(comps, component);
    &&& V::heard(comps[k].1, id, event, after, said)
    &&& post == w.update(
        index_of(w, id.id),
        NodeView { components: comps.update(k, (comps[k].0, after)), ..node(w, id.id) },
    )
}

/// What handing `event` to the listener of the node named `id` does: see
/// [`World::notify`].
pub open spec fn notified<V: Listener<T>, T>(
    w: Seq<NodeView<V>>,
    id: Entity,
    component: Component,
    event: T,
    post: Seq<NodeView<V>>,
    r: Option<EventState>,
) -> bool {
    if !alive(w, id.id) || value_of(node(w, id.id).components, component) is None {
        post == w && r is None
    } else {
        match r {
            Some(said) => exists|after: V| #[trigger] heard_as(w, id, component, event, after, said, post),
            None => false,
        }
    }
}

/// One buffered write to a node: a value for a component, or the removal of
/// a component.
pub enum Write<V> {
    Put(Component, V),
    Remove(Component),
}

/// The index of the value of `component`, or the number of components where
/// it has none.
pub open spec fn slot_of_component<V>(s: Seq<(Component, V)>, component: Component) -> int
    decreases s.len(),
{
    if s.len() == 0 {
        0
    } else if s[0].0.key() == component.key() {
        0
    } else {
        1 + slot_of_component(s.drop_first(), component)
    }
}

/// The value of `component` among the components `s`.
pub open spec fn value_of<V>(s: Seq<(Component, V)>, component: Component) -> Option<V> {
    if slot_of_component(s, component) < s.len() {
        Some(s[slot_of_component(s, component)].1)
    } else {
        None
    }
}

/// The components after one write: a value replaces the one that the
/// component had, or is added behind the others; a removal takes the
/// component's value away.
pub open spec fn written_one<V>(s: Seq<(Component, V)>, w: Write<V>) -> Seq<(Component, V)> {
    match w {
        Write::Put(c, v) => if slot_of_component(s, c) < s.len() {
            s.update(slot_of_component(s, c), (c, v))
        } else {
            s.push((c, v))
        },
        Write::Remove(c) => if slot_of_component(s, c) < s.len() {
            s.remove(slot_of_component(s, c))
        } else {
            s
        },
    }
}

/// The components after the writes of `writes`, first to last.
pub open spec fn written<V>(s: Seq<(Component, V)>, writes: Seq<Write<V>>) -> Seq<(Component, V)>
    decreases writes.len(),
{
    if writes.len() == 0 {
        s
    } else {
        written_one(written(s, writes.drop_last()), writes.last())
    }
}

proof fn lemma_slot_of_component_is<V>(s: Seq<(Component, V)>, component: Component, i: int)
    requires
        0 <= i <= s.len(),
        i < s.len() ==> s[i].0.key() == component.key(),
        forall|j: int| 0 <= j < i ==> s[j].0.key() != component.key(),
    ensures
        slot_of_component(s, component) == i,
    decreases s.len(),
{
    if s.len() > 0 && i > 0 {
        let t = s.drop_first();
        assert forall|j: int| 0 <= j < i - 1 implies t[j].0.key() != component.key() by {
            assert(t[j] == s[j + 1]);
        }
        assert(s[0].0.key() != component.key());
        lemma_slot_of_component_is(t, component, i - 1);
    }
}

fn component_position<V>(components: &Vec<(Component, V)>, component: Component) -> (i: usize)
    ensures
        i == slot_of_component(components@, component),
        i <= components.len(),
{
    let mut i: usize = 0;
    while i < components.len()
        invariant
            i <= components.len(),
            forall|j: int| 0 <= j < i ==> components[j].0.key() != component.key(),
        decreases components.len() - i,
    {
        if components[i].0.key() == component.key() {
            proof {
                lemma_slot_of_component_is(components@, component, i as int);
            }
            return i;
        }
        i += 1;
    }
    proof {
        lemma_slot_of_component_is(components@, component, i as int);
    }
    i
}

fn find_value<V>(components: &Vec<(Component, V)>, component: Component) -> (r: Option<&V>)
    ensures
        borrowed(r, value_of(components@, component)),
{
    let i = component_position(components, component);
    if i < components.len() {
        Some(&components[i].1)
    } else {
        None
    }
}

fn apply_write<V>(components: &mut Vec<(Component, V)>, w: Write<V>)
    ensures
        final(components)@ == written_one(old(components)@, w),
{
    match w {
        Write::Put(c, v) => {
            let i = component_position(components, c);
            if i < components.len() {
                components[i] = (c, v);
            } else {
                components.push((c, v));
            }
        },
        Write::Remove(c) => {
            let i = component_position(components, c);
            if i < components.len() {
                components.remove(i);
            }
        },
    }
}

} // verus!
