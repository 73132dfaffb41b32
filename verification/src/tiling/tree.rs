use super::error::TilingError;
use crate::seq_util::{
    first_in, first_where, lemma_first_where, lemma_first_where_at, lemma_first_where_concat,
    lemma_first_where_prefix,
};
use crate::text::{str_eq, to_string};
use vstd::prelude::*;

verus! {

/// Gap configuration: spacing between windows and around the screen edge (pixels).
#[derive(Debug, Clone, Copy, PartialEq, Eq, Default, Structural)]
pub struct GapsConfig {
    /// Gap between adjacent windows
    pub inner: i32,
    /// Gap between windows and the edges of the workspace
    pub outer: i32,
}

/// Direction of focus movement or window movement.
#[derive(Debug, Clone, Copy, PartialEq, Eq, Structural)]
pub enum Direction {
    Left,
    Right,
    Up,
    Down,
}

/// Axis of a resize.
#[derive(Debug, Clone, Copy, PartialEq, Eq, Structural)]
pub enum ResizeAxis {
    Width,
    Height,
}

/// A rectangle: position and size in pixels.
#[derive(Debug, Clone, Copy, PartialEq, Eq, Structural)]
pub struct Rect {
    pub x: i32,
    pub y: i32,
    pub width: i32,
    pub height: i32,
}

impl Rect {
    pub fn new(x: i32, y: i32, width: i32, height: i32) -> (r: Self)
        ensures
            r == (Rect { x, y, width, height }),
    {
        Rect { x, y, width, height }
    }

    /// A rectangle is valid when both dimensions are positive.
    pub fn is_valid(&self) -> (b: bool)
        ensures
            b == (self.width > 0 && self.height > 0),
    {
        self.width > 0 && self.height > 0
    }
}

/// Identifier of a node: its slot in the arena.
#[derive(Debug, Clone, Copy, PartialEq, Eq, Hash, Structural)]
pub struct NodeId(pub usize);

impl NodeId {
    /// The raw arena index.
    pub fn index(self) -> (i: usize)
        ensures
            i == self.0,
    {
        self.0
    }
}

/// The four container layouts of i3/Sway.
#[derive(Debug, Clone, Copy, PartialEq, Eq, Structural)]
pub enum Layout {
    SplitH,
    SplitV,
    Tabbed,
    Stacked,
}

/// What a node is.
///
/// Container `sizes` are proportional weights of the children, in hundredths:
/// a fresh child weighs 100, and a resize by `p` percentage points moves `p`
/// units between two siblings.
#[derive(Debug, Clone)]
pub enum NodeData {
    /// The virtual root, one per tree
    Root,
    /// A physical output (monitor)
    Output { name: String, geometry: Rect },
    /// A workspace, belonging to an output
    Workspace { name: String, output: NodeId, is_visible: bool },
    /// A split, tabbed or stacked container
    Container { layout: Layout, sizes: Vec<i64>, focused_child: usize },
    /// A window
    Window {
        window_id: u64,
        floating: bool,
        fullscreen: bool,
        fullscreen_global: bool,
        sticky: bool,
        marks: Vec<String>,
        geometry: Rect,
        /// Geometry saved before entering fullscreen
        saved_geometry: Option<Rect>,
    },
}

/// A node of the arena.
#[derive(Debug, Clone)]
pub struct Node {
    pub(crate) parent: Option<NodeId>,
    pub(crate) children: Vec<NodeId>,
    pub data: NodeData,
}

/// Arena-allocated N-ary tree: slots of `Option<Node>`, with a free list of
/// released slots that later insertions reuse.
///
/// Beside the slots, the tree keeps a ghost rank per live node that grows
/// strictly from a node to each of its children; it is what every walk over
/// the tree terminates by.
pub struct Tree {
    nodes: Vec<Option<Node>>,
    free_list: Vec<NodeId>,
    root: NodeId,
    /// Focus level for focus_parent / focus_child; `None` means a leaf window
    pub focus_node: Option<NodeId>,
    rank: Ghost<Map<int, nat>>,
    rank_bound: Ghost<nat>,
}

impl Node {
    pub closed spec fn parent_of(&self) -> Option<NodeId> {
        self.parent
    }

    pub closed spec fn children_of(&self) -> Seq<NodeId> {
        self.children@
    }

    pub closed spec fn data_of(&self) -> NodeData {
        self.data
    }
}

impl Tree {
    /// The slots of the arena.
    pub closed spec fn slots(&self) -> Seq<Option<Node>> {
        self.nodes@
    }

    /// The free list, last entry reused first.
    pub closed spec fn free(&self) -> Seq<NodeId> {
        self.free_list@
    }

    /// The focus level.
    pub closed spec fn focus(&self) -> Option<NodeId> {
        self.focus_node
    }

    pub closed spec fn root_id(&self) -> NodeId {
        self.root
    }

    pub open spec fn live(&self, i: int) -> bool {
        0 <= i < self.slots().len() && self.slots()[i] is Some
    }

    pub open spec fn node(&self, i: int) -> Node {
        self.slots()[i]->Some_0
    }

    pub open spec fn kids(&self, i: int) -> Seq<NodeId> {
        self.node(i).children_of()
    }

    pub open spec fn data(&self, i: int) -> NodeData {
        self.node(i).data_of()
    }

    /// Children of `i` as [`Tree::children`] reports them: empty for a dead slot.
    pub open spec fn children_view(&self, i: int) -> Seq<NodeId> {
        if self.live(i) {
            self.kids(i)
        } else {
            Seq::empty()
        }
    }

    /// Parent of `i`, `None` for a dead slot.
    pub open spec fn parent_view(&self, i: int) -> Option<NodeId> {
        if self.live(i) {
            self.node(i).parent_of()
        } else {
            None
        }
    }

    pub closed spec fn rank_of(&self, i: int) -> nat {
        self.rank@[i]
    }

    /// Node `i` is consistent with its children, its parent and its rank.
    closed spec fn node_ok(&self, i: int) -> bool {
        let n = self.nodes@[i]->Some_0;
        &&& self.rank@.contains_key(i)
        &&& self.rank@[i] < self.rank_bound@
        &&& forall|k: int|
            0 <= k < n.children@.len() ==> #[trigger] self.child_ok(i, n.children@[k].0 as int)
        &&& forall|a: int, b: int|
            0 <= a < b < n.children@.len() ==> n.children@[a] != n.children@[b]
        &&& if i == self.root.0 {
            n.parent is None
        } else {
            &&& n.parent is Some
            &&& self.live(n.parent->Some_0.0 as int)
            &&& self.nodes@[n.parent->Some_0.0 as int]->Some_0.children@.contains(NodeId(i as usize))
        }
    }

    closed spec fn child_ok(&self, i: int, c: int) -> bool {
        &&& self.live(c)
        &&& self.nodes@[c]->Some_0.parent == Some(NodeId(i as usize))
        &&& self.rank@.contains_key(c)
        &&& self.rank@[i] < self.rank@[c]
        &&& c != self.root.0
    }

    /// Well-formedness: the root is live and parentless, every live node is
    /// consistent with its children and parent, and the free list holds
    /// distinct dead slots.
    pub closed spec fn wf(&self) -> bool {
        &&& self.root == NodeId(0)
        &&& self.nodes@.len() <= usize::MAX
        &&& self.live(0)
        &&& self.data(0) is Root
        &&& forall|i: int| #[trigger] self.live(i) ==> self.node_ok(i)
        &&& forall|k: int|
            0 <= k < self.free_list@.len() ==> {
                let f = #[trigger] self.free_list@[k].0 as int;
                0 <= f < self.nodes@.len() && self.nodes@[f] is None
            }
        &&& forall|a: int, b: int|
            0 <= a < b < self.free_list@.len() ==> self.free_list@[a] != self.free_list@[b]
    }

    /// Number of live slots.
    pub open spec fn live_count_upto(&self, n: int) -> nat
        decreases n,
    {
        if n <= 0 {
            0
        } else {
            self.live_count_upto(n - 1) + if self.live(n - 1) {
                1nat
            } else {
                0nat
            }
        }
    }

    /// Create a tree holding only the root node.
    pub fn new() -> (t: Self)
        ensures
            t.wf(),
            t.slots().len() == 1,
            t.live(0),
            t.data(0) is Root,
            t.kids(0) == Seq::<NodeId>::empty(),
            t.node(0).parent_of() is None,
            t.root_id() == NodeId(0),
            t.free() == Seq::<NodeId>::empty(),
            t.focus() is None,
    {
        let root_node = Node { parent: None, children: Vec::new(), data: NodeData::Root };
        let mut nodes: Vec<Option<Node>> = Vec::new();
        nodes.push(Some(root_node));
        let t = Tree {
            nodes,
            free_list: Vec::new(),
            root: NodeId(0),
            focus_node: None,
            rank: Ghost(Map::empty().insert(0int, 0nat)),
            rank_bound: Ghost(1nat),
        };
        assert(t.node_ok(0));
        t
    }

    /// The root node's id.
    pub fn root(&self) -> (r: NodeId)
        ensures
            r == self.root_id(),
    {
        self.root
    }

    /// Whether `k` more nodes can be added (see [`Tree::room`]).
    pub fn has_room(&self, k: usize) -> (b: bool)
        ensures
            b == (self.room() >= k),
    {
        let spare = usize::MAX - self.nodes.len();
        if spare >= k {
            true
        } else {
            self.free_list.len() >= k - spare
        }
    }
}


impl Tree {
    /// Every slot other than those in `except` is unchanged from `old`.
    pub open spec fn same_slots_except(&self, old: &Tree, except: Set<int>) -> bool {
        forall|j: int|
            0 <= j < old.slots().len() && !except.contains(j) ==> #[trigger] self.slots()[j]
                == old.slots()[j]
    }

    proof fn lemma_free_entries_dead(&self, k: int)
        requires
            self.wf(),
            0 <= k < self.free_list@.len(),
        ensures
            0 <= self.free_list@[k].0 < self.nodes@.len(),
            !self.live(self.free_list@[k].0 as int),
    {
        let f = self.free_list@[k].0 as int;
        assert(0 <= f < self.nodes@.len() && self.nodes@[f] is None);
    }

    /// Add a child node under `parent` and return its id.
    ///
    /// The id is the last slot of the free list when there is one, else a new
    /// slot at the end of the arena; the new node is appended to the
    /// parent's children.
    pub fn add_node(&mut self, parent: NodeId, data: NodeData) -> (id: NodeId)
        requires
            old(self).wf(),
            old(self).live(parent.0 as int),
            old(self).free().len() > 0 || old(self).slots().len() < usize::MAX,
        ensures
            final(self).wf(),
            id == (if old(self).free().len() > 0 {
                old(self).free().last()
            } else {
                NodeId(old(self).slots().len() as usize)
            }),
            final(self).free() == (if old(self).free().len() > 0 {
                old(self).free().drop_last()
            } else {
                old(self).free()
            }),
            final(self).slots().len() == (if old(self).free().len() > 0 {
                old(self).slots().len()
            } else {
                old(self).slots().len() + 1
            }),
            !old(self).live(id.0 as int),
            id != parent,
            final(self).live(id.0 as int),
            final(self).node(id.0 as int).parent_of() == Some(parent),
            final(self).kids(id.0 as int) == Seq::<NodeId>::empty(),
            final(self).data(id.0 as int) == data,
            final(self).kids(parent.0 as int) == old(self).kids(parent.0 as int).push(id),
            final(self).node(parent.0 as int).parent_of() == old(self).node(
                parent.0 as int,
            ).parent_of(),
            final(self).data(parent.0 as int) == old(self).data(parent.0 as int),
            final(self).same_slots_except(old(self), set![id.0 as int, parent.0 as int]),
            forall|j: int| #[trigger] final(self).live(j) ==> old(self).live(j) || j == id.0,
            final(self).root_id() == old(self).root_id(),
            final(self).focus() == old(self).focus(),
    {
        let ghost old_tree = *self;
        let id = match self.free_list.pop() {
            Some(reused) => {
                proof {
                    old_tree.lemma_free_entries_dead(old_tree.free_list@.len() - 1);
                }
                reused
            },
            None => {
                let idx = self.nodes.len();
                self.nodes.push(None);
                NodeId(idx)
            },
        };
        let node = Node { parent: Some(parent), children: Vec::new(), data };
        self.nodes.set(id.0, Some(node));
        let mut pnode = self.nodes[parent.0].take();
        match pnode {
            Some(ref mut p) => {
                p.children.push(id);
            },
            None => {},
        }
        self.nodes.set(parent.0, pnode);
        let ghost b = self.rank_bound@;
        proof {
            self.rank@ = self.rank@.insert(id.0 as int, b);
            self.rank_bound@ = b + 1;
        }
        assert forall|i: int| #[trigger] self.live(i) implies self.node_ok(i) by {
            let n = self.nodes@[i]->Some_0;
            if i == id.0 as int {
                assert(self.nodes@[parent.0 as int]->Some_0.children@.last() == id);
            } else if i == parent.0 as int {
                assert(old_tree.node_ok(i));
                let on = old_tree.nodes@[i]->Some_0;
                assert forall|k: int| 0 <= k < n.children@.len() implies #[trigger] self.child_ok(
                    i,
                    n.children@[k].0 as int,
                ) by {
                    if k < on.children@.len() {
                        assert(old_tree.child_ok(i, on.children@[k].0 as int));
                    }
                }
                assert forall|a: int, b: int| 0 <= a < b < n.children@.len() implies n.children@[a]
                    != n.children@[b] by {
                    if b == on.children@.len() {
                        assert(old_tree.child_ok(i, on.children@[a].0 as int));
                    }
                }
                if i != 0 {
                    let pp = n.parent->Some_0.0 as int;
                    assert(old_tree.live(pp));
                    if pp == parent.0 as int {
                        assert(on.children@.contains(NodeId(i as usize)));
                        let w = choose|w: int| 0 <= w < on.children@.len() && on.children@[w] == NodeId(i as usize);
                        assert(n.children@[w] == NodeId(i as usize));
                    }
                }
            } else {
                assert(old_tree.live(i));
                assert(old_tree.node_ok(i));
                assert(n == old_tree.nodes@[i]->Some_0);
                assert forall|k: int| 0 <= k < n.children@.len() implies #[trigger] self.child_ok(
                    i,
                    n.children@[k].0 as int,
                ) by {
                    assert(old_tree.child_ok(i, n.children@[k].0 as int));
                }
                if i != 0 {
                    let pp = n.parent->Some_0.0 as int;
                    if pp == parent.0 as int {
                        let on = old_tree.nodes@[pp]->Some_0;
                        let w = choose|w: int| 0 <= w < on.children@.len() && on.children@[w] == NodeId(i as usize);
                        assert(self.nodes@[pp]->Some_0.children@[w] == NodeId(i as usize));
                    }
                }
            }
        }
        assert forall|k: int| 0 <= k < self.free_list@.len() implies {
            let f = #[trigger] self.free_list@[k].0 as int;
            0 <= f < self.nodes@.len() && self.nodes@[f] is None
        } by {
            assert(old_tree.free_list@[k] == self.free_list@[k]);
            old_tree.lemma_free_entries_dead(k);
            if old_tree.free_list@.len() > 0 {
                let last = old_tree.free_list@.len() - 1;
                assert(old_tree.free_list@[k] != old_tree.free_list@[last]);
            }
        }
        id
    }

    /// The node in slot `id`, if it is live.
    pub fn get(&self, id: NodeId) -> (r: Option<&Node>)
        ensures
            r is Some <==> self.live(id.0 as int),
            r matches Some(n) ==> *n == self.node(id.0 as int),
    {
        if id.0 < self.nodes.len() {
            match &self.nodes[id.0] {
                Some(n) => Some(n),
                None => None,
            }
        } else {
            None
        }
    }

    /// The children of `id`, empty when the slot is not live.
    pub fn children(&self, id: NodeId) -> (r: &[NodeId])
        ensures
            r@ == self.children_view(id.0 as int),
    {
        if id.0 < self.nodes.len() {
            match &self.nodes[id.0] {
                Some(n) => n.children.as_slice(),
                None => &[],
            }
        } else {
            &[]
        }
    }

    /// The parent of `id`, `None` when the slot is not live or is the root.
    pub fn parent(&self, id: NodeId) -> (r: Option<NodeId>)
        ensures
            r == self.parent_view(id.0 as int),
    {
        if id.0 < self.nodes.len() {
            match &self.nodes[id.0] {
                Some(n) => n.parent,
                None => None,
            }
        } else {
            None
        }
    }

    /// Number of live nodes.
    pub fn node_count(&self) -> (c: usize)
        ensures
            c == self.live_count_upto(self.slots().len() as int),
    {
        let mut c: usize = 0;
        let mut i: usize = 0;
        while i < self.nodes.len()
            invariant
                i <= self.nodes@.len(),
                c == self.live_count_upto(i as int),
                c <= i,
            decreases self.nodes@.len() - i,
        {
            if self.nodes[i].is_some() {
                c = c + 1;
            }
            i = i + 1;
        }
        c
    }
}


impl Tree {
    /// The slots of `self` agree with those of `orig`, except slots that are
    /// now empty; the ghost ranks and the root are those of `orig`.
    closed spec fn slots_within(&self, orig: &Tree) -> bool {
        &&& self.nodes@.len() == orig.nodes@.len()
        &&& forall|j: int|
            0 <= j < self.nodes@.len() ==> (#[trigger] self.nodes@[j] is None || self.nodes@[j]
                == orig.nodes@[j])
        &&& self.rank == orig.rank
        &&& self.rank_bound == orig.rank_bound
        &&& self.root == orig.root
    }

    /// The free list holds distinct empty slots.
    closed spec fn free_ok(&self) -> bool {
        &&& forall|k: int|
            0 <= k < self.free_list@.len() ==> {
                let f = #[trigger] self.free_list@[k].0 as int;
                0 <= f < self.nodes@.len() && self.nodes@[f] is None
            }
        &&& forall|a: int, b: int|
            0 <= a < b < self.free_list@.len() ==> self.free_list@[a] != self.free_list@[b]
    }

    /// Slot `j` was live in `before` and is empty in `after`.
    pub open spec fn released(before: &Tree, after: &Tree, j: int) -> bool {
        before.live(j) && !after.live(j)
    }

    /// Empty every slot of the subtree below `cur` (inclusive), pushing each
    /// released slot onto the free list; children are visited last first.
    fn release_subtree(&mut self, cur: NodeId, Ghost(orig): Ghost<Tree>)
        requires
            orig.wf(),
            orig.live(cur.0 as int),
            cur.0 != 0,
            old(self).slots_within(&orig),
            old(self).free_ok(),
        ensures
            final(self).slots_within(&orig),
            final(self).free_ok(),
            final(self).focus_node == old(self).focus_node,
            !final(self).live(cur.0 as int),
            forall|j: int| #[trigger] final(self).live(j) ==> old(self).live(j),
            forall|j: int|
                #[trigger] Tree::released(old(self), final(self), j) ==> j != 0 && (j
                    == cur.0 || Tree::released(
                    old(self),
                    final(self),
                    orig.node(j).parent_of()->Some_0.0 as int,
                )),
            forall|j: int, k: int|
                #[trigger] Tree::released(old(self), final(self), j) && 0 <= k < orig.kids(
                    j,
                ).len() ==> !final(self).live(#[trigger] orig.kids(j)[k].0 as int),
            final(self).free_list@.len() >= old(self).free_list@.len(),
            final(self).free_list@.subrange(0, old(self).free_list@.len() as int)
                == old(self).free_list@,
            forall|k: int|
                old(self).free_list@.len() <= k < final(self).free_list@.len()
                    ==> Tree::released(old(self), final(self), #[trigger] final(self).free_list@[k].0 as int),
            forall|j: int|
                #[trigger] Tree::released(old(self), final(self), j) ==> final(self).free_list@.subrange(
                    old(self).free_list@.len() as int,
                    final(self).free_list@.len() as int,
                ).contains(NodeId(j as usize)),
        decreases orig.rank_bound@ - orig.rank@[cur.0 as int],
    {
        let ghost entry = *self;
        let slot = self.nodes[cur.0].take();
        match slot {
            None => {
                assert(self.nodes@ =~= entry.nodes@);
            },
            Some(node) => {
                assert(orig.node_ok(cur.0 as int));
                self.free_list.push(cur);
                assert forall|a: int, b: int|
                    0 <= a < b < self.free_list@.len() implies self.free_list@[a] != self.free_list@[b] by {
                    if b == self.free_list@.len() - 1 {
                        let f = entry.free_list@[a].0 as int;
                        assert(entry.nodes@[f] is None);
                    }
                }
                assert forall|j: int| #[trigger] Tree::released(&entry, self, j) implies j == cur.0 by {
                    if j != cur.0 {
                        assert(self.nodes@[j] == entry.nodes@[j]);
                    }
                }
                assert(self.free_list@.subrange(
                    entry.free_list@.len() as int,
                    self.free_list@.len() as int,
                ) =~= seq![cur]);
                assert forall|j: int| #[trigger] Tree::released(&entry, self, j) implies self.free_list@.subrange(
                    entry.free_list@.len() as int,
                    self.free_list@.len() as int,
                ).contains(NodeId(j as usize)) by {
                    let sfx = self.free_list@.subrange(
                        entry.free_list@.len() as int,
                        self.free_list@.len() as int,
                    );
                    assert(sfx[0] == NodeId(j as usize));
                }
                let mut k = node.children.len();
                while k > 0
                    invariant
                        node == orig.nodes@[cur.0 as int]->Some_0,
                        orig.wf(),
                        orig.live(cur.0 as int),
                        cur.0 != 0,
                        k <= node.children@.len(),
                        self.slots_within(&orig),
                        self.free_ok(),
                        self.focus_node == entry.focus_node,
                        !self.live(cur.0 as int),
                        entry.live(cur.0 as int),
                        forall|j: int| #[trigger] self.live(j) ==> entry.live(j),
                        forall|j: int|
                            #[trigger] Tree::released(&entry, self, j) ==> j != 0 && (j == cur.0
                                || Tree::released(
                                &entry,
                                self,
                                orig.node(j).parent_of()->Some_0.0 as int,
                            )),
                        forall|j: int, i: int|
                            #[trigger] Tree::released(&entry, self, j) && j != cur.0 && 0 <= i
                                < orig.kids(j).len() ==> !self.live(
                                #[trigger] orig.kids(j)[i].0 as int,
                            ),
                        forall|i: int|
                            k <= i < node.children@.len() ==> !self.live(
                                #[trigger] node.children@[i].0 as int,
                            ),
                        self.free_list@.len() >= entry.free_list@.len(),
                        self.free_list@.subrange(0, entry.free_list@.len() as int)
                            == entry.free_list@,
                        forall|i: int|
                            entry.free_list@.len() <= i < self.free_list@.len()
                                ==> Tree::released(&entry, self, #[trigger] self.free_list@[i].0 as int),
                        forall|j: int|
                            #[trigger] Tree::released(&entry, self, j) ==> self.free_list@.subrange(
                                entry.free_list@.len() as int,
                                self.free_list@.len() as int,
                            ).contains(NodeId(j as usize)),
                    decreases k,
                {
                    k = k - 1;
                    let c = node.children[k];
                    assert(orig.child_ok(cur.0 as int, c.0 as int));
                    let ghost mid = *self;
                    self.release_subtree(c, Ghost(orig));
                    assert forall|j: int| #[trigger]
                        Tree::released(&entry, self, j) implies j != 0 && (j == cur.0
                        || Tree::released(
                        &entry,
                        self,
                        orig.node(j).parent_of()->Some_0.0 as int,
                    )) by {
                        if Tree::released(&mid, self, j) {
                            if j == c.0 {
                                assert(orig.node(j).parent_of() == Some(cur));
                            } else {
                                let pj = orig.node(j).parent_of()->Some_0.0 as int;
                                assert(Tree::released(&mid, self, pj));
                                assert(mid.live(pj));
                            }
                        } else {
                            assert(Tree::released(&entry, &mid, j));
                            if j != cur.0 {
                                let pj = orig.node(j).parent_of()->Some_0.0 as int;
                                assert(Tree::released(&entry, &mid, pj));
                                assert(!mid.live(pj));
                            }
                        }
                    }
                    assert forall|j: int, i: int|
                        #[trigger] Tree::released(&entry, self, j) && j != cur.0 && 0 <= i
                            < orig.kids(j).len() implies !self.live(
                        #[trigger] orig.kids(j)[i].0 as int,
                    ) by {
                        if Tree::released(&mid, self, j) {
                        } else {
                            assert(Tree::released(&entry, &mid, j));
                        }
                    }
                    assert forall|i: int|
                        k <= i < node.children@.len() implies !self.live(
                        #[trigger] node.children@[i].0 as int,
                    ) by {
                        if i > k {
                            assert(!mid.live(node.children@[i].0 as int));
                        }
                    }
                    assert(self.free_list@.subrange(0, entry.free_list@.len() as int)
                        =~= entry.free_list@) by {
                        assert(self.free_list@.subrange(0, mid.free_list@.len() as int)
                            == mid.free_list@);
                    }
                    assert forall|i: int|
                        entry.free_list@.len() <= i < self.free_list@.len() implies Tree::released(
                        &entry,
                        self,
                        #[trigger] self.free_list@[i].0 as int,
                    ) by {
                        if i < mid.free_list@.len() {
                            assert(self.free_list@[i] == self.free_list@.subrange(0, mid.free_list@.len() as int)[i]);
                        }
                    }
                    assert forall|j: int| #[trigger]
                        Tree::released(&entry, self, j) implies self.free_list@.subrange(
                        entry.free_list@.len() as int,
                        self.free_list@.len() as int,
                    ).contains(NodeId(j as usize)) by {
                        let sfx = self.free_list@.subrange(
                            entry.free_list@.len() as int,
                            self.free_list@.len() as int,
                        );
                        if Tree::released(&mid, self, j) {
                            let s2 = self.free_list@.subrange(
                                mid.free_list@.len() as int,
                                self.free_list@.len() as int,
                            );
                            let w = choose|w: int| 0 <= w < s2.len() && s2[w] == NodeId(j as usize);
                            assert(sfx[w + mid.free_list@.len() - entry.free_list@.len()] == NodeId(j as usize));
                        } else {
                            assert(Tree::released(&entry, &mid, j));
                            let s1 = mid.free_list@.subrange(
                                entry.free_list@.len() as int,
                                mid.free_list@.len() as int,
                            );
                            let w = choose|w: int| 0 <= w < s1.len() && s1[w] == NodeId(j as usize);
                            assert(self.free_list@.subrange(0, mid.free_list@.len() as int)
                                == mid.free_list@);
                            assert(self.free_list@[w + entry.free_list@.len()] == mid.free_list@[w + entry.free_list@.len()]);
                            assert(sfx[w] == NodeId(j as usize));
                        }
                    }
                }
            },
        }
    }
}


impl Tree {
    proof fn lemma_released_under(orig: &Tree, after: &Tree, id: int, j: int)
        requires
            orig.wf(),
            Tree::released(orig, after, j),
            forall|x: int|
                #[trigger] Tree::released(orig, after, x) ==> x != 0 && (x == id
                    || Tree::released(orig, after, orig.node(x).parent_of()->Some_0.0 as int)),
        ensures
            orig.rank@[j] >= orig.rank@[id],
            j != id ==> orig.rank@[j] > orig.rank@[id],
        decreases orig.rank@[j],
    {
        if j != id {
            assert(orig.node_ok(j));
            let p = orig.node(j).parent_of()->Some_0.0 as int;
            let pn = orig.nodes@[p]->Some_0;
            assert(orig.node_ok(p));
            let w = choose|w: int| 0 <= w < pn.children@.len() && pn.children@[w] == NodeId(j as usize);
            assert(pn.children@[w].0 as int == j);
            assert(orig.child_ok(p, pn.children@[w].0 as int));
            assert(orig.rank@[p] < orig.rank@[j]);
            Tree::lemma_released_under(orig, after, id, p);
        }
    }

    /// Remove `id` and all its descendants; their slots go to the free list.
    ///
    /// The released slots are exactly `id` and, with each released slot, all
    /// of its children: every released slot other than `id` has a released
    /// parent. `id` leaves its parent's children.
    pub fn remove_node(&mut self, id: NodeId)
        requires
            old(self).wf(),
            old(self).live(id.0 as int),
            id.0 != 0,
        ensures
            final(self).wf(),
            final(self).slots().len() == old(self).slots().len(),
            final(self).root_id() == old(self).root_id(),
            final(self).focus() == old(self).focus(),
            Tree::released(old(self), final(self), id.0 as int),
            forall|j: int| #[trigger] final(self).live(j) ==> old(self).live(j),
            forall|j: int|
                #[trigger] Tree::released(old(self), final(self), j) && j != id.0
                    ==> Tree::released(
                    old(self),
                    final(self),
                    old(self).node(j).parent_of()->Some_0.0 as int,
                ),
            forall|j: int, k: int|
                #[trigger] Tree::released(old(self), final(self), j) && 0 <= k < old(self).kids(
                    j,
                ).len() ==> Tree::released(
                    old(self),
                    final(self),
                    #[trigger] old(self).kids(j)[k].0 as int,
                ),
            ({
                let p = old(self).node(id.0 as int).parent_of()->Some_0.0 as int;
                &&& final(self).live(p)
                &&& exists|w: int|
                    0 <= w < old(self).kids(p).len() && old(self).kids(p)[w] == id
                        && final(self).kids(p) == old(self).kids(p).remove(w)
                &&& final(self).data(p) == old(self).data(p)
                &&& final(self).node(p).parent_of() == old(self).node(p).parent_of()
                &&& forall|j: int|
                    #[trigger] final(self).live(j) && j != p ==> final(self).slots()[j] == old(
                        self,
                    ).slots()[j]
            }),
            forall|j: int| final(self).rank_of(j) == old(self).rank_of(j),
            final(self).free().len() >= old(self).free().len(),
            final(self).free().subrange(0, old(self).free().len() as int) == old(self).free(),
            forall|k: int|
                old(self).free().len() <= k < final(self).free().len() ==> Tree::released(
                    old(self),
                    final(self),
                    #[trigger] final(self).free()[k].0 as int,
                ),
            forall|j: int|
                #[trigger] Tree::released(old(self), final(self), j) ==> final(self).free().subrange(
                    old(self).free().len() as int,
                    final(self).free().len() as int,
                ).contains(NodeId(j as usize)),
    {
        let ghost orig = *self;
        assert(orig.node_ok(id.0 as int));
        let pid = match &self.nodes[id.0] {
            Some(n) => n.parent.unwrap(),
            None => NodeId(0),
        };
        let ghost p = pid.0 as int;
        assert(orig.node_ok(p));
        let ghost pn = orig.nodes@[p]->Some_0;
        let ghost w0 = choose|w: int| 0 <= w < pn.children@.len() && pn.children@[w] == id;
        assert(orig.child_ok(p, pn.children@[w0].0 as int));
        self.release_subtree(id, Ghost(orig));
        let ghost rel = *self;
        assert(!Tree::released(&orig, &rel, p)) by {
            if Tree::released(&orig, &rel, p) {
                Tree::lemma_released_under(&orig, &rel, id.0 as int, p);
            }
        }
        let mut pnode = self.nodes[pid.0].take();
        assert(self.nodes@ == rel.nodes@.update(p, None));
        let mut idx: usize = 0;
        match pnode {
            Some(ref mut pn_exec) => {
                while idx < pn_exec.children.len() && pn_exec.children[idx] != id
                    invariant
                        pn_exec.children@ == pn.children@,
                        0 <= w0 < pn.children@.len(),
                        pn.children@[w0] == id,
                        idx <= w0,
                        forall|a: int, b: int|
                            0 <= a < b < pn.children@.len() ==> pn.children@[a] != pn.children@[b],
                    decreases pn.children@.len() - idx,
                {
                    idx = idx + 1;
                }
                assert(idx == w0);
                pn_exec.children.remove(idx);
            },
            None => {},
        }
        self.nodes.set(pid.0, pnode);
        assert(self.nodes@ == rel.nodes@.update(p, pnode));
        proof {
            let fin = *self;
            assert forall|j: int| #[trigger] fin.live(j) == rel.live(j) by {
                if j != p && 0 <= j < fin.nodes@.len() {
                    assert(fin.nodes@[j] == rel.nodes@[j]);
                }
            }
            assert forall|j: int| #[trigger] fin.live(j) && j != p implies fin.slots()[j] == orig.slots()[j] by {
                assert(fin.nodes@[j] == rel.nodes@[j]);
                assert(rel.nodes@[j] is None || rel.nodes@[j] == orig.nodes@[j]);
            }
            assert forall|j: int| #[trigger] Tree::released(&orig, &fin, j) == Tree::released(&orig, &rel, j) by {
            }
            assert forall|i: int| #[trigger] fin.live(i) implies fin.node_ok(i) by {
                assert(orig.live(i));
                assert(orig.node_ok(i));
                let n = fin.nodes@[i]->Some_0;
                let on = orig.nodes@[i]->Some_0;
                assert forall|k: int| 0 <= k < n.children@.len() implies #[trigger] fin.child_ok(
                    i,
                    n.children@[k].0 as int,
                ) by {
                    let c = n.children@[k].0 as int;
                    if i == p {
                        let kk = if k < w0 { k } else { k + 1 };
                        assert(n.children@[k] == on.children@[kk]);
                        assert(orig.child_ok(i, c));
                        if Tree::released(&orig, &rel, c) {
                            assert(c != id.0);
                            assert(Tree::released(&orig, &rel, p));
                        }
                    } else {
                        assert(n.children@[k] == on.children@[k]);
                        assert(orig.child_ok(i, c));
                        if Tree::released(&orig, &rel, c) {
                            assert(c != id.0);
                            assert(Tree::released(&orig, &rel, i));
                        }
                    }
                }
                if i != 0 {
                    let pp = on.parent->Some_0.0 as int;
                    let ppn = orig.nodes@[pp]->Some_0;
                    let w = choose|w: int| 0 <= w < ppn.children@.len() && ppn.children@[w] == NodeId(i as usize);
                    if Tree::released(&orig, &rel, pp) {
                        assert(orig.kids(pp)[w].0 as int == i);
                        assert(!rel.live(orig.kids(pp)[w].0 as int));
                    }
                    if pp == p {
                        assert(i != id.0);
                        let ww = if w < w0 { w } else { w - 1 };
                        assert(fin.nodes@[pp]->Some_0.children@[ww] == NodeId(i as usize));
                    } else {
                        assert(fin.live(pp));
                        assert(fin.nodes@[pp] == orig.nodes@[pp]);
                        assert(fin.nodes@[pp]->Some_0.children@[w] == NodeId(i as usize));
                    }
                }
            }
            assert forall|k: int| 0 <= k < fin.free_list@.len() implies {
                let f = #[trigger] fin.free_list@[k].0 as int;
                0 <= f < fin.nodes@.len() && fin.nodes@[f] is None
            } by {
                let f = fin.free_list@[k].0 as int;
                assert(rel.nodes@[f] is None);
            }
            assert(fin.kids(p) =~= orig.kids(p).remove(w0));
            assert forall|j: int, k: int|
                #[trigger] Tree::released(&orig, &fin, j) && 0 <= k < orig.kids(j).len()
                    implies Tree::released(&orig, &fin, #[trigger] orig.kids(j)[k].0 as int) by {
                assert(orig.node_ok(j));
                assert(orig.child_ok(j, orig.kids(j)[k].0 as int));
                assert(!rel.live(orig.kids(j)[k].0 as int));
            }
            assert(fin.root == NodeId(0));
            assert(fin.nodes@.len() <= usize::MAX);
            assert(!Tree::released(&orig, &rel, 0));
            assert(rel.live(0));
            assert(fin.live(0));
            assert(forall|a: int, b: int|
                0 <= a < b < fin.free_list@.len() ==> fin.free_list@[a] != fin.free_list@[b]);
        }
    }
}


impl Tree {
    /// `self` differs from `old` at most in the data of slot `i`.
    pub open spec fn only_data_changed(&self, old: &Tree, i: int) -> bool {
        &&& self.slots().len() == old.slots().len()
        &&& self.live(i)
        &&& old.live(i)
        &&& self.kids(i) == old.kids(i)
        &&& self.node(i).parent_of() == old.node(i).parent_of()
        &&& self.same_slots_except(old, set![i])
        &&& self.free() == old.free()
        &&& self.root_id() == old.root_id()
        &&& self.focus() == old.focus()
        &&& forall|j: int| self.rank_of(j) == old.rank_of(j)
    }

    /// Replace the data of live node `id`, returning the previous data.
    fn replace_data(&mut self, id: NodeId, data: NodeData) -> (prev: NodeData)
        requires
            old(self).wf(),
            old(self).live(id.0 as int),
            id.0 != 0 || data is Root,
        ensures
            final(self).wf(),
            final(self).only_data_changed(old(self), id.0 as int),
            final(self).data(id.0 as int) == data,
            prev == old(self).data(id.0 as int),
    {
        let ghost t0 = *self;
        let slot = self.nodes[id.0].take();
        let prev = match slot {
            Some(n) => {
                let Node { parent, children, data: od } = n;
                self.nodes.set(id.0, Some(Node { parent, children, data }));
                od
            },
            None => NodeData::Root,
        };
        proof {
            let t1 = *self;
            assert(t0.node_ok(id.0 as int));
            assert forall|i: int| 0 <= i < t1.nodes@.len() && i != id.0 implies t1.nodes@[i] == t0.nodes@[i] by {}
            assert forall|i: int| #[trigger] t1.live(i) implies t1.node_ok(i) by {
                assert(t0.live(i));
                assert(t0.node_ok(i));
                let n = t1.nodes@[i]->Some_0;
                assert forall|k: int| 0 <= k < n.children@.len() implies #[trigger] t1.child_ok(
                    i,
                    n.children@[k].0 as int,
                ) by {
                    assert(t0.child_ok(i, n.children@[k].0 as int));
                }
            }
        }
        prev
    }

    /// Slot `i` holds a container.
    pub open spec fn is_container(&self, i: int) -> bool {
        self.live(i) && self.data(i) is Container
    }

    /// Append a weight of one child (100) to the sizes of `container`.
    pub fn add_container_size(&mut self, container: NodeId) -> (r: Result<(), TilingError>)
        requires
            old(self).wf(),
        ensures
            final(self).wf(),
            !old(self).live(container.0 as int) ==> r == Err::<(), _>(TilingError::NodeNotFound(container)) && *final(self) == *old(self),
            old(self).live(container.0 as int) && !old(self).is_container(container.0 as int)
                ==> r == Err::<(), _>(TilingError::NotAContainer(container)) && *final(self) == *old(self),
            old(self).is_container(container.0 as int) ==> {
                &&& r is Ok
                &&& final(self).only_data_changed(old(self), container.0 as int)
                &&& final(self).data(container.0 as int) matches NodeData::Container {
                    layout: l2,
                    sizes: s2,
                    focused_child: f2,
                }
                &&& old(self).data(container.0 as int) matches NodeData::Container {
                    layout: l1,
                    sizes: s1,
                    focused_child: f1,
                }
                &&& l2 == l1 && f2 == f1 && s2@ == s1@.push(100)
            },
    {
        if container.0 >= self.nodes.len() || self.nodes[container.0].is_none() {
            return Err(TilingError::NodeNotFound(container));
        }
        let is_c = match &self.nodes[container.0] {
            Some(n) => match &n.data {
                NodeData::Container { .. } => true,
                _ => false,
            },
            None => false,
        };
        if !is_c {
            return Err(TilingError::NotAContainer(container));
        }
        let d = self.replace_data(container, NodeData::Root);
        match d {
            NodeData::Container { layout, sizes, focused_child } => {
                let mut sizes = sizes;
                sizes.push(100);
                self.replace_data(container, NodeData::Container { layout, sizes, focused_child });
            },
            other => {
                self.replace_data(container, other);
            },
        }
        Ok(())
    }
}


/// The focused-child index after a container's sizes shrank to `len` entries.
pub open spec fn clamp_focus(f: usize, len: nat) -> usize {
    if len > 0 && f >= len {
        (len - 1) as usize
    } else if len == 0 {
        0
    } else {
        f
    }
}

impl Tree {
    /// Read the data kind of `id`: 0 dead, 1 container, 2 other.
    fn kind_of(&self, id: NodeId) -> (k: u8)
        ensures
            k == 0 <==> !self.live(id.0 as int),
            k == 1 <==> self.is_container(id.0 as int),
    {
        if id.0 >= self.nodes.len() {
            return 0;
        }
        match &self.nodes[id.0] {
            None => 0,
            Some(n) => match &n.data {
                NodeData::Container { .. } => 1,
                _ => 2,
            },
        }
    }

    /// Remove the size entry at `child_index` (when in range) and keep the
    /// focused child within the remaining entries.
    pub fn remove_container_size(&mut self, container: NodeId, child_index: usize) -> (r: Result<
        (),
        TilingError,
    >)
        requires
            old(self).wf(),
        ensures
            final(self).wf(),
            !old(self).live(container.0 as int) ==> r == Err::<(), _>(TilingError::NodeNotFound(container)) && *final(self) == *old(self),
            old(self).live(container.0 as int) && !old(self).is_container(container.0 as int)
                ==> r == Err::<(), _>(TilingError::NotAContainer(container)) && *final(self) == *old(self),
            old(self).is_container(container.0 as int) ==> {
                &&& r is Ok
                &&& final(self).only_data_changed(old(self), container.0 as int)
                &&& final(self).data(container.0 as int) matches NodeData::Container {
                    layout: l2,
                    sizes: s2,
                    focused_child: f2,
                }
                &&& old(self).data(container.0 as int) matches NodeData::Container {
                    layout: l1,
                    sizes: s1,
                    focused_child: f1,
                }
                &&& l2 == l1
                &&& s2@ == (if child_index < s1@.len() {
                    s1@.remove(child_index as int)
                } else {
                    s1@
                })
                &&& f2 == clamp_focus(f1, s2@.len())
            },
    {
        let k = self.kind_of(container);
        if k == 0 {
            return Err(TilingError::NodeNotFound(container));
        }
        if k != 1 {
            return Err(TilingError::NotAContainer(container));
        }
        let d = self.replace_data(container, NodeData::Root);
        match d {
            NodeData::Container { layout, sizes, focused_child } => {
                let mut sizes = sizes;
                let mut focused_child = focused_child;
                if child_index < sizes.len() {
                    sizes.remove(child_index);
                }
                if !sizes.is_empty() && focused_child >= sizes.len() {
                    focused_child = sizes.len() - 1;
                } else if sizes.is_empty() {
                    focused_child = 0;
                }
                self.replace_data(container, NodeData::Container { layout, sizes, focused_child });
            },
            other => {
                self.replace_data(container, other);
            },
        }
        Ok(())
    }

    /// Set the layout of a container.
    pub fn set_layout(&mut self, container: NodeId, layout: Layout) -> (r: Result<(), TilingError>)
        requires
            old(self).wf(),
        ensures
            final(self).wf(),
            !old(self).live(container.0 as int) ==> r == Err::<(), _>(TilingError::NodeNotFound(container)) && *final(self) == *old(self),
            old(self).live(container.0 as int) && !old(self).is_container(container.0 as int)
                ==> r == Err::<(), _>(TilingError::NotAContainer(container)) && *final(self) == *old(self),
            old(self).is_container(container.0 as int) ==> {
                &&& r is Ok
                &&& final(self).only_data_changed(old(self), container.0 as int)
                &&& final(self).data(container.0 as int) matches NodeData::Container {
                    layout: l2,
                    sizes: s2,
                    focused_child: f2,
                }
                &&& old(self).data(container.0 as int) matches NodeData::Container {
                    layout: l1,
                    sizes: s1,
                    focused_child: f1,
                }
                &&& l2 == layout && s2@ == s1@ && f2 == f1
            },
    {
        let k = self.kind_of(container);
        if k == 0 {
            return Err(TilingError::NodeNotFound(container));
        }
        if k != 1 {
            return Err(TilingError::NotAContainer(container));
        }
        let d = self.replace_data(container, NodeData::Root);
        match d {
            NodeData::Container { layout: _, sizes, focused_child } => {
                self.replace_data(container, NodeData::Container { layout, sizes, focused_child });
            },
            other => {
                self.replace_data(container, other);
            },
        }
        Ok(())
    }

    /// The focused child of a container: the child at its focused index, if any.
    pub fn focused_child(&self, container: NodeId) -> (r: Result<Option<NodeId>, TilingError>)
        ensures
            !self.live(container.0 as int) ==> r == Err::<Option<NodeId>, _>(TilingError::NodeNotFound(container)),
            self.live(container.0 as int) && !self.is_container(container.0 as int) ==> r == Err::<
                Option<NodeId>,
                _,
            >(TilingError::NotAContainer(container)),
            self.is_container(container.0 as int) ==> {
                let f = self.data(container.0 as int)->Container_focused_child;
                r == Ok::<_, TilingError>(
                    if f < self.kids(container.0 as int).len() {
                        Some(self.kids(container.0 as int)[f as int])
                    } else {
                        None
                    },
                )
            },
    {
        if container.0 >= self.nodes.len() {
            return Err(TilingError::NodeNotFound(container));
        }
        match &self.nodes[container.0] {
            None => Err(TilingError::NodeNotFound(container)),
            Some(n) => match &n.data {
                NodeData::Container { focused_child, .. } => {
                    if *focused_child < n.children.len() {
                        Ok(Some(n.children[*focused_child]))
                    } else {
                        Ok(None)
                    }
                },
                _ => Err(TilingError::NotAContainer(container)),
            },
        }
    }

    /// An owned copy of the children of `id`.
    fn children_vec(&self, id: NodeId) -> (r: Vec<NodeId>)
        ensures
            r@ == self.children_view(id.0 as int),
    {
        let cs = self.children(id);
        let mut r: Vec<NodeId> = Vec::new();
        let mut i: usize = 0;
        while i < cs.len()
            invariant
                i <= cs@.len(),
                r@ == cs@.take(i as int),
            decreases cs@.len() - i,
        {
            r.push(cs[i]);
            assert(cs@.take(i as int + 1) =~= cs@.take(i as int).push(cs@[i as int]));
            i = i + 1;
        }
        assert(cs@.take(i as int) =~= cs@);
        r
    }

    /// Position of `child` among the children of `parent` (first occurrence).
    fn child_position(&self, parent: NodeId, child: NodeId) -> (r: Option<usize>)
        ensures
            r is None ==> !self.children_view(parent.0 as int).contains(child),
            r matches Some(i) ==> i < self.children_view(parent.0 as int).len()
                && self.children_view(parent.0 as int)[i as int] == child && forall|j: int|
                0 <= j < i ==> self.children_view(parent.0 as int)[j] != child,
    {
        let cs = self.children(parent);
        let mut i: usize = 0;
        while i < cs.len()
            invariant
                cs@ == self.children_view(parent.0 as int),
                i <= cs@.len(),
                forall|j: int| 0 <= j < i ==> cs@[j] != child,
            decreases cs@.len() - i,
        {
            if cs[i] == child {
                return Some(i);
            }
            i = i + 1;
        }
        None
    }

    /// Focus `child` in `container`: set the focused index to its position.
    pub fn set_focused_child(&mut self, container: NodeId, child: NodeId) -> (r: Result<
        (),
        TilingError,
    >)
        requires
            old(self).wf(),
        ensures
            final(self).wf(),
            !old(self).children_view(container.0 as int).contains(child) ==> r == Err::<(), _>(TilingError::NotAContainer(container)) && *final(self) == *old(self),
            old(self).children_view(container.0 as int).contains(child) && !old(self).is_container(container.0 as int)
                ==> r == Err::<(), _>(TilingError::NotAContainer(container)) && *final(self) == *old(self),
            old(self).children_view(container.0 as int).contains(child) && old(self).is_container(container.0 as int) ==> {
                &&& r is Ok
                &&& final(self).only_data_changed(old(self), container.0 as int)
                &&& final(self).data(container.0 as int) matches NodeData::Container {
                    layout: l2,
                    sizes: s2,
                    focused_child: f2,
                }
                &&& old(self).data(container.0 as int) matches NodeData::Container {
                    layout: l1,
                    sizes: s1,
                    focused_child: f1,
                }
                &&& l2 == l1 && s2@ == s1@
                &&& old(self).kids(container.0 as int)[f2 as int] == child
            },
    {
        let index = match self.child_position(container, child) {
            Some(i) => i,
            None => return Err(TilingError::NotAContainer(container)),
        };
        let k = self.kind_of(container);
        if k == 0 {
            return Err(TilingError::NodeNotFound(container));
        }
        if k != 1 {
            return Err(TilingError::NotAContainer(container));
        }
        let d = self.replace_data(container, NodeData::Root);
        match d {
            NodeData::Container { layout, sizes, focused_child: _ } => {
                self.replace_data(
                    container,
                    NodeData::Container { layout, sizes, focused_child: index },
                );
            },
            other => {
                self.replace_data(container, other);
            },
        }
        Ok(())
    }
}


impl Tree {
    /// How many more nodes the arena can take: free slots plus unused indices.
    pub open spec fn room(&self) -> int {
        self.free().len() + (usize::MAX - self.slots().len())
    }

    /// Slot `i` holds a workspace.
    pub open spec fn is_ws(&self, i: int) -> bool {
        self.live(i) && self.data(i) is Workspace
    }

    /// Slot `i` holds a visible workspace.
    pub open spec fn ws_visible(&self, i: int) -> bool {
        self.is_ws(i) && self.data(i)->Workspace_is_visible
    }

    /// Slot `i` holds a workspace called `name`.
    pub open spec fn ws_named(&self, i: int, name: Seq<char>) -> bool {
        self.is_ws(i) && self.data(i)->Workspace_name@ == name
    }

    /// Slot `i` holds an output.
    pub open spec fn is_output(&self, i: int) -> bool {
        self.live(i) && self.data(i) is Output
    }

    /// Children of `o`, each paired with `o`.
    pub open spec fn pairs_of(&self, o: NodeId) -> Seq<(NodeId, NodeId)> {
        self.children_view(o.0 as int).map_values(|c: NodeId| (c, o))
    }

    /// The children of each node of `outs` in turn, paired with that node.
    pub open spec fn flat_pairs(&self, outs: Seq<NodeId>) -> Seq<(NodeId, NodeId)>
        decreases outs.len(),
    {
        if outs.len() == 0 {
            Seq::empty()
        } else {
            self.flat_pairs(outs.drop_last()) + self.pairs_of(outs.last())
        }
    }

    /// The grandchildren of the root (the workspace level), in order, each
    /// paired with its output.
    pub open spec fn level2(&self) -> Seq<(NodeId, NodeId)> {
        self.flat_pairs(self.children_view(self.root_id().0 as int))
    }

    pub open spec fn visible_pred(&self) -> spec_fn((NodeId, NodeId)) -> bool {
        |p: (NodeId, NodeId)| self.ws_visible(p.0.0 as int)
    }

    pub open spec fn named_pred(&self, name: Seq<char>) -> spec_fn((NodeId, NodeId)) -> bool {
        |p: (NodeId, NodeId)| self.ws_named(p.0.0 as int, name)
    }

    /// The first visible workspace of the workspace level.
    pub open spec fn spec_focused_workspace(&self) -> Option<NodeId> {
        let l = self.level2();
        let k = first_where(l, self.visible_pred());
        if k < l.len() {
            Some(l[k as int].0)
        } else {
            None
        }
    }

    /// The first workspace called `name` of the workspace level, with its output.
    pub open spec fn spec_find_workspace(&self, name: Seq<char>) -> Option<(NodeId, NodeId)> {
        let l = self.level2();
        let k = first_where(l, self.named_pred(name));
        if k < l.len() {
            Some(l[k as int])
        } else {
            None
        }
    }

    /// The workspace level as exec pairs (workspace-level node, output).
    fn level2_pairs(&self) -> (r: Vec<(NodeId, NodeId)>)
        ensures
            r@ == self.level2(),
    {
        let outs = self.children(self.root);
        let mut res: Vec<(NodeId, NodeId)> = Vec::new();
        let mut i: usize = 0;
        while i < outs.len()
            invariant
                outs@ == self.children_view(self.root_id().0 as int),
                i <= outs@.len(),
                res@ == self.flat_pairs(outs@.take(i as int)),
            decreases outs@.len() - i,
        {
            let o = outs[i];
            let cs = self.children(o);
            let mut j: usize = 0;
            while j < cs.len()
                invariant
                    outs@ == self.children_view(self.root_id().0 as int),
                    i < outs@.len(),
                    o == outs@[i as int],
                    cs@ == self.children_view(o.0 as int),
                    j <= cs@.len(),
                    res@ == self.flat_pairs(outs@.take(i as int)) + self.pairs_of(o).take(j as int),
                decreases cs@.len() - j,
            {
                res.push((cs[j], o));
                assert(self.pairs_of(o).take(j as int + 1) =~= self.pairs_of(o).take(j as int).push((cs@[j as int], o)));
                j = j + 1;
            }
            assert(outs@.take(i as int + 1).drop_last() =~= outs@.take(i as int));
            assert(self.pairs_of(o).take(j as int) =~= self.pairs_of(o));
            i = i + 1;
        }
        assert(outs@.take(i as int) =~= outs@);
        res
    }

    /// Whether slot `id` holds a visible workspace (exec).
    fn check_ws_visible(&self, id: NodeId) -> (b: bool)
        ensures
            b == self.ws_visible(id.0 as int),
    {
        if id.0 >= self.nodes.len() {
            return false;
        }
        match &self.nodes[id.0] {
            Some(n) => match &n.data {
                NodeData::Workspace { is_visible, .. } => *is_visible,
                _ => false,
            },
            None => false,
        }
    }

    /// Whether slot `id` holds a workspace called `name` (exec).
    fn check_ws_named(&self, id: NodeId, name: &str) -> (b: bool)
        ensures
            b == self.ws_named(id.0 as int, name@),
    {
        if id.0 >= self.nodes.len() {
            return false;
        }
        match &self.nodes[id.0] {
            Some(n) => match &n.data {
                NodeData::Workspace { name: ws_name, .. } => str_eq(ws_name.as_str(), name),
                _ => false,
            },
            None => false,
        }
    }

    /// The first visible workspace, outputs in order, workspaces in order.
    pub fn focused_workspace(&self) -> (r: Option<NodeId>)
        ensures
            r == self.spec_focused_workspace(),
    {
        let l = self.level2_pairs();
        let ghost p = self.visible_pred();
        let mut k: usize = 0;
        while k < l.len()
            invariant
                l@ == self.level2(),
                k <= l@.len(),
                p == self.visible_pred(),
                forall|j: int| 0 <= j < k ==> !p(#[trigger] l@[j]),
            decreases l@.len() - k,
        {
            if self.check_ws_visible(l[k].0) {
                proof {
                    lemma_first_where_at(l@, p, k as int);
                }
                return Some(l[k].0);
            }
            k = k + 1;
        }
        proof {
            lemma_first_where_at(l@, p, k as int);
        }
        None
    }

    /// The first workspace called `name`, with its output.
    fn find_workspace_by_name(&self, name: &str) -> (r: Option<(NodeId, NodeId)>)
        ensures
            r == self.spec_find_workspace(name@),
    {
        let l = self.level2_pairs();
        let ghost p = self.named_pred(name@);
        let mut k: usize = 0;
        while k < l.len()
            invariant
                l@ == self.level2(),
                k <= l@.len(),
                p == self.named_pred(name@),
                forall|j: int| 0 <= j < k ==> !p(#[trigger] l@[j]),
            decreases l@.len() - k,
        {
            if self.check_ws_named(l[k].0, name) {
                proof {
                    lemma_first_where_at(l@, p, k as int);
                }
                return Some(l[k]);
            }
            k = k + 1;
        }
        proof {
            lemma_first_where_at(l@, p, k as int);
        }
        None
    }

    /// The first workspace called `name`.
    fn find_workspace_by_name_global(&self, name: &str) -> (r: Option<NodeId>)
        ensures
            r == (match self.spec_find_workspace(name@) {
                Some(p) => Some(p.0),
                None => None,
            }),
    {
        match self.find_workspace_by_name(name) {
            Some((w, _)) => Some(w),
            None => None,
        }
    }

    /// Register an output (monitor) under the root.
    pub fn add_output(&mut self, name: &str, geometry: Rect) -> (id: NodeId)
        requires
            old(self).wf(),
            old(self).room() >= 1,
        ensures
            final(self).wf(),
            final(self).live(id.0 as int),
            !old(self).live(id.0 as int),
            final(self).node(id.0 as int).parent_of() == Some(old(self).root_id()),
            final(self).kids(id.0 as int) == Seq::<NodeId>::empty(),
            final(self).data(id.0 as int) matches NodeData::Output { name: n, geometry: g }
                && n@ == name@ && g == geometry,
            final(self).kids(0) == old(self).kids(0).push(id),
            final(self).same_slots_except(old(self), set![id.0 as int, 0]),
            final(self).slots().len() >= old(self).slots().len(),
            final(self).room() == old(self).room() - 1,
    {
        let root = self.root;
        self.add_node(root, NodeData::Output { name: to_string(name), geometry })
    }
}


impl Tree {
    pub open spec fn named_child_pred(&self, name: Seq<char>) -> spec_fn(NodeId) -> bool {
        |c: NodeId| self.ws_named(c.0 as int, name)
    }

    /// Index of the first child of `o` that is a workspace called `name`.
    pub open spec fn first_named_child(&self, o: int, name: Seq<char>) -> nat {
        first_where(self.children_view(o), self.named_child_pred(name))
    }

    /// What adding workspace `name` under `output` of `old` leaves: the
    /// output's first child of that name with the tree unchanged, or else a
    /// new visible workspace of that name, last among the output's children,
    /// with nothing else changed.
    pub open spec fn workspace_added(&self, old: &Tree, output: NodeId, name: Seq<char>, id: NodeId) -> bool {
        let k = old.first_named_child(output.0 as int, name);
        if k < old.kids(output.0 as int).len() {
            id == old.kids(output.0 as int)[k as int] && *self == *old
        } else {
            &&& !old.live(id.0 as int)
            &&& self.live(id.0 as int)
            &&& self.node(id.0 as int).parent_of() == Some(output)
            &&& self.kids(id.0 as int) == Seq::<NodeId>::empty()
            &&& self.data(id.0 as int) matches NodeData::Workspace {
                name: n,
                output: o,
                is_visible: v,
            } && n@ == name && o == output && v
            &&& self.live(output.0 as int)
            &&& self.kids(output.0 as int) == old.kids(output.0 as int).push(id)
            &&& self.data(output.0 as int) == old.data(output.0 as int)
            &&& self.node(output.0 as int).parent_of() == old.node(
                output.0 as int,
            ).parent_of()
            &&& self.same_slots_except(old, set![id.0 as int, output.0 as int])
            &&& self.room() == old.room() - 1
        }
    }

    /// Create a workspace called `name` under `output` (visible), unless the
    /// output already has one of that name, which is then returned.
    pub fn add_workspace(&mut self, output: NodeId, name: &str) -> (id: NodeId)
        requires
            old(self).wf(),
            old(self).live(output.0 as int),
            old(self).room() >= 1,
        ensures
            final(self).wf(),
            final(self).room() >= old(self).room() - 1,
            final(self).workspace_added(old(self), output, name@, id),
            final(self).ws_named(id.0 as int, name@),
            final(self).live(output.0 as int),
            final(self).kids(output.0 as int).contains(id),
            final(self).root_id() == old(self).root_id(),
            final(self).focus() == old(self).focus(),
            forall|j: int|
                #[trigger] old(self).live(j) ==> final(self).live(j) && final(self).data(j) == old(
                    self,
                ).data(j),
            forall|j: int|
                #[trigger] old(self).live(j) && j != output.0 ==> final(self).kids(j) == old(
                    self,
                ).kids(j),
            final(self).kids(output.0 as int) == old(self).kids(output.0 as int)
                || final(self).kids(output.0 as int) == old(self).kids(output.0 as int).push(id),
            forall|j: int| #[trigger] final(self).live(j) && !old(self).live(j) ==> j == id.0,
    {
        let cs = self.children(output);
        let ghost p = self.named_child_pred(name@);
        let mut k: usize = 0;
        while k < cs.len()
            invariant
                *self == *old(self),
                self.wf(),
                cs@ == self.children_view(output.0 as int),
                k <= cs@.len(),
                p == self.named_child_pred(name@),
                forall|j: int| 0 <= j < k ==> !p(#[trigger] cs@[j]),
            decreases cs@.len() - k,
        {
            if self.check_ws_named(cs[k], name) {
                proof {
                    lemma_first_where_at(cs@, p, k as int);
                }
                let found = cs[k];
                assert(self.wf());
                return found;
            }
            k = k + 1;
        }
        proof {
            lemma_first_where_at(cs@, p, k as int);
        }
        let ghost before = *self;
        let id = self.add_node(output, NodeData::Workspace { name: to_string(name), output, is_visible: true });
        assert(self.kids(output.0 as int).last() == id);
        assert forall|j: int| #[trigger] before.live(j) implies self.live(j) && self.data(j) == before.data(j) by {
            if j != output.0 {
                assert(self.slots()[j] == before.slots()[j]);
            }
        }
        assert forall|j: int| #[trigger] before.live(j) && j != output.0 implies self.kids(j) == before.kids(j) by {
            assert(self.slots()[j] == before.slots()[j]);
        }
        assert forall|j: int| #[trigger] self.live(j) && !before.live(j) implies j == id.0 by {
            if j != id.0 && j != output.0 && j < before.slots().len() {
                assert(self.slots()[j] == before.slots()[j]);
            }
        }
        id
    }

    /// Set the visibility flag of workspace `id`.
    fn set_ws_visible(&mut self, id: NodeId, v: bool)
        requires
            old(self).wf(),
            old(self).is_ws(id.0 as int),
        ensures
            final(self).wf(),
            final(self).only_data_changed(old(self), id.0 as int),
            final(self).data(id.0 as int) == (NodeData::Workspace {
                name: old(self).data(id.0 as int)->Workspace_name,
                output: old(self).data(id.0 as int)->Workspace_output,
                is_visible: v,
            }),
    {
        let d = self.replace_data(id, NodeData::Root);
        match d {
            NodeData::Workspace { name, output, is_visible: _ } => {
                self.replace_data(id, NodeData::Workspace { name, output, is_visible: v });
            },
            other => {
                self.replace_data(id, other);
            },
        }
    }

    /// `self` is `old` with every workspace child of `o` whose position is
    /// below `upto` made visible exactly when it is `target`.
    pub open spec fn visibility_set(&self, old: &Tree, o: int, target: NodeId, upto: int) -> bool {
        &&& self.slots().len() == old.slots().len()
        &&& self.free() == old.free()
        &&& self.root_id() == old.root_id()
        &&& self.focus() == old.focus()
        &&& forall|j: int|
            0 <= j < old.slots().len() ==> if old.is_ws(j) && old.children_view(o).take(upto).contains(
                NodeId(j as usize),
            ) {
                &&& self.live(j)
                &&& self.kids(j) == old.kids(j)
                &&& self.node(j).parent_of() == old.node(j).parent_of()
                &&& self.data(j) == (NodeData::Workspace {
                    name: old.data(j)->Workspace_name,
                    output: old.data(j)->Workspace_output,
                    is_visible: NodeId(j as usize) == target,
                })
            } else {
                #[trigger] self.slots()[j] == old.slots()[j]
            }
    }

    /// Make workspace `name` the visible one of its output: every workspace
    /// of that output becomes visible exactly when it is the target.
    pub fn switch_workspace(&mut self, name: &str) -> (r: bool)
        requires
            old(self).wf(),
        ensures
            final(self).wf(),
            match old(self).spec_find_workspace(name@) {
                None => !r && *final(self) == *old(self),
                Some(p) => r && final(self).visibility_set(
                    old(self),
                    p.1.0 as int,
                    p.0,
                    old(self).children_view(p.1.0 as int).len() as int,
                ),
            },
    {
        let ghost t0 = *self;
        let (target_id, output_id) = match self.find_workspace_by_name(name) {
            Some(v) => v,
            None => return false,
        };
        let siblings = self.children_vec(output_id);
        let ghost sib = siblings@;
        proof {
            if t0.live(output_id.0 as int) {
                assert(t0.node_ok(output_id.0 as int));
            }
            assert forall|j: int| 0 <= j < t0.slots().len() implies #[trigger] self.slots()[j] == t0.slots()[j]
                || (t0.is_ws(j) && sib.take(0).contains(NodeId(j as usize))) by {}
        }
        let mut k: usize = 0;
        while k < siblings.len()
            invariant
                self.wf(),
                siblings@ == sib,
                sib == t0.children_view(output_id.0 as int),
                forall|a: int, b: int| 0 <= a < b < sib.len() ==> sib[a] != sib[b],
                k <= sib.len(),
                self.visibility_set(&t0, output_id.0 as int, target_id, k as int),
            decreases sib.len() - k,
        {
            let ws_id = siblings[k];
            let ghost before = *self;
            assert(sib.take(k as int + 1) =~= sib.take(k as int).push(ws_id));
            assert(!sib.take(k as int).contains(ws_id));
            if ws_id.0 < self.nodes.len() {
                let is_ws = match &self.nodes[ws_id.0] {
                    Some(n) => match &n.data {
                        NodeData::Workspace { .. } => true,
                        _ => false,
                    },
                    None => false,
                };
                if is_ws {
                    assert(before.slots()[ws_id.0 as int] == t0.slots()[ws_id.0 as int]);
                    self.set_ws_visible(ws_id, ws_id == target_id);
                    assert forall|j: int| 0 <= j < t0.slots().len() && j != ws_id.0 implies #[trigger] self.slots()[j] == before.slots()[j] by {}
                } else {
                    assert(before.slots()[ws_id.0 as int] == t0.slots()[ws_id.0 as int]);
                }
            }
            proof {
                let after = *self;
                assert forall|j: int| 0 <= j < t0.slots().len() implies if t0.is_ws(j) && t0.children_view(output_id.0 as int).take(k as int + 1).contains(
                    NodeId(j as usize),
                ) {
                    &&& after.live(j)
                    &&& after.kids(j) == t0.kids(j)
                    &&& after.node(j).parent_of() == t0.node(j).parent_of()
                    &&& after.data(j) == (NodeData::Workspace {
                        name: t0.data(j)->Workspace_name,
                        output: t0.data(j)->Workspace_output,
                        is_visible: NodeId(j as usize) == target_id,
                    })
                } else {
                    #[trigger] after.slots()[j] == t0.slots()[j]
                } by {
                    let tk = sib.take(k as int);
                    let tk1 = sib.take(k as int + 1);
                    if j == ws_id.0 as int {
                        assert(tk1[k as int] == ws_id);
                    } else {
                        if tk1.contains(NodeId(j as usize)) {
                            let w = choose|w: int| 0 <= w < tk1.len() && tk1[w] == NodeId(j as usize);
                            assert(w < k);
                            assert(tk[w] == NodeId(j as usize));
                        }
                        if tk.contains(NodeId(j as usize)) {
                            let w = choose|w: int| 0 <= w < tk.len() && tk[w] == NodeId(j as usize);
                            assert(tk1[w] == NodeId(j as usize));
                        }
                        assert(after.slots()[j] == before.slots()[j]);
                    }
                }
            }
            k = k + 1;
        }
        true
    }
}


impl Tree {
    /// `(id, name, visible)` of each workspace in `l`, in order.
    pub open spec fn ws_entries(&self, l: Seq<(NodeId, NodeId)>) -> Seq<(NodeId, Seq<char>, bool)>
        decreases l.len(),
    {
        if l.len() == 0 {
            Seq::empty()
        } else {
            let rest = self.ws_entries(l.drop_last());
            let x = l.last().0;
            if self.is_ws(x.0 as int) {
                rest.push(
                    (
                        x,
                        self.data(x.0 as int)->Workspace_name@,
                        self.data(x.0 as int)->Workspace_is_visible,
                    ),
                )
            } else {
                rest
            }
        }
    }

    /// All workspaces as `(id, name, is_visible)`, outputs in order.
    pub fn workspaces(&self) -> (r: Vec<(NodeId, String, bool)>)
        ensures
            r@.map_values(|e: (NodeId, String, bool)| (e.0, e.1@, e.2)) == self.ws_entries(
                self.level2(),
            ),
    {
        let l = self.level2_pairs();
        let mut result: Vec<(NodeId, String, bool)> = Vec::new();
        let mut k: usize = 0;
        while k < l.len()
            invariant
                l@ == self.level2(),
                k <= l@.len(),
                result@.map_values(|e: (NodeId, String, bool)| (e.0, e.1@, e.2)) == self.ws_entries(
                    l@.take(k as int),
                ),
            decreases l@.len() - k,
        {
            let ws_id = l[k].0;
            assert(l@.take(k as int + 1).drop_last() =~= l@.take(k as int));
            if ws_id.0 < self.nodes.len() {
                match &self.nodes[ws_id.0] {
                    Some(n) => match &n.data {
                        NodeData::Workspace { name, is_visible, .. } => {
                            let ghost before = result@;
                            result.push((ws_id, name.clone(), *is_visible));
                            assert(result@.map_values(|e: (NodeId, String, bool)| (e.0, e.1@, e.2))
                                =~= before.map_values(|e: (NodeId, String, bool)| (e.0, e.1@, e.2)).push(
                                (ws_id, name@, *is_visible),
                            ));
                        },
                        _ => {},
                    },
                    None => {},
                }
            }
            k = k + 1;
        }
        assert(l@.take(k as int) =~= l@);
        result
    }

    /// What renaming workspace `from` of `old` to `to` leaves: the first
    /// workspace called `from` (outputs in order) is called `to`, and nothing
    /// else changed; without such a workspace nothing changes.
    pub open spec fn workspace_renamed(&self, old: &Tree, from: Seq<char>, to: Seq<char>) -> bool {
        match old.spec_find_workspace(from) {
            None => *self == *old,
            Some(p) => {
                &&& self.only_data_changed(old, p.0.0 as int)
                &&& self.data(p.0.0 as int) matches NodeData::Workspace {
                    name: n,
                    output: o,
                    is_visible: v,
                }
                &&& n@ == to
                &&& o == old.data(p.0.0 as int)->Workspace_output
                &&& v == old.data(p.0.0 as int)->Workspace_is_visible
            },
        }
    }

    /// Rename the first workspace called `old_name` (outputs in order).
    pub fn rename_workspace(&mut self, old_name: &str, new_name: &str) -> (r: bool)
        requires
            old(self).wf(),
        ensures
            final(self).wf(),
            r == old(self).spec_find_workspace(old_name@) is Some,
            final(self).workspace_renamed(old(self), old_name@, new_name@),
    {
        let (ws_id, _) = match self.find_workspace_by_name(old_name) {
            Some(v) => v,
            None => return false,
        };
        proof {
            lemma_first_where(self.level2(), self.named_pred(old_name@));
        }
        let d = self.replace_data(ws_id, NodeData::Root);
        match d {
            NodeData::Workspace { name: _, output, is_visible } => {
                self.replace_data(ws_id, NodeData::Workspace { name: to_string(new_name), output, is_visible });
            },
            other => {
                self.replace_data(ws_id, other);
            },
        }
        true
    }

    /// Output `o` already has a workspace child called `name`.
    pub open spec fn has_ws_named(&self, o: int, name: Seq<char>) -> bool {
        exists|k: int| 0 <= k < self.children_view(o).len() && self.ws_named(#[trigger] self.children_view(o)[k].0 as int, name)
    }

    /// Output `o` is one a workspace of output `wo` can be spanned onto.
    pub open spec fn span_target(&self, o: NodeId, wo: NodeId) -> bool {
        self.is_output(o.0 as int) && o != wo
    }

    /// Span workspace `workspace` onto `outputs`: each output (other than the
    /// workspace's own) gets a workspace of the same name unless it has one.
    /// Returns whether any workspace was created.
    #[verifier::spinoff_prover]
    #[verifier::rlimit(40)]
    pub fn span_workspace(&mut self, workspace: NodeId, outputs: &[NodeId]) -> (r: bool)
        requires
            old(self).wf(),
            old(self).room() >= outputs@.len(),
        ensures
            final(self).wf(),
            !old(self).is_ws(workspace.0 as int) ==> !r && *final(self) == *old(self),
            old(self).is_ws(workspace.0 as int) ==> ({
                let name = old(self).data(workspace.0 as int)->Workspace_name@;
                let wo = old(self).data(workspace.0 as int)->Workspace_output;
                &&& r == exists|k: int|
                    0 <= k < outputs@.len() && old(self).span_target(#[trigger] outputs@[k], wo)
                        && !old(self).has_ws_named(outputs@[k].0 as int, name)
                &&& forall|k: int|
                    0 <= k < outputs@.len() && old(self).span_target(#[trigger] outputs@[k], wo)
                        ==> final(self).has_ws_named(outputs@[k].0 as int, name)
                &&& forall|j: int| #[trigger] old(self).live(j) ==> final(self).live(j)
            }),
    {
        if !(workspace.0 < self.nodes.len()) {
            return false;
        }
        let (ws_name, wo) = match &self.nodes[workspace.0] {
            Some(n) => match &n.data {
                NodeData::Workspace { name, output, .. } => (name.clone(), *output),
                _ => return false,
            },
            None => return false,
        };
        let ghost t0 = *self;
        let ghost name = ws_name@;
        let mut any_added = false;
        let mut i: usize = 0;
        while i < outputs.len()
            invariant
                self.wf(),
                t0.wf(),
                t0.is_ws(workspace.0 as int),
                name == t0.data(workspace.0 as int)->Workspace_name@,
                ws_name@ == name,
                wo == t0.data(workspace.0 as int)->Workspace_output,
                i <= outputs@.len(),
                self.room() >= outputs@.len() - i,
                forall|j: int|
                    #[trigger] t0.live(j) ==> self.live(j) && self.data(j) == t0.data(j),
                forall|j: int| #[trigger] self.live(j) && !t0.live(j) ==> self.ws_named(j, name),
                forall|j: int| #[trigger] self.is_output(j) == t0.is_output(j),
                forall|o: int| t0.has_ws_named(o, name) ==> self.has_ws_named(o, name),
                forall|o: int|
                    self.has_ws_named(o, name) ==> t0.has_ws_named(o, name) || exists|k: int|
                        0 <= k < i && #[trigger] outputs@[k].0 == o,
                any_added == exists|k: int|
                    0 <= k < i && t0.span_target(#[trigger] outputs@[k], wo)
                        && !t0.has_ws_named(outputs@[k].0 as int, name),
                forall|k: int|
                    0 <= k < i && t0.span_target(#[trigger] outputs@[k], wo)
                        ==> self.has_ws_named(outputs@[k].0 as int, name),
            decreases outputs@.len() - i,
        {
            let o = outputs[i];
            let is_output = o.0 < self.nodes.len() && match &self.nodes[o.0] {
                Some(n) => match &n.data {
                    NodeData::Output { .. } => true,
                    _ => false,
                },
                None => false,
            };
            let ghost before = *self;
            if is_output && o != wo {
                let before_len = self.children(o).len();
                let new_ws = self.add_workspace(o, ws_name.as_str());
                let after_len = self.children(o).len();
                proof {
                    let k = before.first_named_child(o.0 as int, name);
                    lemma_first_where(before.children_view(o.0 as int), before.named_child_pred(name));
                    let found = k < before.kids(o.0 as int).len();
                    if found {
                        assert(before.ws_named(before.children_view(o.0 as int)[k as int].0 as int, name));
                        assert(before.has_ws_named(o.0 as int, name));
                    } else {
                        assert(!before.has_ws_named(o.0 as int, name));
                    }
                    assert(after_len > before_len <==> !before.has_ws_named(o.0 as int, name));
                    let w = choose|w: int| 0 <= w < self.kids(o.0 as int).len() && self.kids(o.0 as int)[w] == new_ws;
                    assert(self.ws_named(self.children_view(o.0 as int)[w].0 as int, name));
                    assert forall|oo: int| before.has_ws_named(oo, name) implies self.has_ws_named(oo, name) by {
                        let kk = choose|kk: int| 0 <= kk < before.children_view(oo).len() && before.ws_named(#[trigger] before.children_view(oo)[kk].0 as int, name);
                        if oo == o.0 {
                            assert(self.children_view(oo)[kk] == before.children_view(oo)[kk]);
                        } else {
                            assert(self.children_view(oo) == before.children_view(oo));
                        }
                        assert(self.ws_named(self.children_view(oo)[kk].0 as int, name));
                    }
                    assert forall|oo: int| self.has_ws_named(oo, name) implies t0.has_ws_named(oo, name) || exists|kx: int|
                        0 <= kx < i + 1 && #[trigger] outputs@[kx].0 == oo by {
                        if oo != o.0 {
                            let kk = choose|kk: int| 0 <= kk < self.children_view(oo).len() && self.ws_named(#[trigger] self.children_view(oo)[kk].0 as int, name);
                            if before.live(oo) {
                                assert(self.children_view(oo) == before.children_view(oo));
                                let c = before.children_view(oo)[kk].0 as int;
                                assert(before.node_ok(oo));
                                assert(before.child_ok(oo, c));
                                assert(self.data(c) == before.data(c));
                                assert(before.ws_named(before.children_view(oo)[kk].0 as int, name));
                                assert(before.has_ws_named(oo, name));
                            } else {
                                assert(!self.live(oo) || oo == new_ws.0);
                                assert(self.kids(new_ws.0 as int).len() == 0 || !self.live(oo));
                            }
                        } else {
                            assert(outputs@[i as int].0 == oo);
                        }
                    }
                    assert forall|j: int| #[trigger] self.is_output(j) == t0.is_output(j) by {
                        assert(before.is_output(j) == t0.is_output(j));
                        if before.live(j) {
                        } else if self.live(j) {
                            assert(j == new_ws.0);
                        }
                    }
                    assert forall|j: int| #[trigger] self.live(j) && !t0.live(j) implies self.ws_named(j, name) by {
                        if before.live(j) {
                            assert(before.ws_named(j, name));
                        } else {
                            assert(j == new_ws.0);
                        }
                    }
                }
                if after_len > before_len {
                    any_added = true;
                }
            }
            proof {
                assert(outputs@[i as int] == o);
                assert forall|k: int| 0 <= k < i + 1 && t0.span_target(#[trigger] outputs@[k], wo)
                    implies self.has_ws_named(outputs@[k].0 as int, name) by {
                    if k < i {
                        assert(before.has_ws_named(outputs@[k].0 as int, name));
                    }
                }
                if t0.span_target(o, wo) && !t0.has_ws_named(o.0 as int, name) {
                    assert(exists|k: int| 0 <= k < i + 1 && t0.span_target(#[trigger] outputs@[k], wo)
                        && !t0.has_ws_named(outputs@[k].0 as int, name));
                }
                if !any_added {
                    assert forall|k: int| 0 <= k < i + 1 && t0.span_target(#[trigger] outputs@[k], wo)
                        implies t0.has_ws_named(outputs@[k].0 as int, name) by {}
                }
            }
            i = i + 1;
        }
        any_added
    }
}


impl Tree {
    /// The subtree of `n` in preorder (node first, then each child's subtree in order).
    /// Distance of `n`'s rank below the rank bound: what walks down the tree
    /// decrease.
    pub closed spec fn depth_left(&self, n: int) -> int {
        self.rank_bound@ - self.rank@[n]
    }

    pub closed spec fn pre(&self, n: int) -> Seq<NodeId>
        decreases self.depth_left(n), 1int, 0int,
    {
        if self.wf() && self.live(n) {
            proof {
                assert(self.node_ok(n));
            }
            seq![NodeId(n as usize)] + self.pre_list(n, self.kids(n).len() as int)
        } else {
            Seq::empty()
        }
    }

    /// The subtrees of the first `k` children of `n`, in preorder.
    pub closed spec fn pre_list(&self, n: int, k: int) -> Seq<NodeId>
        decreases self.depth_left(n), 0int, k,
    {
        if self.wf() && self.live(n) && 0 < k <= self.kids(n).len() {
            proof {
                assert(self.node_ok(n));
                assert(self.child_ok(n, self.kids(n)[k - 1].0 as int));
            }
            self.pre_list(n, k - 1) + self.pre(self.kids(n)[k - 1].0 as int)
        } else {
            Seq::empty()
        }
    }

    proof fn lemma_pre_list_prefix(&self, n: int, k1: int, k2: int)
        requires
            self.wf(),
            self.live(n),
            0 <= k1 <= k2 <= self.kids(n).len(),
        ensures
            self.pre_list(n, k1).len() <= self.pre_list(n, k2).len(),
            self.pre_list(n, k2).take(self.pre_list(n, k1).len() as int) == self.pre_list(n, k1),
        decreases k2 - k1,
    {
        if k1 < k2 {
            self.lemma_pre_list_prefix(n, k1, k2 - 1);
            let a = self.pre_list(n, k2 - 1);
            let b = self.pre(self.kids(n)[k2 - 1].0 as int);
            assert(self.pre_list(n, k2) == a + b);
            assert((a + b).take(self.pre_list(n, k1).len() as int) =~= a.take(
                self.pre_list(n, k1).len() as int,
            ));
        } else {
            assert(self.pre_list(n, k2).take(self.pre_list(n, k2).len() as int) =~= self.pre_list(
                n,
                k2,
            ));
        }
    }

    /// What lies below child `k` of `n` is in the first `kk` child subtrees
    /// of `n` when `k < kk`.
    proof fn lemma_pre_list_has(&self, n: int, kk: int, k: int, x: NodeId)
        requires
            self.wf(),
            self.live(n),
            0 <= k < kk <= self.kids(n).len(),
            self.pre(self.kids(n)[k].0 as int).contains(x),
        ensures
            self.pre_list(n, kk).contains(x),
        decreases kk,
    {
        assert(self.node_ok(n));
        assert(self.child_ok(n, self.kids(n)[kk - 1].0 as int));
        let a = self.pre_list(n, kk - 1);
        let b = self.pre(self.kids(n)[kk - 1].0 as int);
        assert(self.pre_list(n, kk) == a + b);
        if k == kk - 1 {
            let i = choose|i: int| 0 <= i < b.len() && b[i] == x;
            assert((a + b)[a.len() + i] == x);
        } else {
            self.lemma_pre_list_has(n, kk - 1, k, x);
            let i = choose|i: int| 0 <= i < a.len() && a[i] == x;
            assert((a + b)[i] == x);
        }
    }

    /// What lies below a child of `n` lies below `n`.
    proof fn lemma_kid_pre(&self, n: int, k: int, x: NodeId)
        requires
            self.wf(),
            self.live(n),
            0 <= k < self.kids(n).len(),
            self.pre(self.kids(n)[k].0 as int).contains(x),
        ensures
            self.pre(n).contains(x),
    {
        assert(self.node_ok(n));
        let len = self.kids(n).len() as int;
        self.lemma_pre_list_has(n, len, k, x);
        let l = self.pre_list(n, len);
        assert(self.pre(n) == seq![NodeId(n as usize)] + l);
        let i = choose|i: int| 0 <= i < l.len() && l[i] == x;
        assert(self.pre(n)[i + 1] == x);
    }

    /// Something in the first `kk` child subtrees of `n` lies in one of them.
    proof fn lemma_pre_list_from(&self, n: int, kk: int, x: NodeId) -> (k: int)
        requires
            self.wf(),
            self.live(n),
            0 <= kk <= self.kids(n).len(),
            self.pre_list(n, kk).contains(x),
        ensures
            0 <= k < kk,
            self.pre(self.kids(n)[k].0 as int).contains(x),
        decreases kk,
    {
        assert(self.node_ok(n));
        if kk == 0 {
            assert(self.pre_list(n, 0) =~= Seq::<NodeId>::empty());
            assert(false);
            0
        } else {
            assert(self.child_ok(n, self.kids(n)[kk - 1].0 as int));
            let a = self.pre_list(n, kk - 1);
            let b = self.pre(self.kids(n)[kk - 1].0 as int);
            assert(self.pre_list(n, kk) == a + b);
            let i = choose|i: int| 0 <= i < (a + b).len() && (a + b)[i] == x;
            if i < a.len() {
                assert(a[i] == x);
                self.lemma_pre_list_from(n, kk - 1, x)
            } else {
                assert(b[i - a.len()] == x);
                kk - 1
            }
        }
    }

    /// What lies below a node below `a` lies below `a`.
    proof fn lemma_pre_trans(&self, a: int, p: NodeId, x: NodeId)
        requires
            self.wf(),
            self.pre(a).contains(p),
            self.pre(p.0 as int).contains(x),
        ensures
            self.pre(a).contains(x),
        decreases self.depth_left(a),
    {
        if self.live(a) {
            assert(self.node_ok(a));
            let len = self.kids(a).len() as int;
            let l = self.pre_list(a, len);
            assert(self.pre(a) == seq![NodeId(a as usize)] + l);
            if p != NodeId(a as usize) {
                let i = choose|i: int| 0 <= i < self.pre(a).len() && self.pre(a)[i] == p;
                assert(i > 0);
                assert(l[i - 1] == p);
                let k = self.lemma_pre_list_from(a, len, p);
                let c = self.kids(a)[k].0 as int;
                assert(self.child_ok(a, c));
                assert(self.node_ok(c));
                self.lemma_pre_trans(c, p, x);
                self.lemma_kid_pre(a, k, x);
            }
        } else {
            assert(self.pre(a) =~= Seq::<NodeId>::empty());
        }
    }

    /// Every live node lies below the root.
    pub proof fn lemma_live_in_pre(&self, j: int)
        requires
            self.wf(),
            self.live(j),
        ensures
            self.pre(0).contains(NodeId(j as usize)),
        decreases self.rank_of(j),
    {
        assert(self.node_ok(j));
        assert(self.pre(j)[0] == NodeId(j as usize));
        if j != 0 {
            let p = self.node(j).parent_of()->Some_0.0 as int;
            assert(self.node_ok(p));
            let w = choose|w: int| 0 <= w < self.kids(p).len() && self.kids(p)[w] == NodeId(j as usize);
            assert(self.child_ok(p, self.kids(p)[w].0 as int));
            self.lemma_live_in_pre(p);
            self.lemma_kid_pre(p, w, NodeId(j as usize));
            self.lemma_pre_trans(0, NodeId(p as usize), NodeId(j as usize));
        } else {
            assert(self.pre(0).contains(NodeId(0)));
        }
    }

    /// Node `c` is a window with id `wid`.
    pub open spec fn window_pred(&self, wid: u64) -> spec_fn(NodeId) -> bool {
        |c: NodeId| self.live(c.0 as int) && self.data(c.0 as int) is Window && self.data(
            c.0 as int,
        )->Window_window_id == wid
    }

    /// The first window with id `wid` in preorder from the root.
    pub open spec fn spec_find_window(&self, wid: u64) -> Option<NodeId> {
        first_in(self.pre(0), self.window_pred(wid))
    }

    fn find_window_recursive(&self, node_id: NodeId, window_id: u64) -> (r: Option<NodeId>)
        requires
            self.wf(),
        ensures
            r == first_in(self.pre(node_id.0 as int), self.window_pred(window_id)),
        decreases self.depth_left(node_id.0 as int),
    {
        let ghost p = self.window_pred(window_id);
        let ghost n = node_id.0 as int;
        if node_id.0 >= self.nodes.len() {
            return None;
        }
        match &self.nodes[node_id.0] {
            None => None,
            Some(node) => {
                let ghost whole = self.pre(n);
                assert(self.node_ok(n));
                assert(whole == seq![node_id] + self.pre_list(n, self.kids(n).len() as int));
                let is_match = match &node.data {
                    NodeData::Window { window_id: wid, .. } => *wid == window_id,
                    _ => false,
                };
                if is_match {
                    proof {
                        assert(p(whole[0]));
                        lemma_first_where_at(whole, p, 0);
                    }
                    return Some(node_id);
                }
                let len = node.children.len();
                let mut i: usize = 0;
                while i < len
                    invariant
                        self.wf(),
                        self.live(n),
                        node == self.node(n),
                        len == self.kids(n).len(),
                        i <= len,
                        p == self.window_pred(window_id),
                        !p(node_id),
                        node_id.0 == n,
                        whole == seq![node_id] + self.pre_list(n, len as int),
                        first_where(self.pre_list(n, i as int), p) == self.pre_list(n, i as int).len(),
                    decreases len - i,
                {
                    let child = node.children[i];
                    assert(self.node_ok(n));
                    assert(self.child_ok(n, child.0 as int));
                    let found = self.find_window_recursive(child, window_id);
                    let ghost a = self.pre_list(n, i as int);
                    let ghost b = self.pre(child.0 as int);
                    assert(self.pre_list(n, i as int + 1) == a + b);
                    proof {
                        lemma_first_where_concat(a, b, p);
                        lemma_first_where(b, p);
                    }
                    match found {
                        Some(f) => {
                            proof {
                                let pl = self.pre_list(n, len as int);
                                self.lemma_pre_list_prefix(n, i as int + 1, len as int);
                                let pre1 = self.pre_list(n, i as int + 1);
                                lemma_first_where(pre1, p);
                                lemma_first_where_prefix(pl, pre1.len() as int, p);
                                assert(pl.take(pre1.len() as int) == pre1);
                                lemma_first_where_concat(seq![node_id], pl, p);
                                lemma_first_where_at(seq![node_id], p, 1);
                                assert(whole[first_where(whole, p) as int] == pl[first_where(pl, p) as int]);
                                assert(pl[first_where(pl, p) as int] == pre1[first_where(pre1, p) as int]);
                                assert(pre1[first_where(pre1, p) as int] == b[first_where(b, p) as int]);
                            }
                            return Some(f);
                        },
                        None => {},
                    }
                    i = i + 1;
                }
                proof {
                    let pl = self.pre_list(n, len as int);
                    lemma_first_where_concat(seq![node_id], pl, p);
                    lemma_first_where_at(seq![node_id], p, 1);
                }
                None
            },
        }
    }

    /// The first window with id `window_id`, in preorder from the root.
    fn find_window_by_id(&self, window_id: u64) -> (r: Option<NodeId>)
        requires
            self.wf(),
        ensures
            r == self.spec_find_window(window_id),
    {
        self.find_window_recursive(self.root, window_id)
    }

    /// The node holding window `window_id`: the first in preorder from the root.
    pub fn find_node_by_window_id(&self, window_id: u64) -> (r: Option<NodeId>)
        requires
            self.wf(),
        ensures
            r == self.spec_find_window(window_id),
    {
        self.find_window_by_id(window_id)
    }
}


/// Window data `d` with its flags and saved geometry replaced.
pub open spec fn window_with(
    d: NodeData,
    floating: bool,
    fullscreen: bool,
    fullscreen_global: bool,
    sticky: bool,
    saved_geometry: Option<Rect>,
) -> NodeData {
    NodeData::Window {
        window_id: d->Window_window_id,
        floating,
        fullscreen,
        fullscreen_global,
        sticky,
        marks: d->Window_marks,
        geometry: d->Window_geometry,
        saved_geometry,
    }
}

/// The marks of window data `d` as character sequences.
pub open spec fn marks_of(d: NodeData) -> Seq<Seq<char>> {
    d->Window_marks@.map_values(|m: String| m@)
}

/// `s` without any element equal to `x`, order kept.
pub open spec fn without(s: Seq<Seq<char>>, x: Seq<char>) -> Seq<Seq<char>>
    decreases s.len(),
{
    if s.len() == 0 {
        s
    } else if s.last() == x {
        without(s.drop_last(), x)
    } else {
        without(s.drop_last(), x).push(s.last())
    }
}

/// `s` without `x` is `s` when `x` does not occur in it.
proof fn lemma_without_absent(s: Seq<Seq<char>>, x: Seq<char>)
    requires
        !s.contains(x),
    ensures
        without(s, x) == s,
    decreases s.len(),
{
    if s.len() > 0 {
        assert(!s.drop_last().contains(x)) by {
            if s.drop_last().contains(x) {
                let i = choose|i: int| 0 <= i < s.drop_last().len() && s.drop_last()[i] == x;
                assert(s[i] == x);
            }
        }
        assert(s[s.len() - 1] == s.last());
        lemma_without_absent(s.drop_last(), x);
        assert(s.drop_last().push(s.last()) =~= s);
    }
}

impl Tree {
    proof fn lemma_found_window(&self, wid: u64)
        requires
            self.wf(),
            self.spec_find_window(wid) is Some,
        ensures
            self.window_pred(wid)(self.spec_find_window(wid)->Some_0),
    {
        lemma_first_where(self.pre(0), self.window_pred(wid));
    }

    /// Replace the flags and saved geometry of window node `w`.
    fn set_window_flags(
        &mut self,
        w: NodeId,
        floating: bool,
        fullscreen: bool,
        fullscreen_global: bool,
        sticky: bool,
        saved_geometry: Option<Rect>,
    )
        requires
            old(self).wf(),
            old(self).live(w.0 as int),
            old(self).data(w.0 as int) is Window,
        ensures
            final(self).wf(),
            final(self).only_data_changed(old(self), w.0 as int),
            final(self).data(w.0 as int) == window_with(
                old(self).data(w.0 as int),
                floating,
                fullscreen,
                fullscreen_global,
                sticky,
                saved_geometry,
            ),
    {
        let d = self.replace_data(w, NodeData::Root);
        match d {
            NodeData::Window { window_id, marks, geometry, .. } => {
                self.replace_data(
                    w,
                    NodeData::Window {
                        window_id,
                        floating,
                        fullscreen,
                        fullscreen_global,
                        sticky,
                        marks,
                        geometry,
                        saved_geometry,
                    },
                );
            },
            other => {
                self.replace_data(w, other);
            },
        }
    }

    /// Flags of window node `w`: (floating, fullscreen, fullscreen_global, sticky, geometry, saved).
    fn window_flags(&self, w: NodeId) -> (r: (bool, bool, bool, bool, Rect, Option<Rect>))
        requires
            self.live(w.0 as int),
            self.data(w.0 as int) is Window,
        ensures
            r == (
                self.data(w.0 as int)->Window_floating,
                self.data(w.0 as int)->Window_fullscreen,
                self.data(w.0 as int)->Window_fullscreen_global,
                self.data(w.0 as int)->Window_sticky,
                self.data(w.0 as int)->Window_geometry,
                self.data(w.0 as int)->Window_saved_geometry,
            ),
    {
        match &self.nodes[w.0] {
            Some(n) => match &n.data {
                NodeData::Window {
                    floating,
                    fullscreen,
                    fullscreen_global,
                    sticky,
                    geometry,
                    saved_geometry,
                    ..
                } => (*floating, *fullscreen, *fullscreen_global, *sticky, *geometry, *saved_geometry),
                _ => (false, false, false, false, Rect { x: 0, y: 0, width: 0, height: 0 }, None),
            },
            None => (false, false, false, false, Rect { x: 0, y: 0, width: 0, height: 0 }, None),
        }
    }

    /// Set the floating flag of window `window_id`.
    pub fn set_floating(&mut self, window_id: u64, enable: bool) -> (r: bool)
        requires
            old(self).wf(),
        ensures
            final(self).wf(),
            match old(self).spec_find_window(window_id) {
                None => !r && *final(self) == *old(self),
                Some(w) => {
                    let d = old(self).data(w.0 as int);
                    &&& r
                    &&& final(self).only_data_changed(old(self), w.0 as int)
                    &&& final(self).data(w.0 as int) == window_with(
                        d,
                        enable,
                        d->Window_fullscreen,
                        d->Window_fullscreen_global,
                        d->Window_sticky,
                        d->Window_saved_geometry,
                    )
                },
            },
    {
        let w = match self.find_window_by_id(window_id) {
            Some(id) => id,
            None => return false,
        };
        proof {
            self.lemma_found_window(window_id);
        }
        let (_, fs, fg, st, _, sv) = self.window_flags(w);
        self.set_window_flags(w, enable, fs, fg, st, sv);
        true
    }

    /// Flip the floating flag of window `window_id`.
    pub fn toggle_floating(&mut self, window_id: u64) -> (r: bool)
        requires
            old(self).wf(),
        ensures
            final(self).wf(),
            final(self).floating_toggled(old(self), window_id),
            match old(self).spec_find_window(window_id) {
                None => !r && *final(self) == *old(self),
                Some(w) => {
                    let d = old(self).data(w.0 as int);
                    &&& r
                    &&& final(self).only_data_changed(old(self), w.0 as int)
                    &&& final(self).data(w.0 as int) == window_with(
                        d,
                        !d->Window_floating,
                        d->Window_fullscreen,
                        d->Window_fullscreen_global,
                        d->Window_sticky,
                        d->Window_saved_geometry,
                    )
                },
            },
    {
        let w = match self.find_window_by_id(window_id) {
            Some(id) => id,
            None => return false,
        };
        proof {
            self.lemma_found_window(window_id);
        }
        let (fl, fs, fg, st, _, sv) = self.window_flags(w);
        self.set_window_flags(w, !fl, fs, fg, st, sv);
        true
    }

    /// Set the fullscreen flag of window `window_id`; entering fullscreen
    /// saves the current geometry.
    pub fn set_fullscreen(&mut self, window_id: u64, enable: bool) -> (r: bool)
        requires
            old(self).wf(),
        ensures
            final(self).wf(),
            match old(self).spec_find_window(window_id) {
                None => !r && *final(self) == *old(self),
                Some(w) => {
                    let d = old(self).data(w.0 as int);
                    &&& r
                    &&& final(self).only_data_changed(old(self), w.0 as int)
                    &&& final(self).data(w.0 as int) == window_with(
                        d,
                        d->Window_floating,
                        enable,
                        d->Window_fullscreen_global,
                        d->Window_sticky,
                        if enable && !d->Window_fullscreen {
                            Some(d->Window_geometry)
                        } else {
                            d->Window_saved_geometry
                        },
                    )
                },
            },
    {
        let w = match self.find_window_by_id(window_id) {
            Some(id) => id,
            None => return false,
        };
        proof {
            self.lemma_found_window(window_id);
        }
        let (fl, fs, fg, st, geo, sv) = self.window_flags(w);
        let saved = if enable && !fs {
            Some(geo)
        } else {
            sv
        };
        self.set_window_flags(w, fl, enable, fg, st, saved);
        true
    }

    /// Flip the fullscreen flag of window `window_id` (as `set_fullscreen`).
    pub fn toggle_fullscreen(&mut self, window_id: u64) -> (r: bool)
        requires
            old(self).wf(),
        ensures
            final(self).wf(),
            match old(self).spec_find_window(window_id) {
                None => !r && *final(self) == *old(self),
                Some(w) => {
                    let d = old(self).data(w.0 as int);
                    &&& r
                    &&& final(self).only_data_changed(old(self), w.0 as int)
                    &&& final(self).data(w.0 as int) == window_with(
                        d,
                        d->Window_floating,
                        !d->Window_fullscreen,
                        d->Window_fullscreen_global,
                        d->Window_sticky,
                        if !d->Window_fullscreen {
                            Some(d->Window_geometry)
                        } else {
                            d->Window_saved_geometry
                        },
                    )
                },
            },
    {
        let w = match self.find_window_by_id(window_id) {
            Some(id) => id,
            None => return false,
        };
        proof {
            self.lemma_found_window(window_id);
        }
        let (_, fs, _, _, _, _) = self.window_flags(w);
        self.set_fullscreen(window_id, !fs)
    }

    /// Set the global-fullscreen flag of window `window_id`; entering it
    /// saves the current geometry.
    pub fn set_fullscreen_global(&mut self, window_id: u64, enable: bool) -> (r: bool)
        requires
            old(self).wf(),
        ensures
            final(self).wf(),
            match old(self).spec_find_window(window_id) {
                None => !r && *final(self) == *old(self),
                Some(w) => {
                    let d = old(self).data(w.0 as int);
                    &&& r
                    &&& final(self).only_data_changed(old(self), w.0 as int)
                    &&& final(self).data(w.0 as int) == window_with(
                        d,
                        d->Window_floating,
                        d->Window_fullscreen,
                        enable,
                        d->Window_sticky,
                        if enable && !d->Window_fullscreen_global {
                            Some(d->Window_geometry)
                        } else {
                            d->Window_saved_geometry
                        },
                    )
                },
            },
    {
        let w = match self.find_window_by_id(window_id) {
            Some(id) => id,
            None => return false,
        };
        proof {
            self.lemma_found_window(window_id);
        }
        let (fl, fs, fg, st, geo, sv) = self.window_flags(w);
        let saved = if enable && !fg {
            Some(geo)
        } else {
            sv
        };
        self.set_window_flags(w, fl, fs, enable, st, saved);
        true
    }

    /// Flip the global-fullscreen flag of window `window_id`.
    pub fn toggle_fullscreen_global(&mut self, window_id: u64) -> (r: bool)
        requires
            old(self).wf(),
        ensures
            final(self).wf(),
            match old(self).spec_find_window(window_id) {
                None => !r && *final(self) == *old(self),
                Some(w) => {
                    let d = old(self).data(w.0 as int);
                    &&& r
                    &&& final(self).only_data_changed(old(self), w.0 as int)
                    &&& final(self).data(w.0 as int) == window_with(
                        d,
                        d->Window_floating,
                        d->Window_fullscreen,
                        !d->Window_fullscreen_global,
                        d->Window_sticky,
                        if !d->Window_fullscreen_global {
                            Some(d->Window_geometry)
                        } else {
                            d->Window_saved_geometry
                        },
                    )
                },
            },
    {
        let w = match self.find_window_by_id(window_id) {
            Some(id) => id,
            None => return false,
        };
        proof {
            self.lemma_found_window(window_id);
        }
        let (_, _, fg, _, _, _) = self.window_flags(w);
        self.set_fullscreen_global(window_id, !fg)
    }

    /// Set the sticky flag of window `window_id`.
    pub fn set_sticky(&mut self, window_id: u64, enable: bool) -> (r: bool)
        requires
            old(self).wf(),
        ensures
            final(self).wf(),
            match old(self).spec_find_window(window_id) {
                None => !r && *final(self) == *old(self),
                Some(w) => {
                    let d = old(self).data(w.0 as int);
                    &&& r
                    &&& final(self).only_data_changed(old(self), w.0 as int)
                    &&& final(self).data(w.0 as int) == window_with(
                        d,
                        d->Window_floating,
                        d->Window_fullscreen,
                        d->Window_fullscreen_global,
                        enable,
                        d->Window_saved_geometry,
                    )
                },
            },
    {
        let w = match self.find_window_by_id(window_id) {
            Some(id) => id,
            None => return false,
        };
        proof {
            self.lemma_found_window(window_id);
        }
        let (fl, fs, fg, _, _, sv) = self.window_flags(w);
        self.set_window_flags(w, fl, fs, fg, enable, sv);
        true
    }

    /// Flip the sticky flag of window `window_id`.
    pub fn toggle_sticky(&mut self, window_id: u64) -> (r: bool)
        requires
            old(self).wf(),
        ensures
            final(self).wf(),
            final(self).sticky_toggled(old(self), window_id),
            match old(self).spec_find_window(window_id) {
                None => !r && *final(self) == *old(self),
                Some(w) => {
                    let d = old(self).data(w.0 as int);
                    &&& r
                    &&& final(self).only_data_changed(old(self), w.0 as int)
                    &&& final(self).data(w.0 as int) == window_with(
                        d,
                        d->Window_floating,
                        d->Window_fullscreen,
                        d->Window_fullscreen_global,
                        !d->Window_sticky,
                        d->Window_saved_geometry,
                    )
                },
            },
    {
        let w = match self.find_window_by_id(window_id) {
            Some(id) => id,
            None => return false,
        };
        proof {
            self.lemma_found_window(window_id);
        }
        let (_, _, _, st, _, _) = self.window_flags(w);
        self.set_sticky(window_id, !st)
    }
}

/// Window data `d2` is `d1` with only its marks (possibly) changed.
pub open spec fn same_but_marks(d1: NodeData, d2: NodeData) -> bool {
    &&& d1 is Window
    &&& d2 is Window
    &&& d2->Window_window_id == d1->Window_window_id
    &&& d2->Window_floating == d1->Window_floating
    &&& d2->Window_fullscreen == d1->Window_fullscreen
    &&& d2->Window_fullscreen_global == d1->Window_fullscreen_global
    &&& d2->Window_sticky == d1->Window_sticky
    &&& d2->Window_geometry == d1->Window_geometry
    &&& d2->Window_saved_geometry == d1->Window_saved_geometry
}

fn strings_contain(v: &Vec<String>, x: &str) -> (b: bool)
    ensures
        b == v@.map_values(|s: String| s@).contains(x@),
{
    let ghost vv = v@.map_values(|s: String| s@);
    let mut i: usize = 0;
    while i < v.len()
        invariant
            0 <= i <= v@.len(),
            vv == v@.map_values(|s: String| s@),
            forall|j: int| 0 <= j < i ==> vv[j] != x@,
        decreases v@.len() - i,
    {
        if str_eq(v[i].as_str(), x) {
            assert(vv[i as int] == x@);
            return true;
        }
        i = i + 1;
    }
    false
}

fn strings_without(v: Vec<String>, x: &str) -> (r: Vec<String>)
    ensures
        r@.map_values(|s: String| s@) == without(v@.map_values(|s: String| s@), x@),
{
    let ghost vv = v@.map_values(|s: String| s@);
    let mut r: Vec<String> = Vec::new();
    let mut i: usize = 0;
    assert(vv.take(0) =~= Seq::<Seq<char>>::empty());
    while i < v.len()
        invariant
            0 <= i <= v@.len(),
            vv == v@.map_values(|s: String| s@),
            r@.map_values(|s: String| s@) == without(vv.take(i as int), x@),
        decreases v@.len() - i,
    {
        assert(vv.take(i + 1).drop_last() =~= vv.take(i as int));
        assert(vv.take(i + 1).last() == v@[i as int]@);
        if !str_eq(v[i].as_str(), x) {
            let ghost before = r@.map_values(|s: String| s@);
            r.push(v[i].clone());
            assert(r@.map_values(|s: String| s@) =~= before.push(v@[i as int]@));
        }
        i = i + 1;
    }
    assert(vv.take(i as int) =~= vv);
    r
}

impl Tree {
    /// What adding mark `m` to window `wid` of `old` leaves: the first window
    /// with that id gains `m` at the end of its marks unless it has it,
    /// nothing else changes; without such a window nothing changes.
    pub open spec fn mark_added(&self, old: &Tree, wid: u64, m: Seq<char>) -> bool {
        match old.spec_find_window(wid) {
            None => *self == *old,
            Some(w) => {
                let d = old.data(w.0 as int);
                &&& self.only_data_changed(old, w.0 as int)
                &&& same_but_marks(d, self.data(w.0 as int))
                &&& marks_of(self.data(w.0 as int)) == if marks_of(d).contains(m) {
                    marks_of(d)
                } else {
                    marks_of(d).push(m)
                }
            },
        }
    }

    /// What removing mark `m` (`Some`) or all marks (`None`) from window
    /// `wid` of `old` leaves: the first window with that id loses them,
    /// nothing else changes; without such a window nothing changes.
    pub open spec fn marks_removed(&self, old: &Tree, wid: u64, m: Option<Seq<char>>) -> bool {
        match old.spec_find_window(wid) {
            None => *self == *old,
            Some(w) => {
                let d = old.data(w.0 as int);
                &&& self.only_data_changed(old, w.0 as int)
                &&& same_but_marks(d, self.data(w.0 as int))
                &&& marks_of(self.data(w.0 as int)) == match m {
                    Some(x) => without(marks_of(d), x),
                    None => Seq::empty(),
                }
            },
        }
    }
}

impl Tree {
    /// Add a mark to window `window_id` (once: a mark it has stays single).
    pub fn add_mark(&mut self, window_id: u64, mark: &str) -> (r: bool)
        requires
            old(self).wf(),
        ensures
            final(self).wf(),
            r == old(self).spec_find_window(window_id) is Some,
            final(self).mark_added(old(self), window_id, mark@),
    {
        let w = match self.find_window_by_id(window_id) {
            Some(id) => id,
            None => return false,
        };
        proof {
            self.lemma_found_window(window_id);
        }
        let d = self.replace_data(w, NodeData::Root);
        match d {
            NodeData::Window {
                window_id,
                floating,
                fullscreen,
                fullscreen_global,
                sticky,
                marks,
                geometry,
                saved_geometry,
            } => {
                let mut marks = marks;
                let ghost before = marks@.map_values(|s: String| s@);
                if !strings_contain(&marks, mark) {
                    marks.push(to_string(mark));
                    assert(marks@.map_values(|s: String| s@) =~= before.push(mark@));
                }
                self.replace_data(
                    w,
                    NodeData::Window {
                        window_id,
                        floating,
                        fullscreen,
                        fullscreen_global,
                        sticky,
                        marks,
                        geometry,
                        saved_geometry,
                    },
                );
            },
            other => {
                self.replace_data(w, other);
            },
        }
        true
    }

    /// Remove one mark (`Some`) or all marks (`None`) from window `window_id`.
    pub fn remove_mark(&mut self, window_id: u64, mark: Option<&str>) -> (r: bool)
        requires
            old(self).wf(),
        ensures
            final(self).wf(),
            r == old(self).spec_find_window(window_id) is Some,
            final(self).marks_removed(
                old(self),
                window_id,
                match mark {
                    Some(m) => Some(m@),
                    None => None,
                },
            ),
    {
        let w = match self.find_window_by_id(window_id) {
            Some(id) => id,
            None => return false,
        };
        proof {
            self.lemma_found_window(window_id);
        }
        let d = self.replace_data(w, NodeData::Root);
        match d {
            NodeData::Window {
                window_id,
                floating,
                fullscreen,
                fullscreen_global,
                sticky,
                marks,
                geometry,
                saved_geometry,
            } => {
                let marks = match mark {
                    Some(m) => strings_without(marks, m),
                    None => {
                        let e: Vec<String> = Vec::new();
                        assert(e@.map_values(|s: String| s@) =~= Seq::<Seq<char>>::empty());
                        e
                    },
                };
                self.replace_data(
                    w,
                    NodeData::Window {
                        window_id,
                        floating,
                        fullscreen,
                        fullscreen_global,
                        sticky,
                        marks,
                        geometry,
                        saved_geometry,
                    },
                );
            },
            other => {
                self.replace_data(w, other);
            },
        }
        true
    }

    /// The marks of window `window_id`; none when there is no such window.
    pub fn get_marks(&self, window_id: u64) -> (r: Vec<String>)
        requires
            self.wf(),
        ensures
            r@.map_values(|s: String| s@) == match self.spec_find_window(window_id) {
                None => Seq::empty(),
                Some(w) => marks_of(self.data(w.0 as int)),
            },
    {
        let w = match self.find_window_by_id(window_id) {
            Some(id) => id,
            None => {
                let e: Vec<String> = Vec::new();
                assert(e@.map_values(|s: String| s@) =~= Seq::<Seq<char>>::empty());
                return e;
            },
        };
        proof {
            self.lemma_found_window(window_id);
        }
        match &self.nodes[w.0] {
            Some(n) => match &n.data {
                NodeData::Window { marks, .. } => {
                    let mut out: Vec<String> = Vec::new();
                    let mut i: usize = 0;
                    while i < marks.len()
                        invariant
                            0 <= i <= marks@.len(),
                            out@.map_values(|s: String| s@) == marks@.map_values(|s: String| s@).take(i as int),
                        decreases marks@.len() - i,
                    {
                        let ghost before = out@.map_values(|s: String| s@);
                        out.push(marks[i].clone());
                        assert(out@.map_values(|s: String| s@) =~= before.push(marks@[i as int]@));
                        assert(marks@.map_values(|s: String| s@).take(i + 1) =~= marks@.map_values(|s: String| s@).take(i as int).push(marks@[i as int]@));
                        i = i + 1;
                    }
                    assert(marks@.map_values(|s: String| s@).take(i as int) =~= marks@.map_values(|s: String| s@));
                    out
                },
                _ => Vec::new(),
            },
            None => Vec::new(),
        }
    }
}

impl Tree {
    /// The window at the end of the focus path from `n`: a window is its own;
    /// a container follows its focused child (clamped to the last child), any
    /// other node its first child; a node without children has none.
    pub closed spec fn focus_leaf(&self, n: int) -> Option<NodeId>
        decreases self.depth_left(n),
    {
        if self.wf() && self.live(n) {
            proof {
                assert(self.node_ok(n));
            }
            let k = self.kids(n);
            match self.data(n) {
                NodeData::Window { .. } => Some(NodeId(n as usize)),
                NodeData::Container { focused_child, .. } => if k.len() == 0 {
                    None
                } else {
                    let idx: int = if focused_child < k.len() {
                        focused_child as int
                    } else {
                        k.len() - 1
                    };
                    proof {
                        assert(self.child_ok(n, k[idx].0 as int));
                    }
                    self.focus_leaf(k[idx].0 as int)
                },
                _ => if k.len() == 0 {
                    None
                } else {
                    proof {
                        assert(self.child_ok(n, k[0].0 as int));
                    }
                    self.focus_leaf(k[0].0 as int)
                },
            }
        } else {
            None
        }
    }

    pub proof fn lemma_focus_leaf_window(&self, n: int)
        requires
            self.wf(),
        ensures
            self.focus_leaf(n) matches Some(w) ==> self.live(w.0 as int) && self.data(w.0 as int) is Window,
        decreases self.depth_left(n),
    {
        if self.live(n) {
            assert(self.node_ok(n));
            let k = self.kids(n);
            match self.data(n) {
                NodeData::Window { .. } => {},
                NodeData::Container { focused_child, .. } => {
                    if k.len() > 0 {
                        let idx: int = if focused_child < k.len() { focused_child as int } else { k.len() - 1 };
                        assert(self.child_ok(n, k[idx].0 as int));
                        self.lemma_focus_leaf_window(k[idx].0 as int);
                    }
                },
                _ => {
                    if k.len() > 0 {
                        assert(self.child_ok(n, k[0].0 as int));
                        self.lemma_focus_leaf_window(k[0].0 as int);
                    }
                },
            }
        }
    }

    fn find_focused_leaf_node(&self, node_id: NodeId) -> (r: Option<NodeId>)
        requires
            self.wf(),
        ensures
            r == self.focus_leaf(node_id.0 as int),
        decreases self.depth_left(node_id.0 as int),
    {
        let ghost n = node_id.0 as int;
        if node_id.0 >= self.nodes.len() {
            return None;
        }
        match &self.nodes[node_id.0] {
            None => None,
            Some(node) => {
                assert(self.node_ok(n));
                let len = node.children.len();
                match &node.data {
                    NodeData::Window { .. } => Some(node_id),
                    NodeData::Container { focused_child, .. } => {
                        if len == 0 {
                            None
                        } else {
                            let idx = if *focused_child < len { *focused_child } else { len - 1 };
                            let c = node.children[idx];
                            assert(self.child_ok(n, c.0 as int));
                            self.find_focused_leaf_node(c)
                        }
                    },
                    _ => {
                        if len == 0 {
                            None
                        } else {
                            let c = node.children[0];
                            assert(self.child_ok(n, c.0 as int));
                            self.find_focused_leaf_node(c)
                        }
                    },
                }
            },
        }
    }

    /// The window id at the end of the focus path from `node_id`.
    fn find_focused_leaf(&self, node_id: NodeId) -> (r: Option<u64>)
        requires
            self.wf(),
        ensures
            r == match self.focus_leaf(node_id.0 as int) {
                Some(w) => Some(self.data(w.0 as int)->Window_window_id),
                None => None::<u64>,
            },
    {
        proof {
            self.lemma_focus_leaf_window(node_id.0 as int);
        }
        match self.find_focused_leaf_node(node_id) {
            Some(w) => match &self.nodes[w.0] {
                Some(n) => match &n.data {
                    NodeData::Window { window_id, .. } => Some(*window_id),
                    _ => None,
                },
                None => None,
            },
            None => None,
        }
    }

    /// The window that has the focus: at the end of the focus path of the
    /// focused workspace.
    pub open spec fn spec_focused_window(&self) -> Option<NodeId> {
        match self.spec_focused_workspace() {
            Some(ws) => self.focus_leaf(ws.0 as int),
            None => None,
        }
    }

    /// The id of the focused window, if any.
    pub fn focused_window_id(&self) -> (r: Option<u64>)
        requires
            self.wf(),
        ensures
            r == match self.spec_focused_window() {
                Some(w) => Some(self.data(w.0 as int)->Window_window_id),
                None => None::<u64>,
            },
    {
        match self.focused_workspace() {
            Some(ws) => self.find_focused_leaf(ws),
            None => None,
        }
    }

    /// The innermost container on the focus path from `n`: a container's
    /// focused child (unclamped) is followed while it leads to one; a
    /// workspace takes the first child that leads to one; other nodes lead
    /// to none.
    pub closed spec fn focus_container(&self, n: int) -> Option<NodeId>
        decreases self.depth_left(n), 1int, 0int,
    {
        if self.wf() && self.live(n) {
            proof {
                assert(self.node_ok(n));
            }
            let k = self.kids(n);
            match self.data(n) {
                NodeData::Container { focused_child, .. } => if focused_child < k.len() {
                    proof {
                        assert(self.child_ok(n, k[focused_child as int].0 as int));
                    }
                    match self.focus_container(k[focused_child as int].0 as int) {
                        Some(d) => Some(d),
                        None => Some(NodeId(n as usize)),
                    }
                } else {
                    Some(NodeId(n as usize))
                },
                NodeData::Workspace { .. } => self.first_focus_container(n, k.len() as int),
                _ => None,
            }
        } else {
            None
        }
    }

    /// The first of the first `j` children of `n` that leads to a container.
    pub closed spec fn first_focus_container(&self, n: int, j: int) -> Option<NodeId>
        decreases self.depth_left(n), 0int, j,
    {
        if self.wf() && self.live(n) && 0 < j <= self.kids(n).len() {
            proof {
                assert(self.node_ok(n));
                assert(self.child_ok(n, self.kids(n)[j - 1].0 as int));
            }
            match self.first_focus_container(n, j - 1) {
                Some(x) => Some(x),
                None => self.focus_container(self.kids(n)[j - 1].0 as int),
            }
        } else {
            None
        }
    }

    pub proof fn lemma_focus_container(&self, n: int)
        requires
            self.wf(),
        ensures
            self.focus_container(n) matches Some(c) ==> self.is_container(c.0 as int),
        decreases self.depth_left(n), 1int, 0int,
    {
        if self.live(n) {
            assert(self.node_ok(n));
            let k = self.kids(n);
            match self.data(n) {
                NodeData::Container { focused_child, .. } => {
                    if focused_child < k.len() {
                        assert(self.child_ok(n, k[focused_child as int].0 as int));
                        self.lemma_focus_container(k[focused_child as int].0 as int);
                    }
                },
                NodeData::Workspace { .. } => {
                    self.lemma_first_focus_container(n, k.len() as int);
                },
                _ => {},
            }
        }
    }

    pub proof fn lemma_first_focus_container(&self, n: int, j: int)
        requires
            self.wf(),
        ensures
            self.first_focus_container(n, j) matches Some(c) ==> self.is_container(c.0 as int),
        decreases self.depth_left(n), 0int, j,
    {
        if self.live(n) && 0 < j <= self.kids(n).len() {
            assert(self.node_ok(n));
            assert(self.child_ok(n, self.kids(n)[j - 1].0 as int));
            self.lemma_first_focus_container(n, j - 1);
            self.lemma_focus_container(self.kids(n)[j - 1].0 as int);
        }
    }

    fn find_focused_container(&self, node_id: NodeId) -> (r: Option<NodeId>)
        requires
            self.wf(),
        ensures
            r == self.focus_container(node_id.0 as int),
        decreases self.depth_left(node_id.0 as int), 1int,
    {
        let ghost n = node_id.0 as int;
        if node_id.0 >= self.nodes.len() {
            return None;
        }
        match &self.nodes[node_id.0] {
            None => None,
            Some(node) => {
                assert(self.node_ok(n));
                let len = node.children.len();
                match &node.data {
                    NodeData::Container { focused_child, .. } => {
                        if *focused_child < len {
                            let c = node.children[*focused_child];
                            assert(self.child_ok(n, c.0 as int));
                            match self.find_focused_container(c) {
                                Some(d) => Some(d),
                                None => Some(node_id),
                            }
                        } else {
                            Some(node_id)
                        }
                    },
                    NodeData::Workspace { .. } => {
                        let mut i: usize = 0;
                        while i < len
                            invariant
                                self.wf(),
                                self.live(n),
                                node == self.node(n),
                                self.data(n) is Workspace,
                                node_id.0 == n,
                                len == self.kids(n).len(),
                                i <= len,
                                self.first_focus_container(n, i as int) is None,
                            decreases len - i,
                        {
                            let c = node.children[i];
                            assert(self.node_ok(n));
                            assert(self.child_ok(n, c.0 as int));
                            match self.find_focused_container(c) {
                                Some(f) => {
                                    assert(self.first_focus_container(n, i + 1) == Some(f));
                                    proof {
                                        self.lemma_first_focus_rest(n, i + 1);
                                    }
                                    return Some(f);
                                },
                                None => {},
                            }
                            i = i + 1;
                        }
                        None
                    },
                    _ => None,
                }
            },
        }
    }

    proof fn lemma_first_focus_rest(&self, n: int, j: int)
        requires
            self.wf(),
            self.live(n),
            0 < j <= self.kids(n).len(),
            self.first_focus_container(n, j) is Some,
        ensures
            self.first_focus_container(n, self.kids(n).len() as int) == self.first_focus_container(n, j),
        decreases self.kids(n).len() - j,
    {
        if j < self.kids(n).len() {
            assert(self.first_focus_container(n, j + 1) == self.first_focus_container(n, j));
            self.lemma_first_focus_rest(n, j + 1);
        }
    }
}

/// The layout after `l` in the cycle SplitH, SplitV, Tabbed, Stacked.
pub open spec fn next_layout(l: Layout) -> Layout {
    match l {
        Layout::SplitH => Layout::SplitV,
        Layout::SplitV => Layout::Tabbed,
        Layout::Tabbed => Layout::Stacked,
        Layout::Stacked => Layout::SplitH,
    }
}

/// Whether a container of layout `l` orders its children along the axis of
/// `d`: split-horizontal and tabbed containers left to right, split-vertical
/// and stacked ones top to bottom.
pub open spec fn axis_matches(l: Layout, d: Direction) -> bool {
    ((l == Layout::SplitH || l == Layout::Tabbed) && (d == Direction::Left || d == Direction::Right))
        || ((l == Layout::SplitV || l == Layout::Stacked) && (d == Direction::Up || d
        == Direction::Down))
}

pub open spec fn is_id(x: NodeId) -> spec_fn(NodeId) -> bool {
    |c: NodeId| c == x
}

impl Tree {
    /// `self` is `old` with the container `c` given `layout`, sizes and focus kept.
    pub open spec fn relayout(&self, old: &Tree, c: int, layout: Layout) -> bool {
        &&& self.only_data_changed(old, c)
        &&& self.data(c) matches NodeData::Container { layout: l2, sizes: s2, focused_child: f2 }
        &&& old.data(c) matches NodeData::Container { layout: l1, sizes: s1, focused_child: f1 }
        &&& l2 == layout && s2@ == s1@ && f2 == f1
    }

    /// `self` is `old` with the container `c` focusing child index `idx`.
    pub open spec fn refocused(&self, old: &Tree, c: int, idx: usize) -> bool {
        &&& self.only_data_changed(old, c)
        &&& self.data(c) matches NodeData::Container { layout: l2, sizes: s2, focused_child: f2 }
        &&& old.data(c) matches NodeData::Container { layout: l1, sizes: s1, focused_child: f1 }
        &&& l2 == l1 && s2@ == s1@ && f2 == idx
    }

    fn set_focus_index(&mut self, c: NodeId, idx: usize)
        requires
            old(self).wf(),
            old(self).is_container(c.0 as int),
        ensures
            final(self).wf(),
            final(self).refocused(old(self), c.0 as int, idx),
    {
        let d = self.replace_data(c, NodeData::Root);
        match d {
            NodeData::Container { layout, sizes, focused_child: _ } => {
                self.replace_data(c, NodeData::Container { layout, sizes, focused_child: idx });
            },
            other => {
                self.replace_data(c, other);
            },
        }
    }

    /// The container that `split` and `layout_toggle` act on: the innermost
    /// container on the focus path of the focused workspace.
    pub open spec fn spec_focused_container(&self) -> Option<NodeId> {
        match self.spec_focused_workspace() {
            Some(ws) => self.focus_container(ws.0 as int),
            None => None,
        }
    }

    /// Give the focused container `layout`; nothing happens without one.
    pub fn split(&mut self, layout: Layout)
        requires
            old(self).wf(),
        ensures
            final(self).wf(),
            match old(self).spec_focused_container() {
                None => *final(self) == *old(self),
                Some(c) => final(self).relayout(old(self), c.0 as int, layout),
            },
    {
        let ws = match self.focused_workspace() {
            Some(id) => id,
            None => return,
        };
        match self.find_focused_container(ws) {
            Some(c) => {
                proof {
                    self.lemma_focus_container(ws.0 as int);
                }
                let _ = self.set_layout(c, layout);
            },
            None => {},
        }
    }

    /// Move the focused container's layout to the next in the cycle
    /// SplitH, SplitV, Tabbed, Stacked.
    pub fn layout_toggle(&mut self)
        requires
            old(self).wf(),
        ensures
            final(self).wf(),
            match old(self).spec_focused_container() {
                None => *final(self) == *old(self),
                Some(c) => final(self).relayout(
                    old(self),
                    c.0 as int,
                    next_layout(old(self).data(c.0 as int)->Container_layout),
                ),
            },
    {
        let ws = match self.focused_workspace() {
            Some(id) => id,
            None => return,
        };
        let c = match self.find_focused_container(ws) {
            Some(c) => c,
            None => return,
        };
        proof {
            self.lemma_focus_container(ws.0 as int);
        }
        let next = match &self.nodes[c.0] {
            Some(n) => match &n.data {
                NodeData::Container { layout, .. } => match layout {
                    Layout::SplitH => Layout::SplitV,
                    Layout::SplitV => Layout::Tabbed,
                    Layout::Tabbed => Layout::Stacked,
                    Layout::Stacked => Layout::SplitH,
                },
                _ => return,
            },
            None => return,
        };
        let _ = self.set_layout(c, next);
    }

    /// The sibling step of the focused window: its parent and the index of
    /// the next (`forward`) or previous child, when there is one.
    pub open spec fn sibling_step(&self, forward: bool) -> Option<(NodeId, usize)> {
        match self.spec_focused_window() {
            None => None,
            Some(leaf) => match self.parent_view(leaf.0 as int) {
                None => None,
                Some(p) => {
                    let k = self.children_view(p.0 as int);
                    let i = first_where(k, is_id(leaf));
                    if i >= k.len() {
                        None
                    } else if forward {
                        if i + 1 < k.len() {
                            Some((p, (i + 1) as usize))
                        } else {
                            None
                        }
                    } else {
                        if i > 0 {
                            Some((p, (i - 1) as usize))
                        } else {
                            None
                        }
                    }
                },
            },
        }
    }

    fn focus_sibling(&mut self, forward: bool) -> (r: bool)
        requires
            old(self).wf(),
        ensures
            final(self).wf(),
            match old(self).sibling_step(forward) {
                Some((p, j)) => if old(self).is_container(p.0 as int) {
                    r && final(self).refocused(old(self), p.0 as int, j)
                } else {
                    !r && *final(self) == *old(self)
                },
                None => !r && *final(self) == *old(self),
            },
    {
        let ws = match self.focused_workspace() {
            Some(id) => id,
            None => return false,
        };
        let leaf = match self.find_focused_leaf_node(ws) {
            Some(id) => id,
            None => return false,
        };
        let parent = match self.parent(leaf) {
            Some(p) => p,
            None => return false,
        };
        let idx = match self.child_position(parent, leaf) {
            Some(i) => i,
            None => {
                proof {
                    lemma_first_where(self.children_view(parent.0 as int), is_id(leaf));
                    if first_where(self.children_view(parent.0 as int), is_id(leaf)) < self.children_view(parent.0 as int).len() {
                        let w = first_where(self.children_view(parent.0 as int), is_id(leaf));
                        assert(self.children_view(parent.0 as int)[w as int] == leaf);
                    }
                }
                return false;
            },
        };
        proof {
            lemma_first_where_at(self.children_view(parent.0 as int), is_id(leaf), idx as int);
        }
        let len = self.children(parent).len();
        let new_idx = if forward {
            if idx + 1 >= len {
                return false;
            }
            idx + 1
        } else {
            if idx == 0 {
                return false;
            }
            idx - 1
        };
        if self.kind_of(parent) != 1 {
            return false;
        }
        self.set_focus_index(parent, new_idx);
        true
    }

    /// Focus the next sibling of the focused window, in a container.
    pub fn focus_next_sibling(&mut self) -> (r: bool)
        requires
            old(self).wf(),
        ensures
            final(self).wf(),
            match old(self).sibling_step(true) {
                Some((p, j)) => if old(self).is_container(p.0 as int) {
                    r && final(self).refocused(old(self), p.0 as int, j)
                } else {
                    !r && *final(self) == *old(self)
                },
                None => !r && *final(self) == *old(self),
            },
    {
        self.focus_sibling(true)
    }

    /// Focus the previous sibling of the focused window, in a container.
    pub fn focus_prev_sibling(&mut self) -> (r: bool)
        requires
            old(self).wf(),
        ensures
            final(self).wf(),
            match old(self).sibling_step(false) {
                Some((p, j)) => if old(self).is_container(p.0 as int) {
                    r && final(self).refocused(old(self), p.0 as int, j)
                } else {
                    !r && *final(self) == *old(self)
                },
                None => !r && *final(self) == *old(self),
            },
    {
        self.focus_sibling(false)
    }
}

/// `s` with the entries at `i` and `j` exchanged.
pub open spec fn swapped<A>(s: Seq<A>, i: int, j: int) -> Seq<A> {
    s.update(i, s[j]).update(j, s[i])
}

impl Tree {
    /// `self` is `old` with the children of `p` exchanged at `i` and `j`, and
    /// the data of `p` set to `data`.
    pub open spec fn kids_swapped(&self, old: &Tree, p: int, i: int, j: int) -> bool {
        &&& self.slots().len() == old.slots().len()
        &&& self.live(p)
        &&& old.live(p)
        &&& self.kids(p) == swapped(old.kids(p), i, j)
        &&& self.node(p).parent_of() == old.node(p).parent_of()
        &&& self.data(p) == old.data(p)
        &&& self.same_slots_except(old, set![p])
        &&& self.free() == old.free()
        &&& self.root_id() == old.root_id()
        &&& self.focus() == old.focus()
    }

    fn swap_children(&mut self, p: NodeId, i: usize, j: usize)
        requires
            old(self).wf(),
            old(self).live(p.0 as int),
            i < old(self).kids(p.0 as int).len(),
            j < old(self).kids(p.0 as int).len(),
        ensures
            final(self).wf(),
            final(self).kids_swapped(old(self), p.0 as int, i as int, j as int),
    {
        let ghost t0 = *self;
        let slot = self.nodes[p.0].take();
        match slot {
            Some(n) => {
                let Node { parent, children, data } = n;
                let mut children = children;
                let a = children[i];
                let b = children[j];
                children.set(i, b);
                children.set(j, a);
                self.nodes.set(p.0, Some(Node { parent, children, data }));
            },
            None => {},
        }
        proof {
            let t1 = *self;
            let pi = p.0 as int;
            let k0 = t0.kids(pi);
            assert(t1.kids(pi) =~= swapped(k0, i as int, j as int));
            assert(t0.node_ok(pi));
            assert forall|x: int| 0 <= x < t1.nodes@.len() && x != pi implies t1.nodes@[x] == t0.nodes@[x] by {}
            assert forall|x: int| #[trigger] t1.live(x) implies t1.node_ok(x) by {
                assert(t0.live(x));
                assert(t0.node_ok(x));
                let n = t1.nodes@[x]->Some_0;
                let on = t0.nodes@[x]->Some_0;
                if x == pi {
                    assert forall|k: int| 0 <= k < n.children@.len() implies #[trigger] t1.child_ok(
                        x,
                        n.children@[k].0 as int,
                    ) by {
                        let kk = if k == i { j as int } else if k == j { i as int } else { k };
                        assert(n.children@[k] == on.children@[kk]);
                        assert(t0.child_ok(x, on.children@[kk].0 as int));
                    }
                    assert forall|a: int, b: int| 0 <= a < b < n.children@.len() implies n.children@[a] != n.children@[b] by {
                        let aa = if a == i { j as int } else if a == j { i as int } else { a };
                        let bb = if b == i { j as int } else if b == j { i as int } else { b };
                        assert(n.children@[a] == on.children@[aa]);
                        assert(n.children@[b] == on.children@[bb]);
                        if aa < bb {
                        } else {
                        }
                    }
                } else {
                    assert forall|k: int| 0 <= k < n.children@.len() implies #[trigger] t1.child_ok(
                        x,
                        n.children@[k].0 as int,
                    ) by {
                        assert(t0.child_ok(x, n.children@[k].0 as int));
                    }
                }
                if x != 0 {
                    let pp = on.parent->Some_0.0 as int;
                    if pp == pi {
                        let ppn = t0.nodes@[pp]->Some_0;
                        let w = choose|w: int| 0 <= w < ppn.children@.len() && ppn.children@[w] == NodeId(x as usize);
                        let ww = if w == i { j as int } else if w == j { i as int } else { w };
                        assert(t1.nodes@[pp]->Some_0.children@[ww] == NodeId(x as usize));
                    }
                }
            }
        }
    }

    /// Where the focused window moves in direction `d`: walking up from `cur`,
    /// the first container whose layout runs along `d`, and the positions
    /// `(from, to)` of the step within it; none when a workspace (or any
    /// non-container) is reached first, or the step would leave the container.
    pub closed spec fn walk_up(&self, cur: int, d: Direction) -> Option<(NodeId, usize, usize)>
        decreases self.rank_of(cur),
    {
        if self.wf() && self.live(cur) && cur != 0 {
            proof {
                assert(self.node_ok(cur));
            }
            let p = self.node(cur).parent_of()->Some_0.0 as int;
            match self.data(p) {
                NodeData::Container { layout, .. } => if axis_matches(layout, d) {
                    let k = self.kids(p);
                    let idx = first_where(k, is_id(NodeId(cur as usize)));
                    if idx >= k.len() {
                        None
                    } else if d == Direction::Left || d == Direction::Up {
                        if idx > 0 {
                            Some((NodeId(p as usize), idx as usize, (idx - 1) as usize))
                        } else {
                            None
                        }
                    } else {
                        if idx + 1 < k.len() {
                            Some((NodeId(p as usize), idx as usize, (idx + 1) as usize))
                        } else {
                            None
                        }
                    }
                } else {
                    proof {
                        assert(self.node_ok(p));
                        let w = choose|w: int| 0 <= w < self.kids(p).len() && self.kids(p)[w] == NodeId(cur as usize);
                        assert(self.child_ok(p, self.kids(p)[w].0 as int));
                    }
                    self.walk_up(p, d)
                },
                _ => None,
            }
        } else {
            None
        }
    }

    /// Where `move_window` moves the focused window (see [`Tree::walk_up`]).
    pub open spec fn spec_move_target(&self, d: Direction) -> Option<(NodeId, usize, usize)> {
        match self.spec_focused_window() {
            Some(leaf) => self.walk_up(leaf.0 as int, d),
            None => None,
        }
    }

    proof fn lemma_walk_up(&self, cur: int, d: Direction)
        requires
            self.wf(),
        ensures
            self.walk_up(cur, d) matches Some((p, i, j)) ==> self.is_container(p.0 as int)
                && i < self.kids(p.0 as int).len() && j < self.kids(p.0 as int).len(),
        decreases self.rank_of(cur),
    {
        if self.live(cur) && cur != 0 {
            assert(self.node_ok(cur));
            let p = self.node(cur).parent_of()->Some_0.0 as int;
            lemma_first_where(self.kids(p), is_id(NodeId(cur as usize)));
            match self.data(p) {
                NodeData::Container { layout, .. } => {
                    if !axis_matches(layout, d) {
                        assert(self.node_ok(p));
                        let w = choose|w: int| 0 <= w < self.kids(p).len() && self.kids(p)[w] == NodeId(cur as usize);
                        assert(self.child_ok(p, self.kids(p)[w].0 as int));
                        self.lemma_walk_up(p, d);
                    }
                },
                _ => {},
            }
        }
    }

    /// `self` is `old` after the step `(i, j)` in container `p`: the children
    /// exchanged, the sizes too when both are in range, and `j` focused.
    pub open spec fn stepped(&self, old: &Tree, p: int, i: int, j: int) -> bool {
        &&& self.slots().len() == old.slots().len()
        &&& self.live(p)
        &&& self.kids(p) == swapped(old.kids(p), i, j)
        &&& self.node(p).parent_of() == old.node(p).parent_of()
        &&& self.same_slots_except(old, set![p])
        &&& self.free() == old.free()
        &&& self.root_id() == old.root_id()
        &&& self.focus() == old.focus()
        &&& self.data(p) matches NodeData::Container { layout: l2, sizes: s2, focused_child: f2 }
        &&& old.data(p) matches NodeData::Container { layout: l1, sizes: s1, focused_child: f1 }
        &&& l2 == l1
        &&& f2 == j
        &&& s2@ == if i < s1@.len() && j < s1@.len() {
            swapped(s1@, i, j)
        } else {
            s1@
        }
    }

    fn swap_sizes_and_focus(&mut self, p: NodeId, i: usize, j: usize, refocus: bool)
        requires
            old(self).wf(),
            old(self).is_container(p.0 as int),
        ensures
            final(self).wf(),
            final(self).only_data_changed(old(self), p.0 as int),
            final(self).data(p.0 as int) matches NodeData::Container { layout: l2, sizes: s2, focused_child: f2 },
            old(self).data(p.0 as int) matches NodeData::Container { layout: l1, sizes: s1, focused_child: f1 },
            final(self).data(p.0 as int)->Container_layout == old(self).data(p.0 as int)->Container_layout,
            final(self).data(p.0 as int)->Container_focused_child == if refocus {
                j
            } else {
                old(self).data(p.0 as int)->Container_focused_child
            },
            final(self).data(p.0 as int)->Container_sizes@ == if i < old(self).data(
                p.0 as int,
            )->Container_sizes@.len() && j < old(self).data(p.0 as int)->Container_sizes@.len() {
                swapped(old(self).data(p.0 as int)->Container_sizes@, i as int, j as int)
            } else {
                old(self).data(p.0 as int)->Container_sizes@
            },
    {
        let d = self.replace_data(p, NodeData::Root);
        match d {
            NodeData::Container { layout, sizes, focused_child } => {
                let mut sizes = sizes;
                if i < sizes.len() && j < sizes.len() {
                    let a = sizes[i];
                    let b = sizes[j];
                    sizes.set(i, b);
                    sizes.set(j, a);
                }
                let f = if refocus { j } else { focused_child };
                self.replace_data(p, NodeData::Container { layout, sizes, focused_child: f });
            },
            other => {
                self.replace_data(p, other);
            },
        }
    }

    /// Move the focused window one step in direction `d` (Sway): walking up
    /// from it to the nearest container along `d`'s axis, exchange the
    /// ancestor (or the window) with its neighbour there, and focus the new
    /// position.
    pub fn move_window(&mut self, d: Direction) -> (r: bool)
        requires
            old(self).wf(),
        ensures
            final(self).wf(),
            match old(self).spec_move_target(d) {
                None => !r && *final(self) == *old(self),
                Some((p, i, j)) => r && final(self).stepped(old(self), p.0 as int, i as int, j as int),
            },
    {
        let ws = match self.focused_workspace() {
            Some(id) => id,
            None => return false,
        };
        let leaf = match self.find_focused_leaf_node(ws) {
            Some(id) => id,
            None => return false,
        };
        let mut current = leaf;
        loop
            invariant
                self.wf(),
                *self == *old(self),
                self.spec_move_target(d) == self.walk_up(current.0 as int, d),
            decreases self.rank_of(current.0 as int),
        {
            if current.0 == 0 || current.0 >= self.nodes.len() || self.nodes[current.0].is_none() {
                return false;
            }
            let ghost cur = current.0 as int;
            assert(self.node_ok(cur));
            let parent_id = match self.parent(current) {
                Some(pid) => pid,
                None => return false,
            };
            let ghost p = parent_id.0 as int;
            assert(self.node_ok(p));
            let layout = match &self.nodes[parent_id.0] {
                Some(n) => match &n.data {
                    NodeData::Container { layout, .. } => *layout,
                    _ => return false,
                },
                None => return false,
            };
            let axis = match (layout, d) {
                (Layout::SplitH, Direction::Left) => true,
                (Layout::SplitH, Direction::Right) => true,
                (Layout::Tabbed, Direction::Left) => true,
                (Layout::Tabbed, Direction::Right) => true,
                (Layout::SplitV, Direction::Up) => true,
                (Layout::SplitV, Direction::Down) => true,
                (Layout::Stacked, Direction::Up) => true,
                (Layout::Stacked, Direction::Down) => true,
                _ => false,
            };
            if axis {
                proof {
                    self.lemma_walk_up(cur, d);
                }
                let idx = match self.child_position(parent_id, current) {
                    Some(i) => i,
                    None => {
                        proof {
                            lemma_first_where(self.kids(p), is_id(current));
                            let w = first_where(self.kids(p), is_id(current));
                            if w < self.kids(p).len() {
                                assert(self.kids(p)[w as int] == current);
                            }
                        }
                        return false;
                    },
                };
                proof {
                    lemma_first_where_at(self.kids(p), is_id(current), idx as int);
                }
                let len = self.children(parent_id).len();
                let new_pos = match d {
                    Direction::Left | Direction::Up => {
                        if idx > 0 {
                            idx - 1
                        } else {
                            return false;
                        }
                    },
                    Direction::Right | Direction::Down => {
                        if idx + 1 < len {
                            idx + 1
                        } else {
                            return false;
                        }
                    },
                };
                let ghost t0 = *self;
                self.swap_children(parent_id, idx, new_pos);
                self.swap_sizes_and_focus(parent_id, idx, new_pos, true);
                assert(self.stepped(&t0, p, idx as int, new_pos as int));
                return true;
            }
            proof {
                let w = choose|w: int| 0 <= w < self.kids(p).len() && self.kids(p)[w] == current;
                assert(self.child_ok(p, self.kids(p)[w].0 as int));
            }
            current = parent_id;
        }
    }

    /// Where `swap_containers` exchanges: the common parent and the positions
    /// of the two nodes among its children, when they differ.
    pub open spec fn spec_swap(&self, a: NodeId, b: NodeId) -> Option<(NodeId, usize, usize)> {
        match (self.parent_view(a.0 as int), self.parent_view(b.0 as int)) {
            (Some(pa), Some(pb)) => if pa == pb {
                let k = self.children_view(pa.0 as int);
                let ia = first_where(k, is_id(a));
                let ib = first_where(k, is_id(b));
                if ia < k.len() && ib < k.len() && ia != ib {
                    Some((pa, ia as usize, ib as usize))
                } else {
                    None
                }
            } else {
                None
            },
            _ => None,
        }
    }

    /// What exchanging siblings `a` and `b` of `old` leaves (see
    /// [`Tree::spec_swap`]): their parent's children exchanged at their
    /// positions, and the parent's sizes too when it is a container with an
    /// entry at both; nothing else changed. Without such a pair, nothing
    /// changes.
    pub open spec fn siblings_swapped(&self, old: &Tree, a: NodeId, b: NodeId) -> bool {
        match old.spec_swap(a, b) {
            None => *self == *old,
            Some((p, i, j)) => {
                let pi = p.0 as int;
                &&& self.slots().len() == old.slots().len()
                &&& self.live(pi)
                &&& self.kids(pi) == swapped(old.kids(pi), i as int, j as int)
                &&& self.node(pi).parent_of() == old.node(pi).parent_of()
                &&& self.same_slots_except(old, set![pi])
                &&& self.free() == old.free()
                &&& self.root_id() == old.root_id()
                &&& self.focus() == old.focus()
                &&& (old.is_container(pi) ==> {
                    let s1 = old.data(pi)->Container_sizes@;
                    &&& self.data(pi) is Container
                    &&& self.data(pi)->Container_layout == old.data(pi)->Container_layout
                    &&& self.data(pi)->Container_focused_child == old.data(pi)->Container_focused_child
                    &&& self.data(pi)->Container_sizes@ == if i < s1.len() && j < s1.len() {
                        swapped(s1, i as int, j as int)
                    } else {
                        s1
                    }
                })
                &&& (!old.is_container(pi) ==> self.data(pi) == old.data(pi))
            },
        }
    }

    /// Exchange two siblings (and their sizes, in a container).
    pub fn swap_containers(&mut self, node_a: NodeId, node_b: NodeId) -> (r: bool)
        requires
            old(self).wf(),
        ensures
            final(self).wf(),
            r == old(self).spec_swap(node_a, node_b) is Some,
            final(self).siblings_swapped(old(self), node_a, node_b),
    {
        let pa = match self.parent(node_a) {
            Some(p) => p,
            None => return false,
        };
        let pb = match self.parent(node_b) {
            Some(p) => p,
            None => return false,
        };
        if pa != pb {
            return false;
        }
        let ghost k = self.children_view(pa.0 as int);
        proof {
            lemma_first_where(k, is_id(node_a));
            lemma_first_where(k, is_id(node_b));
        }
        let ia = match self.child_position(pa, node_a) {
            Some(i) => i,
            None => {
                proof {
                    if first_where(k, is_id(node_a)) < k.len() {
                        assert(k[first_where(k, is_id(node_a)) as int] == node_a);
                    }
                }
                return false;
            },
        };
        let ib = match self.child_position(pa, node_b) {
            Some(i) => i,
            None => {
                proof {
                    if first_where(k, is_id(node_b)) < k.len() {
                        assert(k[first_where(k, is_id(node_b)) as int] == node_b);
                    }
                }
                return false;
            },
        };
        proof {
            lemma_first_where_at(k, is_id(node_a), ia as int);
            lemma_first_where_at(k, is_id(node_b), ib as int);
        }
        if ia == ib {
            return false;
        }
        self.swap_children(pa, ia, ib);
        if self.kind_of(pa) == 1 {
            self.swap_sizes_and_focus(pa, ia, ib, false);
        }
        true
    }
}

impl Tree {
    /// `self` is `old` with node `f` moved from its parent `p` to the fresh,
    /// childless sibling `c`: `f` leaves `p`'s children, becomes `c`'s only
    /// child, and takes `c` as its parent.
    pub open spec fn reparented(&self, old: &Tree, f: int, c: int, p: int, pos: int) -> bool {
        &&& self.slots().len() == old.slots().len()
        &&& self.live(p) && self.live(c) && self.live(f)
        &&& self.kids(p) == old.kids(p).remove(pos)
        &&& self.kids(c) == seq![NodeId(f as usize)]
        &&& self.kids(f) == old.kids(f)
        &&& self.node(f).parent_of() == Some(NodeId(c as usize))
        &&& self.node(c).parent_of() == old.node(c).parent_of()
        &&& self.node(p).parent_of() == old.node(p).parent_of()
        &&& self.data(p) == old.data(p) && self.data(c) == old.data(c) && self.data(f) == old.data(f)
        &&& self.same_slots_except(old, set![p, c, f])
        &&& self.free() == old.free()
        &&& self.root_id() == old.root_id()
        &&& self.focus() == old.focus()
    }

    fn reparent(&mut self, f: NodeId, c: NodeId) -> (pos: usize)
        requires
            old(self).wf(),
            old(self).live(f.0 as int),
            old(self).live(c.0 as int),
            f.0 != 0,
            c.0 != 0,
            f != c,
            old(self).kids(c.0 as int).len() == 0,
            old(self).node(c.0 as int).parent_of() == old(self).node(f.0 as int).parent_of(),
        ensures
            final(self).wf(),
            ({
                let p = old(self).node(f.0 as int).parent_of()->Some_0.0 as int;
                &&& pos < old(self).kids(p).len()
                &&& old(self).kids(p)[pos as int] == f
                &&& pos == first_where(old(self).kids(p), is_id(f))
                &&& final(self).reparented(old(self), f.0 as int, c.0 as int, p, pos as int)
            }),
    {
        let ghost t0 = *self;
        assert(t0.node_ok(f.0 as int));
        assert(t0.node_ok(c.0 as int));
        let p = match &self.nodes[f.0] {
            Some(n) => n.parent.unwrap(),
            None => NodeId(0),
        };
        let ghost pi = p.0 as int;
        assert(t0.node_ok(pi));
        let ghost w0 = choose|w: int| 0 <= w < t0.kids(pi).len() && t0.kids(pi)[w] == f;
        let pos = match self.child_position(p, f) {
            Some(i) => i,
            None => 0,
        };
        proof {
            assert(t0.kids(pi)[w0] == f);
            lemma_first_where_at(t0.kids(pi), is_id(f), pos as int);
        }
        // detach f from p
        let mut pnode = self.nodes[p.0].take();
        match pnode {
            Some(ref mut pn) => {
                pn.children.remove(pos);
            },
            None => {},
        }
        self.nodes.set(p.0, pnode);
        // attach f under c
        let mut cnode = self.nodes[c.0].take();
        match cnode {
            Some(ref mut cn) => {
                cn.children.push(f);
            },
            None => {},
        }
        self.nodes.set(c.0, cnode);
        let mut fnode = self.nodes[f.0].take();
        match fnode {
            Some(ref mut fnn) => {
                fnn.parent = Some(c);
            },
            None => {},
        }
        self.nodes.set(f.0, fnode);
        proof {
            let old_rank = t0.rank@;
            let rf = old_rank[f.0 as int];
            self.rank@ = old_rank.map_values(|v: nat| 2 * v + 1).insert(c.0 as int, 2 * rf);
            self.rank_bound@ = 2 * t0.rank_bound@ + 1;
        }
        proof {
            let t1 = *self;
            let fi = f.0 as int;
            let ci = c.0 as int;
            assert(t0.child_ok(pi, fi));
            assert(t0.child_ok(pi, ci)) by {
                let wc = choose|w: int| 0 <= w < t0.kids(pi).len() && t0.kids(pi)[w] == c;
                assert(t0.child_ok(pi, t0.kids(pi)[wc].0 as int));
            }
            assert(t1.kids(pi) =~= t0.kids(pi).remove(pos as int));
            assert(t1.kids(ci) =~= seq![f]);
            assert forall|x: int| 0 <= x < t1.nodes@.len() && x != pi && x != ci && x != fi implies t1.nodes@[x] == t0.nodes@[x] by {}
            assert forall|x: int| #[trigger] t1.live(x) implies t1.node_ok(x) by {
                assert(t0.live(x));
                assert(t0.node_ok(x));
                let n = t1.nodes@[x]->Some_0;
                let on = t0.nodes@[x]->Some_0;
                assert(t1.rank@.contains_key(x));
                assert forall|k: int| 0 <= k < n.children@.len() implies #[trigger] t1.child_ok(
                    x,
                    n.children@[k].0 as int,
                ) by {
                    let y = n.children@[k].0 as int;
                    if x == ci {
                        assert(y == fi);
                    } else if x == pi {
                        let kk = if k < pos { k } else { k + 1 };
                        assert(n.children@[k] == on.children@[kk]);
                        assert(t0.child_ok(x, y));
                        assert(y != fi);
                    } else {
                        assert(n.children@[k] == on.children@[k]);
                        assert(t0.child_ok(x, y));
                        if y == fi {
                            assert(x == pi);
                        }
                    }
                }
                assert forall|a: int, b: int| 0 <= a < b < n.children@.len() implies n.children@[a] != n.children@[b] by {
                    if x == pi {
                        let aa = if a < pos { a } else { a + 1 };
                        let bb = if b < pos { b } else { b + 1 };
                        assert(n.children@[a] == on.children@[aa]);
                        assert(n.children@[b] == on.children@[bb]);
                    }
                }
                if x != 0 {
                    let pp = n.parent->Some_0.0 as int;
                    if x == fi {
                        assert(t1.nodes@[ci]->Some_0.children@[0] == f);
                    } else {
                        let opp = on.parent->Some_0.0 as int;
                        assert(pp == opp);
                        let ppn = t0.nodes@[pp]->Some_0;
                        let w = choose|w: int| 0 <= w < ppn.children@.len() && ppn.children@[w] == NodeId(x as usize);
                        if pp == pi {
                            assert(x != fi);
                            assert(w != pos);
                            let ww = if w < pos { w } else { w - 1 };
                            assert(t1.nodes@[pp]->Some_0.children@[ww] == NodeId(x as usize));
                        } else if pp == ci {
                            assert(t0.kids(ci).len() == 0);
                        } else if pp == fi {
                            assert(t1.nodes@[pp]->Some_0.children@[w] == NodeId(x as usize));
                        } else {
                            assert(t1.nodes@[pp]->Some_0.children@[w] == NodeId(x as usize));
                        }
                    }
                }
            }
        }
        pos
    }

    /// `self` is `old` with the child of `p` at `from` moved down to position `to`.
    fn move_child(&mut self, p: NodeId, from: usize, to: usize)
        requires
            old(self).wf(),
            old(self).live(p.0 as int),
            to <= from < old(self).kids(p.0 as int).len(),
        ensures
            final(self).wf(),
            final(self).slots().len() == old(self).slots().len(),
            final(self).live(p.0 as int),
            final(self).kids(p.0 as int) == old(self).kids(p.0 as int).remove(from as int).insert(
                to as int,
                old(self).kids(p.0 as int)[from as int],
            ),
            final(self).node(p.0 as int).parent_of() == old(self).node(p.0 as int).parent_of(),
            final(self).data(p.0 as int) == old(self).data(p.0 as int),
            final(self).same_slots_except(old(self), set![p.0 as int]),
            final(self).free() == old(self).free(),
            final(self).root_id() == old(self).root_id(),
            final(self).focus() == old(self).focus(),
    {
        let ghost k0 = self.kids(p.0 as int);
        let ghost x = k0[from as int];
        let ghost r = k0.remove(from as int);
        let ghost t0 = *self;
        let mut i: usize = from;
        assert(r.insert(from as int, x) =~= k0);
        while i > to
            invariant
                self.wf(),
                self.live(p.0 as int),
                to <= i <= from,
                from < k0.len(),
                r == k0.remove(from as int),
                x == k0[from as int],
                self.kids(p.0 as int) == r.insert(i as int, x),
                self.slots().len() == t0.slots().len(),
                self.node(p.0 as int).parent_of() == t0.node(p.0 as int).parent_of(),
                self.data(p.0 as int) == t0.data(p.0 as int),
                self.same_slots_except(&t0, set![p.0 as int]),
                self.free() == t0.free(),
                self.root_id() == t0.root_id(),
                self.focus() == t0.focus(),
            decreases i,
        {
            self.swap_children(p, i - 1, i);
            assert(swapped(r.insert(i as int, x), i - 1, i as int) =~= r.insert(i - 1, x));
            i = i - 1;
        }
    }
}

/// Window data for a new window: the id, every flag off, no marks, an empty
/// geometry and nothing saved.
pub open spec fn is_fresh_window(d: NodeData, id: u64) -> bool {
    &&& d is Window
    &&& d->Window_window_id == id
    &&& !d->Window_floating
    &&& !d->Window_fullscreen
    &&& !d->Window_fullscreen_global
    &&& !d->Window_sticky
    &&& d->Window_marks@.len() == 0
    &&& d->Window_geometry == Rect { x: 0, y: 0, width: 0, height: 0 }
    &&& d->Window_saved_geometry is None
}

fn fresh_window(window_id: u64) -> (d: NodeData)
    ensures
        is_fresh_window(d, window_id),
{
    NodeData::Window {
        window_id,
        floating: false,
        fullscreen: false,
        fullscreen_global: false,
        sticky: false,
        marks: Vec::new(),
        geometry: Rect { x: 0, y: 0, width: 0, height: 0 },
        saved_geometry: None,
    }
}

impl Tree {
    /// The slot that the next added node takes.
    pub open spec fn next_id(&self) -> NodeId {
        if self.free().len() > 0 {
            self.free().last()
        } else {
            NodeId(self.slots().len() as usize)
        }
    }

    /// The slot that the node added after the next one takes.
    pub open spec fn second_id(&self) -> NodeId {
        if self.free().len() > 1 {
            self.free()[self.free().len() - 2]
        } else if self.free().len() == 1 {
            NodeId(self.slots().len() as usize)
        } else {
            NodeId((self.slots().len() + 1) as usize)
        }
    }

    /// Where a window inserted below `n` goes: `(p, f, i)` with `p` the node
    /// that receives it, `f` the focused child of `p` (a window; -1 when `p`
    /// has no children) and `i` the focused index that chose it. From `n`,
    /// the focused child (a container's focused index, else the first; the
    /// first when the index is out of range) is followed until it is a window.
    pub closed spec fn insert_site(&self, n: int) -> (int, int, int)
        decreases self.depth_left(n),
    {
        if self.wf() && self.live(n) {
            proof {
                assert(self.node_ok(n));
            }
            let k = self.kids(n);
            if k.len() == 0 {
                (n, -1, 0)
            } else {
                let fidx: int = match self.data(n) {
                    NodeData::Container { focused_child, .. } => focused_child as int,
                    _ => 0,
                };
                let j: int = if fidx < k.len() { fidx } else { 0 };
                let f = k[j].0 as int;
                proof {
                    assert(self.child_ok(n, f));
                }
                if self.data(f) is Window {
                    (n, f, fidx)
                } else {
                    self.insert_site(f)
                }
            }
        } else {
            (n, -1, 0)
        }
    }

    pub proof fn lemma_insert_site(&self, n: int)
        requires
            self.wf(),
            self.live(n),
        ensures
            ({
                let (p, f, fidx) = self.insert_site(n);
                &&& self.live(p)
                &&& p != 0 || n == 0
                &&& (f == -1 ==> self.kids(p).len() == 0)
                &&& (f != -1 ==> {
                    &&& self.kids(p).len() > 0
                    &&& 0 <= fidx
                    &&& fidx == match self.data(p) {
                        NodeData::Container { focused_child, .. } => focused_child as int,
                        _ => 0,
                    }
                    &&& f == self.kids(p)[if fidx < self.kids(p).len() { fidx } else { 0 }].0 as int
                    &&& self.live(f)
                    &&& f != 0
                    &&& self.data(f) is Window
                    &&& self.node(f).parent_of() == Some(NodeId(p as usize))
                })
            }),
        decreases self.depth_left(n),
    {
        assert(self.node_ok(n));
        let k = self.kids(n);
        if k.len() > 0 {
            let fidx: int = match self.data(n) {
                NodeData::Container { focused_child, .. } => focused_child as int,
                _ => 0,
            };
            let j: int = if fidx < k.len() { fidx } else { 0 };
            let f = k[j].0 as int;
            assert(self.child_ok(n, f));
            if !(self.data(f) is Window) {
                self.lemma_insert_site(f);
            }
        }
    }

    /// Whether inserting under `n` with `split` completes: when a window is
    /// wrapped in a new container inside a container, the position that the
    /// new container takes is within that container's sizes.
    pub open spec fn insert_completes(&self, n: int, split: Layout) -> bool {
        let (p, f, fidx) = self.insert_site(n);
        f != -1 && !(self.data(p) is Container && self.data(p)->Container_layout == split) ==> match self.data(p) {
            NodeData::Container { sizes, .. } => {
                let c = self.kids(p).len();
                let s1 = if fidx < sizes@.len() { sizes@.len() - 1 } else { sizes@.len() as int };
                let pos = if fidx < c - 1 { fidx } else { c - 1 };
                pos <= s1
            },
            _ => true,
        }
    }

    /// A new window `w` placed at position `pos` among the children of `p`
    /// (with `p` otherwise unchanged in structure).
    pub open spec fn added_window(&self, old: &Tree, p: int, pos: int, w: NodeId, id: u64) -> bool {
        &&& w == old.next_id()
        &&& !old.live(w.0 as int)
        &&& self.live(w.0 as int)
        &&& self.node(w.0 as int).parent_of() == Some(NodeId(p as usize))
        &&& self.kids(w.0 as int) == Seq::<NodeId>::empty()
        &&& is_fresh_window(self.data(w.0 as int), id)
        &&& self.live(p)
        &&& self.kids(p) == old.kids(p).insert(pos, w)
        &&& self.node(p).parent_of() == old.node(p).parent_of()
        &&& self.same_slots_except(old, set![w.0 as int, p])
        &&& forall|j: int| #[trigger] self.live(j) ==> old.live(j) || j == w.0
        &&& self.slots().len() >= old.slots().len()
        &&& self.root_id() == old.root_id()
        &&& self.focus() == old.focus()
    }

    /// The wrap of window `f` (the child chosen by focused index `fidx` of
    /// `p`) in a new container `c` with layout `split`, together with a new
    /// window `w`: `c` takes the position `min(fidx, len - 1)` among the other
    /// children of `p`, holds `[f, w]` and focuses `w`; when `p` is a
    /// container its sizes lose the entry at `fidx` (if any), gain a 100 at
    /// that position, and `p` focuses it.
    pub open spec fn wrapped(&self, old: &Tree, p: int, f: int, fidx: int, split: Layout, w: NodeId, id: u64) -> bool {
        let c = old.next_id();
        let k0 = old.kids(p);
        let pos_f = first_where(k0, is_id(NodeId(f as usize)));
        let pos = if fidx < k0.len() - 1 { fidx } else { k0.len() - 1 };
        &&& w == old.second_id()
        &&& !old.live(c.0 as int) && !old.live(w.0 as int) && c != w
        &&& self.live(c.0 as int) && self.live(w.0 as int) && self.live(f) && self.live(p)
        &&& self.data(c.0 as int) matches NodeData::Container { layout, sizes, focused_child }
        &&& self.data(c.0 as int)->Container_layout == split
        &&& self.data(c.0 as int)->Container_sizes@ == seq![100i64, 100i64]
        &&& self.data(c.0 as int)->Container_focused_child == 1
        &&& self.kids(c.0 as int) == seq![NodeId(f as usize), w]
        &&& self.node(c.0 as int).parent_of() == Some(NodeId(p as usize))
        &&& is_fresh_window(self.data(w.0 as int), id)
        &&& self.kids(w.0 as int) == Seq::<NodeId>::empty()
        &&& self.node(w.0 as int).parent_of() == Some(c)
        &&& self.node(f).parent_of() == Some(c)
        &&& self.data(f) == old.data(f)
        &&& self.kids(f) == old.kids(f)
        &&& self.kids(p) == k0.remove(pos_f as int).insert(pos, c)
        &&& self.node(p).parent_of() == old.node(p).parent_of()
        &&& (old.data(p) is Container ==> {
            let s0 = old.data(p)->Container_sizes@;
            let s1 = if fidx < s0.len() { s0.remove(fidx) } else { s0 };
            &&& self.data(p) is Container
            &&& self.data(p)->Container_layout == old.data(p)->Container_layout
            &&& self.data(p)->Container_sizes@ == s1.insert(pos, 100)
            &&& self.data(p)->Container_focused_child == pos
        })
        &&& (!(old.data(p) is Container) ==> self.data(p) == old.data(p))
        &&& self.same_slots_except(old, set![p, f, c.0 as int, w.0 as int])
        &&& forall|j: int| #[trigger] self.live(j) ==> old.live(j) || j == c.0 || j == w.0
        &&& self.slots().len() >= old.slots().len()
        &&& self.root_id() == old.root_id()
        &&& self.focus() == old.focus()
    }

    /// Where a window inserted beside the focused child of `p` goes: right
    /// after it (the focused index `fidx` chooses the child, the first one
    /// when it is out of range).
    pub open spec fn after_focused(&self, p: int, fidx: int) -> int {
        if fidx < self.kids(p).len() {
            fidx + 1
        } else {
            1
        }
    }

    /// The sizes of a container after a window is placed at `pos`: a 100
    /// there (at the end when the sizes are shorter).
    pub open spec fn sizes_with(s: Seq<i64>, pos: int) -> Seq<i64> {
        if pos <= s.len() {
            s.insert(pos, 100)
        } else {
            s.push(100)
        }
    }

    /// What inserting window `id` below `n` with `split` did, by the case of
    /// its site: an empty node receives the window; a container already
    /// split that way receives it as a sibling right after its focused
    /// child (a 100 size, focused); else the focused window is wrapped with
    /// it in a new container.
    pub open spec fn inserted(&self, old: &Tree, n: int, split: Layout, w: NodeId, id: u64) -> bool {
        let (p, f, fidx) = old.insert_site(n);
        if f == -1 {
            self.added_window(old, p, 0, w, id) && self.data(p) == old.data(p)
        } else if old.data(p) is Container && old.data(p)->Container_layout == split {
            let pos = old.after_focused(p, fidx);
            &&& self.added_window(old, p, pos, w, id)
            &&& self.data(p) is Container
            &&& self.data(p)->Container_layout == split
            &&& self.data(p)->Container_sizes@ == Tree::sizes_with(old.data(p)->Container_sizes@, pos)
            &&& self.data(p)->Container_focused_child == pos
        } else {
            self.wrapped(old, p, f, fidx, split, w, id)
        }
    }

    #[verifier::spinoff_prover]
    fn wrap_with_container(
        &mut self,
        parent_id: NodeId,
        existing_win: NodeId,
        child_index: usize,
        window_id: u64,
        split_layout: Layout,
    ) -> (w: NodeId)
        requires
            old(self).wf(),
            old(self).room() >= 2,
            old(self).live(parent_id.0 as int),
            old(self).live(existing_win.0 as int),
            existing_win.0 != 0,
            old(self).node(existing_win.0 as int).parent_of() == Some(parent_id),
            old(self).kids(parent_id.0 as int).len() > 0,
            match old(self).data(parent_id.0 as int) {
                NodeData::Container { sizes, .. } => {
                    let c = old(self).kids(parent_id.0 as int).len();
                    let s1 = if child_index < sizes@.len() { sizes@.len() - 1 } else { sizes@.len() as int };
                    let pos = if child_index < c - 1 { child_index as int } else { c - 1 };
                    pos <= s1
                },
                _ => true,
            },
        ensures
            final(self).wf(),
            final(self).wrapped(old(self), parent_id.0 as int, existing_win.0 as int, child_index as int, split_layout, w, window_id),
    {
        let ghost t0 = *self;
        let ghost k0 = t0.kids(parent_id.0 as int);
        let len = self.children(parent_id).len();
        let pos = if child_index < len - 1 { child_index } else { len - 1 };
        let c = self.add_node(
            parent_id,
            NodeData::Container { layout: split_layout, sizes: vec![100, 100], focused_child: 1 },
        );
        let ghost t1 = *self;
        let pos_f = self.reparent(existing_win, c);
        let ghost t2 = *self;
        assert(t2.kids(parent_id.0 as int) =~= k0.remove(pos_f as int).push(c));
        self.move_child(parent_id, len - 1, pos);
        let ghost t3 = *self;
        assert(k0.remove(pos_f as int).push(c).remove(len - 1) =~= k0.remove(pos_f as int));
        let w = self.add_node(c, fresh_window(window_id));
        let ghost t4 = *self;
        if self.kind_of(parent_id) == 1 {
            let d = self.replace_data(parent_id, NodeData::Root);
            match d {
                NodeData::Container { layout, sizes, focused_child: _ } => {
                    let mut sizes = sizes;
                    if child_index < sizes.len() {
                        sizes.remove(child_index);
                    }
                    sizes.insert(pos, 100);
                    self.replace_data(parent_id, NodeData::Container { layout, sizes, focused_child: pos });
                },
                other => {
                    self.replace_data(parent_id, other);
                },
            }
        }
        proof {
            let t5 = *self;
            let pi = parent_id.0 as int;
            let fi = existing_win.0 as int;
            let ci = c.0 as int;
            let wi = w.0 as int;
            assert(t5.kids(ci) =~= seq![existing_win, w]);
            assert(t1.data(ci)->Container_sizes@ =~= seq![100i64, 100i64]);
            assert(w == t0.second_id());
            assert(c == t0.next_id());
            assert(!t0.live(ci) && !t0.live(wi) && c != w);
            assert(t5.live(ci) && t5.live(wi) && t5.live(fi) && t5.live(pi));
            assert(t5.data(ci) == t1.data(ci));
            assert(t5.node(ci).parent_of() == Some(parent_id));
            assert(is_fresh_window(t5.data(wi), window_id));
            assert(t5.node(wi).parent_of() == Some(c));
            assert(t5.node(fi).parent_of() == Some(c));
            assert(t5.data(fi) == t0.data(fi));
            assert(t5.kids(fi) == t0.kids(fi));
            assert(t0.node_ok(fi));
            let jf = choose|j: int| 0 <= j < k0.len() && k0[j] == existing_win;
            lemma_first_where(k0, is_id(existing_win));
            assert(t1.kids(pi) == k0.push(c));
            assert(k0.push(c).take(k0.len() as int) =~= k0);
            lemma_first_where_prefix(k0.push(c), k0.len() as int, is_id(existing_win));
            assert(pos_f == first_where(k0, is_id(existing_win)));
            assert(t5.kids(pi) == k0.remove(pos_f as int).insert(pos as int, c));
            assert(t5.node(pi).parent_of() == t0.node(pi).parent_of());
            assert(t5.same_slots_except(&t0, set![pi, fi, ci, wi]));
        }
        w
    }
}

impl Tree {
    fn insert_window_into(&mut self, parent_id: NodeId, window_id: u64, split_layout: Layout) -> (w: NodeId)
        requires
            old(self).wf(),
            old(self).live(parent_id.0 as int),
            old(self).room() >= 2,
            old(self).insert_completes(parent_id.0 as int, split_layout),
        ensures
            final(self).wf(),
            final(self).inserted(old(self), parent_id.0 as int, split_layout, w, window_id),
        decreases old(self).depth_left(parent_id.0 as int),
    {
        let ghost n = parent_id.0 as int;
        proof {
            self.lemma_insert_site(n);
            assert(self.node_ok(n));
        }
        let len = self.children(parent_id).len();
        if len == 0 {
            let ghost t0 = *self;
            let r = self.add_node(parent_id, fresh_window(window_id));
            assert(self.kids(n) =~= t0.kids(n).insert(0, r));
            return r;
        }
        let (parent_layout, focused_idx) = match &self.nodes[parent_id.0] {
            Some(node) => match &node.data {
                NodeData::Container { layout, focused_child, .. } => (Some(*layout), *focused_child),
                _ => (None, 0),
            },
            None => (None, 0),
        };
        let j = if focused_idx < len { focused_idx } else { 0 };
        let focused_id = self.children(parent_id)[j];
        proof {
            assert(self.child_ok(n, focused_id.0 as int));
        }
        let is_win = match &self.nodes[focused_id.0] {
            Some(node) => match &node.data {
                NodeData::Window { .. } => true,
                _ => false,
            },
            None => false,
        };
        if is_win {
            let same = match parent_layout {
                Some(l) => l == split_layout,
                None => false,
            };
            if same {
                let pos = j + 1;
                let ghost t0 = *self;
                let new_id = self.add_node(parent_id, fresh_window(window_id));
                let ghost t1 = *self;
                self.move_child(parent_id, len, pos);
                let ghost t2 = *self;
                assert(t1.kids(n) =~= t0.kids(n).push(new_id));
                assert(t1.kids(n).remove(len as int).insert(pos as int, new_id) =~= t0.kids(n).insert(pos as int, new_id));
                let d = self.replace_data(parent_id, NodeData::Root);
                match d {
                    NodeData::Container { layout, sizes, focused_child: _ } => {
                        let mut sizes = sizes;
                        if pos <= sizes.len() {
                            sizes.insert(pos, 100);
                        } else {
                            sizes.push(100);
                        }
                        self.replace_data(parent_id, NodeData::Container { layout, sizes, focused_child: pos });
                    },
                    other => {
                        self.replace_data(parent_id, other);
                    },
                }
                proof {
                    let t3 = *self;
                    assert forall|x: int| 0 <= x < t0.slots().len() && !set![new_id.0 as int, n].contains(x)
                        implies #[trigger] t3.slots()[x] == t0.slots()[x] by {
                        assert(t1.slots()[x] == t0.slots()[x]);
                        assert(t2.slots()[x] == t1.slots()[x]);
                    }
                    assert(t3.slots()[new_id.0 as int] == t1.slots()[new_id.0 as int]);
                    assert forall|x: int| #[trigger] t3.live(x) implies t0.live(x) || x == new_id.0 by {
                        if x != n && 0 <= x < t3.slots().len() {
                            assert(t3.slots()[x] == t2.slots()[x]);
                            assert(t2.slots()[x] == t1.slots()[x]);
                        }
                    }
                }
                return new_id;
            }
            self.wrap_with_container(parent_id, focused_id, focused_idx, window_id, split_layout)
        } else {
            self.insert_window_into(focused_id, window_id, split_layout)
        }
    }

    proof fn lemma_focused_workspace_live(&self)
        ensures
            self.spec_focused_workspace() matches Some(ws) ==> self.ws_visible(ws.0 as int),
    {
        lemma_first_where(self.level2(), self.visible_pred());
    }

    /// Where `insert_window_with_layout` inserts: the focused workspace, or
    /// the root when no workspace is visible.
    pub open spec fn insert_root(&self) -> int {
        match self.spec_focused_workspace() {
            Some(ws) => ws.0 as int,
            None => 0,
        }
    }

    /// Insert window `window_id` at the focused position of the focused
    /// workspace (see [`Tree::inserted`]), splitting with `layout` when the
    /// focused window must be wrapped; returns the new window's node.
    pub fn insert_window_with_layout(&mut self, window_id: u64, layout: Layout) -> (w: NodeId)
        requires
            old(self).wf(),
            old(self).room() >= 2,
            old(self).insert_completes(old(self).insert_root(), layout),
        ensures
            final(self).wf(),
            final(self).inserted(old(self), old(self).insert_root(), layout, w, window_id),
    {
        let ws_id = match self.focused_workspace() {
            Some(id) => id,
            None => self.root(),
        };
        proof {
            self.lemma_focused_workspace_live();
        }
        self.insert_window_into(ws_id, window_id, layout)
    }

    /// The insertion site below `n` (see [`Tree::insert_site`]): the parent,
    /// the focused window there if any, and the focused index.
    fn find_insert_site(&self, n: NodeId) -> (r: (NodeId, Option<NodeId>, usize))
        requires
            self.wf(),
            self.live(n.0 as int),
        ensures
            ({
                let (p, f, fidx) = self.insert_site(n.0 as int);
                &&& r.0.0 == p
                &&& match r.1 {
                    None => f == -1,
                    Some(w) => w.0 == f,
                }
                &&& r.2 == fidx
            }),
        decreases self.depth_left(n.0 as int),
    {
        proof {
            assert(self.node_ok(n.0 as int));
            self.lemma_insert_site(n.0 as int);
        }
        let kids = self.children(n);
        if kids.len() == 0 {
            return (n, None, 0);
        }
        let fidx: usize = match &self.nodes[n.0] {
            Some(node) => match &node.data {
                NodeData::Container { focused_child, .. } => *focused_child,
                _ => 0,
            },
            None => 0,
        };
        let j = if fidx < kids.len() {
            fidx
        } else {
            0
        };
        let f = kids[j];
        proof {
            assert(self.child_ok(n.0 as int, f.0 as int));
        }
        let is_window = match &self.nodes[f.0] {
            Some(node) => match &node.data {
                NodeData::Window { .. } => true,
                _ => false,
            },
            None => false,
        };
        if is_window {
            (n, Some(f), fidx)
        } else {
            self.find_insert_site(f)
        }
    }

    /// Whether [`Tree::insert_window_with_layout`] with `layout` may be called:
    /// there is room for two nodes and the insertion completes.
    pub fn can_insert(&self, layout: Layout) -> (b: bool)
        requires
            self.wf(),
        ensures
            b == (self.room() >= 2 && self.insert_completes(self.insert_root(), layout)),
    {
        if !self.has_room(2) {
            return false;
        }
        let ws = match self.focused_workspace() {
            Some(id) => id,
            None => self.root(),
        };
        proof {
            self.lemma_focused_workspace_live();
        }
        let (p, f, fidx) = self.find_insert_site(ws);
        proof {
            self.lemma_insert_site(ws.0 as int);
        }
        match f {
            None => true,
            Some(_) => match &self.nodes[p.0] {
                Some(node) => match &node.data {
                    NodeData::Container { layout: l, sizes, .. } => {
                        if *l == layout {
                            true
                        } else {
                            let c = self.children(p).len();
                            let s1 = if fidx < sizes.len() {
                                sizes.len() - 1
                            } else {
                                sizes.len()
                            };
                            let pos = if fidx < c - 1 {
                                fidx
                            } else {
                                c - 1
                            };
                            pos <= s1
                        }
                    },
                    _ => true,
                },
                None => true,
            },
        }
    }

    /// Insert window `window_id` with a horizontal split (see
    /// [`Tree::insert_window_with_layout`]).
    pub fn insert_window(&mut self, window_id: u64) -> (w: NodeId)
        requires
            old(self).wf(),
            old(self).room() >= 2,
            old(self).insert_completes(old(self).insert_root(), Layout::SplitH),
        ensures
            final(self).wf(),
            final(self).inserted(old(self), old(self).insert_root(), Layout::SplitH, w, window_id),
    {
        self.insert_window_with_layout(window_id, Layout::SplitH)
    }
}

impl Tree {
    /// `j` is `a` or lies below it.
    pub closed spec fn descends(&self, a: int, j: int) -> bool
        decreases self.rank_of(j),
    {
        if j == a {
            true
        } else if self.wf() && self.live(j) && j != 0 {
            proof {
                assert(self.node_ok(j));
                let p = self.node(j).parent_of()->Some_0.0 as int;
                assert(self.node_ok(p));
                let w = choose|w: int| 0 <= w < self.kids(p).len() && self.kids(p)[w] == NodeId(j as usize);
                assert(self.child_ok(p, self.kids(p)[w].0 as int));
            }
            self.descends(a, self.node(j).parent_of()->Some_0.0 as int)
        } else {
            false
        }
    }

    /// A node below `id` is released when `id` is and every released node's
    /// children are.
    proof fn lemma_descends_released(orig: &Tree, after: &Tree, id: int, j: int)
        requires
            orig.wf(),
            orig.live(j),
            orig.descends(id, j),
            Tree::released(orig, after, id),
            forall|x: int, k: int|
                #[trigger] Tree::released(orig, after, x) && 0 <= k < orig.kids(x).len() ==> Tree::released(
                    orig,
                    after,
                    #[trigger] orig.kids(x)[k].0 as int,
                ),
        ensures
            Tree::released(orig, after, j),
        decreases orig.rank_of(j),
    {
        if j != id {
            assert(orig.node_ok(j));
            let p = orig.node(j).parent_of()->Some_0.0 as int;
            assert(orig.node_ok(p));
            let w = choose|w: int| 0 <= w < orig.kids(p).len() && orig.kids(p)[w] == NodeId(j as usize);
            assert(orig.child_ok(p, orig.kids(p)[w].0 as int));
            Tree::lemma_descends_released(orig, after, id, p);
            assert(Tree::released(orig, after, orig.kids(p)[w].0 as int));
        }
    }

    /// Below is transitive.
    proof fn lemma_descends_trans(&self, a: int, b: int, c: int)
        requires
            self.wf(),
            self.descends(a, b),
            self.descends(b, c),
        ensures
            self.descends(a, c),
        decreases self.rank_of(c),
    {
        if c != b && c != a {
            assert(self.node_ok(c));
            let p = self.node(c).parent_of()->Some_0.0 as int;
            assert(self.node_ok(p));
            let w = choose|w: int| 0 <= w < self.kids(p).len() && self.kids(p)[w] == NodeId(c as usize);
            assert(self.child_ok(p, self.kids(p)[w].0 as int));
            self.lemma_descends_trans(a, b, p);
        }
    }

    /// Where every live node of `t2` is live in `t0` with the same parent,
    /// being below a node is the same in both.
    proof fn lemma_descends_same(t0: &Tree, t2: &Tree, a: int, j: int)
        requires
            t0.wf(),
            t2.wf(),
            t2.live(j),
            forall|i: int| #[trigger] t2.live(i) ==> t0.live(i) && t2.node(i).parent_of() == t0.node(i).parent_of(),
        ensures
            t2.descends(a, j) == t0.descends(a, j),
        decreases t0.rank_of(j),
    {
        if j != a && j != 0 {
            assert(t2.node_ok(j));
            assert(t0.node_ok(j));
            let p = t0.node(j).parent_of()->Some_0.0 as int;
            assert(t0.node_ok(p));
            let w = choose|w: int| 0 <= w < t0.kids(p).len() && t0.kids(p)[w] == NodeId(j as usize);
            assert(t0.child_ok(p, t0.kids(p)[w].0 as int));
            Tree::lemma_descends_same(t0, t2, a, p);
        }
    }

    /// The highest node that removing `x` takes away: from `x` up, as long
    /// as the parent is a container whose only child is the node reached
    /// (it would be left empty).
    pub closed spec fn removal_top(&self, x: int) -> int
        decreases self.rank_of(x),
    {
        if self.wf() && self.live(x) && x != 0 {
            proof {
                assert(self.node_ok(x));
                let p = self.node(x).parent_of()->Some_0.0 as int;
                assert(self.node_ok(p));
                let w = choose|w: int| 0 <= w < self.kids(p).len() && self.kids(p)[w] == NodeId(x as usize);
                assert(self.child_ok(p, self.kids(p)[w].0 as int));
            }
            let p = self.node(x).parent_of()->Some_0.0 as int;
            if self.is_container(p) && self.kids(p).len() == 1 {
                self.removal_top(p)
            } else {
                x
            }
        } else {
            x
        }
    }

    /// `self` is `old` without the subtree of `top`: every node below `top`
    /// (itself included) is gone, its slot on the free list; `top` leaves
    /// the children of its parent `s`, which, when it is a container, loses
    /// the size entry at `top`'s position (if it has one), its focused index
    /// kept within its sizes. Nothing else changed.
    pub open spec fn detached(&self, old: &Tree, top: int) -> bool {
        let s = old.node(top).parent_of()->Some_0.0 as int;
        let idx = first_where(old.kids(s), is_id(NodeId(top as usize))) as int;
        &&& self.slots().len() == old.slots().len()
        &&& forall|j: int| #[trigger] self.live(j) == (old.live(j) && !old.descends(top, j))
        &&& forall|j: int| #[trigger] self.live(j) && j != s ==> self.slots()[j] == old.slots()[j]
        &&& self.live(s)
        &&& self.kids(s) == old.kids(s).remove(idx)
        &&& self.node(s).parent_of() == old.node(s).parent_of()
        &&& (old.is_container(s) ==> {
            let s1 = old.data(s)->Container_sizes@;
            let s2 = if idx < s1.len() {
                s1.remove(idx)
            } else {
                s1
            };
            &&& self.data(s) is Container
            &&& self.data(s)->Container_layout == old.data(s)->Container_layout
            &&& self.data(s)->Container_sizes@ == s2
            &&& self.data(s)->Container_focused_child == clamp_focus(
                old.data(s)->Container_focused_child,
                s2.len(),
            )
        })
        &&& (!old.is_container(s) ==> self.data(s) == old.data(s))
        &&& self.free().len() >= old.free().len()
        &&& self.free().subrange(0, old.free().len() as int) == old.free()
        &&& forall|k: int|
            old.free().len() <= k < self.free().len() ==> Tree::released(
                old,
                self,
                #[trigger] self.free()[k].0 as int,
            )
        &&& forall|j: int|
            #[trigger] Tree::released(old, self, j) ==> self.free().subrange(
                old.free().len() as int,
                self.free().len() as int,
            ).contains(NodeId(j as usize))
        &&& self.root_id() == old.root_id()
        &&& self.focus() == old.focus()
        &&& forall|j: int| self.rank_of(j) == old.rank_of(j)
    }

    proof fn lemma_released_descends(orig: &Tree, after: &Tree, id: int, j: int)
        requires
            orig.wf(),
            Tree::released(orig, after, j),
            forall|x: int|
                #[trigger] Tree::released(orig, after, x) && x != id ==> Tree::released(
                    orig,
                    after,
                    orig.node(x).parent_of()->Some_0.0 as int,
                ),
            forall|x: int| #[trigger] Tree::released(orig, after, x) ==> x != 0,
        ensures
            orig.descends(id, j),
        decreases orig.rank_of(j),
    {
        if j != id {
            assert(orig.node_ok(j));
            let p = orig.node(j).parent_of()->Some_0.0 as int;
            assert(orig.node_ok(p));
            let w = choose|w: int| 0 <= w < orig.kids(p).len() && orig.kids(p)[w] == NodeId(j as usize);
            assert(orig.child_ok(p, orig.kids(p)[w].0 as int));
            Tree::lemma_released_descends(orig, after, id, p);
        }
    }

    proof fn lemma_descends_has_child(&self, a: int, j: int)
        requires
            self.wf(),
            self.descends(a, j),
            j != a,
        ensures
            self.live(a) && self.kids(a).len() > 0,
        decreases self.rank_of(j),
    {
        assert(self.node_ok(j));
        let p = self.node(j).parent_of()->Some_0.0 as int;
        assert(self.node_ok(p));
        let w = choose|w: int| 0 <= w < self.kids(p).len() && self.kids(p)[w] == NodeId(j as usize);
        assert(self.child_ok(p, self.kids(p)[w].0 as int));
        if p != a {
            self.lemma_descends_has_child(a, p);
        }
    }

    /// Every window of `old` is still in `self`, with the same data.
    pub open spec fn windows_kept(&self, old: &Tree) -> bool {
        forall|j: int|
            #[trigger] old.live(j) && old.data(j) is Window ==> self.live(j) && self.data(j)
                == old.data(j)
    }

    /// Each window of `self` was a window of `old`, in the same slot with
    /// the same data.
    pub open spec fn no_new_windows(&self, old: &Tree) -> bool {
        forall|j: int|
            #[trigger] self.live(j) && self.data(j) is Window ==> old.live(j) && old.data(j)
                == self.data(j)
    }

    fn is_empty_container(&self, id: NodeId) -> (b: bool)
        ensures
            b == (self.is_container(id.0 as int) && self.kids(id.0 as int).len() == 0),
    {
        if id.0 < self.nodes.len() {
            match &self.nodes[id.0] {
                Some(n) => match &n.data {
                    NodeData::Container { .. } => n.children.len() == 0,
                    _ => false,
                },
                None => false,
            }
        } else {
            false
        }
    }

    proof fn lemma_descends_rank(&self, a: int, j: int)
        requires
            self.wf(),
            self.descends(a, j),
        ensures
            j == a || (self.live(j) && self.rank_of(a) < self.rank_of(j)),
        decreases self.rank_of(j),
    {
        if j != a {
            assert(self.node_ok(j));
            let p = self.node(j).parent_of()->Some_0.0 as int;
            assert(self.node_ok(p));
            let w = choose|w: int| 0 <= w < self.kids(p).len() && self.kids(p)[w] == NodeId(j as usize);
            assert(self.child_ok(p, self.kids(p)[w].0 as int));
            self.lemma_descends_rank(a, p);
        }
    }

    /// The top of a removal is live, not the root, and `x` lies below it.
    proof fn lemma_removal_top_facts(&self, x: int)
        requires
            self.wf(),
            self.live(x),
            x != 0,
        ensures
            self.live(self.removal_top(x)),
            self.removal_top(x) != 0,
            self.descends(self.removal_top(x), x),
        decreases self.rank_of(x),
    {
        assert(self.node_ok(x));
        let p = self.node(x).parent_of()->Some_0.0 as int;
        assert(self.node_ok(p));
        let w = choose|w: int| 0 <= w < self.kids(p).len() && self.kids(p)[w] == NodeId(x as usize);
        assert(self.child_ok(p, self.kids(p)[w].0 as int));
        assert(self.descends(p, p));
        assert(self.descends(p, x));
        if self.is_container(p) && self.kids(p).len() == 1 {
            self.lemma_removal_top_facts(p);
            self.lemma_descends_trans(self.removal_top(p), p, x);
        } else {
            assert(self.descends(x, x));
        }
    }

    /// Removing the subtree of `x` changes no removal top at or above the
    /// parent of `x`.
    proof fn lemma_removal_top_same(t0: &Tree, t2: &Tree, x: int, y: int)
        requires
            t0.wf(),
            t2.wf(),
            t0.live(x),
            x != 0,
            t2.detached(t0, x),
            t2.live(y),
            t0.rank_of(y) <= t0.rank_of(t0.node(x).parent_of()->Some_0.0 as int),
        ensures
            t2.removal_top(y) == t0.removal_top(y),
        decreases t0.rank_of(y),
    {
        let p = t0.node(x).parent_of()->Some_0.0 as int;
        if y != 0 {
            assert(t0.live(y));
            assert(t0.node_ok(y));
            assert(t2.node_ok(y));
            if y != p {
                assert(t2.slots()[y] == t0.slots()[y]);
            }
            let q = t0.node(y).parent_of()->Some_0.0 as int;
            assert(t0.node_ok(q));
            let w = choose|w: int| 0 <= w < t0.kids(q).len() && t0.kids(q)[w] == NodeId(y as usize);
            assert(t0.child_ok(q, t0.kids(q)[w].0 as int));
            assert(t2.live(q));
            assert(q != p);
            assert(t2.slots()[q] == t0.slots()[q]);
            if t0.is_container(q) && t0.kids(q).len() == 1 {
                Tree::lemma_removal_top_same(t0, t2, x, q);
            }
        }
    }

    /// Taking away the subtree of `x`, then that of `top` (at or above the
    /// parent of `x`), takes away the subtree of `top`.
    proof fn lemma_detached_compose(t0: &Tree, t2: &Tree, t3: &Tree, x: int, top: int)
        requires
            t0.wf(),
            t2.wf(),
            t0.live(x),
            x != 0,
            t2.detached(t0, x),
            t3.detached(t2, top),
            t2.live(top),
            top != 0,
            t0.descends(top, t0.node(x).parent_of()->Some_0.0 as int),
        ensures
            t3.detached(t0, top),
    {
        let p = t0.node(x).parent_of()->Some_0.0 as int;
        assert(t0.node_ok(x));
        assert(t0.node_ok(p));
        let wx = choose|w: int| 0 <= w < t0.kids(p).len() && t0.kids(p)[w] == NodeId(x as usize);
        assert(t0.child_ok(p, t0.kids(p)[wx].0 as int));
        assert(t0.descends(p, p));
        assert(t0.descends(p, x));
        t0.lemma_descends_trans(top, p, x);
        assert(t0.live(top));
        assert(t0.node_ok(top));
        if top != p {
            assert(t2.slots()[top] == t0.slots()[top]);
        }
        let sv = t0.node(top).parent_of()->Some_0.0 as int;
        assert(t0.node_ok(sv));
        let wt = choose|w: int| 0 <= w < t0.kids(sv).len() && t0.kids(sv)[w] == NodeId(top as usize);
        assert(t0.child_ok(sv, t0.kids(sv)[wt].0 as int));
        t0.lemma_descends_rank(top, p);
        assert(sv != p);
        assert(t2.live(sv));
        assert(t2.slots()[sv] == t0.slots()[sv]);
        assert forall|i: int| #[trigger] t2.live(i) implies t0.live(i) && t2.node(i).parent_of() == t0.node(i).parent_of() by {
            if i != p {
                assert(t2.slots()[i] == t0.slots()[i]);
            }
        }
        assert forall|j: int| #[trigger] t3.live(j) == (t0.live(j) && !t0.descends(top, j)) by {
            if t2.live(j) {
                Tree::lemma_descends_same(t0, t2, top, j);
            }
            if t0.live(j) && t0.descends(x, j) {
                t0.lemma_descends_trans(top, x, j);
            }
        }
        assert forall|j: int| #[trigger] t3.live(j) && j != sv implies t3.slots()[j] == t0.slots()[j] by {
            assert(t2.live(j));
            assert(t3.slots()[j] == t2.slots()[j]);
            if j == p {
                assert(t0.descends(top, p));
            }
            assert(t2.slots()[j] == t0.slots()[j]);
        }
        let f0 = t0.free();
        let f2 = t2.free();
        let f3 = t3.free();
        assert(f3.subrange(0, f0.len() as int) =~= f0) by {
            assert forall|k: int| 0 <= k < f0.len() implies f3[k] == f0[k] by {
                assert(f3.subrange(0, f2.len() as int)[k] == f2[k]);
                assert(f2.subrange(0, f0.len() as int)[k] == f0[k]);
            }
        }
        assert forall|k: int| f0.len() <= k < f3.len() implies Tree::released(t0, t3, #[trigger] f3[k].0 as int) by {
            if k < f2.len() {
                assert(f3.subrange(0, f2.len() as int)[k] == f2[k]);
                assert(Tree::released(t0, t2, f2[k].0 as int));
            } else {
                assert(Tree::released(t2, t3, f3[k].0 as int));
            }
        }
        assert forall|j: int| #[trigger] Tree::released(t0, t3, j) implies f3.subrange(
            f0.len() as int,
            f3.len() as int,
        ).contains(NodeId(j as usize)) by {
            if t2.live(j) {
                assert(Tree::released(t2, t3, j));
                let m = choose|m: int|
                    0 <= m < f3.subrange(f2.len() as int, f3.len() as int).len() && f3.subrange(
                        f2.len() as int,
                        f3.len() as int,
                    )[m] == NodeId(j as usize);
                assert(f3.subrange(f0.len() as int, f3.len() as int)[m + f2.len() - f0.len()] == NodeId(j as usize));
            } else {
                assert(Tree::released(t0, t2, j));
                let m = choose|m: int|
                    0 <= m < f2.subrange(f0.len() as int, f2.len() as int).len() && f2.subrange(
                        f0.len() as int,
                        f2.len() as int,
                    )[m] == NodeId(j as usize);
                assert(f3.subrange(0, f2.len() as int)[m + f0.len()] == f2[m + f0.len()]);
                assert(f3.subrange(f0.len() as int, f3.len() as int)[m] == NodeId(j as usize));
            }
        }
    }

    /// Remove `id` with everything below it, and its size entry from its
    /// parent (see [`Tree::detached`]).
    fn detach(&mut self, id: NodeId)
        requires
            old(self).wf(),
            old(self).live(id.0 as int),
            id.0 != 0,
        ensures
            final(self).wf(),
            final(self).detached(old(self), id.0 as int),
    {
        let ghost t0 = *self;
        let ghost n = id.0 as int;
        assert(t0.node_ok(n));
        let pid = match self.parent(id) {
            Some(p) => p,
            None => {
                proof {
                    assert(false);
                }
                return;
            },
        };
        let ghost p = pid.0 as int;
        assert(t0.node_ok(p));
        proof {
            let w = choose|w: int| 0 <= w < t0.kids(p).len() && t0.kids(p)[w] == id;
            assert(t0.child_ok(p, t0.kids(p)[w].0 as int));
        }
        let child_index = self.child_position(pid, id);
        let idx = match child_index {
            Some(i) => i,
            None => {
                proof {
                    assert(t0.kids(p).contains(id));
                    assert(false);
                }
                return;
            },
        };
        proof {
            lemma_first_where_at(t0.kids(p), is_id(id), idx as int);
        }
        self.remove_node(id);
        let ghost t1 = *self;
        let _ = self.remove_container_size(pid, idx);
        proof {
            let t2 = *self;
            assert forall|j: int| #[trigger] t2.live(j) == (t0.live(j) && !t0.descends(n, j)) by {
                if 0 <= j < t2.slots().len() && j != p {
                    assert(t2.slots()[j] == t1.slots()[j]);
                }
                if t0.live(j) && t0.descends(n, j) {
                    Tree::lemma_descends_released(&t0, &t1, n, j);
                }
                if Tree::released(&t0, &t1, j) {
                    Tree::lemma_released_descends(&t0, &t1, n, j);
                }
            }
            assert forall|j: int| #[trigger] t2.live(j) && j != p implies t2.slots()[j] == t0.slots()[j] by {
                assert(t2.slots()[j] == t1.slots()[j]);
                assert(t1.live(j));
            }
            let w = choose|w: int|
                0 <= w < t0.kids(p).len() && t0.kids(p)[w] == id && t1.kids(p) == t0.kids(p).remove(w);
            if w != idx {
                assert(t0.node_ok(p));
                if w < idx {
                    assert(t0.kids(p)[w] != id);
                } else {
                    assert(t0.kids(p)[idx as int] == t0.kids(p)[w]);
                }
            }
            assert(t2.free() == t1.free());
            assert forall|j: int| #[trigger] Tree::released(&t0, &t2, j) implies Tree::released(&t0, &t1, j) by {
                if 0 <= j < t2.slots().len() && j != p {
                    assert(t2.slots()[j] == t1.slots()[j]);
                }
            }
            assert forall|k: int|
                t0.free().len() <= k < t2.free().len() implies Tree::released(&t0, &t2, #[trigger] t2.free()[k].0 as int) by {
                let j = t2.free()[k].0 as int;
                assert(Tree::released(&t0, &t1, j));
                if 0 <= j < t2.slots().len() && j != p {
                    assert(t2.slots()[j] == t1.slots()[j]);
                }
            }
        }
    }

    fn cleanup_empty_container(&mut self, node_id: NodeId)
        requires
            old(self).wf(),
        ensures
            final(self).wf(),
            forall|j: int| #[trigger] final(self).live(j) ==> old(self).live(j),
            final(self).windows_kept(old(self)),
            final(self).no_new_windows(old(self)),
            final(self).focus() == old(self).focus(),
            final(self).root_id() == old(self).root_id(),
            old(self).is_container(node_id.0 as int) && old(self).kids(node_id.0 as int).len() == 0
                ==> final(self).detached(old(self), old(self).removal_top(node_id.0 as int)),
            !(old(self).is_container(node_id.0 as int) && old(self).kids(node_id.0 as int).len() == 0)
                ==> *final(self) == *old(self),
        decreases old(self).rank_of(node_id.0 as int),
    {
        let ghost t0 = *self;
        if !self.is_empty_container(node_id) {
            return;
        }
        let ghost n = node_id.0 as int;
        assert(t0.node_ok(n));
        let pid = match self.parent(node_id) {
            Some(p) => p,
            None => {
                proof {
                    assert(false);
                }
                return;
            },
        };
        let ghost p = pid.0 as int;
        assert(t0.node_ok(p));
        proof {
            let w = choose|w: int| 0 <= w < t0.kids(p).len() && t0.kids(p)[w] == node_id;
            assert(t0.child_ok(p, t0.kids(p)[w].0 as int));
        }
        self.detach(node_id);
        let ghost t2 = *self;
        proof {
            assert forall|j: int| #[trigger] t0.live(j) && t0.data(j) is Window implies t2.live(j) && t2.data(j) == t0.data(j) by {
                if t0.descends(n, j) && j != n {
                    t0.lemma_descends_has_child(n, j);
                }
                assert(!t0.descends(n, j));
                assert(t2.live(j));
                if j != p {
                    assert(t2.slots()[j] == t0.slots()[j]);
                }
            }
            assert forall|j: int| #[trigger] t2.live(j) && t2.data(j) is Window implies t0.live(j) && t0.data(j) == t2.data(j) by {
                if j != p {
                    assert(t2.slots()[j] == t0.slots()[j]);
                }
            }
        }
        assert(t2.rank_of(p) == t0.rank_of(p));
        self.cleanup_empty_container(pid);
        proof {
            let t3 = *self;
            assert forall|j: int| #[trigger] t3.live(j) implies t0.live(j) by {
                assert(t2.live(j));
            }
            assert forall|j: int| #[trigger] t0.live(j) && t0.data(j) is Window implies t3.live(j) && t3.data(j) == t0.data(j) by {
                assert(t2.live(j) && t2.data(j) == t0.data(j));
            }
            assert forall|j: int| #[trigger] t3.live(j) && t3.data(j) is Window implies t0.live(j) && t0.data(j) == t3.data(j) by {
                assert(t2.live(j) && t2.data(j) == t3.data(j));
            }
            if t0.is_container(p) && t0.kids(p).len() == 1 {
                assert(t2.is_container(p) && t2.kids(p).len() == 0);
                Tree::lemma_removal_top_same(&t0, &t2, n, p);
                assert(t0.removal_top(n) == t0.removal_top(p));
                t2.lemma_removal_top_facts(p);
                let top = t2.removal_top(p);
                assert forall|i: int| #[trigger] t2.live(i) implies t0.live(i) && t2.node(i).parent_of() == t0.node(i).parent_of() by {
                    if i != p {
                        assert(t2.slots()[i] == t0.slots()[i]);
                    }
                }
                Tree::lemma_descends_same(&t0, &t2, top, p);
                Tree::lemma_detached_compose(&t0, &t2, &t3, n, top);
            } else {
                let w = choose|w: int| 0 <= w < t0.kids(p).len() && t0.kids(p)[w] == node_id;
                lemma_first_where(t0.kids(p), is_id(node_id));
                assert(first_where(t0.kids(p), is_id(node_id)) <= w);
                assert(!(t2.is_container(p) && t2.kids(p).len() == 0));
                assert(t0.removal_top(n) == n);
            }
        }
    }
}

impl Tree {
    /// Remove window `window_id` with everything below it; its parent loses
    /// its size entry, and containers left empty by the removal are removed
    /// in turn, upwards. Every other window stays, unchanged.
    pub fn remove_window(&mut self, window_id: u64) -> (r: bool)
        requires
            old(self).wf(),
        ensures
            r == old(self).spec_find_window(window_id) is Some,
            final(self).removal_outcome(old(self), window_id),
    {
        let w = match self.find_window_by_id(window_id) {
            Some(id) => id,
            None => return false,
        };
        proof {
            self.lemma_found_window(window_id);
        }
        let ghost t0 = *self;
        let ghost wi = w.0 as int;
        assert(t0.node_ok(wi));
        let pid = match self.parent(w) {
            Some(p) => p,
            None => {
                proof {
                    assert(false);
                }
                return false;
            },
        };
        let ghost p = pid.0 as int;
        assert(t0.node_ok(p));
        proof {
            let k = choose|k: int| 0 <= k < t0.kids(p).len() && t0.kids(p)[k] == w;
            assert(t0.child_ok(p, t0.kids(p)[k].0 as int));
        }
        self.detach(w);
        let ghost t2 = *self;
        proof {
            assert forall|j: int| #[trigger] t0.live(j) && t0.data(j) is Window && !t0.descends(wi, j) implies t2.live(j) && t2.data(j) == t0.data(j) by {
                assert(t2.live(j));
                if j != p {
                    assert(t2.slots()[j] == t0.slots()[j]);
                }
            }
            assert forall|j: int| #[trigger] t2.live(j) && t2.data(j) is Window implies t0.live(j) && t0.data(j) == t2.data(j) by {
                if j != p {
                    assert(t2.slots()[j] == t0.slots()[j]);
                }
            }
        }
        self.cleanup_empty_container(pid);
        proof {
            let t3 = *self;
            assert forall|j: int| #[trigger] t3.live(j) implies t0.live(j) by {
                assert(t2.live(j));
            }
            assert(t0.descends(wi, wi));
            assert(!t3.live(wi)) by {
                if t3.live(wi) {
                    assert(t2.live(wi));
                }
            }
            assert forall|j: int| #[trigger] t0.live(j) && t0.data(j) is Window && !t0.descends(wi, j) implies t3.live(j) && t3.data(j) == t0.data(j) by {
                assert(t2.live(j) && t2.data(j) == t0.data(j));
            }
            assert forall|j: int| #[trigger] t3.live(j) && t3.data(j) is Window implies t0.live(j) && t0.data(j) == t3.data(j) by {
                assert(t2.live(j) && t2.data(j) == t3.data(j));
            }
            if t0.is_container(p) && t0.kids(p).len() == 1 {
                assert(t2.is_container(p) && t2.kids(p).len() == 0);
                Tree::lemma_removal_top_same(&t0, &t2, wi, p);
                assert(t0.removal_top(wi) == t0.removal_top(p));
                t2.lemma_removal_top_facts(p);
                let top = t2.removal_top(p);
                assert forall|i: int| #[trigger] t2.live(i) implies t0.live(i) && t2.node(i).parent_of() == t0.node(i).parent_of() by {
                    if i != p {
                        assert(t2.slots()[i] == t0.slots()[i]);
                    }
                }
                Tree::lemma_descends_same(&t0, &t2, top, p);
                Tree::lemma_detached_compose(&t0, &t2, &t3, wi, top);
            } else {
                let k = choose|k: int| 0 <= k < t0.kids(p).len() && t0.kids(p)[k] == w;
                lemma_first_where(t0.kids(p), is_id(w));
                assert(first_where(t0.kids(p), is_id(w)) <= k);
                assert(!(t2.is_container(p) && t2.kids(p).len() == 0));
                assert(t0.removal_top(wi) == wi);
            }
        }
        true
    }
}

impl Tree {
    /// Mutable access to the node in slot `id`, if it is live. Changing a
    /// node's data this way is outside what the contracts of this type
    /// follow: nothing is promised of the tree afterwards beyond the slot.
    pub fn get_mut(&mut self, id: NodeId) -> (r: Option<&mut Node>)
        ensures
            r is Some <==> old(self).live(id.0 as int),
            r matches Some(n) ==> final(self).slots() == old(self).slots().update(id.0 as int, Some(*final(n))),
            r is None ==> final(self).slots() == old(self).slots(),
            final(self).free() == old(self).free(),
            final(self).root_id() == old(self).root_id(),
            final(self).focus() == old(self).focus(),
    {
        if id.0 < self.nodes.len() {
            self.nodes[id.0].as_mut()
        } else {
            None
        }
    }
}

/// Whether an integer is an `i32`.
pub open spec fn fits32(v: int) -> bool {
    i32::MIN <= v <= i32::MAX
}

/// `v` saturated to the `i32` range (as a float-to-int cast does).
pub open spec fn sat32(v: int) -> int {
    if v < i32::MIN {
        i32::MIN as int
    } else if v > i32::MAX {
        i32::MAX as int
    } else {
        v
    }
}

/// `a / b` rounded to the nearest integer, halves away from zero (`f64::round`).
pub open spec fn round_div(a: int, b: int) -> int
    recommends
        b > 0,
{
    if a >= 0 {
        let q = a / b;
        let r = a % b;
        if r >= b - r {
            q + 1
        } else {
            q
        }
    } else {
        let q = (-a) / b;
        let r = (-a) % b;
        -(if r >= b - r {
            q + 1
        } else {
            q
        })
    }
}

pub open spec fn max1(v: int) -> int {
    if v < 1 {
        1
    } else {
        v
    }
}

/// `r` shrunk by `a` on every side, each dimension at least 1; `None` where
/// the `i32` arithmetic overflows.
pub open spec fn shrink_spec(r: Rect, a: i32) -> Option<Rect> {
    if a == 0 {
        Some(r)
    } else {
        let x = r.x + a;
        let y = r.y + a;
        let w = r.width - 2 * a;
        let h = r.height - 2 * a;
        if fits32(x) && fits32(y) && fits32(2 * a) && fits32(w) && fits32(h) {
            Some(Rect { x: x as i32, y: y as i32, width: max1(w) as i32, height: max1(h) as i32 })
        } else {
            None
        }
    }
}

/// Shrink a rectangle by `amount` pixels on all sides (each dimension stays
/// at least 1).
pub fn shrink_rect(r: Rect, amount: i32) -> (s: Rect)
    requires
        shrink_spec(r, amount) is Some,
    ensures
        s == shrink_spec(r, amount)->Some_0,
{
    if amount == 0 {
        return r;
    }
    let w = r.width - 2 * amount;
    let h = r.height - 2 * amount;
    Rect {
        x: r.x + amount,
        y: r.y + amount,
        width: if w < 1 { 1 } else { w },
        height: if h < 1 { 1 } else { h },
    }
}

fn shrink_checked(r: Rect, amount: i32) -> (s: Option<Rect>)
    ensures
        s == shrink_spec(r, amount),
{
    if amount == 0 {
        return Some(r);
    }
    let x = r.x as i64 + amount as i64;
    let y = r.y as i64 + amount as i64;
    let a2 = 2 * (amount as i64);
    let w = r.width as i64 - a2;
    let h = r.height as i64 - a2;
    if x < i32::MIN as i64 || x > i32::MAX as i64 || y < i32::MIN as i64 || y > i32::MAX as i64
        || a2 < i32::MIN as i64 || a2 > i32::MAX as i64 || w < i32::MIN as i64 || w > i32::MAX as i64
        || h < i32::MIN as i64 || h > i32::MAX as i64 {
        return None;
    }
    Some(shrink_rect(r, amount))
}

/// The sum of the weights.
pub open spec fn weight_sum(s: Seq<i64>) -> int
    decreases s.len(),
{
    if s.len() == 0 {
        0
    } else {
        weight_sum(s.drop_last()) + s.last()
    }
}

proof fn lemma_weight_sum_bound(s: Seq<i64>)
    ensures
        -(s.len() as int) * 0x8000_0000_0000_0000 <= weight_sum(s) <= (s.len() as int) * 0x7fff_ffff_ffff_ffff,
    decreases s.len(),
{
    if s.len() > 0 {
        lemma_weight_sum_bound(s.drop_last());
    }
}

fn sum_weights(s: &Vec<i64>) -> (t: i128)
    ensures
        t == weight_sum(s@),
{
    let mut t: i128 = 0;
    let mut i: usize = 0;
    while i < s.len()
        invariant
            0 <= i <= s@.len(),
            t == weight_sum(s@.take(i as int)),
        decreases s@.len() - i,
    {
        proof {
            lemma_weight_sum_bound(s@.take(i as int));
            assert(s@.take(i + 1).drop_last() =~= s@.take(i as int));
            let ii: int = i as int;
            assert(ii <= 0xffff_ffff_ffff_ffff);
            assert(ii * 0x7fff_ffff_ffff_ffff <= 0xffff_ffff_ffff_ffff * 0x7fff_ffff_ffff_ffff) by (nonlinear_arith)
                requires 0 <= ii <= 0xffff_ffff_ffff_ffff;
            assert(ii * 0x8000_0000_0000_0000 <= 0xffff_ffff_ffff_ffff * 0x8000_0000_0000_0000) by (nonlinear_arith)
                requires 0 <= ii <= 0xffff_ffff_ffff_ffff;
        }
        t = t + s[i] as i128;
        i = i + 1;
    }
    assert(s@.take(i as int) =~= s@);
    t
}

fn round_div_exec(a: i128, b: i128) -> (q: i128)
    requires
        b > 0,
        -0x4000_0000_0000_0000_0000_0000_0000_0000 <= a <= 0x4000_0000_0000_0000_0000_0000_0000_0000,
    ensures
        q == round_div(a as int, b as int),
{
    if a >= 0 {
        let q = a / b;
        let r = a % b;
        if r >= b - r { q + 1 } else { q }
    } else {
        let na = -a;
        let q = na / b;
        let r = na % b;
        if r >= b - r { -(q + 1) } else { -q }
    }
}

fn sat32_exec(v: i128) -> (r: i32)
    ensures
        r == sat32(v as int),
{
    if v < i32::MIN as i128 {
        i32::MIN
    } else if v > i32::MAX as i128 {
        i32::MAX
    } else {
        v as i32
    }
}

/// Window data `d` with its geometry replaced by `r`; other data unchanged.
pub open spec fn with_geometry(d: NodeData, r: Rect) -> NodeData {
    match d {
        NodeData::Window {
            window_id,
            floating,
            fullscreen,
            fullscreen_global,
            sticky,
            marks,
            saved_geometry,
            ..
        } => NodeData::Window {
            window_id,
            floating,
            fullscreen,
            fullscreen_global,
            sticky,
            marks,
            geometry: r,
            saved_geometry,
        },
        _ => d,
    }
}

/// Half of `v`, rounded toward zero (integer `/ 2`).
pub open spec fn half(v: i32) -> i32 {
    if v >= 0 {
        (v / 2) as i32
    } else {
        (-((-v) / 2)) as i32
    }
}

fn half_exec(v: i32) -> (h: i32)
    ensures
        h == half(v),
{
    let w = v as i64;
    if w >= 0 {
        (w / 2) as i32
    } else {
        (-((-w) / 2)) as i32
    }
}

/// Extent of child `i` of `n` along an axis of length `len`, for any child but
/// the last: the share `weights[i] / total` of `len` where the weights sum to a
/// positive total and child `i` has a weight, else `len / n`; rounded to the
/// nearest integer and saturated to `i32`.
pub open spec fn share(len: int, weights: Seq<i64>, total: int, i: int, n: int) -> int {
    if total > 0 && i < weights.len() {
        sat32(round_div(len * weights[i], total))
    } else {
        sat32(round_div(len, n))
    }
}

fn share_exec(len: i32, weights: &Vec<i64>, total: i128, i: usize, n: usize) -> (e: i32)
    requires
        n >= 1,
        total == weight_sum(weights@),
    ensures
        e == share(len as int, weights@, total as int, i as int, n as int),
{
    if total > 0 && i < weights.len() {
        let w = weights[i];
        let l: i128 = len as i128;
        let m: i128 = w as i128;
        assert(-0x8000_0000 * 0x8000_0000_0000_0000 <= l * m <= 0x8000_0000 * 0x8000_0000_0000_0000)
            by (nonlinear_arith)
            requires
                -0x8000_0000 <= l < 0x8000_0000,
                -0x8000_0000_0000_0000 <= m < 0x8000_0000_0000_0000,
        ;
        sat32_exec(round_div_exec(l * m, total))
    } else {
        proof {
            assert((n as int) <= 0xffff_ffff_ffff_ffff);
        }
        sat32_exec(round_div_exec(len as i128, n as i128))
    }
}

/// The slice of `area` from `offset` with extent `ext` along the split axis
/// (x for a horizontal split, y for a vertical one).
pub open spec fn slice_rect(area: Rect, horizontal: bool, offset: int, ext: int) -> Rect {
    if horizontal {
        Rect { x: offset as i32, y: area.y, width: ext as i32, height: area.height }
    } else {
        Rect { x: area.x, y: offset as i32, width: area.width, height: ext as i32 }
    }
}

/// `a` followed by the sequence in `o`, if any.
pub open spec fn glue<A>(a: Seq<A>, o: Option<Seq<A>>) -> Option<Seq<A>> {
    match o {
        Some(b) => Some(a + b),
        None => None,
    }
}

/// `d` after the assignments of `plan` that name node `i`, in order.
pub open spec fn geometry_after(plan: Seq<(NodeId, Rect)>, i: int, d: NodeData) -> NodeData
    decreases plan.len(),
{
    if plan.len() == 0 {
        d
    } else {
        let prev = geometry_after(plan.drop_last(), i, d);
        if plan.last().0.0 == i {
            with_geometry(prev, plan.last().1)
        } else {
            prev
        }
    }
}

impl Tree {
    /// The window geometries that laying out the subtree of `n` in `area`
    /// assigns, in the order of assignment; `None` where the `i32` arithmetic
    /// overflows.
    ///
    /// The root passes `area` to each child, an output its own geometry, a
    /// workspace `area` shrunk by the outer gap. A split container cuts `area`
    /// along its axis in proportion to its weights, the last child taking what
    /// is left and every child at least one pixel; a tabbed or stacked one
    /// gives all of `area` to its focused child (clamped to the last). A tiled
    /// window gets `area` shrunk by half the inner gap; a floating one nothing.
    pub closed spec fn layout_plan(&self, n: int, area: Rect, gaps: GapsConfig) -> Option<Seq<(NodeId, Rect)>>
        decreases self.depth_left(n), 1int, 0int,
    {
        if self.wf() && self.live(n) {
            proof {
                assert(self.node_ok(n));
            }
            let k = self.kids(n);
            match self.data(n) {
                NodeData::Root => self.plan_each(n, 0, area, gaps),
                NodeData::Output { geometry, .. } => self.plan_each(n, 0, geometry, gaps),
                NodeData::Workspace { .. } => match shrink_spec(area, gaps.outer) {
                    Some(inner) => self.plan_each(n, 0, inner, gaps),
                    None => None,
                },
                NodeData::Container { layout, sizes, focused_child } => if k.len() == 0 {
                    Some(Seq::empty())
                } else {
                    match layout {
                        Layout::SplitH => self.plan_split(n, 0, area.x as int, sizes@, area, true, gaps),
                        Layout::SplitV => self.plan_split(n, 0, area.y as int, sizes@, area, false, gaps),
                        _ => {
                            let idx: int = if focused_child < k.len() {
                                focused_child as int
                            } else {
                                k.len() - 1
                            };
                            proof {
                                assert(self.child_ok(n, k[idx].0 as int));
                            }
                            self.layout_plan(k[idx].0 as int, area, gaps)
                        },
                    }
                },
                NodeData::Window { floating, .. } => if floating {
                    Some(Seq::empty())
                } else {
                    match shrink_spec(area, half(gaps.inner)) {
                        Some(r) => Some(seq![(NodeId(n as usize), r)]),
                        None => None,
                    }
                },
            }
        } else {
            Some(Seq::empty())
        }
    }

    /// Children `i..` of `n` laid out one after another, each in `area`.
    pub closed spec fn plan_each(&self, n: int, i: int, area: Rect, gaps: GapsConfig) -> Option<Seq<(NodeId, Rect)>>
        decreases self.depth_left(n), 0int, self.kids(n).len() - i,
    {
        if self.wf() && self.live(n) && 0 <= i < self.kids(n).len() {
            proof {
                assert(self.node_ok(n));
                assert(self.child_ok(n, self.kids(n)[i].0 as int));
            }
            match self.layout_plan(self.kids(n)[i].0 as int, area, gaps) {
                Some(a) => glue(a, self.plan_each(n, i + 1, area, gaps)),
                None => None,
            }
        } else {
            Some(Seq::empty())
        }
    }

    /// Children `i..` of split container `n`, child `i` starting at `offset`
    /// along the axis.
    pub closed spec fn plan_split(
        &self,
        n: int,
        i: int,
        offset: int,
        weights: Seq<i64>,
        area: Rect,
        horizontal: bool,
        gaps: GapsConfig,
    ) -> Option<Seq<(NodeId, Rect)>>
        decreases self.depth_left(n), 0int, self.kids(n).len() - i,
    {
        if self.wf() && self.live(n) && 0 <= i < self.kids(n).len() {
            proof {
                assert(self.node_ok(n));
                assert(self.child_ok(n, self.kids(n)[i].0 as int));
            }
            let cnt = self.kids(n).len() as int;
            let start: int = if horizontal { area.x as int } else { area.y as int };
            let len: int = if horizontal { area.width as int } else { area.height as int };
            let end = start + len;
            if i == cnt - 1 && !(fits32(end) && fits32(end - offset)) {
                None
            } else {
                let ext = if i == cnt - 1 {
                    end - offset
                } else {
                    share(len, weights, weight_sum(weights), i, cnt)
                };
                let e1 = max1(ext);
                if !fits32(offset + e1) {
                    None
                } else {
                    match self.layout_plan(
                        self.kids(n)[i].0 as int,
                        slice_rect(area, horizontal, offset, e1),
                        gaps,
                    ) {
                        Some(a) => glue(
                            a,
                            self.plan_split(n, i + 1, offset + e1, weights, area, horizontal, gaps),
                        ),
                        None => None,
                    }
                }
            }
        } else {
            Some(Seq::empty())
        }
    }
}

impl Tree {
    /// Append to `out` the geometries of laying out the subtree of `node_id`
    /// in `area`; false where the arithmetic would overflow.
    fn plan_layout(&self, node_id: NodeId, area: Rect, gaps: &GapsConfig, out: &mut Vec<(NodeId, Rect)>) -> (ok: bool)
        requires
            self.wf(),
        ensures
            ok == self.layout_plan(node_id.0 as int, area, *gaps) is Some,
            ok ==> final(out)@ == old(out)@ + self.layout_plan(node_id.0 as int, area, *gaps)->Some_0,
        decreases self.depth_left(node_id.0 as int), 1int, 0int,
    {
        let ghost n = node_id.0 as int;
        if node_id.0 >= self.nodes.len() {
            assert(out@ =~= old(out)@ + Seq::<(NodeId, Rect)>::empty());
            return true;
        }
        match &self.nodes[node_id.0] {
            None => {
                assert(out@ =~= old(out)@ + Seq::<(NodeId, Rect)>::empty());
                true
            },
            Some(node) => {
                proof {
                    assert(self.node_ok(n));
                }
                match &node.data {
                    NodeData::Root => self.plan_each_child(node_id, area, gaps, out),
                    NodeData::Output { geometry, .. } => self.plan_each_child(node_id, *geometry, gaps, out),
                    NodeData::Workspace { .. } => match shrink_checked(area, gaps.outer) {
                        Some(inner) => self.plan_each_child(node_id, inner, gaps, out),
                        None => false,
                    },
                    NodeData::Container { layout, sizes, focused_child } => {
                        let cnt = node.children.len();
                        if cnt == 0 {
                            assert(out@ =~= old(out)@ + Seq::<(NodeId, Rect)>::empty());
                            return true;
                        }
                        match layout {
                            Layout::SplitH => self.plan_split_children(node_id, sizes, area, true, gaps, out),
                            Layout::SplitV => self.plan_split_children(node_id, sizes, area, false, gaps, out),
                            _ => {
                                let idx = if *focused_child < cnt {
                                    *focused_child
                                } else {
                                    cnt - 1
                                };
                                let c = node.children[idx];
                                proof {
                                    assert(self.child_ok(n, c.0 as int));
                                }
                                self.plan_layout(c, area, gaps, out)
                            },
                        }
                    },
                    NodeData::Window { floating, .. } => {
                        if *floating {
                            assert(out@ =~= old(out)@ + Seq::<(NodeId, Rect)>::empty());
                            return true;
                        }
                        let h = half_exec(gaps.inner);
                        match shrink_checked(area, h) {
                            Some(r) => {
                                out.push((node_id, r));
                                assert(out@ =~= old(out)@ + seq![(node_id, r)]);
                                true
                            },
                            None => false,
                        }
                    },
                }
            },
        }
    }

    /// Lay out every child of `p` in `area`, one after another.
    fn plan_each_child(&self, p: NodeId, area: Rect, gaps: &GapsConfig, out: &mut Vec<(NodeId, Rect)>) -> (ok: bool)
        requires
            self.wf(),
            self.live(p.0 as int),
        ensures
            ok == self.plan_each(p.0 as int, 0, area, *gaps) is Some,
            ok ==> final(out)@ == old(out)@ + self.plan_each(p.0 as int, 0, area, *gaps)->Some_0,
        decreases self.depth_left(p.0 as int), 0int, 0int,
    {
        let ghost n = p.0 as int;
        let ghost start = out@;
        let kids = self.children(p);
        let len = kids.len();
        let mut i: usize = 0;
        while i < len
            invariant
                self.wf(),
                self.live(n),
                p.0 == n,
                kids@ == self.kids(n),
                len == kids@.len(),
                i <= len,
                glue(start, self.plan_each(n, 0, area, *gaps)) == glue(out@, self.plan_each(n, i as int, area, *gaps)),
            decreases len - i,
        {
            let c = kids[i];
            proof {
                assert(self.node_ok(n));
                assert(self.child_ok(n, c.0 as int));
            }
            let ghost before = out@;
            let ok = self.plan_layout(c, area, gaps, out);
            if !ok {
                return false;
            }
            proof {
                let a = self.layout_plan(c.0 as int, area, *gaps)->Some_0;
                match self.plan_each(n, i as int + 1, area, *gaps) {
                    Some(b) => {
                        assert(before + (a + b) =~= (before + a) + b);
                    },
                    None => {},
                }
            }
            i = i + 1;
        }
        proof {
            assert(out@ + Seq::<(NodeId, Rect)>::empty() =~= out@);
        }
        true
    }

    /// Cut `area` among the children of split container `p` by `weights`.
    fn plan_split_children(
        &self,
        p: NodeId,
        weights: &Vec<i64>,
        area: Rect,
        horizontal: bool,
        gaps: &GapsConfig,
        out: &mut Vec<(NodeId, Rect)>,
    ) -> (ok: bool)
        requires
            self.wf(),
            self.live(p.0 as int),
        ensures
            ok == self.plan_split(
                p.0 as int,
                0,
                if horizontal { area.x as int } else { area.y as int },
                weights@,
                area,
                horizontal,
                *gaps,
            ) is Some,
            ok ==> final(out)@ == old(out)@ + self.plan_split(
                p.0 as int,
                0,
                if horizontal { area.x as int } else { area.y as int },
                weights@,
                area,
                horizontal,
                *gaps,
            )->Some_0,
        decreases self.depth_left(p.0 as int), 0int, 0int,
    {
        let ghost n = p.0 as int;
        let ghost start_out = out@;
        let total = sum_weights(weights);
        let kids = self.children(p);
        let cnt = kids.len();
        let start: i32 = if horizontal { area.x } else { area.y };
        let len: i32 = if horizontal { area.width } else { area.height };
        let mut offset: i32 = start;
        let mut i: usize = 0;
        while i < cnt
            invariant
                self.wf(),
                self.live(n),
                p.0 == n,
                kids@ == self.kids(n),
                cnt == kids@.len(),
                i <= cnt,
                total == weight_sum(weights@),
                start == (if horizontal { area.x } else { area.y }),
                len == (if horizontal { area.width } else { area.height }),
                glue(start_out, self.plan_split(n, 0, start as int, weights@, area, horizontal, *gaps))
                    == glue(out@, self.plan_split(n, i as int, offset as int, weights@, area, horizontal, *gaps)),
            decreases cnt - i,
        {
            let c = kids[i];
            proof {
                assert(self.node_ok(n));
                assert(self.child_ok(n, c.0 as int));
            }
            let ext: i32;
            if i == cnt - 1 {
                let end = start as i64 + len as i64;
                if end < i32::MIN as i64 || end > i32::MAX as i64 {
                    return false;
                }
                let e = end - offset as i64;
                if e < i32::MIN as i64 || e > i32::MAX as i64 {
                    return false;
                }
                ext = e as i32;
            } else {
                ext = share_exec(len, weights, total, i, cnt);
            }
            let e1: i32 = if ext < 1 { 1 } else { ext };
            let next = offset as i64 + e1 as i64;
            if next < i32::MIN as i64 || next > i32::MAX as i64 {
                return false;
            }
            let rect = if horizontal {
                Rect { x: offset, y: area.y, width: e1, height: area.height }
            } else {
                Rect { x: area.x, y: offset, width: area.width, height: e1 }
            };
            assert(rect == slice_rect(area, horizontal, offset as int, e1 as int));
            let ghost before = out@;
            let ok = self.plan_layout(c, rect, gaps, out);
            if !ok {
                return false;
            }
            proof {
                let a = self.layout_plan(c.0 as int, rect, *gaps)->Some_0;
                match self.plan_split(n, i as int + 1, next as int, weights@, area, horizontal, *gaps) {
                    Some(b) => {
                        assert(before + (a + b) =~= (before + a) + b);
                    },
                    None => {},
                }
            }
            offset = next as i32;
            i = i + 1;
        }
        proof {
            assert(out@ + Seq::<(NodeId, Rect)>::empty() =~= out@);
        }
        true
    }
}

impl Tree {
    /// `self` is `old` with the geometries of `plan` assigned in order; nothing
    /// else differs.
    pub open spec fn placed(&self, old: &Tree, plan: Seq<(NodeId, Rect)>) -> bool {
        &&& self.slots().len() == old.slots().len()
        &&& forall|i: int| #[trigger] self.live(i) == old.live(i)
        &&& forall|i: int|
            #[trigger] old.live(i) ==> {
                &&& self.kids(i) == old.kids(i)
                &&& self.node(i).parent_of() == old.node(i).parent_of()
                &&& self.data(i) == geometry_after(plan, i, old.data(i))
            }
        &&& self.free() == old.free()
        &&& self.root_id() == old.root_id()
        &&& self.focus() == old.focus()
        &&& forall|j: int| self.rank_of(j) == old.rank_of(j)
    }

    /// Set the geometry of node `w`, if it is a window.
    fn set_geometry(&mut self, w: NodeId, r: Rect)
        requires
            old(self).wf(),
            old(self).live(w.0 as int),
        ensures
            final(self).wf(),
            final(self).only_data_changed(old(self), w.0 as int),
            final(self).data(w.0 as int) == with_geometry(old(self).data(w.0 as int), r),
    {
        let d = self.replace_data(w, NodeData::Root);
        match d {
            NodeData::Window {
                window_id,
                floating,
                fullscreen,
                fullscreen_global,
                sticky,
                marks,
                saved_geometry,
                ..
            } => {
                self.replace_data(
                    w,
                    NodeData::Window {
                        window_id,
                        floating,
                        fullscreen,
                        fullscreen_global,
                        sticky,
                        marks,
                        geometry: r,
                        saved_geometry,
                    },
                );
            },
            other => {
                self.replace_data(w, other);
            },
        }
    }

    /// Assign the geometries of `plan` in order.
    fn apply_plan(&mut self, plan: &Vec<(NodeId, Rect)>)
        requires
            old(self).wf(),
        ensures
            final(self).wf(),
            final(self).placed(old(self), plan@),
    {
        let ghost orig = *self;
        let mut k: usize = 0;
        while k < plan.len()
            invariant
                self.wf(),
                orig.wf(),
                k <= plan@.len(),
                self.placed(&orig, plan@.take(k as int)),
            decreases plan@.len() - k,
        {
            let (id, r) = plan[k];
            let ghost cur = *self;
            let ghost pre = plan@.take(k as int);
            let ghost next = plan@.take(k as int + 1);
            assert(next.drop_last() =~= pre);
            assert(next.last() == (id, r));
            if id.0 < self.nodes.len() && self.nodes[id.0].is_some() {
                self.set_geometry(id, r);
                proof {
                    assert forall|i: int| #[trigger] self.live(i) == orig.live(i) by {
                        assert(self.live(i) == cur.live(i));
                    }
                    assert forall|i: int| #[trigger] orig.live(i) implies {
                        &&& self.kids(i) == orig.kids(i)
                        &&& self.node(i).parent_of() == orig.node(i).parent_of()
                        &&& self.data(i) == geometry_after(next, i, orig.data(i))
                    } by {
                        assert(cur.live(i));
                        if i != id.0 {
                            assert(self.slots()[i] == cur.slots()[i]);
                        }
                    }
                }
            } else {
                proof {
                    assert forall|i: int| #[trigger] orig.live(i) implies self.data(i) == geometry_after(next, i, orig.data(i)) by {
                        assert(cur.live(i));
                    }
                }
            }
            k = k + 1;
        }
        assert(plan@.take(k as int) =~= plan@);
    }

    /// Lay out the subtree of `node_id` in `available`: every tiled window in
    /// it that the layout reaches gets its geometry (see `layout_plan`).
    pub fn compute_layout(&mut self, node_id: NodeId, available: Rect, gaps: &GapsConfig)
        requires
            old(self).wf(),
        ensures
            final(self).wf(),
            match old(self).layout_plan(node_id.0 as int, available, *gaps) {
                Some(plan) => final(self).placed(old(self), plan),
                None => *final(self) == *old(self),
            },
    {
        let mut plan: Vec<(NodeId, Rect)> = Vec::new();
        let ok = self.plan_layout(node_id, available, gaps, &mut plan);
        if ok {
            assert(plan@ =~= Seq::<(NodeId, Rect)>::empty() + self.layout_plan(node_id.0 as int, available, *gaps)->Some_0);
            self.apply_plan(&plan);
        }
    }

    /// The windows under `n` with their geometries, in tree order; the walk
    /// does not go below a window.
    pub closed spec fn wins(&self, n: int) -> Seq<(u64, Rect)>
        decreases self.depth_left(n), 1int, 0int,
    {
        if self.wf() && self.live(n) {
            proof {
                assert(self.node_ok(n));
            }
            match self.data(n) {
                NodeData::Window { window_id, geometry, .. } => seq![(window_id, geometry)],
                _ => self.wins_from(n, 0),
            }
        } else {
            Seq::empty()
        }
    }

    /// The windows under children `i..` of `n`.
    pub closed spec fn wins_from(&self, n: int, i: int) -> Seq<(u64, Rect)>
        decreases self.depth_left(n), 0int, self.kids(n).len() - i,
    {
        if self.wf() && self.live(n) && 0 <= i < self.kids(n).len() {
            proof {
                assert(self.node_ok(n));
                assert(self.child_ok(n, self.kids(n)[i].0 as int));
            }
            self.wins(self.kids(n)[i].0 as int) + self.wins_from(n, i + 1)
        } else {
            Seq::empty()
        }
    }

    fn collect_windows(&self, node_id: NodeId, out: &mut Vec<(u64, Rect)>)
        requires
            self.wf(),
        ensures
            final(out)@ == old(out)@ + self.wins(node_id.0 as int),
        decreases self.depth_left(node_id.0 as int),
    {
        let ghost n = node_id.0 as int;
        if node_id.0 >= self.nodes.len() {
            assert(out@ =~= old(out)@ + Seq::<(u64, Rect)>::empty());
            return;
        }
        match &self.nodes[node_id.0] {
            None => {
                assert(out@ =~= old(out)@ + Seq::<(u64, Rect)>::empty());
            },
            Some(node) => {
                proof {
                    assert(self.live(n));
                    assert(self.node_ok(n));
                }
                match &node.data {
                    NodeData::Window { window_id, geometry, .. } => {
                        out.push((*window_id, *geometry));
                        assert(out@ =~= old(out)@ + seq![(*window_id, *geometry)]);
                    },
                    _ => {
                        let ghost start = out@;
                        let len = node.children.len();
                        let mut i: usize = 0;
                        while i < len
                            invariant
                                self.wf(),
                                self.live(n),
                                node_id.0 == n,
                                node == self.node(n),
                                !(self.data(n) is Window),
                                len == self.kids(n).len(),
                                i <= len,
                                start + self.wins_from(n, 0) == out@ + self.wins_from(n, i as int),
                            decreases len - i,
                        {
                            let c = node.children[i];
                            proof {
                                assert(self.node_ok(n));
                                assert(self.child_ok(n, c.0 as int));
                            }
                            let ghost before = out@;
                            self.collect_windows(c, out);
                            proof {
                                let a = self.wins(c.0 as int);
                                let b = self.wins_from(n, i as int + 1);
                                assert(before + (a + b) =~= (before + a) + b);
                            }
                            i = i + 1;
                        }
                        assert(out@ + Seq::<(u64, Rect)>::empty() =~= out@);
                    },
                }
            },
        }
    }

    /// Every window of the tree with its geometry, in tree order.
    pub fn window_geometries(&self) -> (r: Vec<(u64, Rect)>)
        requires
            self.wf(),
        ensures
            r@ == self.wins(0),
    {
        let mut result = Vec::new();
        self.collect_windows(self.root, &mut result);
        assert(result@ =~= Seq::<(u64, Rect)>::empty() + self.wins(0));
        result
    }
}

impl Tree {
    /// The focus change that moving focus in direction `d` from `n` makes:
    /// the container and its new focused index, or `None` when focus cannot
    /// move. A container first tries its focused child (when that index is
    /// in range), then steps its own focus along a matching axis; a workspace
    /// tries its children in order.
    pub closed spec fn focus_move(&self, n: int, d: Direction) -> Option<(NodeId, usize)>
        decreases self.depth_left(n), 1int, 0int,
    {
        if self.wf() && self.live(n) {
            proof {
                assert(self.node_ok(n));
            }
            let k = self.kids(n);
            match self.data(n) {
                NodeData::Container { layout, focused_child, .. } => {
                    let inner = if focused_child < k.len() {
                        proof {
                            assert(self.child_ok(n, k[focused_child as int].0 as int));
                        }
                        self.focus_move(k[focused_child as int].0 as int, d)
                    } else {
                        None
                    };
                    if inner is Some {
                        inner
                    } else if axis_matches(layout, d) && k.len() > 0 {
                        if d == Direction::Left || d == Direction::Up {
                            if focused_child > 0 {
                                Some((NodeId(n as usize), (focused_child - 1) as usize))
                            } else {
                                None
                            }
                        } else if focused_child + 1 < k.len() {
                            Some((NodeId(n as usize), (focused_child + 1) as usize))
                        } else {
                            None
                        }
                    } else {
                        None
                    }
                },
                NodeData::Workspace { .. } => self.focus_move_from(n, 0, d),
                _ => None,
            }
        } else {
            None
        }
    }

    /// The first focus change among children `i..` of `n`.
    pub closed spec fn focus_move_from(&self, n: int, i: int, d: Direction) -> Option<(NodeId, usize)>
        decreases self.depth_left(n), 0int, self.kids(n).len() - i,
    {
        if self.wf() && self.live(n) && 0 <= i < self.kids(n).len() {
            proof {
                assert(self.node_ok(n));
                assert(self.child_ok(n, self.kids(n)[i].0 as int));
            }
            match self.focus_move(self.kids(n)[i].0 as int, d) {
                Some(x) => Some(x),
                None => self.focus_move_from(n, i + 1, d),
            }
        } else {
            None
        }
    }

    pub proof fn lemma_focus_move(&self, n: int, d: Direction)
        requires
            self.wf(),
        ensures
            self.focus_move(n, d) matches Some((c, _)) ==> self.is_container(c.0 as int),
        decreases self.depth_left(n), 1int, 0int,
    {
        if self.live(n) {
            assert(self.node_ok(n));
            let k = self.kids(n);
            match self.data(n) {
                NodeData::Container { focused_child, .. } => {
                    if focused_child < k.len() {
                        assert(self.child_ok(n, k[focused_child as int].0 as int));
                        self.lemma_focus_move(k[focused_child as int].0 as int, d);
                    }
                },
                NodeData::Workspace { .. } => {
                    self.lemma_focus_move_from(n, 0, d);
                },
                _ => {},
            }
        }
    }

    pub proof fn lemma_focus_move_from(&self, n: int, i: int, d: Direction)
        requires
            self.wf(),
        ensures
            self.focus_move_from(n, i, d) matches Some((c, _)) ==> self.is_container(c.0 as int),
        decreases self.depth_left(n), 0int, self.kids(n).len() - i,
    {
        if self.live(n) && 0 <= i < self.kids(n).len() {
            assert(self.node_ok(n));
            assert(self.child_ok(n, self.kids(n)[i].0 as int));
            self.lemma_focus_move(self.kids(n)[i].0 as int, d);
            self.lemma_focus_move_from(n, i + 1, d);
        }
    }

    fn move_focus_in(&mut self, node_id: NodeId, d: Direction) -> (r: bool)
        requires
            old(self).wf(),
        ensures
            final(self).wf(),
            match old(self).focus_move(node_id.0 as int, d) {
                Some((c, j)) => r && final(self).refocused(old(self), c.0 as int, j),
                None => !r && *final(self) == *old(self),
            },
        decreases old(self).depth_left(node_id.0 as int),
    {
        let ghost n = node_id.0 as int;
        proof {
            self.lemma_focus_move(n, d);
        }
        if node_id.0 >= self.nodes.len() {
            return false;
        }
        let (kind, layout, focused, len) = match &self.nodes[node_id.0] {
            Some(node) => match &node.data {
                NodeData::Container { layout, focused_child, .. } => (1u8, *layout, *focused_child, node.children.len()),
                NodeData::Workspace { .. } => (2u8, Layout::SplitH, 0usize, node.children.len()),
                _ => (0u8, Layout::SplitH, 0usize, 0usize),
            },
            None => (0u8, Layout::SplitH, 0usize, 0usize),
        };
        if kind == 0 {
            return false;
        }
        proof {
            assert(self.live(n));
            assert(self.node_ok(n));
        }
        if kind == 1 {
            if focused < len {
                let c = self.children(node_id)[focused];
                proof {
                    assert(self.child_ok(n, c.0 as int));
                }
                if self.move_focus_in(c, d) {
                    return true;
                }
            }
            let can_move = match (layout, d) {
                (Layout::SplitH, Direction::Left) => true,
                (Layout::SplitH, Direction::Right) => true,
                (Layout::Tabbed, Direction::Left) => true,
                (Layout::Tabbed, Direction::Right) => true,
                (Layout::SplitV, Direction::Up) => true,
                (Layout::SplitV, Direction::Down) => true,
                (Layout::Stacked, Direction::Up) => true,
                (Layout::Stacked, Direction::Down) => true,
                _ => false,
            };
            if can_move && len > 0 {
                let new_focus = match d {
                    Direction::Left | Direction::Up => {
                        if focused > 0 {
                            focused - 1
                        } else {
                            return false;
                        }
                    },
                    Direction::Right | Direction::Down => {
                        if focused < len - 1 {
                            focused + 1
                        } else {
                            return false;
                        }
                    },
                };
                self.set_focus_index(node_id, new_focus);
                return true;
            }
            false
        } else {
            let ghost t0 = *self;
            let mut i: usize = 0;
            while i < len
                invariant
                    self.wf(),
                    *self == t0,
                    t0 == *old(self),
                    self.live(n),
                    node_id.0 == n,
                    self.data(n) is Workspace,
                    len == self.kids(n).len(),
                    i <= len,
                    self.focus_move(n, d) == self.focus_move_from(n, i as int, d),
                decreases len - i,
            {
                let c = self.children(node_id)[i];
                proof {
                    assert(self.node_ok(n));
                    assert(self.child_ok(n, c.0 as int));
                }
                if self.move_focus_in(c, d) {
                    return true;
                }
                i = i + 1;
            }
            false
        }
    }

    /// The focus change of `move_focus`: that of the focused workspace.
    pub open spec fn spec_move_focus(&self, d: Direction) -> Option<(NodeId, usize)> {
        match self.spec_focused_workspace() {
            Some(ws) => self.focus_move(ws.0 as int, d),
            None => None,
        }
    }

    /// Move focus in direction `d` within the focused workspace.
    pub fn move_focus(&mut self, d: Direction) -> (r: bool)
        requires
            old(self).wf(),
        ensures
            final(self).wf(),
            match old(self).spec_move_focus(d) {
                Some((c, j)) => r && final(self).refocused(old(self), c.0 as int, j),
                None => !r && *final(self) == *old(self),
            },
    {
        let ws = match self.focused_workspace() {
            Some(id) => id,
            None => return false,
        };
        self.move_focus_in(ws, d)
    }
}

impl Tree {
    proof fn lemma_focus_only_wf(&self, old: &Tree)
        requires
            old.wf(),
            self.nodes@ == old.nodes@,
            self.free_list@ == old.free_list@,
            self.root == old.root,
            self.rank == old.rank,
            self.rank_bound == old.rank_bound,
        ensures
            self.wf(),
    {
        assert forall|i: int| #[trigger] self.live(i) implies self.node_ok(i) by {
            assert(old.live(i));
            assert(old.node_ok(i));
            let n = self.nodes@[i]->Some_0;
            assert forall|k: int| 0 <= k < n.children@.len() implies #[trigger] self.child_ok(
                i,
                n.children@[k].0 as int,
            ) by {
                assert(old.child_ok(i, n.children@[k].0 as int));
            }
        }
    }

    /// `self` is `old` but for the focus level.
    pub open spec fn same_but_focus(&self, old: &Tree) -> bool {
        &&& self.slots() == old.slots()
        &&& self.free() == old.free()
        &&& self.root_id() == old.root_id()
        &&& forall|j: int| self.rank_of(j) == old.rank_of(j)
    }

    /// The new focus level of `focus_parent`: the parent of the current level
    /// (the focused window when the level is a leaf, the workspace when there
    /// is none), unless that is the root.
    pub open spec fn spec_focus_parent(&self) -> Option<NodeId> {
        match self.spec_focused_workspace() {
            None => None,
            Some(ws) => {
                let cur = match self.focus() {
                    Some(f) => f,
                    None => match self.focus_leaf(ws.0 as int) {
                        Some(l) => l,
                        None => ws,
                    },
                };
                match self.parent_view(cur.0 as int) {
                    Some(p) => if p != self.root_id() {
                        Some(p)
                    } else {
                        None
                    },
                    None => None,
                }
            },
        }
    }

    /// Move the focus level up to the parent container.
    pub fn focus_parent(&mut self) -> (r: bool)
        requires
            old(self).wf(),
        ensures
            final(self).wf(),
            match old(self).spec_focus_parent() {
                Some(p) => r && final(self).same_but_focus(old(self)) && final(self).focus() == Some(p),
                None => !r && *final(self) == *old(self),
            },
    {
        let ws = match self.focused_workspace() {
            Some(id) => id,
            None => return false,
        };
        let current = match self.focus_node {
            Some(f) => f,
            None => match self.find_focused_leaf_node(ws) {
                Some(l) => l,
                None => ws,
            },
        };
        match self.parent(current) {
            Some(p) => {
                if p != self.root {
                    let ghost t0 = *self;
                    self.focus_node = Some(p);
                    proof {
                        self.lemma_focus_only_wf(&t0);
                    }
                    true
                } else {
                    false
                }
            },
            None => false,
        }
    }

    /// The new focus level of `focus_child`, when the current level is a
    /// container (its focused child, clamped) or a workspace (its first
    /// child) with children: `None` (a leaf) when that child is a window.
    pub open spec fn spec_focus_child(&self) -> Option<Option<NodeId>> {
        match self.focus() {
            None => None,
            Some(c) => {
                let k = self.children_view(c.0 as int);
                if !self.live(c.0 as int) || k.len() == 0 {
                    None
                } else {
                    let pick = match self.data(c.0 as int) {
                        NodeData::Container { focused_child, .. } => Some(
                            k[clamp_focus(focused_child, k.len()) as int],
                        ),
                        NodeData::Workspace { .. } => Some(k[0]),
                        _ => None,
                    };
                    match pick {
                        Some(ch) => Some(
                            if self.live(ch.0 as int) && self.data(ch.0 as int) is Window {
                                None
                            } else {
                                Some(ch)
                            },
                        ),
                        None => None,
                    }
                }
            },
        }
    }

    /// Move the focus level down to the focused child.
    pub fn focus_child(&mut self) -> (r: bool)
        requires
            old(self).wf(),
        ensures
            final(self).wf(),
            match old(self).spec_focus_child() {
                Some(f) => r && final(self).same_but_focus(old(self)) && final(self).focus() == f,
                None => !r && *final(self) == *old(self),
            },
    {
        let current = match self.focus_node {
            Some(id) => id,
            None => return false,
        };
        if current.0 >= self.nodes.len() {
            return false;
        }
        let (kind, fc) = match &self.nodes[current.0] {
            Some(n) => match &n.data {
                NodeData::Container { focused_child, .. } => (1u8, *focused_child),
                NodeData::Workspace { .. } => (2u8, 0usize),
                _ => (0u8, 0usize),
            },
            None => (0u8, 0usize),
        };
        let kids = self.children(current);
        let len = kids.len();
        if kind == 0 || len == 0 {
            return false;
        }
        let idx = if kind == 1 {
            if fc < len {
                fc
            } else {
                len - 1
            }
        } else {
            0
        };
        let child = kids[idx];
        let is_leaf = if child.0 < self.nodes.len() {
            match &self.nodes[child.0] {
                Some(n) => match &n.data {
                    NodeData::Window { .. } => true,
                    _ => false,
                },
                None => false,
            }
        } else {
            false
        };
        let ghost t0 = *self;
        self.focus_node = if is_leaf {
            None
        } else {
            Some(child)
        };
        proof {
            self.lemma_focus_only_wf(&t0);
        }
        true
    }
}

/// Weights `a` and `b` of two siblings after moving `delta` from `b` to `a`,
/// each kept at least 5 (a hundredth-based 0.05) by taking from the other.
pub open spec fn resize_pair(a: int, b: int, delta: int) -> (int, int) {
    let a1 = a + delta;
    let b1 = b - delta;
    let a2 = if a1 < 5 { 5 } else { a1 };
    let b2 = if a1 < 5 { b1 - (5 - a1) } else { b1 };
    if b2 < 5 {
        (a2 - (5 - b2), 5)
    } else {
        (a2, b2)
    }
}

/// Whether a container layout resizes along an axis (SplitH for width,
/// SplitV for height).
pub open spec fn resizes_along(l: Layout, axis: ResizeAxis) -> bool {
    (axis == ResizeAxis::Width && l == Layout::SplitH) || (axis == ResizeAxis::Height && l
        == Layout::SplitV)
}

impl Tree {
    /// What `resize_container` changes: the parent container of `node`, the
    /// node's index among its children and that of the sibling that gives or
    /// takes (the next one, else the previous), when the parent splits along
    /// `axis` and both indices have a weight.
    pub open spec fn resize_target(&self, node: NodeId, axis: ResizeAxis) -> Option<(NodeId, usize, usize)> {
        match self.parent_view(node.0 as int) {
            None => None,
            Some(p) => if !self.is_container(p.0 as int) || !resizes_along(
                self.data(p.0 as int)->Container_layout,
                axis,
            ) {
                None
            } else {
                let k = self.children_view(p.0 as int);
                let s = self.data(p.0 as int)->Container_sizes@;
                let i = first_where(k, is_id(node)) as int;
                let j: int = if i + 1 < k.len() {
                    i + 1
                } else if i > 0 {
                    i - 1
                } else {
                    -1
                };
                if i >= k.len() || j < 0 || i >= s.len() || j >= s.len() {
                    None
                } else {
                    Some((p, i as usize, j as usize))
                }
            },
        }
    }

    /// Whether the weights after a resize by `delta` fit `i64`.
    pub open spec fn resize_fits(&self, node: NodeId, axis: ResizeAxis, delta: i64) -> bool {
        match self.resize_target(node, axis) {
            None => true,
            Some((p, i, j)) => {
                let s = self.data(p.0 as int)->Container_sizes@;
                let (a, b) = resize_pair(s[i as int] as int, s[j as int] as int, delta as int);
                i64::MIN <= a <= i64::MAX && i64::MIN <= b <= i64::MAX
            },
        }
    }

    /// `self` is `old` with the weights of container `p` at `i` and `j` set
    /// to the resize of the old ones by `delta`.
    pub open spec fn resized(&self, old: &Tree, p: int, i: int, j: int, delta: int) -> bool {
        let s0 = old.data(p)->Container_sizes@;
        let (a, b) = resize_pair(s0[i] as int, s0[j] as int, delta);
        &&& self.only_data_changed(old, p)
        &&& self.data(p) matches NodeData::Container { layout: l2, sizes: s2, focused_child: f2 }
        &&& old.data(p) matches NodeData::Container { layout: l1, sizes: s1, focused_child: f1 }
        &&& l2 == l1 && f2 == f1
        &&& s2@ == s1@.update(i, a as i64).update(j, b as i64)
    }

    /// Resize `node_id` within its parent container along `axis` by
    /// `delta_ppt` percentage points, taken from (or given to) its next
    /// sibling, else its previous one; no weight goes below 5.
    /// Whether [`Tree::resize_container`] may be called: the resized
    /// weights fit `i64` (see [`Tree::resize_fits`]).
    pub fn can_resize(&self, node_id: NodeId, axis: ResizeAxis, delta_ppt: i64) -> (b: bool)
        requires
            self.wf(),
        ensures
            b == self.resize_fits(node_id, axis, delta_ppt),
    {
        let p = match self.parent(node_id) {
            Some(p) => p,
            None => return true,
        };
        if self.kind_of(p) != 1 {
            return true;
        }
        let matches_axis = match &self.nodes[p.0] {
            Some(n) => match &n.data {
                NodeData::Container { layout, .. } => match (axis, layout) {
                    (ResizeAxis::Width, Layout::SplitH) => true,
                    (ResizeAxis::Height, Layout::SplitV) => true,
                    _ => false,
                },
                _ => false,
            },
            None => false,
        };
        if !matches_axis {
            return true;
        }
        let i = match self.child_position(p, node_id) {
            Some(i) => i,
            None => {
                proof {
                    lemma_first_where(self.children_view(p.0 as int), is_id(node_id));
                    let k = self.children_view(p.0 as int);
                    if first_where(k, is_id(node_id)) < k.len() {
                        assert(k[first_where(k, is_id(node_id)) as int] == node_id);
                    }
                }
                return true;
            },
        };
        proof {
            lemma_first_where_at(self.children_view(p.0 as int), is_id(node_id), i as int);
        }
        let len = self.children(p).len();
        let j = if i + 1 < len {
            i + 1
        } else if i > 0 {
            i - 1
        } else {
            return true;
        };
        let slen = match &self.nodes[p.0] {
            Some(n) => match &n.data {
                NodeData::Container { sizes, .. } => sizes.len(),
                _ => 0,
            },
            None => 0,
        };
        if i >= slen || j >= slen {
            return true;
        }
        let (a, bw): (i128, i128) = match &self.nodes[p.0] {
            Some(n) => match &n.data {
                NodeData::Container { sizes, .. } => (sizes[i] as i128, sizes[j] as i128),
                _ => (0, 0),
            },
            None => (0, 0),
        };
        let delta: i128 = delta_ppt as i128;
        let mut a1: i128 = a + delta;
        let mut b1: i128 = bw - delta;
        if a1 < 5 {
            let diff = 5 - a1;
            a1 = 5;
            b1 = b1 - diff;
        }
        if b1 < 5 {
            let diff = 5 - b1;
            b1 = 5;
            a1 = a1 - diff;
        }
        i64::MIN as i128 <= a1 && a1 <= i64::MAX as i128 && i64::MIN as i128 <= b1 && b1 <= i64::MAX as i128
    }

    pub fn resize_container(&mut self, node_id: NodeId, axis: ResizeAxis, delta_ppt: i64) -> (r: bool)
        requires
            old(self).wf(),
            old(self).resize_fits(node_id, axis, delta_ppt),
        ensures
            final(self).wf(),
            match old(self).resize_target(node_id, axis) {
                Some((p, i, j)) => r && final(self).resized(old(self), p.0 as int, i as int, j as int, delta_ppt as int),
                None => !r && *final(self) == *old(self),
            },
    {
        let p = match self.parent(node_id) {
            Some(p) => p,
            None => return false,
        };
        if self.kind_of(p) != 1 {
            return false;
        }
        let matches_axis = match &self.nodes[p.0] {
            Some(n) => match &n.data {
                NodeData::Container { layout, .. } => match (axis, layout) {
                    (ResizeAxis::Width, Layout::SplitH) => true,
                    (ResizeAxis::Height, Layout::SplitV) => true,
                    _ => false,
                },
                _ => false,
            },
            None => false,
        };
        if !matches_axis {
            return false;
        }
        let i = match self.child_position(p, node_id) {
            Some(i) => i,
            None => {
                proof {
                    lemma_first_where(self.children_view(p.0 as int), is_id(node_id));
                    let k = self.children_view(p.0 as int);
                    if first_where(k, is_id(node_id)) < k.len() {
                        assert(k[first_where(k, is_id(node_id)) as int] == node_id);
                    }
                }
                return false;
            },
        };
        proof {
            lemma_first_where_at(self.children_view(p.0 as int), is_id(node_id), i as int);
        }
        let len = self.children(p).len();
        let j = if i + 1 < len {
            i + 1
        } else if i > 0 {
            i - 1
        } else {
            return false;
        };
        let slen = match &self.nodes[p.0] {
            Some(n) => match &n.data {
                NodeData::Container { sizes, .. } => sizes.len(),
                _ => 0,
            },
            None => 0,
        };
        if i >= slen || j >= slen {
            return false;
        }
        let d = self.replace_data(p, NodeData::Root);
        match d {
            NodeData::Container { layout, sizes, focused_child } => {
                let mut sizes = sizes;
                let a: i128 = sizes[i] as i128;
                let b: i128 = sizes[j] as i128;
                let delta: i128 = delta_ppt as i128;
                let mut a1: i128 = a + delta;
                let mut b1: i128 = b - delta;
                if a1 < 5 {
                    let diff = 5 - a1;
                    a1 = 5;
                    b1 = b1 - diff;
                }
                if b1 < 5 {
                    let diff = 5 - b1;
                    b1 = 5;
                    a1 = a1 - diff;
                }
                sizes.set(i, a1 as i64);
                sizes.set(j, b1 as i64);
                self.replace_data(p, NodeData::Container { layout, sizes, focused_child });
            },
            other => {
                self.replace_data(p, other);
            },
        }
        true
    }
}

impl Tree {
    /// What removing window `wid` may leave: every outcome that the contract
    /// of `remove_window` admits.
    pub open spec fn removal_outcome(&self, old: &Tree, wid: u64) -> bool {
        &&& self.wf()
        &&& match old.spec_find_window(wid) {
            None => *self == *old,
            Some(w) => {
                &&& !self.live(w.0 as int)
                &&& forall|j: int| #[trigger] self.live(j) ==> old.live(j)
                &&& forall|j: int|
                    #[trigger] old.live(j) && old.data(j) is Window && !old.descends(w.0 as int, j)
                        ==> self.live(j) && self.data(j) == old.data(j)
                &&& self.no_new_windows(old)
                &&& self.focus() == old.focus()
                &&& self.detached(old, old.removal_top(w.0 as int))
            },
        }
    }

    /// The window and workspace of `move_to_workspace`: the focused window
    /// and the first workspace called `name`.
    pub open spec fn move_pair(&self, name: Seq<char>) -> Option<(u64, NodeId)> {
        match (self.spec_focused_window(), self.spec_find_workspace(name)) {
            (Some(w), Some(p)) => Some((self.data(w.0 as int)->Window_window_id, p.0)),
            _ => None,
        }
    }

    /// Whether moving the focused window to workspace `name` completes: after
    /// any removal of the window, the workspace is live, ids remain, and
    /// inserting there completes.
    pub open spec fn move_completes(&self, name: Seq<char>) -> bool {
        match self.move_pair(name) {
            None => true,
            Some((wid, ws)) => forall|t: Tree|
                #[trigger] t.removal_outcome(self, wid) ==> t.live(ws.0 as int) && t.room() >= 2
                    && t.insert_completes(ws.0 as int, Layout::SplitH),
        }
    }

    /// `self` is what inserting window `wid` into `ws` with a horizontal
    /// split made of `t`, for some new node.
    pub open spec fn inserted_from(&self, t: &Tree, wid: u64, ws: NodeId) -> bool {
        exists|w: NodeId| #[trigger] self.inserted(t, ws.0 as int, Layout::SplitH, w, wid)
    }

    /// `self` is what inserting window `wid` into workspace `ws` (with a
    /// horizontal split) made of some outcome of removing it from `old`.
    pub open spec fn moved_via(&self, old: &Tree, wid: u64, ws: NodeId) -> bool {
        exists|t: Tree| #[trigger] t.removal_outcome(old, wid) && self.inserted_from(&t, wid, ws)
    }

    proof fn lemma_move_completes(&self, name: Seq<char>, t: Tree)
        requires
            self.move_completes(name),
            self.move_pair(name) is Some,
            t.removal_outcome(self, self.move_pair(name)->Some_0.0),
        ensures
            t.live(self.move_pair(name)->Some_0.1.0 as int),
            t.room() >= 2,
            t.insert_completes(self.move_pair(name)->Some_0.1.0 as int, Layout::SplitH),
    {
    }

    /// Move the focused window to the first workspace called `target_ws`:
    /// remove it, then insert it there with a horizontal split.
    pub fn move_to_workspace(&mut self, target_ws: &str) -> (r: bool)
        requires
            old(self).wf(),
            old(self).move_completes(target_ws@),
        ensures
            final(self).wf(),
            match old(self).move_pair(target_ws@) {
                None => !r && *final(self) == *old(self),
                Some((wid, ws)) => r && final(self).moved_via(old(self), wid, ws),
            },
    {
        let win_id = match self.focused_window_id() {
            Some(id) => id,
            None => return false,
        };
        let target = match self.find_workspace_by_name_global(target_ws) {
            Some(id) => id,
            None => return false,
        };
        let ghost t0 = *self;
        assert(t0.move_pair(target_ws@) == Some((win_id, target)));
        self.remove_window(win_id);
        let ghost t1 = *self;
        assert(t1.removal_outcome(&t0, win_id));
        proof {
            t0.lemma_move_completes(target_ws@, t1);
        }
        let w = self.insert_window_into(target, win_id, Layout::SplitH);
        assert(self.inserted(&t1, target.0 as int, Layout::SplitH, w, win_id));
        assert(self.inserted_from(&t1, win_id, target));
        assert(self.moved_via(&t0, win_id, target));
        true
    }
}

impl Default for Tree {
    fn default() -> (t: Self)
        ensures
            t.wf(),
            t.slots().len() == 1,
            t.live(0),
            t.data(0) is Root,
            t.kids(0) == Seq::<NodeId>::empty(),
            t.node(0).parent_of() is None,
            t.root_id() == NodeId(0),
            t.free() == Seq::<NodeId>::empty(),
            t.focus() is None,
    {
        Tree::new()
    }
}

// ── Laws ────────────────────────────────────────────────────────

impl Tree {
    /// `self` has the shape of `old`: the same live slots, children and ranks.
    pub open spec fn same_shape(&self, old: &Tree) -> bool {
        &&& self.slots().len() == old.slots().len()
        &&& forall|i: int| #[trigger] self.live(i) == old.live(i)
        &&& forall|i: int| #[trigger] old.live(i) ==> self.kids(i) == old.kids(i)
        &&& forall|j: int| self.rank_of(j) == old.rank_of(j)
    }

    /// `self` looks like `old` through every accessor: the same live slots,
    /// with the same children, parent and data, and the same free list, root
    /// and focus.
    pub open spec fn same_view(&self, old: &Tree) -> bool {
        &&& self.slots().len() == old.slots().len()
        &&& forall|i: int| #[trigger] self.live(i) == old.live(i)
        &&& forall|i: int|
            #[trigger] old.live(i) ==> {
                &&& self.kids(i) == old.kids(i)
                &&& self.node(i).parent_of() == old.node(i).parent_of()
                &&& self.data(i) == old.data(i)
            }
        &&& self.free() == old.free()
        &&& self.root_id() == old.root_id()
        &&& self.focus() == old.focus()
    }

    proof fn lemma_only_data_shape(&self, old: &Tree, w: int)
        requires
            self.only_data_changed(old, w),
        ensures
            self.same_shape(old),
    {
        assert forall|i: int| #[trigger] self.live(i) == old.live(i) by {
            if i != w && 0 <= i < old.slots().len() {
                assert(self.slots()[i] == old.slots()[i]);
            }
        }
        assert forall|i: int| #[trigger] old.live(i) implies self.kids(i) == old.kids(i) by {
            if i != w {
                assert(self.slots()[i] == old.slots()[i]);
            }
        }
    }

    proof fn lemma_pre_shape(t0: &Tree, t1: &Tree, n: int)
        requires
            t0.wf(),
            t1.wf(),
            t1.same_shape(t0),
        ensures
            t1.pre(n) == t0.pre(n),
        decreases t0.depth_left(n), 1int, 0int,
    {
        if t0.live(n) {
            assert(t1.live(n));
            assert(t0.node_ok(n));
            Tree::lemma_pre_list_shape(t0, t1, n, t0.kids(n).len() as int);
        }
    }

    proof fn lemma_pre_list_shape(t0: &Tree, t1: &Tree, n: int, k: int)
        requires
            t0.wf(),
            t1.wf(),
            t1.same_shape(t0),
        ensures
            t1.pre_list(n, k) == t0.pre_list(n, k),
        decreases t0.depth_left(n), 0int, k,
    {
        if t0.live(n) && 0 < k <= t0.kids(n).len() {
            assert(t1.live(n));
            assert(t0.node_ok(n));
            assert(t0.child_ok(n, t0.kids(n)[k - 1].0 as int));
            Tree::lemma_pre_list_shape(t0, t1, n, k - 1);
            Tree::lemma_pre_shape(t0, t1, t0.kids(n)[k - 1].0 as int);
        }
    }

    /// Changing the data of window `w` without changing its id leaves where
    /// every window is found.
    proof fn lemma_find_window_stable(t0: &Tree, t1: &Tree, w: int, wid: u64)
        requires
            t0.wf(),
            t1.wf(),
            t1.only_data_changed(t0, w),
            t0.data(w) is Window,
            t1.data(w) is Window,
            t1.data(w)->Window_window_id == t0.data(w)->Window_window_id,
        ensures
            t1.spec_find_window(wid) == t0.spec_find_window(wid),
    {
        t1.lemma_only_data_shape(t0, w);
        Tree::lemma_pre_shape(t0, t1, 0);
        let s = t0.pre(0);
        let p0 = t0.window_pred(wid);
        let p1 = t1.window_pred(wid);
        assert forall|x: NodeId| #[trigger] p1(x) == p0(x) by {
            let j = x.0 as int;
            if j != w && 0 <= j < t0.slots().len() {
                assert(t1.slots()[j] == t0.slots()[j]);
            }
        }
        lemma_first_where(s, p0);
        let k = first_where(s, p0);
        lemma_first_where_at(s, p1, k as int);
    }
}

/// The window fields of `d` again: `d` itself when it is a window.
pub proof fn lemma_window_with_self(d: NodeData)
    requires
        d is Window,
    ensures
        window_with(
            d,
            d->Window_floating,
            d->Window_fullscreen,
            d->Window_fullscreen_global,
            d->Window_sticky,
            d->Window_saved_geometry,
        ) == d,
{
}

impl Tree {
    /// What `toggle_floating` promises of `self` after it ran on `old`.
    pub open spec fn floating_toggled(&self, old: &Tree, wid: u64) -> bool {
        &&& self.wf()
        &&& match old.spec_find_window(wid) {
            None => *self == *old,
            Some(w) => {
                let d = old.data(w.0 as int);
                &&& self.only_data_changed(old, w.0 as int)
                &&& self.data(w.0 as int) == window_with(
                    d,
                    !d->Window_floating,
                    d->Window_fullscreen,
                    d->Window_fullscreen_global,
                    d->Window_sticky,
                    d->Window_saved_geometry,
                )
            },
        }
    }

    /// What `toggle_sticky` promises of `self` after it ran on `old`.
    pub open spec fn sticky_toggled(&self, old: &Tree, wid: u64) -> bool {
        &&& self.wf()
        &&& match old.spec_find_window(wid) {
            None => *self == *old,
            Some(w) => {
                let d = old.data(w.0 as int);
                &&& self.only_data_changed(old, w.0 as int)
                &&& self.data(w.0 as int) == window_with(
                    d,
                    d->Window_floating,
                    d->Window_fullscreen,
                    d->Window_fullscreen_global,
                    !d->Window_sticky,
                    d->Window_saved_geometry,
                )
            },
        }
    }

    proof fn lemma_twice_view(t0: &Tree, t1: &Tree, t2: &Tree, w: int)
        requires
            t1.only_data_changed(t0, w),
            t2.only_data_changed(t1, w),
            t2.data(w) == t0.data(w),
        ensures
            t2.same_view(t0),
    {
        assert forall|i: int| #[trigger] t2.live(i) == t0.live(i) by {
            if i != w && 0 <= i < t0.slots().len() {
                assert(t1.slots()[i] == t0.slots()[i]);
                assert(t2.slots()[i] == t1.slots()[i]);
            }
        }
        assert forall|i: int| #[trigger] t0.live(i) implies {
            &&& t2.kids(i) == t0.kids(i)
            &&& t2.node(i).parent_of() == t0.node(i).parent_of()
            &&& t2.data(i) == t0.data(i)
        } by {
            if i != w {
                assert(t1.slots()[i] == t0.slots()[i]);
                assert(t2.slots()[i] == t1.slots()[i]);
            }
        }
    }

    /// The windows of the tree: the slot of each live window, with its data.
    pub open spec fn windows(&self) -> Map<int, NodeData> {
        Map::new(|j: int| self.live(j) && self.data(j) is Window, |j: int| self.data(j))
    }

    /// An insertion keeps every window in its slot with its data, and adds
    /// the new window `w` with no children.
    proof fn lemma_inserted_windows(t0: &Tree, t1: &Tree, n: int, split: Layout, w: NodeId, id: u64)
        requires
            t0.wf(),
            t1.inserted(t0, n, split, w, id),
        ensures
            t1.live(w.0 as int),
            !t0.live(w.0 as int),
            is_fresh_window(t1.data(w.0 as int), id),
            t1.kids(w.0 as int).len() == 0,
            forall|j: int|
                #[trigger] t1.live(j) && t1.data(j) is Window && j != w.0 ==> t0.live(j) && t0.data(j)
                    == t1.data(j),
            forall|j: int|
                #[trigger] t0.live(j) && t0.data(j) is Window ==> t1.live(j) && t1.data(j) == t0.data(j),
    {
        let (p, f, fidx) = t0.insert_site(n);
        if f == -1 || (t0.data(p) is Container && t0.data(p)->Container_layout == split) {
            assert forall|j: int| #[trigger] t1.live(j) && t1.data(j) is Window && j != w.0 implies t0.live(j) && t0.data(j) == t1.data(j) by {
                assert(t0.live(j));
                if j != p {
                    assert(t1.slots()[j] == t0.slots()[j]);
                }
            }
            assert forall|j: int| #[trigger] t0.live(j) && t0.data(j) is Window implies t1.live(j) && t1.data(j) == t0.data(j) by {
                if j != p {
                    assert(t1.slots()[j] == t0.slots()[j]);
                }
            }
        } else {
            let c = t0.next_id().0 as int;
            assert forall|j: int| #[trigger] t1.live(j) && t1.data(j) is Window && j != w.0 implies t0.live(j) && t0.data(j) == t1.data(j) by {
                assert(t0.live(j));
                if j != p && j != f && j != c {
                    assert(t1.slots()[j] == t0.slots()[j]);
                }
            }
            assert forall|j: int| #[trigger] t0.live(j) && t0.data(j) is Window implies t1.live(j) && t1.data(j) == t0.data(j) by {
                if j != p && j != f && j != c && j != w.0 {
                    assert(t1.slots()[j] == t0.slots()[j]);
                }
            }
        }
    }

    /// Removing the window just inserted, under an id that no window had,
    /// gives back the windows of the tree: each in its slot, with its data.
    pub proof fn lemma_remove_undoes_insert(
        t0: &Tree,
        t1: &Tree,
        t2: &Tree,
        n: int,
        split: Layout,
        w: NodeId,
        id: u64,
    )
        requires
            t0.wf(),
            t0.spec_find_window(id) is None,
            t1.wf(),
            t1.inserted(t0, n, split, w, id),
            t2.removal_outcome(t1, id),
        ensures
            t1.spec_find_window(id) == Some(w),
            t2.windows() == t0.windows(),
    {
        Tree::lemma_inserted_windows(t0, t1, n, split, w, id);
        let s0 = t0.pre(0);
        let p0 = t0.window_pred(id);
        lemma_first_where(s0, p0);
        assert forall|j: int| #[trigger] t0.live(j) && t0.data(j) is Window implies t0.data(j)->Window_window_id != id by {
            if t0.data(j)->Window_window_id == id {
                t0.lemma_live_in_pre(j);
                let i = choose|i: int| 0 <= i < s0.len() && s0[i] == NodeId(j as usize);
                assert(p0(s0[i]));
            }
        }
        let s1 = t1.pre(0);
        let p1 = t1.window_pred(id);
        lemma_first_where(s1, p1);
        t1.lemma_live_in_pre(w.0 as int);
        let i = choose|i: int| 0 <= i < s1.len() && s1[i] == NodeId(w.0 as usize);
        assert(p1(s1[i]));
        let k = first_where(s1, p1) as int;
        assert(k < s1.len());
        assert(p1(s1[k]));
        assert(s1[k].0 == w.0);
        assert(t1.spec_find_window(id) == Some(w));
        assert forall|j: int| #[trigger] t2.windows().contains_key(j) implies t0.windows().contains_key(j) && t0.windows()[j] == t2.windows()[j] by {
            assert(t2.live(j) && t2.data(j) is Window);
            assert(t1.live(j) && t1.data(j) == t2.data(j));
        }
        assert forall|j: int| #[trigger] t0.windows().contains_key(j) implies t2.windows().contains_key(j) by {
            assert(t0.live(j) && t0.data(j) is Window);
            assert(t1.live(j) && t1.data(j) == t0.data(j));
            if t1.descends(w.0 as int, j) {
                t1.lemma_descends_has_child(w.0 as int, j);
            }
            assert(t2.live(j) && t2.data(j) == t0.data(j));
        }
        assert(t2.windows() =~= t0.windows());
    }

    /// Toggling a window's floating flag twice gives the tree back.
    pub proof fn lemma_toggle_floating_twice(t0: &Tree, t1: &Tree, t2: &Tree, wid: u64)
        requires
            t0.wf(),
            t1.floating_toggled(t0, wid),
            t2.floating_toggled(t1, wid),
        ensures
            t2.same_view(t0),
    {
        match t0.spec_find_window(wid) {
            None => {},
            Some(w) => {
                t0.lemma_found_window(wid);
                Tree::lemma_find_window_stable(t0, t1, w.0 as int, wid);
                lemma_window_with_self(t0.data(w.0 as int));
                Tree::lemma_twice_view(t0, t1, t2, w.0 as int);
            },
        }
    }

    /// `self` looks like `old` through every accessor but the data of slot
    /// `w`: the same live slots, with the same children and parent, the same
    /// data elsewhere, and the same free list, root and focus.
    pub open spec fn same_view_but(&self, old: &Tree, w: int) -> bool {
        &&& self.slots().len() == old.slots().len()
        &&& forall|i: int| #[trigger] self.live(i) == old.live(i)
        &&& forall|i: int|
            #[trigger] old.live(i) ==> {
                &&& self.kids(i) == old.kids(i)
                &&& self.node(i).parent_of() == old.node(i).parent_of()
                &&& (i != w ==> self.data(i) == old.data(i))
            }
        &&& self.free() == old.free()
        &&& self.root_id() == old.root_id()
        &&& self.focus() == old.focus()
    }

    proof fn lemma_twice_view_but(t0: &Tree, t1: &Tree, t2: &Tree, w: int)
        requires
            t1.only_data_changed(t0, w),
            t2.only_data_changed(t1, w),
        ensures
            t2.same_view_but(t0, w),
    {
        assert forall|i: int| #[trigger] t2.live(i) == t0.live(i) by {
            if i != w && 0 <= i < t0.slots().len() {
                assert(t1.slots()[i] == t0.slots()[i]);
                assert(t2.slots()[i] == t1.slots()[i]);
            }
        }
        assert forall|i: int| #[trigger] t0.live(i) implies {
            &&& t2.kids(i) == t0.kids(i)
            &&& t2.node(i).parent_of() == t0.node(i).parent_of()
            &&& (i != w ==> t2.data(i) == t0.data(i))
        } by {
            if i != w {
                assert(t1.slots()[i] == t0.slots()[i]);
                assert(t2.slots()[i] == t1.slots()[i]);
            }
        }
    }

    /// Adding a mark that a window lacks and then removing that mark gives
    /// the tree back: the window has its marks again, in their order, and
    /// nothing else changed.
    pub proof fn lemma_remove_mark_undoes_add(t0: &Tree, t1: &Tree, t2: &Tree, wid: u64, m: Seq<char>)
        requires
            t0.wf(),
            t1.wf(),
            t1.mark_added(t0, wid, m),
            t2.marks_removed(t1, wid, Some(m)),
            t0.spec_find_window(wid) matches Some(w) ==> !marks_of(t0.data(w.0 as int)).contains(m),
        ensures
            match t0.spec_find_window(wid) {
                None => *t2 == *t0,
                Some(w) => {
                    &&& t2.same_view_but(t0, w.0 as int)
                    &&& same_but_marks(t0.data(w.0 as int), t2.data(w.0 as int))
                    &&& marks_of(t2.data(w.0 as int)) == marks_of(t0.data(w.0 as int))
                },
            },
    {
        match t0.spec_find_window(wid) {
            None => {},
            Some(w) => {
                let wi = w.0 as int;
                t0.lemma_found_window(wid);
                Tree::lemma_find_window_stable(t0, t1, wi, wid);
                let ms = marks_of(t0.data(wi));
                assert(marks_of(t1.data(wi)) == ms.push(m));
                assert(ms.push(m).drop_last() =~= ms);
                lemma_without_absent(ms, m);
                assert(without(ms.push(m), m) == ms);
                Tree::lemma_twice_view_but(t0, t1, t2, wi);
            },
        }
    }

    /// Exchanging the same two siblings twice gives the tree back: the same
    /// live nodes with the same children and parents, the same data but for
    /// the parent's sizes, which hold the same values again.
    pub proof fn lemma_swap_twice(t0: &Tree, t1: &Tree, t2: &Tree, a: NodeId, b: NodeId)
        requires
            t0.wf(),
            t1.wf(),
            t1.siblings_swapped(t0, a, b),
            t2.siblings_swapped(t1, a, b),
        ensures
            match t0.spec_swap(a, b) {
                None => *t2 == *t0,
                Some((p, i, j)) => {
                    let pi = p.0 as int;
                    &&& t2.same_view_but(t0, pi)
                    &&& (t0.is_container(pi) ==> {
                        &&& t2.data(pi) is Container
                        &&& t2.data(pi)->Container_layout == t0.data(pi)->Container_layout
                        &&& t2.data(pi)->Container_focused_child == t0.data(pi)->Container_focused_child
                        &&& t2.data(pi)->Container_sizes@ == t0.data(pi)->Container_sizes@
                    })
                    &&& (!t0.is_container(pi) ==> t2.data(pi) == t0.data(pi))
                },
            },
    {
        match t0.spec_swap(a, b) {
            None => {},
            Some((p, i, j)) => {
                let pi = p.0 as int;
                let ai = a.0 as int;
                let bi = b.0 as int;
                let k = t0.children_view(pi);
                lemma_first_where(k, is_id(a));
                lemma_first_where(k, is_id(b));
                assert(k.len() == t0.node(pi).children.len());
                assert(i as int == first_where(k, is_id(a)));
                assert(j as int == first_where(k, is_id(b)));
                assert(k[i as int] == a && k[j as int] == b);
                assert(t0.live(ai) && t0.live(bi));
                assert(t0.node_ok(ai));
                assert(t0.node_ok(pi));
                assert(t0.child_ok(pi, k[i as int].0 as int));
                assert(t0.child_ok(pi, k[j as int].0 as int));
                assert(ai != pi && bi != pi);
                assert(t1.slots()[ai] == t0.slots()[ai]);
                assert(t1.slots()[bi] == t0.slots()[bi]);
                let k1 = t1.children_view(pi);
                assert(k1 == swapped(k, i as int, j as int));
                assert(a != b);
                assert forall|m: int| 0 <= m < j implies !is_id(a)(#[trigger] k1[m]) by {
                    if m != i {
                        assert(k1[m] == k[m]);
                    }
                }
                assert forall|m: int| 0 <= m < i implies !is_id(b)(#[trigger] k1[m]) by {
                    if m != j {
                        assert(k1[m] == k[m]);
                    }
                }
                lemma_first_where_at(k1, is_id(a), j as int);
                lemma_first_where_at(k1, is_id(b), i as int);
                assert(t1.spec_swap(a, b) == Some((p, j, i)));
                assert(t2.kids(pi) =~= t0.kids(pi));
                assert forall|x: int| #[trigger] t2.live(x) == t0.live(x) by {
                    if x != pi && 0 <= x < t0.slots().len() {
                        assert(t1.slots()[x] == t0.slots()[x]);
                        assert(t2.slots()[x] == t1.slots()[x]);
                    }
                }
                assert forall|x: int| #[trigger] t0.live(x) implies {
                    &&& t2.kids(x) == t0.kids(x)
                    &&& t2.node(x).parent_of() == t0.node(x).parent_of()
                    &&& (x != pi ==> t2.data(x) == t0.data(x))
                } by {
                    if x != pi {
                        assert(t1.slots()[x] == t0.slots()[x]);
                        assert(t2.slots()[x] == t1.slots()[x]);
                    }
                }
                if t0.is_container(pi) {
                    let s0 = t0.data(pi)->Container_sizes@;
                    if i < s0.len() && j < s0.len() {
                        assert(swapped(swapped(s0, i as int, j as int), j as int, i as int) =~= s0);
                    }
                }
            },
        }
    }

    /// Trees of the same shape have the same workspace level.
    proof fn lemma_level2_shape(t0: &Tree, t1: &Tree)
        requires
            t1.same_shape(t0),
            t1.root_id() == t0.root_id(),
        ensures
            t1.level2() == t0.level2(),
    {
        assert forall|i: int| #[trigger] t1.children_view(i) == t0.children_view(i) by {
            if t0.live(i) {
                assert(t1.kids(i) == t0.kids(i));
            }
        }
        Tree::lemma_flat_pairs_shape(t0, t1, t0.children_view(t0.root_id().0 as int));
    }

    proof fn lemma_flat_pairs_shape(t0: &Tree, t1: &Tree, outs: Seq<NodeId>)
        requires
            forall|i: int| #[trigger] t1.children_view(i) == t0.children_view(i),
        ensures
            t1.flat_pairs(outs) == t0.flat_pairs(outs),
        decreases outs.len(),
    {
        if outs.len() > 0 {
            Tree::lemma_flat_pairs_shape(t0, t1, outs.drop_last());
            assert(t1.pairs_of(outs.last()) == t0.pairs_of(outs.last())) by {
                assert(t1.children_view(outs.last().0 as int) == t0.children_view(outs.last().0 as int));
            }
        }
    }

    /// Renaming a workspace to a name that no workspace has and back gives
    /// the tree back: the workspace has its name again, as text, and nothing
    /// else changed.
    pub proof fn lemma_rename_twice(t0: &Tree, t1: &Tree, t2: &Tree, a: Seq<char>, b: Seq<char>)
        requires
            t0.wf(),
            t1.wf(),
            t1.workspace_renamed(t0, a, b),
            t2.workspace_renamed(t1, b, a),
            t0.spec_find_workspace(b) is None,
        ensures
            match t0.spec_find_workspace(a) {
                None => *t2 == *t0,
                Some(p) => {
                    let pi = p.0.0 as int;
                    &&& t2.same_view_but(t0, pi)
                    &&& t2.data(pi) is Workspace
                    &&& t2.data(pi)->Workspace_name@ == t0.data(pi)->Workspace_name@
                    &&& t2.data(pi)->Workspace_output == t0.data(pi)->Workspace_output
                    &&& t2.data(pi)->Workspace_is_visible == t0.data(pi)->Workspace_is_visible
                },
            },
    {
        match t0.spec_find_workspace(a) {
            None => {},
            Some(p) => {
                let pi = p.0.0 as int;
                let l = t0.level2();
                let k0 = first_where(l, t0.named_pred(a)) as int;
                lemma_first_where(l, t0.named_pred(a));
                lemma_first_where(l, t0.named_pred(b));
                t1.lemma_only_data_shape(t0, pi);
                Tree::lemma_level2_shape(t0, t1);
                assert(l[k0] == p);
                assert forall|m: int| 0 <= m < k0 implies !t1.named_pred(b)(#[trigger] l[m]) by {
                    let c = l[m].0.0 as int;
                    assert(!t0.named_pred(a)(l[m]));
                    assert(!t0.named_pred(b)(l[m]));
                    if c != pi && 0 <= c < t0.slots().len() {
                        assert(t1.slots()[c] == t0.slots()[c]);
                    }
                }
                assert(t1.named_pred(b)(l[k0]));
                lemma_first_where_at(l, t1.named_pred(b), k0);
                assert(t1.spec_find_workspace(b) == Some(p));
                Tree::lemma_twice_view_but(t0, t1, t2, pi);
            },
        }
    }

    /// Resizing a child moves weight between it and one neighbour only: the
    /// next sibling where there is one, the previous sibling for the last
    /// child. The neighbour gives what the child gains (the two weights keep
    /// their sum), and every other weight of the container stays. Where
    /// neither weight falls below 5, the child gains exactly `delta` (a
    /// negative `delta` shrinks it). (The
    /// weights of a container number at most `usize::MAX`, as a `Vec`'s do.)
    pub proof fn lemma_resize_next_sibling(t0: &Tree, t1: &Tree, node: NodeId, axis: ResizeAxis, delta: i64)
        requires
            t0.wf(),
            t0.resize_fits(node, axis, delta),
            match t0.resize_target(node, axis) {
                Some((p, i, j)) => t1.resized(t0, p.0 as int, i as int, j as int, delta as int),
                None => *t1 == *t0,
            },
        ensures
            forall|p: int, i: int|
                #![trigger t0.kids(p)[i], t1.data(p)]
                t0.is_container(p) && 0 <= i < t0.kids(p).len() && t0.kids(p)[i] == node
                    && t0.data(p)->Container_sizes@.len() <= usize::MAX ==> {
                    let k = t0.kids(p);
                    let s0 = t0.data(p)->Container_sizes@;
                    let s1 = t1.data(p)->Container_sizes@;
                    let nb = if i + 1 < k.len() {
                        i + 1
                    } else {
                        i - 1
                    };
                    &&& t1.data(p) is Container
                    &&& s1.len() == s0.len()
                    &&& forall|m: int| 0 <= m < s0.len() && m != i && m != nb ==> s1[m] == s0[m]
                    &&& (0 <= nb < s0.len() && i < s0.len() ==> s1[i] + s1[nb] == s0[i] + s0[nb])
                    &&& (resizes_along(t0.data(p)->Container_layout, axis) && 0 <= nb < s0.len() && i < s0.len()
                        && s0[i] + delta >= 5 && s0[nb] - delta >= 5 ==> s1[i] == s0[i] + delta && s1[nb] == s0[nb]
                        - delta)
                },
    {
        assert forall|p: int, i: int|
            #![trigger t0.kids(p)[i], t1.data(p)]
            t0.is_container(p) && 0 <= i < t0.kids(p).len() && t0.kids(p)[i] == node
                    && t0.data(p)->Container_sizes@.len() <= usize::MAX implies {
                let k = t0.kids(p);
                let s0 = t0.data(p)->Container_sizes@;
                let s1 = t1.data(p)->Container_sizes@;
                let nb = if i + 1 < k.len() {
                    i + 1
                } else {
                    i - 1
                };
                &&& t1.data(p) is Container
                &&& s1.len() == s0.len()
                &&& forall|m: int| 0 <= m < s0.len() && m != i && m != nb ==> s1[m] == s0[m]
                &&& (0 <= nb < s0.len() && i < s0.len() ==> s1[i] + s1[nb] == s0[i] + s0[nb])
                &&& (resizes_along(t0.data(p)->Container_layout, axis) && 0 <= nb < s0.len() && i < s0.len()
                    && s0[i] + delta >= 5 && s0[nb] - delta >= 5 ==> s1[i] == s0[i] + delta && s1[nb] == s0[nb]
                    - delta)
            } by {
            let k = t0.kids(p);
            assert(t0.node_ok(p));
            assert(t0.child_ok(p, k[i].0 as int));
            assert(t0.parent_view(node.0 as int) == Some(NodeId(p as usize)));
            assert forall|j: int| 0 <= j < i implies !is_id(node)(#[trigger] k[j]) by {
                assert(k[j] != k[i]);
            }
            assert(is_id(node)(k[i]));
            lemma_first_where_at(k, is_id(node), i);
            assert(t0.children_view(p) == k);
            assert(first_where(t0.children_view(p), is_id(node)) == i);
            let s0 = t0.data(p)->Container_sizes@;
            let nb = if i + 1 < k.len() {
                i + 1
            } else {
                i - 1
            };
            if resizes_along(t0.data(p)->Container_layout, axis) && 0 <= nb < s0.len() && i < s0.len() {
                assert(t0.resize_target(node, axis) == Some((NodeId(p as usize), i as usize, nb as usize)));
                let r = resize_pair(s0[i] as int, s0[nb] as int, delta as int);
                let x = r.0;
                let y = r.1;
                assert(x + y == s0[i] + s0[nb]);
                assert(i64::MIN <= x <= i64::MAX && i64::MIN <= y <= i64::MAX);
                assert(t1.data(p) is Container);
                let s1 = t1.data(p)->Container_sizes@;
                assert(s1 == s0.update(i, x as i64).update(nb, y as i64));
                assert(s1[i] == x && s1[nb] == y);
            } else {
                assert(t0.resize_target(node, axis) is None);
            }
        }
    }

    /// Focus moves in the innermost container that can move it. When the
    /// focused child of a container can move focus in direction `d`, the
    /// container moves it just as that child does; only when the child cannot
    /// does the container itself move focus, to the neighbour of its focused
    /// child along a layout whose axis matches `d`.
    pub proof fn lemma_focus_moves_innermost(&self, n: int, d: Direction)
        requires
            self.wf(),
            self.live(n),
            self.data(n) is Container,
        ensures
            ({
                let k = self.kids(n);
                let f = self.data(n)->Container_focused_child as int;
                let layout = self.data(n)->Container_layout;
                &&& 0 <= f < k.len() && self.focus_move(k[f].0 as int, d) is Some ==> self.focus_move(n, d)
                    == self.focus_move(k[f].0 as int, d)
                &&& 0 <= f < k.len() && self.focus_move(k[f].0 as int, d) is None ==> {
                    &&& !axis_matches(layout, d) ==> self.focus_move(n, d) is None
                    &&& axis_matches(layout, d) && (d == Direction::Left || d == Direction::Up) ==> self.focus_move(n, d)
                        == if f > 0 {
                        Some((NodeId(n as usize), (f - 1) as usize))
                    } else {
                        None
                    }
                    &&& axis_matches(layout, d) && (d == Direction::Right || d == Direction::Down) ==> self.focus_move(n, d)
                        == if f + 1 < k.len() {
                        Some((NodeId(n as usize), (f + 1) as usize))
                    } else {
                        None
                    }
                }
            }),
    {
        assert(self.node_ok(n));
    }

    /// An output lays its subtree out in its own geometry: what is planned
    /// under an output does not depend on the area handed to it.
    pub proof fn lemma_output_layout_ignores_area(&self, o: int, a1: Rect, a2: Rect, gaps: GapsConfig)
        requires
            self.wf(),
            self.live(o),
            self.data(o) is Output,
        ensures
            self.layout_plan(o, a1, gaps) == self.layout_plan(o, a2, gaps),
    {
        assert(self.node_ok(o));
    }

    /// Where every child of the root is an output, the layout of the whole
    /// tree does not depend on the area handed to the root: each output lays
    /// its windows out in its own geometry.
    pub proof fn lemma_root_layout_ignores_area(&self, a1: Rect, a2: Rect, gaps: GapsConfig)
        requires
            self.wf(),
            forall|i: int| 0 <= i < self.kids(0).len() ==> #[trigger] self.data(self.kids(0)[i].0 as int) is Output,
        ensures
            self.layout_plan(0, a1, gaps) == self.layout_plan(0, a2, gaps),
    {
        assert(self.node_ok(0));
        self.lemma_outputs_ignore_area(0, a1, a2, gaps);
    }

    proof fn lemma_outputs_ignore_area(&self, i: int, a1: Rect, a2: Rect, gaps: GapsConfig)
        requires
            self.wf(),
            0 <= i,
            forall|j: int| 0 <= j < self.kids(0).len() ==> #[trigger] self.data(self.kids(0)[j].0 as int) is Output,
        ensures
            self.plan_each(0, i, a1, gaps) == self.plan_each(0, i, a2, gaps),
        decreases self.kids(0).len() - i,
    {
        assert(self.node_ok(0));
        if i < self.kids(0).len() {
            let c = self.kids(0)[i].0 as int;
            assert(self.child_ok(0, c));
            assert(self.data(c) is Output);
            self.lemma_output_layout_ignores_area(c, a1, a2, gaps);
            self.lemma_outputs_ignore_area(i + 1, a1, a2, gaps);
        }
    }

    /// Two tiled windows in a horizontal split, laid out without gaps, sit
    /// side by side: the first starts at the left edge of the area, the
    /// second starts where the first ends, both span the area's height, and
    /// where the first leaves room the two together span the area's width.
    pub proof fn lemma_splith_pair_side_by_side(&self, n: int, area: Rect)
        requires
            self.wf(),
            self.live(n),
            self.data(n) is Container,
            self.data(n)->Container_layout == Layout::SplitH,
            self.kids(n).len() == 2,
            forall|i: int|
                0 <= i < 2 ==> (#[trigger] self.data(self.kids(n)[i].0 as int) matches NodeData::Window {
                    floating,
                    ..
                } && !floating),
        ensures
            self.layout_plan(n, area, GapsConfig { inner: 0, outer: 0 }) matches Some(p) ==> {
                &&& p.len() == 2
                &&& p[0].0 == self.kids(n)[0]
                &&& p[1].0 == self.kids(n)[1]
                &&& p[0].1.x == area.x
                &&& p[1].1.x == p[0].1.x + p[0].1.width
                &&& p[0].1.y == area.y && p[1].1.y == area.y
                &&& p[0].1.height == area.height && p[1].1.height == area.height
                &&& p[0].1.width >= 1 && p[1].1.width >= 1
                &&& p[0].1.width < area.width ==> p[0].1.width + p[1].1.width == area.width
            },
    {
        let gz = GapsConfig { inner: 0, outer: 0 };
        assert(self.node_ok(n));
        let k = self.kids(n);
        let c0 = k[0].0 as int;
        let c1 = k[1].0 as int;
        assert(self.child_ok(n, c0));
        assert(self.child_ok(n, c1));
        assert(self.node_ok(c0));
        assert(self.node_ok(c1));
        assert(self.data(c0) is Window);
        assert(self.data(c1) is Window);
        assert(NodeId(c0 as usize) == k[0]);
        assert(NodeId(c1 as usize) == k[1]);
        assert(half(0) == 0);
        let w = self.data(n)->Container_sizes@;
        let start = area.x as int;
        let len = area.width as int;
        let end = start + len;
        let e0 = max1(share(len, w, weight_sum(w), 0, 2));
        let off1 = start + e0;
        let e1 = max1(end - off1);
        let r0 = slice_rect(area, true, start, e0);
        let r1 = slice_rect(area, true, off1, e1);
        assert(self.layout_plan(c0, r0, gz) == Some(seq![(NodeId(c0 as usize), r0)]));
        assert(self.layout_plan(c1, r1, gz) == Some(seq![(NodeId(c1 as usize), r1)]));
        assert(self.plan_split(n, 2, off1 + e1, w, area, true, gz) == Some(Seq::<(NodeId, Rect)>::empty()));
        if fits32(end) && fits32(end - off1) && fits32(off1 + e1) {
            assert(seq![(NodeId(c1 as usize), r1)] + Seq::<(NodeId, Rect)>::empty() =~= seq![(NodeId(c1 as usize), r1)]);
            assert(self.plan_split(n, 1, off1, w, area, true, gz) == Some(seq![(NodeId(c1 as usize), r1)]));
        } else {
            assert(self.plan_split(n, 1, off1, w, area, true, gz) is None);
        }
        if fits32(off1) {
            if let Some(rest) = self.plan_split(n, 1, off1, w, area, true, gz) {
                assert(self.plan_split(n, 0, start, w, area, true, gz) == Some(
                    seq![(NodeId(c0 as usize), r0)] + rest,
                ));
                assert(seq![(NodeId(c0 as usize), r0)] + seq![(NodeId(c1 as usize), r1)] =~= seq![
                    (NodeId(c0 as usize), r0),
                    (NodeId(c1 as usize), r1),
                ]);
            }
        }
    }

    /// Two tiled windows in a vertical split, laid out without gaps, sit
    /// one above the other: the first starts at the top edge of the area, the
    /// second starts where the first ends, both span the area's width, and
    /// where the first leaves room the two together span the area's height.
    pub proof fn lemma_splitv_pair_stacked(&self, n: int, area: Rect)
        requires
            self.wf(),
            self.live(n),
            self.data(n) is Container,
            self.data(n)->Container_layout == Layout::SplitV,
            self.kids(n).len() == 2,
            forall|i: int|
                0 <= i < 2 ==> (#[trigger] self.data(self.kids(n)[i].0 as int) matches NodeData::Window {
                    floating,
                    ..
                } && !floating),
        ensures
            self.layout_plan(n, area, GapsConfig { inner: 0, outer: 0 }) matches Some(p) ==> {
                &&& p.len() == 2
                &&& p[0].0 == self.kids(n)[0]
                &&& p[1].0 == self.kids(n)[1]
                &&& p[0].1.y == area.y
                &&& p[1].1.y == p[0].1.y + p[0].1.height
                &&& p[0].1.x == area.x && p[1].1.x == area.x
                &&& p[0].1.width == area.width && p[1].1.width == area.width
                &&& p[0].1.height >= 1 && p[1].1.height >= 1
                &&& p[0].1.height < area.height ==> p[0].1.height + p[1].1.height == area.height
            },
    {
        let gz = GapsConfig { inner: 0, outer: 0 };
        assert(self.node_ok(n));
        let k = self.kids(n);
        let c0 = k[0].0 as int;
        let c1 = k[1].0 as int;
        assert(self.child_ok(n, c0));
        assert(self.child_ok(n, c1));
        assert(self.node_ok(c0));
        assert(self.node_ok(c1));
        assert(self.data(c0) is Window);
        assert(self.data(c1) is Window);
        assert(NodeId(c0 as usize) == k[0]);
        assert(NodeId(c1 as usize) == k[1]);
        assert(half(0) == 0);
        let w = self.data(n)->Container_sizes@;
        let start = area.y as int;
        let len = area.height as int;
        let end = start + len;
        let e0 = max1(share(len, w, weight_sum(w), 0, 2));
        let off1 = start + e0;
        let e1 = max1(end - off1);
        let r0 = slice_rect(area, false, start, e0);
        let r1 = slice_rect(area, false, off1, e1);
        assert(self.layout_plan(c0, r0, gz) == Some(seq![(NodeId(c0 as usize), r0)]));
        assert(self.layout_plan(c1, r1, gz) == Some(seq![(NodeId(c1 as usize), r1)]));
        assert(self.plan_split(n, 2, off1 + e1, w, area, false, gz) == Some(Seq::<(NodeId, Rect)>::empty()));
        if fits32(end) && fits32(end - off1) && fits32(off1 + e1) {
            assert(seq![(NodeId(c1 as usize), r1)] + Seq::<(NodeId, Rect)>::empty() =~= seq![(NodeId(c1 as usize), r1)]);
            assert(self.plan_split(n, 1, off1, w, area, false, gz) == Some(seq![(NodeId(c1 as usize), r1)]));
        } else {
            assert(self.plan_split(n, 1, off1, w, area, false, gz) is None);
        }
        if fits32(off1) {
            if let Some(rest) = self.plan_split(n, 1, off1, w, area, false, gz) {
                assert(self.plan_split(n, 0, start, w, area, false, gz) == Some(
                    seq![(NodeId(c0 as usize), r0)] + rest,
                ));
                assert(seq![(NodeId(c0 as usize), r0)] + seq![(NodeId(c1 as usize), r1)] =~= seq![
                    (NodeId(c0 as usize), r0),
                    (NodeId(c1 as usize), r1),
                ]);
            }
        }
    }

    /// A tabbed or stacked container lays out only its focused child (the
    /// last one where the focus points past the end), in the whole area.
    pub proof fn lemma_tabbed_shows_focused(&self, n: int, area: Rect, gaps: GapsConfig)
        requires
            self.wf(),
            self.live(n),
            self.data(n) is Container,
            self.data(n)->Container_layout == Layout::Tabbed || self.data(n)->Container_layout == Layout::Stacked,
            self.kids(n).len() > 0,
        ensures
            ({
                let k = self.kids(n);
                let f = self.data(n)->Container_focused_child as int;
                let shown = if f < k.len() {
                    f
                } else {
                    k.len() - 1
                };
                self.layout_plan(n, area, gaps) == self.layout_plan(k[shown].0 as int, area, gaps)
            }),
    {
        assert(self.node_ok(n));
    }

    /// A tiled window alone on the only workspace of an output gets the
    /// output's geometry shrunk by the outer gap (at the workspace) and then
    /// by half the inner gap (at the window), whatever area the output was
    /// handed.
    pub proof fn lemma_lone_window_gaps(&self, o: int, area: Rect, gaps: GapsConfig)
        requires
            self.wf(),
            self.live(o),
            self.data(o) is Output,
            self.kids(o).len() == 1,
            self.data(self.kids(o)[0].0 as int) is Workspace,
            self.kids(self.kids(o)[0].0 as int).len() == 1,
            self.data(self.kids(self.kids(o)[0].0 as int)[0].0 as int) matches NodeData::Window {
                floating,
                ..
            } && !floating,
        ensures
            self.layout_plan(o, area, gaps) == match shrink_spec(self.data(o)->Output_geometry, gaps.outer) {
                Some(r1) => match shrink_spec(r1, half(gaps.inner)) {
                    Some(r2) => Some(seq![(self.kids(self.kids(o)[0].0 as int)[0], r2)]),
                    None => None,
                },
                None => None,
            },
    {
        let g = self.data(o)->Output_geometry;
        let w = self.kids(o)[0].0 as int;
        assert(self.node_ok(o));
        assert(self.child_ok(o, w));
        assert(self.node_ok(w));
        let x = self.kids(w)[0].0 as int;
        assert(self.child_ok(w, x));
        assert(self.node_ok(x));
        assert(NodeId(x as usize) == self.kids(w)[0]);
        assert(self.plan_each(o, 1, g, gaps) == Some(Seq::<(NodeId, Rect)>::empty()));
        if let Some(r1) = shrink_spec(g, gaps.outer) {
            assert(self.plan_each(w, 1, r1, gaps) == Some(Seq::<(NodeId, Rect)>::empty()));
            if let Some(r2) = shrink_spec(r1, half(gaps.inner)) {
                assert(self.layout_plan(x, r1, gaps) == Some(seq![(NodeId(x as usize), r2)]));
                assert(seq![(NodeId(x as usize), r2)] + Seq::<(NodeId, Rect)>::empty() =~= seq![(NodeId(x as usize), r2)]);
                assert(self.plan_each(w, 0, r1, gaps) == Some(seq![(NodeId(x as usize), r2)]));
                assert(self.layout_plan(w, g, gaps) == Some(seq![(NodeId(x as usize), r2)]));
                assert(self.plan_each(o, 0, g, gaps) == Some(seq![(NodeId(x as usize), r2)]));
            } else {
                assert(self.layout_plan(x, r1, gaps) is None);
                assert(self.plan_each(w, 0, r1, gaps) is None);
                assert(self.layout_plan(w, g, gaps) is None);
                assert(self.plan_each(o, 0, g, gaps) is None);
            }
        } else {
            assert(self.layout_plan(w, g, gaps) is None);
            assert(self.plan_each(o, 0, g, gaps) is None);
        }
    }

    /// A tiled window alone on the only workspace of an output, laid out
    /// without gaps, fills the output's geometry, whatever area the output
    /// was handed.
    pub proof fn lemma_lone_window_fills_output(&self, o: int, area: Rect)
        requires
            self.wf(),
            self.live(o),
            self.data(o) is Output,
            self.kids(o).len() == 1,
            self.data(self.kids(o)[0].0 as int) is Workspace,
            self.kids(self.kids(o)[0].0 as int).len() == 1,
            self.data(self.kids(self.kids(o)[0].0 as int)[0].0 as int) matches NodeData::Window {
                floating,
                ..
            } && !floating,
        ensures
            self.layout_plan(o, area, GapsConfig { inner: 0, outer: 0 }) == Some(
                seq![(self.kids(self.kids(o)[0].0 as int)[0], self.data(o)->Output_geometry)],
            ),
    {
        let gz = GapsConfig { inner: 0, outer: 0 };
        let g = self.data(o)->Output_geometry;
        let w = self.kids(o)[0].0 as int;
        assert(self.node_ok(o));
        assert(self.child_ok(o, w));
        assert(self.node_ok(w));
        let x = self.kids(w)[0].0 as int;
        assert(self.child_ok(w, x));
        assert(self.node_ok(x));
        assert(NodeId(x as usize) == self.kids(w)[0]);
        assert(half(0) == 0);
        assert(self.layout_plan(x, g, gz) == Some(seq![(NodeId(x as usize), g)]));
        assert(self.plan_each(w, 1, g, gz) == Some(Seq::<(NodeId, Rect)>::empty()));
        assert(seq![(NodeId(x as usize), g)] + Seq::<(NodeId, Rect)>::empty() =~= seq![(NodeId(x as usize), g)]);
        assert(self.plan_each(w, 0, g, gz) == Some(seq![(NodeId(x as usize), g)]));
        assert(self.layout_plan(w, g, gz) == Some(seq![(NodeId(x as usize), g)]));
        assert(self.plan_each(o, 1, g, gz) == Some(Seq::<(NodeId, Rect)>::empty()));
        assert(self.plan_each(o, 0, g, gz) == Some(seq![(NodeId(x as usize), g)]));
    }

    /// Where a focus move lands: in container `c`, whose layout lies along
    /// the axis of `d`, at the neighbour `j` of its focused child on the side
    /// of `d`.
    pub open spec fn focus_step(&self, c: NodeId, j: usize, d: Direction) -> bool {
        let f = self.data(c.0 as int)->Container_focused_child;
        &&& self.is_container(c.0 as int)
        &&& axis_matches(self.data(c.0 as int)->Container_layout, d)
        &&& (d == Direction::Left || d == Direction::Up) ==> j + 1 == f
        &&& (d == Direction::Right || d == Direction::Down) ==> j == (f + 1) as usize && f + 1 < self.kids(
            c.0 as int,
        ).len()
    }

    /// Every focus move, from any node, lands in a container whose layout
    /// lies along the axis of the direction, on the neighbour of its focused
    /// child on that side.
    pub proof fn lemma_focus_move_lands(&self, n: int, d: Direction)
        requires
            self.wf(),
        ensures
            self.focus_move(n, d) matches Some((c, j)) ==> self.focus_step(c, j, d),
        decreases self.depth_left(n), 1int, 0int,
    {
        if self.live(n) {
            assert(self.node_ok(n));
            assert(NodeId(n as usize).0 as int == n);
            let k = self.kids(n);
            match self.data(n) {
                NodeData::Container { layout, focused_child, .. } => {
                    if focused_child < k.len() {
                        assert(self.child_ok(n, k[focused_child as int].0 as int));
                        self.lemma_focus_move_lands(k[focused_child as int].0 as int, d);
                    }
                },
                NodeData::Workspace { .. } => {
                    self.lemma_focus_move_from_lands(n, 0, d);
                },
                _ => {},
            }
        }
    }

    proof fn lemma_focus_move_from_lands(&self, n: int, i: int, d: Direction)
        requires
            self.wf(),
        ensures
            self.focus_move_from(n, i, d) matches Some((c, j)) ==> self.focus_step(c, j, d),
        decreases self.depth_left(n), 0int, self.kids(n).len() - i,
    {
        if self.live(n) && 0 <= i < self.kids(n).len() {
            assert(self.node_ok(n));
            assert(self.child_ok(n, self.kids(n)[i].0 as int));
            self.lemma_focus_move_lands(self.kids(n)[i].0 as int, d);
            self.lemma_focus_move_from_lands(n, i + 1, d);
        }
    }

    /// A well-formed tree has its root, a live `Root` node, in slot 0.
    pub proof fn lemma_wf_root(&self)
        requires
            self.wf(),
        ensures
            self.root_id() == NodeId(0),
            self.live(0),
            self.data(0) is Root,
    {
    }

    /// What [`Tree::descends`] means: `j` is `a`, or `j` is a live node
    /// other than the root whose parent lies below `a`.
    pub proof fn lemma_descends_unfold(&self, a: int, j: int)
        requires
            self.wf(),
        ensures
            self.descends(a, j) == (j == a || (self.live(j) && j != 0 && self.descends(
                a,
                self.node(j).parent_of()->Some_0.0 as int,
            ))),
    {
    }

    /// What [`Tree::insert_site`] means at a live node `n`: `n` itself when
    /// it has no children; else its focused child (the first one when the
    /// focused index is out of range) when that is a window, with the
    /// focused index; else the site below that child.
    pub proof fn lemma_insert_site_unfold(&self, n: int)
        requires
            self.wf(),
            self.live(n),
        ensures
            self.insert_site(n) == ({
                let k = self.kids(n);
                if k.len() == 0 {
                    (n, -1int, 0int)
                } else {
                    let fidx: int = match self.data(n) {
                        NodeData::Container { focused_child, .. } => focused_child as int,
                        _ => 0,
                    };
                    let j: int = if fidx < k.len() { fidx } else { 0 };
                    let f = k[j].0 as int;
                    if self.data(f) is Window {
                        (n, f, fidx)
                    } else {
                        self.insert_site(f)
                    }
                }
            }),
    {
    }

    /// What [`Tree::walk_up`] means at a live node `cur` other than the
    /// root: at its parent `p`, a container whose layout runs along `d`
    /// gives `cur`'s position and its neighbour's in that direction (none
    /// at the edge); another container passes the search on to `p`; any
    /// other parent ends it with none.
    pub proof fn lemma_walk_up_unfold(&self, cur: int, d: Direction)
        requires
            self.wf(),
            self.live(cur),
            cur != 0,
        ensures
            self.walk_up(cur, d) == ({
                let p = self.node(cur).parent_of()->Some_0.0 as int;
                match self.data(p) {
                    NodeData::Container { layout, .. } => if axis_matches(layout, d) {
                        let k = self.kids(p);
                        let idx = first_where(k, is_id(NodeId(cur as usize)));
                        if idx >= k.len() {
                            None
                        } else if d == Direction::Left || d == Direction::Up {
                            if idx > 0 {
                                Some((NodeId(p as usize), idx as usize, (idx - 1) as usize))
                            } else {
                                None
                            }
                        } else {
                            if idx + 1 < k.len() {
                                Some((NodeId(p as usize), idx as usize, (idx + 1) as usize))
                            } else {
                                None
                            }
                        }
                    } else {
                        self.walk_up(p, d)
                    },
                    _ => None,
                }
            }),
    {
    }

    /// What [`Tree::removal_top`] means at a live node `x` other than the
    /// root: the removal top of its parent when that is a container whose
    /// only child is `x`, else `x`.
    pub proof fn lemma_removal_top_unfold(&self, x: int)
        requires
            self.wf(),
            self.live(x),
            x != 0,
        ensures
            self.removal_top(x) == ({
                let p = self.node(x).parent_of()->Some_0.0 as int;
                if self.is_container(p) && self.kids(p).len() == 1 {
                    self.removal_top(p)
                } else {
                    x
                }
            }),
    {
    }

    /// Adding the same workspace twice: the second call finds the workspace
    /// the first one gave, and changes nothing.
    pub proof fn lemma_add_workspace_twice(t0: &Tree, t1: &Tree, t2: &Tree, output: NodeId, name: Seq<char>, id1: NodeId, id2: NodeId)
        requires
            t0.wf(),
            t0.live(output.0 as int),
            t1.workspace_added(t0, output, name, id1),
            t2.workspace_added(t1, output, name, id2),
        ensures
            id2 == id1,
            *t2 == *t1,
    {
        let o = output.0 as int;
        let k0 = t0.kids(o);
        let p0 = t0.named_child_pred(name);
        lemma_first_where(t0.children_view(o), p0);
        if t0.first_named_child(o, name) >= k0.len() {
            let k1 = t1.kids(o);
            let p1 = t1.named_child_pred(name);
            assert(t0.node_ok(o));
            assert forall|m: int| 0 <= m < k0.len() implies !p1(#[trigger] k1[m]) by {
                assert(k1[m] == k0[m]);
                assert(!p0(k0[m]));
                assert(t0.child_ok(o, k0[m].0 as int));
                assert(k0[m].0 != id1.0);
                assert(t1.slots()[k0[m].0 as int] == t0.slots()[k0[m].0 as int]);
            }
            assert(k1[k0.len() as int] == id1);
            lemma_first_where_at(t1.children_view(o), p1, k0.len() as int);
        }
    }

    /// Toggling a window's sticky flag twice gives the tree back.
    pub proof fn lemma_toggle_sticky_twice(t0: &Tree, t1: &Tree, t2: &Tree, wid: u64)
        requires
            t0.wf(),
            t1.sticky_toggled(t0, wid),
            t2.sticky_toggled(t1, wid),
        ensures
            t2.same_view(t0),
    {
        match t0.spec_find_window(wid) {
            None => {},
            Some(w) => {
                t0.lemma_found_window(wid);
                Tree::lemma_find_window_stable(t0, t1, w.0 as int, wid);
                lemma_window_with_self(t0.data(w.0 as int));
                Tree::lemma_twice_view(t0, t1, t2, w.0 as int);
            },
        }
    }
}

/// `d1` is `d0` but for the geometry of a window.
pub open spec fn geom_equiv(d1: NodeData, d0: NodeData) -> bool {
    if d0 is Window {
        d1 is Window && d1 == with_geometry(d0, d1->Window_geometry)
    } else {
        d1 == d0
    }
}

/// The rectangle that the last assignment of `plan` to node `i` gives.
pub open spec fn last_rect(plan: Seq<(NodeId, Rect)>, i: int) -> Option<Rect>
    decreases plan.len(),
{
    if plan.len() == 0 {
        None
    } else if plan.last().0.0 == i {
        Some(plan.last().1)
    } else {
        last_rect(plan.drop_last(), i)
    }
}

proof fn lemma_geometry_after(plan: Seq<(NodeId, Rect)>, i: int, d: NodeData)
    ensures
        geometry_after(plan, i, d) == match last_rect(plan, i) {
            Some(r) => with_geometry(d, r),
            None => d,
        },
        geom_equiv(geometry_after(plan, i, d), d),
    decreases plan.len(),
{
    if plan.len() > 0 {
        lemma_geometry_after(plan.drop_last(), i, d);
    }
}

impl Tree {
    proof fn lemma_plan_equiv(t0: &Tree, t1: &Tree, n: int, area: Rect, gaps: GapsConfig)
        requires
            t0.wf(),
            t1.wf(),
            t1.same_shape(t0),
            forall|i: int| #[trigger] t0.live(i) ==> geom_equiv(t1.data(i), t0.data(i)),
        ensures
            t1.layout_plan(n, area, gaps) == t0.layout_plan(n, area, gaps),
        decreases t0.depth_left(n), 1int, 0int,
    {
        if t0.live(n) {
            assert(t1.live(n));
            assert(t0.node_ok(n));
            assert(geom_equiv(t1.data(n), t0.data(n)));
            let k = t0.kids(n);
            match t0.data(n) {
                NodeData::Root => {
                    Tree::lemma_plan_each_equiv(t0, t1, n, 0, area, gaps);
                },
                NodeData::Output { geometry, .. } => {
                    Tree::lemma_plan_each_equiv(t0, t1, n, 0, geometry, gaps);
                },
                NodeData::Workspace { .. } => {
                    match shrink_spec(area, gaps.outer) {
                        Some(inner) => Tree::lemma_plan_each_equiv(t0, t1, n, 0, inner, gaps),
                        None => {},
                    }
                },
                NodeData::Container { layout, sizes, focused_child } => {
                    if k.len() > 0 {
                        match layout {
                            Layout::SplitH => Tree::lemma_plan_split_equiv(
                                t0,
                                t1,
                                n,
                                0,
                                area.x as int,
                                sizes@,
                                area,
                                true,
                                gaps,
                            ),
                            Layout::SplitV => Tree::lemma_plan_split_equiv(
                                t0,
                                t1,
                                n,
                                0,
                                area.y as int,
                                sizes@,
                                area,
                                false,
                                gaps,
                            ),
                            _ => {
                                let idx: int = if focused_child < k.len() {
                                    focused_child as int
                                } else {
                                    k.len() - 1
                                };
                                assert(t0.child_ok(n, k[idx].0 as int));
                                Tree::lemma_plan_equiv(t0, t1, k[idx].0 as int, area, gaps);
                            },
                        }
                    }
                },
                NodeData::Window { .. } => {},
            }
        }
    }

    proof fn lemma_plan_each_equiv(t0: &Tree, t1: &Tree, n: int, i: int, area: Rect, gaps: GapsConfig)
        requires
            t0.wf(),
            t1.wf(),
            t1.same_shape(t0),
            forall|j: int| #[trigger] t0.live(j) ==> geom_equiv(t1.data(j), t0.data(j)),
        ensures
            t1.plan_each(n, i, area, gaps) == t0.plan_each(n, i, area, gaps),
        decreases t0.depth_left(n), 0int, t0.kids(n).len() - i,
    {
        if t0.live(n) && 0 <= i < t0.kids(n).len() {
            assert(t1.live(n));
            assert(t0.node_ok(n));
            assert(t0.child_ok(n, t0.kids(n)[i].0 as int));
            Tree::lemma_plan_equiv(t0, t1, t0.kids(n)[i].0 as int, area, gaps);
            Tree::lemma_plan_each_equiv(t0, t1, n, i + 1, area, gaps);
        }
    }

    proof fn lemma_plan_split_equiv(
        t0: &Tree,
        t1: &Tree,
        n: int,
        i: int,
        offset: int,
        weights: Seq<i64>,
        area: Rect,
        horizontal: bool,
        gaps: GapsConfig,
    )
        requires
            t0.wf(),
            t1.wf(),
            t1.same_shape(t0),
            forall|j: int| #[trigger] t0.live(j) ==> geom_equiv(t1.data(j), t0.data(j)),
        ensures
            t1.plan_split(n, i, offset, weights, area, horizontal, gaps) == t0.plan_split(
                n,
                i,
                offset,
                weights,
                area,
                horizontal,
                gaps,
            ),
        decreases t0.depth_left(n), 0int, t0.kids(n).len() - i,
    {
        if t0.live(n) && 0 <= i < t0.kids(n).len() {
            assert(t1.live(n));
            assert(t0.node_ok(n));
            assert(t0.child_ok(n, t0.kids(n)[i].0 as int));
            let cnt = t0.kids(n).len() as int;
            let start: int = if horizontal { area.x as int } else { area.y as int };
            let len: int = if horizontal { area.width as int } else { area.height as int };
            let ext = if i == cnt - 1 {
                start + len - offset
            } else {
                share(len, weights, weight_sum(weights), i, cnt)
            };
            let e1 = max1(ext);
            Tree::lemma_plan_equiv(
                t0,
                t1,
                t0.kids(n)[i].0 as int,
                slice_rect(area, horizontal, offset, e1),
                gaps,
            );
            Tree::lemma_plan_split_equiv(t0, t1, n, i + 1, offset + e1, weights, area, horizontal, gaps);
        }
    }

    /// Laying out the same subtree in the same area a second time plans what
    /// the first pass did, and changes nothing: layout is idempotent.
    pub proof fn lemma_layout_idempotent(
        t0: &Tree,
        t1: &Tree,
        t2: &Tree,
        n: int,
        area: Rect,
        gaps: GapsConfig,
    )
        requires
            t0.wf(),
            t1.wf(),
            t2.wf(),
            match t0.layout_plan(n, area, gaps) {
                Some(plan) => t1.placed(t0, plan),
                None => *t1 == *t0,
            },
            match t1.layout_plan(n, area, gaps) {
                Some(plan) => t2.placed(t1, plan),
                None => *t2 == *t1,
            },
        ensures
            t1.layout_plan(n, area, gaps) == t0.layout_plan(n, area, gaps),
            t2.same_view(t1),
    {
        if t0.layout_plan(n, area, gaps) is None {
            return;
        }
        let plan = t0.layout_plan(n, area, gaps)->Some_0;
        assert forall|i: int| #[trigger] t0.live(i) implies geom_equiv(t1.data(i), t0.data(i)) by {
            lemma_geometry_after(plan, i, t0.data(i));
        }
        Tree::lemma_plan_equiv(t0, t1, n, area, gaps);
        assert forall|i: int| #[trigger] t1.live(i) implies t2.data(i) == t1.data(i) by {
            assert(t0.live(i));
            lemma_geometry_after(plan, i, t0.data(i));
            lemma_geometry_after(plan, i, t1.data(i));
        }
    }
}

} // verus!
