use vstd::prelude::*;
use crate::util::queue_contains;

verus! {

/// Plain value of a node-number generator.
pub ghost struct NodeIdGenView {
    /// The next fresh number.
    pub next: usize,
    /// Numbers handed back, in the order in which they will be reused.
    pub available: Seq<usize>,
}

/// Hands out node numbers: the ones handed back first, oldest first, then fresh ones counting
/// up from zero, up to but not including `usize::MAX`.
pub struct NodeIdGenerator {
    next_id: usize,
    available_ids: std::collections::VecDeque<usize>,
}

impl View for NodeIdGenerator {
    type V = NodeIdGenView;

    closed spec fn view(&self) -> NodeIdGenView {
        NodeIdGenView { next: self.next_id, available: self.available_ids@ }
    }
}

impl NodeIdGenerator {
    pub fn new() -> (r: Self)
        ensures
            r@ == (NodeIdGenView { next: 0, available: Seq::empty() }),
    {
        NodeIdGenerator { next_id: 0, available_ids: std::collections::VecDeque::new() }
    }

    pub fn get_id(&mut self) -> (r: Option<usize>)
        ensures
            old(self)@.available.len() > 0 ==> r == Some(old(self)@.available[0]) && final(self)@
                == (NodeIdGenView {
                next: old(self)@.next,
                available: old(self)@.available.drop_first(),
            }),
            old(self)@.available.len() == 0 && old(self)@.next < usize::MAX ==> r == Some(
                old(self)@.next,
            ) && final(self)@ == (NodeIdGenView {
                next: (old(self)@.next + 1) as usize,
                available: old(self)@.available,
            }),
            old(self)@.available.len() == 0 && old(self)@.next == usize::MAX ==> r is None
                && final(self)@ == old(self)@,
    {
        match self.available_ids.pop_front() {
            Some(id) => {
                assert(self.available_ids@ =~= old(self)@.available.drop_first());
                Some(id)
            },
            None => {
                if self.next_id < usize::MAX {
                    let id = self.next_id;
                    self.next_id = self.next_id + 1;
                    Some(id)
                } else {
                    None
                }
            },
        }
    }

    /// Takes back a number that was handed out, unless it is already back.
    pub fn return_id(&mut self, id: usize)
        ensures
            final(self)@ == (if id < old(self)@.next && !old(self)@.available.contains(id) {
                NodeIdGenView { next: old(self)@.next, available: old(self)@.available.push(id) }
            } else {
                old(self)@
            }),
    {
        if id < self.next_id && !queue_contains(&self.available_ids, id) {
            self.available_ids.push_back(id);
        }
    }
}

pub struct TreeNode<T> {
    pub value: T,
    pub parent_id: Option<usize>,
    pub children_ids: Vec<usize>,
    pub node_id: usize,
}

impl<T> TreeNode<T> {
    /// A node with no children.
    pub fn new(node_id: usize, value: T, parent_id: Option<usize>) -> (r: Self)
        ensures
            r.node_id == node_id,
            r.value == value,
            r.parent_id == parent_id,
            r.children_ids@ == Seq::<usize>::empty(),
    {
        TreeNode { value, parent_id, children_ids: Vec::new(), node_id }
    }
}

pub struct TreeNodeBuilder {
    parent_id: Option<usize>,
    node_id: Option<usize>,
}

impl TreeNodeBuilder {
    pub closed spec fn spec_parent_id(&self) -> Option<usize> {
        self.parent_id
    }

    pub closed spec fn spec_node_id(&self) -> Option<usize> {
        self.node_id
    }

    pub fn new() -> (r: Self)
        ensures
            r.spec_parent_id() is None,
            r.spec_node_id() is None,
    {
        TreeNodeBuilder { parent_id: None, node_id: None }
    }

    pub fn parent_id(&mut self, id: Option<usize>) -> (r: &mut Self)
        ensures
            r.spec_parent_id() == id,
            r.spec_node_id() == old(self).spec_node_id(),
            *final(self) == *final(r),
    {
        self.parent_id = id;
        self
    }

    pub fn node_id(&mut self, id: usize) -> (r: &mut Self)
        ensures
            r.spec_node_id() == Some(id),
            r.spec_parent_id() == old(self).spec_parent_id(),
            *final(self) == *final(r),
    {
        self.node_id = Some(id);
        self
    }

    /// A node holding `value`, once a node number is set.
    pub fn build<T>(&self, value: T) -> (r: Option<TreeNode<T>>)
        ensures
            match r {
                Some(n) => self.spec_node_id() == Some(n.node_id) && n.value == value && n.parent_id
                    == self.spec_parent_id() && n.children_ids@ == Seq::<usize>::empty(),
                None => self.spec_node_id() is None,
            },
    {
        match self.node_id {
            Some(node_id) => Some(TreeNode::new(node_id, value, self.parent_id)),
            None => None,
        }
    }
}

/// Plain value of a tree.
pub ghost struct TreeView<T> {
    pub values: Seq<T>,
    pub parents: Seq<Option<usize>>,
    pub children: Seq<Seq<usize>>,
    pub root: usize,
}

/// Operations of a tree whose nodes are numbered.
pub trait TreeBase<T> {
    spec fn well_formed(&self) -> bool;

    fn get_root_node_id(&self) -> usize;

    fn insert(&mut self, parent_id: usize, value: T) -> (r: Option<usize>)
        requires
            old(self).well_formed(),
        ensures
            final(self).well_formed(),
    ;

    fn get_node_value(&self, node_id: usize) -> Option<&T>;

    fn get_node_value_mut(&mut self, node_id: usize) -> (r: Option<&mut T>)
        requires
            old(self).well_formed(),
        ensures
            final(self).well_formed(),
    ;

    fn get_node_children_ids(&self, node_id: usize) -> Option<&[usize]>;
}

/// A general tree: each node but the root has a parent, and nodes are numbered in the order in
/// which they were added.
pub struct Tree<T> {
    nodes: Vec<TreeNode<T>>,
    id_gen: NodeIdGenerator,
    root_node_id: usize,
}

impl<T> View for Tree<T> {
    type V = TreeView<T>;

    closed spec fn view(&self) -> TreeView<T> {
        TreeView {
            values: Seq::new(self.nodes@.len(), |i: int| self.nodes@[i].value),
            parents: Seq::new(self.nodes@.len(), |i: int| self.nodes@[i].parent_id),
            children: Seq::new(self.nodes@.len(), |i: int| self.nodes@[i].children_ids@),
            root: self.root_node_id,
        }
    }
}

impl<T> Tree<T> {
    /// The number generator hands out the next slot.
    pub closed spec fn wf(&self) -> bool {
        &&& self.id_gen@.next == self.nodes@.len()
        &&& self.id_gen@.available.len() == 0
        &&& self.root_node_id < self.nodes@.len()
    }

    /// A tree of one node, the root, which is number 0.
    pub fn new(root_value: T) -> (r: (Self, usize))
        ensures
            r.0.wf(),
            r.1 == 0,
            r.0@ == (TreeView {
                values: seq![root_value],
                parents: seq![None],
                children: seq![Seq::<usize>::empty()],
                root: 0,
            }),
    {
        let mut id_gen = NodeIdGenerator::new();
        let mut nodes: Vec<TreeNode<T>> = Vec::new();
        let root_id = match id_gen.get_id() {
            Some(id) => id,
            None => 0,
        };
        let root_node = TreeNode::new(root_id, root_value, None);
        nodes.push(root_node);
        let r = Tree { nodes, id_gen, root_node_id: root_id };
        assert(r@.values =~= seq![root_value]);
        assert(r@.parents =~= seq![None]);
        assert(r@.children =~= seq![Seq::<usize>::empty()]);
        (r, root_id)
    }

    pub fn get_root_node_id(&self) -> (r: usize)
        ensures
            r == self@.root,
    {
        self.root_node_id
    }

    /// Adds a child holding `value` under `parent_id` and returns its number, the next one;
    /// `None` when there is no such parent or the numbers are used up.
    pub fn insert(&mut self, parent_id: usize, value: T) -> (r: Option<usize>)
        requires
            old(self).wf(),
        ensures
            final(self).wf(),
            parent_id >= old(self)@.values.len() || old(self)@.values.len() == usize::MAX ==> r is None
                && final(self)@ == old(self)@,
            parent_id < old(self)@.values.len() && old(self)@.values.len() < usize::MAX ==> {
                let n = old(self)@.values.len();
                &&& r == Some(n as usize)
                &&& final(self)@ == TreeView {
                    values: old(self)@.values.push(value),
                    parents: old(self)@.parents.push(Some(parent_id)),
                    children: old(self)@.children.update(
                        parent_id as int,
                        old(self)@.children[parent_id as int].push(n as usize),
                    ).push(Seq::empty()),
                    root: old(self)@.root,
                }
            },
    {
        if parent_id >= self.nodes.len() {
            return None;
        }
        let node_id = match self.id_gen.get_id() {
            Some(id) => id,
            None => {
                return None;
            },
        };
        let mut tree_node_builder = TreeNodeBuilder::new();
        let node = match tree_node_builder.node_id(node_id).parent_id(Some(parent_id)).build(value) {
            Some(node) => node,
            None => {
                return None;
            },
        };
        self.nodes[parent_id].children_ids.push(node_id);
        self.nodes.push(node);
        assert(self@.values =~= old(self)@.values.push(value));
        assert(self@.parents =~= old(self)@.parents.push(Some(parent_id)));
        assert(self@.children =~= old(self)@.children.update(
            parent_id as int,
            old(self)@.children[parent_id as int].push(node_id),
        ).push(Seq::empty()));
        Some(node_id)
    }

    pub fn get_node_value(&self, node_id: usize) -> (r: Option<&T>)
        ensures
            match r {
                Some(v) => node_id < self@.values.len() && *v == self@.values[node_id as int],
                None => node_id >= self@.values.len(),
            },
    {
        if node_id < self.nodes.len() {
            Some(&self.nodes[node_id].value)
        } else {
            None
        }
    }

    pub fn get_node_value_mut(&mut self, node_id: usize) -> (r: Option<&mut T>)
        requires
            old(self).wf(),
        ensures
            final(self).wf(),
            match r {
                Some(m) => {
                    &&& node_id < old(self)@.values.len()
                    &&& *m == old(self)@.values[node_id as int]
                    &&& final(self)@.values =~= old(self)@.values.update(node_id as int, *final(m))
                    &&& final(self)@.parents =~= old(self)@.parents
                    &&& final(self)@.children =~= old(self)@.children
                    &&& final(self)@.root == old(self)@.root
                },
                None => node_id >= old(self)@.values.len() && final(self)@ == old(self)@,
            },
    {
        if node_id < self.nodes.len() {
            Some(&mut self.nodes[node_id].value)
        } else {
            None
        }
    }

    pub fn get_node_children_ids(&self, node_id: usize) -> (r: Option<&[usize]>)
        ensures
            match r {
                Some(c) => node_id < self@.values.len() && c@ == self@.children[node_id as int],
                None => node_id >= self@.values.len(),
            },
    {
        if node_id < self.nodes.len() {
            Some(self.nodes[node_id].children_ids.as_slice())
        } else {
            None
        }
    }
}

impl<T> TreeBase<T> for Tree<T> {
    open spec fn well_formed(&self) -> bool {
        self.wf()
    }

    fn get_root_node_id(&self) -> usize {
        Tree::get_root_node_id(self)
    }

    fn insert(&mut self, parent_id: usize, value: T) -> (r: Option<usize>) {
        Tree::insert(self, parent_id, value)
    }

    fn get_node_value(&self, node_id: usize) -> Option<&T> {
        Tree::get_node_value(self, node_id)
    }

    fn get_node_value_mut(&mut self, node_id: usize) -> (r: Option<&mut T>) {
        Tree::get_node_value_mut(self, node_id)
    }

    fn get_node_children_ids(&self, node_id: usize) -> Option<&[usize]> {
        Tree::get_node_children_ids(self, node_id)
    }
}

} // verus!
